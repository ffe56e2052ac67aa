use ip_generator::cidr::ranges_overlap;
use ip_generator::cidr::CidrBlock;
use ip_generator::parse::parse_cidr;
use ip_generator::table::check_ip_legality;
use ip_generator::table::filter_ip;
use ip_generator::table::ExclusionSet;

fn block(o1: u8, o2: u8, o3: u8, o4: u8, prefix: u8) -> CidrBlock {
    CidrBlock::new(o1, o2, o3, o4, prefix).expect("prefix within range")
}

#[test]
fn new_rejects_long_prefix() {
    assert_eq!(CidrBlock::new(10, 0, 0, 0, 33), None);
    assert_eq!(CidrBlock::new(10, 0, 0, 0, 255), None);
    assert!(CidrBlock::new(10, 0, 0, 0, 32).is_some());
    assert!(CidrBlock::new(10, 0, 0, 0, 0).is_some());
}

#[test]
fn new_builds_base_address() {
    let b = block(192, 168, 12, 34, 24);
    assert_eq!(b.addr, 0xC0A8_0C22);
    assert_eq!(b.prefix, 24);
}

#[test]
fn overlap_is_bidirectional() {
    let wide = block(10, 0, 0, 0, 8);
    let narrow = block(10, 200, 0, 0, 16);
    assert!(ranges_overlap(&wide, &narrow));
    assert!(ranges_overlap(&narrow, &wide));
}

#[test]
fn disjoint_ranges_do_not_overlap() {
    let a = block(10, 0, 0, 0, 8);
    let b = block(11, 0, 0, 0, 8);
    assert!(!ranges_overlap(&a, &b));
    assert!(!ranges_overlap(&b, &a));
}

#[test]
fn host_bits_do_not_narrow_the_range() {
    // 192.168.12.34/16 covers the same range as 192.168.0.0/16.
    let with_host_bits = block(192, 168, 12, 34, 16);
    let probe = block(192, 168, 200, 0, 24);
    assert!(ranges_overlap(&with_host_bits, &probe));
}

#[test]
fn filter_keeps_legal_blocks_only() {
    let table = ExclusionSet::canonical();
    let legal = block(8, 8, 0, 0, 16);
    let illegal = block(127, 0, 0, 0, 16);
    assert_eq!(filter_ip(&table, legal), Some(legal));
    assert_eq!(filter_ip(&table, illegal), None);
}

#[test]
fn parse_accepts_cidr_notation() {
    let b = parse_cidr("10.0.0.0/8").expect("well-formed notation");
    assert_eq!(b, block(10, 0, 0, 0, 8));
    let c = parse_cidr("192.168.12.34/16").expect("well-formed notation");
    // The parsed base address keeps the host bits as written.
    assert_eq!(c.addr, 0xC0A8_0C22);
    assert_eq!(c.prefix, 16);
}

#[test]
fn parse_rejects_malformed_notation() {
    assert_eq!(parse_cidr("10.0.0.0/33"), None);
    assert_eq!(parse_cidr("10.0.0.0"), None);
    assert_eq!(parse_cidr("10.0.0/8"), None);
    assert_eq!(parse_cidr("256.0.0.0/8"), None);
    assert_eq!(parse_cidr("not a network"), None);
    assert_eq!(parse_cidr(""), None);
}

#[test]
fn parsed_blocks_feed_the_legality_test() {
    let table = ExclusionSet::extended();
    let resolver = parse_cidr("8.8.8.8/32").expect("well-formed notation");
    assert!(!check_ip_legality(&table, &resolver));
    let elsewhere = parse_cidr("8.7.0.0/16").expect("well-formed notation");
    assert!(check_ip_legality(&table, &elsewhere));
}
