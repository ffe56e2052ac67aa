use ip_generator::cidr::CidrBlock;
use ip_generator::generator::generate_ips;
use ip_generator::generator::generate_row;
use ip_generator::table::check_ip_legality;
use ip_generator::table::ExclusionSet;

fn block(o1: u8, o2: u8, o3: u8, o4: u8, prefix: u8) -> CidrBlock {
    CidrBlock::new(o1, o2, o3, o4, prefix).expect("prefix within range")
}

#[test]
fn generate_full_ip_set() {
    let table = ExclusionSet::canonical();
    assert_eq!(generate_ips(&table).len(), 56558);
}

#[test]
fn deny_localhost() {
    let table = ExclusionSet::canonical();
    for i in 0..=255u8 {
        assert!(!check_ip_legality(&table, &block(127, i, 0, 0, 16)));
    }
}

#[test]
fn main_generate_full_ip_set() {
    let table = ExclusionSet::canonical();
    assert_eq!(generate_ips(&table).len(), 56558);
}

#[test]
fn main_deny_localhost() {
    let table = ExclusionSet::canonical();
    for i in 0..=255u8 {
        assert!(!check_ip_legality(&table, &block(127, i, 0, 0, 16)));
    }
}

#[test]
fn generation_is_deterministic() {
    let table = ExclusionSet::canonical();
    let mut first = generate_ips(&table);
    let mut second = generate_ips(&table);
    first.sort();
    second.sort();
    assert_eq!(first, second);
}

#[test]
fn row_fan_out_matches_single_scan() {
    // Merging per-octet rows, even collected in reverse order, yields the
    // same set as the single sequential scan.
    let table = ExclusionSet::canonical();
    let mut merged: Vec<CidrBlock> = Vec::new();
    for i in (0..=255u8).rev() {
        merged.extend(generate_row(&table, i));
    }
    let mut whole = generate_ips(&table);
    merged.sort();
    whole.sort();
    assert_eq!(merged, whole);
}

#[test]
fn row_counts() {
    let table = ExclusionSet::canonical();
    // The loopback octet is fully excluded.
    assert_eq!(generate_row(&table, 127).len(), 0);
    // No exclusion touches the 8.x.y.z space in the canonical table.
    assert_eq!(generate_row(&table, 8).len(), 256);
    // 172.16.0.0/12 removes sixteen /16 blocks from the 172 row.
    assert_eq!(generate_row(&table, 172).len(), 240);
    // The reserved and multicast /4 ranges empty their rows.
    assert_eq!(generate_row(&table, 255).len(), 0);
    assert_eq!(generate_row(&table, 224).len(), 0);
}

#[test]
fn excluded_categories_rejected() {
    let table = ExclusionSet::canonical();
    // One candidate from each excluded category.
    assert!(!check_ip_legality(&table, &block(10, 5, 0, 0, 16)));
    assert!(!check_ip_legality(&table, &block(172, 16, 0, 0, 16)));
    assert!(!check_ip_legality(&table, &block(192, 168, 0, 0, 16)));
    assert!(!check_ip_legality(&table, &block(169, 254, 0, 0, 16)));
    assert!(!check_ip_legality(&table, &block(0, 42, 0, 0, 16)));
    assert!(!check_ip_legality(&table, &block(240, 0, 0, 0, 16)));
    assert!(!check_ip_legality(&table, &block(224, 1, 0, 0, 16)));
    assert!(!check_ip_legality(&table, &block(169, 254, 169, 254, 32)));
}

#[test]
fn subnet_of_excluded_range_rejected() {
    // A /16 inside an excluded /8 conflicts with it.
    let table = ExclusionSet::canonical();
    assert!(!check_ip_legality(&table, &block(10, 0, 0, 0, 16)));
}

#[test]
fn candidate_containing_excluded_host_rejected() {
    // The other direction of containment: a /16 that holds an excluded /32.
    let entries = vec![block(1, 2, 3, 4, 32)];
    let table = ExclusionSet::new(entries);
    assert!(!check_ip_legality(&table, &block(1, 2, 0, 0, 16)));
    assert!(check_ip_legality(&table, &block(1, 3, 0, 0, 16)));
}

#[test]
fn baseline_block_accepted() {
    // 8.8.0.0/16 is legal under the canonical table: the resolver hosts
    // are not part of it.
    let table = ExclusionSet::canonical();
    assert!(check_ip_legality(&table, &block(8, 8, 0, 0, 16)));
}

#[test]
fn resolver_hosts_rejected_by_extended_table() {
    let table = ExclusionSet::extended();
    let resolvers = [
        (8u8, 8u8, 8u8, 8u8),
        (8, 8, 4, 4),
        (1, 1, 1, 1),
        (1, 0, 0, 1),
        (9, 9, 9, 9),
        (208, 67, 222, 222),
        (208, 67, 220, 220),
        (4, 2, 2, 1),
        (4, 2, 2, 2),
        (4, 2, 2, 3),
        (4, 2, 2, 4),
        (4, 2, 2, 5),
        (4, 2, 2, 6),
    ];
    for (o1, o2, o3, o4) in resolvers {
        assert!(!check_ip_legality(&table, &block(o1, o2, o3, o4, 32)));
    }
    // Under the extended table the 8.8.0.0/16 candidate now conflicts
    // with the Google resolver hosts.
    assert!(!check_ip_legality(&table, &block(8, 8, 0, 0, 16)));
}

#[test]
fn whole_space_block_rejected() {
    // A /0 covers every address, so it conflicts with every entry.
    let table = ExclusionSet::canonical();
    assert!(!check_ip_legality(&table, &block(0, 0, 0, 0, 0)));
}

#[test]
fn table_sizes() {
    assert_eq!(ExclusionSet::canonical().entry_count(), 9);
    assert_eq!(ExclusionSet::extended().entry_count(), 22);
}
