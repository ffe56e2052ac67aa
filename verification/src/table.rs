use crate::cidr::CidrBlock;
use crate::cidr::overlaps;
use crate::cidr::ranges_overlap;
use vstd::arithmetic::power2::lemma_pow2_pos;
use vstd::prelude::*;

verus! {

/// A block is legal under a table when it conflicts with no entry: no
/// entry's address range intersects the block's range, in either
/// direction of containment.
pub open spec fn is_legal(table: Seq<CidrBlock>, block: CidrBlock) -> bool {
    forall|k: int| 0 <= k < table.len() ==> !overlaps(table[k], block)
}

/// The canonical exclusion table: loopback, the RFC 1918 private ranges,
/// link-local, the two reserved ranges, multicast, and the cloud metadata
/// host.
pub open spec fn canonical_entries() -> Seq<CidrBlock> {
    seq![
        CidrBlock { addr: 0x7F00_0000, prefix: 8 },  // 127.0.0.0/8 loopback
        CidrBlock { addr: 0x0A00_0000, prefix: 8 },  // 10.0.0.0/8 private
        CidrBlock { addr: 0xAC10_0000, prefix: 12 },  // 172.16.0.0/12 private
        CidrBlock { addr: 0xC0A8_0000, prefix: 16 },  // 192.168.0.0/16 private
        CidrBlock { addr: 0xA9FE_0000, prefix: 16 },  // 169.254.0.0/16 link-local
        CidrBlock { addr: 0x0000_0000, prefix: 8 },  // 0.0.0.0/8 "this" network
        CidrBlock { addr: 0xF000_0000, prefix: 4 },  // 240.0.0.0/4 reserved
        CidrBlock { addr: 0xE000_0000, prefix: 4 },  // 224.0.0.0/4 multicast
        CidrBlock { addr: 0xA9FE_A9FE, prefix: 32 },  // 169.254.169.254/32 metadata
    ]
}

/// The host addresses of the extended resolver list: public DNS services
/// and a short row of Level3 infrastructure hosts, each a /32.
pub open spec fn resolver_entries() -> Seq<CidrBlock> {
    seq![
        CidrBlock { addr: 0x0808_0808, prefix: 32 },  // 8.8.8.8 Google
        CidrBlock { addr: 0x0808_0404, prefix: 32 },  // 8.8.4.4 Google
        CidrBlock { addr: 0x0101_0101, prefix: 32 },  // 1.1.1.1 Cloudflare
        CidrBlock { addr: 0x0100_0001, prefix: 32 },  // 1.0.0.1 Cloudflare
        CidrBlock { addr: 0x0909_0909, prefix: 32 },  // 9.9.9.9 Quad9
        CidrBlock { addr: 0xD043_DEDE, prefix: 32 },  // 208.67.222.222 OpenDNS
        CidrBlock { addr: 0xD043_DCDC, prefix: 32 },  // 208.67.220.220 OpenDNS
        CidrBlock { addr: 0x0402_0201, prefix: 32 },  // 4.2.2.1 Level3
        CidrBlock { addr: 0x0402_0202, prefix: 32 },  // 4.2.2.2 Level3
        CidrBlock { addr: 0x0402_0203, prefix: 32 },  // 4.2.2.3 Level3
        CidrBlock { addr: 0x0402_0204, prefix: 32 },  // 4.2.2.4 Level3
        CidrBlock { addr: 0x0402_0205, prefix: 32 },  // 4.2.2.5 Level3
        CidrBlock { addr: 0x0402_0206, prefix: 32 },  // 4.2.2.6 Level3
    ]
}

/// The canonical table followed by the extended resolver list.
pub open spec fn extended_entries() -> Seq<CidrBlock> {
    canonical_entries() + resolver_entries()
}

/// An immutable, ordered collection of forbidden CIDR ranges. The order
/// only steers short-circuiting; the legality verdict never depends on it.
pub struct ExclusionSet {
    entries: Vec<CidrBlock>,
}

impl View for ExclusionSet {
    type V = Seq<CidrBlock>;

    closed spec fn view(&self) -> Seq<CidrBlock> {
        self.entries@
    }
}

impl ExclusionSet {
    /// A table is well formed when every entry is.
    pub open spec fn wf(self) -> bool {
        forall|k: int| 0 <= k < self@.len() ==> (#[trigger] self@[k]).wf()
    }

    /// Builds a table from the given entries.
    pub fn new(entries: Vec<CidrBlock>) -> (r: ExclusionSet)
        requires
            forall|k: int| 0 <= k < entries@.len() ==> (#[trigger] entries@[k]).wf(),
        ensures
            r@ == entries@,
            r.wf(),
    {
        ExclusionSet { entries }
    }

    /// Builds the canonical exclusion table.
    pub fn canonical() -> (r: ExclusionSet)
        ensures
            r@ == canonical_entries(),
            r.wf(),
    {
        let mut entries: Vec<CidrBlock> = Vec::new();
        entries.push(CidrBlock { addr: 0x7F00_0000, prefix: 8 });
        entries.push(CidrBlock { addr: 0x0A00_0000, prefix: 8 });
        entries.push(CidrBlock { addr: 0xAC10_0000, prefix: 12 });
        entries.push(CidrBlock { addr: 0xC0A8_0000, prefix: 16 });
        entries.push(CidrBlock { addr: 0xA9FE_0000, prefix: 16 });
        entries.push(CidrBlock { addr: 0x0000_0000, prefix: 8 });
        entries.push(CidrBlock { addr: 0xF000_0000, prefix: 4 });
        entries.push(CidrBlock { addr: 0xE000_0000, prefix: 4 });
        entries.push(CidrBlock { addr: 0xA9FE_A9FE, prefix: 32 });
        proof {
            assert(entries@ =~= canonical_entries());
        }
        ExclusionSet { entries }
    }

    /// Builds the extended table: the canonical entries plus the resolver
    /// hosts.
    pub fn extended() -> (r: ExclusionSet)
        ensures
            r@ == extended_entries(),
            r.wf(),
    {
        let mut table = Self::canonical();
        table.entries.push(CidrBlock { addr: 0x0808_0808, prefix: 32 });
        table.entries.push(CidrBlock { addr: 0x0808_0404, prefix: 32 });
        table.entries.push(CidrBlock { addr: 0x0101_0101, prefix: 32 });
        table.entries.push(CidrBlock { addr: 0x0100_0001, prefix: 32 });
        table.entries.push(CidrBlock { addr: 0x0909_0909, prefix: 32 });
        table.entries.push(CidrBlock { addr: 0xD043_DEDE, prefix: 32 });
        table.entries.push(CidrBlock { addr: 0xD043_DCDC, prefix: 32 });
        table.entries.push(CidrBlock { addr: 0x0402_0201, prefix: 32 });
        table.entries.push(CidrBlock { addr: 0x0402_0202, prefix: 32 });
        table.entries.push(CidrBlock { addr: 0x0402_0203, prefix: 32 });
        table.entries.push(CidrBlock { addr: 0x0402_0204, prefix: 32 });
        table.entries.push(CidrBlock { addr: 0x0402_0205, prefix: 32 });
        table.entries.push(CidrBlock { addr: 0x0402_0206, prefix: 32 });
        proof {
            assert(table@ =~= extended_entries());
        }
        table
    }

    /// The number of entries.
    pub fn entry_count(&self) -> (r: usize)
        ensures
            r == self@.len(),
    {
        self.entries.len()
    }
}

/// Decides whether `block` conflicts with no entry of `table`: the
/// membership test that the range generator applies to every candidate.
pub fn check_ip_legality(table: &ExclusionSet, block: &CidrBlock) -> (r: bool)
    requires
        table.wf(),
        block.wf(),
    ensures
        r == is_legal(table@, *block),
{
    let n = table.entries.len();
    let mut k: usize = 0;
    while k < n
        invariant
            table.wf(),
            block.wf(),
            n == table@.len(),
            k <= n,
            forall|m: int| 0 <= m < k ==> !overlaps(table@[m], *block),
        decreases n - k,
    {
        if ranges_overlap(&table.entries[k], block) {
            return false;
        }
        k += 1;
    }
    true
}

/// Returns the block when it is legal under the table, and nothing
/// otherwise.
pub fn filter_ip(table: &ExclusionSet, ip: CidrBlock) -> (r: Option<CidrBlock>)
    requires
        table.wf(),
        ip.wf(),
    ensures
        r == if is_legal(table@, ip) {
            Some(ip)
        } else {
            None::<CidrBlock>
        },
{
    if check_ip_legality(table, &ip) {
        Some(ip)
    } else {
        None
    }
}

/// A block that itself stands in a table is never legal under that table:
/// its range meets its own entry. In particular every resolver host of the
/// extended table is excluded by it.
pub proof fn lemma_entry_not_legal(table: Seq<CidrBlock>, k: int)
    requires
        0 <= k < table.len(),
        table[k].wf(),
    ensures
        !is_legal(table, table[k]),
{
    let e = table[k];
    lemma_pow2_pos((32 - e.prefix) as nat);
    assert(overlaps(e, e));
}

/// A block that conflicts with any one entry is illegal under the whole
/// table: together with the containment and symmetry lemmas of the conflict
/// relation, an excluded range rejects its subnets and its supernets alike.
pub proof fn lemma_conflicting_entry_not_legal(table: Seq<CidrBlock>, k: int, b: CidrBlock)
    requires
        0 <= k < table.len(),
        overlaps(table[k], b),
    ensures
        !is_legal(table, b),
{
}

/// Every entry of the extended table is well formed.
pub proof fn lemma_extended_entries_wf()
    ensures
        forall|k: int| 0 <= k < extended_entries().len() ==> (#[trigger] extended_entries()[k]).wf(),
{
    assert forall|k: int|
        0 <= k < extended_entries().len() implies (#[trigger] extended_entries()[k]).wf() by {
        if k < canonical_entries().len() {
            assert(extended_entries()[k] == canonical_entries()[k]);
        } else {
            assert(extended_entries()[k] == resolver_entries()[k - canonical_entries().len()]);
        }
    }
}

/// Every entry of the extended table — each named resolver host among
/// them — is illegal under that table.
pub proof fn lemma_resolver_excluded(k: int)
    requires
        0 <= k < extended_entries().len(),
    ensures
        !is_legal(extended_entries(), extended_entries()[k]),
{
    lemma_extended_entries_wf();
    lemma_entry_not_legal(extended_entries(), k);
}

} // verus!
