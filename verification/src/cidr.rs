use vstd::arithmetic::div_mod::lemma_mod_bound;
use vstd::arithmetic::div_mod::lemma_mod_decreases;
use vstd::arithmetic::power2::lemma2_to64;
use vstd::arithmetic::power2::lemma_pow2_pos;
use vstd::arithmetic::power2::lemma_pow2_strictly_increases;
use vstd::arithmetic::power2::pow2;
use vstd::bits::lemma_u64_shl_is_mul;
use vstd::prelude::*;

verus! {

/// An IPv4 network: a base address and a prefix length, as written in CIDR
/// notation `a.b.c.d/p`. Two blocks are equal iff base and prefix match.
#[derive(Clone, Copy, Debug, PartialEq, Eq, PartialOrd, Ord, Hash, Structural)]
pub struct CidrBlock {
    pub addr: u32,
    pub prefix: u8,
}

impl CidrBlock {
    /// A block is well formed when its prefix length is at most 32.
    pub open spec fn wf(self) -> bool {
        self.prefix <= 32
    }

    /// The number of addresses the block's range covers: 2^(32 - prefix).
    pub open spec fn size(self) -> int {
        pow2((32 - self.prefix) as nat) as int
    }

    /// The lowest address of the block's range. Host bits below the prefix
    /// do not narrow the range: they are masked away, as CIDR semantics ask.
    pub open spec fn range_first(self) -> int {
        self.addr - self.addr as int % self.size()
    }

    /// The highest address of the block's range.
    pub open spec fn range_last(self) -> int {
        self.range_first() + self.size() - 1
    }

    /// Builds the block `o1.o2.o3.o4/prefix`; rejects a prefix length
    /// over 32, the only way such a block can be malformed.
    pub fn new(o1: u8, o2: u8, o3: u8, o4: u8, prefix: u8) -> (r: Option<CidrBlock>)
        ensures
            r is Some <==> prefix <= 32,
            r matches Some(b) ==> b.wf() && b.prefix == prefix && b.addr
                == o1 * 0x100_0000 + o2 * 0x1_0000 + o3 * 0x100 + o4,
    {
        if prefix <= 32 {
            let addr: u32 = (o1 as u32) * 0x100_0000 + (o2 as u32) * 0x1_0000 + (o3 as u32)
                * 0x100 + (o4 as u32);
            Some(CidrBlock { addr, prefix })
        } else {
            None
        }
    }

    /// The number of addresses the block covers, as a machine integer.
    pub fn range_len(&self) -> (r: u64)
        requires
            self.wf(),
        ensures
            r == self.size(),
            1 <= r <= 0x1_0000_0000u64,
    {
        let shift: u64 = (32 - self.prefix) as u64;
        proof {
            lemma2_to64();
            lemma_pow2_pos(shift as nat);
            if shift < 32 {
                lemma_pow2_strictly_increases(shift as nat, 32);
            }
            lemma_u64_shl_is_mul(1u64, shift);
        }
        1u64 << shift
    }

    /// The lowest address of the block's range.
    pub fn first_addr(&self) -> (r: u64)
        requires
            self.wf(),
        ensures
            r == self.range_first(),
            r <= self.addr,
    {
        let len = self.range_len();
        let a = self.addr as u64;
        proof {
            lemma_mod_decreases(a as nat, len as nat);
        }
        a - a % len
    }

    /// The highest address of the block's range.
    pub fn last_addr(&self) -> (r: u64)
        requires
            self.wf(),
        ensures
            r == self.range_last(),
    {
        let len = self.range_len();
        let f = self.first_addr();
        f + len - 1
    }
}

/// Whether the address ranges of two blocks intersect at all, regardless
/// of which of the two is the larger: the conflict relation of the table.
pub open spec fn overlaps(a: CidrBlock, b: CidrBlock) -> bool {
    a.range_first() <= b.range_last() && b.range_first() <= a.range_last()
}

/// Decides whether the address ranges of two well-formed blocks intersect.
pub fn ranges_overlap(a: &CidrBlock, b: &CidrBlock) -> (r: bool)
    requires
        a.wf(),
        b.wf(),
    ensures
        r == overlaps(*a, *b),
{
    a.first_addr() <= b.last_addr() && b.first_addr() <= a.last_addr()
}

/// A well-formed block's range reaches no further than one block size from
/// its base address: the base lies inside the range, and the range ends
/// strictly before base plus size in both directions.
pub proof fn lemma_range_bounds(b: CidrBlock)
    requires
        b.wf(),
    ensures
        b.addr - b.size() < b.range_first() <= b.addr,
        b.addr <= b.range_last() < b.addr + b.size(),
{
    lemma_pow2_pos((32 - b.prefix) as nat);
    lemma_mod_bound(b.addr as int, b.size());
}

/// Conflict is symmetric: the ranges intersect regardless of which block
/// stands on which side of the test.
pub proof fn lemma_overlaps_symmetric(a: CidrBlock, b: CidrBlock)
    ensures
        overlaps(a, b) == overlaps(b, a),
{
}

/// Containment in either direction is a conflict: when one well-formed
/// block's range lies fully inside the other's, the two overlap. A /16
/// that holds an excluded /32 host conflicts with it just as a /16 inside
/// an excluded /8 does.
pub proof fn lemma_containment_overlaps(outer: CidrBlock, inner: CidrBlock)
    requires
        outer.wf(),
        inner.wf(),
        outer.range_first() <= inner.range_first(),
        inner.range_last() <= outer.range_last(),
    ensures
        overlaps(outer, inner),
        overlaps(inner, outer),
{
    lemma_pow2_pos((32 - inner.prefix) as nat);
}

} // verus!
