use crate::cidr::lemma_range_bounds;
use crate::cidr::overlaps;
use crate::cidr::CidrBlock;
use crate::table::ExclusionSet;
use crate::table::canonical_entries;
use crate::table::check_ip_legality;
use crate::table::is_legal;
use vstd::arithmetic::div_mod::lemma_mod_multiples_basic;
use vstd::arithmetic::power2::lemma2_to64;
use vstd::prelude::*;

verus! {

/// The /16 block `i.j.0.0/16`: the base address has first octet `i` and
/// second octet `j`, and every lower bit is zero.
pub open spec fn candidate16(i: int, j: int) -> CidrBlock {
    CidrBlock { addr: (i * 0x100_0000 + j * 0x1_0000) as u32, prefix: 16 }
}

/// Membership in the candidate space: the 65,536 blocks `i.j.0.0/16`.
pub open spec fn is_candidate16(b: CidrBlock) -> bool {
    exists|i: int, j: int| 0 <= i < 256 && 0 <= j < 256 && b == candidate16(i, j)
}

/// Collects the legal /16 blocks whose first octet is `i`, in base-address
/// order: the unit of work that a concurrent caller may hand to one worker
/// per first octet and merge afterwards.
pub fn generate_row(table: &ExclusionSet, i: u8) -> (r: Vec<CidrBlock>)
    requires
        table.wf(),
    ensures
        forall|k: int|
            0 <= k < r@.len() ==> is_legal(table@, #[trigger] r@[k]) && (exists|j: int|
                0 <= j < 256 && r@[k] == candidate16(i as int, j)),
        forall|j: int|
            0 <= j < 256 && is_legal(table@, candidate16(i as int, j)) ==> r@.contains(
                candidate16(i as int, j),
            ),
        forall|k1: int, k2: int| 0 <= k1 < k2 < r@.len() ==> r@[k1].addr < r@[k2].addr,
        forall|k: int|
            0 <= k < r@.len() ==> i * 0x100_0000 <= (#[trigger] r@[k]).addr < i * 0x100_0000
                + 0x100_0000,
{
    let base: u32 = (i as u32) * 0x100_0000;
    let mut r: Vec<CidrBlock> = Vec::new();
    let mut j: u32 = 0;
    while j < 256
        invariant
            table.wf(),
            j <= 256,
            base == i * 0x100_0000,
            forall|k: int|
                0 <= k < r@.len() ==> is_legal(table@, #[trigger] r@[k]) && (exists|jj: int|
                    0 <= jj < j && r@[k] == candidate16(i as int, jj)),
            forall|jj: int|
                0 <= jj < j && is_legal(table@, candidate16(i as int, jj)) ==> r@.contains(
                    candidate16(i as int, jj),
                ),
            forall|k1: int, k2: int| 0 <= k1 < k2 < r@.len() ==> r@[k1].addr < r@[k2].addr,
            forall|k: int| 0 <= k < r@.len() ==> base <= (#[trigger] r@[k]).addr < base + j * 0x1_0000,
        decreases 256 - j,
    {
        let b = CidrBlock { addr: base + j * 0x1_0000, prefix: 16 };
        proof {
            assert(b == candidate16(i as int, j as int));
        }
        let ghost old_r = r@;
        if check_ip_legality(table, &b) {
            r.push(b);
        }
        proof {
            assert forall|jj: int|
                0 <= jj < j + 1 && is_legal(table@, candidate16(i as int, jj)) implies r@.contains(
                candidate16(i as int, jj),
            ) by {
                if jj < j {
                    let k = choose|k: int|
                        0 <= k < old_r.len() && old_r[k] == candidate16(i as int, jj);
                    assert(r@[k] == candidate16(i as int, jj));
                } else {
                    assert(r@[r@.len() - 1] == b);
                }
            }
        }
        j += 1;
    }
    proof {
        assert forall|k: int|
            0 <= k < r@.len() implies is_legal(table@, #[trigger] r@[k]) && (exists|j2: int|
            0 <= j2 < 256 && r@[k] == candidate16(i as int, j2)) by {
            let jj = choose|jj: int| 0 <= jj < j && r@[k] == candidate16(i as int, jj);
            assert(0 <= jj < 256 && r@[k] == candidate16(i as int, jj));
        }
    }
    r
}

/// Enumerates all 65,536 /16 blocks and keeps those legal under the table.
/// The result holds exactly the legal candidates, each exactly once;
/// callers must not rely on its order.
pub fn generate_ips(table: &ExclusionSet) -> (r: Vec<CidrBlock>)
    requires
        table.wf(),
    ensures
        forall|b: CidrBlock| #[trigger] r@.contains(b) <==> is_candidate16(b) && is_legal(table@, b),
        r@.no_duplicates(),
{
    let mut r: Vec<CidrBlock> = Vec::new();
    let mut i: u32 = 0;
    while i < 256
        invariant
            table.wf(),
            i <= 256,
            forall|k: int|
                0 <= k < r@.len() ==> is_legal(table@, #[trigger] r@[k]) && (exists|
                    ii: int,
                    jj: int,
                |
                    0 <= ii < i && 0 <= jj < 256 && r@[k] == candidate16(ii, jj)),
            forall|ii: int, jj: int|
                0 <= ii < i && 0 <= jj < 256 && is_legal(table@, candidate16(ii, jj))
                    ==> r@.contains(candidate16(ii, jj)),
            forall|k1: int, k2: int| 0 <= k1 < k2 < r@.len() ==> r@[k1].addr < r@[k2].addr,
            forall|k: int| 0 <= k < r@.len() ==> (#[trigger] r@[k]).addr < i * 0x100_0000,
        decreases 256 - i,
    {
        let ghost prev = r@;
        let mut row = generate_row(table, i as u8);
        let ghost row_view = row@;
        r.append(&mut row);
        proof {
            assert(r@ == prev + row_view);
            assert forall|k: int|
                0 <= k < r@.len() implies is_legal(table@, #[trigger] r@[k]) && (exists|
                ii: int,
                jj: int,
            |
                0 <= ii < i + 1 && 0 <= jj < 256 && r@[k] == candidate16(ii, jj)) by {
                if k < prev.len() {
                    assert(r@[k] == prev[k]);
                } else {
                    assert(r@[k] == row_view[k - prev.len()]);
                    let jj = choose|jj: int|
                        0 <= jj < 256 && row_view[k - prev.len()] == candidate16(i as int, jj);
                    assert(r@[k] == candidate16(i as int, jj));
                }
            }
            assert forall|ii: int, jj: int|
                0 <= ii < i + 1 && 0 <= jj < 256 && is_legal(table@, candidate16(ii, jj)) implies r@
                .contains(candidate16(ii, jj)) by {
                if ii < i {
                    let k = choose|k: int|
                        0 <= k < prev.len() && prev[k] == candidate16(ii, jj);
                    assert(r@[k] == candidate16(ii, jj));
                } else {
                    assert(row_view.contains(candidate16(i as int, jj)));
                    let k = choose|k: int|
                        0 <= k < row_view.len() && row_view[k] == candidate16(i as int, jj);
                    assert(r@[prev.len() + k] == candidate16(ii, jj));
                }
            }
            assert forall|k1: int, k2: int| 0 <= k1 < k2 < r@.len() implies r@[k1].addr
                < r@[k2].addr by {
                if k2 < prev.len() {
                } else if k1 < prev.len() {
                    assert(r@[k1] == prev[k1]);
                    assert(r@[k2] == row_view[k2 - prev.len()]);
                } else {
                    assert(r@[k1] == row_view[k1 - prev.len()]);
                    assert(r@[k2] == row_view[k2 - prev.len()]);
                }
            }
        }
        i += 1;
    }
    proof {
        assert forall|b: CidrBlock| r@.contains(b) implies is_candidate16(b) && is_legal(
            table@,
            b,
        ) by {
            let k = choose|k: int| 0 <= k < r@.len() && r@[k] == b;
            assert(is_legal(table@, r@[k]));
        }
        assert forall|b: CidrBlock| is_candidate16(b) && is_legal(table@, b) implies r@.contains(
            b,
        ) by {
            let (ii, jj) = choose|ii: int, jj: int|
                0 <= ii < 256 && 0 <= jj < 256 && b == candidate16(ii, jj);
            assert(r@.contains(candidate16(ii, jj)));
        }
        assert forall|k1: int, k2: int|
            0 <= k1 < r@.len() && 0 <= k2 < r@.len() && k1 != k2 implies r@[k1] != r@[k2] by {
            if k1 < k2 {
                assert(r@[k1].addr < r@[k2].addr);
            } else {
                assert(r@[k2].addr < r@[k1].addr);
            }
        }
        assert(r@.no_duplicates());
    }
    r
}

/// Generation is deterministic: two collections that each hold exactly the
/// legal candidates — in whatever order they were produced, by however many
/// workers — are equal as sets.
pub proof fn lemma_generate_deterministic(
    table: Seq<CidrBlock>,
    r1: Seq<CidrBlock>,
    r2: Seq<CidrBlock>,
)
    requires
        forall|b: CidrBlock| #[trigger] r1.contains(b) <==> is_candidate16(b) && is_legal(table, b),
        forall|b: CidrBlock| #[trigger] r2.contains(b) <==> is_candidate16(b) && is_legal(table, b),
    ensures
        r1.to_set() == r2.to_set(),
{
    broadcast use vstd::set::group_set_axioms;

    assert forall|b: CidrBlock| r1.to_set().contains(b) == r2.to_set().contains(b) by {
        assert(r1.to_set().contains(b) == r1.contains(b));
        assert(r2.to_set().contains(b) == r2.contains(b));
        assert(r1.contains(b) <==> is_candidate16(b) && is_legal(table, b));
        assert(r2.contains(b) <==> is_candidate16(b) && is_legal(table, b));
    }
    assert(r1.to_set() =~= r2.to_set());
}

/// The baseline candidate `8.8.0.0/16` conflicts with no entry of the
/// canonical table: the resolver hosts are not part of that table, and no
/// excluded category touches the `8.0.0.0/8` space.
pub proof fn lemma_baseline_block_legal()
    ensures
        is_legal(canonical_entries(), candidate16(8, 8)),
{
    lemma2_to64();
    let b = candidate16(8, 8);
    assert(b.addr == 0x0808_0000);
    assert(b.size() == 0x1_0000);
    lemma_range_bounds(b);
    assert forall|k: int|
        0 <= k < canonical_entries().len() implies !overlaps(canonical_entries()[k], b) by {
        let e = canonical_entries()[k];
        assert(e.wf());
        lemma_range_bounds(e);
    }
}

/// Every /16 block of the loopback space, `127.i.0.0/16`, conflicts with
/// the loopback entry of the canonical table and is therefore illegal.
pub proof fn lemma_loopback_excluded(i: int)
    requires
        0 <= i < 256,
    ensures
        !is_legal(canonical_entries(), candidate16(127, i)),
{
    let e = canonical_entries()[0];
    let b = candidate16(127, i);
    lemma2_to64();
    assert(0 <= 0x7F00_0000 + i * 0x1_0000 < 0x1_0000_0000);
    assert(b.addr == 0x7F00_0000 + i * 0x1_0000);
    assert(e.size() == 0x100_0000);
    assert(b.size() == 0x1_0000);
    lemma_mod_multiples_basic(0x7F, 0x100_0000);
    assert(0x7F00_0000int % 0x100_0000int == 0);
    assert((0x7F00 + i) * 0x1_0000 == 0x7F00_0000 + i * 0x1_0000);
    lemma_mod_multiples_basic(0x7F00 + i, 0x1_0000);
    assert(b.addr as int % 0x1_0000 == 0);
    assert(e.range_first() == 0x7F00_0000);
    assert(e.range_last() == 0x7FFF_FFFF);
    assert(b.range_first() == b.addr);
    assert(overlaps(e, b));
    assert(!is_legal(canonical_entries(), b));
}

} // verus!
