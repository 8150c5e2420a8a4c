use vstd::prelude::*;

use crate::error::SyncError;

verus! {

/// Length in bytes of every coverage map.
pub const MAP_SIZE: usize = 65536;

/// The bitwise union of two coverage maps of equal length.
pub open spec fn union_map(known: Seq<u8>, new: Seq<u8>) -> Seq<u8>
    recommends
        known.len() == new.len(),
{
    Seq::new(known.len(), |i: int| known[i] | new[i])
}

/// A measurement is novel when it sets a bit that the known map lacks.
pub open spec fn is_novel(known: Seq<u8>, new: Seq<u8>) -> bool {
    exists|i: int| 0 <= i < known.len() && #[trigger] (known[i] | new[i]) != known[i]
}

/// Merges `new` into `known` and reports whether any bit was added.
pub fn merge_bitmap(known: &mut Vec<u8>, new: &[u8]) -> (interesting: bool)
    requires
        old(known)@.len() == new@.len(),
    ensures
        final(known)@ == union_map(old(known)@, new@),
        interesting == is_novel(old(known)@, new@),
{
    let ghost before = known@;
    let mut interesting = false;
    let mut i: usize = 0;
    while i < known.len()
        invariant
            known@.len() == before.len(),
            before.len() == new@.len(),
            0 <= i <= before.len(),
            forall|j: int| 0 <= j < i ==> known@[j] == #[trigger] (before[j] | new@[j]),
            forall|j: int| i <= j < before.len() ==> known@[j] == before[j],
            interesting <==> exists|j: int| 0 <= j < i && #[trigger] (before[j] | new@[j]) != before[j],
        decreases before.len() - i,
    {
        let k = known[i];
        let updated = k | new[i];
        if updated != k {
            interesting = true;
        }
        known.set(i, updated);
        proof {
            if updated != k {
                assert((before[i as int] | new@[i as int]) != before[i as int]);
            }
        }
        i = i + 1;
        assert(interesting <==> exists|j: int|
            0 <= j < i && #[trigger] (before[j] | new@[j]) != before[j]) by {
            if !interesting {
                assert forall|j: int| 0 <= j < i implies (before[j] | new@[j]) == before[j] by {
                    if j == i - 1 {
                    } else {
                        assert(!(exists|j: int| 0 <= j < i - 1 && #[trigger] (before[j] | new@[j]) != before[j]));
                    }
                }
            }
        }
    }
    assert(known@ =~= union_map(before, new@));
    interesting
}


/// Every bit set in `a` is set in `b`.
pub open spec fn bits_within(a: Seq<u8>, b: Seq<u8>) -> bool {
    a.len() == b.len() && forall|i: int| 0 <= i < a.len() ==> #[trigger] (a[i] | b[i]) == b[i]
}

/// The map reached from `known` after merging each measurement of `ms` in turn.
pub open spec fn merge_all(known: Seq<u8>, ms: Seq<Seq<u8>>) -> Seq<u8>
    decreases ms.len(),
{
    if ms.len() == 0 {
        known
    } else {
        union_map(merge_all(known, ms.drop_last()), ms.last())
    }
}

/// Merging never clears a bit: the old map lies within the merged one.
pub proof fn lemma_merge_keeps_bits(known: Seq<u8>, new: Seq<u8>)
    requires
        known.len() == new.len(),
    ensures
        bits_within(known, union_map(known, new)),
{
    assert forall|i: int| 0 <= i < known.len() implies #[trigger] (known[i] | union_map(known, new)[i])
        == union_map(known, new)[i] by {
        let a = known[i];
        let b = new[i];
        assert((a | (a | b)) == (a | b)) by (bit_vector);
    }
}

proof fn lemma_bits_within_refl(a: Seq<u8>)
    ensures
        bits_within(a, a),
{
    assert forall|i: int| 0 <= i < a.len() implies #[trigger] (a[i] | a[i]) == a[i] by {
        let x = a[i];
        assert((x | x) == x) by (bit_vector);
    }
}

proof fn lemma_bits_within_trans(a: Seq<u8>, b: Seq<u8>, c: Seq<u8>)
    requires
        bits_within(a, b),
        bits_within(b, c),
    ensures
        bits_within(a, c),
{
    assert forall|i: int| 0 <= i < a.len() implies #[trigger] (a[i] | c[i]) == c[i] by {
        let x = a[i];
        let y = b[i];
        let z = c[i];
        assert((x | y) == y);
        assert((y | z) == z);
        assert(((x | y) == y && (y | z) == z) ==> (x | z) == z) by (bit_vector);
    }
}

/// Over any run of measurements of the right length, each bit set at some
/// point stays set in every later map.
pub proof fn lemma_merge_all_monotone(known: Seq<u8>, ms: Seq<Seq<u8>>, k: nat)
    requires
        k <= ms.len(),
        forall|j: int| 0 <= j < ms.len() ==> (#[trigger] ms[j]).len() == known.len(),
    ensures
        merge_all(known, ms).len() == known.len(),
        bits_within(merge_all(known, ms.take(k as int)), merge_all(known, ms)),
    decreases ms.len(),
{
    if ms.len() == 0 {
        assert(ms.take(k as int) =~= ms);
        lemma_bits_within_refl(known);
    } else if k == ms.len() {
        assert(ms.take(k as int) =~= ms);
        lemma_merge_all_monotone(known, ms.drop_last(), 0);
        lemma_bits_within_refl(merge_all(known, ms));
    } else {
        let prev = ms.drop_last();
        lemma_merge_all_monotone(known, prev, k);
        assert(prev.take(k as int) =~= ms.take(k as int));
        lemma_merge_keeps_bits(merge_all(known, prev), ms.last());
        lemma_bits_within_trans(
            merge_all(known, ms.take(k as int)),
            merge_all(known, prev),
            merge_all(known, ms),
        );
    }
}

/// A measurement is novel exactly when merging it changes the map.
pub proof fn lemma_novel_iff_changed(known: Seq<u8>, new: Seq<u8>)
    requires
        known.len() == new.len(),
    ensures
        is_novel(known, new) <==> union_map(known, new) != known,
{
    if is_novel(known, new) {
        let i = choose|i: int| 0 <= i < known.len() && #[trigger] (known[i] | new[i]) != known[i];
        assert(union_map(known, new)[i] != known[i]);
    } else if union_map(known, new) != known {
        assert(union_map(known, new) =~= known);
    }
}

/// Checks the length of a measured map, then merges it into `known`.
/// Fails, leaving `known` as it was, exactly when the lengths differ.
pub fn merge_measured(known: &mut Vec<u8>, measured: &[u8]) -> (r: Result<bool, SyncError>)
    ensures
        old(known)@.len() != measured@.len() ==> r == Err::<bool, SyncError>(
            SyncError::MapSizeMismatch { expected: old(known)@.len() as usize, actual: measured@.len() as usize },
        ) && final(known)@ == old(known)@,
        old(known)@.len() == measured@.len() ==> r == Ok::<bool, SyncError>(is_novel(old(known)@, measured@))
            && final(known)@ == union_map(old(known)@, measured@),
{
    if known.len() != measured.len() {
        return Err(SyncError::MapSizeMismatch { expected: known.len(), actual: measured.len() });
    }
    let interesting = merge_bitmap(known, measured);
    Ok(interesting)
}

/// A map of `MAP_SIZE` bytes with no bit set.
pub fn empty_map() -> (r: Vec<u8>)
    ensures
        r@ == Seq::new(MAP_SIZE as nat, |i: int| 0u8),
{
    let mut r: Vec<u8> = Vec::new();
    let mut i: usize = 0;
    while i < MAP_SIZE
        invariant
            i <= MAP_SIZE,
            r@ == Seq::new(i as nat, |j: int| 0u8),
        decreases MAP_SIZE - i,
    {
        r.push(0u8);
        i = i + 1;
        assert(r@ =~= Seq::new(i as nat, |j: int| 0u8));
    }
    r
}

} // verus!
