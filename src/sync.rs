use vstd::prelude::*;

use crate::bitmap::{MAP_SIZE, empty_map, is_novel, merge_measured, union_map};
use crate::command::{args_view, entry_name, queue_entry_name};
use crate::error::SyncError;

verus! {

/// What the synchronisation loop keeps from one iteration to the next.
pub struct SyncState {
    /// Paths of the cases already run, in the order they were run.
    pub processed: Vec<Vec<u8>>,
    /// Sequence number of the next imported case.
    pub current_test_id: u64,
    /// Union of every coverage map measured so far.
    pub bitmap: Vec<u8>,
}

/// `path` has been run before in this state.
pub open spec fn was_processed(st: SyncState, path: Seq<u8>) -> bool {
    args_view(st.processed@).contains(path)
}

/// The listed files that have not been run yet, in listing order.
pub open spec fn pending_of(st: SyncState, files: Seq<Seq<u8>>) -> Seq<Seq<u8>> {
    files.filter(|p: Seq<u8>| !was_processed(st, p))
}

fn same_bytes(a: &[u8], b: &[u8]) -> (r: bool)
    ensures
        r == (a@ == b@),
{
    if a.len() != b.len() {
        return false;
    }
    let mut i: usize = 0;
    while i < a.len()
        invariant
            a@.len() == b@.len(),
            i <= a@.len(),
            forall|j: int| 0 <= j < i ==> a@[j] == b@[j],
        decreases a@.len() - i,
    {
        if a[i] != b[i] {
            return false;
        }
        i = i + 1;
    }
    assert(a@ =~= b@);
    true
}

impl SyncState {
    /// A fresh state: nothing run, no case imported, an empty coverage map.
    pub fn new() -> (r: SyncState)
        ensures
            r.processed@.len() == 0,
            r.current_test_id == 0,
            r.bitmap@ == Seq::new(MAP_SIZE as nat, |i: int| 0u8),
    {
        SyncState { processed: Vec::new(), current_test_id: 0, bitmap: empty_map() }
    }

    /// Tells whether `path` has been run before.
    pub fn is_processed(&self, path: &[u8]) -> (r: bool)
        ensures
            r == was_processed(*self, path@),
    {
        let ghost seen = args_view(self.processed@);
        let mut i: usize = 0;
        while i < self.processed.len()
            invariant
                seen == args_view(self.processed@),
                i <= seen.len(),
                forall|j: int| 0 <= j < i ==> seen[j] != path@,
            decreases seen.len() - i,
        {
            if same_bytes(self.processed[i].as_slice(), path) {
                assert(seen[i as int] == path@);
                return true;
            }
            i = i + 1;
        }
        false
    }

    /// Keeps the listed files that have not been run yet, in listing order.
    pub fn pending_cases(&self, files: &Vec<Vec<u8>>) -> (r: Vec<Vec<u8>>)
        ensures
            args_view(r@) == pending_of(*self, args_view(files@)),
    {
        let ghost all = args_view(files@);
        let ghost pred = |p: Seq<u8>| !was_processed(*self, p);
        let mut r: Vec<Vec<u8>> = Vec::new();
        let mut i: usize = 0;
        assert(all.subrange(0, 0).filter(pred) =~= Seq::<Seq<u8>>::empty()) by {
            reveal_with_fuel(Seq::filter, 1);
        }
        assert(args_view(r@) =~= Seq::<Seq<u8>>::empty());
        while i < files.len()
            invariant
                all == args_view(files@),
                pred == (|p: Seq<u8>| !was_processed(*self, p)),
                i <= all.len(),
                args_view(r@) == all.subrange(0, i as int).filter(pred),
            decreases all.len() - i,
        {
            let ghost before = r@;
            proof {
                all.subrange(0, i as int).lemma_filter_push(all[i as int], pred);
                assert(all.subrange(0, i + 1) =~= all.subrange(0, i as int).push(all[i as int]));
            }
            if !self.is_processed(files[i].as_slice()) {
                r.push(vstd::slice::slice_to_vec(files[i].as_slice()));
                assert(args_view(r@) =~= args_view(before).push(all[i as int]));
            }
            i = i + 1;
        }
        assert(all.subrange(0, i as int) =~= all);
        r
    }

    /// Records that `path` has been run.
    pub fn mark_processed(&mut self, path: &[u8])
        ensures
            forall|q: Seq<u8>| was_processed(*final(self), q) <==> (was_processed(*old(self), q) || q == path@),
            final(self).current_test_id == old(self).current_test_id,
            final(self).bitmap@ == old(self).bitmap@,
    {
        let ghost before = args_view(self.processed@);
        self.processed.push(vstd::slice::slice_to_vec(path));
        assert(args_view(self.processed@) =~= before.push(path@));
        assert forall|q: Seq<u8>| was_processed(*self, q) <==> (before.contains(q) || q == path@) by {
            if before.contains(q) {
                let j = choose|j: int| 0 <= j < before.len() && before[j] == q;
                assert(args_view(self.processed@)[j] == q);
            }
            if q == path@ {
                assert(args_view(self.processed@)[before.len() as int] == q);
            }
        }
    }

    /// Merges the coverage map measured for a candidate. A map of the wrong
    /// length fails and changes nothing; so does a novel map once the
    /// sequence numbers are used up. Otherwise the map is merged, and a novel
    /// one yields the name under which to import the candidate, which came
    /// from the case named `orig`, and takes up the next sequence number.
    pub fn record_measurement(&mut self, measured: &[u8], orig: &[u8]) -> (r: Result<Option<Vec<u8>>, SyncError>)
        ensures
            old(self).bitmap@.len() != measured@.len() ==> r == Err::<Option<Vec<u8>>, SyncError>(
                SyncError::MapSizeMismatch { expected: old(self).bitmap@.len() as usize, actual: measured@.len() as usize },
            ) && *final(self) == *old(self),
            old(self).bitmap@.len() == measured@.len() && is_novel(old(self).bitmap@, measured@)
                && old(self).current_test_id == u64::MAX ==> r == Err::<Option<Vec<u8>>, SyncError>(
                SyncError::CounterExhausted) && *final(self) == *old(self),
            old(self).bitmap@.len() == measured@.len() && is_novel(old(self).bitmap@, measured@)
                && old(self).current_test_id < u64::MAX ==> r.is_ok() && r.unwrap().is_some()
                && r.unwrap().unwrap()@ == entry_name(old(self).current_test_id as nat, orig@)
                && final(self).current_test_id == old(self).current_test_id + 1
                && final(self).bitmap@ == union_map(old(self).bitmap@, measured@)
                && final(self).processed == old(self).processed,
            old(self).bitmap@.len() == measured@.len() && !is_novel(old(self).bitmap@, measured@) ==> r
                == Ok::<Option<Vec<u8>>, SyncError>(None) && final(self).current_test_id
                == old(self).current_test_id && final(self).bitmap@ == union_map(old(self).bitmap@, measured@)
                && final(self).processed == old(self).processed,
    {
        if self.bitmap.len() != measured.len() {
            return Err(SyncError::MapSizeMismatch { expected: self.bitmap.len(), actual: measured.len() });
        }
        if self.current_test_id == u64::MAX && would_add_bits(&self.bitmap, measured) {
            return Err(SyncError::CounterExhausted);
        }
        let interesting = match merge_measured(&mut self.bitmap, measured) {
            Ok(b) => b,
            Err(e) => {
                return Err(e);
            },
        };
        if interesting {
            let name = queue_entry_name(self.current_test_id, orig);
            self.current_test_id = self.current_test_id + 1;
            Ok(Some(name))
        } else {
            Ok(None)
        }
    }
}

/// Tells whether merging `measured` into `known` would set a new bit.
pub fn would_add_bits(known: &Vec<u8>, measured: &[u8]) -> (r: bool)
    requires
        known@.len() == measured@.len(),
    ensures
        r == is_novel(known@, measured@),
{
    let mut i: usize = 0;
    while i < known.len()
        invariant
            known@.len() == measured@.len(),
            i <= known@.len(),
            forall|j: int| 0 <= j < i ==> #[trigger] (known@[j] | measured@[j]) == known@[j],
        decreases known@.len() - i,
    {
        if known[i] | measured[i] != known[i] {
            return true;
        }
        i = i + 1;
    }
    false
}

/// Once a case has been run it is never pending again: whatever the queue
/// lists afterwards, the path is filtered out, so no case runs twice.
pub proof fn lemma_run_at_most_once(before: SyncState, after: SyncState, path: Seq<u8>, files: Seq<Seq<u8>>)
    requires
        forall|q: Seq<u8>| was_processed(after, q) <==> (was_processed(before, q) || q == path),
    ensures
        !pending_of(after, files).contains(path),
{
    broadcast use Seq::lemma_filter_pred;
    if pending_of(after, files).contains(path) {
        let i = choose|i: int| 0 <= i < pending_of(after, files).len() && pending_of(after, files)[i] == path;
        assert(was_processed(after, path));
    }
}

} // verus!
