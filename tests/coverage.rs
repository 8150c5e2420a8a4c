use symcc_fuzzing_helper::bitmap::{empty_map, merge_bitmap, merge_measured, MAP_SIZE};
use symcc_fuzzing_helper::error::SyncError;
use symcc_fuzzing_helper::sync::{would_add_bits, SyncState};

fn map_with(bits: &[(usize, u8)]) -> Vec<u8> {
    let mut m = vec![0u8; MAP_SIZE];
    for (i, b) in bits {
        m[*i] = *b;
    }
    m
}

#[test]
fn merge_sets_union_and_reports_novelty() {
    let mut known = vec![0b0001u8, 0b1000, 0];
    assert!(merge_bitmap(&mut known, &[0b0010, 0b1000, 0]));
    assert_eq!(known, vec![0b0011, 0b1000, 0]);
    assert!(!merge_bitmap(&mut known, &[0b0001, 0b1000, 0]));
    assert_eq!(known, vec![0b0011, 0b1000, 0]);
}

#[test]
fn merged_bits_are_never_cleared() {
    let mut known = vec![0u8; 4];
    let runs: [[u8; 4]; 4] = [[1, 0, 0, 0], [0, 2, 0, 0], [0, 0, 0, 0], [1, 0, 4, 0x80]];
    let mut history: Vec<Vec<u8>> = Vec::new();
    for r in runs.iter() {
        merge_bitmap(&mut known, r);
        for earlier in &history {
            for (a, b) in earlier.iter().zip(known.iter()) {
                assert_eq!(a | b, *b);
            }
        }
        history.push(known.clone());
    }
    assert_eq!(known, vec![1, 2, 4, 0x80]);
}

#[test]
fn novelty_matches_union_changing_the_map() {
    let known = vec![0xF0u8, 0x0F];
    assert!(!would_add_bits(&known, &[0x10, 0x01]));
    assert!(would_add_bits(&known, &[0x01, 0x01]));
    let mut k = known.clone();
    let r = merge_measured(&mut k, &[0x10, 0x01]);
    assert_eq!(r, Ok(false));
    assert_eq!(k, known);
}

#[test]
fn wrong_map_size_is_refused() {
    let mut known = empty_map();
    assert_eq!(known.len(), MAP_SIZE);
    let short = vec![1u8; MAP_SIZE - 4];
    let r = merge_measured(&mut known, &short);
    assert_eq!(r, Err(SyncError::MapSizeMismatch { expected: MAP_SIZE, actual: MAP_SIZE - 4 }));
    assert!(known.iter().all(|b| *b == 0));
}

#[test]
fn first_candidate_is_imported() {
    let mut st = SyncState::new();
    let r = st.record_measurement(&map_with(&[(7, 1)]), b"seed1");
    assert_eq!(r, Ok(Some(b"id:000000,src:seed1".to_vec())));
    assert_eq!(st.current_test_id, 1);
    assert_eq!(st.bitmap[7], 1);
}

#[test]
fn identical_coverage_is_not_imported_again() {
    let mut st = SyncState::new();
    let m = map_with(&[(7, 1), (300, 4)]);
    assert_eq!(st.record_measurement(&m, b"seed1"), Ok(Some(b"id:000000,src:seed1".to_vec())));
    assert_eq!(st.record_measurement(&m, b"seed2"), Ok(None));
    assert_eq!(st.current_test_id, 1);
    let more = map_with(&[(8, 1)]);
    assert_eq!(st.record_measurement(&more, b"seed2"), Ok(Some(b"id:000001,src:seed2".to_vec())));
    assert_eq!(st.current_test_id, 2);
}

#[test]
fn short_map_aborts_before_any_import() {
    let mut st = SyncState::new();
    let short = vec![0xFFu8; MAP_SIZE - 4];
    let r = st.record_measurement(&short, b"seed1");
    assert_eq!(r, Err(SyncError::MapSizeMismatch { expected: MAP_SIZE, actual: MAP_SIZE - 4 }));
    assert_eq!(st.current_test_id, 0);
    assert!(st.bitmap.iter().all(|b| *b == 0));
}

#[test]
fn exhausted_counter_is_refused() {
    let mut st = SyncState::new();
    st.current_test_id = u64::MAX;
    let r = st.record_measurement(&map_with(&[(1, 1)]), b"s");
    assert_eq!(r, Err(SyncError::CounterExhausted));
    assert_eq!(st.bitmap[1], 0);
    assert_eq!(st.record_measurement(&map_with(&[]), b"s"), Ok(None));
}

#[test]
fn processed_cases_are_not_pending() {
    let mut st = SyncState::new();
    let files = vec![b"q/a".to_vec(), b"q/b".to_vec(), b"q/c".to_vec()];
    assert_eq!(st.pending_cases(&files), files);
    st.mark_processed(b"q/b");
    assert!(st.is_processed(b"q/b"));
    assert!(!st.is_processed(b"q/a"));
    assert_eq!(st.pending_cases(&files), vec![b"q/a".to_vec(), b"q/c".to_vec()]);
    st.mark_processed(b"q/a");
    st.mark_processed(b"q/c");
    assert!(st.pending_cases(&files).is_empty());
}
