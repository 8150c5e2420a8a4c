use symcc_fuzzing_helper::rank::rank_batch;
use symcc_fuzzing_helper::score::{bytes_less, contains_bytes, ends_with_bytes, TestcaseScore};

fn named(name: &str, size: u64) -> TestcaseScore {
    TestcaseScore::new(Some(size), Some(name.as_bytes()))
}

fn ranked_names(cases: &[(&str, u64)]) -> Vec<String> {
    let scores: Vec<TestcaseScore> = cases.iter().map(|(n, s)| named(n, *s)).collect();
    let order = rank_batch(&scores);
    order.iter().map(|i| cases[*i].0.to_string()).collect()
}

#[test]
fn test_score_ordering() {
    let min_score = TestcaseScore::minimum();
    assert!(
        TestcaseScore {
            new_coverage: true,
            ..TestcaseScore::minimum()
        } > min_score
    );
    assert!(
        TestcaseScore {
            derived_from_seed: true,
            ..TestcaseScore::minimum()
        } > min_score
    );
    assert!(
        TestcaseScore {
            file_size: -4,
            ..TestcaseScore::minimum()
        } > min_score
    );
    assert!(
        TestcaseScore {
            base_name: b"foo".to_vec(),
            ..TestcaseScore::minimum()
        } > min_score
    );
}

#[test]
fn ranks_below_agrees_with_each_criterion() {
    let min_score = TestcaseScore::minimum();
    let cov = TestcaseScore { new_coverage: true, ..TestcaseScore::minimum() };
    let seed = TestcaseScore { derived_from_seed: true, ..TestcaseScore::minimum() };
    let small = TestcaseScore { file_size: -4, ..TestcaseScore::minimum() };
    let foo = TestcaseScore { base_name: b"foo".to_vec(), ..TestcaseScore::minimum() };
    for s in [&cov, &seed, &small, &foo] {
        assert!(min_score.ranks_below(s));
        assert!(!s.ranks_below(&min_score));
    }
    assert!(!min_score.ranks_below(&TestcaseScore::minimum()));
    assert!(seed.ranks_below(&cov));
    assert!(small.ranks_below(&seed));
    assert!(foo.ranks_below(&small));
}

#[test]
fn score_reads_name_markers_and_size() {
    let s = named("id:000003,src:x+cov", 10);
    assert!(s.new_coverage);
    assert!(!s.derived_from_seed);
    assert_eq!(s.file_size, -10);
    assert_eq!(s.base_name, b"id:000003,src:x+cov".to_vec());
    let t = named("orig:seed,id:000001", 7);
    assert!(!t.new_coverage);
    assert!(t.derived_from_seed);
    assert_eq!(t.file_size, -7);
    let u = named("id:1+cov,x", 0);
    assert!(!u.new_coverage);
}

#[test]
fn unreadable_case_gets_minimum_score() {
    assert_eq!(TestcaseScore::new(None, Some(b"seed".as_slice())), TestcaseScore::minimum());
    assert_eq!(TestcaseScore::new(Some(3), None), TestcaseScore::minimum());
    let min = TestcaseScore::minimum();
    assert!(!min.new_coverage && !min.derived_from_seed);
    assert_eq!(min.file_size, i128::MIN);
    assert!(min.base_name.is_empty());
}

#[test]
fn new_coverage_ranks_ahead_of_seed_marker() {
    let names = ranked_names(&[("orig:seed,id:000001", 5), ("id:000003,src:x+cov", 5)]);
    assert_eq!(names, vec!["id:000003,src:x+cov".to_string(), "orig:seed,id:000001".to_string()]);
}

#[test]
fn smaller_files_rank_higher() {
    let names = ranked_names(&[("b", 100), ("a", 20), ("c", 3)]);
    assert_eq!(names, vec!["c", "a", "b"]);
}

#[test]
fn equal_criteria_fall_back_to_name() {
    let a = named("id:000001", 4);
    let b = named("id:000002", 4);
    assert!(a.ranks_below(&b));
    assert!(!b.ranks_below(&a));
    let names = ranked_names(&[("id:000001", 4), ("id:000002", 4)]);
    assert_eq!(names, vec!["id:000002", "id:000001"]);
}

#[test]
fn ranking_ignores_listing_order() {
    let cases = [("orig:a", 9), ("x+cov", 12), ("plain", 1), ("orig:b+cov", 40), ("zz", 1)];
    let expected = vec!["orig:b+cov", "x+cov", "orig:a", "zz", "plain"];
    assert_eq!(ranked_names(&cases), expected);
    let mut reversed = cases;
    reversed.reverse();
    assert_eq!(ranked_names(&reversed), expected);
    let rotated = [cases[2], cases[4], cases[0], cases[3], cases[1]];
    assert_eq!(ranked_names(&rotated), expected);
}

#[test]
fn vanished_case_is_ranked_last() {
    let scores = vec![
        TestcaseScore::new(None, Some(b"gone".as_slice())),
        named("zzz", 1_000_000),
        named("a", 1),
    ];
    let order = rank_batch(&scores);
    assert_eq!(order, vec![2, 1, 0]);
}

#[test]
fn empty_batch_ranks_to_nothing() {
    assert!(rank_batch(&Vec::new()).is_empty());
}

#[test]
fn byte_helpers() {
    assert!(bytes_less(b"ab", b"abc"));
    assert!(bytes_less(b"abc", b"abd"));
    assert!(!bytes_less(b"abc", b"abc"));
    assert!(!bytes_less(b"b", b"abc"));
    assert!(bytes_less(b"", b"a"));
    assert!(ends_with_bytes(b"x+cov", b"+cov"));
    assert!(!ends_with_bytes(b"cov", b"+cov"));
    assert!(contains_bytes(b"id:1,orig:x", b"orig:"));
    assert!(!contains_bytes(b"id:1,ori", b"orig:"));
    assert!(contains_bytes(b"abc", b""));
}
