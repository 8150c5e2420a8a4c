use vstd::prelude::*;

verus! {

/// Strict lexicographic order on byte strings; a proper prefix comes first.
pub open spec fn bytes_lt(a: Seq<u8>, b: Seq<u8>) -> bool
    decreases a.len(),
{
    if b.len() == 0 {
        false
    } else if a.len() == 0 {
        true
    } else if a[0] != b[0] {
        a[0] < b[0]
    } else {
        bytes_lt(a.drop_first(), b.drop_first())
    }
}

pub(crate) proof fn lemma_bytes_lt_trans(a: Seq<u8>, b: Seq<u8>, c: Seq<u8>)
    requires
        bytes_lt(a, b),
        bytes_lt(b, c),
    ensures
        bytes_lt(a, c),
    decreases a.len(),
{
    if a.len() > 0 && a[0] == b[0] && b[0] == c[0] {
        lemma_bytes_lt_trans(a.drop_first(), b.drop_first(), c.drop_first());
    }
}

pub(crate) proof fn lemma_bytes_lt_asym(a: Seq<u8>, b: Seq<u8>)
    ensures
        !(bytes_lt(a, b) && bytes_lt(b, a)),
    decreases a.len(),
{
    if a.len() > 0 && b.len() > 0 && a[0] == b[0] {
        lemma_bytes_lt_asym(a.drop_first(), b.drop_first());
    }
}

pub(crate) proof fn lemma_bytes_lt_total(a: Seq<u8>, b: Seq<u8>)
    ensures
        bytes_lt(a, b) || bytes_lt(b, a) || a == b,
    decreases a.len(),
{
    if a.len() == 0 && b.len() == 0 {
        assert(a =~= b);
    } else if a.len() > 0 && b.len() > 0 && a[0] == b[0] {
        let (ta, tb) = (a.drop_first(), b.drop_first());
        lemma_bytes_lt_total(ta, tb);
        if ta == tb {
            assert(a =~= seq![a[0]] + ta);
            assert(b =~= seq![b[0]] + tb);
        }
    }
}

/// Compares two byte strings in lexicographic order.
pub fn bytes_less(a: &[u8], b: &[u8]) -> (r: bool)
    ensures
        r == bytes_lt(a@, b@),
{
    let mut i: usize = 0;
    assert(a@.subrange(0, a@.len() as int) =~= a@);
    assert(b@.subrange(0, b@.len() as int) =~= b@);
    while i < a.len() && i < b.len() && a[i] == b[i]
        invariant
            i <= a@.len(),
            i <= b@.len(),
            bytes_lt(a@, b@) == bytes_lt(a@.subrange(i as int, a@.len() as int), b@.subrange(i as int, b@.len() as int)),
        decreases a@.len() - i,
    {
        let ghost sa = a@.subrange(i as int, a@.len() as int);
        let ghost sb = b@.subrange(i as int, b@.len() as int);
        assert(sa.drop_first() =~= a@.subrange(i + 1, a@.len() as int));
        assert(sb.drop_first() =~= b@.subrange(i + 1, b@.len() as int));
        i = i + 1;
    }
    let ghost sa = a@.subrange(i as int, a@.len() as int);
    let ghost sb = b@.subrange(i as int, b@.len() as int);
    if i == b.len() {
        false
    } else if i == a.len() {
        true
    } else {
        assert(sa[0] == a@[i as int] && sb[0] == b@[i as int]);
        a[i] < b[i]
    }
}


/// `true` ranks above `false`.
pub open spec fn bool_lt(a: bool, b: bool) -> bool {
    !a && b
}

/// How a test case ranks: the four criteria, compared in the order of the fields.
#[derive(Debug, PartialEq, Eq, PartialOrd, Ord)]
pub struct TestcaseScore {
    /// First criterion: the name marks new coverage.
    pub new_coverage: bool,
    /// Second criterion: the case descends from a seed.
    pub derived_from_seed: bool,
    /// Third criterion: the negated size, so that smaller files rank higher.
    pub file_size: i128,
    /// Fourth criterion: the file name, compared byte by byte.
    pub base_name: Vec<u8>,
}

/// `a` ranks strictly below `b`: the criteria are compared lexicographically.
pub open spec fn score_lt(a: TestcaseScore, b: TestcaseScore) -> bool {
    bool_lt(a.new_coverage, b.new_coverage) || (a.new_coverage == b.new_coverage && (
    bool_lt(a.derived_from_seed, b.derived_from_seed) || (a.derived_from_seed == b.derived_from_seed && (
    a.file_size < b.file_size || (a.file_size == b.file_size
        && bytes_lt(a.base_name@, b.base_name@))))))
}

/// The two scores agree on all four criteria.
pub open spec fn same_score(a: TestcaseScore, b: TestcaseScore) -> bool {
    a.new_coverage == b.new_coverage && a.derived_from_seed == b.derived_from_seed
        && a.file_size == b.file_size && a.base_name@ == b.base_name@
}

/// The lowest score there is.
pub open spec fn is_minimum(s: TestcaseScore) -> bool {
    !s.new_coverage && !s.derived_from_seed && s.file_size == i128::MIN && s.base_name@.len() == 0
}

/// `suffix` ends `s`.
pub open spec fn has_suffix(s: Seq<u8>, suffix: Seq<u8>) -> bool {
    suffix.len() <= s.len() && s.subrange(s.len() - suffix.len(), s.len() as int) == suffix
}

/// `part` occurs somewhere in `s`.
pub open spec fn has_infix(s: Seq<u8>, part: Seq<u8>) -> bool {
    exists|i: int| 0 <= i && i + part.len() <= s.len() && #[trigger] s.subrange(i, i + part.len()) == part
}

/// The suffix `+cov` that the fuzzer gives to cases with new coverage.
pub open spec fn cov_marker() -> Seq<u8> {
    seq![43u8, 99u8, 111u8, 118u8]
}

/// The marker `orig:` of cases that are seeds themselves.
pub open spec fn seed_marker() -> Seq<u8> {
    seq![111u8, 114u8, 105u8, 103u8, 58u8]
}

/// The score of a case of the given size and file name.
pub open spec fn score_of(size: u64, name: Seq<u8>) -> (bool, bool, int, Seq<u8>) {
    (has_suffix(name, cov_marker()), has_infix(name, seed_marker()), -(size as int), name)
}

/// Tells whether `suffix` ends `s`.
pub fn ends_with_bytes(s: &[u8], suffix: &[u8]) -> (r: bool)
    ensures
        r == has_suffix(s@, suffix@),
{
    if suffix.len() > s.len() {
        return false;
    }
    let off = s.len() - suffix.len();
    let mut i: usize = 0;
    while i < suffix.len()
        invariant
            off + suffix@.len() == s@.len(),
            s@.len() <= usize::MAX,
            i <= suffix@.len(),
            forall|j: int| 0 <= j < i ==> s@[off + j] == suffix@[j],
        decreases suffix@.len() - i,
    {
        if s[off + i] != suffix[i] {
            assert(s@.subrange(off as int, s@.len() as int)[i as int] != suffix@[i as int]);
            return false;
        }
        i = i + 1;
    }
    assert(s@.subrange(off as int, s@.len() as int) =~= suffix@);
    true
}

/// Tells whether `part` occurs in `s`.
pub fn contains_bytes(s: &[u8], part: &[u8]) -> (r: bool)
    ensures
        r == has_infix(s@, part@),
{
    if part.len() > s.len() {
        return false;
    }
    if part.len() == 0 {
        assert(s@.subrange(0int, 0int + part@.len()) =~= part@);
        return true;
    }
    let last = s.len() - part.len();
    let mut start: usize = 0;
    while start <= last
        invariant
            last == s@.len() - part@.len(),
            part@.len() > 0,
            s@.len() <= usize::MAX,
            part@.len() <= s@.len(),
            start <= s@.len() - part@.len() + 1,
            forall|k: int| 0 <= k < start ==> #[trigger] s@.subrange(k, k + part@.len()) != part@,
        decreases last + 1 - start,
    {
        let mut i: usize = 0;
        let mut same = true;
        while i < part.len()
            invariant
                start + part@.len() <= s@.len(),
                s@.len() <= usize::MAX,
                i <= part@.len(),
                same ==> forall|j: int| 0 <= j < i ==> s@[start + j] == part@[j],
                !same ==> s@.subrange(start as int, start + part@.len()) != part@,
            decreases part@.len() - i,
        {
            if s[start + i] != part[i] {
                assert(s@.subrange(start as int, start + part@.len())[i as int] != part@[i as int]);
                same = false;
            }
            i = i + 1;
        }
        if same {
            assert(s@.subrange(start as int, start + part@.len()) =~= part@);
            return true;
        }
        start = start + 1;
    }
    false
}

impl TestcaseScore {
    /// The lowest score, given to a case that could not be examined.
    pub fn minimum() -> (r: TestcaseScore)
        ensures
            is_minimum(r),
    {
        TestcaseScore {
            new_coverage: false,
            derived_from_seed: false,
            file_size: i128::MIN,
            base_name: Vec::new(),
        }
    }

    /// Scores a case from its size and file name, as read from disk. Where
    /// either could not be read, the case gets the minimum score.
    pub fn new(size: Option<u64>, name: Option<&[u8]>) -> (r: TestcaseScore)
        ensures
            (size.is_none() || name.is_none()) ==> is_minimum(r),
            (size.is_some() && name.is_some()) ==> (r.new_coverage, r.derived_from_seed,
                r.file_size as int, r.base_name@) == score_of(size.unwrap(), name.unwrap()@),
    {
        match (size, name) {
            (Some(len), Some(n)) => {
                let cov: Vec<u8> = vec![43u8, 99u8, 111u8, 118u8];
                let orig: Vec<u8> = vec![111u8, 114u8, 105u8, 103u8, 58u8];
                assert(cov@ =~= cov_marker());
                assert(orig@ =~= seed_marker());
                let mut base_name: Vec<u8> = Vec::new();
                let mut i: usize = 0;
                while i < n.len()
                    invariant
                        i <= n@.len(),
                        base_name@ == n@.subrange(0, i as int),
                    decreases n@.len() - i,
                {
                    base_name.push(n[i]);
                    i = i + 1;
                    assert(base_name@ =~= n@.subrange(0, i as int));
                }
                assert(base_name@ =~= n@);
                TestcaseScore {
                    new_coverage: ends_with_bytes(n, cov.as_slice()),
                    derived_from_seed: contains_bytes(n, orig.as_slice()),
                    file_size: -(len as i128),
                    base_name,
                }
            },
            _ => TestcaseScore::minimum(),
        }
    }

    /// Tells whether `self` ranks strictly below `other`.
    pub fn ranks_below(&self, other: &TestcaseScore) -> (r: bool)
        ensures
            r == score_lt(*self, *other),
    {
        if self.new_coverage != other.new_coverage {
            return other.new_coverage;
        }
        if self.derived_from_seed != other.derived_from_seed {
            return other.derived_from_seed;
        }
        if self.file_size != other.file_size {
            return self.file_size < other.file_size;
        }
        bytes_less(self.base_name.as_slice(), other.base_name.as_slice())
    }
}

} // verus!
