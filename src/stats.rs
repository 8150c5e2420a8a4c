use vstd::prelude::*;

use crate::error::SyncError;

verus! {

/// Unicode white space, as `char::is_whitespace` defines it.
pub open spec fn is_space(c: char) -> bool {
    ('\u{9}' <= c && c <= '\u{d}') || c == ' ' || c == '\u{85}' || c == '\u{a0}' || c == '\u{1680}'
        || ('\u{2000}' <= c && c <= '\u{200a}') || c == '\u{2028}' || c == '\u{2029}' || c == '\u{202f}'
        || c == '\u{205f}' || c == '\u{3000}'
}

/// Tells whether `c` is white space.
pub fn is_space_char(c: char) -> (r: bool)
    ensures
        r == is_space(c),
{
    ('\u{9}' <= c && c <= '\u{d}') || c == ' ' || c == '\u{85}' || c == '\u{a0}' || c == '\u{1680}'
        || ('\u{2000}' <= c && c <= '\u{200a}') || c == '\u{2028}' || c == '\u{2029}' || c == '\u{202f}'
        || c == '\u{205f}' || c == '\u{3000}'
}

/// The maximal runs of characters other than white space, in order.
pub open spec fn words(s: Seq<char>) -> Seq<Seq<char>>
    decreases s.len(),
{
    if s.len() == 0 {
        Seq::empty()
    } else {
        let w = words(s.drop_last());
        if is_space(s.last()) {
            w
        } else if s.len() >= 2 && !is_space(s[s.len() - 2]) {
            w.update(w.len() - 1, w.last().push(s.last()))
        } else {
            w.push(seq![s.last()])
        }
    }
}

/// Splits `s` into its words.
pub fn split_words(s: &[char]) -> (r: Vec<Vec<char>>)
    ensures
        words_view(r@) == words(s@),
{
    let mut done: Vec<Vec<char>> = Vec::new();
    let mut cur: Vec<char> = Vec::new();
    let mut in_word = false;
    let mut i: usize = 0;
    assert(s@.subrange(0, 0) =~= Seq::<char>::empty());
    while i < s.len()
        invariant
            i <= s@.len(),
            in_word ==> i > 0 && !is_space(s@[i - 1]) && cur@.len() > 0,
            !in_word ==> (i == 0 || is_space(s@[i - 1])) && cur@.len() == 0,
            words(s@.subrange(0, i as int)) == (if in_word {
                words_view(done@).push(cur@)
            } else {
                words_view(done@)
            }),
        decreases s@.len() - i,
    {
        let c = s[i];
        let ghost pre = s@.subrange(0, i as int);
        let ghost next = s@.subrange(0, i + 1);
        assert(next.drop_last() =~= pre);
        assert(next.last() == c);
        if is_space_char(c) {
            if in_word {
                let ghost d = words_view(done@);
                done.push(cur);
                assert(words_view(done@) =~= d.push(cur@));
                cur = Vec::new();
                in_word = false;
            }
        } else {
            if in_word {
                assert(next[next.len() - 2] == s@[i - 1]);
                let ghost d = words_view(done@);
                let ghost old_cur = cur@;
                cur.push(c);
                assert(d.push(old_cur).update(d.len() as int, old_cur.push(c)) =~= d.push(cur@));
            } else {
                cur.push(c);
                assert(cur@ =~= seq![c]);
                in_word = true;
            }
        }
        i = i + 1;
    }
    assert(s@.subrange(0, i as int) =~= s@);
    if in_word {
        let ghost d = words_view(done@);
        done.push(cur);
        assert(words_view(done@) =~= d.push(cur@));
    }
    done
}

/// The view of a list of words.
pub open spec fn words_view(v: Seq<Vec<char>>) -> Seq<Seq<char>> {
    Seq::new(v.len(), |i: int| v[i]@)
}


/// The key of the statistics entry that holds the fuzzer's command line.
pub open spec fn command_key() -> Seq<char> {
    seq!['c', 'o', 'm', 'm', 'a', 'n', 'd', '_', 'l', 'i', 'n', 'e']
}

/// A line of `s` starts at `i`.
pub open spec fn starts_line(s: Seq<char>, i: int) -> bool {
    0 <= i <= s.len() && (i == 0 || s[i - 1] == '\n')
}

/// A line of `s` starts at `i` with the key `command_line`.
pub open spec fn keyed_at(s: Seq<char>, i: int) -> bool {
    starts_line(s, i) && i + command_key().len() <= s.len() && s.subrange(i, i + command_key().len())
        == command_key()
}

/// The line at `l` is the first that starts with the key.
pub open spec fn first_keyed(s: Seq<char>, l: int) -> bool {
    keyed_at(s, l) && forall|j: int| 0 <= j < l ==> !keyed_at(s, j)
}

/// `c` is the first `:` of the line that starts at `l`.
pub open spec fn colon_at(s: Seq<char>, l: int, c: int) -> bool {
    l <= c < s.len() && s[c] == ':' && forall|k: int| l <= k < c ==> s[k] != ':' && s[k] != '\n'
}

/// The line that holds position `b` ends at `e`, before a newline or at the end.
pub open spec fn line_end(s: Seq<char>, b: int, e: int) -> bool {
    b <= e <= s.len() && (e == s.len() || s[e] == '\n') && forall|k: int| b <= k < e ==> s[k] != '\n'
}

fn key_matches(s: &[char], i: usize, key: &Vec<char>) -> (r: bool)
    requires
        key@ == command_key(),
        i <= s@.len(),
    ensures
        r == (i + command_key().len() <= s@.len() && s@.subrange(i as int, i + command_key().len())
            == command_key()),
{
    if s.len() - i < key.len() {
        return false;
    }
    let mut k: usize = 0;
    while k < key.len()
        invariant
            key@ == command_key(),
            i + key@.len() <= s@.len(),
            s@.len() <= usize::MAX,
            k <= key@.len(),
            forall|j: int| 0 <= j < k ==> s@[i + j] == key@[j],
        decreases key@.len() - k,
    {
        if s[i + k] != key[k] {
            assert(s@.subrange(i as int, i + command_key().len())[k as int] != command_key()[k as int]);
            return false;
        }
        k = k + 1;
    }
    assert(s@.subrange(i as int, i + command_key().len()) =~= command_key());
    true
}

/// Reads the fuzzer's command line out of its statistics: the words after
/// the first `:` of the first line that starts with `command_line`. Fails
/// when no line starts so, when that line has no `:`, or when it names no
/// program.
pub fn fuzzer_command(stats: &[char]) -> (r: Result<Vec<Vec<char>>, SyncError>)
    ensures
        (forall|i: int| !keyed_at(stats@, i)) <==> r == Err::<Vec<Vec<char>>, SyncError>(
            SyncError::MissingCommandLine,
        ),
        forall|l: int| #[trigger]
            first_keyed(stats@, l) ==> {
                &&& (forall|c: int| !colon_at(stats@, l, c)) ==> r == Err::<Vec<Vec<char>>, SyncError>(
                    SyncError::MalformedCommandLine,
                )
                &&& forall|c: int, e: int| #[trigger]
                    colon_at(stats@, l, c) && #[trigger] line_end(stats@, c + 1, e) ==> {
                        let w = words(stats@.subrange(c + 1, e));
                        &&& w.len() == 0 ==> r == Err::<Vec<Vec<char>>, SyncError>(
                            SyncError::EmptyCommand,
                        )
                        &&& w.len() > 0 ==> r.is_ok() && words_view(r.unwrap()@) == w
                    }
            },
{
    let key: Vec<char> = vec!['c', 'o', 'm', 'm', 'a', 'n', 'd', '_', 'l', 'i', 'n', 'e'];
    assert(key@ =~= command_key());
    let n = stats.len();
    let mut l: usize = 0;
    while l < n
        invariant
            n == stats@.len(),
            key@ == command_key(),
            l <= n,
            forall|j: int| 0 <= j < l ==> !keyed_at(stats@, j),
        decreases n - l,
    {
        let at_start = l == 0 || stats[l - 1] == '\n';
        if at_start && key_matches(stats, l, &key) {
            assert(first_keyed(stats@, l as int));
            let mut c: usize = l;
            while c < n && stats[c] != ':' && stats[c] != '\n'
                invariant
                    n == stats@.len(),
                    l <= c <= n,
                    forall|k: int| l <= k < c ==> stats@[k] != ':' && stats@[k] != '\n',
                decreases n - c,
            {
                c = c + 1;
            }
            if c == n || stats[c] == '\n' {
                proof {
                    assert forall|c2: int| !colon_at(stats@, l as int, c2) by {
                        if colon_at(stats@, l as int, c2) {
                            if c2 < c {
                            } else if c2 > c {
                                assert(stats@[c as int] == '\n');
                            }
                        }
                    }
                    lemma_first_keyed_unique(stats@, l as int);
                }
                return Err(SyncError::MalformedCommandLine);
            }
            assert(colon_at(stats@, l as int, c as int));
            let mut e: usize = c + 1;
            while e < n && stats[e] != '\n'
                invariant
                    n == stats@.len(),
                    c + 1 <= e <= n,
                    forall|k: int| c + 1 <= k < e ==> stats@[k] != '\n',
                decreases n - e,
            {
                e = e + 1;
            }
            assert(line_end(stats@, c + 1, e as int));
            let value = vstd::slice::slice_subrange(stats, c + 1, e);
            let w = split_words(value);
            proof {
                lemma_first_keyed_unique(stats@, l as int);
                lemma_colon_unique(stats@, l as int, c as int);
                lemma_line_end_unique(stats@, c + 1, e as int);
            }
            if w.len() == 0 {
                return Err(SyncError::EmptyCommand);
            }
            return Ok(w);
        }
        proof {
            if keyed_at(stats@, l as int) {
                assert(at_start);
            }
        }
        l = l + 1;
    }
    Err(SyncError::MissingCommandLine)
}

proof fn lemma_first_keyed_unique(s: Seq<char>, l: int)
    requires
        first_keyed(s, l),
    ensures
        forall|m: int| #[trigger] first_keyed(s, m) ==> m == l,
        !(forall|i: int| !keyed_at(s, i)),
{
}

proof fn lemma_colon_unique(s: Seq<char>, l: int, c: int)
    requires
        colon_at(s, l, c),
    ensures
        forall|d: int| #[trigger] colon_at(s, l, d) ==> d == c,
{
    assert forall|d: int| #[trigger] colon_at(s, l, d) implies d == c by {
        if d < c {
            assert(s[d] != ':');
        } else if d > c {
            assert(s[c] != ':');
        }
    }
}

proof fn lemma_line_end_unique(s: Seq<char>, b: int, e: int)
    requires
        line_end(s, b, e),
    ensures
        forall|f: int| #[trigger] line_end(s, b, f) ==> f == e,
{
    assert forall|f: int| #[trigger] line_end(s, b, f) implies f == e by {
        if f < e {
            assert(s[f] != '\n');
        } else if f > e {
            assert(s[e] != '\n');
        }
    }
}

} // verus!
