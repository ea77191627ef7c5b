//! Character-sequence primitives shared by the search and dispatch logic.
use vstd::prelude::*;

verus! {

/// What `str::to_lowercase` yields for a character sequence.
pub uninterp spec fn lower_of(s: Seq<char>) -> Seq<char>;

/// Relies on `str::to_lowercase`: the result depends on the characters alone.
#[verifier::external_body]
pub(crate) fn lowercase(s: &str) -> (r: String)
    ensures
        r@ == lower_of(s@),
{
    s.to_lowercase()
}

/// Relies on `Vec::from_iter` over `str::chars`: the characters in order.
#[verifier::external_body]
pub(crate) fn chars_of(s: &str) -> (r: Vec<char>)
    ensures
        r@ == s@,
{
    Vec::from_iter(s.chars())
}

/// Relies on `String::from_iter` over characters: a string holding them in order.
#[verifier::external_body]
pub(crate) fn string_from(v: &Vec<char>) -> (r: String)
    ensures
        r@ == v@,
{
    String::from_iter(v.iter())
}

/// `q` occurs in `s` starting at position `i`.
pub open spec fn occurs_at(s: Seq<char>, q: Seq<char>, i: int) -> bool {
    0 <= i && i + q.len() <= s.len() && s.subrange(i, i + q.len()) == q
}

/// `q` occurs somewhere in `s` as a contiguous run.
pub open spec fn is_substring(q: Seq<char>, s: Seq<char>) -> bool {
    exists|i: int| occurs_at(s, q, i)
}

/// Whether `p` is a prefix of `s[from..]`, compared character by character.
fn matches_at(s: &Vec<char>, p: &Vec<char>, from: usize) -> (r: bool)
    requires
        from <= s@.len(),
    ensures
        r == occurs_at(s@, p@, from as int),
{
    if p.len() > s.len() - from {
        return false;
    }
    let n: usize = s.len();
    let mut j: usize = 0;
    while j < p.len()
        invariant
            n == s@.len(),
            from <= s@.len(),
            from + p@.len() <= s@.len(),
            j <= p@.len(),
            forall|k: int| 0 <= k < j ==> s@[from + k] == p@[k],
        decreases p@.len() - j,
    {
        if s[from + j] != p[j] {
            assert(s@.subrange(from as int, from + p@.len())[j as int] != p@[j as int]);
            return false;
        }
        j = j + 1;
    }
    assert(s@.subrange(from as int, from + p@.len()) =~= p@);
    true
}

/// Whether `p` occurs in `s` at position `from`, which may lie anywhere.
pub fn matches_prefix_at(s: &Vec<char>, p: &Vec<char>, from: usize) -> (r: bool)
    ensures
        r == occurs_at(s@, p@, from as int),
{
    if from > s.len() {
        return false;
    }
    matches_at(s, p, from)
}

/// Whether `p` is a prefix of `s`.
pub fn starts_with_chars(s: &Vec<char>, p: &Vec<char>) -> (r: bool)
    ensures
        r == p@.is_prefix_of(s@),
{
    let r = matches_at(s, p, 0);
    proof {
        if p@.is_prefix_of(s@) {
            assert(s@.subrange(0, p@.len() as int) =~= p@);
        }
    }
    r
}

/// Whether `q` occurs in `s` as a contiguous run.
pub fn contains_chars(s: &Vec<char>, q: &Vec<char>) -> (r: bool)
    ensures
        r == is_substring(q@, s@),
{
    if q.len() == 0 {
        assert(s@.subrange(0, 0) =~= q@);
        assert(occurs_at(s@, q@, 0));
        return true;
    }
    let mut i: usize = 0;
    while q.len() <= s.len() - i
        invariant
            q@.len() > 0,
            i <= s@.len(),
            forall|k: int| 0 <= k < i ==> !occurs_at(s@, q@, k),
        decreases s@.len() - i,
    {
        if matches_at(s, q, i) {
            return true;
        }
        i = i + 1;
    }
    false
}

/// `a` comes before `b` in lexicographic order, deciding at position `i`:
/// the two agree before `i`, and there `a` has ended while `b` goes on, or
/// `a` holds the smaller character.
pub open spec fn lex_lt_at(a: Seq<char>, b: Seq<char>, i: int) -> bool {
    &&& 0 <= i <= a.len()
    &&& i <= b.len()
    &&& forall|k: int| 0 <= k < i ==> a[k] == b[k]
    &&& if i == a.len() {
        i < b.len()
    } else {
        i < b.len() && a[i] < b[i]
    }
}

/// `a` comes strictly before `b` in lexicographic order of characters, which
/// is also the byte order of their UTF-8 encodings.
pub open spec fn lex_lt(a: Seq<char>, b: Seq<char>) -> bool {
    exists|i: int| lex_lt_at(a, b, i)
}

/// Lexicographic order is irreflexive.
pub proof fn lemma_lex_irreflexive(a: Seq<char>)
    ensures
        !lex_lt(a, a),
{
}

/// Lexicographic order is transitive.
pub proof fn lemma_lex_transitive(a: Seq<char>, b: Seq<char>, c: Seq<char>)
    requires
        lex_lt(a, b),
        lex_lt(b, c),
    ensures
        lex_lt(a, c),
{
    let i = choose|i: int| lex_lt_at(a, b, i);
    let j = choose|j: int| lex_lt_at(b, c, j);
    if i <= j {
        assert(lex_lt_at(a, c, i));
    } else {
        assert(lex_lt_at(a, c, j));
    }
}

/// Three-way lexicographic comparison: `-1` when `a` comes first, `0` when the
/// two are equal, `1` when `b` comes first.
pub fn compare_chars(a: &Vec<char>, b: &Vec<char>) -> (r: i8)
    ensures
        r == -1 || r == 0 || r == 1,
        r == -1 ==> lex_lt(a@, b@),
        r == 0 ==> a@ == b@,
        r == 1 ==> lex_lt(b@, a@),
{
    let mut i: usize = 0;
    while i < a.len() && i < b.len()
        invariant
            i <= a@.len(),
            i <= b@.len(),
            forall|k: int| 0 <= k < i ==> a@[k] == b@[k],
        decreases a@.len() - i,
    {
        if a[i] != b[i] {
            if a[i] < b[i] {
                assert(lex_lt_at(a@, b@, i as int));
                return -1;
            } else {
                assert(lex_lt_at(b@, a@, i as int));
                return 1;
            }
        }
        i = i + 1;
    }
    if a.len() == b.len() {
        assert(a@ =~= b@);
        0
    } else if i == a.len() {
        assert(lex_lt_at(a@, b@, i as int));
        -1
    } else {
        assert(lex_lt_at(b@, a@, i as int));
        1
    }
}

/// `s` with every occurrence of `pat` replaced by `rep`, scanning left to
/// right without overlaps, as `str::replace` does for a non-empty pattern.
pub open spec fn replaced(s: Seq<char>, pat: Seq<char>, rep: Seq<char>) -> Seq<char>
    decreases s.len(),
{
    if s.len() == 0 {
        s
    } else if pat.len() > 0 && pat.is_prefix_of(s) {
        rep + replaced(s.skip(pat.len() as int), pat, rep)
    } else {
        seq![s[0]] + replaced(s.skip(1), pat, rep)
    }
}

/// Replaces every occurrence of the non-empty `pat` in `s` by `rep`.
pub fn replace_all(s: &Vec<char>, pat: &Vec<char>, rep: &Vec<char>) -> (r: Vec<char>)
    requires
        pat@.len() > 0,
    ensures
        r@ == replaced(s@, pat@, rep@),
{
    let mut out: Vec<char> = Vec::new();
    let mut i: usize = 0;
    assert(s@.skip(0) =~= s@);
    assert(out@ + replaced(s@, pat@, rep@) =~= replaced(s@, pat@, rep@));
    while i < s.len()
        invariant
            pat@.len() > 0,
            i <= s@.len(),
            out@ + replaced(s@.skip(i as int), pat@, rep@) == replaced(s@, pat@, rep@),
        decreases s@.len() - i,
    {
        let ghost rest = s@.skip(i as int);
        if matches_at(s, pat, i) {
            proof {
                assert(rest.subrange(0, pat@.len() as int) =~= s@.subrange(i as int, i + pat@.len()));
                assert(rest.skip(pat@.len() as int) =~= s@.skip(i + pat@.len()));
            }
            let mut j: usize = 0;
            let ghost base = out@;
            while j < rep.len()
                invariant
                    j <= rep@.len(),
                    out@ == base + rep@.subrange(0, j as int),
                decreases rep@.len() - j,
            {
                out.push(rep[j]);
                assert(out@ =~= base + rep@.subrange(0, j + 1));
                j = j + 1;
            }
            assert(rep@.subrange(0, rep@.len() as int) =~= rep@);
            assert(base + (rep@ + replaced(s@.skip(i + pat@.len()), pat@, rep@)) =~= out@
                + replaced(s@.skip(i + pat@.len()), pat@, rep@));
            i = i + pat.len();
        } else {
            proof {
                if pat@.is_prefix_of(rest) {
                    assert(rest.subrange(0, pat@.len() as int) =~= s@.subrange(
                        i as int,
                        i + pat@.len(),
                    ));
                }
                assert(rest.skip(1) =~= s@.skip(i + 1));
            }
            let ghost base = out@;
            out.push(s[i]);
            assert(base + (seq![s@[i as int]] + replaced(s@.skip(i + 1), pat@, rep@)) =~= out@
                + replaced(s@.skip(i + 1), pat@, rep@));
            i = i + 1;
        }
    }
    assert(s@.skip(i as int) =~= Seq::<char>::empty());
    assert(out@ + Seq::<char>::empty() =~= out@);
    out
}

/// The characters that `char::is_whitespace` accepts: Unicode White_Space.
pub open spec fn is_space(c: char) -> bool {
    ||| c == '\t' || c == '\n' || c == '\u{0B}' || c == '\u{0C}' || c == '\r' || c == ' '
    ||| c == '\u{85}' || c == '\u{A0}' || c == '\u{1680}'
    ||| ('\u{2000}' <= c && c <= '\u{200A}')
    ||| c == '\u{2028}' || c == '\u{2029}' || c == '\u{202F}' || c == '\u{205F}'
    ||| c == '\u{3000}'
}

/// Whether `c` is whitespace.
pub fn is_space_char(c: char) -> (r: bool)
    ensures
        r == is_space(c),
{
    c == '\t' || c == '\n' || c == '\u{0B}' || c == '\u{0C}' || c == '\r' || c == ' '
        || c == '\u{85}' || c == '\u{A0}' || c == '\u{1680}' || ('\u{2000}' <= c && c
        <= '\u{200A}') || c == '\u{2028}' || c == '\u{2029}' || c == '\u{202F}' || c
        == '\u{205F}' || c == '\u{3000}'
}

/// Splitting `s` into words, read left to right: the words completed so far,
/// and the word in progress.
pub open spec fn split_state(s: Seq<char>) -> (Seq<Seq<char>>, Seq<char>)
    decreases s.len(),
{
    if s.len() == 0 {
        (Seq::empty(), Seq::empty())
    } else {
        let prev = split_state(s.drop_last());
        let c = s.last();
        if is_space(c) {
            if prev.1.len() > 0 {
                (prev.0.push(prev.1), Seq::empty())
            } else {
                prev
            }
        } else {
            (prev.0, prev.1.push(c))
        }
    }
}

/// The maximal runs of non-whitespace characters of `s`, in order, as
/// `str::split_whitespace` yields them.
pub open spec fn words(s: Seq<char>) -> Seq<Seq<char>> {
    let st = split_state(s);
    if st.1.len() > 0 {
        st.0.push(st.1)
    } else {
        st.0
    }
}

/// The whitespace-separated words of `s`.
pub fn split_words(s: &Vec<char>) -> (r: Vec<Vec<char>>)
    ensures
        r@.len() == words(s@).len(),
        forall|k: int| 0 <= k < r@.len() ==> (#[trigger] r@[k])@ == words(s@)[k],
{
    let mut done: Vec<Vec<char>> = Vec::new();
    let mut cur: Vec<char> = Vec::new();
    let mut i: usize = 0;
    while i < s.len()
        invariant
            i <= s@.len(),
            done@.len() == split_state(s@.take(i as int)).0.len(),
            forall|k: int|
                0 <= k < done@.len() ==> (#[trigger] done@[k])@ == split_state(
                    s@.take(i as int),
                ).0[k],
            cur@ == split_state(s@.take(i as int)).1,
        decreases s@.len() - i,
    {
        let c = s[i];
        assert(s@.take(i + 1).drop_last() =~= s@.take(i as int));
        if is_space_char(c) {
            if cur.len() > 0 {
                let w = cur;
                done.push(w);
                cur = Vec::new();
            }
        } else {
            cur.push(c);
        }
        i = i + 1;
    }
    assert(s@.take(s@.len() as int) =~= s@);
    if cur.len() > 0 {
        done.push(cur);
    }
    done
}

} // verus!
