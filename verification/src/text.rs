//! Character-level text operations over `Seq<char>`, with the executable
//! counterparts that the parsers use.
use vstd::prelude::*;

verus! {

/// Appends one character to a string (std `String::push`).
#[verifier::external_body]
pub(crate) fn push_char(s: &mut String, c: char)
    ensures
        final(s)@ == old(s)@.push(c),
{
    s.push(c);
}

/// The characters of a string slice, in order.
pub fn chars_of(s: &str) -> (v: Vec<char>)
    ensures
        v@ == s@,
{
    let mut v: Vec<char> = Vec::new();
    for c in it: s.chars()
        invariant
            v@ == it.seq().take(it.index() as int),
            it.seq() == s@,
    {
        v.push(c);
    }
    v
}

/// A string made of the given characters.
pub fn string_of(cs: &[char]) -> (s: String)
    ensures
        s@ == cs@,
{
    let mut s = String::new();
    let mut i: usize = 0;
    while i < cs.len()
        invariant
            i <= cs@.len(),
            s@ == cs@.take(i as int),
        decreases cs@.len() - i,
    {
        push_char(&mut s, cs[i]);
        assert(cs@.take(i as int + 1) == cs@.take(i as int).push(cs@[i as int]));
        i += 1;
    }
    assert(cs@.take(cs@.len() as int) == cs@);
    s
}

/// Appends the characters of `cs` to `s`.
pub fn push_chars(s: &mut String, cs: &[char])
    ensures
        final(s)@ == old(s)@ + cs@,
{
    let mut i: usize = 0;
    while i < cs.len()
        invariant
            i <= cs@.len(),
            s@ == old(s)@ + cs@.take(i as int),
        decreases cs@.len() - i,
    {
        push_char(s, cs[i]);
        assert(cs@.take(i as int + 1) == cs@.take(i as int).push(cs@[i as int]));
        i += 1;
    }
    assert(cs@.take(cs@.len() as int) == cs@);
}

/// Appends a string slice to `s`.
pub fn push_str(s: &mut String, t: &str)
    ensures
        final(s)@ == old(s)@ + t@,
{
    let cs = chars_of(t);
    push_chars(s, cs.as_slice());
}

/// A copy of `v[from..to]`.
pub fn sub_vec(v: &[char], from: usize, to: usize) -> (r: Vec<char>)
    requires
        from <= to <= v@.len(),
    ensures
        r@ == v@.subrange(from as int, to as int),
{
    let mut r: Vec<char> = Vec::new();
    let mut i = from;
    while i < to
        invariant
            from <= i <= to <= v@.len(),
            r@ == v@.subrange(from as int, i as int),
        decreases to - i,
    {
        r.push(v[i]);
        assert(v@.subrange(from as int, i + 1) == v@.subrange(from as int, i as int).push(v@[i as int]));
        i += 1;
    }
    r
}

/// Whether two character vectors hold the same characters.
pub fn same_chars(a: &[char], b: &[char]) -> (r: bool)
    ensures
        r == (a@ == b@),
{
    if a.len() != b.len() {
        return false;
    }
    let mut i: usize = 0;
    while i < a.len()
        invariant
            a@.len() == b@.len(),
            i <= a@.len(),
            forall|k: int| 0 <= k < i ==> a@[k] == b@[k],
        decreases a@.len() - i,
    {
        if a[i] != b[i] {
            return false;
        }
        i += 1;
    }
    assert(a@ =~= b@);
    true
}

/// The lowercase equivalent of a string as `str::to_lowercase` gives it:
/// the Unicode lowercase mapping of each character, with the rule for a
/// final capital sigma.
pub uninterp spec fn lowercase(s: Seq<char>) -> Seq<char>;

/// std `str::to_lowercase`; its result is named [`lowercase`].
#[verifier::external_body]
pub(crate) fn to_lowercase(s: &str) -> (r: String)
    ensures
        r@ == lowercase(s@),
{
    s.to_lowercase()
}

// ---------------------------------------------------------------------
// Whitespace and trimming
// ---------------------------------------------------------------------

/// Unicode `White_Space`, the property that `char::is_whitespace` tests.
pub open spec fn is_ws(c: char) -> bool {
    ||| c == ' '
    ||| ('\u{9}' <= c && c <= '\u{d}')
    ||| c == '\u{85}'
    ||| c == '\u{a0}'
    ||| c == '\u{1680}'
    ||| ('\u{2000}' <= c && c <= '\u{200a}')
    ||| c == '\u{2028}'
    ||| c == '\u{2029}'
    ||| c == '\u{202f}'
    ||| c == '\u{205f}'
    ||| c == '\u{3000}'
}

pub fn is_whitespace(c: char) -> (r: bool)
    ensures
        r == is_ws(c),
{
    c == ' ' || ('\u{9}' <= c && c <= '\u{d}') || c == '\u{85}' || c == '\u{a0}' || c
        == '\u{1680}' || ('\u{2000}' <= c && c <= '\u{200a}') || c == '\u{2028}' || c
        == '\u{2029}' || c == '\u{202f}' || c == '\u{205f}' || c == '\u{3000}'
}

/// `s` without its leading whitespace.
pub open spec fn trim_start(s: Seq<char>) -> Seq<char>
    decreases s.len(),
{
    if s.len() > 0 && is_ws(s[0]) {
        trim_start(s.skip(1))
    } else {
        s
    }
}

/// `s` without its trailing whitespace.
pub open spec fn trim_end(s: Seq<char>) -> Seq<char>
    decreases s.len(),
{
    if s.len() > 0 && is_ws(s.last()) {
        trim_end(s.drop_last())
    } else {
        s
    }
}

/// `s` without leading and trailing whitespace (`str::trim`).
pub open spec fn trim(s: Seq<char>) -> Seq<char> {
    trim_end(trim_start(s))
}

/// Index of the first character of `v[from..]` that is not whitespace.
fn skip_ws(v: &[char], from: usize) -> (i: usize)
    requires
        from <= v@.len(),
    ensures
        from <= i <= v@.len(),
        trim_start(v@.skip(from as int)) == v@.skip(i as int),
{
    let mut i = from;
    while i < v.len() && is_whitespace(v[i])
        invariant
            from <= i <= v@.len(),
            trim_start(v@.skip(from as int)) == trim_start(v@.skip(i as int)),
        decreases v@.len() - i,
    {
        assert(v@.skip(i as int).skip(1) == v@.skip(i + 1));
        i += 1;
    }
    i
}

/// `v` without its leading whitespace.
pub fn trim_start_vec(v: &[char]) -> (r: Vec<char>)
    ensures
        r@ == trim_start(v@),
{
    let i = skip_ws(v, 0);
    assert(v@.skip(0) == v@);
    sub_vec(v, i, v.len())
}

/// `v` without its trailing whitespace.
pub fn trim_end_vec(v: &[char]) -> (r: Vec<char>)
    ensures
        r@ == trim_end(v@),
{
    let mut j = v.len();
    assert(v@.take(v@.len() as int) == v@);
    while j > 0 && is_whitespace(v[j - 1])
        invariant
            j <= v@.len(),
            trim_end(v@) == trim_end(v@.take(j as int)),
        decreases j,
    {
        assert(v@.take(j as int).drop_last() == v@.take(j - 1));
        j -= 1;
    }
    assert(v@.take(v@.len() as int) == v@);
    sub_vec(v, 0, j)
}

/// `v` without leading and trailing whitespace.
pub fn trim_vec(v: &[char]) -> (r: Vec<char>)
    ensures
        r@ == trim(v@),
{
    let a = trim_start_vec(v);
    trim_end_vec(a.as_slice())
}

// ---------------------------------------------------------------------
// Searching and splitting
// ---------------------------------------------------------------------

/// `pat` occurs in `s` at index `i`.
pub open spec fn match_at(s: Seq<char>, pat: Seq<char>, i: int) -> bool {
    0 <= i && i + pat.len() <= s.len() && s.subrange(i, i + pat.len()) == pat
}

/// The first index at or after `i` where `pat` occurs in `s`.
pub open spec fn find_from(s: Seq<char>, pat: Seq<char>, i: int) -> Option<int>
    decreases s.len() + 1 - i,
{
    if i < 0 || i + pat.len() > s.len() {
        None
    } else if match_at(s, pat, i) {
        Some(i)
    } else {
        find_from(s, pat, i + 1)
    }
}

/// The first index where `pat` occurs in `s` (`str::find`).
pub open spec fn find(s: Seq<char>, pat: Seq<char>) -> Option<int> {
    find_from(s, pat, 0)
}

pub proof fn lemma_find_from_bounds(s: Seq<char>, pat: Seq<char>, i: int)
    requires
        0 <= i,
    ensures
        find_from(s, pat, i) matches Some(k) ==> i <= k && match_at(s, pat, k) && forall|j: int|
            i <= j < k ==> !match_at(s, pat, j),
        find_from(s, pat, i) is None ==> forall|j: int| i <= j ==> !match_at(s, pat, j),
    decreases s.len() + 1 - i,
{
    if i < 0 || i + pat.len() > s.len() {
    } else if match_at(s, pat, i) {
    } else {
        lemma_find_from_bounds(s, pat, i + 1);
    }
}

/// Whether `pat` occurs in `v` at index `i`.
pub fn matches_at(v: &[char], pat: &[char], i: usize) -> (r: bool)
    ensures
        r == match_at(v@, pat@, i as int),
{
    if i > v.len() || pat.len() > v.len() - i {
        return false;
    }
    let mut k: usize = 0;
    while k < pat.len()
        invariant
            i + pat@.len() <= v.len(),
            k <= pat@.len(),
            forall|j: int| 0 <= j < k ==> v@[i + j] == pat@[j],
        decreases pat@.len() - k,
    {
        if v[i + k] != pat[k] {
            assert(v@.subrange(i as int, i + pat@.len())[k as int] != pat@[k as int]);
            return false;
        }
        k += 1;
    }
    assert(v@.subrange(i as int, i + pat@.len()) =~= pat@);
    true
}

/// The first index at or after `from` where `pat` occurs in `v`.
pub fn find_vec(v: &[char], pat: &[char], from: usize) -> (r: Option<usize>)
    ensures
        r matches Some(k) ==> find_from(v@, pat@, from as int) == Some(k as int),
        r is None ==> find_from(v@, pat@, from as int) is None,
{
    if from > v.len() {
        return None;
    }
    let mut i = from;
    while pat.len() <= v.len() - i
        invariant
            from <= i <= v@.len(),
            find_from(v@, pat@, from as int) == find_from(v@, pat@, i as int),
        decreases v@.len() + 1 - i,
    {
        if matches_at(v, pat, i) {
            return Some(i);
        }
        assert(pat@.len() > 0) by {
            if pat@.len() == 0 {
                assert(v@.subrange(i as int, i as int) =~= pat@);
            }
        }
        i += 1;
    }
    None
}

/// The pieces of `s[start..]` between the occurrences of `pat`, as index
/// ranges (`str::split` with a string pattern).
pub open spec fn split_from(s: Seq<char>, pat: Seq<char>, start: int) -> Seq<(int, int)>
    decreases s.len() - start,
{
    if pat.len() == 0 || start < 0 || start > s.len() {
        seq![(start, s.len() as int)]
    } else {
        match find_from(s, pat, start) {
            Some(k) => if k >= start && k + pat.len() <= s.len() {
                seq![(start, k)] + split_from(s, pat, k + pat.len())
            } else {
                seq![(start, s.len() as int)]
            },
            None => seq![(start, s.len() as int)],
        }
    }
}

/// The pieces of `s` between the occurrences of `pat`, as index ranges.
pub open spec fn split(s: Seq<char>, pat: Seq<char>) -> Seq<(int, int)> {
    split_from(s, pat, 0)
}

/// The range `r` of `s`.
pub open spec fn piece(s: Seq<char>, r: (int, int)) -> Seq<char> {
    s.subrange(r.0, r.1)
}

/// The ranges that `split` gives lie within `s`, in order.
pub open spec fn ranges_within(s: Seq<char>, rs: Seq<(int, int)>) -> bool {
    forall|k: int| 0 <= k < rs.len() ==> 0 <= #[trigger] rs[k].0 <= rs[k].1 <= s.len()
}

pub proof fn lemma_split_from_within(s: Seq<char>, pat: Seq<char>, start: int)
    requires
        0 <= start <= s.len(),
    ensures
        ranges_within(s, split_from(s, pat, start)),
        split_from(s, pat, start).len() >= 1,
    decreases s.len() - start,
{
    if pat.len() == 0 {
    } else {
        lemma_find_from_bounds(s, pat, start);
        match find_from(s, pat, start) {
            Some(k) => {
                if k >= start && k + pat.len() <= s.len() {
                    lemma_split_from_within(s, pat, k + pat.len());
                    let rest = split_from(s, pat, k + pat.len());
                    let all = seq![(start, k)] + rest;
                    assert forall|j: int| 0 <= j < all.len() implies 0 <= #[trigger] all[j].0
                        <= all[j].1 <= s.len() by {
                        if j > 0 {
                            assert(all[j] == rest[j - 1]);
                        }
                    }
                }
            },
            None => {},
        }
    }
}

/// Splits `v[start..]` at the occurrences of `pat`; gives the index ranges.
pub fn split_vec(v: &[char], pat: &[char], start: usize) -> (r: Vec<(usize, usize)>)
    requires
        start <= v@.len(),
    ensures
        r@.len() == split_from(v@, pat@, start as int).len(),
        forall|k: int|
            0 <= k < r@.len() ==> (#[trigger] r@[k].0 as int, r@[k].1 as int) == split_from(
                v@,
                pat@,
                start as int,
            )[k],
{
    let mut r: Vec<(usize, usize)> = Vec::new();
    if pat.len() == 0 {
        r.push((start, v.len()));
        return r;
    }
    let mut cur = start;
    loop
        invariant
            start <= cur <= v.len(),
            pat@.len() > 0,
            r@.len() + split_from(v@, pat@, cur as int).len() == split_from(
                v@,
                pat@,
                start as int,
            ).len(),
            forall|k: int|
                0 <= k < r@.len() ==> (#[trigger] r@[k].0 as int, r@[k].1 as int) == split_from(
                    v@,
                    pat@,
                    start as int,
                )[k],
            forall|k: int|
                0 <= k < split_from(v@, pat@, cur as int).len() ==> split_from(
                    v@,
                    pat@,
                    start as int,
                )[r@.len() + k] == #[trigger] split_from(v@, pat@, cur as int)[k],
        decreases v@.len() - cur,
    {
        proof {
            lemma_find_from_bounds(v@, pat@, cur as int);
        }
        let f = find_vec(v, pat, cur);
        match f {
            Some(k) => {
                assert(match_at(v@, pat@, k as int));
                let ghost old_r = r@;
                let ghost rest = split_from(v@, pat@, k + pat@.len());
                assert(split_from(v@, pat@, cur as int) == seq![(cur as int, k as int)] + rest);
                assert(split_from(v@, pat@, start as int)[r@.len() as int] == split_from(v@, pat@, cur as int)[0]);
                r.push((cur, k));
                assert forall|j: int| 0 <= j < rest.len() implies split_from(
                    v@,
                    pat@,
                    start as int,
                )[r@.len() + j] == #[trigger] rest[j] by {
                    assert(split_from(v@, pat@, cur as int)[j + 1] == rest[j]);
                }
                cur = k + pat.len();
            },
            None => {
                assert(split_from(v@, pat@, cur as int) == seq![(cur as int, v@.len() as int)]);
                assert(split_from(v@, pat@, start as int)[r@.len() as int] == split_from(v@, pat@, cur as int)[0]);
                r.push((cur, v.len()));
                return r;
            },
        }
    }
}

/// `s` with every `"\r\n"` replaced by `"\n"`, scanning left to right
/// (`str::replace("\r\n", "\n")`).
pub open spec fn replace_crlf(s: Seq<char>) -> Seq<char>
    decreases s.len(),
{
    if s.len() >= 2 && s[0] == '\r' && s[1] == '\n' {
        seq!['\n'] + replace_crlf(s.skip(2))
    } else if s.len() >= 1 {
        seq![s[0]] + replace_crlf(s.skip(1))
    } else {
        seq![]
    }
}

/// `s` with every `'\n'` written as `"\r\n"`.
pub open spec fn to_crlf(s: Seq<char>) -> Seq<char>
    decreases s.len(),
{
    if s.len() == 0 {
        seq![]
    } else if s[0] == '\n' {
        seq!['\r', '\n'] + to_crlf(s.skip(1))
    } else {
        seq![s[0]] + to_crlf(s.skip(1))
    }
}

/// `s` has no `"\r\n"`.
pub open spec fn no_crlf(s: Seq<char>) -> bool {
    forall|i: int| 0 <= i < s.len() - 1 ==> !(s[i] == '\r' && #[trigger] s[i + 1] == '\n')
}

/// Undoing the `"\r\n"` line ends of a text written with them gives the
/// text back.
pub proof fn lemma_replace_crlf_of_crlf(s: Seq<char>)
    ensures
        replace_crlf(to_crlf(s)) == s,
    decreases s.len(),
{
    if s.len() > 0 {
        let rest = s.skip(1);
        lemma_replace_crlf_of_crlf(rest);
        let t = to_crlf(s);
        if s[0] == '\n' {
            assert(t.skip(2) =~= to_crlf(rest));
        } else {
            assert(t.skip(1) =~= to_crlf(rest));
            if rest.len() > 0 {
                assert(t[1] == to_crlf(rest)[0]);
            }
        }
        assert(seq![s[0]] + rest =~= s);
    }
}

/// A text without `"\r\n"` is left as it is.
pub proof fn lemma_replace_crlf_noop(s: Seq<char>)
    requires
        no_crlf(s),
    ensures
        replace_crlf(s) == s,
    decreases s.len(),
{
    if s.len() > 0 {
        let rest = s.skip(1);
        assert forall|i: int| 0 <= i < rest.len() - 1 implies !(rest[i] == '\r' && #[trigger] rest[i
            + 1] == '\n') by {
            assert(rest[i] == s[i + 1] && rest[i + 1] == s[i + 2]);
        }
        lemma_replace_crlf_noop(rest);
        if s.len() >= 2 {
            assert(!(s[0] == '\r' && s[0int + 1] == '\n'));
        }
        assert(seq![s[0]] + rest =~= s);
    }
}

/// Replaces every `"\r\n"` in `v` by `"\n"`.
pub fn replace_crlf_vec(v: &[char]) -> (r: Vec<char>)
    ensures
        r@ == replace_crlf(v@),
{
    let mut r: Vec<char> = Vec::new();
    let mut i: usize = 0;
    assert(v@.skip(0) == v@);
    while i < v.len()
        invariant
            i <= v@.len(),
            r@ + replace_crlf(v@.skip(i as int)) == replace_crlf(v@),
        decreases v@.len() - i,
    {
        if i + 1 < v.len() && v[i] == '\r' && v[i + 1] == '\n' {
            assert(v@.skip(i as int).skip(2) == v@.skip(i + 2));
            r.push('\n');
            assert(r@ + replace_crlf(v@.skip(i + 2)) == replace_crlf(v@));
            i += 2;
        } else {
            assert(v@.skip(i as int).skip(1) == v@.skip(i + 1));
            r.push(v[i]);
            assert(r@ + replace_crlf(v@.skip(i + 1)) == replace_crlf(v@));
            i += 1;
        }
    }
    assert(v@.skip(i as int) == Seq::<char>::empty());
    assert(r@ + Seq::<char>::empty() == r@);
    r
}

/// The first split of `s` at `pat` (`str::split_once`).
pub open spec fn split_once(s: Seq<char>, pat: Seq<char>) -> Option<(Seq<char>, Seq<char>)> {
    match find(s, pat) {
        Some(k) => Some((s.take(k), s.skip(k + pat.len()))),
        None => None,
    }
}

/// Splits `v` at the first occurrence of `pat`.
pub fn split_once_vec(v: &[char], pat: &[char]) -> (r: Option<(Vec<char>, Vec<char>)>)
    ensures
        r matches Some((a, b)) ==> split_once(v@, pat@) == Some((a@, b@)),
        r is None ==> split_once(v@, pat@) is None,
{
    proof {
        lemma_find_from_bounds(v@, pat@, 0);
    }
    match find_vec(v, pat, 0) {
        Some(k) => {
            assert(match_at(v@, pat@, k as int));
            assert(k + pat@.len() <= v.len());
            let a = sub_vec(v, 0, k);
            let b = sub_vec(v, k + pat.len(), v.len());
            assert(a@ == v@.take(k as int));
            assert(b@ == v@.skip(k + pat@.len()));
            Some((a, b))
        },
        None => None,
    }
}

/// Whether `s` begins with `p`.
pub open spec fn starts_with(s: Seq<char>, p: Seq<char>) -> bool {
    p.len() <= s.len() && s.take(p.len() as int) == p
}

/// Whether `s` ends with `p`.
pub open spec fn ends_with(s: Seq<char>, p: Seq<char>) -> bool {
    p.len() <= s.len() && s.skip(s.len() - p.len()) == p
}

pub fn starts_with_vec(v: &[char], p: &[char]) -> (r: bool)
    ensures
        r == starts_with(v@, p@),
{
    let r = matches_at(v, p, 0);
    proof {
        if p@.len() <= v@.len() {
            assert(v@.subrange(0, p@.len() as int) == v@.take(p@.len() as int));
        }
    }
    r
}

pub fn ends_with_vec(v: &[char], p: &[char]) -> (r: bool)
    ensures
        r == ends_with(v@, p@),
{
    if p.len() > v.len() {
        return false;
    }
    let r = matches_at(v, p, v.len() - p.len());
    proof {
        assert(v@.subrange(v@.len() - p@.len(), v@.len() as int) == v@.skip(v@.len() - p@.len()));
    }
    r
}

/// Whether the string `s` ends with the string `p` (`str::ends_with`).
pub fn str_ends_with(s: &str, p: &str) -> (r: bool)
    ensures
        r == ends_with(s@, p@),
{
    let a = chars_of(s);
    let b = chars_of(p);
    ends_with_vec(a.as_slice(), b.as_slice())
}

/// Whether the string `s` begins with the string `p` (`str::starts_with`).
pub fn str_starts_with(s: &str, p: &str) -> (r: bool)
    ensures
        r == starts_with(s@, p@),
{
    let a = chars_of(s);
    let b = chars_of(p);
    starts_with_vec(a.as_slice(), b.as_slice())
}

/// Whether `p` occurs somewhere in `s` (`str::contains`).
pub open spec fn contains(s: Seq<char>, p: Seq<char>) -> bool {
    exists|i: int| match_at(s, p, i)
}

pub fn contains_vec(v: &[char], p: &[char]) -> (r: bool)
    ensures
        r == contains(v@, p@),
{
    proof {
        lemma_find_from_bounds(v@, p@, 0);
    }
    match find_vec(v, p, 0) {
        Some(k) => {
            assert(match_at(v@, p@, k as int));
            true
        },
        None => {
            assert forall|i: int| !match_at(v@, p@, i) by {
                if i >= 0 {
                    assert(!match_at(v@, p@, i));
                }
            }
            false
        },
    }
}

// ---------------------------------------------------------------------
// Lines
// ---------------------------------------------------------------------

/// `s` without one trailing `'\r'`, if it has one.
pub open spec fn strip_cr(s: Seq<char>) -> Seq<char> {
    if s.len() > 0 && s.last() == '\r' {
        s.drop_last()
    } else {
        s
    }
}

/// The lines of `s` (`str::lines`): pieces between `'\n'`, each that ends at
/// a `'\n'` without one trailing `'\r'`; a last piece after the final
/// `'\n'` only when it is not empty, and then unchanged.
pub open spec fn lines(s: Seq<char>) -> Seq<Seq<char>> {
    let rs = split(s, seq!['\n']);
    let n = rs.len() - 1;
    let last = piece(s, rs[n]);
    Seq::new(n as nat, |k: int| strip_cr(piece(s, rs[k]))) + if last.len() > 0 {
        seq![last]
    } else {
        Seq::<Seq<char>>::empty()
    }
}

/// Characters that are ASCII decimal digits.
pub open spec fn is_digit(c: char) -> bool {
    '0' <= c && c <= '9'
}

/// The value of a run of decimal digits.
pub open spec fn digits_value(d: Seq<char>) -> nat
    decreases d.len(),
{
    if d.len() == 0 {
        0
    } else {
        digits_value(d.drop_last()) * 10 + (d.last() as nat - '0' as nat) as nat
    }
}

/// Whether every character of `d` is a decimal digit.
pub open spec fn all_digits(d: Seq<char>) -> bool {
    forall|i: int| 0 <= i < d.len() ==> is_digit(#[trigger] d[i])
}

/// `u64::from_str`: an optional `'+'`, then one or more decimal digits
/// whose value fits in a `u64`.
pub open spec fn parse_u64(s: Seq<char>) -> Option<u64> {
    let d = if s.len() > 0 && s[0] == '+' {
        s.skip(1)
    } else {
        s
    };
    if d.len() > 0 && all_digits(d) && digits_value(d) <= u64::MAX {
        Some(digits_value(d) as u64)
    } else {
        None
    }
}

proof fn lemma_digits_value_monotone(d: Seq<char>, k: int)
    requires
        0 <= k <= d.len(),
        all_digits(d),
    ensures
        digits_value(d.take(k)) <= digits_value(d),
    decreases d.len() - k,
{
    if k < d.len() {
        lemma_digits_value_monotone(d, k + 1);
        assert(d.take(k + 1).drop_last() == d.take(k));
        assert(is_digit(d[k]));
    } else {
        assert(d.take(k) == d);
    }
}

/// Reads the value of the digit run `v[from..]` when it fits in a `u64`.
pub fn digits_to_u64(v: &[char], from: usize) -> (r: Option<u64>)
    requires
        from <= v@.len(),
    ensures
        r matches Some(x) ==> all_digits(v@.skip(from as int)) && digits_value(
            v@.skip(from as int),
        ) == x,
        r is None ==> !all_digits(v@.skip(from as int)) || digits_value(v@.skip(from as int))
            > u64::MAX,
{
    let ghost d = v@.skip(from as int);
    let mut acc: u64 = 0;
    let mut i = from;
    while i < v.len()
        invariant
            from <= i <= v@.len(),
            d == v@.skip(from as int),
            all_digits(d.take(i - from)),
            digits_value(d.take(i - from)) == acc,
        decreases v@.len() - i,
    {
        let c = v[i];
        assert(d[i - from] == c);
        if !('0' <= c && c <= '9') {
            assert(!is_digit(d[i - from]));
            return None;
        }
        let dig = (c as u32 - '0' as u32) as u64;
        assert(d.take(i - from + 1).drop_last() == d.take(i - from));
        assert(digits_value(d.take(i - from + 1)) == acc * 10 + dig);
        if acc > (u64::MAX - dig) / 10 {
            proof {
                assert(acc * 10 + dig > u64::MAX) by (nonlinear_arith)
                    requires
                        acc > (u64::MAX - dig) / 10,
                        dig <= 9,
                ;
                assert forall|j: int| 0 <= j < d.take(i - from + 1).len() implies is_digit(
                    #[trigger] d.take(i - from + 1)[j],
                ) by {
                    if j < i - from {
                        assert(d.take(i - from + 1)[j] == d.take(i - from)[j]);
                    }
                }
                if all_digits(d) {
                    lemma_digits_value_monotone(d, i - from + 1);
                }
            }
            return None;
        }
        proof {
            assert(acc * 10 + dig <= u64::MAX) by (nonlinear_arith)
                requires
                    acc <= (u64::MAX - dig) / 10,
                    dig <= 9,
            ;
            assert forall|j: int| 0 <= j < d.take(i - from + 1).len() implies is_digit(
                #[trigger] d.take(i - from + 1)[j],
            ) by {
                if j < i - from {
                    assert(d.take(i - from + 1)[j] == d.take(i - from)[j]);
                }
            }
        }
        acc = acc * 10 + dig;
        i += 1;
    }
    assert(d.take(i - from) == d);
    Some(acc)
}

/// Parses an unsigned 64-bit integer as `u64::from_str` does.
pub fn parse_u64_vec(v: &[char]) -> (r: Option<u64>)
    ensures
        r == parse_u64(v@),
{
    let from: usize = if v.len() > 0 && v[0] == '+' {
        1
    } else {
        0
    };
    assert(v@.skip(0) == v@);
    if from >= v.len() {
        return None;
    }
    digits_to_u64(v, from)
}

// ---------------------------------------------------------------------
// Decimal numerals
// ---------------------------------------------------------------------

/// The decimal numeral of `n`, without leading zeros ("0" for zero).
pub open spec fn decimal(n: nat) -> Seq<char>
    decreases n,
{
    if n < 10 {
        seq![('0' as nat + n) as char]
    } else {
        decimal(n / 10).push(('0' as nat + n % 10) as char)
    }
}

/// The decimal numeral of `n`.
pub fn decimal_string(n: u64) -> (s: String)
    ensures
        s@ == decimal(n as nat),
{
    let mut digits: Vec<char> = Vec::new();
    let mut m = n;
    // digits holds the numeral of n % 10^k reversed... built from the right.
    let ghost mut tail: Seq<char> = seq![];
    loop
        invariant
            decimal(n as nat) == decimal(m as nat) + tail,
            digits@ == tail.reverse(),
            m <= n,
        decreases m,
    {
        if m < 10 {
            let c = char_of_digit(m);
            let mut s = String::new();
            push_char(&mut s, c);
            let mut k = digits.len();
            while k > 0
                invariant
                    k <= digits@.len(),
                    digits@ == tail.reverse(),
                    s@ == seq![c] + tail.take(digits@.len() - k),
                decreases k,
            {
                proof {
                    let idx = digits@.len() - k;
                    assert(digits@[k - 1] == tail[idx]);
                    assert(tail.take(idx + 1) == tail.take(idx).push(tail[idx]));
                }
                push_char(&mut s, digits[k - 1]);
                k -= 1;
            }
            assert(tail.take(digits@.len() as int) == tail);
            assert(decimal(m as nat) == seq![c]);
            return s;
        }
        let c = char_of_digit(m % 10);
        proof {
            assert(decimal(m as nat) == decimal((m / 10) as nat).push(c));
            assert(decimal((m / 10) as nat).push(c) + tail == decimal((m / 10) as nat) + (seq![c]
                + tail));
            assert((seq![c] + tail).reverse() == tail.reverse().push(c));
            tail = seq![c] + tail;
        }
        digits.push(c);
        m = m / 10;
    }
}

fn char_of_digit(d: u64) -> (c: char)
    requires
        d < 10,
    ensures
        c == ('0' as nat + d) as char,
{
    if d == 0 {
        '0'
    } else if d == 1 {
        '1'
    } else if d == 2 {
        '2'
    } else if d == 3 {
        '3'
    } else if d == 4 {
        '4'
    } else if d == 5 {
        '5'
    } else if d == 6 {
        '6'
    } else if d == 7 {
        '7'
    } else if d == 8 {
        '8'
    } else {
        '9'
    }
}

} // verus!

verus! {

// ---------------------------------------------------------------------
// Lexicographic order of strings
// ---------------------------------------------------------------------

/// `a` comes strictly before `b` in the order of `String`'s `Ord`: by
/// characters (code points), a proper prefix first.
pub open spec fn seq_lt(a: Seq<char>, b: Seq<char>) -> bool
    decreases a.len(),
{
    if a.len() == 0 {
        b.len() > 0
    } else if b.len() == 0 {
        false
    } else if a[0] < b[0] {
        true
    } else if a[0] == b[0] {
        seq_lt(a.skip(1), b.skip(1))
    } else {
        false
    }
}

/// `a` comes before `b` in the order of strings: `a` is a proper prefix
/// of `b`, or at the first place where they differ `a` has the smaller
/// character.
pub open spec fn before_lexicographic(a: Seq<char>, b: Seq<char>) -> bool {
    ||| (a.len() < b.len() && b.take(a.len() as int) == a)
    ||| exists|i: int|
        0 <= i < a.len() && i < b.len() && a.take(i) == b.take(i) && #[trigger] a[i] < #[trigger] b[i]
}

/// The order of names is that of strings, character by character, and not
/// by length first.
pub proof fn law_seq_lt_lexicographic(a: Seq<char>, b: Seq<char>)
    ensures
        seq_lt(a, b) <==> before_lexicographic(a, b),
    decreases a.len(),
{
    if a.len() == 0 {
        if b.len() > 0 {
            assert(b.take(0) =~= a);
        }
    } else if b.len() == 0 {
    } else if a[0] < b[0] {
        assert(a.take(0) =~= b.take(0));
    } else if a[0] == b[0] {
        let a1 = a.skip(1);
        let b1 = b.skip(1);
        law_seq_lt_lexicographic(a1, b1);
        if before_lexicographic(a1, b1) {
            if a1.len() < b1.len() && b1.take(a1.len() as int) == a1 {
                assert(b.take(a.len() as int) =~= a) by {
                    assert forall|k: int| 0 <= k < a.len() implies #[trigger] b.take(a.len() as int)[k] == a[k] by {
                        if k > 0 {
                            assert(b1.take(a1.len() as int)[k - 1] == a1[k - 1]);
                        }
                    }
                }
            } else {
                let i = choose|i: int|
                    0 <= i < a1.len() && i < b1.len() && a1.take(i) == b1.take(i) && #[trigger] a1[i]
                        < #[trigger] b1[i];
                assert(a[i + 1] == a1[i] && b[i + 1] == b1[i]);
                assert(a.take(i + 1) =~= b.take(i + 1)) by {
                    assert forall|k: int| 0 <= k < i + 1 implies #[trigger] a.take(i + 1)[k] == b.take(i + 1)[k] by {
                        if k > 0 {
                            assert(a1.take(i)[k - 1] == b1.take(i)[k - 1]);
                        }
                    }
                }
            }
        }
        if before_lexicographic(a, b) {
            if a.len() < b.len() && b.take(a.len() as int) == a {
                assert(b1.take(a1.len() as int) =~= a1) by {
                    assert forall|k: int| 0 <= k < a1.len() implies #[trigger] b1.take(a1.len() as int)[k] == a1[k] by {
                        assert(b.take(a.len() as int)[k + 1] == a[k + 1]);
                    }
                }
            } else {
                let i = choose|i: int|
                    0 <= i < a.len() && i < b.len() && a.take(i) == b.take(i) && #[trigger] a[i]
                        < #[trigger] b[i];
                assert(i > 0);
                assert(a1[i - 1] == a[i] && b1[i - 1] == b[i]);
                assert(a1.take(i - 1) =~= b1.take(i - 1)) by {
                    assert forall|k: int| 0 <= k < i - 1 implies #[trigger] a1.take(i - 1)[k] == b1.take(i - 1)[k] by {
                        assert(a.take(i)[k + 1] == b.take(i)[k + 1]);
                    }
                }
            }
        }
    } else {
        // a[0] > b[0]: neither holds
        if before_lexicographic(a, b) {
            if a.len() < b.len() && b.take(a.len() as int) == a {
                assert(b.take(a.len() as int)[0] == a[0]);
            } else {
                let i = choose|i: int|
                    0 <= i < a.len() && i < b.len() && a.take(i) == b.take(i) && #[trigger] a[i]
                        < #[trigger] b[i];
                if i > 0 {
                    assert(a.take(i)[0] == b.take(i)[0]);
                }
            }
        }
    }
}

pub proof fn lemma_seq_lt_irreflexive(a: Seq<char>)
    ensures
        !seq_lt(a, a),
    decreases a.len(),
{
    if a.len() > 0 {
        lemma_seq_lt_irreflexive(a.skip(1));
    }
}

pub proof fn lemma_seq_lt_asymmetric(a: Seq<char>, b: Seq<char>)
    ensures
        seq_lt(a, b) ==> !seq_lt(b, a),
    decreases a.len(),
{
    if a.len() > 0 && b.len() > 0 && a[0] == b[0] {
        lemma_seq_lt_asymmetric(a.skip(1), b.skip(1));
    }
}

pub proof fn lemma_seq_lt_transitive(a: Seq<char>, b: Seq<char>, c: Seq<char>)
    requires
        seq_lt(a, b),
        seq_lt(b, c),
    ensures
        seq_lt(a, c),
    decreases a.len(),
{
    if a.len() > 0 && b.len() > 0 && c.len() > 0 && a[0] == b[0] && b[0] == c[0] {
        lemma_seq_lt_transitive(a.skip(1), b.skip(1), c.skip(1));
    }
}

pub proof fn lemma_seq_lt_total(a: Seq<char>, b: Seq<char>)
    ensures
        a == b || seq_lt(a, b) || seq_lt(b, a),
    decreases a.len(),
{
    if a.len() > 0 && b.len() > 0 && a[0] == b[0] {
        lemma_seq_lt_total(a.skip(1), b.skip(1));
        if a.skip(1) == b.skip(1) {
            assert(a =~= seq![a[0]] + a.skip(1));
            assert(b =~= seq![b[0]] + b.skip(1));
        }
    } else if a.len() == 0 && b.len() == 0 {
        assert(a =~= b);
    }
}

/// Whether `a` comes strictly before `b`.
pub fn chars_lt(a: &[char], b: &[char]) -> (r: bool)
    ensures
        r == seq_lt(a@, b@),
{
    let mut i: usize = 0;
    assert(a@.skip(0) == a@ && b@.skip(0) == b@);
    while i < a.len() && i < b.len() && a[i] == b[i]
        invariant
            i <= a@.len(),
            i <= b@.len(),
            seq_lt(a@, b@) == seq_lt(a@.skip(i as int), b@.skip(i as int)),
        decreases a@.len() - i,
    {
        assert(a@.skip(i as int).skip(1) == a@.skip(i + 1));
        assert(b@.skip(i as int).skip(1) == b@.skip(i + 1));
        i += 1;
    }
    if i == a.len() {
        i < b.len()
    } else if i == b.len() {
        false
    } else {
        a[i] < b[i]
    }
}

// ---------------------------------------------------------------------
// Searching and splitting a text with a line added
// ---------------------------------------------------------------------

/// What is found in `x` is found at the same place in `x + y`.
pub proof fn lemma_find_from_extend(x: Seq<char>, y: Seq<char>, pat: Seq<char>, i: int)
    requires
        0 <= i,
        find_from(x, pat, i) is Some,
    ensures
        find_from(x + y, pat, i) == find_from(x, pat, i),
    decreases x.len() + 1 - i,
{
    let s = x + y;
    if i + pat.len() <= x.len() {
        assert(s.subrange(i, i + pat.len()) =~= x.subrange(i, i + pat.len()));
        if !match_at(x, pat, i) {
            lemma_find_from_extend(x, y, pat, i + 1);
        }
    }
}

/// Nothing is found where nothing matches.
pub proof fn lemma_find_from_none(s: Seq<char>, pat: Seq<char>, i: int)
    requires
        0 <= i,
        forall|j: int| i <= j ==> !match_at(s, pat, j),
    ensures
        find_from(s, pat, i) is None,
    decreases s.len() + 1 - i,
{
    if i + pat.len() <= s.len() {
        lemma_find_from_none(s, pat, i + 1);
    }
}

/// With no `'\n'` in `x` from `i` on, the first `'\n'` of
/// `x + "\n" + l` from `i` is the one added.
proof fn lemma_find_nl_added(x: Seq<char>, l: Seq<char>, i: int)
    requires
        0 <= i <= x.len(),
        find_from(x, seq!['\n'], i) is None,
    ensures
        find_from(x + seq!['\n'] + l, seq!['\n'], i) == Some(x.len() as int),
    decreases x.len() - i,
{
    let s = x + seq!['\n'] + l;
    let nl = seq!['\n'];
    if i == x.len() {
        assert(s.subrange(i, i + 1) =~= nl);
    } else {
        lemma_find_from_bounds(x, nl, i);
        assert(!match_at(x, nl, i));
        assert(s.subrange(i, i + 1) =~= x.subrange(i, i + 1));
        assert(find_from(x, nl, i + 1) is None) by {
            lemma_find_from_bounds(x, nl, i);
            assert forall|j: int| i + 1 <= j implies !match_at(x, nl, j) by {}
            lemma_find_from_none(x, nl, i + 1);
        }
        lemma_find_nl_added(x, l, i + 1);
    }
}

/// Splitting `x + "\n" + l` at `'\n'` (with no `'\n'` in `l`) gives the
/// pieces of `x` and then `l`.
pub proof fn lemma_split_nl_added(x: Seq<char>, l: Seq<char>, start: int)
    requires
        0 <= start <= x.len(),
        forall|j: int| 0 <= j < l.len() ==> l[j] != '\n',
    ensures
        split_from(x, seq!['\n'], start).len() >= 1,
        split_from(x, seq!['\n'], start).last().1 == x.len(),
        split_from(x + seq!['\n'] + l, seq!['\n'], start) == split_from(x, seq!['\n'], start).drop_last()
            + seq![
            (split_from(x, seq!['\n'], start).last().0, x.len() as int),
            (x.len() + 1int, x.len() + 1int + l.len()),
        ],
    decreases x.len() - start,
{
    let s = x + seq!['\n'] + l;
    let nl = seq!['\n'];
    lemma_find_from_bounds(x, nl, start);
    lemma_split_from_within(x, nl, start);
    match find_from(x, nl, start) {
        Some(k) => {
            lemma_find_from_extend(x, seq!['\n'] + l, nl, start);
            assert(x + (seq!['\n'] + l) == s);
            lemma_split_nl_added(x, l, k + 1);
            let rest = split_from(x, nl, k + 1);
            assert(split_from(x, nl, start) == seq![(start, k)] + rest);
            assert(split_from(s, nl, start) == seq![(start, k)] + split_from(s, nl, k + 1));
            let t = seq![(rest.last().0, x.len() as int), (x.len() + 1int, x.len() + 1int + l.len())];
            assert((seq![(start, k)] + rest).drop_last() =~= seq![(start, k)] + rest.drop_last());
            assert((seq![(start, k)] + rest).last() == rest.last());
            assert(seq![(start, k)] + (rest.drop_last() + t) =~= (seq![(start, k)] + rest.drop_last())
                + t);
        },
        None => {
            lemma_find_nl_added(x, l, start);
            let e: int = x.len() + 1int;
            assert forall|j: int| e <= j implies !match_at(s, nl, j) by {
                if j + 1 <= s.len() && j >= 0 {
                    assert(s.subrange(j, j + 1)[0] == l[j - e]);
                }
            }
            lemma_find_from_none(s, nl, e);
            assert(split_from(x, nl, start) == seq![(start, x.len() as int)]);
            assert(split_from(s, nl, e) == seq![(e, s.len() as int)]);
            assert(split_from(s, nl, start) == seq![(start, x.len() as int)] + split_from(s, nl, e));
            assert(seq![(start, x.len() as int)].drop_last() =~= Seq::<(int, int)>::empty());
        },
    }
}

/// The lines of `x + "\n" + l`, for a line `l` that is not empty and a
/// text `x` that does not end in `'\r'`: those of `x` (with an empty one
/// where `x` ends in `'\n'` or is empty), and then `l`.
pub proof fn lemma_lines_added(x: Seq<char>, l: Seq<char>)
    requires
        l.len() > 0,
        forall|j: int| 0 <= j < l.len() ==> l[j] != '\n',
        !(x.len() > 0 && x.last() == '\r'),
    ensures
        lines(x + seq!['\n'] + l) == (if piece(x, split(x, seq!['\n']).last()).len() > 0 {
            lines(x)
        } else {
            lines(x).push(seq![])
        }).push(l),
{
    let s = x + seq!['\n'] + l;
    let nl = seq!['\n'];
    lemma_split_nl_added(x, l, 0);
    lemma_split_from_within(x, nl, 0);
    let rs = split(x, nl);
    let n = rs.len() - 1;
    let rs2 = split(s, nl);
    assert(rs2.len() == n + 2);
    let pn = piece(x, rs[n]);
    assert(rs[n] == rs.last());
    assert(piece(s, rs2[n + 1]) =~= l);
    assert forall|k: int| 0 <= k < n implies piece(s, #[trigger] rs2[k]) == piece(x, rs[k]) by {
        assert(rs2[k] == rs[k]);
        assert(0 <= rs[k].0 <= rs[k].1 <= x.len());
        assert(piece(s, rs[k]) =~= piece(x, rs[k]));
    }
    assert(rs2[n] == (rs[n].0, x.len() as int));
    assert(0 <= rs[n].0 <= x.len());
    assert(piece(s, rs2[n]) =~= pn);
    if pn.len() > 0 {
        assert(pn.last() == x.last());
        assert(strip_cr(pn) == pn);
    } else {
        assert(strip_cr(pn) =~= seq![]);
    }
    let front = Seq::new((n + 1) as nat, |k: int| strip_cr(piece(s, rs2[k])));
    assert(lines(s) == front + seq![l]);
    let fx = Seq::new(n as nat, |k: int| strip_cr(piece(x, rs[k])));
    if pn.len() > 0 {
        assert(lines(x) == fx + seq![pn]);
        assert(front =~= fx + seq![pn]);
    } else {
        assert(lines(x) == fx + Seq::<Seq<char>>::empty());
        assert(front =~= (fx + Seq::<Seq<char>>::empty()).push(seq![]));
    }
    assert(lines(s) =~= (if pn.len() > 0 {
        lines(x)
    } else {
        lines(x).push(seq![])
    }).push(l));
}

} // verus!
