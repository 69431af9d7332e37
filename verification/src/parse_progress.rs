//! Progress tokens that `7zz -bsp1` writes to its standard output.
use vstd::prelude::*;

use crate::text::{
    all_digits, chars_of, digits_to_u64, digits_value, find, find_vec, lemma_find_from_bounds,
    match_at, sub_vec, trim_start, trim_start_vec,
};

verus! {

/// The percentage that a progress token starts with: after leading
/// whitespace, one or more decimal digits directly before the first `'%'`,
/// whose value fits in a `u16`; capped at 100.
pub open spec fn spec_parse_progress(token: Seq<char>) -> Option<u8> {
    let t = trim_start(token);
    match find(t, seq!['%']) {
        None => None,
        Some(pos) => {
            let d = t.take(pos);
            if d.len() == 0 || !all_digits(d) || digits_value(d) > 65535 {
                None
            } else if digits_value(d) > 100 {
                Some(100)
            } else {
                Some(digits_value(d) as u8)
            }
        },
    }
}

fn parse_progress_chars(token: &[char]) -> (r: Option<u8>)
    ensures
        r == spec_parse_progress(token@),
{
    let t = trim_start_vec(token);
    let pct = vec!['%'];
    proof {
        lemma_find_from_bounds(t@, seq!['%'], 0);
        assert(pct@ == seq!['%']);
    }
    let pos = match find_vec(t.as_slice(), pct.as_slice(), 0) {
        Some(p) => p,
        None => return None,
    };
    assert(match_at(t@, pct@, pos as int));
    if pos == 0 {
        return None;
    }
    let d = sub_vec(t.as_slice(), 0, pos);
    assert(d@ == t@.take(pos as int));
    assert(d@.skip(0) == d@);
    match digits_to_u64(d.as_slice(), 0) {
        None => None,
        Some(v) => {
            if v > 65535 {
                None
            } else if v > 100 {
                Some(100)
            } else {
                Some(v as u8)
            }
        },
    }
}

/// Extracts the percentage from a progress token of `7zz -bsp1`, such as
/// `"  4% 12 - name/of/file"`: the number before the `'%'`.
pub fn parse_progress(token: &str) -> (r: Option<u8>)
    ensures
        r == spec_parse_progress(token@),
{
    let cs = chars_of(token);
    parse_progress_chars(cs.as_slice())
}

/// Characters that end a progress token.
pub open spec fn is_token_end(c: char) -> bool {
    c == '\r' || c == '\n'
}

/// What a reader of the output has seen: the token in progress, and the
/// percentages of the tokens it has finished.
pub struct ScanState {
    pub partial: Seq<char>,
    pub emitted: Seq<u8>,
}

/// The percentage of a token, as a sequence of zero or one values.
pub open spec fn progress_seq(token: Seq<char>) -> Seq<u8> {
    match spec_parse_progress(token) {
        Some(p) => seq![p],
        None => seq![],
    }
}

pub open spec fn scan_step(st: ScanState, c: char) -> ScanState {
    if is_token_end(c) {
        ScanState { partial: seq![], emitted: st.emitted + progress_seq(st.partial) }
    } else {
        ScanState { partial: st.partial.push(c), emitted: st.emitted }
    }
}

/// The state after reading the characters of `s`, in order.
pub open spec fn scan(st: ScanState, s: Seq<char>) -> ScanState
    decreases s.len(),
{
    if s.len() == 0 {
        st
    } else {
        scan_step(scan(st, s.drop_last()), s.last())
    }
}

/// The state with an unfinished token and nothing reported yet.
pub open spec fn initial_with(p: Seq<char>) -> ScanState {
    ScanState { partial: p, emitted: seq![] }
}

pub open spec fn initial_scan() -> ScanState {
    ScanState { partial: seq![], emitted: seq![] }
}

/// Every percentage that an output reports, in order: one for each token
/// that ends at a `'\r'` or `'\n'`, and one for the final token.
pub open spec fn progress_events(out: Seq<char>) -> Seq<u8> {
    let st = scan(initial_scan(), out);
    st.emitted + progress_seq(st.partial)
}

proof fn lemma_scan_emitted(p: Seq<char>, e: Seq<u8>, s: Seq<char>)
    ensures
        scan(ScanState { partial: p, emitted: e }, s).emitted == e + scan(
            ScanState { partial: p, emitted: seq![] },
            s,
        ).emitted,
        scan(ScanState { partial: p, emitted: e }, s).partial == scan(
            ScanState { partial: p, emitted: seq![] },
            s,
        ).partial,
    decreases s.len(),
{
    if s.len() > 0 {
        lemma_scan_emitted(p, e, s.drop_last());
        let a = scan(ScanState { partial: p, emitted: e }, s.drop_last());
        let b = scan(ScanState { partial: p, emitted: seq![] }, s.drop_last());
        if is_token_end(s.last()) {
            assert(a.emitted + progress_seq(a.partial) == e + (b.emitted + progress_seq(
                b.partial,
            )));
        }
    }
}

proof fn lemma_scan_concat(st: ScanState, a: Seq<char>, b: Seq<char>)
    ensures
        scan(st, a + b) == scan(scan(st, a), b),
    decreases b.len(),
{
    if b.len() == 0 {
        assert(a + b == a);
    } else {
        lemma_scan_concat(st, a, b.drop_last());
        assert((a + b).drop_last() == a + b.drop_last());
        assert((a + b).last() == b.last());
    }
}

/// The percentages do not depend on how the output is cut into chunks:
/// reading `a`, then `b` from where `a` left off, reports in all what
/// reading `a + b` at once reports, and leaves the same unfinished token;
/// with the final token, that is every percentage of the output.
pub proof fn law_progress_chunking(a: Seq<char>, b: Seq<char>)
    ensures
        ({
            let s1 = scan(initial_scan(), a);
            let s2 = scan(ScanState { partial: s1.partial, emitted: seq![] }, b);
            &&& s1.emitted + s2.emitted == scan(initial_scan(), a + b).emitted
            &&& s2.partial == scan(initial_scan(), a + b).partial
            &&& s1.emitted + s2.emitted + progress_seq(s2.partial) == progress_events(a + b)
        }),
{
    let s1 = scan(initial_scan(), a);
    lemma_scan_concat(initial_scan(), a, b);
    lemma_scan_emitted(s1.partial, s1.emitted, b);
}

/// Reads the output of the archiver chunk by chunk and reports the
/// percentages of the progress tokens it completes.
pub struct ProgressScanner {
    parcial: Vec<char>,
}

impl View for ProgressScanner {
    type V = Seq<char>;

    /// The unfinished token.
    closed spec fn view(&self) -> Seq<char> {
        self.parcial@
    }
}

impl ProgressScanner {
    pub fn new() -> (r: ProgressScanner)
        ensures
            r@ == Seq::<char>::empty(),
    {
        ProgressScanner { parcial: Vec::new() }
    }

    /// Reads one chunk of text; gives the percentages of the tokens that it
    /// completes, in order.
    pub fn feed(&mut self, text: &str) -> (r: Vec<u8>)
        ensures
            scan(initial_with(old(self)@), text@) == (ScanState {
                partial: final(self)@,
                emitted: r@,
            }),
    {
        let cs = chars_of(text);
        let ghost st0 = initial_with(self.parcial@);
        let mut out: Vec<u8> = Vec::new();
        let mut i: usize = 0;
        while i < cs.len()
            invariant
                i <= cs@.len(),
                cs@ == text@,
                scan(st0, cs@.take(i as int)) == (ScanState {
                    partial: self.parcial@,
                    emitted: out@,
                }),
            decreases cs@.len() - i,
        {
            let c = cs[i];
            assert(cs@.take(i + 1).drop_last() == cs@.take(i as int));
            if c == '\r' || c == '\n' {
                let p = parse_progress_chars(self.parcial.as_slice());
                match p {
                    Some(v) => {
                        out.push(v);
                    },
                    None => {},
                }
                assert(out@ =~= scan(st0, cs@.take(i as int)).emitted + progress_seq(
                    scan(st0, cs@.take(i as int)).partial,
                ));
                self.parcial = Vec::new();
                assert(self.parcial@ =~= Seq::<char>::empty());
            } else {
                self.parcial.push(c);
            }
            i += 1;
        }
        assert(cs@.take(cs@.len() as int) == cs@);
        out
    }

    /// The percentage of the last, unfinished token, once the output ends.
    pub fn finish(&self) -> (r: Option<u8>)
        ensures
            r == spec_parse_progress(self@),
    {
        parse_progress_chars(self.parcial.as_slice())
    }
}

} // verus!
