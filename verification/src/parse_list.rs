//! Parser of the technical listing that `7zz l -slt <archive>` prints.
use vstd::prelude::*;

use crate::entry::{entries_view, ArchiveEntry, EntryView};
use crate::text::{find_from, is_ws, lemma_lines_added, 
    chars_of, find, find_vec, lemma_find_from_bounds, lemma_split_from_within, lines, match_at,
    parse_u64, parse_u64_vec, piece, ranges_within, replace_crlf, replace_crlf_vec, same_chars,
    split, split_once, split_once_vec, split_vec, starts_with, starts_with_vec, string_of, strip_cr,
    sub_vec, trim, trim_vec, to_crlf, no_crlf, lemma_replace_crlf_of_crlf, lemma_replace_crlf_noop,
};

verus! {

/// The line that separates the archive's own properties from its entries.
pub open spec fn separator() -> Seq<char> {
    "----------"@
}

/// What the lines of one block have set so far.
pub struct BlockState {
    pub path: Option<Seq<char>>,
    pub size: u64,
    pub packed_size: u64,
    pub modified: Option<Seq<char>>,
    pub is_dir: bool,
    pub encrypted: bool,
}

pub open spec fn initial_block() -> BlockState {
    BlockState {
        path: None,
        size: 0,
        packed_size: 0,
        modified: None,
        is_dir: false,
        encrypted: false,
    }
}

/// The effect of one `Key = Value` line; other lines leave the state as is.
pub open spec fn apply_line(st: BlockState, line: Seq<char>) -> BlockState {
    match split_once(line, " = "@) {
        None => st,
        Some((k, v)) => {
            let key = trim(k);
            let tv = trim(v);
            if key == "Path"@ {
                BlockState { path: Some(v), ..st }
            } else if key == "Size"@ {
                BlockState {
                    size: match parse_u64(tv) {
                        Some(x) => x,
                        None => 0,
                    },
                    ..st
                }
            } else if key == "Packed Size"@ {
                BlockState {
                    packed_size: match parse_u64(tv) {
                        Some(x) => x,
                        None => 0,
                    },
                    ..st
                }
            } else if key == "Modified"@ {
                if tv.len() > 0 {
                    BlockState { modified: Some(tv), ..st }
                } else {
                    st
                }
            } else if key == "Folder"@ {
                BlockState { is_dir: st.is_dir || tv == seq!['+'], ..st }
            } else if key == "Attributes"@ {
                BlockState { is_dir: st.is_dir || starts_with(tv, seq!['D']), ..st }
            } else if key == "Encrypted"@ {
                BlockState { encrypted: tv == seq!['+'], ..st }
            } else {
                st
            }
        },
    }
}

/// The state after the given lines, in order.
pub open spec fn block_state(ls: Seq<Seq<char>>) -> BlockState
    decreases ls.len(),
{
    if ls.len() == 0 {
        initial_block()
    } else {
        apply_line(block_state(ls.drop_last()), ls.last())
    }
}

/// The entry that a block describes: one exactly when it has a `Path` line.
pub open spec fn entry_of_block(b: Seq<char>) -> Option<EntryView> {
    let st = block_state(lines(b));
    match st.path {
        Some(p) => Some(
            EntryView {
                path: p,
                size: st.size,
                packed_size: st.packed_size,
                modified: st.modified,
                is_dir: st.is_dir,
                encrypted: st.encrypted,
            },
        ),
        None => None,
    }
}

/// The entries of the blocks at the ranges `rs` of `corpo`, in order.
pub open spec fn entries_of_blocks(corpo: Seq<char>, rs: Seq<(int, int)>) -> Seq<EntryView>
    decreases rs.len(),
{
    if rs.len() == 0 {
        seq![]
    } else {
        entries_of_blocks(corpo, rs.drop_last()) + match entry_of_block(piece(corpo, rs.last())) {
            Some(e) => seq![e],
            None => Seq::<EntryView>::empty(),
        }
    }
}

/// The text between the first separator and the next one (or the end);
/// none when there is no separator.
pub open spec fn listing_body(out: Seq<char>) -> Option<Seq<char>> {
    let norm = replace_crlf(out);
    match find(norm, separator()) {
        None => None,
        Some(i) => {
            let rest = norm.skip(i + separator().len());
            match find(rest, separator()) {
                Some(j) => Some(rest.take(j)),
                None => Some(rest),
            }
        },
    }
}

/// The entries that a listing describes: after `"\r\n"` becomes `"\n"`, the
/// text between the first separator line and the next is cut into blocks at
/// each blank line (`"\n\n"`), and each block with a `Path` gives one entry.
pub open spec fn spec_parse_slt(out: Seq<char>) -> Seq<EntryView> {
    match listing_body(out) {
        None => seq![],
        Some(corpo) => entries_of_blocks(corpo, split(corpo, "\n\n"@)),
    }
}

/// The executable state of one block.
struct Block {
    path: Option<Vec<char>>,
    size: u64,
    packed_size: u64,
    modified: Option<Vec<char>>,
    is_dir: bool,
    encrypted: bool,
}

spec fn vopt(o: Option<Vec<char>>) -> Option<Seq<char>> {
    match o {
        Some(v) => Some(v@),
        None => None,
    }
}

impl Block {
    spec fn state(&self) -> BlockState {
        BlockState {
            path: vopt(self.path),
            size: self.size,
            packed_size: self.packed_size,
            modified: vopt(self.modified),
            is_dir: self.is_dir,
            encrypted: self.encrypted,
        }
    }
}

/// The keys the parser knows, as characters.
struct Keys {
    eq: Vec<char>,
    path: Vec<char>,
    size: Vec<char>,
    packed: Vec<char>,
    modified: Vec<char>,
    folder: Vec<char>,
    attributes: Vec<char>,
    encrypted: Vec<char>,
}

impl Keys {
    spec fn wf(&self) -> bool {
        &&& self.eq@ == " = "@
        &&& self.path@ == "Path"@
        &&& self.size@ == "Size"@
        &&& self.packed@ == "Packed Size"@
        &&& self.modified@ == "Modified"@
        &&& self.folder@ == "Folder"@
        &&& self.attributes@ == "Attributes"@
        &&& self.encrypted@ == "Encrypted"@
    }

    fn new() -> (k: Keys)
        ensures
            k.wf(),
    {
        Keys {
            eq: chars_of(" = "),
            path: chars_of("Path"),
            size: chars_of("Size"),
            packed: chars_of("Packed Size"),
            modified: chars_of("Modified"),
            folder: chars_of("Folder"),
            attributes: chars_of("Attributes"),
            encrypted: chars_of("Encrypted"),
        }
    }
}

fn apply_line_exec(b: &mut Block, line: &[char], keys: &Keys)
    requires
        keys.wf(),
    ensures
        final(b).state() == apply_line(old(b).state(), line@),
{
    let plus = vec!['+'];
    let d = vec!['D'];
    match split_once_vec(line, keys.eq.as_slice()) {
        None => {},
        Some((k, v)) => {
            let key = trim_vec(k.as_slice());
            let tv = trim_vec(v.as_slice());
            if same_chars(key.as_slice(), keys.path.as_slice()) {
                b.path = Some(v);
            } else if same_chars(key.as_slice(), keys.size.as_slice()) {
                b.size = match parse_u64_vec(tv.as_slice()) {
                    Some(x) => x,
                    None => 0,
                };
            } else if same_chars(key.as_slice(), keys.packed.as_slice()) {
                b.packed_size = match parse_u64_vec(tv.as_slice()) {
                    Some(x) => x,
                    None => 0,
                };
            } else if same_chars(key.as_slice(), keys.modified.as_slice()) {
                if tv.len() > 0 {
                    b.modified = Some(tv);
                }
            } else if same_chars(key.as_slice(), keys.folder.as_slice()) {
                let p = same_chars(tv.as_slice(), plus.as_slice());
                assert(plus@ == seq!['+']);
                b.is_dir = b.is_dir || p;
            } else if same_chars(key.as_slice(), keys.attributes.as_slice()) {
                let s = starts_with_vec(tv.as_slice(), d.as_slice());
                assert(d@ == seq!['D']);
                b.is_dir = b.is_dir || s;
            } else if same_chars(key.as_slice(), keys.encrypted.as_slice()) {
                let p = same_chars(tv.as_slice(), plus.as_slice());
                assert(plus@ == seq!['+']);
                b.encrypted = p;
            }
        },
    }
}

/// The entry of one block, when it has a `Path` line.
fn parse_block(blk: &[char], keys: &Keys) -> (r: Option<ArchiveEntry>)
    requires
        keys.wf(),
    ensures
        r matches Some(e) ==> entry_of_block(blk@) == Some(e@),
        r is None ==> entry_of_block(blk@) is None,
{
    let nl = vec!['\n'];
    assert(nl@ == seq!['\n']);
    let rs = split_vec(blk, nl.as_slice(), 0);
    proof {
        lemma_split_from_within(blk@, seq!['\n'], 0);
    }
    let ghost srs = split(blk@, seq!['\n']);
    let ghost ls = lines(blk@);
    let n = rs.len() - 1;
    let mut b = Block {
        path: None,
        size: 0,
        packed_size: 0,
        modified: None,
        is_dir: false,
        encrypted: false,
    };
    let mut k: usize = 0;
    while k < n
        invariant
            keys.wf(),
            n + 1 == rs@.len() == srs.len(),
            srs == split(blk@, seq!['\n']),
            ls == lines(blk@),
            ranges_within(blk@, srs),
            forall|j: int|
                0 <= j < rs@.len() ==> (#[trigger] rs@[j].0 as int, rs@[j].1 as int) == srs[j],
            k <= n,
            b.state() == block_state(ls.take(k as int)),
        decreases n - k,
    {
        let (a, e) = rs[k];
        assert((a as int, e as int) == srs[k as int]);
        let mut line = sub_vec(blk, a, e);
        if line.len() > 0 && line[line.len() - 1] == '\r' {
            line.pop();
        }
        assert(line@ == strip_cr(piece(blk@, srs[k as int])));
        assert(ls[k as int] == line@);
        assert(ls.take(k + 1).drop_last() == ls.take(k as int));
        apply_line_exec(&mut b, line.as_slice(), keys);
        k += 1;
    }
    let (a, e) = rs[n];
    assert((a as int, e as int) == srs[n as int]);
    let last = sub_vec(blk, a, e);
    if last.len() > 0 {
        assert(ls.len() == n + 1);
        assert(ls[n as int] == last@);
        assert(ls.take(n + 1).drop_last() == ls.take(n as int));
        apply_line_exec(&mut b, last.as_slice(), keys);
        assert(ls.take(n + 1) == ls);
    } else {
        assert(ls.len() == n);
        assert(ls.take(n as int) == ls);
    }
    match b.path {
        Some(p) => {
            let path = string_of(p.as_slice());
            let modified = match b.modified {
                Some(m) => Some(string_of(m.as_slice())),
                None => None,
            };
            Some(
                ArchiveEntry {
                    path,
                    size: b.size,
                    packed_size: b.packed_size,
                    modified,
                    is_dir: b.is_dir,
                    encrypted: b.encrypted,
                },
            )
        },
        None => None,
    }
}

/// Parses the output of `7zz l -slt <archive>` into its entries.
///
/// The entries follow the line `----------`, in blocks of `Key = Value`
/// lines separated by a blank line.
pub fn parse_slt(output: &str) -> (r: Vec<ArchiveEntry>)
    ensures
        entries_view(r@) == spec_parse_slt(output@),
{
    let keys = Keys::new();
    let raw = chars_of(output);
    let norm = replace_crlf_vec(raw.as_slice());
    let sep = chars_of("----------");
    proof {
        lemma_find_from_bounds(norm@, sep@, 0);
    }
    let mut out: Vec<ArchiveEntry> = Vec::new();
    let i = match find_vec(norm.as_slice(), sep.as_slice(), 0) {
        Some(i) => i,
        None => {
            assert(entries_view(out@) =~= Seq::<EntryView>::empty());
            return out;
        },
    };
    assert(match_at(norm@, sep@, i as int));
    let nlen = norm.len();
    assert(i + sep@.len() <= nlen);
    let rest = sub_vec(norm.as_slice(), i + sep.len(), norm.len());
    assert(rest@ == norm@.skip(i + sep@.len()));
    proof {
        lemma_find_from_bounds(rest@, sep@, 0);
    }
    let corpo = match find_vec(rest.as_slice(), sep.as_slice(), 0) {
        Some(j) => {
            assert(match_at(rest@, sep@, j as int));
            let c = sub_vec(rest.as_slice(), 0, j);
            assert(c@ == rest@.take(j as int));
            c
        },
        None => rest,
    };
    assert(listing_body(output@) == Some(corpo@));
    let blank = chars_of("\n\n");
    let rs = split_vec(corpo.as_slice(), blank.as_slice(), 0);
    let ghost srs = split(corpo@, "\n\n"@);
    proof {
        lemma_split_from_within(corpo@, "\n\n"@, 0);
    }
    let mut k: usize = 0;
    while k < rs.len()
        invariant
            keys.wf(),
            rs@.len() == srs.len(),
            srs == split(corpo@, "\n\n"@),
            ranges_within(corpo@, srs),
            forall|j: int|
                0 <= j < rs@.len() ==> (#[trigger] rs@[j].0 as int, rs@[j].1 as int) == srs[j],
            k <= rs@.len(),
            entries_view(out@) == entries_of_blocks(corpo@, srs.take(k as int)),
        decreases rs@.len() - k,
    {
        let (a, e) = rs[k];
        assert((a as int, e as int) == srs[k as int]);
        let blk = sub_vec(corpo.as_slice(), a, e);
        assert(srs.take(k + 1).drop_last() == srs.take(k as int));
        assert(srs.take(k + 1).last() == srs[k as int]);
        let ghost before = out@;
        match parse_block(blk.as_slice(), &keys) {
            Some(ent) => {
                out.push(ent);
                assert(entries_view(out@) == entries_view(before) + seq![ent@]);
            },
            None => {},
        }
        k += 1;
    }
    assert(srs.take(rs@.len() as int) == srs);
    out
}

/// A listing printed with `"\r\n"` line ends describes the same entries
/// as the same listing printed with `"\n"`.
pub proof fn law_crlf_listing(out: Seq<char>)
    requires
        no_crlf(out),
    ensures
        spec_parse_slt(to_crlf(out)) == spec_parse_slt(out),
{
    lemma_replace_crlf_of_crlf(out);
    lemma_replace_crlf_noop(out);
}

/// A listing reads the same after one pass that turns every `"\r\n"`
/// into `"\n"`, whenever that pass leaves no `"\r\n"` behind (it does
/// leave one of `"\r\r\n"`).
pub proof fn law_lf_listing(out: Seq<char>)
    requires
        no_crlf(replace_crlf(out)),
    ensures
        spec_parse_slt(replace_crlf(out)) == spec_parse_slt(out),
{
    lemma_replace_crlf_noop(replace_crlf(out));
}

/// The first match from `i` is at `m` when `m` matches and nothing
/// between does.
proof fn lemma_find_first(s: Seq<char>, pat: Seq<char>, i: int, m: int)
    requires
        0 <= i <= m,
        match_at(s, pat, m),
        forall|j: int| i <= j < m ==> !match_at(s, pat, j),
    ensures
        find_from(s, pat, i) == Some(m),
    decreases m - i,
{
    if i < m {
        lemma_find_first(s, pat, i + 1, m);
    }
}

/// A line `key = value` whose key has no space splits at the `" = "` after
/// the key.
proof fn lemma_split_key(k: Seq<char>, v: Seq<char>)
    requires
        forall|i: int| 0 <= i < k.len() ==> k[i] != ' ',
    ensures
        split_once(k + " = "@ + v, " = "@) == Some((k, v)),
{
    reveal_strlit(" = ");
    let pat = " = "@;
    let l = k + pat + v;
    assert forall|j: int| 0 <= j < k.len() implies !match_at(l, pat, j) by {
        if match_at(l, pat, j) {
            assert(l.subrange(j, j + 3)[0] == l[j]);
        }
    }
    assert(l.subrange(k.len() as int, k.len() + 3int) =~= pat);
    lemma_find_first(l, pat, 0, k.len() as int);
    assert(l.take(k.len() as int) =~= k);
    assert(l.skip(k.len() + 3int) =~= v);
}

/// A text that starts and ends with characters that are not white space
/// is its own trim.
proof fn lemma_trim_plain(k: Seq<char>)
    requires
        k.len() > 0,
        !is_ws(k[0]),
        !is_ws(k.last()),
    ensures
        trim(k) == k,
{
}

/// Trimming keeps a first character that is not white space.
proof fn lemma_trim_first(v: Seq<char>)
    requires
        v.len() > 0,
        !is_ws(v[0]),
    ensures
        trim(v).len() > 0,
        trim(v)[0] == v[0],
    decreases v.len(),
{
    if is_ws(v.last()) {
        assert(v.len() > 1);
        assert(v.drop_last()[0] == v[0]);
        lemma_trim_first(v.drop_last());
    }
}

/// The lengths of the keys of an entry's lines, which tell them apart.
proof fn lemma_keys_distinct()
    ensures
        "Attributes"@.len() == 10,
        "Encrypted"@.len() == 9,
        "Path"@.len() == 4,
        "Size"@.len() == 4,
        "Packed Size"@.len() == 11,
        "Modified"@.len() == 8,
        "Folder"@.len() == 6,
{
    reveal_strlit("Attributes");
    reveal_strlit("Encrypted");
    reveal_strlit("Path");
    reveal_strlit("Size");
    reveal_strlit("Packed Size");
    reveal_strlit("Modified");
    reveal_strlit("Folder");
}

/// Every line of a block counts, its last one too, whether a `'\n'` ends
/// it or not: a block with a line `Attributes = D...` added at its end
/// describes a directory, and one with `Encrypted = +` added describes an
/// encrypted entry; what the block said before stays.
pub proof fn law_block_last_line(x: Seq<char>, v: Seq<char>)
    requires
        entry_of_block(x) is Some,
        !(x.len() > 0 && x.last() == '\r'),
        v.len() > 0,
        v[0] == 'D',
        forall|j: int| 0 <= j < v.len() ==> v[j] != '\n',
    ensures
        entry_of_block(x + seq!['\n'] + "Attributes = "@ + v) == Some(
            EntryView { is_dir: true, ..entry_of_block(x)->0 },
        ),
        entry_of_block(x + seq!['\n'] + "Encrypted = +"@) == Some(
            EntryView { encrypted: true, ..entry_of_block(x)->0 },
        ),
{
    reveal_strlit("Attributes");
    reveal_strlit("Encrypted");
    reveal_strlit(" = ");
    reveal_strlit("+");
    reveal_strlit("Attributes = ");
    reveal_strlit("Encrypted = +");
    lemma_keys_distinct();
    let ka = "Attributes"@;
    let ke = "Encrypted"@;
    assert("Attributes = "@ + v =~= ka + " = "@ + v);
    assert("Encrypted = +"@ =~= ke + " = "@ + "+"@);
    lemma_split_key(ka, v);
    lemma_split_key(ke, "+"@);
    lemma_trim_plain(ka);
    lemma_trim_plain(ke);
    lemma_trim_first(v);
    assert(trim("+"@) == "+"@) by {
        lemma_trim_plain("+"@);
    }
    assert("+"@ == seq!['+']);
    let la = ka + " = "@ + v;
    let le = ke + " = "@ + "+"@;
    assert(x + seq!['\n'] + "Attributes = "@ + v == x + seq!['\n'] + la);
    assert(x + seq!['\n'] + "Encrypted = +"@ == x + seq!['\n'] + le);
    assert forall|j: int| 0 <= j < la.len() implies la[j] != '\n' by {
        if j >= 13 {
            assert(la[j] == v[j - 13]);
        }
    }
    assert forall|j: int| 0 <= j < le.len() implies le[j] != '\n' by {}
    lemma_lines_added(x, la);
    lemma_lines_added(x, le);
    let st = block_state(lines(x));
    assert(apply_line(st, seq![]) == st) by {
        assert(find_from(Seq::<char>::empty(), " = "@, 0) is None);
    }
    let lx = if piece(x, split(x, seq!['\n']).last()).len() > 0 {
        lines(x)
    } else {
        lines(x).push(seq![])
    };
    assert(block_state(lx) == st) by {
        if piece(x, split(x, seq!['\n']).last()).len() == 0 {
            assert(lx.drop_last() == lines(x));
        }
    }
    assert(lx.push(la).drop_last() == lx);
    assert(lx.push(le).drop_last() == lx);
    assert(trim(v).take(1) =~= seq!['D']);
    assert(starts_with(trim(v), seq!['D']));
}

} // verus!
