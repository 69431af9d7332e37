//! The current location: a directory on disk, or a directory inside an
//! archive. Paths on disk follow POSIX syntax: `'/'` separates components
//! and a leading `'/'` is the root.
use vstd::prelude::*;

use crate::text::{chars_of, push_chars, push_str, same_chars, string_of, sub_vec};

verus! {

/// Where the browser is.
#[derive(Debug, Clone)]
pub enum Location {
    Disk(String),
    Archive { archive: String, inner: String },
}

/// The mathematical value of a [`Location`].
pub enum LocationView {
    Disk(Seq<char>),
    Archive { archive: Seq<char>, inner: Seq<char> },
}

impl View for Location {
    type V = LocationView;

    open spec fn view(&self) -> LocationView {
        match self {
            Location::Disk(p) => LocationView::Disk(p@),
            Location::Archive { archive, inner } => LocationView::Archive {
                archive: archive@,
                inner: inner@,
            },
        }
    }
}

// ---------------------------------------------------------------------
// POSIX paths
// ---------------------------------------------------------------------

/// The path starts at the root.
pub open spec fn has_root(p: Seq<char>) -> bool {
    p.len() > 0 && p[0] == '/'
}

/// The path starts with a `.` component (`"."` or `"./..."`).
pub open spec fn has_cur_dir(p: Seq<char>) -> bool {
    !has_root(p) && p.len() > 0 && p[0] == '.' && (p.len() == 1 || p[1] == '/')
}

/// Where the components after the root or the leading `.` begin.
pub open spec fn body_start(p: Seq<char>) -> int {
    if has_root(p) || has_cur_dir(p) {
        1
    } else {
        0
    }
}

/// The end of the last component of `p[..i]` that is neither empty nor
/// `.`, or `base` when there is none (`i` is the end of `p` or a `'/'`).
pub open spec fn last_comp_end(p: Seq<char>, i: int, base: int) -> int
    decreases i,
{
    if i <= base || i <= 0 || i > p.len() {
        base
    } else if p[i - 1] == '/' {
        last_comp_end(p, i - 1, base)
    } else if p[i - 1] == '.' && (i - 1 == base || p[i - 2] == '/') {
        last_comp_end(p, i - 1, base)
    } else {
        i
    }
}

/// The start of the component that ends at `e`.
pub open spec fn comp_start(p: Seq<char>, e: int, base: int) -> int
    decreases e,
{
    if e <= base || e <= 0 || e > p.len() || p[e - 1] == '/' {
        e
    } else {
        comp_start(p, e - 1, base)
    }
}

/// `Path::parent` on POSIX: the path without its last component; none for
/// the root and for the empty path.
pub open spec fn path_parent(p: Seq<char>) -> Option<Seq<char>> {
    let base = body_start(p);
    let e = last_comp_end(p, p.len() as int, base);
    if e == base {
        if has_cur_dir(p) {
            Some(seq![])
        } else {
            None
        }
    } else {
        Some(p.take(last_comp_end(p, comp_start(p, e, base), base)))
    }
}

proof fn lemma_last_comp_end_bounds(p: Seq<char>, i: int, base: int)
    requires
        0 <= base <= i <= p.len(),
    ensures
        base <= last_comp_end(p, i, base) <= i,
    decreases i,
{
    if i > base && i <= p.len() {
        if p[i - 1] == '/' || (p[i - 1] == '.' && (i - 1 == base || p[i - 2] == '/')) {
            lemma_last_comp_end_bounds(p, i - 1, base);
        }
    }
}

proof fn lemma_comp_start_bounds(p: Seq<char>, e: int, base: int)
    requires
        0 <= base <= e <= p.len(),
    ensures
        base <= comp_start(p, e, base) <= e,
    decreases e,
{
    if e > base && p[e - 1] != '/' {
        lemma_comp_start_bounds(p, e - 1, base);
    }
}

/// Where `last_comp_end` stops above `base`, the character before is the
/// last of a component that is neither empty nor `.`.
proof fn lemma_last_comp_end_stop(p: Seq<char>, i: int, base: int)
    requires
        0 <= base <= i <= p.len(),
    ensures
        ({
            let k = last_comp_end(p, i, base);
            k > base ==> p[k - 1] != '/' && !(p[k - 1] == '.' && (k - 1 == base || p[k - 2] == '/'))
        }),
    decreases i,
{
    if i > base {
        if p[i - 1] == '/' || (p[i - 1] == '.' && (i - 1 == base || p[i - 2] == '/')) {
            lemma_last_comp_end_stop(p, i - 1, base);
        }
    }
}

/// `last_comp_end` of a place where it stops is that place.
proof fn lemma_last_comp_end_idem(p: Seq<char>, i: int, base: int)
    requires
        0 <= base <= i <= p.len(),
    ensures
        last_comp_end(p, last_comp_end(p, i, base), base) == last_comp_end(p, i, base),
{
    lemma_last_comp_end_bounds(p, i, base);
    lemma_last_comp_end_stop(p, i, base);
}

/// `comp_start` reads only the characters before `e`.
proof fn lemma_comp_start_prefix(p: Seq<char>, q: Seq<char>, e: int, base: int)
    requires
        0 <= base,
        0 <= e <= p.len(),
        e <= q.len(),
        forall|j: int| 0 <= j < e ==> p[j] == q[j],
    ensures
        comp_start(p, e, base) == comp_start(q, e, base),
    decreases e,
{
    if e > 0 {
        assert(p[e - 1] == q[e - 1]);
        lemma_comp_start_prefix(p, q, e - 1, base);
    }
}

/// The components of `p[..e]` after `base` that are neither empty nor `.`,
/// in order.
pub open spec fn comps_upto(p: Seq<char>, e: int, base: int) -> Seq<Seq<char>>
    decreases e,
{
    let k = last_comp_end(p, e, base);
    let st = comp_start(p, k, base);
    if k <= base || st >= e || st < 0 {
        seq![]
    } else {
        comps_upto(p, st, base).push(p.subrange(st, k))
    }
}

/// The components of a path as `Path::components` gives them: whether it
/// starts at the root, whether it starts with `.`, and its other
/// components, neither empty nor `.`.
pub open spec fn normal_components(p: Seq<char>) -> Seq<Seq<char>> {
    comps_upto(p, p.len() as int, body_start(p))
}

/// Two paths that `Path` holds equal: the same components.
pub open spec fn same_path(a: Seq<char>, b: Seq<char>) -> bool {
    &&& has_root(a) == has_root(b)
    &&& has_cur_dir(a) == has_cur_dir(b)
    &&& normal_components(a) == normal_components(b)
}

/// The components up to two places where `last_comp_end` stops at the same
/// point are the same.
proof fn lemma_comps_same_end(p: Seq<char>, i: int, j: int, base: int)
    requires
        0 <= base <= i <= p.len(),
        base <= j <= p.len(),
        last_comp_end(p, i, base) == last_comp_end(p, j, base),
    ensures
        comps_upto(p, i, base) == comps_upto(p, j, base),
{
    let k = last_comp_end(p, i, base);
    lemma_last_comp_end_bounds(p, i, base);
    lemma_last_comp_end_bounds(p, j, base);
    lemma_comp_start_bounds(p, k, base);
    lemma_last_comp_end_stop(p, i, base);
    if k > base {
        assert(comp_start(p, k, base) == comp_start(p, k - 1, base));
        lemma_comp_start_bounds(p, k - 1, base);
    }
}

/// `comps_upto` reads only the characters before `e`.
proof fn lemma_comps_prefix(p: Seq<char>, q: Seq<char>, e: int, base: int)
    requires
        0 <= base,
        0 <= e <= p.len(),
        e <= q.len(),
        forall|j: int| 0 <= j < e ==> p[j] == q[j],
    ensures
        comps_upto(p, e, base) == comps_upto(q, e, base),
    decreases e,
{
    lemma_last_comp_end_prefix(p, q, e, base);
    let k = last_comp_end(p, e, base);
    if base <= e {
        lemma_last_comp_end_bounds(p, e, base);
    } else {
        assert(k == base);
    }
    if k >= 0 && k <= e {
        lemma_comp_start_prefix(p, q, k, base);
        let st = comp_start(p, k, base);
        if k > base && st < e && st >= 0 {
            lemma_comps_prefix(p, q, st, base);
            if base <= k {
                lemma_comp_start_bounds(p, k, base);
            }
            assert(p.subrange(st, k) =~= q.subrange(st, k));
        }
    }
}

fn last_comp_end_vec(p: &[char], i: usize, base: usize) -> (r: usize)
    requires
        base <= i <= p@.len(),
    ensures
        r == last_comp_end(p@, i as int, base as int),
        base <= r <= i,
{
    let mut j = i;
    while j > base && (p[j - 1] == '/' || (p[j - 1] == '.' && (j - 1 == base || p[j - 2] == '/')))
        invariant
            base <= j <= i <= p@.len(),
            last_comp_end(p@, i as int, base as int) == last_comp_end(p@, j as int, base as int),
        decreases j,
    {
        j -= 1;
    }
    j
}

fn comp_start_vec(p: &[char], e: usize, base: usize) -> (r: usize)
    requires
        base <= e <= p@.len(),
    ensures
        r == comp_start(p@, e as int, base as int),
        base <= r <= e,
{
    let mut j = e;
    while j > base && p[j - 1] != '/'
        invariant
            base <= j <= e <= p@.len(),
            comp_start(p@, e as int, base as int) == comp_start(p@, j as int, base as int),
        decreases j,
    {
        j -= 1;
    }
    j
}

fn comps_vec(p: &[char], e: usize, base: usize) -> (r: Vec<Vec<char>>)
    requires
        base <= e <= p@.len(),
    ensures
        r@.map_values(|c: Vec<char>| c@) == comps_upto(p@, e as int, base as int),
    decreases e,
{
    let k = last_comp_end_vec(p, e, base);
    if k <= base {
        return Vec::new();
    }
    let st = comp_start_vec(p, k, base);
    if st >= e {
        return Vec::new();
    }
    let mut r = comps_vec(p, st, base);
    let ghost before = r@;
    let c = sub_vec(p, st, k);
    r.push(c);
    assert(r@.map_values(|c: Vec<char>| c@) =~= before.map_values(|c: Vec<char>| c@).push(
        p@.subrange(st as int, k as int),
    ));
    r
}

/// The flags and components of a path.
fn path_key(p: &[char]) -> (r: (bool, bool, Vec<Vec<char>>))
    ensures
        r.0 == has_root(p@),
        r.1 == has_cur_dir(p@),
        r.2@.map_values(|c: Vec<char>| c@) == normal_components(p@),
{
    let n = p.len();
    let root = n > 0 && p[0] == '/';
    let cur = !root && n > 0 && p[0] == '.' && (n == 1 || p[1] == '/');
    let base: usize = if root || cur {
        1
    } else {
        0
    };
    (root, cur, comps_vec(p, n, base))
}

/// Whether two paths are equal as `Path`s are: the same root, the same
/// leading `.`, and the same other components (empty and `.` ones left
/// out), so that `"a/"`, `"a"` and `"a/./"` are one path.
pub fn mesmo_caminho(a: &str, b: &str) -> (r: bool)
    ensures
        r == same_path(a@, b@),
{
    let x = chars_of(a);
    let y = chars_of(b);
    let (ra, ca, va) = path_key(x.as_slice());
    let (rb, cb, vb) = path_key(y.as_slice());
    let ghost sa = va@.map_values(|c: Vec<char>| c@);
    let ghost sb = vb@.map_values(|c: Vec<char>| c@);
    assert(sa.len() == va@.len() && sb.len() == vb@.len());
    if ra != rb || ca != cb || va.len() != vb.len() {
        return false;
    }
    let mut i: usize = 0;
    while i < va.len()
        invariant
            i <= va@.len(),
            va@.len() == vb@.len(),
            sa == va@.map_values(|c: Vec<char>| c@),
            sb == vb@.map_values(|c: Vec<char>| c@),
            sa == normal_components(a@),
            sb == normal_components(b@),
            forall|j: int| 0 <= j < i ==> sa[j] == sb[j],
        decreases va@.len() - i,
    {
        if !same_chars(va[i].as_slice(), vb[i].as_slice()) {
            assert(sa[i as int] == va@[i as int]@ && sb[i as int] == vb@[i as int]@);
            assert(sa[i as int] != sb[i as int]);
            return false;
        }
        i += 1;
    }
    assert(sa =~= sb);
    true
}

/// The parent of a POSIX path (`Path::parent`).
pub fn parent_path(path: &str) -> (r: Option<String>)
    ensures
        match r {
            Some(s) => path_parent(path@) == Some(s@),
            None => path_parent(path@) is None,
        },
{
    let p = chars_of(path);
    let n = p.len();
    let root = n > 0 && p[0] == '/';
    let cur = !root && n > 0 && p[0] == '.' && (n == 1 || p[1] == '/');
    let base: usize = if root || cur {
        1
    } else {
        0
    };
    let e = last_comp_end_vec(p.as_slice(), n, base);
    if e == base {
        if cur {
            Some(String::new())
        } else {
            None
        }
    } else {
        let s = comp_start_vec(p.as_slice(), e, base);
        let k = last_comp_end_vec(p.as_slice(), s, base);
        let v = sub_vec(p.as_slice(), 0, k);
        assert(v@ == p@.take(k as int));
        Some(string_of(v.as_slice()))
    }
}

/// `PathBuf::join` on POSIX: an absolute `name` replaces `dir`; otherwise
/// `name` follows `dir`, with a `'/'` between them when `dir` is not empty
/// and does not end in one.
pub open spec fn path_join(dir: Seq<char>, name: Seq<char>) -> Seq<char> {
    if has_root(name) {
        name
    } else if dir.len() > 0 && dir.last() != '/' {
        dir + seq!['/'] + name
    } else {
        dir + name
    }
}

pub fn join_path(dir: &str, name: &str) -> (r: String)
    ensures
        r@ == path_join(dir@, name@),
{
    let d = chars_of(dir);
    let n = chars_of(name);
    if n.len() > 0 && n[0] == '/' {
        return string_of(n.as_slice());
    }
    let mut s = string_of(d.as_slice());
    if d.len() > 0 && d[d.len() - 1] != '/' {
        push_str(&mut s, "/");
        proof {
            reveal_strlit("/");
        }
        assert(s@ == d@ + seq!['/']);
    }
    push_chars(&mut s, n.as_slice());
    s
}

/// The part of `s` before its last `'/'` (`rsplit_once('/')`), or none.
#[verifier::opaque]
pub open spec fn before_last_slash(s: Seq<char>) -> Option<Seq<char>> {
    if exists|i: int| 0 <= i < s.len() && s[i] == '/' {
        let i = choose|i: int|
            0 <= i < s.len() && s[i] == '/' && forall|j: int| i < j < s.len() ==> s[j] != '/';
        Some(s.take(i))
    } else {
        None
    }
}

fn before_last_slash_vec(s: &[char]) -> (r: Option<Vec<char>>)
    ensures
        match r {
            Some(v) => before_last_slash(s@) == Some(v@),
            None => before_last_slash(s@) is None,
        },
{
    reveal(before_last_slash);
    let mut i = s.len();
    while i > 0 && s[i - 1] != '/'
        invariant
            i <= s@.len(),
            forall|j: int| i <= j < s@.len() ==> s@[j] != '/',
        decreases i,
    {
        i -= 1;
    }
    if i == 0 {
        return None;
    }
    let k = i - 1;
    assert(0 <= k < s@.len() && s@[k as int] == '/' && forall|j: int| k < j < s@.len() ==> s@[j] != '/');
    proof {
        let c = choose|c: int|
            0 <= c < s@.len() && s@[c] == '/' && forall|j: int| c < j < s@.len() ==> s@[j] != '/';
        if c < k {
            assert(s@[k as int] != '/');
        } else if c > k {
            assert(s@[c] != '/');
        }
    }
    let v = sub_vec(s, 0, k);
    assert(v@ == s@.take(k as int));
    Some(v)
}

/// The location one level up: inside an archive, the enclosing directory
/// of the archive path, and from the archive's root the directory on disk
/// that holds the archive (the archive path itself when it has no parent);
/// on disk, the parent directory, none at the root.
pub open spec fn spec_parent(l: LocationView) -> Option<LocationView> {
    match l {
        LocationView::Disk(p) => match path_parent(p) {
            Some(q) => Some(LocationView::Disk(q)),
            None => None,
        },
        LocationView::Archive { archive, inner } => if inner.len() == 0 {
            Some(
                LocationView::Disk(
                    match path_parent(archive) {
                        Some(q) => q,
                        None => archive,
                    },
                ),
            )
        } else {
            Some(
                LocationView::Archive {
                    archive,
                    inner: match before_last_slash(inner) {
                        Some(q) => q,
                        None => seq![],
                    },
                },
            )
        },
    }
}

/// The path shown for a location: the disk path, or the archive path and
/// the inner path, each followed by `'/'`.
pub open spec fn spec_display(l: LocationView) -> Seq<char> {
    match l {
        LocationView::Disk(p) => p,
        LocationView::Archive { archive, inner } => if inner.len() == 0 {
            archive + seq!['/']
        } else {
            archive + seq!['/'] + inner + seq!['/']
        },
    }
}

/// The view of an optional location.
pub open spec fn opt_location_view(o: Option<Location>) -> Option<LocationView> {
    match o {
        Some(l) => Some(l@),
        None => None,
    }
}

fn copy_string(s: &String) -> (r: String)
    ensures
        r@ == s@,
{
    let c = chars_of(s.as_str());
    string_of(c.as_slice())
}

/// Two locations that are the same place: disk paths with the same
/// components (as `Path`s compare), or the same archive path, again by
/// components, and the same inner path.
pub open spec fn loc_eq(a: LocationView, b: LocationView) -> bool {
    match (a, b) {
        (LocationView::Disk(x), LocationView::Disk(y)) => same_path(x, y),
        (
            LocationView::Archive { archive: a1, inner: i1 },
            LocationView::Archive { archive: a2, inner: i2 },
        ) => same_path(a1, a2) && i1 == i2,
        _ => false,
    }
}

impl PartialEq for Location {
    fn eq(&self, other: &Location) -> (r: bool) {
        match (self, other) {
            (Location::Disk(x), Location::Disk(y)) => mesmo_caminho(x.as_str(), y.as_str()),
            (
                Location::Archive { archive: a1, inner: i1 },
                Location::Archive { archive: a2, inner: i2 },
            ) => {
                let p = chars_of(i1.as_str());
                let q = chars_of(i2.as_str());
                mesmo_caminho(a1.as_str(), a2.as_str()) && same_chars(p.as_slice(), q.as_slice())
            },
            _ => false,
        }
    }
}

impl vstd::std_specs::cmp::PartialEqSpecImpl for Location {
    open spec fn obeys_eq_spec() -> bool {
        true
    }

    open spec fn eq_spec(&self, other: &Location) -> bool {
        loc_eq(self@, other@)
    }
}

impl Location {
    /// The location one level up.
    pub fn parent(&self) -> (r: Option<Location>)
        ensures
            opt_location_view(r) == spec_parent(self@),
    {
        match self {
            Location::Disk(p) => match parent_path(p.as_str()) {
                Some(q) => Some(Location::Disk(q)),
                None => None,
            },
            Location::Archive { archive, inner } => {
                if inner.as_str().is_empty() {
                    let dir = match parent_path(archive.as_str()) {
                        Some(q) => q,
                        None => copy_string(archive),
                    };
                    Some(Location::Disk(dir))
                } else {
                    let cs = chars_of(inner.as_str());
                    let novo = match before_last_slash_vec(cs.as_slice()) {
                        Some(v) => string_of(v.as_slice()),
                        None => String::new(),
                    };
                    Some(Location::Archive { archive: copy_string(archive), inner: novo })
                }
            },
        }
    }

    /// The path shown for this location.
    pub fn display(&self) -> (r: String)
        ensures
            r@ == spec_display(self@),
    {
        match self {
            Location::Disk(p) => copy_string(p),
            Location::Archive { archive, inner } => {
                let mut s = copy_string(archive);
                push_str(&mut s, "/");
                proof {
                    reveal_strlit("/");
                }
                if !inner.as_str().is_empty() {
                    push_str(&mut s, inner.as_str());
                    push_str(&mut s, "/");
                }
                s
            },
        }
    }
}


// ---------------------------------------------------------------------
// Laws of paths
// ---------------------------------------------------------------------

/// The path does not end in a `'/'` or in a `.` component, unless it is
/// the root, `"."` or empty: the form in which `Path::parent` gives paths
/// back.
pub open spec fn is_normal_dir(p: Seq<char>) -> bool {
    last_comp_end(p, p.len() as int, body_start(p)) == p.len()
}

/// A plain name of a file or directory: not empty, not `"."`, without
/// `'/'`.
pub open spec fn is_plain_name(n: Seq<char>) -> bool {
    &&& n.len() > 0
    &&& n != seq!['.']
    &&& forall|i: int| 0 <= i < n.len() ==> n[i] != '/'
}

/// `last_comp_end` reads only the characters before `i`.
proof fn lemma_last_comp_end_prefix(p: Seq<char>, q: Seq<char>, i: int, base: int)
    requires
        0 <= base,
        0 <= i <= p.len(),
        i <= q.len(),
        forall|j: int| 0 <= j < i ==> p[j] == q[j],
    ensures
        last_comp_end(p, i, base) == last_comp_end(q, i, base),
    decreases i,
{
    if i > 0 {
        lemma_last_comp_end_prefix(p, q, i - 1, base);
        if i > base && i >= 2 {
            assert(p[i - 2] == q[i - 2]);
        }
        assert(p[i - 1] == q[i - 1]);
    }
}

/// The component that ends at `e` starts after the last `'/'` before it.
proof fn lemma_comp_start_at(p: Seq<char>, s: int, e: int, base: int)
    requires
        0 <= base <= s <= e <= p.len(),
        forall|j: int| s <= j < e ==> p[j] != '/',
        s == base || (s > 0 && p[s - 1] == '/'),
    ensures
        comp_start(p, e, base) == s,
    decreases e,
{
    if e > s {
        lemma_comp_start_at(p, s, e - 1, base);
    }
}

/// Going up from a plain name joined to a directory gives the directory
/// back.
pub proof fn law_parent_of_join(dir: Seq<char>, name: Seq<char>)
    requires
        is_normal_dir(dir),
        is_plain_name(name),
    ensures
        path_parent(path_join(dir, name)) == Some(dir),
{
    let p = path_join(dir, name);
    let d = dir.len() as int;
    assert(!has_root(name));
    if name.len() == 1 && name[0] == '.' {
        assert(name =~= seq!['.']);
    }
    let s: int = if d > 0 && dir.last() != '/' {
        d + 1
    } else {
        d
    };
    if d > 0 && dir.last() != '/' {
        assert(p == dir + seq!['/'] + name);
    } else {
        assert(p == dir + name);
    }
    assert(p.len() == s + name.len());
    assert forall|j: int| 0 <= j < name.len() implies p[s + j] == name[j] by {}
    assert forall|j: int| 0 <= j < d implies p[j] == dir[j] by {}
    let base = body_start(p);
    // the root and the leading "." are kept
    if d == 0 {
        assert(base == 0);
    } else {
        assert(p[0] == dir[0]);
        if d == 1 {
            if dir.last() != '/' {
                assert(p[1] == '/');
            }
        } else {
            assert(p[1] == dir[1]);
        }
        assert(base == body_start(dir));
    }
    if d > 0 && dir.last() == '/' {
        // only the root ends in '/' and is normal
        assert(last_comp_end(dir, d, body_start(dir)) == last_comp_end(dir, d - 1, body_start(dir))
            || d <= body_start(dir));
        if d > body_start(dir) {
            lemma_last_comp_end_bounds(dir, d - 1, body_start(dir));
        }
        assert(d == 1 && base == 1);
    }
    assert(s == base || p[s - 1] == '/');
    assert(base <= s);
    // the last component is the name
    let n = p.len() as int;
    assert(p[n - 1] == name[name.len() - 1]);
    if name.len() >= 2 {
        assert(p[n - 2] == name[name.len() - 2]);
    }
    assert(last_comp_end(p, n, base) == n);
    assert forall|j: int| s <= j < n implies p[j] != '/' by {
        assert(p[j] == name[j - s]);
    }
    lemma_comp_start_at(p, s, n, base);
    if s > base {
        lemma_last_comp_end_prefix(p, dir, d, base);
        assert(last_comp_end(p, s, base) == last_comp_end(p, d, base));
    }
    assert(p.take(last_comp_end(p, s, base)) =~= dir);
}

/// Going up drops the last component of a path that has one, and keeps
/// the root and the leading `.`.
pub proof fn lemma_parent_components(p: Seq<char>)
    requires
        last_comp_end(p, p.len() as int, body_start(p)) > body_start(p),
    ensures
        path_parent(p) matches Some(q) && has_root(q) == has_root(p) && has_cur_dir(q) == has_cur_dir(
            p,
        ) && normal_components(q) == normal_components(p).drop_last(),
{
    let base = body_start(p);
    let n = p.len() as int;
    let e = last_comp_end(p, n, base);
    lemma_last_comp_end_bounds(p, n, base);
    lemma_last_comp_end_stop(p, n, base);
    let st = comp_start(p, e, base);
    assert(st == comp_start(p, e - 1, base));
    lemma_comp_start_bounds(p, e - 1, base);
    let k = last_comp_end(p, st, base);
    lemma_last_comp_end_bounds(p, st, base);
    lemma_last_comp_end_stop(p, st, base);
    lemma_last_comp_end_idem(p, st, base);
    let q = p.take(k);
    assert(path_parent(p) == Some(q));
    assert(comps_upto(p, n, base) == comps_upto(p, st, base).push(p.subrange(st, e)));
    lemma_comps_same_end(p, st, k, base);
    lemma_comps_prefix(p, q, k, base);
    // the root and the leading "." survive
    if k >= 1 {
        assert(q[0] == p[0]);
    }
    if k >= 2 {
        assert(q[1] == p[1]);
    }
    if base == 0 {
        if k == 1 {
            assert(p[0] != '.');
        }
    }
    assert(has_root(q) == has_root(p));
    assert(has_cur_dir(q) == has_cur_dir(p));
    assert(body_start(q) == base);
    assert(normal_components(q) == comps_upto(q, k, base));
    assert(normal_components(p).drop_last() == comps_upto(p, st, base));
}

/// The components of `dir` joined with a plain name are those of `dir`
/// and then the name; the root and the leading `.` are kept.
pub proof fn lemma_join_components(dir: Seq<char>, name: Seq<char>)
    requires
        is_plain_name(name),
    ensures
        has_root(path_join(dir, name)) == has_root(dir),
        has_cur_dir(path_join(dir, name)) == has_cur_dir(dir),
        normal_components(path_join(dir, name)) == normal_components(dir).push(name),
{
    let p = path_join(dir, name);
    let d = dir.len() as int;
    assert(!has_root(name));
    if name.len() == 1 && name[0] == '.' {
        assert(name =~= seq!['.']);
    }
    let sep = d > 0 && dir.last() != '/';
    let s: int = if sep {
        d + 1
    } else {
        d
    };
    if sep {
        assert(p == dir + seq!['/'] + name);
    } else {
        assert(p == dir + name);
    }
    assert(p.len() == s + name.len());
    assert forall|j: int| 0 <= j < name.len() implies p[s + j] == name[j] by {}
    assert forall|j: int| 0 <= j < d implies p[j] == dir[j] by {}
    if d == 0 {
    } else {
        assert(p[0] == dir[0]);
        if d == 1 {
            if sep {
                assert(p[1] == '/');
            }
        } else {
            assert(p[1] == dir[1]);
        }
    }
    assert(has_root(p) == has_root(dir));
    assert(has_cur_dir(p) == has_cur_dir(dir));
    let base = body_start(p);
    assert(base == body_start(dir));
    if d > 0 && !sep {
        if d > base {
            lemma_last_comp_end_bounds(dir, d - 1, base);
            lemma_comps_prefix(p, dir, d, base);
        }
    }
    assert(base <= s);
    assert(s == base || p[s - 1] == '/') by {
        if d > 0 && !sep && d > base {
            assert(p[s - 1] == dir[d - 1]);
        }
    }
    let n = p.len() as int;
    assert(p[n - 1] == name[name.len() - 1]);
    if name.len() >= 2 {
        assert(p[n - 2] == name[name.len() - 2]);
    }
    assert(last_comp_end(p, n, base) == n);
    assert forall|j: int| s <= j < n implies p[j] != '/' by {
        assert(p[j] == name[j - s]);
    }
    lemma_comp_start_at(p, s, n, base);
    assert(p.subrange(s, n) =~= name);
    assert(comps_upto(p, n, base) == comps_upto(p, s, base).push(name));
    if sep {
        assert(last_comp_end(p, s, base) == last_comp_end(p, d, base));
        lemma_comps_same_end(p, s, d, base);
    }
    lemma_comps_prefix(p, dir, d, base);
}

/// Going up from a plain name joined to any directory gives a path with
/// the components of that directory.
pub proof fn law_parent_of_join_same(dir: Seq<char>, name: Seq<char>)
    requires
        is_plain_name(name),
    ensures
        path_parent(path_join(dir, name)) matches Some(q) && same_path(q, dir),
{
    let p = path_join(dir, name);
    lemma_join_components(dir, name);
    if last_comp_end(p, p.len() as int, body_start(p)) <= body_start(p) {
        assert(normal_components(p) == Seq::<Seq<char>>::empty());
        assert(normal_components(p).len() > 0);
    }
    lemma_parent_components(p);
    assert(normal_components(dir).push(name).drop_last() =~= normal_components(dir));
}

/// The part before the last `'/'` of `inner/name` is `inner`, when `name`
/// has no `'/'`; a name alone has no such part.
pub proof fn lemma_before_last_slash_of_child(inner: Seq<char>, name: Seq<char>)
    requires
        forall|i: int| 0 <= i < name.len() ==> name[i] != '/',
    ensures
        before_last_slash(name) is None,
        before_last_slash(inner + seq!['/'] + name) == Some(inner),
{
    reveal(before_last_slash);
    let s = inner + seq!['/'] + name;
    let k = inner.len() as int;
    assert(s[k] == '/');
    assert forall|j: int| k < j < s.len() implies s[j] != '/' by {
        assert(s[j] == name[j - k - 1]);
    }
    let c = choose|c: int| 0 <= c < s.len() && s[c] == '/' && forall|j: int| c < j < s.len() ==> s[j] != '/';
    assert(0 <= k < s.len() && s[k] == '/' && forall|j: int| k < j < s.len() ==> s[j] != '/');
    if c < k {
        assert(s[k] != '/');
    } else if c > k {
        assert(s[c] == name[c - k - 1]);
    }
    assert(s.take(k) =~= inner);
}

/// The inner path of the directory `name` inside the directory `inner` of
/// an archive.
pub open spec fn child_inner(inner: Seq<char>, name: Seq<char>) -> Seq<char> {
    if inner.len() == 0 {
        name
    } else {
        inner + seq!['/'] + name
    }
}

/// One level up from a directory `name` of an archive is the directory
/// that holds it.
pub proof fn lemma_parent_of_child_inner(archive: Seq<char>, inner: Seq<char>, name: Seq<char>)
    requires
        is_plain_name(name),
    ensures
        spec_parent(LocationView::Archive { archive, inner: child_inner(inner, name) }) == Some(
            LocationView::Archive { archive, inner },
        ),
{
    lemma_before_last_slash_of_child(inner, name);
    let c = child_inner(inner, name);
    assert(c.len() > 0);
    if inner.len() == 0 {
        assert(before_last_slash(c) is None);
        assert(inner =~= seq![]);
    } else {
        assert(before_last_slash(c) == Some(inner));
    }
}

} // verus!
