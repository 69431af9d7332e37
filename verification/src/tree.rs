//! The entries of an archive as a tree of directories, for navigating
//! inside the archive without extracting anything.
use vstd::prelude::*;

use crate::entry::{entries_view, ArchiveEntry, EntryView};
use crate::row::{insert_sorted, rows_sorted, rows_view, Row, RowView};
use crate::text::{
    chars_of, lemma_split_from_within, piece, ranges_within, same_chars, split, split_vec,
    string_of, sub_vec,
};

verus! {

/// What the tree holds about one node.
pub struct NodeInfo {
    pub is_dir: bool,
    pub size: u64,
    pub packed_size: u64,
    pub modified: Seq<char>,
}

/// A node that exists only because something lies below it.
pub open spec fn implicit_dir() -> NodeInfo {
    NodeInfo { is_dir: true, size: 0, packed_size: 0, modified: seq![] }
}

/// What an entry says of its own node.
pub open spec fn info_of(e: EntryView) -> NodeInfo {
    NodeInfo {
        is_dir: e.is_dir,
        size: e.size,
        packed_size: e.packed_size,
        modified: match e.modified {
            Some(m) => m,
            None => seq![],
        },
    }
}

/// `s` with every `'\\'` made a `'/'`.
pub open spec fn to_slash(s: Seq<char>) -> Seq<char> {
    Seq::new(s.len(), |i: int| if s[i] == '\\' { '/' } else { s[i] })
}

/// The non-empty pieces of `s` at the ranges `rs`, in order.
pub open spec fn nonempty_pieces(s: Seq<char>, rs: Seq<(int, int)>) -> Seq<Seq<char>>
    decreases rs.len(),
{
    if rs.len() == 0 {
        seq![]
    } else {
        let prev = nonempty_pieces(s, rs.drop_last());
        let p = piece(s, rs.last());
        if p.len() > 0 {
            prev.push(p)
        } else {
            prev
        }
    }
}

/// The components of a `'/'`-separated path: its non-empty pieces.
pub open spec fn path_components(s: Seq<char>) -> Seq<Seq<char>> {
    nonempty_pieces(s, split(s, seq!['/']))
}

/// The components of an entry path, where `'\\'` also separates.
pub open spec fn entry_components(path: Seq<char>) -> Seq<Seq<char>> {
    path_components(to_slash(path))
}

/// The node of each prefix of `parts` of length 1 to `l` that is missing,
/// added as an implicit directory.
pub open spec fn add_prefixes(
    m: Map<Seq<Seq<char>>, NodeInfo>,
    parts: Seq<Seq<char>>,
    l: nat,
) -> Map<Seq<Seq<char>>, NodeInfo>
    decreases l,
{
    if l == 0 {
        m
    } else {
        let m1 = add_prefixes(m, parts, (l - 1) as nat);
        if m1.contains_key(parts.take(l as int)) {
            m1
        } else {
            m1.insert(parts.take(l as int), implicit_dir())
        }
    }
}

/// One entry added to the tree: its missing ancestors become implicit
/// directories, and its own node takes the entry's data.
pub open spec fn insert_entry(
    m: Map<Seq<Seq<char>>, NodeInfo>,
    parts: Seq<Seq<char>>,
    info: NodeInfo,
) -> Map<Seq<Seq<char>>, NodeInfo> {
    if parts.len() == 0 {
        m
    } else {
        add_prefixes(m, parts, (parts.len() - 1) as nat).insert(parts, info)
    }
}

/// The nodes of the tree of the given entries, added in order, by path.
pub open spec fn build_map(es: Seq<EntryView>) -> Map<Seq<Seq<char>>, NodeInfo>
    decreases es.len(),
{
    if es.len() == 0 {
        Map::empty()
    } else {
        insert_entry(build_map(es.drop_last()), entry_components(es.last().path), info_of(es.last()))
    }
}

/// Every prefix of `p` is a node: the walk down `p` from the root succeeds.
pub open spec fn walk_ok(m: Map<Seq<Seq<char>>, NodeInfo>, p: Seq<Seq<char>>) -> bool {
    forall|l: int| 1 <= l <= p.len() ==> #[trigger] m.contains_key(p.take(l))
}

/// The row of a node.
pub open spec fn row_of(name: Seq<char>, n: NodeInfo) -> RowView {
    RowView {
        name,
        size: n.size,
        packed_size: n.packed_size,
        modified: n.modified,
        is_dir: n.is_dir,
    }
}

/// `rows` lists exactly the children of the node at `p`, directories first
/// and then by name.
pub open spec fn is_listing(m: Map<Seq<Seq<char>>, NodeInfo>, p: Seq<Seq<char>>, rows: Seq<RowView>) -> bool {
    &&& rows_sorted(rows)
    &&& forall|i: int|
        0 <= i < rows.len() ==> m.contains_key(p.push(#[trigger] rows[i].name)) && rows[i]
            == row_of(rows[i].name, m[p.push(rows[i].name)])
    &&& forall|name: Seq<char>|
        #[trigger] m.contains_key(p.push(name)) ==> exists|i: int|
            0 <= i < rows.len() && #[trigger] rows[i].name == name
}

/// One node of the executable tree. The nodes are kept in one flat vector,
/// each with its full path, rather than in maps from a child's name to the
/// child: vstd's specifications of std maps keyed by `String` let Verus
/// prove nothing of them, not even the size after one insertion.
struct Node {
    path: Vec<Vec<char>>,
    is_dir: bool,
    size: u64,
    packed_size: u64,
    modified: Vec<char>,
}

/// The views of a sequence of character vectors.
pub open spec fn pv(p: Seq<Vec<char>>) -> Seq<Seq<char>> {
    p.map_values(|v: Vec<char>| v@)
}

spec fn node_path(n: Node) -> Seq<Seq<char>> {
    pv(n.path@)
}

spec fn node_info(n: Node) -> NodeInfo {
    NodeInfo { is_dir: n.is_dir, size: n.size, packed_size: n.packed_size, modified: n.modified@ }
}

/// The nodes are exactly the entries of the map, each path once.
spec fn nodes_match(nodes: Seq<Node>, m: Map<Seq<Seq<char>>, NodeInfo>) -> bool {
    &&& forall|i: int|
        0 <= i < nodes.len() ==> #[trigger] m.contains_key(node_path(nodes[i])) && m[node_path(
            nodes[i],
        )] == node_info(nodes[i])
    &&& forall|k: Seq<Seq<char>>|
        #[trigger] m.contains_key(k) ==> exists|i: int|
            0 <= i < nodes.len() && #[trigger] node_path(nodes[i]) == k
    &&& forall|i: int, j: int|
        0 <= i < nodes.len() && 0 <= j < nodes.len() && i != j ==> node_path(#[trigger] nodes[i])
            != node_path(#[trigger] nodes[j])
}

/// The tree of an archive's entries.
pub struct ArchiveTree {
    nodes: Vec<Node>,
    model: Ghost<Map<Seq<Seq<char>>, NodeInfo>>,
}

impl ArchiveTree {
    #[verifier::type_invariant]
    spec fn inv(self) -> bool {
        nodes_match(self.nodes@, self.model@)
    }
}

impl View for ArchiveTree {
    type V = Map<Seq<Seq<char>>, NodeInfo>;

    /// The nodes below the root, by path.
    closed spec fn view(&self) -> Map<Seq<Seq<char>>, NodeInfo> {
        self.model@
    }
}

/// A copy of the first `l` components of a path.
fn copy_path(p: &Vec<Vec<char>>, l: usize) -> (r: Vec<Vec<char>>)
    requires
        l <= p@.len(),
    ensures
        pv(r@) == pv(p@).take(l as int),
{
    let mut r: Vec<Vec<char>> = Vec::new();
    let mut i: usize = 0;
    while i < l
        invariant
            l <= p@.len(),
            i <= l,
            pv(r@) == pv(p@).take(i as int),
        decreases l - i,
    {
        let c = sub_vec(p[i].as_slice(), 0, p[i].len());
        assert(c@ == p@[i as int]@);
        let ghost before = r@;
        r.push(c);
        assert(r@ == before.push(c));
        assert(pv(r@) =~= pv(before).push(c@));
        assert(pv(p@).take(i + 1) =~= pv(p@).take(i as int).push(pv(p@)[i as int]));
        assert(pv(r@) =~= pv(p@).take(i + 1));
        i += 1;
    }
    r
}

/// Whether a path equals the first `l` components of `b`.
fn path_is_prefix(a: &Vec<Vec<char>>, b: &Vec<Vec<char>>, l: usize) -> (r: bool)
    requires
        l <= b@.len(),
    ensures
        r == (pv(a@) == pv(b@).take(l as int)),
{
    if a.len() != l {
        assert(pv(a@).len() != pv(b@).take(l as int).len());
        return false;
    }
    let mut i: usize = 0;
    while i < l
        invariant
            a@.len() == l <= b@.len(),
            i <= l,
            forall|j: int| 0 <= j < i ==> a@[j]@ == b@[j]@,
        decreases l - i,
    {
        if !same_chars(a[i].as_slice(), b[i].as_slice()) {
            assert(pv(a@)[i as int] != pv(b@).take(l as int)[i as int]);
            return false;
        }
        i += 1;
    }
    assert(pv(a@) =~= pv(b@).take(l as int));
    true
}

/// The node whose path is the first `l` components of `p`, if any.
fn find_node(nodes: &Vec<Node>, p: &Vec<Vec<char>>, l: usize) -> (r: Option<usize>)
    requires
        l <= p@.len(),
    ensures
        r matches Some(i) ==> i < nodes@.len() && node_path(nodes@[i as int]) == pv(p@).take(
            l as int,
        ),
        r is None ==> forall|i: int|
            0 <= i < nodes@.len() ==> node_path(#[trigger] nodes@[i]) != pv(p@).take(l as int),
{
    let mut i: usize = 0;
    while i < nodes.len()
        invariant
            l <= p@.len(),
            i <= nodes@.len(),
            forall|j: int| 0 <= j < i ==> node_path(#[trigger] nodes@[j]) != pv(p@).take(l as int),
        decreases nodes@.len() - i,
    {
        if path_is_prefix(&nodes[i].path, p, l) {
            return Some(i);
        }
        i += 1;
    }
    None
}

/// The components of a `'/'`-separated path.
fn components(s: &[char]) -> (r: Vec<Vec<char>>)
    ensures
        pv(r@) == path_components(s@),
{
    let slash = vec!['/'];
    assert(slash@ == seq!['/']);
    let rs = split_vec(s, slash.as_slice(), 0);
    let ghost srs = split(s@, seq!['/']);
    proof {
        lemma_split_from_within(s@, seq!['/'], 0);
    }
    let mut r: Vec<Vec<char>> = Vec::new();
    let mut k: usize = 0;
    while k < rs.len()
        invariant
            rs@.len() == srs.len(),
            srs == split(s@, seq!['/']),
            ranges_within(s@, srs),
            forall|j: int|
                0 <= j < rs@.len() ==> (#[trigger] rs@[j].0 as int, rs@[j].1 as int) == srs[j],
            k <= rs@.len(),
            pv(r@) == nonempty_pieces(s@, srs.take(k as int)),
        decreases rs@.len() - k,
    {
        let (a, e) = rs[k];
        assert((a as int, e as int) == srs[k as int]);
        assert(srs.take(k + 1).drop_last() == srs.take(k as int));
        if a < e {
            let c = sub_vec(s, a, e);
            r.push(c);
            assert(pv(r@) =~= nonempty_pieces(s@, srs.take(k as int)).push(piece(s@, srs[k as int])));
        }
        k += 1;
    }
    assert(srs.take(rs@.len() as int) == srs);
    r
}

/// `s` with every `'\\'` made a `'/'`.
fn to_slash_vec(s: &[char]) -> (r: Vec<char>)
    ensures
        r@ == to_slash(s@),
{
    let mut r: Vec<char> = Vec::new();
    let mut i: usize = 0;
    while i < s.len()
        invariant
            i <= s@.len(),
            r@ == to_slash(s@).take(i as int),
        decreases s@.len() - i,
    {
        if s[i] == '\\' {
            r.push('/');
        } else {
            r.push(s[i]);
        }
        assert(r@ =~= to_slash(s@).take(i + 1));
        i += 1;
    }
    assert(to_slash(s@).take(s@.len() as int) =~= to_slash(s@));
    r
}

proof fn lemma_push_new(nodes: Seq<Node>, m: Map<Seq<Seq<char>>, NodeInfo>, n: Node)
    requires
        nodes_match(nodes, m),
        !m.contains_key(node_path(n)),
    ensures
        nodes_match(nodes.push(n), m.insert(node_path(n), node_info(n))),
{
    let ns = nodes.push(n);
    let m2 = m.insert(node_path(n), node_info(n));
    assert forall|i: int| 0 <= i < ns.len() implies #[trigger] m2.contains_key(node_path(ns[i]))
        && m2[node_path(ns[i])] == node_info(ns[i]) by {
        if i < nodes.len() {
            assert(ns[i] == nodes[i]);
            assert(m.contains_key(node_path(nodes[i])));
        }
    }
    assert forall|k: Seq<Seq<char>>| #[trigger] m2.contains_key(k) implies exists|i: int|
        0 <= i < ns.len() && #[trigger] node_path(ns[i]) == k by {
        if k == node_path(n) {
            assert(node_path(ns[nodes.len() as int]) == k);
        } else {
            assert(m.contains_key(k));
            let i = choose|i: int| 0 <= i < nodes.len() && #[trigger] node_path(nodes[i]) == k;
            assert(node_path(ns[i]) == k);
        }
    }
    assert forall|i: int, j: int|
        0 <= i < ns.len() && 0 <= j < ns.len() && i != j implies node_path(#[trigger] ns[i])
        != node_path(#[trigger] ns[j]) by {
        if i < nodes.len() && j < nodes.len() {
            assert(ns[i] == nodes[i] && ns[j] == nodes[j]);
        } else if i < nodes.len() {
            assert(ns[i] == nodes[i]);
            assert(m.contains_key(node_path(nodes[i])));
        } else if j < nodes.len() {
            assert(ns[j] == nodes[j]);
            assert(m.contains_key(node_path(nodes[j])));
        }
    }
}

proof fn lemma_update(nodes: Seq<Node>, m: Map<Seq<Seq<char>>, NodeInfo>, i: int, n: Node)
    requires
        nodes_match(nodes, m),
        0 <= i < nodes.len(),
        node_path(n) == node_path(nodes[i]),
    ensures
        nodes_match(nodes.update(i, n), m.insert(node_path(n), node_info(n))),
{
    let ns = nodes.update(i, n);
    let m2 = m.insert(node_path(n), node_info(n));
    assert forall|j: int| 0 <= j < ns.len() implies #[trigger] m2.contains_key(node_path(ns[j]))
        && m2[node_path(ns[j])] == node_info(ns[j]) by {
        if j != i {
            assert(ns[j] == nodes[j]);
            assert(m.contains_key(node_path(nodes[j])));
            assert(node_path(nodes[j]) != node_path(nodes[i]));
        }
    }
    assert forall|k: Seq<Seq<char>>| #[trigger] m2.contains_key(k) implies exists|j: int|
        0 <= j < ns.len() && #[trigger] node_path(ns[j]) == k by {
        if k == node_path(n) {
            assert(node_path(ns[i]) == k);
        } else {
            assert(m.contains_key(k));
            let j = choose|j: int| 0 <= j < nodes.len() && #[trigger] node_path(nodes[j]) == k;
            assert(j != i);
            assert(node_path(ns[j]) == k);
        }
    }
    assert forall|a: int, b: int|
        0 <= a < ns.len() && 0 <= b < ns.len() && a != b implies node_path(#[trigger] ns[a])
        != node_path(#[trigger] ns[b]) by {
        assert(node_path(ns[a]) == node_path(nodes[a]));
        assert(node_path(ns[b]) == node_path(nodes[b]));
    }
}

/// Adds the node at path `parts` with the given data, or replaces the data
/// of the node already there.
fn put_node(
    nodes: &mut Vec<Node>,
    model: Ghost<Map<Seq<Seq<char>>, NodeInfo>>,
    n: Node,
) -> (r: Ghost<Map<Seq<Seq<char>>, NodeInfo>>)
    requires
        nodes_match(old(nodes)@, model@),
    ensures
        r@ == model@.insert(node_path(n), node_info(n)),
        nodes_match(final(nodes)@, r@),
{
    let l = n.path.len();
    match find_node(nodes, &n.path, l) {
        Some(i) => {
            assert(pv(n.path@).take(l as int) == pv(n.path@));
            proof {
                lemma_update(nodes@, model@, i as int, n);
            }
            nodes.set(i, n);
        },
        None => {
            assert(pv(n.path@).take(l as int) == pv(n.path@));
            proof {
                if model@.contains_key(node_path(n)) {
                    let j = choose|j: int|
                        0 <= j < nodes@.len() && #[trigger] node_path(nodes@[j]) == node_path(n);
                    assert(node_path(nodes@[j]) != pv(n.path@).take(l as int));
                }
                lemma_push_new(nodes@, model@, n);
            }
            nodes.push(n);
        },
    }
    Ghost(model@.insert(node_path(n), node_info(n)))
}

/// Adds one entry: its missing ancestors, then its own node.
fn add_entry(
    nodes: &mut Vec<Node>,
    model: Ghost<Map<Seq<Seq<char>>, NodeInfo>>,
    e: &ArchiveEntry,
) -> (r: Ghost<Map<Seq<Seq<char>>, NodeInfo>>)
    requires
        nodes_match(old(nodes)@, model@),
    ensures
        r@ == insert_entry(model@, entry_components(e.path@), info_of(e@)),
        nodes_match(final(nodes)@, r@),
{
    let cs = chars_of(e.path.as_str());
    let slashed = to_slash_vec(cs.as_slice());
    let parts = components(slashed.as_slice());
    let ghost ps = pv(parts@);
    assert(ps == entry_components(e.path@));
    let n = parts.len();
    if n == 0 {
        return model;
    }
    let mut m = model;
    let mut l: usize = 0;
    while l < n - 1
        invariant
            n == parts@.len() >= 1,
            ps == pv(parts@),
            l <= n - 1,
            m@ == add_prefixes(model@, ps, l as nat),
            nodes_match(nodes@, m@),
        decreases n - 1 - l,
    {
        let found = find_node(nodes, &parts, l + 1);
        match found {
            Some(i) => {
                assert(m@.contains_key(node_path(nodes@[i as int])));
            },
            None => {
                proof {
                    if m@.contains_key(ps.take(l + 1)) {
                        let j = choose|j: int|
                            0 <= j < nodes@.len() && #[trigger] node_path(nodes@[j]) == ps.take(
                                l + 1,
                            );
                        assert(node_path(nodes@[j]) != pv(parts@).take(l + 1));
                    }
                }
                let path = copy_path(&parts, l + 1);
                let node = Node {
                    path,
                    is_dir: true,
                    size: 0,
                    packed_size: 0,
                    modified: Vec::new(),
                };
                assert(node_info(node) == implicit_dir());
                m = put_node(nodes, m, node);
            },
        }
        l += 1;
    }
    let path = copy_path(&parts, n);
    assert(pv(parts@).take(n as int) == ps);
    let modified = match &e.modified {
        Some(s) => chars_of(s.as_str()),
        None => Vec::new(),
    };
    let node = Node {
        path,
        is_dir: e.is_dir,
        size: e.size,
        packed_size: e.packed_size,
        modified,
    };
    assert(node_info(node) == info_of(e@));
    put_node(nodes, m, node)
}

impl ArchiveTree {
    /// The tree of the given entries. A path is cut at `'/'` and `'\\'`,
    /// empty components are dropped, and every ancestor that no entry
    /// names is an implicit directory.
    pub fn build(entries: &[ArchiveEntry]) -> (t: ArchiveTree)
        ensures
            t@ == build_map(entries_view(entries@)),
    {
        let ghost es = entries_view(entries@);
        let mut nodes: Vec<Node> = Vec::new();
        let mut m: Ghost<Map<Seq<Seq<char>>, NodeInfo>> = Ghost(Map::empty());
        let mut k: usize = 0;
        while k < entries.len()
            invariant
                es == entries_view(entries@),
                k <= entries@.len(),
                m@ == build_map(es.take(k as int)),
                nodes_match(nodes@, m@),
            decreases entries@.len() - k,
        {
            assert(es.take(k + 1).drop_last() == es.take(k as int));
            assert(es.take(k + 1).last() == entries@[k as int]@);
            m = add_entry(&mut nodes, m, &entries[k]);
            k += 1;
        }
        assert(es.take(entries@.len() as int) == es);
        ArchiveTree { nodes, model: m }
    }
}


spec fn is_child(nd: Node, pp: Seq<Seq<char>>) -> bool {
    node_path(nd).len() == pp.len() + 1 && node_path(nd).take(pp.len() as int) == pp
}

spec fn child_row(nd: Node, n: int) -> RowView {
    row_of(node_path(nd)[n], node_info(nd))
}

proof fn lemma_child_path(nd: Node, pp: Seq<Seq<char>>)
    requires
        is_child(nd, pp),
    ensures
        node_path(nd) == pp.push(node_path(nd)[pp.len() as int]),
{
    assert(node_path(nd) =~= pp.push(node_path(nd)[pp.len() as int]));
}

impl ArchiveTree {
    /// The rows of the directory at `inner_path` (components separated by
    /// `'/'`, empty ones ignored; `""` is the root): its children,
    /// directories first and then by name. None when the path does not
    /// exist in the tree.
    pub fn list_dir(&self, inner_path: &str) -> (r: Option<Vec<Row>>)
        ensures
            match r {
                None => !walk_ok(self@, path_components(inner_path@)),
                Some(rows) => walk_ok(self@, path_components(inner_path@)) && is_listing(
                    self@,
                    path_components(inner_path@),
                    rows_view(rows@),
                ),
            },
    {
        proof {
            use_type_invariant(self);
        }
        let ghost m = self.model@;
        let ghost ns = self.nodes@;
        let cs = chars_of(inner_path);
        let p = components(cs.as_slice());
        let ghost pp = pv(p@);
        let n = p.len();
        let mut l: usize = 0;
        while l < n
            invariant
                n == p@.len(),
                pp == pv(p@),
                pp == path_components(inner_path@),
                m == self.model@,
                ns == self.nodes@,
                nodes_match(ns, m),
                l <= n,
                forall|q: int| 1 <= q <= l ==> #[trigger] m.contains_key(pp.take(q)),
            decreases n - l,
        {
            match find_node(&self.nodes, &p, l + 1) {
                Some(i) => {
                    assert(m.contains_key(node_path(ns[i as int])));
                },
                None => {
                    proof {
                        if m.contains_key(pp.take(l + 1)) {
                            let j = choose|j: int|
                                0 <= j < ns.len() && #[trigger] node_path(ns[j]) == pp.take(l + 1);
                            assert(node_path(ns[j]) != pv(p@).take(l + 1));
                        }
                        assert(!m.contains_key(pp.take(l + 1)));
                        assert(pp == path_components(inner_path@));
                        assert(1 <= l + 1 <= pp.len());
                    }
                    return None;
                },
            }
            l += 1;
        }
        let mut rows: Vec<Row> = Vec::new();
        let mut i: usize = 0;
        while i < self.nodes.len()
            invariant
                n == p@.len(),
                pp == pv(p@),
                pp == path_components(inner_path@),
                m == self.model@,
                ns == self.nodes@,
                nodes_match(ns, m),
                i <= ns.len(),
                rows_sorted(rows_view(rows@)),
                forall|x: RowView| #[trigger]
                    rows_view(rows@).contains(x) <==> exists|j: int|
                        0 <= j < i && is_child(ns[j], pp) && x == #[trigger] child_row(ns[j], n as int),
            decreases ns.len() - i,
        {
            let node = &self.nodes[i];
            if node.path.len() > n && node.path.len() - n == 1 && path_is_prefix(&p, &node.path, n) {
                assert(is_child(ns[i as int], pp));
                let c = &node.path[n];
                assert(node_path(ns[i as int])[n as int] == c@);
                let name_chars = sub_vec(c.as_slice(), 0, c.len());
                assert(name_chars@ == c@);
                let row = Row {
                    name: string_of(name_chars.as_slice()),
                    size: node.size,
                    packed_size: node.packed_size,
                    modified: string_of(node.modified.as_slice()),
                    is_dir: node.is_dir,
                };
                assert(row@ == child_row(ns[i as int], n as int));
                proof {
                    lemma_child_path(ns[i as int], pp);
                    assert forall|k: int| 0 <= k < rows@.len() implies (#[trigger] rows@[k]).name@
                        != row.name@ by {
                        let x = rows_view(rows@)[k];
                        assert(rows_view(rows@).contains(x));
                        let j = choose|j: int|
                            0 <= j < i && is_child(ns[j], pp) && x == #[trigger] child_row(
                                ns[j],
                                n as int,
                            );
                        lemma_child_path(ns[j], pp);
                        if x.name == row@.name {
                            assert(node_path(ns[j]) == node_path(ns[i as int]));
                        }
                    }
                }
                let ghost before = rows_view(rows@);
                insert_sorted(&mut rows, row);
                proof {
                    assert forall|x: RowView| #[trigger]
                        rows_view(rows@).contains(x) <==> exists|j: int|
                            0 <= j < i + 1 && is_child(ns[j], pp) && x == #[trigger] child_row(
                                ns[j],
                                n as int,
                            ) by {
                        if rows_view(rows@).contains(x) {
                            if x != child_row(ns[i as int], n as int) {
                                assert(before.contains(x));
                            }
                        }
                        if exists|j: int|
                            0 <= j < i + 1 && is_child(ns[j], pp) && x == #[trigger] child_row(
                                ns[j],
                                n as int,
                            ) {
                            let j = choose|j: int|
                                0 <= j < i + 1 && is_child(ns[j], pp) && x == #[trigger] child_row(
                                    ns[j],
                                    n as int,
                                );
                            if j < i {
                                assert(before.contains(x));
                            }
                        }
                    }
                }
            } else {
                proof {
                    if is_child(ns[i as int], pp) {
                        assert(pv(node.path@).len() == node.path@.len());
                    }
                    assert forall|x: RowView| #[trigger]
                        rows_view(rows@).contains(x) <==> exists|j: int|
                            0 <= j < i + 1 && is_child(ns[j], pp) && x == #[trigger] child_row(
                                ns[j],
                                n as int,
                            ) by {
                        if exists|j: int|
                            0 <= j < i + 1 && is_child(ns[j], pp) && x == #[trigger] child_row(
                                ns[j],
                                n as int,
                            ) {
                            let j = choose|j: int|
                                0 <= j < i + 1 && is_child(ns[j], pp) && x == #[trigger] child_row(
                                    ns[j],
                                    n as int,
                                );
                            assert(j < i);
                        }
                    }
                }
            }
            i += 1;
        }
        proof {
            let rv = rows_view(rows@);
            assert forall|k: int| 0 <= k < rv.len() implies m.contains_key(
                pp.push(#[trigger] rv[k].name),
            ) && rv[k] == row_of(rv[k].name, m[pp.push(rv[k].name)]) by {
                assert(rv.contains(rv[k]));
                let j = choose|j: int|
                    0 <= j < ns.len() && is_child(ns[j], pp) && rv[k] == #[trigger] child_row(
                        ns[j],
                        n as int,
                    );
                lemma_child_path(ns[j], pp);
                assert(m.contains_key(node_path(ns[j])));
            }
            assert forall|name: Seq<char>| #[trigger] m.contains_key(pp.push(name)) implies exists|
                k: int,
            | 0 <= k < rv.len() && #[trigger] rv[k].name == name by {
                let j = choose|j: int| 0 <= j < ns.len() && #[trigger] node_path(ns[j]) == pp.push(name);
                assert(pp.push(name).take(pp.len() as int) =~= pp);
                assert(is_child(ns[j], pp));
                let x = child_row(ns[j], n as int);
                assert(rv.contains(x));
                let k = choose|k: int| 0 <= k < rv.len() && rv[k] == x;
                assert(rv[k].name == name);
            }
        }
        Some(rows)
    }
}


// ---------------------------------------------------------------------
// Laws of the tree
// ---------------------------------------------------------------------

/// Every node has a non-empty path, and every non-empty prefix of its path
/// is a node too.
pub open spec fn prefix_closed(m: Map<Seq<Seq<char>>, NodeInfo>) -> bool {
    forall|k: Seq<Seq<char>>| #[trigger] m.contains_key(k) ==> k.len() > 0 && walk_ok(m, k)
}

/// What `add_prefixes` adds and keeps.
proof fn lemma_add_prefixes(m: Map<Seq<Seq<char>>, NodeInfo>, parts: Seq<Seq<char>>, l: nat)
    requires
        l <= parts.len(),
    ensures
        forall|k: Seq<Seq<char>>|
            #[trigger] add_prefixes(m, parts, l).contains_key(k) <==> (m.contains_key(k) || exists|
                j: int,
            | 1 <= j <= l && k == #[trigger] parts.take(j)),
        forall|k: Seq<Seq<char>>| #[trigger]
            m.contains_key(k) ==> add_prefixes(m, parts, l)[k] == m[k],
        forall|k: Seq<Seq<char>>|
            !m.contains_key(k) && #[trigger] add_prefixes(m, parts, l).contains_key(k) ==> add_prefixes(
                m,
                parts,
                l,
            )[k] == implicit_dir(),
    decreases l,
{
    if l > 0 {
        let l1 = (l - 1) as nat;
        lemma_add_prefixes(m, parts, l1);
        let m1 = add_prefixes(m, parts, l1);
        let r = add_prefixes(m, parts, l);
        assert forall|k: Seq<Seq<char>>| #[trigger] r.contains_key(k) <==> (m.contains_key(k)
            || exists|j: int| 1 <= j <= l && k == #[trigger] parts.take(j)) by {
            if r.contains_key(k) && !m.contains_key(k) {
                if !m1.contains_key(k) {
                    assert(k == parts.take(l as int));
                }
            }
            if exists|j: int| 1 <= j <= l && k == #[trigger] parts.take(j) {
                let j = choose|j: int| 1 <= j <= l && k == #[trigger] parts.take(j);
                if j < l {
                    assert(m1.contains_key(k));
                }
            }
        }
    }
}

/// The tree has no other nodes than the entries' paths and their
/// ancestors: every ancestor of a node is a node, so an entry such as
/// `a/b/c.txt` makes `a` and `a/b` exist even when no entry names them.
pub proof fn law_tree_prefix_closed(es: Seq<EntryView>)
    ensures
        prefix_closed(build_map(es)),
    decreases es.len(),
{
    if es.len() > 0 {
        law_tree_prefix_closed(es.drop_last());
        let m = build_map(es.drop_last());
        let parts = entry_components(es.last().path);
        if parts.len() > 0 {
            let l = (parts.len() - 1) as nat;
            lemma_add_prefixes(m, parts, l);
            let a = add_prefixes(m, parts, l);
            let r = a.insert(parts, info_of(es.last()));
            assert(r == build_map(es));
            assert forall|k: Seq<Seq<char>>| #[trigger] r.contains_key(k) implies k.len() > 0
                && walk_ok(r, k) by {
                if m.contains_key(k) {
                    assert forall|i: int| 1 <= i <= k.len() implies #[trigger] r.contains_key(
                        k.take(i),
                    ) by {
                        assert(walk_ok(m, k));
                        assert(m.contains_key(k.take(i)));
                    }
                } else {
                    let j: int = if k == parts {
                        parts.len() as int
                    } else {
                        choose|j: int| 1 <= j <= l && k == #[trigger] parts.take(j)
                    };
                    assert(k == parts.take(j));
                    assert forall|i: int| 1 <= i <= k.len() implies #[trigger] r.contains_key(
                        k.take(i),
                    ) by {
                        assert(k.take(i) == parts.take(i));
                        if i < parts.len() {
                            assert(a.contains_key(parts.take(i)));
                        } else {
                            assert(parts.take(i) == parts);
                        }
                    }
                }
            }
        }
    }
}

/// Every entry with a non-empty path is a node of the tree, and the node
/// of a path holds what the last entry with that path says of it: whether
/// it is a directory, its sizes and its date (none becomes empty).
pub proof fn law_tree_entry_nodes(es: Seq<EntryView>, i: int)
    requires
        0 <= i < es.len(),
        entry_components(es[i].path).len() > 0,
    ensures
        build_map(es).contains_key(entry_components(es[i].path)),
        (forall|j: int|
            i < j < es.len() ==> entry_components(#[trigger] es[j].path) != entry_components(
                es[i].path,
            )) ==> build_map(es)[entry_components(es[i].path)] == info_of(es[i]),
        (forall|j: int|
            i < j < es.len() ==> entry_components(#[trigger] es[j].path) != entry_components(
                es[i].path,
            )) ==> ({
            let n = build_map(es)[entry_components(es[i].path)];
            &&& n.is_dir == es[i].is_dir
            &&& n.size == es[i].size
            &&& n.packed_size == es[i].packed_size
            &&& n.modified == match es[i].modified {
                Some(d) => d,
                None => Seq::<char>::empty(),
            }
        }),
    decreases es.len(),
{
    let m = build_map(es.drop_last());
    let parts = entry_components(es.last().path);
    let k = entry_components(es[i].path);
    if i == es.len() - 1 {
    } else {
        assert(es.drop_last()[i] == es[i]);
        law_tree_entry_nodes(es.drop_last(), i);
        if (forall|j: int|
            i < j < es.len() ==> entry_components(#[trigger] es[j].path) != k) {
            assert forall|j: int| i < j < es.drop_last().len() implies entry_components(
                #[trigger] es.drop_last()[j].path,
            ) != k by {
                assert(es.drop_last()[j] == es[j]);
            }
            assert(es[es.len() - 1] == es.last());
            assert(parts != k);
        }
        if parts.len() > 0 {
            lemma_add_prefixes(m, parts, (parts.len() - 1) as nat);
        }
    }
}

/// A node that no entry names is an implicit directory: a directory with
/// no size and no date.
pub proof fn law_tree_implicit_dirs(es: Seq<EntryView>, k: Seq<Seq<char>>)
    requires
        build_map(es).contains_key(k),
        forall|i: int| 0 <= i < es.len() ==> entry_components(#[trigger] es[i].path) != k,
    ensures
        build_map(es)[k] == implicit_dir(),
    decreases es.len(),
{
    let m = build_map(es.drop_last());
    let parts = entry_components(es.last().path);
    assert(es[es.len() - 1] == es.last());
    if parts.len() > 0 {
        lemma_add_prefixes(m, parts, (parts.len() - 1) as nat);
    }
    if m.contains_key(k) {
        assert forall|i: int| 0 <= i < es.drop_last().len() implies entry_components(
            #[trigger] es.drop_last()[i].path,
        ) != k by {
            assert(es.drop_last()[i] == es[i]);
        }
        law_tree_implicit_dirs(es.drop_last(), k);
    }
}

/// The root of every tree can be listed: the empty inner path has no
/// components, so the walk to it always succeeds.
pub proof fn law_root_listed(m: Map<Seq<Seq<char>>, NodeInfo>)
    ensures
        path_components(seq![]) == Seq::<Seq<char>>::empty(),
        walk_ok(m, path_components(seq![])),
{
    let e = Seq::<char>::empty();
    assert(split(e, seq!['/']) == seq![(0int, 0int)]);
    let rs = split(e, seq!['/']);
    assert(rs.drop_last().len() == 0);
    assert(piece(e, rs.last()).len() == 0);
    assert(nonempty_pieces(e, rs.drop_last()) == Seq::<Seq<char>>::empty());
    assert(nonempty_pieces(e, rs) == Seq::<Seq<char>>::empty());
    assert(path_components(e) == Seq::<Seq<char>>::empty());
}

} // verus!
