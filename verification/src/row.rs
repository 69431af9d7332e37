//! Rows of a directory listing and the order in which they are shown:
//! directories first, then by name.
use vstd::prelude::*;

use crate::text::{chars_lt, chars_of, lemma_seq_lt_asymmetric, lemma_seq_lt_irreflexive,
    lemma_seq_lt_total, lemma_seq_lt_transitive, seq_lt};

verus! {

/// One item of a listing, on disk or inside an archive.
#[derive(Debug, Clone, PartialEq, Eq)]
pub struct Row {
    pub name: String,
    pub size: u64,
    pub packed_size: u64,
    pub modified: String,
    pub is_dir: bool,
}

/// The mathematical value of a [`Row`].
pub struct RowView {
    pub name: Seq<char>,
    pub size: u64,
    pub packed_size: u64,
    pub modified: Seq<char>,
    pub is_dir: bool,
}

impl View for Row {
    type V = RowView;

    open spec fn view(&self) -> RowView {
        RowView {
            name: self.name@,
            size: self.size,
            packed_size: self.packed_size,
            modified: self.modified@,
            is_dir: self.is_dir,
        }
    }
}

/// The views of a sequence of rows.
pub open spec fn rows_view(v: Seq<Row>) -> Seq<RowView> {
    v.map_values(|r: Row| r@)
}

/// `a` is listed before `b`: directories before files, and by name within
/// each group.
pub open spec fn row_lt(a: RowView, b: RowView) -> bool {
    (a.is_dir && !b.is_dir) || (a.is_dir == b.is_dir && seq_lt(a.name, b.name))
}

/// Each row comes strictly before every later one.
pub open spec fn rows_sorted(rs: Seq<RowView>) -> bool {
    forall|i: int, j: int| 0 <= i < j < rs.len() ==> row_lt(#[trigger] rs[i], #[trigger] rs[j])
}

pub proof fn lemma_row_lt_transitive(a: RowView, b: RowView, c: RowView)
    requires
        row_lt(a, b),
        row_lt(b, c),
    ensures
        row_lt(a, c),
{
    if a.is_dir == b.is_dir && b.is_dir == c.is_dir {
        lemma_seq_lt_transitive(a.name, b.name, c.name);
    }
}

pub proof fn lemma_row_lt_total(a: RowView, b: RowView)
    requires
        a.name != b.name,
    ensures
        row_lt(a, b) || row_lt(b, a),
{
    lemma_seq_lt_total(a.name, b.name);
}

pub proof fn lemma_row_lt_asymmetric(a: RowView, b: RowView)
    ensures
        row_lt(a, b) ==> !row_lt(b, a),
        !row_lt(a, a),
{
    lemma_seq_lt_asymmetric(a.name, b.name);
    lemma_seq_lt_irreflexive(a.name);
}

/// Whether `a` is listed before `b`.
pub fn row_before(a: &Row, b: &Row) -> (r: bool)
    ensures
        r == row_lt(a@, b@),
{
    if a.is_dir && !b.is_dir {
        return true;
    }
    if a.is_dir != b.is_dir {
        return false;
    }
    let x = chars_of(a.name.as_str());
    let y = chars_of(b.name.as_str());
    chars_lt(x.as_slice(), y.as_slice())
}

/// Inserts a row into a sorted listing in which no row has its name.
pub fn insert_sorted(rows: &mut Vec<Row>, r: Row)
    requires
        rows_sorted(rows_view(old(rows)@)),
        forall|i: int| 0 <= i < old(rows)@.len() ==> (#[trigger] old(rows)@[i]).name@ != r.name@,
    ensures
        rows_sorted(rows_view(final(rows)@)),
        rows_view(final(rows)@).len() == rows_view(old(rows)@).len() + 1,
        rows_view(final(rows)@).contains(r@),
        forall|x: RowView| #[trigger]
            rows_view(final(rows)@).contains(x) <==> (rows_view(old(rows)@).contains(x) || x
                == r@),
{
    let ghost old_v = rows_view(rows@);
    let ghost rv = r@;
    let mut pos: usize = 0;
    while pos < rows.len() && row_before(&rows[pos], &r)
        invariant
            pos <= rows@.len(),
            rows_view(rows@) == old_v,
            rv == r@,
            forall|i: int| 0 <= i < pos ==> row_lt(#[trigger] old_v[i], rv),
        decreases rows@.len() - pos,
    {
        pos += 1;
    }
    rows.insert(pos, r);
    let ghost new_v = rows_view(rows@);
    assert(new_v =~= old_v.insert(pos as int, rv));
    proof {
        if pos < old_v.len() {
            assert(!row_lt(old_v[pos as int], rv));
            assert(old_v[pos as int].name != rv.name);
            lemma_row_lt_total(old_v[pos as int], rv);
        }
        assert forall|i: int, j: int| 0 <= i < j < new_v.len() implies row_lt(
            #[trigger] new_v[i],
            #[trigger] new_v[j],
        ) by {
            if j < pos {
                assert(new_v[i] == old_v[i] && new_v[j] == old_v[j]);
            } else if j == pos {
                assert(new_v[i] == old_v[i]);
            } else if i == pos {
                assert(new_v[j] == old_v[j - 1]);
                if j - 1 > pos {
                    lemma_row_lt_transitive(rv, old_v[pos as int], old_v[j - 1]);
                }
            } else if i < pos {
                assert(new_v[i] == old_v[i] && new_v[j] == old_v[j - 1]);
            } else {
                assert(new_v[i] == old_v[i - 1] && new_v[j] == old_v[j - 1]);
            }
        }
        assert(new_v[pos as int] == rv);
        assert forall|x: RowView| #[trigger]
            new_v.contains(x) <==> (old_v.contains(x) || x == rv) by {
            if new_v.contains(x) {
                let k = choose|k: int| 0 <= k < new_v.len() && new_v[k] == x;
                if k < pos {
                    assert(old_v[k] == x);
                } else if k > pos {
                    assert(old_v[k - 1] == x);
                }
            }
            if old_v.contains(x) {
                let k = choose|k: int| 0 <= k < old_v.len() && old_v[k] == x;
                if k < pos {
                    assert(new_v[k] == x);
                } else {
                    assert(new_v[k + 1] == x);
                }
            }
        }
    }
}

/// No row comes strictly after a later one.
pub open spec fn rows_sorted_weak(rs: Seq<RowView>) -> bool {
    forall|i: int, j: int| 0 <= i < j < rs.len() ==> !row_lt(#[trigger] rs[j], #[trigger] rs[i])
}

/// Inserts a row into a listing sorted by [`row_lt`], after the rows that
/// do not come after it.
pub fn insert_row(rows: &mut Vec<Row>, r: Row)
    requires
        rows_sorted_weak(rows_view(old(rows)@)),
    ensures
        rows_sorted_weak(rows_view(final(rows)@)),
        rows_view(final(rows)@).to_multiset() == rows_view(old(rows)@).to_multiset().insert(r@),
{
    let ghost old_v = rows_view(rows@);
    let ghost rv = r@;
    let mut pos: usize = 0;
    while pos < rows.len() && !row_before(&r, &rows[pos])
        invariant
            pos <= rows@.len(),
            rows_view(rows@) == old_v,
            rv == r@,
            forall|i: int| 0 <= i < pos ==> !row_lt(rv, #[trigger] old_v[i]),
        decreases rows@.len() - pos,
    {
        pos += 1;
    }
    rows.insert(pos, r);
    let ghost new_v = rows_view(rows@);
    assert(new_v =~= old_v.insert(pos as int, rv));
    proof {
        assert forall|i: int, j: int| 0 <= i < j < new_v.len() implies !row_lt(
            #[trigger] new_v[j],
            #[trigger] new_v[i],
        ) by {
            if j < pos {
                assert(new_v[i] == old_v[i] && new_v[j] == old_v[j]);
            } else if j == pos {
                assert(new_v[i] == old_v[i]);
            } else if i == pos {
                assert(new_v[j] == old_v[j - 1]);
                assert(row_lt(rv, old_v[pos as int]));
                if row_lt(old_v[j - 1], rv) {
                    lemma_row_lt_transitive(old_v[j - 1], rv, old_v[pos as int]);
                    if j - 1 == pos {
                        lemma_row_lt_asymmetric(old_v[pos as int], old_v[pos as int]);
                    }
                }
            } else if i < pos {
                assert(new_v[i] == old_v[i] && new_v[j] == old_v[j - 1]);
            } else {
                assert(new_v[i] == old_v[i - 1] && new_v[j] == old_v[j - 1]);
            }
        }
        broadcast use vstd::seq_lib::group_to_multiset_ensures;
        assert(new_v.remove(pos as int) =~= old_v);
        assert(new_v[pos as int] == rv);
        assert(new_v.to_multiset().count(rv) > 0) by {
            assert(new_v.contains(rv));
        }
        assert(old_v.to_multiset() =~= new_v.to_multiset().remove(rv));
        assert(new_v.to_multiset() =~= old_v.to_multiset().insert(rv));
    }
}

} // verus!
