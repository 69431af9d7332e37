//! Navigation over the disk and inside archives, with the tree of the last
//! opened archive kept in a cache.
use vstd::prelude::*;

use crate::engine_trait::ArchiveEngine;
use crate::entry::{entries_view, ArchiveEntry};
use crate::ops::opt_str_view;
use crate::error::{EngineError, ErrorView};
use crate::location::{
    child_inner, is_normal_dir, is_plain_name, join_path, law_parent_of_join, law_parent_of_join_same,
    lemma_parent_of_child_inner, loc_eq, mesmo_caminho, same_path,
    path_join, path_parent, spec_display, spec_parent, Location, LocationView,
};
use crate::row::{insert_row, rows_sorted_weak, rows_view, Row, RowView};
use crate::text::{chars_of, ends_with, lowercase, push_str, same_chars, starts_with, str_ends_with,
    str_starts_with, string_of, to_lowercase};
use crate::tree::{build_map, is_listing, path_components, walk_ok, ArchiveTree, NodeInfo};

verus! {

/// One item of a directory on disk, as read from it.
pub struct DiskItem {
    pub name: String,
    pub is_dir: bool,
    pub len: u64,
}

/// The row of a disk item: no size for a directory, no packed size and no
/// date.
pub open spec fn disk_row(d: DiskItem) -> RowView {
    RowView {
        name: d.name@,
        size: if d.is_dir {
            0
        } else {
            d.len
        },
        packed_size: 0,
        modified: seq![],
        is_dir: d.is_dir,
    }
}

/// The rows of the items that are not hidden (names starting with `'.'`),
/// in the order read.
pub open spec fn kept_rows(items: Seq<DiskItem>) -> Seq<RowView>
    decreases items.len(),
{
    if items.len() == 0 {
        seq![]
    } else {
        kept_rows(items.drop_last()) + if starts_with(items.last().name@, seq!['.']) {
            Seq::<RowView>::empty()
        } else {
            seq![disk_row(items.last())]
        }
    }
}

/// The rows of a directory on disk: hidden items left out, directories
/// first and then by name.
pub fn linhas_do_disco(itens: &[DiskItem]) -> (r: Vec<Row>)
    ensures
        rows_sorted_weak(rows_view(r@)),
        rows_view(r@).to_multiset() == kept_rows(itens@).to_multiset(),
{
    let mut rows: Vec<Row> = Vec::new();
    let mut k: usize = 0;
    assert(rows_view(rows@) =~= kept_rows(itens@.take(0)));
    while k < itens.len()
        invariant
            k <= itens@.len(),
            rows_sorted_weak(rows_view(rows@)),
            rows_view(rows@).to_multiset() == kept_rows(itens@.take(k as int)).to_multiset(),
        decreases itens@.len() - k,
    {
        let item = &itens[k];
        assert(itens@.take(k + 1).drop_last() == itens@.take(k as int));
        assert(itens@.take(k + 1).last() == itens@[k as int]);
        let ghost before = kept_rows(itens@.take(k as int));
        let hidden = str_starts_with(item.name.as_str(), ".");
        proof {
            reveal_strlit(".");
            assert("."@ =~= seq!['.']);
        }
        if hidden {
            assert(kept_rows(itens@.take(k + 1)) =~= before);
        } else {
            let cs = chars_of(item.name.as_str());
            let row = Row {
                name: string_of(cs.as_slice()),
                size: if item.is_dir {
                    0
                } else {
                    item.len
                },
                packed_size: 0,
                modified: String::new(),
                is_dir: item.is_dir,
            };
            assert(row@ == disk_row(*item));
            insert_row(&mut rows, row);
            proof {
                broadcast use vstd::seq_lib::group_to_multiset_ensures;
                assert(kept_rows(itens@.take(k + 1)) =~= before.push(row@));
            }
        }
        k += 1;
    }
    assert(itens@.take(itens@.len() as int) == itens@);
    rows
}

/// A lowercase file name with an archive extension.
pub open spec fn archive_name(lower: Seq<char>) -> bool {
    ||| ends_with(lower, ".zip"@)
    ||| ends_with(lower, ".7z"@)
    ||| ends_with(lower, ".rar"@)
    ||| ends_with(lower, ".tar"@)
    ||| ends_with(lower, ".gz"@)
    ||| ends_with(lower, ".tgz"@)
}

/// Whether a lowercase file name has an archive extension.
pub fn tem_extensao_de_archive(lower: &str) -> (r: bool)
    ensures
        r == archive_name(lower@),
{
    str_ends_with(lower, ".zip") || str_ends_with(lower, ".7z") || str_ends_with(lower, ".rar")
        || str_ends_with(lower, ".tar") || str_ends_with(lower, ".gz") || str_ends_with(
        lower,
        ".tgz",
    )
}

/// The error for an inner path that is not in the archive.
pub open spec fn missing_inner(inner: Seq<char>) -> ErrorView {
    ErrorView::Falha { exit_code: -1i32, stderr: "caminho não existe no archive: "@ + inner }
}

/// The view of a listing result.
pub open spec fn rows_result_view(r: Result<Vec<Row>, EngineError>) -> Result<
    Seq<RowView>,
    ErrorView,
> {
    match r {
        Ok(v) => Ok(rows_view(v@)),
        Err(e) => Err(e@),
    }
}

/// `r` is what listing `inner` in the tree `t` gives: its rows when the
/// path exists, the error for a missing path otherwise.
pub open spec fn archive_listing(
    t: Map<Seq<Seq<char>>, NodeInfo>,
    inner: Seq<char>,
    r: Result<Seq<RowView>, ErrorView>,
) -> bool {
    match r {
        Ok(rows) => walk_ok(t, path_components(inner)) && is_listing(t, path_components(inner), rows),
        Err(e) => !walk_ok(t, path_components(inner)) && e == missing_inner(inner),
    }
}

/// Where [`Browser::enter`] goes from `loc` when the item `name` is opened:
/// into a directory; from the disk into an archive (its root); nowhere
/// (the same location) for another file.
pub open spec fn spec_enter(loc: LocationView, name: Seq<char>, is_dir: bool) -> LocationView {
    match loc {
        LocationView::Disk(dir) => if is_dir {
            LocationView::Disk(path_join(dir, name))
        } else if archive_name(lowercase(name)) {
            LocationView::Archive { archive: path_join(dir, name), inner: seq![] }
        } else {
            loc
        },
        LocationView::Archive { archive, inner } => if is_dir {
            LocationView::Archive {
                archive,
                inner: if inner.len() == 0 {
                    name
                } else {
                    inner + seq!['/'] + name
                },
            }
        } else {
            loc
        },
    }
}

/// The tree of a cache entry.
pub open spec fn cached_tree(c: Option<(Seq<char>, Map<Seq<Seq<char>>, NodeInfo>)>) -> Map<
    Seq<Seq<char>>,
    NodeInfo,
> {
    match c {
        Some((_, t)) => t,
        None => Map::empty(),
    }
}

/// What listing `loc` gives and does to the cache. On disk: the items that
/// the caller read from the directory (`disco`), hidden ones left out,
/// directories first and then by name; never an error, and the cache is
/// left alone. Inside the archive whose tree is cached (the same path, as
/// `Path`s compare): the listing of
/// `inner` in that tree, the cache unchanged. In both cases the engine is
/// not asked: it is left as it was (`engine_after == engine`). Inside
/// another archive: what one listing by the engine with `password` gives,
/// the engine becoming `engine_after`; its error, with the cache
/// unchanged, or its entries, whose tree is then cached and in which
/// `inner` is listed.
pub open spec fn list_outcome<E: ArchiveEngine>(
    engine: E,
    engine_after: E,
    password: Option<Seq<char>>,
    before: Option<(Seq<char>, Map<Seq<Seq<char>>, NodeInfo>)>,
    after: Option<(Seq<char>, Map<Seq<Seq<char>>, NodeInfo>)>,
    loc: LocationView,
    disco: Seq<DiskItem>,
    r: Result<Seq<RowView>, ErrorView>,
) -> bool {
    match loc {
        LocationView::Disk(_) => after == before && engine_after == engine && match r {
            Ok(rows) => rows_sorted_weak(rows) && rows.to_multiset() == kept_rows(disco).to_multiset(),
            Err(_) => false,
        },
        LocationView::Archive { archive, inner } => if before matches Some((a, _)) && same_path(
            a,
            archive,
        ) {
            after == before && engine_after == engine && archive_listing(cached_tree(before), inner, r)
        } else {
            fresh_listing(engine, engine_after, password, archive, inner, before, after, r)
        },
    }
}

/// The outcome of listing `inner` in `archive` by asking the engine once,
/// which then becomes `engine_after`: its error, with the cache unchanged,
/// or its entries, whose tree is cached and in which `inner` is listed.
pub open spec fn fresh_listing<E: ArchiveEngine>(
    engine: E,
    engine_after: E,
    password: Option<Seq<char>>,
    archive: Seq<char>,
    inner: Seq<char>,
    before: Option<(Seq<char>, Map<Seq<Seq<char>>, NodeInfo>)>,
    after: Option<(Seq<char>, Map<Seq<Seq<char>>, NodeInfo>)>,
    r: Result<Seq<RowView>, ErrorView>,
) -> bool {
    ||| exists|es: Vec<ArchiveEntry>|
        #[trigger] engine.listou(archive, password, Ok(es), engine_after) && after == Some(
            (archive, build_map(entries_view(es@))),
        ) && archive_listing(build_map(entries_view(es@)), inner, r)
    ||| exists|e: EngineError|
        #[trigger] engine.listou(archive, password, Err(e), engine_after) && r == Err::<Seq<RowView>, ErrorView>(e@)
            && after == before
}

/// Browses the disk and archives, listing archives through an engine.
pub struct Browser<E: ArchiveEngine> {
    engine: E,
    cache: Option<(String, ArchiveTree)>,
}

impl<E: ArchiveEngine> Browser<E> {
    /// The archive whose tree is cached, with the tree.
    pub closed spec fn cached(&self) -> Option<(Seq<char>, Map<Seq<Seq<char>>, NodeInfo>)> {
        match self.cache {
            Some((a, t)) => Some((a@, t@)),
            None => None,
        }
    }

    /// The engine that lists archives.
    pub closed spec fn engine(&self) -> E {
        self.engine
    }

    pub fn new(engine: E) -> (b: Browser<E>)
        ensures
            b.cached() is None,
            b.engine() == engine,
    {
        Browser { engine, cache: None }
    }

    /// Whether a file name has an archive extension (zip, 7z, rar, tar,
    /// gz, tgz), without regard to case.
    pub fn is_archive_file(name: &str) -> (r: bool)
        ensures
            r == archive_name(lowercase(name@)),
    {
        let lower = to_lowercase(name);
        tem_extensao_de_archive(lower.as_str())
    }

    /// Caches the tree of the given entries as the tree of `archive`.
    pub fn carregar(&mut self, archive: &str, entradas: &[ArchiveEntry])
        ensures
            final(self).cached() == Some((archive@, build_map(entries_view(entradas@)))),
            final(self).engine() == old(self).engine(),
    {
        let cs = chars_of(archive);
        let tree = ArchiveTree::build(entradas);
        self.cache = Some((string_of(cs.as_slice()), tree));
    }

    /// The listing of `inner` in the cached tree.
    fn listar_cache(&self, inner: &str) -> (r: Result<Vec<Row>, EngineError>)
        requires
            self.cached() is Some,
        ensures
            archive_listing(cached_tree(self.cached()), inner@, rows_result_view(r)),
    {
        match &self.cache {
            Some((_, tree)) => match tree.list_dir(inner) {
                Some(rows) => Ok(rows),
                None => {
                    let mut s = String::from_str("caminho não existe no archive: ");
                    push_str(&mut s, inner);
                    Err(EngineError::Falha { exit_code: -1, stderr: s })
                },
            },
            None => Err(EngineError::Cancelado),
        }
    }

    /// Whether the cached tree is that of `archive`.
    fn cache_de(&self, archive: &str) -> (r: bool)
        ensures
            r == (self.cached() matches Some((a, _)) && same_path(a, archive@)),
    {
        match &self.cache {
            Some((a, _)) => mesmo_caminho(a.as_str(), archive),
            None => false,
        }
    }

    /// The rows of a location. On disk they are the items that the caller
    /// read from the directory (`disco`), hidden ones left out, directories
    /// first and then by name. Inside an archive the engine lists the
    /// archive once, and its tree is kept for later listings of the same
    /// archive, which ask nothing of the engine; an inner path that is not
    /// in the archive is an error.
    pub fn list(&mut self, loc: &Location, password: Option<&str>, disco: &[DiskItem]) -> (r: Result<
        Vec<Row>,
        EngineError,
    >)
        ensures
            list_outcome(
                old(self).engine(),
                final(self).engine(),
                opt_str_view(password),
                old(self).cached(),
                final(self).cached(),
                loc@,
                disco@,
                rows_result_view(r),
            ),
    {
        match loc {
            Location::Disk(_) => Ok(linhas_do_disco(disco)),
            Location::Archive { archive, inner } => {
                if !self.cache_de(archive.as_str()) {
                    let ghost motor = self.engine;
                    let listado = self.engine.list(archive.as_str(), password);
                    let ghost motor2 = self.engine;
                    assert(motor.listou(archive@, opt_str_view(password), listado, motor2));
                    match listado {
                        Ok(entradas) => {
                            assert(motor.listou(archive@, opt_str_view(password), Ok(entradas), motor2));
                            self.carregar(archive.as_str(), entradas.as_slice());
                            let r = self.listar_cache(inner.as_str());
                            return r;
                        },
                        Err(e) => {
                            assert(motor.listou(archive@, opt_str_view(password), Err(e), motor2));
                            return Err(e);
                        },
                    }
                }
                self.listar_cache(inner.as_str())
            },
        }
    }

    /// The location reached by opening the item `name` (a directory when
    /// `is_dir`) at `loc`.
    pub fn enter(&self, loc: &Location, name: &str, is_dir: bool) -> (r: Location)
        ensures
            r@ == spec_enter(loc@, name@, is_dir),
    {
        match loc {
            Location::Disk(dir) => {
                let alvo = join_path(dir.as_str(), name);
                if is_dir {
                    Location::Disk(alvo)
                } else if Self::is_archive_file(name) {
                    Location::Archive { archive: alvo, inner: String::new() }
                } else {
                    let d = chars_of(dir.as_str());
                    Location::Disk(string_of(d.as_slice()))
                }
            },
            Location::Archive { archive, inner } => {
                let a = chars_of(archive.as_str());
                let archive2 = string_of(a.as_slice());
                if is_dir {
                    let novo = if inner.as_str().is_empty() {
                        let n = chars_of(name);
                        string_of(n.as_slice())
                    } else {
                        let i = chars_of(inner.as_str());
                        let mut s = string_of(i.as_slice());
                        push_str(&mut s, "/");
                        proof {
                            reveal_strlit("/");
                            assert("/"@ =~= seq!['/']);
                        }
                        push_str(&mut s, name);
                        s
                    };
                    Location::Archive { archive: archive2, inner: novo }
                } else {
                    let i = chars_of(inner.as_str());
                    Location::Archive { archive: archive2, inner: string_of(i.as_slice()) }
                }
            },
        }
    }
}

#[verifier::spinoff_prover]
proof fn lemma_enter_disk_then_parent(d: Seq<char>, name: Seq<char>, is_dir: bool)
    requires
        is_plain_name(name),
        is_dir || archive_name(lowercase(name)),
    ensures
        spec_parent(spec_enter(LocationView::Disk(d), name, is_dir)) matches Some(l) && loc_eq(
            l,
            LocationView::Disk(d),
        ),
        is_normal_dir(d) ==> spec_parent(spec_enter(LocationView::Disk(d), name, is_dir)) == Some(
            LocationView::Disk(d),
        ),
{
    law_parent_of_join_same(d, name);
    if is_normal_dir(d) {
        law_parent_of_join(d, name);
    }
    let j = path_join(d, name);
    if is_dir {
        assert(spec_enter(LocationView::Disk(d), name, is_dir) == LocationView::Disk(j));
    } else {
        let a = LocationView::Archive { archive: j, inner: seq![] };
        assert(spec_enter(LocationView::Disk(d), name, is_dir) == a);
    }
}

proof fn lemma_enter_archive_then_parent(archive: Seq<char>, inner: Seq<char>, name: Seq<char>)
    requires
        is_plain_name(name),
    ensures
        spec_parent(spec_enter(LocationView::Archive { archive, inner }, name, true)) == Some(
            LocationView::Archive { archive, inner },
        ),
{
    lemma_parent_of_child_inner(archive, inner, name);
    assert(spec_enter(LocationView::Archive { archive, inner }, name, true)
        == LocationView::Archive { archive, inner: child_inner(inner, name) });
}

/// Opening a directory, or an archive from the disk, and then going up
/// comes back to the same place (as locations compare, disk paths by their
/// components); the path is even written the same inside an archive, and
/// on disk when the directory is in normal form.
pub proof fn law_enter_then_parent(loc: LocationView, name: Seq<char>, is_dir: bool)
    requires
        is_plain_name(name),
        is_dir || (loc is Disk && archive_name(lowercase(name))),
    ensures
        spec_parent(spec_enter(loc, name, is_dir)) matches Some(l) && loc_eq(l, loc),
        (loc matches LocationView::Disk(d) ==> is_normal_dir(d)) ==> spec_parent(
            spec_enter(loc, name, is_dir),
        ) == Some(loc),
{
    match loc {
        LocationView::Disk(d) => lemma_enter_disk_then_parent(d, name, is_dir),
        LocationView::Archive { archive, inner } => {
            lemma_enter_archive_then_parent(archive, inner, name);
        },
    }
}

/// The path shown inside an archive: the archive's path and `'/'` at its
/// root, and after opening a directory `name` the path shown before with
/// `name` and `'/'` added.
pub proof fn law_display_enter(archive: Seq<char>, inner: Seq<char>, name: Seq<char>)
    requires
        name.len() > 0,
    ensures
        spec_display(LocationView::Archive { archive, inner: seq![] }) == archive + seq!['/'],
        spec_display(spec_enter(LocationView::Archive { archive, inner }, name, true)) == spec_display(
            LocationView::Archive { archive, inner },
        ) + name + seq!['/'],
{
    if inner.len() == 0 {
        assert(spec_display(LocationView::Archive { archive, inner }) == archive + seq!['/']);
    } else {
        assert(archive + seq!['/'] + (inner + seq!['/'] + name) + seq!['/'] =~= archive + seq!['/']
            + inner + seq!['/'] + name + seq!['/']);
    }
}

} // verus!
