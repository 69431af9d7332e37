//! What the window shows and how it reacts: the current location, its
//! rows, the text of the status bar, double clicks and going up. The
//! window itself draws what these functions give.
use vstd::prelude::*;

use crate::browser::{list_outcome, spec_enter, Browser, DiskItem};
use crate::entry::opt_view;
use crate::engine_trait::ArchiveEngine;
use crate::error::{message, EngineError};
use crate::format::{spec_tamanho, tamanho_humano};
use crate::location::{loc_eq, opt_location_view, Location, LocationView, spec_display, spec_parent};
use crate::row::{rows_view, Row, RowView};
use crate::text::{chars_of, decimal, decimal_string, push_str, same_chars, string_of};

verus! {

/// The four cells of a row: name with an icon, size, packed size, date.
pub open spec fn spec_cells(r: RowView) -> Seq<Seq<char>> {
    seq![
        (if r.is_dir { "📁 "@ } else { "📄 "@ }) + r.name,
        if r.is_dir { "—"@ } else { spec_tamanho(r.size) },
        if r.packed_size == 0 { ""@ } else { spec_tamanho(r.packed_size) },
        r.modified,
    ]
}

/// The views of a table of cells.
pub open spec fn table_view(t: Seq<Vec<String>>) -> Seq<Seq<Seq<char>>> {
    t.map_values(|row: Vec<String>| row@.map_values(|c: String| c@))
}

fn copy_string(s: &String) -> (r: String)
    ensures
        r@ == s@,
{
    let c = chars_of(s.as_str());
    string_of(c.as_slice())
}

/// The cells of one row.
pub fn celulas(r: &Row) -> (c: Vec<String>)
    ensures
        c@.map_values(|s: String| s@) == spec_cells(r@),
{
    let mut nome = if r.is_dir {
        String::from_str("📁 ")
    } else {
        String::from_str("📄 ")
    };
    push_str(&mut nome, r.name.as_str());
    let tamanho = if r.is_dir {
        String::from_str("—")
    } else {
        tamanho_humano(r.size)
    };
    let comprimido = if r.packed_size == 0 {
        String::from_str("")
    } else {
        tamanho_humano(r.packed_size)
    };
    let mut c: Vec<String> = Vec::new();
    c.push(nome);
    c.push(tamanho);
    c.push(comprimido);
    c.push(copy_string(&r.modified));
    let ghost cv = c@.map_values(|s: String| s@);
    assert(cv[0] == spec_cells(r@)[0]);
    assert(cv[1] == spec_cells(r@)[1]);
    assert(cv[2] == spec_cells(r@)[2]);
    assert(cv[3] == spec_cells(r@)[3]);
    assert(cv =~= spec_cells(r@));
    c
}

/// The table of a listing: the cells of each row, in order.
pub fn linhas_para_modelo(rows: &[Row]) -> (t: Vec<Vec<String>>)
    ensures
        table_view(t@) == rows_view(rows@).map_values(|r: RowView| spec_cells(r)),
{
    let mut t: Vec<Vec<String>> = Vec::new();
    let mut i: usize = 0;
    while i < rows.len()
        invariant
            i <= rows@.len(),
            table_view(t@) == rows_view(rows@.take(i as int)).map_values(
                |r: RowView| spec_cells(r),
            ),
        decreases rows@.len() - i,
    {
        let c = celulas(&rows[i]);
        let ghost before = t@;
        t.push(c);
        assert(table_view(t@) =~= table_view(before).push(spec_cells(rows@[i as int]@)));
        assert(rows_view(rows@.take(i + 1)).map_values(|r: RowView| spec_cells(r)) =~= rows_view(
            rows@.take(i as int),
        ).map_values(|r: RowView| spec_cells(r)).push(spec_cells(rows@[i as int]@)));
        i += 1;
    }
    assert(rows@.take(rows@.len() as int) == rows@);
    t
}

/// What the window is to show after a reload.
pub enum Tela {
    /// The new location's path, the status text and the table.
    Listagem { caminho: String, status: String, linhas: Vec<Vec<String>> },
    /// Only the status text changes: it shows the error.
    Erro { status: String },
}

/// The status text of a listing of `n` items.
pub open spec fn status_itens(n: nat) -> Seq<char> {
    decimal(n) + " itens"@
}

/// The status text of an error.
pub open spec fn status_erro(e: crate::error::ErrorView) -> Seq<char> {
    "Erro: "@ + message(e)
}

/// Two double-click checks: the same row again within 400 ms (a clock
/// that went back counts as no time).
pub open spec fn is_double(last: Option<(i32, u64)>, row: i32, now: u64) -> bool {
    match last {
        Some((r, t)) => r == row && (if now >= t {
            now - t
        } else {
            0
        }) < 400,
        None => false,
    }
}

/// Where a click leads: the second click of a double click on a row
/// opens it, when opening it leads elsewhere.
pub open spec fn spec_clique(
    loc: LocationView,
    rows: Seq<RowView>,
    last: Option<(i32, u64)>,
    row: i32,
    now: u64,
) -> Option<LocationView> {
    if is_double(last, row, now) && 0 <= row < rows.len() {
        let nova = spec_enter(loc, rows[row as int].name, rows[row as int].is_dir);
        if !loc_eq(nova, loc) {
            Some(nova)
        } else {
            None
        }
    } else {
        None
    }
}

/// The state of the window.
pub struct State<E: ArchiveEngine> {
    pub location: Location,
    pub browser: Browser<E>,
    pub rows: Vec<Row>,
    /// The row and time (in milliseconds) of the last click that was not
    /// the second of a double click.
    pub ultimo_clique: Option<(i32, u64)>,
    /// The password of the current archive, once the user gave one.
    pub senha_do_archive: Option<String>,
}

fn same_location(a: &Location, b: &Location) -> (r: bool)
    ensures
        r == loc_eq(a@, b@),
{
    *a == *b
}

/// The status text of an error: `"Erro: "` and its message.
pub fn texto_de_erro(e: &EngineError) -> (s: String)
    ensures
        s@ == status_erro(e@),
{
    let mut status = String::from_str("Erro: ");
    let m = e.mensagem();
    push_str(&mut status, m.as_str());
    status
}

/// What reloading the window does: the location, the last click and the
/// password stay; on success the rows become the listing of the location
/// (as [`Browser::list`] gives it) and the window shows the path,
/// `"<n> itens"` and the table; on error the rows stay and the window shows
/// `"Erro: <message>"` of the error that listing gave. On disk the listing
/// always succeeds.
pub open spec fn recarregou<E: ArchiveEngine>(
    before: State<E>,
    after: State<E>,
    disco: Seq<DiskItem>,
    t: Tela,
) -> bool {
    &&& after.location == before.location
    &&& after.ultimo_clique == before.ultimo_clique
    &&& after.senha_do_archive == before.senha_do_archive
    &&& match t {
        Tela::Listagem { caminho, status, linhas } => {
            &&& list_outcome(
                before.browser.engine(),
                after.browser.engine(),
                opt_view(before.senha_do_archive),
                before.browser.cached(),
                after.browser.cached(),
                before.location@,
                disco,
                Ok(rows_view(after.rows@)),
            )
            &&& caminho@ == spec_display(before.location@)
            &&& status@ == status_itens(after.rows@.len())
            &&& table_view(linhas@) == rows_view(after.rows@).map_values(|r: RowView| spec_cells(r))
        },
        Tela::Erro { status } => after.rows == before.rows && exists|e: EngineError|
            list_outcome(
                before.browser.engine(),
                after.browser.engine(),
                opt_view(before.senha_do_archive),
                before.browser.cached(),
                after.browser.cached(),
                before.location@,
                disco,
                Err(#[trigger] e@),
            ) && status@ == status_erro(e@),
    }
}

/// Lists the window's location again (`disco` holds the items of the
/// directory when it is on disk), as [`Browser::list`] does. On success
/// the rows are kept and the window shows the path, `"<n> itens"` and
/// the table; on error it shows `"Erro: <message>"` and the rows stay as
/// they were. On disk the listing always succeeds.
pub fn recarregar_janela<E: ArchiveEngine>(s: &mut State<E>, disco: &[DiskItem]) -> (t: Tela)
    ensures
        recarregou(*old(s), *final(s), disco@, t),
{
    let senha = match &s.senha_do_archive {
        Some(s) => Some(copy_string(s)),
        None => None,
    };
    let pw: Option<&str> = match &senha {
        Some(s) => Some(s.as_str()),
        None => None,
    };
    match s.browser.list(&s.location, pw, disco) {
        Ok(rows) => {
            let caminho = s.location.display();
            let mut status = decimal_string(rows.len() as u64);
            push_str(&mut status, " itens");
            let linhas = linhas_para_modelo(rows.as_slice());
            s.rows = rows;
            Tela::Listagem { caminho, status, linhas }
        },
        Err(e) => {
            let status = texto_de_erro(&e);
            Tela::Erro { status }
        },
    }
}


/// The window: its state, and what it does on each event. The caller
/// draws what these functions give.
pub struct App<E: ArchiveEngine> {
    pub state: State<E>,
}

impl<E: ArchiveEngine> App<E> {
    /// The window at a location, with no rows yet.
    pub fn new(engine: E, inicial: Location) -> (a: App<E>)
        ensures
            a.state.location@ == inicial@,
            a.state.rows@.len() == 0,
            a.state.ultimo_clique is None,
            a.state.senha_do_archive is None,
            a.state.browser.cached() is None,
    {
        App {
            state: State {
                location: inicial,
                browser: Browser::new(engine),
                rows: Vec::new(),
                ultimo_clique: None,
                senha_do_archive: None,
            },
        }
    }

    /// Lists the current location again, as [`recarregar_janela`] does.
    pub fn recarregar(&mut self, disco: &[DiskItem]) -> (t: Tela)
        ensures
            recarregou(old(self).state, final(self).state, disco@, t),
    {
        recarregar_janela(&mut self.state, disco)
    }

    /// Handles a click on `row` at time `agora` (milliseconds). The second
    /// click of a double click on a row gives the location that opening
    /// the row leads to, when that differs from the current one.
    pub fn clique(&mut self, row: i32, agora: u64) -> (r: Option<Location>)
        ensures
            final(self).state.location == old(self).state.location,
            final(self).state.rows == old(self).state.rows,
            final(self).state.browser == old(self).state.browser,
            final(self).state.senha_do_archive == old(self).state.senha_do_archive,
            final(self).state.ultimo_clique == if is_double(old(self).state.ultimo_clique, row, agora) {
                None
            } else {
                Some((row, agora))
            },
            opt_location_view(r) == spec_clique(
                old(self).state.location@,
                rows_view(old(self).state.rows@),
                old(self).state.ultimo_clique,
                row,
                agora,
            ),
    {
        let duplo = match self.state.ultimo_clique {
            Some((r, t)) => r == row && (if agora >= t {
                agora - t
            } else {
                0
            }) < 400,
            None => false,
        };
        self.state.ultimo_clique = if duplo {
            None
        } else {
            Some((row, agora))
        };
        if !duplo || row < 0 {
            return None;
        }
        let i = row as usize;
        if i >= self.state.rows.len() {
            return None;
        }
        let nova = self.state.browser.enter(&self.state.location, self.state.rows[i].name.as_str(), self.state.rows[i].is_dir);
        if same_location(&nova, &self.state.location) {
            None
        } else {
            Some(nova)
        }
    }

    /// Moves to `nova` when it can be listed (`disco` holds its items when
    /// it is on disk), as [`Browser::list`] lists it; otherwise stays, and
    /// gives the error of the listing.
    pub fn navegar(&mut self, nova: Location, disco: &[DiskItem]) -> (res: Result<(), EngineError>)
        ensures
            match res {
                Ok(()) => final(self).state.location@ == nova@ && exists|rows: Seq<RowView>|
                    #[trigger] list_outcome(
                        old(self).state.browser.engine(),
                        final(self).state.browser.engine(),
                        opt_view(old(self).state.senha_do_archive),
                        old(self).state.browser.cached(),
                        final(self).state.browser.cached(),
                        nova@,
                        disco@,
                        Ok(rows),
                    ),
                Err(e) => final(self).state.location == old(self).state.location && list_outcome(
                    old(self).state.browser.engine(),
                    final(self).state.browser.engine(),
                    opt_view(old(self).state.senha_do_archive),
                    old(self).state.browser.cached(),
                    final(self).state.browser.cached(),
                    nova@,
                    disco@,
                    Err(e@),
                ),
            },
            final(self).state.rows == old(self).state.rows,
            final(self).state.ultimo_clique == old(self).state.ultimo_clique,
            final(self).state.senha_do_archive == old(self).state.senha_do_archive,
    {
        let senha = match &self.state.senha_do_archive {
            Some(s) => Some(copy_string(s)),
            None => None,
        };
        let pw: Option<&str> = match &senha {
            Some(s) => Some(s.as_str()),
            None => None,
        };
        match self.state.browser.list(&nova, pw, disco) {
            Ok(rows) => {
                assert(list_outcome(
                    old(self).state.browser.engine(),
                    self.state.browser.engine(),
                    opt_view(old(self).state.senha_do_archive),
                    old(self).state.browser.cached(),
                    self.state.browser.cached(),
                    nova@,
                    disco@,
                    Ok(rows_view(rows@)),
                ));
                self.state.location = nova;
                Ok(())
            },
            Err(e) => Err(e),
        }
    }

    /// Goes one level up, when there is a level up.
    pub fn subir(&mut self) -> (moved: bool)
        ensures
            moved <==> spec_parent(old(self).state.location@) is Some,
            moved ==> Some(final(self).state.location@) == spec_parent(old(self).state.location@),
            !moved ==> final(self).state.location == old(self).state.location,
            final(self).state.browser == old(self).state.browser,
            final(self).state.rows == old(self).state.rows,
            final(self).state.ultimo_clique == old(self).state.ultimo_clique,
            final(self).state.senha_do_archive == old(self).state.senha_do_archive,
    {
        match self.state.location.parent() {
            Some(p) => {
                self.state.location = p;
                true
            },
            None => false,
        }
    }
}

} // verus!
