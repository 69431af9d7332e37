//! Showing one file of an archive: only that entry is extracted, into a
//! directory of its own, and only when its path cannot leave it.
use vstd::prelude::*;

use crate::error::{EngineError, ErrorView};
use crate::ops::{entrada_segura, spec_entrada_segura};
use crate::text::{chars_of, string_of};

verus! {

/// The selection to extract for showing the entry `entry_path`: that
/// entry alone when its path is safe; otherwise the error that names it,
/// before anything is extracted.
pub fn selecao_de_preview(entry_path: &str) -> (r: Result<Vec<String>, EngineError>)
    ensures
        match r {
            Ok(sel) => spec_entrada_segura(entry_path@) && sel@.map_values(|s: String| s@)
                == seq![entry_path@],
            Err(e) => !spec_entrada_segura(entry_path@) && e@ == ErrorView::CaminhoInvalido(
                entry_path@,
            ),
        },
{
    let cs = chars_of(entry_path);
    let copia = string_of(cs.as_slice());
    if !entrada_segura(entry_path) {
        return Err(EngineError::CaminhoInvalido(copia));
    }
    let mut sel: Vec<String> = Vec::new();
    sel.push(copia);
    assert(sel@.map_values(|s: String| s@) =~= seq![entry_path@]);
    Ok(sel)
}

} // verus!
