//! How the end of an archiver run becomes a result: the exit status and
//! the error output are classified into typed errors.
use vstd::prelude::*;

use crate::error::{EngineError, ErrorView};
use crate::text::{chars_of, contains, contains_vec, lowercase, string_of, to_lowercase, trim, trim_vec};

verus! {

/// Whether the lowercase error output names a damaged archive.
pub open spec fn names_corruption(lower: Seq<char>) -> bool {
    ||| contains(lower, "headers error"@)
    ||| contains(lower, "data error"@)
    ||| contains(lower, "crc failed"@)
    ||| contains(lower, "unexpected end of archive"@)
    ||| contains(lower, "cannot open the file as archive"@)
    ||| contains(lower, "is not archive"@)
}

/// The error for a failed run, from its exit code, its error output in
/// lowercase, and the error output itself.
pub open spec fn spec_classify(exit_code: i32, lower: Seq<char>, stderr: Seq<char>) -> ErrorView {
    if contains(lower, "wrong password"@) {
        ErrorView::SenhaIncorreta
    } else if contains(lower, "no space left"@) || contains(lower, "not enough space"@) {
        ErrorView::SemEspacoEmDisco
    } else if names_corruption(lower) {
        ErrorView::ArchiveCorrompido(trim(stderr))
    } else {
        ErrorView::Falha { exit_code, stderr: trim(stderr) }
    }
}

/// The phrases by which the archiver's error output names a damaged
/// archive.
pub open spec fn corruption_markers() -> Seq<Seq<char>> {
    seq![
        "headers error"@,
        "data error"@,
        "crc failed"@,
        "unexpected end of archive"@,
        "cannot open the file as archive"@,
        "is not archive"@,
    ]
}

/// How a failed run is classified, by what its error output says without
/// regard to case: a wrong password first; then a full disk; then any of
/// the markers of a damaged archive, which gives the trimmed output as the
/// corruption's detail; otherwise a plain failure with the exit code and
/// the trimmed output.
pub proof fn law_error_classes(exit_code: i32, stderr: Seq<char>)
    ensures
        ({
            let lower = lowercase(stderr);
            let r = spec_classify(exit_code, lower, stderr);
            let password = contains(lower, "wrong password"@);
            let space = contains(lower, "no space left"@) || contains(lower, "not enough space"@);
            let marked = exists|k: int|
                0 <= k < corruption_markers().len() && contains(
                    lower,
                    #[trigger] corruption_markers()[k],
                );
            &&& password ==> r == ErrorView::SenhaIncorreta
            &&& !password && space ==> r == ErrorView::SemEspacoEmDisco
            &&& !password && !space && marked ==> r == ErrorView::ArchiveCorrompido(trim(stderr))
            &&& !password && !space && !marked ==> r == ErrorView::Falha {
                exit_code,
                stderr: trim(stderr),
            }
        }),
{
    let lower = lowercase(stderr);
    let ms = corruption_markers();
    assert(ms[0] == "headers error"@);
    assert(ms[1] == "data error"@);
    assert(ms[2] == "crc failed"@);
    assert(ms[3] == "unexpected end of archive"@);
    assert(ms[4] == "cannot open the file as archive"@);
    assert(ms[5] == "is not archive"@);
    if names_corruption(lower) {
        if contains(lower, "headers error"@) {
            assert(contains(lower, ms[0]));
        } else if contains(lower, "data error"@) {
            assert(contains(lower, ms[1]));
        } else if contains(lower, "crc failed"@) {
            assert(contains(lower, ms[2]));
        } else if contains(lower, "unexpected end of archive"@) {
            assert(contains(lower, ms[3]));
        } else if contains(lower, "cannot open the file as archive"@) {
            assert(contains(lower, ms[4]));
        } else {
            assert(contains(lower, ms[5]));
        }
    }
}

fn has(hay: &[char], needle: &str) -> (r: bool)
    ensures
        r == contains(hay@, needle@),
{
    let n = chars_of(needle);
    contains_vec(hay, n.as_slice())
}

/// `s` without leading and trailing whitespace (`str::trim`).
pub fn trim_string(s: &str) -> (r: String)
    ensures
        r@ == trim(s@),
{
    let cs = chars_of(s);
    let t = trim_vec(cs.as_slice());
    string_of(t.as_slice())
}

/// Classifies a failed run given its error output already in lowercase.
pub fn classificar_erro(exit_code: i32, lower: &str, stderr: &str) -> (r: EngineError)
    ensures
        r@ == spec_classify(exit_code, lower@, stderr@),
{
    let l = chars_of(lower);
    let l = l.as_slice();
    if has(l, "wrong password") {
        return EngineError::SenhaIncorreta;
    }
    if has(l, "no space left") || has(l, "not enough space") {
        return EngineError::SemEspacoEmDisco;
    }
    if has(l, "headers error") || has(l, "data error") || has(l, "crc failed") || has(
        l,
        "unexpected end of archive",
    ) || has(l, "cannot open the file as archive") || has(l, "is not archive") {
        return EngineError::ArchiveCorrompido(trim_string(stderr));
    }
    EngineError::Falha { exit_code, stderr: trim_string(stderr) }
}

/// Maps a failed run to a typed error by the words of its error output,
/// compared without regard to case.
pub fn mapear_erro(exit_code: i32, stderr: &str) -> (r: EngineError)
    ensures
        r@ == spec_classify(exit_code, lowercase(stderr@), stderr@),
{
    let lower = to_lowercase(stderr);
    classificar_erro(exit_code, lower.as_str(), stderr)
}

/// The result of a run: its standard output when it exited with code 0 and
/// was not cancelled; `Cancelado` when it was cancelled or killed by a
/// signal (no code); the classified error otherwise.
pub open spec fn spec_outcome(
    cancelled: bool,
    code: Option<i32>,
    stdout: Seq<char>,
    stderr: Seq<char>,
) -> Result<Seq<char>, ErrorView> {
    if cancelled {
        Err(ErrorView::Cancelado)
    } else {
        match code {
            Some(c) => if c == 0 {
                Ok(stdout)
            } else {
                Err(spec_classify(c, lowercase(stderr), stderr))
            },
            None => Err(ErrorView::Cancelado),
        }
    }
}

/// The view of a result that carries text.
pub open spec fn text_result_view(r: Result<String, EngineError>) -> Result<Seq<char>, ErrorView> {
    match r {
        Ok(s) => Ok(s@),
        Err(e) => Err(e@),
    }
}

/// Turns the end of a run into its result.
pub fn resultado_execucao(
    cancelado: bool,
    codigo: Option<i32>,
    saida: String,
    stderr: &str,
) -> (r: Result<String, EngineError>)
    ensures
        text_result_view(r) == spec_outcome(cancelado, codigo, saida@, stderr@),
{
    if cancelado {
        return Err(EngineError::Cancelado);
    }
    match codigo {
        Some(c) => if c == 0 {
            Ok(saida)
        } else {
            Err(mapear_erro(c, stderr))
        },
        None => Err(EngineError::Cancelado),
    }
}

} // verus!
