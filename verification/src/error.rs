//! The typed errors of the archive engine and their user-facing messages.
use vstd::prelude::*;

use crate::text::{decimal, decimal_string, push_str};

verus! {

/// What can go wrong when running the archiver.
#[derive(Debug)]
pub enum EngineError {
    BinarioNaoEncontrado,
    SenhaNecessaria,
    SenhaIncorreta,
    ArchiveCorrompido(String),
    SemEspacoEmDisco,
    Cancelado,
    /// An input/output error, by its message.
    Io(String),
    Falha { exit_code: i32, stderr: String },
    OpcaoNaoSuportada(String),
    CaminhoInvalido(String),
}

/// The mathematical value of an [`EngineError`].
pub enum ErrorView {
    BinarioNaoEncontrado,
    SenhaNecessaria,
    SenhaIncorreta,
    ArchiveCorrompido(Seq<char>),
    SemEspacoEmDisco,
    Cancelado,
    Io(Seq<char>),
    Falha { exit_code: i32, stderr: Seq<char> },
    OpcaoNaoSuportada(Seq<char>),
    CaminhoInvalido(Seq<char>),
}

impl View for EngineError {
    type V = ErrorView;

    open spec fn view(&self) -> ErrorView {
        match self {
            EngineError::BinarioNaoEncontrado => ErrorView::BinarioNaoEncontrado,
            EngineError::SenhaNecessaria => ErrorView::SenhaNecessaria,
            EngineError::SenhaIncorreta => ErrorView::SenhaIncorreta,
            EngineError::ArchiveCorrompido(d) => ErrorView::ArchiveCorrompido(d@),
            EngineError::SemEspacoEmDisco => ErrorView::SemEspacoEmDisco,
            EngineError::Cancelado => ErrorView::Cancelado,
            EngineError::Io(d) => ErrorView::Io(d@),
            EngineError::Falha { exit_code, stderr } => ErrorView::Falha {
                exit_code: *exit_code,
                stderr: stderr@,
            },
            EngineError::OpcaoNaoSuportada(d) => ErrorView::OpcaoNaoSuportada(d@),
            EngineError::CaminhoInvalido(d) => ErrorView::CaminhoInvalido(d@),
        }
    }
}

/// The decimal numeral of a signed integer.
pub open spec fn signed_decimal(i: int) -> Seq<char> {
    if i < 0 {
        seq!['-'] + decimal((-i) as nat)
    } else {
        decimal(i as nat)
    }
}

/// The decimal numeral of a signed 32-bit integer.
pub fn i32_string(i: i32) -> (s: String)
    ensures
        s@ == signed_decimal(i as int),
{
    if i < 0 {
        let m: u64 = (-(i as i64)) as u64;
        let mut s = String::new();
        push_str(&mut s, "-");
        let d = decimal_string(m);
        push_str(&mut s, d.as_str());
        proof {
            reveal_strlit("-");
        }
        s
    } else {
        decimal_string(i as u64)
    }
}

/// The message that describes an error to the user.
pub open spec fn message(e: ErrorView) -> Seq<char> {
    match e {
        ErrorView::BinarioNaoEncontrado => "binário 7zz não encontrado"@,
        ErrorView::SenhaNecessaria => "o archive exige senha"@,
        ErrorView::SenhaIncorreta => "senha incorreta"@,
        ErrorView::ArchiveCorrompido(d) => "archive corrompido: "@ + d,
        ErrorView::SemEspacoEmDisco => "sem espaço em disco"@,
        ErrorView::Cancelado => "operação cancelada"@,
        ErrorView::Io(d) => "erro de E/S: "@ + d,
        ErrorView::Falha { exit_code, stderr } => "7zz falhou (código "@ + signed_decimal(
            exit_code as int,
        ) + "): "@ + stderr,
        ErrorView::OpcaoNaoSuportada(d) => "opção não suportada: "@ + d,
        ErrorView::CaminhoInvalido(d) => "caminho inválido no archive: "@ + d,
    }
}

fn text_then(a: &str, b: &str) -> (s: String)
    ensures
        s@ == a@ + b@,
{
    let mut s = String::new();
    push_str(&mut s, a);
    push_str(&mut s, b);
    s
}

impl EngineError {
    /// The message that describes this error to the user.
    pub fn mensagem(&self) -> (s: String)
        ensures
            s@ == message(self@),
    {
        match self {
            EngineError::BinarioNaoEncontrado => String::from_str("binário 7zz não encontrado"),
            EngineError::SenhaNecessaria => String::from_str("o archive exige senha"),
            EngineError::SenhaIncorreta => String::from_str("senha incorreta"),
            EngineError::ArchiveCorrompido(d) => text_then("archive corrompido: ", d.as_str()),
            EngineError::SemEspacoEmDisco => String::from_str("sem espaço em disco"),
            EngineError::Cancelado => String::from_str("operação cancelada"),
            EngineError::Io(d) => text_then("erro de E/S: ", d.as_str()),
            EngineError::Falha { exit_code, stderr } => {
                let mut s = String::new();
                push_str(&mut s, "7zz falhou (código ");
                let n = i32_string(*exit_code);
                push_str(&mut s, n.as_str());
                push_str(&mut s, "): ");
                push_str(&mut s, stderr.as_str());
                s
            },
            EngineError::OpcaoNaoSuportada(d) => text_then("opção não suportada: ", d.as_str()),
            EngineError::CaminhoInvalido(d) => text_then("caminho inválido no archive: ", d.as_str()),
        }
    }
}

} // verus!
