//! The command line: `evezip [<archive>]` opens the window (on an archive),
//! `evezip x <archive> [-o <dest>]` extracts without it.
use vstd::prelude::*;

use crate::location::{parent_path, path_parent};
use crate::text::{chars_of, same_chars, string_of};

verus! {

/// What the command line asks for.
#[derive(Debug, PartialEq, Eq)]
pub enum Cli {
    Abrir(Option<String>),
    Extrair { archive: String, dest: Option<String> },
}

/// The mathematical value of a [`Cli`].
pub enum CliView {
    Abrir(Option<Seq<char>>),
    Extrair { archive: Seq<char>, dest: Option<Seq<char>> },
}

pub open spec fn sv(o: Option<String>) -> Option<Seq<char>> {
    match o {
        Some(s) => Some(s@),
        None => None,
    }
}

impl View for Cli {
    type V = CliView;

    open spec fn view(&self) -> CliView {
        match self {
            Cli::Abrir(p) => CliView::Abrir(sv(*p)),
            Cli::Extrair { archive, dest } => CliView::Extrair { archive: archive@, dest: sv(*dest) },
        }
    }
}

/// The destination of `evezip x <archive>` without `-o`: the directory
/// that holds the archive, or `"."` when its path has no parent or an empty
/// one (a bare name such as `"a.7z"`).
pub open spec fn spec_destino(archive: Seq<char>, dest: Option<Seq<char>>) -> Seq<char> {
    match dest {
        Some(d) => d,
        None => match path_parent(archive) {
            Some(p) => if p.len() > 0 {
                p
            } else {
                "."@
            },
            None => "."@,
        },
    }
}

/// The destination of an extraction from the command line.
pub fn destino_padrao(archive: &str, dest: Option<String>) -> (r: String)
    ensures
        r@ == spec_destino(archive@, sv(dest)),
{
    match dest {
        Some(d) => d,
        None => match parent_path(archive) {
            Some(p) => if p.as_str().is_empty() {
                String::from_str(".")
            } else {
                p
            },
            None => String::from_str("."),
        },
    }
}

/// The usage line of the `x` command.
pub open spec fn usage_x() -> Seq<char> {
    "uso: evezip x <archive> [-o <destino>]"@
}

/// The usage line of the program.
pub open spec fn usage() -> Seq<char> {
    "uso: evezip [<archive>] | evezip x <archive> [-o <destino>]"@
}

/// The meaning of the arguments (without the program name): none opens the
/// window; `x <archive>` and `x <archive> -o <dest>` extract; any other
/// use of `x` is an error; one other argument opens the window on it; more
/// are an error.
pub open spec fn spec_parse(args: Seq<Seq<char>>) -> Result<CliView, Seq<char>> {
    if args.len() == 0 {
        Ok(CliView::Abrir(None))
    } else if args[0] == "x"@ {
        if args.len() == 2 {
            Ok(CliView::Extrair { archive: args[1], dest: None })
        } else if args.len() == 4 && args[2] == "-o"@ {
            Ok(CliView::Extrair { archive: args[1], dest: Some(args[3]) })
        } else {
            Err(usage_x())
        }
    } else if args.len() == 1 {
        Ok(CliView::Abrir(Some(args[0])))
    } else {
        Err(usage())
    }
}

/// The view of a parse result.
pub open spec fn parse_view(r: Result<Cli, String>) -> Result<CliView, Seq<char>> {
    match r {
        Ok(c) => Ok(c@),
        Err(e) => Err(e@),
    }
}

fn is_lit(s: &String, lit: &str) -> (r: bool)
    ensures
        r == (s@ == lit@),
{
    let a = chars_of(s.as_str());
    let b = chars_of(lit);
    same_chars(a.as_slice(), b.as_slice())
}

fn copy(s: &String) -> (r: String)
    ensures
        r@ == s@,
{
    let c = chars_of(s.as_str());
    string_of(c.as_slice())
}

/// Parses the arguments of the program, without the program name.
pub fn parse(args: &[String]) -> (r: Result<Cli, String>)
    ensures
        parse_view(r) == spec_parse(args@.map_values(|s: String| s@)),
{
    let ghost v = args@.map_values(|s: String| s@);
    let n = args.len();
    if n == 0 {
        return Ok(Cli::Abrir(None));
    }
    assert(v[0] == args@[0]@);
    if is_lit(&args[0], "x") {
        if n == 2 {
            assert(v[1] == args@[1]@);
            return Ok(Cli::Extrair { archive: copy(&args[1]), dest: None });
        }
        if n == 4 && is_lit(&args[2], "-o") {
            assert(v[1] == args@[1]@ && v[2] == args@[2]@ && v[3] == args@[3]@);
            return Ok(Cli::Extrair { archive: copy(&args[1]), dest: Some(copy(&args[3])) });
        }
        if n == 4 {
            assert(v[2] == args@[2]@);
        }
        return Err(String::from_str("uso: evezip x <archive> [-o <destino>]"));
    }
    if n == 1 {
        return Ok(Cli::Abrir(Some(copy(&args[0]))));
    }
    Err(String::from_str("uso: evezip [<archive>] | evezip x <archive> [-o <destino>]"))
}

} // verus!
