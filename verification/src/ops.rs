//! The operations of the archive engine: what is asked of `7zz` for each
//! of them, and the checks made before asking.
use vstd::prelude::*;

use crate::entry::{entries_view, ArchiveEntry};
use crate::error::{EngineError, ErrorView};
use crate::parse_list::{parse_slt, spec_parse_slt};
use crate::location::{has_root, join_path, path_join};
use crate::text::{chars_of, decimal, decimal_string, ends_with, lowercase, push_str, str_ends_with, to_lowercase};

verus! {

/// The path to the archiver binary.
pub struct Engine {
    bin: String,
}

/// The formats in which an archive can be created.
#[derive(Debug, Clone, Copy, PartialEq, Eq, Structural)]
pub enum Format {
    Zip,
    SevenZ,
    Tar,
    TarGz,
}

/// How to create an archive.
#[derive(Debug, Clone)]
pub struct CreateOptions {
    pub format: Format,
    pub level: u8,
    pub password: Option<String>,
    pub encrypt_names: bool,
}

// ---------------------------------------------------------------------
// Entry paths
// ---------------------------------------------------------------------

/// `'/'` and `'\\'` separate the components of an entry path.
pub open spec fn is_path_sep(c: char) -> bool {
    c == '/' || c == '\\'
}

pub open spec fn is_ascii_alpha(c: char) -> bool {
    ('a' <= c && c <= 'z') || ('A' <= c && c <= 'Z')
}

/// A component `".."` starts at index `i` of `s`.
pub open spec fn dotdot_at(s: Seq<char>, i: int) -> bool {
    &&& 0 <= i
    &&& i + 2 <= s.len()
    &&& s[i] == '.'
    &&& s[i + 1] == '.'
    &&& (i == 0 || is_path_sep(s[i - 1]))
    &&& (i + 2 == s.len() || is_path_sep(s[i + 2]))
}

/// An entry path is safe to join under a destination: it does not start
/// at a root (`'/'`, `'\\'`, or a drive letter and `':'`) and none of its
/// components is `".."`.
pub open spec fn spec_entrada_segura(s: Seq<char>) -> bool {
    &&& !(s.len() > 0 && is_path_sep(s[0]))
    &&& !(s.len() >= 2 && s[1] == ':' && is_ascii_alpha(s[0]))
    &&& !exists|i: int| dotdot_at(s, i)
}

/// Whether an archive entry path is safe for `dest.join(entry)`: no
/// component may be `".."` (zip-slip / path traversal) and the path may not
/// be absolute (Unix root `"/"`, or a Windows drive or UNC root `"C:\"`,
/// `"\\"`).
pub fn entrada_segura(entry: &str) -> (r: bool)
    ensures
        r == spec_entrada_segura(entry@),
{
    let s = chars_of(entry);
    let n = s.len();
    if n > 0 && (s[0] == '/' || s[0] == '\\') {
        return false;
    }
    if n >= 2 && s[1] == ':' && (('a' <= s[0] && s[0] <= 'z') || ('A' <= s[0] && s[0] <= 'Z')) {
        return false;
    }
    let mut i: usize = 0;
    while i < n
        invariant
            n == s@.len(),
            s@ == entry@,
            i <= n,
            forall|j: int| 0 <= j < i ==> !dotdot_at(s@, j),
        decreases n - i,
    {
        if n - i >= 2 && s[i] == '.' && s[i + 1] == '.' && (i == 0 || s[i - 1] == '/' || s[i - 1]
            == '\\') && (i + 2 == n || s[i + 2] == '/' || s[i + 2] == '\\') {
            assert(dotdot_at(s@, i as int));
            return false;
        }
        i += 1;
    }
    assert forall|j: int| !dotdot_at(s@, j) by {
        if 0 <= j < n {
        }
    }
    true
}

/// A safe entry path put under a directory stays inside it: the joined
/// path starts with the directory, and no `".."` component begins in the
/// part that follows it.
pub proof fn law_safe_entry_stays_inside(dest: Seq<char>, e: Seq<char>)
    requires
        spec_entrada_segura(e),
    ensures
        path_join(dest, e).take(dest.len() as int) == dest,
        forall|i: int| dest.len() <= i ==> !#[trigger] dotdot_at(path_join(dest, e), i),
{
    let p = path_join(dest, e);
    let d = dest.len() as int;
    assert(!has_root(e));
    let s: int = if d > 0 && dest.last() != '/' {
        d + 1
    } else {
        d
    };
    if d > 0 && dest.last() != '/' {
        assert(p == dest + seq!['/'] + e);
        assert(p[d] == '/');
    } else {
        assert(p == dest + e);
    }
    assert(p.take(d) =~= dest);
    assert forall|i: int| d <= i implies !#[trigger] dotdot_at(p, i) by {
        if dotdot_at(p, i) {
            if i == d && s == d + 1 {
                assert(p[i] == '/');
            } else {
                let k = i - s;
                assert(p[i] == e[k] && p[i + 1] == e[k + 1]);
                if k + 2 < e.len() {
                    assert(p[i + 2] == e[k + 2]);
                }
                if k > 0 {
                    assert(p[i - 1] == e[k - 1]);
                }
                assert(dotdot_at(e, k));
            }
        }
    }
}

/// `k` is the index of the first unsafe path of a selection.
pub open spec fn first_unsafe_at(sel: Seq<String>, k: int) -> bool {
    &&& 0 <= k < sel.len()
    &&& !spec_entrada_segura(sel[k]@)
    &&& forall|j: int| 0 <= j < k ==> spec_entrada_segura(#[trigger] sel[j]@)
}

/// A selection of entries to extract is refused when one of its paths is
/// unsafe, with `CaminhoInvalido` of the first such path.
pub fn validar_selecao(entries: Option<&[String]>) -> (r: Result<(), EngineError>)
    ensures
        match entries {
            None => r is Ok,
            Some(sel) => match r {
                Ok(()) => forall|k: int| 0 <= k < sel@.len() ==> spec_entrada_segura(#[trigger] sel@[k]@),
                Err(e) => exists|k: int|
                    #[trigger] first_unsafe_at(sel@, k) && e@ == ErrorView::CaminhoInvalido(
                        sel@[k]@,
                    ),
            },
        },
{
    match entries {
        None => Ok(()),
        Some(sel) => {
            let mut k: usize = 0;
            while k < sel.len()
                invariant
                    entries == Some(sel),
                    k <= sel@.len(),
                    forall|j: int| 0 <= j < k ==> spec_entrada_segura(#[trigger] sel@[j]@),
                decreases sel@.len() - k,
            {
                if !entrada_segura(sel[k].as_str()) {
                    let e = EngineError::CaminhoInvalido(sel[k].clone());
                    assert(first_unsafe_at(sel@, k as int));
                    assert(e@ == ErrorView::CaminhoInvalido(sel@[k as int]@));
                    assert(entries is Some);
                    assert(entries->0@ == sel@);
                    return Err(e);
                }
                k += 1;
            }
            Ok(())
        },
    }
}

// ---------------------------------------------------------------------
// Archive names, passwords and errors
// ---------------------------------------------------------------------

/// A lowercase archive name that is a gzip-compressed tar.
pub open spec fn targz_name(lower: Seq<char>) -> bool {
    ends_with(lower, ".tar.gz"@) || ends_with(lower, ".tgz"@)
}

/// Whether a lowercase archive name ends in `.tar.gz` or `.tgz`.
pub fn eh_targz_minusculo(lower: &str) -> (r: bool)
    ensures
        r == targz_name(lower@),
{
    str_ends_with(lower, ".tar.gz") || str_ends_with(lower, ".tgz")
}

/// Whether an archive is a `.tar.gz`/`.tgz`, without regard to case.
pub fn eh_targz(archive: &str) -> (r: bool)
    ensures
        r == targz_name(lowercase(archive@)),
{
    let lower = to_lowercase(archive);
    eh_targz_minusculo(lower.as_str())
}

/// The view of an optional string slice.
pub open spec fn opt_str_view(o: Option<&str>) -> Option<Seq<char>> {
    match o {
        Some(s) => Some(s@),
        None => None,
    }
}

/// The password switch: `-p` followed by the password, or alone.
pub open spec fn spec_arg_senha(password: Option<Seq<char>>) -> Seq<char> {
    match password {
        Some(p) => "-p"@ + p,
        None => "-p"@,
    }
}

/// The password switch, always present so that the archiver never asks
/// interactively.
pub fn arg_senha(password: Option<&str>) -> (r: String)
    ensures
        r@ == spec_arg_senha(opt_str_view(password)),
{
    let mut a = String::from_str("-p");
    match password {
        Some(p) => push_str(&mut a, p),
        None => {},
    }
    a
}

/// "Wrong password" when no password was given means that one is needed.
pub open spec fn spec_ajustar(err: ErrorView, password: Option<Seq<char>>) -> ErrorView {
    match (err, password) {
        (ErrorView::SenhaIncorreta, None) => ErrorView::SenhaNecessaria,
        (e, _) => e,
    }
}

pub fn ajustar_erro_de_senha(err: EngineError, password: Option<&str>) -> (r: EngineError)
    ensures
        r@ == spec_ajustar(err@, opt_str_view(password)),
{
    match (err, password) {
        (EngineError::SenhaIncorreta, None) => EngineError::SenhaNecessaria,
        (e, _) => e,
    }
}

/// The entries of a listing run: those that its output describes, or its
/// error with the password adjustment.
pub fn concluir_listagem(r: Result<String, EngineError>, password: Option<&str>) -> (out: Result<
    Vec<ArchiveEntry>,
    EngineError,
>)
    ensures
        match (r, out) {
            (Ok(texto), Ok(es)) => entries_view(es@) == spec_parse_slt(texto@),
            (Err(e), Err(e2)) => e2@ == spec_ajustar(e@, opt_str_view(password)),
            _ => false,
        },
{
    match r {
        Ok(texto) => Ok(parse_slt(texto.as_str())),
        Err(e) => Err(ajustar_erro_de_senha(e, password)),
    }
}

/// The result of an extraction or test run: success, or its error with
/// the password adjustment.
pub fn concluir_operacao(r: Result<String, EngineError>, password: Option<&str>) -> (out: Result<
    (),
    EngineError,
>)
    ensures
        match (r, out) {
            (Ok(_), Ok(())) => true,
            (Err(e), Err(e2)) => e2@ == spec_ajustar(e@, opt_str_view(password)),
            _ => false,
        },
{
    match r {
        Ok(_) => Ok(()),
        Err(e) => Err(ajustar_erro_de_senha(e, password)),
    }
}

// ---------------------------------------------------------------------
// Command lines
// ---------------------------------------------------------------------

/// The views of a sequence of strings.
pub open spec fn strings_view(v: Seq<String>) -> Seq<Seq<char>> {
    v.map_values(|s: String| s@)
}

fn push_arg(args: &mut Vec<String>, a: &str)
    ensures
        strings_view(final(args)@) == strings_view(old(args)@).push(a@),
{
    let s = String::from_str(a);
    let ghost before = args@;
    args.push(s);
    assert(strings_view(args@) =~= strings_view(before).push(a@));
}

fn push_string(args: &mut Vec<String>, a: String)
    ensures
        strings_view(final(args)@) == strings_view(old(args)@).push(a@),
{
    let ghost before = args@;
    let ghost av = a@;
    args.push(a);
    assert(strings_view(args@) =~= strings_view(before).push(av));
}

fn push_all(args: &mut Vec<String>, xs: &[String])
    ensures
        strings_view(final(args)@) == strings_view(old(args)@) + strings_view(xs@),
{
    let mut i: usize = 0;
    while i < xs.len()
        invariant
            i <= xs@.len(),
            strings_view(args@) == strings_view(old(args)@) + strings_view(xs@.take(i as int)),
        decreases xs@.len() - i,
    {
        push_string(args, xs[i].clone());
        assert(strings_view(xs@.take(i + 1)) =~= strings_view(xs@.take(i as int)).push(xs@[i as int]@));
        i += 1;
    }
    assert(xs@.take(xs@.len() as int) == xs@);
}

/// `l -slt -y -p[password] <archive>`.
pub open spec fn spec_args_list(archive: Seq<char>, password: Option<Seq<char>>) -> Seq<Seq<char>> {
    seq!["l"@, "-slt"@, "-y"@, spec_arg_senha(password), archive]
}

/// The command line that lists an archive.
pub fn args_list(archive: &str, password: Option<&str>) -> (r: Vec<String>)
    ensures
        strings_view(r@) == spec_args_list(archive@, opt_str_view(password)),
{
    let mut a: Vec<String> = Vec::new();
    push_arg(&mut a, "l");
    push_arg(&mut a, "-slt");
    push_arg(&mut a, "-y");
    push_string(&mut a, arg_senha(password));
    push_arg(&mut a, archive);
    assert(strings_view(a@) =~= spec_args_list(archive@, opt_str_view(password)));
    a
}

/// `x -y -bsp1 -bso0 -p[password] -o<dest> <archive>`, then, for a
/// selection, `--` and the selected entries.
pub open spec fn spec_args_extract(
    archive: Seq<char>,
    dest: Seq<char>,
    entries: Option<Seq<Seq<char>>>,
    password: Option<Seq<char>>,
) -> Seq<Seq<char>> {
    seq!["x"@, "-y"@, "-bsp1"@, "-bso0"@, spec_arg_senha(password), "-o"@ + dest, archive]
        + match entries {
        Some(sel) => seq!["--"@] + sel,
        None => seq![],
    }
}

/// The view of an optional selection of entries.
pub open spec fn opt_strings_view(o: Option<&[String]>) -> Option<Seq<Seq<char>>> {
    match o {
        Some(s) => Some(strings_view(s@)),
        None => None,
    }
}

/// The command line that extracts an archive (or a selection of it) to
/// `dest`; `--` ends the switches so that an entry named like a switch is
/// taken as a name.
pub fn args_extract(archive: &str, dest: &str, entries: Option<&[String]>, password: Option<&str>) -> (r:
    Vec<String>)
    ensures
        strings_view(r@) == spec_args_extract(
            archive@,
            dest@,
            opt_strings_view(entries),
            opt_str_view(password),
        ),
{
    let mut a: Vec<String> = Vec::new();
    push_arg(&mut a, "x");
    push_arg(&mut a, "-y");
    push_arg(&mut a, "-bsp1");
    push_arg(&mut a, "-bso0");
    push_string(&mut a, arg_senha(password));
    let mut o = String::from_str("-o");
    push_str(&mut o, dest);
    push_string(&mut a, o);
    push_arg(&mut a, archive);
    let ghost base = strings_view(a@);
    match entries {
        Some(sel) => {
            push_arg(&mut a, "--");
            push_all(&mut a, sel);
            assert(strings_view(a@) =~= base + (seq!["--"@] + strings_view(sel@)));
        },
        None => {
            assert(strings_view(a@) =~= base + Seq::<Seq<char>>::empty());
        },
    }
    a
}

/// `t -y -bsp1 -bso0 -p[password] <archive>`.
pub open spec fn spec_args_test(archive: Seq<char>, password: Option<Seq<char>>) -> Seq<Seq<char>> {
    seq!["t"@, "-y"@, "-bsp1"@, "-bso0"@, spec_arg_senha(password), archive]
}

/// The command line that tests an archive.
pub fn args_test(archive: &str, password: Option<&str>) -> (r: Vec<String>)
    ensures
        strings_view(r@) == spec_args_test(archive@, opt_str_view(password)),
{
    let mut a: Vec<String> = Vec::new();
    push_arg(&mut a, "t");
    push_arg(&mut a, "-y");
    push_arg(&mut a, "-bsp1");
    push_arg(&mut a, "-bso0");
    push_string(&mut a, arg_senha(password));
    push_arg(&mut a, archive);
    assert(strings_view(a@) =~= spec_args_test(archive@, opt_str_view(password)));
    a
}

/// The type switch of a format that is created in one step.
pub open spec fn spec_tipo(f: Format) -> Seq<char> {
    match f {
        Format::Zip => "-tzip"@,
        Format::SevenZ => "-t7z"@,
        Format::Tar => "-ttar"@,
        Format::TarGz => "-tgzip"@,
    }
}

/// `a <type> -y -bsp1 -bso0`, the level (`-mx<level>`) but for tar, the
/// password and its encryption switch when there is a password (AES-256
/// for zip, encrypted names for 7z when asked), the archive, `--`, and the
/// inputs. No `-p` at all without a password: creation would ask for one.
pub open spec fn spec_args_create(
    archive: Seq<char>,
    inputs: Seq<Seq<char>>,
    format: Format,
    level: u8,
    password: Option<Seq<char>>,
    encrypt_names: bool,
) -> Seq<Seq<char>> {
    seq!["a"@, spec_tipo(format), "-y"@, "-bsp1"@, "-bso0"@] + (if format != Format::Tar {
        seq!["-mx"@ + decimal(level as nat)]
    } else {
        seq![]
    }) + match password {
        Some(p) => seq![spec_arg_senha(Some(p))] + match format {
            Format::Zip => seq!["-mem=AES256"@],
            Format::SevenZ => if encrypt_names {
                seq!["-mhe=on"@]
            } else {
                seq![]
            },
            _ => seq![],
        },
        None => seq![],
    } + seq![archive, "--"@] + inputs
}

/// The view of the options of a creation.
pub open spec fn options_password(o: CreateOptions) -> Option<Seq<char>> {
    match o.password {
        Some(p) => Some(p@),
        None => None,
    }
}

/// The command line that creates an archive in one step (zip, 7z, tar).
pub fn args_create(archive: &str, inputs: &[String], options: &CreateOptions) -> (r: Vec<String>)
    requires
        options.format != Format::TarGz,
    ensures
        strings_view(r@) == spec_args_create(
            archive@,
            strings_view(inputs@),
            options.format,
            options.level,
            options_password(*options),
            options.encrypt_names,
        ),
{
    let mut a: Vec<String> = Vec::new();
    push_arg(&mut a, "a");
    match options.format {
        Format::Zip => push_arg(&mut a, "-tzip"),
        Format::SevenZ => push_arg(&mut a, "-t7z"),
        Format::Tar => push_arg(&mut a, "-ttar"),
        Format::TarGz => push_arg(&mut a, "-tgzip"),
    }
    push_arg(&mut a, "-y");
    push_arg(&mut a, "-bsp1");
    push_arg(&mut a, "-bso0");
    let ghost s1 = strings_view(a@);
    if options.format != Format::Tar {
        let mut m = String::from_str("-mx");
        let d = decimal_string(options.level as u64);
        push_str(&mut m, d.as_str());
        push_string(&mut a, m);
    }
    let ghost s2 = strings_view(a@);
    match &options.password {
        Some(pw) => {
            push_string(&mut a, arg_senha(Some(pw.as_str())));
            match options.format {
                Format::Zip => push_arg(&mut a, "-mem=AES256"),
                Format::SevenZ => if options.encrypt_names {
                    push_arg(&mut a, "-mhe=on");
                },
                _ => {},
            }
        },
        None => {},
    }
    let ghost s3 = strings_view(a@);
    push_arg(&mut a, archive);
    push_arg(&mut a, "--");
    push_all(&mut a, inputs);
    proof {
        let fmt = options.format;
        let pw = options_password(*options);
        let lv = if fmt != Format::Tar {
            seq!["-mx"@ + decimal(options.level as nat)]
        } else {
            seq![]
        };
        assert(s2 =~= s1 + lv);
        let pv = match pw {
            Some(p) => seq![spec_arg_senha(Some(p))] + match fmt {
                Format::Zip => seq!["-mem=AES256"@],
                Format::SevenZ => if options.encrypt_names {
                    seq!["-mhe=on"@]
                } else {
                    seq![]
                },
                _ => seq![],
            },
            None => seq![],
        };
        assert(s3 =~= s2 + pv);
        assert(s1 =~= seq!["a"@, spec_tipo(fmt), "-y"@, "-bsp1"@, "-bso0"@]);
        assert(strings_view(a@) =~= s3 + seq![archive@, "--"@] + strings_view(inputs@));
    }
    a
}

/// `a -tgzip -y -bsp1 -bso0 -p <archive> <tar>`: the second step of a
/// `.tar.gz`, which compresses the tar made in the first.
pub open spec fn spec_args_gzip(archive: Seq<char>, tar: Seq<char>) -> Seq<Seq<char>> {
    seq!["a"@, "-tgzip"@, "-y"@, "-bsp1"@, "-bso0"@, "-p"@, archive, tar]
}

pub fn args_gzip(archive: &str, tar: &str) -> (r: Vec<String>)
    ensures
        strings_view(r@) == spec_args_gzip(archive@, tar@),
{
    let mut a: Vec<String> = Vec::new();
    push_arg(&mut a, "a");
    push_arg(&mut a, "-tgzip");
    push_arg(&mut a, "-y");
    push_arg(&mut a, "-bsp1");
    push_arg(&mut a, "-bso0");
    push_arg(&mut a, "-p");
    push_arg(&mut a, archive);
    push_arg(&mut a, tar);
    assert(strings_view(a@) =~= spec_args_gzip(archive@, tar@));
    a
}

/// `x -y -bsp1 -bso0 -p -o<dir> <archive>`: unpacks the tar inside a
/// `.tar.gz` into a scratch directory.
pub open spec fn spec_args_tar_interno(archive: Seq<char>, dir: Seq<char>) -> Seq<Seq<char>> {
    seq!["x"@, "-y"@, "-bsp1"@, "-bso0"@, "-p"@, "-o"@ + dir, archive]
}

pub fn args_tar_interno(archive: &str, dir: &str) -> (r: Vec<String>)
    ensures
        strings_view(r@) == spec_args_tar_interno(archive@, dir@),
{
    let mut a: Vec<String> = Vec::new();
    push_arg(&mut a, "x");
    push_arg(&mut a, "-y");
    push_arg(&mut a, "-bsp1");
    push_arg(&mut a, "-bso0");
    push_arg(&mut a, "-p");
    let mut o = String::from_str("-o");
    push_str(&mut o, dir);
    push_string(&mut a, o);
    push_arg(&mut a, archive);
    assert(strings_view(a@) =~= spec_args_tar_interno(archive@, dir@));
    a
}

/// Creating a tar or tar.gz with a password is refused: those formats have
/// no encryption, and the archiver would take the password silently.
pub fn validar_criacao(options: &CreateOptions) -> (r: Result<(), EngineError>)
    ensures
        r is Err <==> ((options.format == Format::Tar || options.format == Format::TarGz)
            && options.password is Some),
        r matches Err(e) ==> e@ == ErrorView::OpcaoNaoSuportada(
            "senha não é suportada em tar/tar.gz"@,
        ),
{
    if (options.format == Format::Tar || options.format == Format::TarGz)
        && options.password.is_some() {
        return Err(
            EngineError::OpcaoNaoSuportada(String::from_str("senha não é suportada em tar/tar.gz")),
        );
    }
    Ok(())
}

/// The first step of a two-step operation reports 0-50%.
pub fn progresso_primeira_metade(p: u8) -> (r: u8)
    ensures
        r == p / 2,
{
    p / 2
}

/// The second step of a two-step operation reports 50-100% (for inputs up
/// to 100).
pub fn progresso_segunda_metade(p: u8) -> (r: u8)
    ensures
        r == 50 + p / 2,
{
    50 + p / 2
}

// ---------------------------------------------------------------------
// Finding the archiver
// ---------------------------------------------------------------------

/// The file names of the archiver binary on a platform.
pub fn nomes_do_binario(windows: bool) -> (r: Vec<String>)
    ensures
        strings_view(r@) == if windows {
            seq!["7z.exe"@, "7zz.exe"@]
        } else {
            seq!["7zz"@]
        },
{
    let mut a: Vec<String> = Vec::new();
    if windows {
        push_arg(&mut a, "7z.exe");
        push_arg(&mut a, "7zz.exe");
    } else {
        push_arg(&mut a, "7zz");
    }
    a
}

/// The directory under `vendor/7zz` for an operating system and
/// architecture; empty where there is none.
pub open spec fn spec_plataforma(os: Seq<char>, arch: Seq<char>) -> Seq<char> {
    if os == "macos"@ {
        "macos"@
    } else if os == "linux"@ && arch == "x86_64"@ {
        "linux-x64"@
    } else if os == "linux"@ && arch == "aarch64"@ {
        "linux-arm64"@
    } else if os == "windows"@ {
        "windows-x64"@
    } else {
        ""@
    }
}

fn str_eq(a: &str, b: &str) -> (r: bool)
    ensures
        r == (a@ == b@),
{
    let x = chars_of(a);
    let y = chars_of(b);
    crate::text::same_chars(x.as_slice(), y.as_slice())
}

pub fn plataforma_vendor(os: &str, arch: &str) -> (r: String)
    ensures
        r@ == spec_plataforma(os@, arch@),
{
    if str_eq(os, "macos") {
        String::from_str("macos")
    } else if str_eq(os, "linux") && str_eq(arch, "x86_64") {
        String::from_str("linux-x64")
    } else if str_eq(os, "linux") && str_eq(arch, "aarch64") {
        String::from_str("linux-arm64")
    } else if str_eq(os, "windows") {
        String::from_str("windows-x64")
    } else {
        String::from_str("")
    }
}

/// Each name under the directory `dir`.
pub open spec fn joined_all(dir: Seq<char>, names: Seq<Seq<char>>) -> Seq<Seq<char>> {
    names.map_values(|n: Seq<char>| path_join(dir, n))
}

/// Each name under each directory of the search path, directory by
/// directory.
pub open spec fn path_candidates(dirs: Seq<Seq<char>>, names: Seq<Seq<char>>) -> Seq<Seq<char>>
    decreases dirs.len(),
{
    if dirs.len() == 0 {
        seq![]
    } else {
        path_candidates(dirs.drop_last(), names) + joined_all(dirs.last(), names)
    }
}

/// The places where the archiver is looked for, in order: the path that
/// `EVEZIP_7ZZ` names; each binary name in the directory of the running
/// program; in the vendored directory of the platform; in each directory
/// of `PATH`.
pub open spec fn spec_candidatos(
    env: Option<Seq<char>>,
    exe_dir: Option<Seq<char>>,
    vendor: Option<Seq<char>>,
    path: Seq<Seq<char>>,
    names: Seq<Seq<char>>,
) -> Seq<Seq<char>> {
    (match env {
        Some(e) => seq![e],
        None => seq![],
    }) + (match exe_dir {
        Some(d) => joined_all(d, names),
        None => seq![],
    }) + (match vendor {
        Some(v) => joined_all(v, names),
        None => seq![],
    }) + path_candidates(path, names)
}

fn push_joined(out: &mut Vec<String>, dir: &str, names: &[String])
    ensures
        strings_view(final(out)@) == strings_view(old(out)@) + joined_all(dir@, strings_view(names@)),
{
    let mut i: usize = 0;
    while i < names.len()
        invariant
            i <= names@.len(),
            strings_view(out@) == strings_view(old(out)@) + joined_all(
                dir@,
                strings_view(names@.take(i as int)),
            ),
        decreases names@.len() - i,
    {
        let j = join_path(dir, names[i].as_str());
        push_string(out, j);
        assert(joined_all(dir@, strings_view(names@.take(i + 1))) =~= joined_all(
            dir@,
            strings_view(names@.take(i as int)),
        ).push(path_join(dir@, names@[i as int]@)));
        i += 1;
    }
    assert(names@.take(names@.len() as int) == names@);
}

/// The vendored directory of a platform under the development root
/// `raiz`: `<raiz>/../../vendor/7zz/<plataforma>`; none for a platform
/// without one.
pub fn dir_vendor(raiz: &str, plataforma: &str) -> (r: Option<String>)
    ensures
        match r {
            Some(d) => plataforma@.len() > 0 && d@ == path_join(
                path_join(raiz@, "../../vendor/7zz"@),
                plataforma@,
            ),
            None => plataforma@.len() == 0,
        },
{
    if plataforma.is_empty() {
        return None;
    }
    let base = join_path(raiz, "../../vendor/7zz");
    Some(join_path(base.as_str(), plataforma))
}

/// The candidate paths of the archiver, in the order of search.
pub fn candidatos(
    env: Option<&str>,
    exe_dir: Option<&str>,
    vendor: Option<&str>,
    path: &[String],
    names: &[String],
) -> (r: Vec<String>)
    ensures
        strings_view(r@) == spec_candidatos(
            opt_str_view(env),
            opt_str_view(exe_dir),
            opt_str_view(vendor),
            strings_view(path@),
            strings_view(names@),
        ),
{
    let mut out: Vec<String> = Vec::new();
    let ghost nv = strings_view(names@);
    match env {
        Some(e) => push_arg(&mut out, e),
        None => {},
    }
    let ghost s1 = strings_view(out@);
    match exe_dir {
        Some(d) => push_joined(&mut out, d, names),
        None => {},
    }
    let ghost s2 = strings_view(out@);
    match vendor {
        Some(v) => push_joined(&mut out, v, names),
        None => {},
    }
    let ghost s3 = strings_view(out@);
    let mut i: usize = 0;
    while i < path.len()
        invariant
            i <= path@.len(),
            nv == strings_view(names@),
            strings_view(out@) == s3 + path_candidates(strings_view(path@.take(i as int)), nv),
        decreases path@.len() - i,
    {
        push_joined(&mut out, path[i].as_str(), names);
        assert(strings_view(path@.take(i + 1)).drop_last() =~= strings_view(path@.take(i as int)));
        assert(strings_view(path@.take(i + 1)).last() == path@[i as int]@);
        i += 1;
    }
    assert(path@.take(path@.len() as int) == path@);
    proof {
        let ev: Seq<Seq<char>> = match opt_str_view(env) {
            Some(e) => seq![e],
            None => seq![],
        };
        assert(s1 =~= ev);
    }
    out
}

impl Engine {
    /// The engine that runs the first of the candidate binaries that
    /// exists (`existe[k]` says whether `candidatos[k]` does), in the order
    /// of search; `BinarioNaoEncontrado` when none does.
    pub fn locate(candidatos: &[String], existe: &[bool]) -> (r: Result<Engine, EngineError>)
        requires
            candidatos@.len() == existe@.len(),
        ensures
            match r {
                Ok(e) => exists|k: int|
                    0 <= k < existe@.len() && existe@[k] && (forall|j: int|
                        0 <= j < k ==> !existe@[j]) && e.spec_bin() == candidatos@[k]@,
                Err(err) => err@ == ErrorView::BinarioNaoEncontrado && forall|j: int|
                    0 <= j < existe@.len() ==> !existe@[j],
            },
    {
        let mut k: usize = 0;
        while k < existe.len()
            invariant
                candidatos@.len() == existe@.len(),
                k <= existe@.len(),
                forall|j: int| 0 <= j < k ==> !existe@[j],
            decreases existe@.len() - k,
        {
            if existe[k] {
                return Ok(Engine { bin: candidatos[k].clone() });
            }
            k += 1;
        }
        Err(EngineError::BinarioNaoEncontrado)
    }

    /// The path of the binary.
    pub fn bin(&self) -> (r: &str)
        ensures
            r@ == self.spec_bin(),
    {
        self.bin.as_str()
    }

    pub closed spec fn spec_bin(&self) -> Seq<char> {
        self.bin@
    }
}

} // verus!
