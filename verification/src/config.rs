//! The user's preferences, read from a TOML document.
use vstd::prelude::*;

use crate::text::{chars_of, same_chars, string_of};

verus! {

/// A value of a TOML document, as far as the preferences read it.
pub enum ValorToml {
    Texto(String),
    Inteiro(i64),
    /// A float, boolean, date, array or table.
    Outro,
}

/// The mathematical value of a [`ValorToml`].
pub enum ValorView {
    Texto(Seq<char>),
    Inteiro(i64),
    Outro,
}

impl View for ValorToml {
    type V = ValorView;

    open spec fn view(&self) -> ValorView {
        match self {
            ValorToml::Texto(s) => ValorView::Texto(s@),
            ValorToml::Inteiro(i) => ValorView::Inteiro(*i),
            ValorToml::Outro => ValorView::Outro,
        }
    }
}

/// The top-level keys of the TOML document `s` with their values, in the
/// order of `toml::Table`; none when `s` is not a TOML document.
pub uninterp spec fn toml_document(s: Seq<char>) -> Option<Seq<(Seq<char>, ValorView)>>;

/// The views of the pairs of a document.
pub open spec fn pairs_view(v: Seq<(String, ValorToml)>) -> Seq<(Seq<char>, ValorView)> {
    v.map_values(|p: (String, ValorToml)| (p.0@, p.1@))
}

/// `toml::Table::from_str` (the crate `toml`), with each value told apart
/// by its variant. Its result is named [`toml_document`].
#[verifier::external_body]
fn ler_toml(s: &str) -> (r: Option<Vec<(String, ValorToml)>>)
    ensures
        match r {
            Some(v) => toml_document(s@) == Some(pairs_view(v@)),
            None => toml_document(s@) is None,
        },
{
    let t = s.parse::<toml::Table>().ok()?;
    Some(t.into_iter().map(|(k, v)| (k, match v {
        toml::Value::String(x) => ValorToml::Texto(x),
        toml::Value::Integer(i) => ValorToml::Inteiro(i),
        toml::Value::Float(_) => ValorToml::Outro,
        toml::Value::Boolean(_) => ValorToml::Outro,
        toml::Value::Datetime(_) => ValorToml::Outro,
        toml::Value::Array(_) => ValorToml::Outro,
        toml::Value::Table(_) => ValorToml::Outro,
    })).collect())
}

/// The preferences.
#[derive(Debug, Clone)]
pub struct Config {
    pub ultima_pasta: Option<String>,
    pub nivel_compressao: u8,
    pub formato_padrao: String,
}

/// The mathematical value of a [`Config`].
pub struct ConfigView {
    pub ultima_pasta: Option<Seq<char>>,
    pub nivel_compressao: u8,
    pub formato_padrao: Seq<char>,
}

impl View for Config {
    type V = ConfigView;

    open spec fn view(&self) -> ConfigView {
        ConfigView {
            ultima_pasta: match self.ultima_pasta {
                Some(p) => Some(p@),
                None => None,
            },
            nivel_compressao: self.nivel_compressao,
            formato_padrao: self.formato_padrao@,
        }
    }
}

/// The preferences before any are saved: no last folder, level 5, 7z.
pub open spec fn default_config() -> ConfigView {
    ConfigView { ultima_pasta: None, nivel_compressao: 5, formato_padrao: "7z"@ }
}

impl Default for Config {
    fn default() -> (c: Config)
        ensures
            c@ == default_config(),
    {
        Config { ultima_pasta: None, nivel_compressao: 5, formato_padrao: String::from_str("7z") }
    }
}

/// The value of the first pair with the key `k`, if any.
pub open spec fn lookup(ps: Seq<(Seq<char>, ValorView)>, k: Seq<char>) -> Option<ValorView>
    decreases ps.len(),
{
    if ps.len() == 0 {
        None
    } else if ps[0].0 == k {
        Some(ps[0].1)
    } else {
        lookup(ps.skip(1), k)
    }
}

/// The preferences that a document's keys give: each missing key takes its
/// default; `ultima_pasta` and `formato_padrao` must be strings and
/// `nivel_compressao` an integer from 0 to 255, or the whole document
/// gives the defaults. Other keys are ignored.
pub open spec fn config_of(ps: Seq<(Seq<char>, ValorView)>) -> ConfigView {
    let up = lookup(ps, "ultima_pasta"@);
    let nv = lookup(ps, "nivel_compressao"@);
    let fp = lookup(ps, "formato_padrao"@);
    let up_ok = match up {
        None => true,
        Some(ValorView::Texto(_)) => true,
        _ => false,
    };
    let nv_ok = match nv {
        None => true,
        Some(ValorView::Inteiro(i)) => 0 <= i <= 255,
        _ => false,
    };
    let fp_ok = match fp {
        None => true,
        Some(ValorView::Texto(_)) => true,
        _ => false,
    };
    if up_ok && nv_ok && fp_ok {
        ConfigView {
            ultima_pasta: match up {
                Some(ValorView::Texto(p)) => Some(p),
                _ => None,
            },
            nivel_compressao: match nv {
                Some(ValorView::Inteiro(i)) => i as u8,
                _ => 5,
            },
            formato_padrao: match fp {
                Some(ValorView::Texto(f)) => f,
                _ => "7z"@,
            },
        }
    } else {
        default_config()
    }
}

/// The preferences in the text `s`: the defaults when it is not a TOML
/// document.
pub open spec fn spec_parse_config(s: Seq<char>) -> ConfigView {
    match toml_document(s) {
        Some(ps) => config_of(ps),
        None => default_config(),
    }
}

/// Finds the value of the key `k` among the pairs.
fn find_key<'a>(ps: &'a [(String, ValorToml)], k: &str) -> (r: Option<&'a ValorToml>)
    ensures
        match r {
            Some(v) => lookup(pairs_view(ps@), k@) == Some(v@),
            None => lookup(pairs_view(ps@), k@) is None,
        },
{
    let key = chars_of(k);
    let mut i: usize = 0;
    assert(pairs_view(ps@).skip(0) == pairs_view(ps@));
    while i < ps.len()
        invariant
            i <= ps@.len(),
            key@ == k@,
            lookup(pairs_view(ps@), k@) == lookup(pairs_view(ps@).skip(i as int), k@),
        decreases ps@.len() - i,
    {
        let name = chars_of(ps[i].0.as_str());
        assert(pairs_view(ps@).skip(i as int)[0] == (ps@[i as int].0@, ps@[i as int].1@));
        if same_chars(name.as_slice(), key.as_slice()) {
            return Some(&ps[i].1);
        }
        assert(pairs_view(ps@).skip(i as int).skip(1) == pairs_view(ps@).skip(i + 1));
        i += 1;
    }
    None
}

fn copy_string(s: &String) -> (r: String)
    ensures
        r@ == s@,
{
    let c = chars_of(s.as_str());
    string_of(c.as_slice())
}

/// The preferences of the document's pairs.
pub fn config_de_pares(ps: &[(String, ValorToml)]) -> (c: Config)
    ensures
        c@ == config_of(pairs_view(ps@)),
{
    let up = find_key(ps, "ultima_pasta");
    let nv = find_key(ps, "nivel_compressao");
    let fp = find_key(ps, "formato_padrao");
    let ultima_pasta = match up {
        None => None,
        Some(ValorToml::Texto(p)) => Some(copy_string(p)),
        _ => return Config::default(),
    };
    let nivel_compressao: u8 = match nv {
        None => 5,
        Some(ValorToml::Inteiro(i)) => if 0 <= *i && *i <= 255 {
            *i as u8
        } else {
            return Config::default();
        },
        _ => return Config::default(),
    };
    let formato_padrao = match fp {
        None => String::from_str("7z"),
        Some(ValorToml::Texto(f)) => copy_string(f),
        _ => return Config::default(),
    };
    Config { ultima_pasta, nivel_compressao, formato_padrao }
}

impl Config {
    /// The preferences in a TOML text; the defaults when it is not TOML or
    /// does not fit.
    pub fn parse(s: &str) -> (c: Config)
        ensures
            c@ == spec_parse_config(s@),
    {
        match ler_toml(s) {
            Some(ps) => config_de_pares(ps.as_slice()),
            None => Config::default(),
        }
    }
}

} // verus!
