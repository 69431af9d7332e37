use std::sync::{Arc, Mutex};

use evezip::browser::DiskItem;
use evezip::cancel::CancelToken;
use evezip::cli::{destino_padrao, parse, Cli};
use evezip::engine_trait::ArchiveEngine;
use evezip::entry::ArchiveEntry;
use evezip::error::EngineError;
use evezip::file_url::{file_url_bytes_para_path, percent_decode};
use evezip::format::tamanho_humano;
use evezip::location::Location;
use evezip::pending::{fourcc, Pendentes};
use evezip::preview::selecao_de_preview;
use evezip::ops::CreateOptions;
use evezip::row::Row;
use evezip::ui::{celulas, linhas_para_modelo, texto_de_erro, App, Tela};

// ---------------------------------------------------------------- cli

fn v(a: &[&str]) -> Vec<String> {
    a.iter().map(|s| s.to_string()).collect()
}

#[test]
fn sem_args_abre_ui() {
    assert_eq!(parse(&[]).unwrap(), Cli::Abrir(None));
}

#[test]
fn com_caminho_abre_no_archive() {
    assert_eq!(parse(&v(&["/x/a.7z"])).unwrap(), Cli::Abrir(Some("/x/a.7z".into())));
}

#[test]
fn x_extrai() {
    assert_eq!(
        parse(&v(&["x", "/x/a.7z"])).unwrap(),
        Cli::Extrair { archive: "/x/a.7z".into(), dest: None }
    );
    assert_eq!(
        parse(&v(&["x", "/x/a.7z", "-o", "/out"])).unwrap(),
        Cli::Extrair { archive: "/x/a.7z".into(), dest: Some("/out".into()) }
    );
}

#[test]
fn x_sem_archive_da_erro() {
    assert!(parse(&v(&["x"])).is_err());
    assert!(parse(&v(&["x", "/a.7z", "-o"])).is_err());
}

#[test]
fn mensagens_de_uso() {
    assert_eq!(parse(&v(&["x"])).unwrap_err(), "uso: evezip x <archive> [-o <destino>]");
    assert_eq!(
        parse(&v(&["x", "/a.7z", "-d", "/out"])).unwrap_err(),
        "uso: evezip x <archive> [-o <destino>]"
    );
    assert_eq!(
        parse(&v(&["a.7z", "b.7z"])).unwrap_err(),
        "uso: evezip [<archive>] | evezip x <archive> [-o <destino>]"
    );
}

#[test]
fn destino_padrao_bare_usa_diretorio_atual() {
    assert_eq!(destino_padrao("a.7z", None), ".");
    assert_eq!(destino_padrao("bare.7z", None), ".");
}

#[test]
fn destino_padrao_com_dir_usa_parent() {
    assert_eq!(destino_padrao("dir/a.7z", None), "dir");
    assert_eq!(destino_padrao("/x/a.7z", None), "/x");
}

#[test]
fn destino_padrao_explicito_passa_direto() {
    assert_eq!(destino_padrao("bare.7z", Some("/out".into())), "/out");
}

#[test]
fn destino_padrao_da_raiz() {
    assert_eq!(destino_padrao("/", None), ".");
    assert_eq!(destino_padrao("/a.7z", None), "/");
}

// ---------------------------------------------------------------- format

#[test]
fn formata() {
    assert_eq!(tamanho_humano(0), "0 B");
    assert_eq!(tamanho_humano(999), "999 B");
    assert_eq!(tamanho_humano(1024), "1,0 KB");
    assert_eq!(tamanho_humano(14 * 1024), "14,0 KB");
    assert_eq!(tamanho_humano(5 * 1024 * 1024), "5,0 MB");
    assert_eq!(tamanho_humano(3 * 1024 * 1024 * 1024), "3,0 GB");
}

#[test]
fn formata_limites_e_arredondamento() {
    assert_eq!(tamanho_humano(1023), "1023 B");
    assert_eq!(tamanho_humano(1536), "1,5 KB");
    assert_eq!(tamanho_humano(1280), "1,2 KB");
    assert_eq!(tamanho_humano(1048575), "1024,0 KB");
    assert_eq!(tamanho_humano(1024u64.pow(4)), "1,0 TB");
    assert_eq!(tamanho_humano(u64::MAX), "16777216,0 TB");
}

/// The same text as formatting the value as a float with one decimal.
fn como_float(bytes: u64) -> String {
    if bytes < 1024 {
        return format!("{bytes} B");
    }
    let mut v = bytes as f64;
    let mut unidade = "";
    for u in ["KB", "MB", "GB", "TB"] {
        v /= 1024.0;
        unidade = u;
        if v < 1024.0 {
            break;
        }
    }
    format!("{:.1} {}", v, unidade).replace('.', ",")
}

#[test]
fn formata_como_float_em_muitos_valores() {
    let mut x: u64 = 1;
    let mut casos = Vec::new();
    while x < u64::MAX / 3 {
        casos.push(x);
        casos.push(x + 1);
        casos.push(x.wrapping_mul(3) / 2);
        x = x * 3 + 7;
    }
    for k in 1..5u32 {
        let p = 1024u64.pow(k);
        for d in [1u64, 51, 52, 102, 103, 512, 1023] {
            casos.push(p + p / 1024 * d);
            casos.push(p * 1023 + d);
        }
    }
    casos.push(u64::MAX);
    casos.push(u64::MAX - 1);
    casos.push((1u64 << 53) + 1);
    for b in casos {
        assert_eq!(tamanho_humano(b), como_float(b), "{b}");
    }
}

// ---------------------------------------------------------------- file URLs

#[test]
fn decodifica_file_url_simples() {
    let p = file_url_bytes_para_path(b"file:///Users/diogo/Downloads/chrome-qa-loop.zip").unwrap();
    assert_eq!(p, "/Users/diogo/Downloads/chrome-qa-loop.zip");
}

#[test]
fn decodifica_espacos_e_acentos() {
    let p = file_url_bytes_para_path(
        "file:///Users/diogo/pasta%20com%20espa%C3%A7o/relat%C3%B3rio.7z".as_bytes(),
    )
    .unwrap();
    assert_eq!(p, "/Users/diogo/pasta com espaço/relatório.7z");
}

#[test]
fn rejeita_sem_esquema_file() {
    assert!(file_url_bytes_para_path(b"/Users/diogo/x.zip").is_none());
    assert!(file_url_bytes_para_path(b"http://exemplo/x.zip").is_none());
}

#[test]
fn percent_decode_percentual_invalido_fica_literal() {
    assert_eq!(percent_decode("a%zzb"), b"a%zzb");
    assert_eq!(percent_decode("fim%2"), b"fim%2");
}

#[test]
fn file_url_vazia_ou_invalida() {
    assert!(file_url_bytes_para_path(b"file://").is_none());
    assert!(file_url_bytes_para_path(b"file:///a%FFb").is_none());
    assert!(file_url_bytes_para_path(&[0x66, 0xFF]).is_none());
    assert_eq!(percent_decode("%41%62%2f"), b"Ab/");
    assert_eq!(percent_decode("100%"), b"100%");
}

// ---------------------------------------------------------------- window state

struct EngineFalso {
    chamadas: Arc<Mutex<u32>>,
}

impl ArchiveEngine for EngineFalso {
    fn list(&mut self, archive: &str, _p: Option<&str>) -> Result<Vec<ArchiveEntry>, EngineError> {
        *self.chamadas.lock().unwrap() += 1;
        if archive.ends_with("falso.7z") {
            return Err(EngineError::ArchiveCorrompido("nao sou um archive".into()));
        }
        Ok(vec![
            ArchiveEntry {
                path: "conteudo/a.txt".into(),
                size: 2048,
                packed_size: 0,
                modified: Some("2026-07-02 08:30:11".into()),
                is_dir: false,
                encrypted: false,
            },
            ArchiveEntry {
                path: "conteudo/sub/b.txt".into(),
                size: 1,
                packed_size: 1,
                modified: None,
                is_dir: false,
                encrypted: false,
            },
        ])
    }
    fn extract<F: FnMut(u8)>(
        &self,
        _: &str,
        _: &str,
        _: Option<&[String]>,
        _: Option<&str>,
        _: &mut F,
        _: &CancelToken,
    ) -> Result<(), EngineError> {
        Ok(())
    }
    fn create<F: FnMut(u8)>(
        &self,
        _: &str,
        _: &[String],
        _: &CreateOptions,
        _: &mut F,
        _: &CancelToken,
    ) -> Result<(), EngineError> {
        Ok(())
    }
    fn test<F: FnMut(u8)>(
        &self,
        _: &str,
        _: Option<&str>,
        _: &mut F,
        _: &CancelToken,
    ) -> Result<(), EngineError> {
        Ok(())
    }
}

fn estado(inicial: Location) -> App<EngineFalso> {
    App::new(EngineFalso { chamadas: Arc::new(Mutex::new(0)) }, inicial)
}

fn disco_x() -> Vec<DiskItem> {
    vec![
        DiskItem { name: "teste.7z".into(), is_dir: false, len: 300 },
        DiskItem { name: "falso.7z".into(), is_dir: false, len: 18 },
        DiskItem { name: "pasta".into(), is_dir: true, len: 0 },
    ]
}

#[test]
fn celulas_de_linhas() {
    let dir = Row { name: "src".into(), size: 0, packed_size: 0, modified: String::new(), is_dir: true };
    assert_eq!(celulas(&dir), vec!["📁 src", "—", "", ""]);
    let arq = Row {
        name: "a.txt".into(),
        size: 2048,
        packed_size: 1024,
        modified: "2026-07-02".into(),
        is_dir: false,
    };
    assert_eq!(celulas(&arq), vec!["📄 a.txt", "2,0 KB", "1,0 KB", "2026-07-02"]);
    assert_eq!(linhas_para_modelo(&[dir, arq]).len(), 2);
}

#[test]
fn navega_no_disco_e_dentro_do_archive() {
    let mut s = estado(Location::Disk("/x".into()));
    match s.recarregar(&disco_x()) {
        Tela::Listagem { caminho, status, linhas } => {
            assert_eq!(caminho, "/x");
            assert_eq!(status, "3 itens");
            assert_eq!(linhas[0][0], "📁 pasta");
            assert_eq!(linhas[1][0], "📄 falso.7z");
        }
        Tela::Erro { status } => panic!("{status}"),
    }
    // the archive is the third row; a double click opens it
    assert_eq!(s.clique(2, 1000), None);
    let nova = s.clique(2, 1200).unwrap();
    assert_eq!(nova, Location::Archive { archive: "/x/teste.7z".into(), inner: String::new() });
    assert!(s.navegar(nova, &[]).is_ok());
    match s.recarregar(&[]) {
        Tela::Listagem { caminho, status, .. } => {
            assert_eq!(caminho, "/x/teste.7z/");
            assert_eq!(status, "1 itens");
        }
        Tela::Erro { status } => panic!("{status}"),
    }
    assert!(s.subir());
    assert_eq!(s.state.location, Location::Disk("/x".into()));
}

#[test]
fn clique_lento_nao_e_duplo() {
    let mut s = estado(Location::Disk("/x".into()));
    s.recarregar(&disco_x());
    assert_eq!(s.clique(0, 1000), None);
    assert_eq!(s.clique(0, 1400), None);
    assert_eq!(s.state.ultimo_clique, Some((0, 1400)));
    assert_eq!(s.clique(1, 1500), None);
    assert_eq!(s.clique(0, 1600), None);
    assert_eq!(s.clique(0, 1700), Some(Location::Disk("/x/pasta".into())));
    assert_eq!(s.state.ultimo_clique, None);
}

#[test]
fn archive_corrompido_nao_navega() {
    let mut s = estado(Location::Disk("/x".into()));
    s.recarregar(&disco_x());
    let nova = Location::Archive { archive: "/x/falso.7z".into(), inner: String::new() };
    let erro = s.navegar(nova, &[]).unwrap_err();
    assert_eq!(texto_de_erro(&erro), "Erro: archive corrompido: nao sou um archive");
    assert_eq!(s.state.location, Location::Disk("/x".into()));
    let mut e = estado(Location::Archive { archive: "/x/falso.7z".into(), inner: String::new() });
    match e.recarregar(&[]) {
        Tela::Erro { status } => assert_eq!(status, "Erro: archive corrompido: nao sou um archive"),
        Tela::Listagem { .. } => panic!("listou um archive corrompido"),
    }
    assert!(e.state.rows.is_empty());
}

#[test]
fn subir_da_raiz_nao_move() {
    let mut s = estado(Location::Disk("/".into()));
    assert!(!s.subir());
    assert_eq!(s.state.location, Location::Disk("/".into()));
}

// ---------------------------------------------------------------- opened files

#[test]
fn pendentes_sao_drenados_em_ordem() {
    let mut p = Pendentes::new();
    assert!(p.receber_url(b"file:///a/x.zip"));
    assert!(!p.receber_url(b"http://exemplo/y.zip"));
    assert!(p.receber_url(b"file:///b/y%20z.7z"));
    assert_eq!(p.take_pending(), vec!["/a/x.zip".to_string(), "/b/y z.7z".to_string()]);
    assert!(p.take_pending().is_empty());
    assert!(p.receber_url(b"file:///c.rar"));
    assert_eq!(p.take_pending(), vec!["/c.rar".to_string()]);
}

// ---------------------------------------------------------------- preview

#[test]
fn preview_seleciona_so_a_entrada() {
    assert_eq!(selecao_de_preview("sub/nota.txt").unwrap(), vec!["sub/nota.txt".to_string()]);
}

#[test]
fn rejeita_entry_path_com_traversal_antes_de_extrair() {
    match selecao_de_preview("../../../etc/passwd") {
        Err(EngineError::CaminhoInvalido(p)) => assert_eq!(p, "../../../etc/passwd"),
        outro => panic!("{outro:?}"),
    }
    assert!(selecao_de_preview("/etc/passwd").is_err());
}

#[test]
fn itens_de_evento_de_abertura() {
    let mut p = Pendentes::new();
    let mut buf = b"file:///a/b.zip".to_vec();
    buf.resize(64, 0);
    assert!(p.receber_item(0, &buf, 15));
    assert!(!p.receber_item(-1, &buf, 15));
    assert!(!p.receber_item(0, &buf, 0));
    assert!(p.receber_item(0, b"file:///c.7z", 100));
    assert_eq!(p.take_pending(), vec!["/a/b.zip".to_string(), "/c.7z".to_string()]);
}

#[test]
fn codigos_de_quatro_letras() {
    assert_eq!(fourcc(b"odoc"), 0x6f64_6f63);
    assert_eq!(fourcc(b"aevt"), u32::from_be_bytes(*b"aevt"));
    assert_eq!(fourcc(b"----"), 0x2d2d_2d2d);
}
