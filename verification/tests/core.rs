use std::sync::{Arc, Mutex};

use evezip::browser::{Browser, DiskItem};
use evezip::cancel::CancelToken;
use evezip::config::{config_de_pares, Config, ValorToml};
use evezip::engine_trait::ArchiveEngine;
use evezip::entry::ArchiveEntry;
use evezip::error::EngineError;
use evezip::jobs::{evento_final, executar, JobEvent, JobKind, JobQueue, JobSpec};
use evezip::location::{join_path, mesmo_caminho, parent_path, Location};
use evezip::ops::CreateOptions;
use evezip::tree::ArchiveTree;

// ---------------------------------------------------------------- engines

struct EngineFalso {
    chamadas: Arc<Mutex<u32>>,
}

impl ArchiveEngine for EngineFalso {
    fn list(&mut self, _a: &str, _p: Option<&str>) -> Result<Vec<ArchiveEntry>, EngineError> {
        *self.chamadas.lock().unwrap() += 1;
        Ok(vec![ArchiveEntry {
            path: "src/main.rs".into(),
            size: 10,
            packed_size: 5,
            modified: None,
            is_dir: false,
            encrypted: false,
        }])
    }
    fn extract<F: FnMut(u8)>(
        &self,
        _: &str,
        _: &str,
        _: Option<&[String]>,
        _: Option<&str>,
        _: &mut F,
        _: &CancelToken,
    ) -> Result<(), EngineError> {
        Ok(())
    }
    fn create<F: FnMut(u8)>(
        &self,
        _: &str,
        _: &[String],
        _: &CreateOptions,
        _: &mut F,
        _: &CancelToken,
    ) -> Result<(), EngineError> {
        Ok(())
    }
    fn test<F: FnMut(u8)>(
        &self,
        _: &str,
        _: Option<&str>,
        _: &mut F,
        _: &CancelToken,
    ) -> Result<(), EngineError> {
        Ok(())
    }
}

/// Extraction reports 10, 50 and 100 and stops when cancelled; tests fail.
struct EngineDeJobs;

impl ArchiveEngine for EngineDeJobs {
    fn list(&mut self, _: &str, _: Option<&str>) -> Result<Vec<ArchiveEntry>, EngineError> {
        Ok(vec![])
    }
    fn extract<F: FnMut(u8)>(
        &self,
        _: &str,
        _: &str,
        _: Option<&[String]>,
        _: Option<&str>,
        on_progress: &mut F,
        cancel: &CancelToken,
    ) -> Result<(), EngineError> {
        for p in [10u8, 50, 100] {
            if cancel.is_cancelled() {
                return Err(EngineError::Cancelado);
            }
            on_progress(p);
        }
        Ok(())
    }
    fn create<F: FnMut(u8)>(
        &self,
        _: &str,
        _: &[String],
        _: &CreateOptions,
        _: &mut F,
        _: &CancelToken,
    ) -> Result<(), EngineError> {
        Ok(())
    }
    fn test<F: FnMut(u8)>(
        &self,
        _: &str,
        _: Option<&str>,
        _: &mut F,
        _: &CancelToken,
    ) -> Result<(), EngineError> {
        Err(EngineError::ArchiveCorrompido("CRC".into()))
    }
}

fn falso() -> (EngineFalso, Arc<Mutex<u32>>) {
    let chamadas = Arc::new(Mutex::new(0));
    (EngineFalso { chamadas: chamadas.clone() }, chamadas)
}

// ---------------------------------------------------------------- browser

#[test]
fn lista_archive_com_cache() {
    let (engine, chamadas) = falso();
    let mut b = Browser::new(engine);
    let loc = Location::Archive { archive: "/x/a.7z".into(), inner: String::new() };
    let raiz = b.list(&loc, None, &[]).unwrap();
    assert_eq!(raiz[0].name, "src");
    let dentro = Location::Archive { archive: "/x/a.7z".into(), inner: "src".into() };
    let sub = b.list(&dentro, None, &[]).unwrap();
    assert_eq!(sub[0].name, "main.rs");
    assert_eq!(*chamadas.lock().unwrap(), 1);
}

#[test]
fn detecta_extensoes_de_archive() {
    assert!(Browser::<EngineFalso>::is_archive_file("a.ZIP"));
    assert!(Browser::<EngineFalso>::is_archive_file("b.tar.gz"));
    assert!(!Browser::<EngineFalso>::is_archive_file("c.txt"));
}

#[test]
fn enter_em_dir_de_disco_e_em_archive() {
    let (engine, _) = falso();
    let b = Browser::new(engine);
    let disco = Location::Disk("/x".into());
    assert_eq!(b.enter(&disco, "sub", true), Location::Disk("/x/sub".into()));
    assert_eq!(
        b.enter(&disco, "a.7z", false),
        Location::Archive { archive: "/x/a.7z".into(), inner: String::new() }
    );
}

#[test]
fn enter_em_arquivo_comum_nao_navega() {
    let (engine, _) = falso();
    let b = Browser::new(engine);
    let disco = Location::Disk("/x".into());
    assert_eq!(b.enter(&disco, "nota.txt", false), disco);
    let dentro = Location::Archive { archive: "/x/a.7z".into(), inner: "src".into() };
    assert_eq!(b.enter(&dentro, "main.rs", false), dentro);
    assert_eq!(
        b.enter(&dentro, "sub", true),
        Location::Archive { archive: "/x/a.7z".into(), inner: "src/sub".into() }
    );
}

#[test]
fn extensoes_reconhecidas() {
    for n in ["a.zip", "a.7Z", "a.RAR", "a.tar", "a.gz", "a.tgz"] {
        assert!(Browser::<EngineFalso>::is_archive_file(n), "{n}");
    }
    for n in ["zip", "a.zipx", "a.7z.txt", ""] {
        assert!(!Browser::<EngineFalso>::is_archive_file(n), "{n}");
    }
}

#[test]
fn disco_lista_dirs_primeiro_sem_ocultos() {
    let (engine, chamadas) = falso();
    let mut b = Browser::new(engine);
    let itens = vec![
        DiskItem { name: "b.txt".into(), is_dir: false, len: 3 },
        DiskItem { name: ".oculto".into(), is_dir: true, len: 0 },
        DiskItem { name: "z".into(), is_dir: true, len: 4096 },
        DiskItem { name: "a.txt".into(), is_dir: false, len: 7 },
    ];
    let rows = b.list(&Location::Disk("/x".into()), None, &itens).unwrap();
    let nomes: Vec<&str> = rows.iter().map(|r| r.name.as_str()).collect();
    assert_eq!(nomes, vec!["z", "a.txt", "b.txt"]);
    assert_eq!(rows[0].size, 0);
    assert_eq!(rows[1].size, 7);
    assert_eq!(*chamadas.lock().unwrap(), 0);
}

#[test]
fn caminho_inexistente_no_archive_da_erro() {
    let (engine, _) = falso();
    let mut b = Browser::new(engine);
    let loc = Location::Archive { archive: "/x/a.7z".into(), inner: "nao/existe".into() };
    match b.list(&loc, None, &[]) {
        Err(EngineError::Falha { exit_code, stderr }) => {
            assert_eq!(exit_code, -1);
            assert_eq!(stderr, "caminho não existe no archive: nao/existe");
        }
        outro => panic!("{outro:?}"),
    }
}

#[test]
fn outro_archive_recarrega_a_arvore() {
    let (engine, chamadas) = falso();
    let mut b = Browser::new(engine);
    let a = Location::Archive { archive: "/x/a.7z".into(), inner: String::new() };
    let c = Location::Archive { archive: "/x/c.7z".into(), inner: String::new() };
    b.list(&a, None, &[]).unwrap();
    b.list(&c, None, &[]).unwrap();
    b.list(&c, None, &[]).unwrap();
    assert_eq!(*chamadas.lock().unwrap(), 2);
}

// ---------------------------------------------------------------- config

#[test]
fn default_quando_nao_existe() {
    let c = Config::default();
    assert_eq!(c.nivel_compressao, 5);
    assert_eq!(c.formato_padrao, "7z");
    assert!(c.ultima_pasta.is_none());
}

#[test]
fn roundtrip_toml() {
    let c = Config {
        ultima_pasta: Some("/tmp".into()),
        nivel_compressao: 9,
        formato_padrao: "zip".into(),
    };
    let mut t = toml::Table::new();
    t.insert("ultima_pasta".into(), toml::Value::String(c.ultima_pasta.clone().unwrap()));
    t.insert("nivel_compressao".into(), toml::Value::Integer(c.nivel_compressao as i64));
    t.insert("formato_padrao".into(), toml::Value::String(c.formato_padrao.clone()));
    let s = toml::to_string(&t).unwrap();
    let de = Config::parse(&s);
    assert_eq!(de.nivel_compressao, 9);
    assert_eq!(de.formato_padrao, "zip");
}

#[test]
fn toml_corrompido_vira_default() {
    assert_eq!(Config::parse("isto não é toml [[[").nivel_compressao, 5);
}

#[test]
fn campos_ausentes_usam_default() {
    let c = Config::parse("nivel_compressao = 3\n");
    assert_eq!(c.nivel_compressao, 3);
    assert_eq!(c.formato_padrao, "7z");
    assert!(c.ultima_pasta.is_none());
    let vazio = Config::parse("");
    assert_eq!(vazio.nivel_compressao, 5);
}

#[test]
fn tipo_errado_vira_default() {
    let c = Config::parse("nivel_compressao = \"alto\"\nformato_padrao = \"zip\"\n");
    assert_eq!(c.nivel_compressao, 5);
    assert_eq!(c.formato_padrao, "7z");
    let fora = Config::parse("nivel_compressao = 300\n");
    assert_eq!(fora.nivel_compressao, 5);
}

#[test]
fn pares_com_valores() {
    let c = config_de_pares(&[
        ("formato_padrao".into(), ValorToml::Texto("tar".into())),
        ("extra".into(), ValorToml::Outro),
        ("ultima_pasta".into(), ValorToml::Texto("/home".into())),
    ]);
    assert_eq!(c.formato_padrao, "tar");
    assert_eq!(c.ultima_pasta.as_deref(), Some("/home"));
    assert_eq!(c.nivel_compressao, 5);
}

// ---------------------------------------------------------------- location

#[test]
fn parent_dentro_do_archive() {
    let l = Location::Archive { archive: "/x/a.7z".into(), inner: "src/sub".into() };
    match l.parent().unwrap() {
        Location::Archive { inner, .. } => assert_eq!(inner, "src"),
        _ => panic!(),
    }
}

#[test]
fn parent_da_raiz_do_archive_volta_ao_disco() {
    let l = Location::Archive { archive: "/x/a.7z".into(), inner: String::new() };
    match l.parent().unwrap() {
        Location::Disk(p) => assert_eq!(p, "/x"),
        _ => panic!(),
    }
}

#[test]
fn parent_de_disco() {
    assert!(matches!(Location::Disk("/x/y".into()).parent(), Some(Location::Disk(_))));
    assert!(Location::Disk("/".into()).parent().is_none());
}

#[test]
fn display_de_archive() {
    let l = Location::Archive { archive: "/x/a.7z".into(), inner: "src".into() };
    assert_eq!(l.display(), "/x/a.7z/src/");
}

#[test]
fn display_de_disco_e_raiz_do_archive() {
    assert_eq!(Location::Disk("/x/y".into()).display(), "/x/y");
    let l = Location::Archive { archive: "/x/a.7z".into(), inner: String::new() };
    assert_eq!(l.display(), "/x/a.7z/");
}

#[test]
fn parent_de_caminhos_posix() {
    assert_eq!(parent_path("/x/y").as_deref(), Some("/x"));
    assert_eq!(parent_path("/x").as_deref(), Some("/"));
    assert_eq!(parent_path("/"), None);
    assert_eq!(parent_path("a.7z").as_deref(), Some(""));
    assert_eq!(parent_path("dir/a.7z/").as_deref(), Some("dir"));
    assert_eq!(parent_path(""), None);
}

#[test]
fn junta_caminhos() {
    assert_eq!(join_path("/x", "sub"), "/x/sub");
    assert_eq!(join_path("/x/", "sub"), "/x/sub");
    assert_eq!(join_path("/x", "/abs"), "/abs");
    assert_eq!(join_path("", "a"), "a");
}

#[test]
fn entrar_e_subir_volta_ao_mesmo_lugar() {
    let (engine, _) = falso();
    let b = Browser::new(engine);
    let l = Location::Archive { archive: "/x/a.7z".into(), inner: "src".into() };
    let dentro = b.enter(&l, "sub", true);
    assert_eq!(dentro.parent(), Some(l));
    let raiz = Location::Archive { archive: "/x/a.7z".into(), inner: String::new() };
    let d = b.enter(&raiz, "src", true);
    assert_eq!(d.parent(), Some(raiz));
}

// ---------------------------------------------------------------- tree

fn e(path: &str, is_dir: bool, size: u64) -> ArchiveEntry {
    ArchiveEntry {
        path: path.into(),
        size,
        packed_size: size / 2,
        modified: Some("2026-07-01 10:00:00".into()),
        is_dir,
        encrypted: false,
    }
}

#[test]
fn lista_raiz_com_dirs_primeiro() {
    let t = ArchiveTree::build(&[e("zeta.txt", false, 10), e("src", true, 0), e("src/main.rs", false, 20)]);
    let rows = t.list_dir("").unwrap();
    assert_eq!(rows.len(), 2);
    assert_eq!(rows[0].name, "src");
    assert!(rows[0].is_dir);
    assert_eq!(rows[1].name, "zeta.txt");
}

#[test]
fn lista_subdiretorio() {
    let t = ArchiveTree::build(&[e("src", true, 0), e("src/main.rs", false, 20)]);
    let rows = t.list_dir("src").unwrap();
    assert_eq!(rows.len(), 1);
    assert_eq!(rows[0].name, "main.rs");
    assert_eq!(rows[0].size, 20);
}

#[test]
fn cria_diretorios_intermediarios_implicitos() {
    let t = ArchiveTree::build(&[e("a/b/c.txt", false, 5)]);
    let raiz = t.list_dir("").unwrap();
    assert_eq!(raiz[0].name, "a");
    assert!(raiz[0].is_dir);
    let b = t.list_dir("a/b").unwrap();
    assert_eq!(b[0].name, "c.txt");
}

#[test]
fn caminho_inexistente_retorna_none() {
    let t = ArchiveTree::build(&[e("a.txt", false, 1)]);
    assert!(t.list_dir("nao/existe").is_none());
}

#[test]
fn normaliza_separador_windows() {
    let t = ArchiveTree::build(&[e("src\\main.rs", false, 20)]);
    assert!(t.list_dir("src").is_some());
}

#[test]
fn arquivo_lista_vazio() {
    let t = ArchiveTree::build(&[e("a.txt", false, 1)]);
    assert_eq!(t.list_dir("a.txt").unwrap().len(), 0);
    assert_eq!(t.list_dir("").unwrap().len(), 1);
}

#[test]
fn diretorio_implicito_tem_campos_vazios() {
    let t = ArchiveTree::build(&[e("a/b.txt", false, 8)]);
    let raiz = t.list_dir("").unwrap();
    assert_eq!(raiz.len(), 1);
    assert_eq!(raiz[0].size, 0);
    assert_eq!(raiz[0].packed_size, 0);
    assert_eq!(raiz[0].modified, "");
    let a = t.list_dir("/a/").unwrap();
    assert_eq!(a[0].name, "b.txt");
    assert_eq!(a[0].size, 8);
    assert_eq!(a[0].packed_size, 4);
    assert_eq!(a[0].modified, "2026-07-01 10:00:00");
}

#[test]
fn arvore_vazia_lista_raiz_vazia() {
    let t = ArchiveTree::build(&[]);
    assert_eq!(t.list_dir("").unwrap().len(), 0);
}

// ---------------------------------------------------------------- jobs

fn spec_extract() -> JobSpec {
    JobSpec {
        descricao: "extrair a.7z".into(),
        kind: JobKind::Extract {
            archive: "/x/a.7z".into(),
            dest: "/x/out".into(),
            entries: None,
            password: None,
        },
    }
}

/// Runs a registered job to its end, as a worker thread does, and gives
/// the events that it sent.
fn rodar(q: &mut JobQueue, id: u64, tok: &CancelToken, spec: &JobSpec) -> Vec<JobEvent> {
    let mut evs = vec![JobEvent::Started(id)];
    let mut progresso = Vec::new();
    let resultado = executar(&EngineDeJobs, &spec.kind, &mut |p: u8| progresso.push(p), tok);
    evs.extend(progresso.into_iter().map(|p| JobEvent::Progress(id, p)));
    evs.push(q.concluir(id, resultado));
    evs
}

#[test]
fn job_bem_sucedido_emite_started_progress_done() {
    let mut q = JobQueue::new();
    let (id, tok) = q.registrar();
    let evs = rodar(&mut q, id, &tok, &spec_extract());
    assert!(matches!(evs[0], JobEvent::Started(i) if i == id));
    assert!(matches!(evs[1], JobEvent::Progress(_, 10)));
    assert!(matches!(evs[4], JobEvent::Done(_)));
}

#[test]
fn job_com_erro_emite_failed() {
    let mut q = JobQueue::new();
    let (id, tok) = q.registrar();
    let spec = JobSpec {
        descricao: "testar".into(),
        kind: JobKind::Test { archive: "/x/a.7z".into(), password: None },
    };
    let evs = rodar(&mut q, id, &tok, &spec);
    assert!(matches!(evs[1], JobEvent::Failed(_, EngineError::ArchiveCorrompido(_))));
}

#[test]
fn cancelamento_emite_cancelled() {
    let mut q = JobQueue::new();
    let (id, tok) = q.registrar();
    assert!(q.cancel(id));
    let evs = rodar(&mut q, id, &tok, &spec_extract());
    assert!(matches!(evs[0], JobEvent::Started(_)));
    let ultimo = evs.iter().find(|e| matches!(e, JobEvent::Cancelled(_) | JobEvent::Done(_)));
    assert!(matches!(ultimo, Some(JobEvent::Cancelled(_))));
}

#[test]
fn dois_jobs_concorrentes_completam() {
    let mut q = JobQueue::new();
    let (a, ta) = q.registrar();
    let (b, tb) = q.registrar();
    assert_ne!(a, b);
    let mut evs = rodar(&mut q, a, &ta, &spec_extract());
    evs.extend(rodar(&mut q, b, &tb, &spec_extract()));
    let dones = evs.iter().take(10).filter(|e| matches!(e, JobEvent::Done(_))).count();
    assert_eq!(dones, 2);
}

#[test]
fn ids_comecam_em_um_e_cancel_de_job_encerrado_nao_faz_nada() {
    let mut q = JobQueue::new();
    let (id, tok) = q.registrar();
    assert_eq!(id, 1);
    rodar(&mut q, id, &tok, &spec_extract());
    assert!(!q.cancel(id));
    assert!(!tok.is_cancelled());
    let (id2, _) = q.registrar();
    assert_eq!(id2, 2);
}

#[test]
fn evento_final_por_resultado() {
    assert!(matches!(evento_final(7, Ok(())), JobEvent::Done(7)));
    assert!(matches!(evento_final(7, Err(EngineError::Cancelado)), JobEvent::Cancelled(7)));
    assert!(matches!(
        evento_final(7, Err(EngineError::SenhaIncorreta)),
        JobEvent::Failed(7, EngineError::SenhaIncorreta)
    ));
}

#[test]
fn ultima_entrada_do_mesmo_caminho_vale() {
    let t = ArchiveTree::build(&[e("a.txt", false, 1), e("./a.txt", false, 2), e("b", true, 0)]);
    let rows = t.list_dir("").unwrap();
    assert_eq!(rows.len(), 3);
    let a = rows.iter().find(|r| r.name == "a.txt").unwrap();
    assert_eq!(a.size, 1);
    let t2 = ArchiveTree::build(&[e("a.txt", false, 1), e("a.txt", false, 2)]);
    let rows2 = t2.list_dir("").unwrap();
    assert_eq!(rows2.len(), 1);
    assert_eq!(rows2[0].size, 2);
}

#[test]
fn entrar_e_subir_no_disco() {
    let (engine, _) = falso();
    let b = Browser::new(engine);
    let x = Location::Disk("/x".into());
    assert_eq!(b.enter(&x, "sub", true).parent(), Some(x.clone()));
    assert_eq!(b.enter(&x, "a.7z", false).parent(), Some(x.clone()));
    let raiz = Location::Disk("/".into());
    assert_eq!(b.enter(&raiz, "home", true).parent(), Some(raiz));
}

#[test]
fn entrada_segura_fica_dentro_do_destino() {
    let alvo = join_path("/tmp/p", "a/b.txt");
    assert!(alvo.starts_with("/tmp/p/"));
    assert_eq!(join_path("/tmp/p/", "c"), "/tmp/p/c");
}

#[test]
fn caminhos_de_disco_comparam_por_componentes() {
    assert_eq!(Location::Disk("a/".into()), Location::Disk("a".into()));
    assert_eq!(Location::Disk("/x/./y//".into()), Location::Disk("/x/y".into()));
    assert_ne!(Location::Disk("./a".into()), Location::Disk("a".into()));
    assert_ne!(Location::Disk("/a".into()), Location::Disk("a".into()));
    assert!(mesmo_caminho("//", "/"));
    assert!(!mesmo_caminho("", "."));
    assert!(!mesmo_caminho("a/..", "a"));
    assert_ne!(
        Location::Archive { archive: "/x/a.7z".into(), inner: "src".into() },
        Location::Archive { archive: "/x/a.7z".into(), inner: "src/".into() }
    );
}

#[test]
fn entrar_e_subir_de_diretorio_com_barra_final() {
    let (engine, _) = falso();
    let b = Browser::new(engine);
    for d in ["a/", "a/.", "./", "//", "", "/x/../y"] {
        let loc = Location::Disk(d.into());
        assert_eq!(b.enter(&loc, "n", true).parent(), Some(loc.clone()), "{d}");
        assert_eq!(b.enter(&loc, "..", true).parent(), Some(loc.clone()), "{d}");
    }
}

#[test]
fn cache_reconhece_o_mesmo_archive_escrito_de_outro_jeito() {
    let (engine, chamadas) = falso();
    let mut b = Browser::new(engine);
    let a = Location::Archive { archive: "/x/a.7z".into(), inner: String::new() };
    let a2 = Location::Archive { archive: "/x//a.7z".into(), inner: "src".into() };
    b.list(&a, None, &[]).unwrap();
    assert_eq!(b.list(&a2, None, &[]).unwrap()[0].name, "main.rs");
    assert_eq!(*chamadas.lock().unwrap(), 1);
}

#[test]
fn erro_do_engine_volta_e_nao_guarda_cache() {
    struct Quebrado(Arc<Mutex<u32>>);
    impl ArchiveEngine for Quebrado {
        fn list(&mut self, _: &str, p: Option<&str>) -> Result<Vec<ArchiveEntry>, EngineError> {
            *self.0.lock().unwrap() += 1;
            assert_eq!(p, Some("s3nha"));
            Err(EngineError::SenhaIncorreta)
        }
        fn extract<F: FnMut(u8)>(&self, _: &str, _: &str, _: Option<&[String]>, _: Option<&str>, _: &mut F, _: &CancelToken) -> Result<(), EngineError> { Ok(()) }
        fn create<F: FnMut(u8)>(&self, _: &str, _: &[String], _: &CreateOptions, _: &mut F, _: &CancelToken) -> Result<(), EngineError> { Ok(()) }
        fn test<F: FnMut(u8)>(&self, _: &str, _: Option<&str>, _: &mut F, _: &CancelToken) -> Result<(), EngineError> { Ok(()) }
    }
    let n = Arc::new(Mutex::new(0));
    let mut b = Browser::new(Quebrado(n.clone()));
    let a = Location::Archive { archive: "/x/a.7z".into(), inner: String::new() };
    assert!(matches!(b.list(&a, Some("s3nha"), &[]), Err(EngineError::SenhaIncorreta)));
    assert!(matches!(b.list(&a, Some("s3nha"), &[]), Err(EngineError::SenhaIncorreta)));
    assert_eq!(*n.lock().unwrap(), 2);
}
