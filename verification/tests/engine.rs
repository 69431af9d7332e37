use evezip::error::EngineError;
use evezip::ops::{
    ajustar_erro_de_senha, args_create, args_extract, args_gzip, args_list, args_tar_interno,
    args_test, candidatos, concluir_listagem, concluir_operacao, dir_vendor, eh_targz, entrada_segura, nomes_do_binario, plataforma_vendor,
    progresso_primeira_metade, progresso_segunda_metade, validar_criacao, validar_selecao,
    CreateOptions, Engine, Format,
};
use evezip::parse_list::parse_slt;
use evezip::parse_progress::{parse_progress, ProgressScanner};
use evezip::runner::{classificar_erro, mapear_erro, resultado_execucao, trim_string};

const SAIDA_7Z: &str = "\
7-Zip (z) 25.01 (arm64)

Listing archive: test.7z

--
Path = test.7z
Type = 7z
Method = LZMA2

----------
Path = src
Folder = +
Size = 0
Packed Size = 0
Modified = 2026-07-01 10:00:00
Attributes = D drwxr-xr-x

Path = src/main.rs
Folder = -
Size = 1234
Packed Size = 600
Modified = 2026-07-02 08:30:11
Attributes = A -rw-r--r--
Encrypted = -

Path = src/segrêdo çedilha.txt
Folder = -
Size = 42
Packed Size = 48
Modified = 2026-07-03 23:59:59
Encrypted = +
";

#[test]
fn parseia_diretorio_arquivo_e_unicode() {
    let e = parse_slt(SAIDA_7Z);
    assert_eq!(e.len(), 3);

    assert_eq!(e[0].path, "src");
    assert!(e[0].is_dir);

    assert_eq!(e[1].path, "src/main.rs");
    assert!(!e[1].is_dir);
    assert_eq!(e[1].size, 1234);
    assert_eq!(e[1].packed_size, 600);
    assert_eq!(e[1].modified.as_deref(), Some("2026-07-02 08:30:11"));
    assert!(!e[1].encrypted);

    assert_eq!(e[2].path, "src/segrêdo çedilha.txt");
    assert!(e[2].encrypted);
}

#[test]
fn detecta_diretorio_por_attributes_quando_nao_ha_folder() {
    let saida = "\
----------
Path = docs
Size = 0
Packed Size = 0
Attributes = D
";
    let e = parse_slt(saida);
    assert_eq!(e.len(), 1);
    assert!(e[0].is_dir);
}

#[test]
fn campos_ausentes_viram_default() {
    let saida = "\
----------
Path = a.txt
";
    let e = parse_slt(saida);
    assert_eq!(e[0].size, 0);
    assert_eq!(e[0].modified, None);
    assert!(!e[0].is_dir);
    assert!(!e[0].encrypted);
}

#[test]
fn ignora_cabecalho_antes_do_separador() {
    assert!(parse_slt("7-Zip banner\nPath = nao-e-entrada\n").is_empty());
}

#[test]
fn aceita_saida_com_crlf() {
    let saida = "----------\r\nPath = src\r\nFolder = +\r\nSize = 0\r\nPacked Size = 0\r\n\r\nPath = src/main.rs\r\nFolder = -\r\nSize = 1234\r\nPacked Size = 600\r\n";
    let e = parse_slt(saida);
    assert_eq!(e.len(), 2);

    assert_eq!(e[0].path, "src");
    assert!(e[0].is_dir);
    assert_eq!(e[0].size, 0);

    assert_eq!(e[1].path, "src/main.rs");
    assert!(!e[1].is_dir);
    assert_eq!(e[1].size, 1234);
}

#[test]
fn parse_slt_para_no_segundo_separador_e_aceita_valores_soltos() {
    let saida = "----------\nPath = a\nSize =  +17 \nPacked Size = lixo\nModified =   \nEncrypted = +\nEncrypted = -\n----------\nPath = b\n";
    let e = parse_slt(saida);
    assert_eq!(e.len(), 1);
    assert_eq!(e[0].path, "a");
    assert_eq!(e[0].size, 17);
    assert_eq!(e[0].packed_size, 0);
    assert_eq!(e[0].modified, None);
    assert!(!e[0].encrypted);
}

#[test]
fn parse_slt_tamanho_que_nao_cabe_em_u64_vira_zero() {
    let e = parse_slt("----------\nPath = a\nSize = 18446744073709551616\nPacked Size = 18446744073709551615\n");
    assert_eq!(e[0].size, 0);
    assert_eq!(e[0].packed_size, u64::MAX);
}

#[test]
fn parse_slt_bloco_sem_path_nao_gera_entrada_e_path_mantem_espacos() {
    let e = parse_slt("----------\nSize = 3\n\nPath =  com espaço \nKey sem igual\n");
    assert_eq!(e.len(), 1);
    assert_eq!(e[0].path, " com espaço ");
}

#[test]
fn extrai_percentual() {
    assert_eq!(parse_progress("  4% 12 - src/main.rs"), Some(4));
    assert_eq!(parse_progress(" 47%"), Some(47));
    assert_eq!(parse_progress("100% 3 - x"), Some(100));
}

#[test]
fn ignora_linhas_sem_percentual() {
    assert_eq!(parse_progress("Everything is Ok"), None);
    assert_eq!(parse_progress(""), None);
    assert_eq!(parse_progress("arquivo 50porcento.txt"), None);
}

#[test]
fn nao_confunde_percentual_no_nome_de_arquivo() {
    assert_eq!(parse_progress("- foto 100%.jpg"), None);
}

#[test]
fn percentual_acima_de_cem_e_limitado_e_fora_de_u16_e_ignorado() {
    assert_eq!(parse_progress("250%"), Some(100));
    assert_eq!(parse_progress("65535%"), Some(100));
    assert_eq!(parse_progress("65536%"), None);
    assert_eq!(parse_progress("+5%"), None);
    assert_eq!(parse_progress("%"), None);
}

#[test]
fn scanner_independe_dos_pedacos() {
    let texto = "  4% 1 - a\r 50% 2 - b\r\nEverything is Ok\n100%";
    let mut inteiro = ProgressScanner::new();
    let mut a = inteiro.feed(texto);
    if let Some(p) = inteiro.finish() {
        a.push(p);
    }
    assert_eq!(a, vec![4, 50, 100]);

    let mut em_pedacos = ProgressScanner::new();
    let mut b = Vec::new();
    for pedaco in ["  4", "% 1 - a\r 5", "0% 2 - b\r", "\nEverything is Ok\n10", "0%"] {
        b.extend(em_pedacos.feed(pedaco));
    }
    if let Some(p) = em_pedacos.finish() {
        b.push(p);
    }
    assert_eq!(a, b);
}

#[test]
fn caminho_normal_e_seguro() {
    assert!(entrada_segura("src/main.rs"));
}

#[test]
fn caminho_unicode_e_seguro() {
    assert!(entrada_segura("relatório/nota (ção).txt"));
}

#[test]
fn traversal_simples_e_inseguro() {
    assert!(!entrada_segura("../etc"));
}

#[test]
fn traversal_no_meio_do_caminho_e_inseguro() {
    assert!(!entrada_segura("a/../../b"));
}

#[test]
fn traversal_com_barra_invertida_e_inseguro() {
    assert!(!entrada_segura("a\\..\\..\\b"));
}

#[test]
fn caminho_absoluto_unix_e_inseguro() {
    assert!(!entrada_segura("/abs"));
}

#[test]
fn caminho_absoluto_windows_e_inseguro() {
    assert!(!entrada_segura("C:\\Windows\\system.ini"));
    assert!(!entrada_segura("\\\\servidor\\share\\arquivo"));
}

#[test]
fn nome_de_switch_continua_seguro() {
    assert!(entrada_segura("-y"));
}

#[test]
fn pontos_que_nao_sao_componente_sao_seguros() {
    assert!(entrada_segura("a..b/..c/d.."));
    assert!(entrada_segura("./a"));
    assert!(!entrada_segura("a/.."));
    assert!(entrada_segura("é:/x"));
}

#[test]
fn mapeamento_de_stderr() {
    assert!(matches!(
        mapear_erro(2, "ERROR: Data Error in encrypted file. Wrong password?"),
        EngineError::SenhaIncorreta
    ));
    assert!(matches!(
        mapear_erro(2, "Cannot open encrypted archive. Wrong password?"),
        EngineError::SenhaIncorreta
    ));
    assert!(matches!(
        mapear_erro(2, "ERROR: CRC Failed : a.txt"),
        EngineError::ArchiveCorrompido(_)
    ));
    assert!(matches!(
        mapear_erro(2, "Headers Error"),
        EngineError::ArchiveCorrompido(_)
    ));
    assert!(matches!(
        mapear_erro(2, "ERROR: No space left on device"),
        EngineError::SemEspacoEmDisco
    ));
    assert!(matches!(
        mapear_erro(1, "algum aviso"),
        EngineError::Falha { exit_code: 1, .. }
    ));
}

#[test]
fn erro_guarda_stderr_sem_espacos_nas_pontas() {
    match mapear_erro(2, "  Is not archive \n") {
        EngineError::ArchiveCorrompido(d) => assert_eq!(d, "Is not archive"),
        e => panic!("{e:?}"),
    }
    match mapear_erro(7, "\tnada\n") {
        EngineError::Falha { exit_code, stderr } => {
            assert_eq!(exit_code, 7);
            assert_eq!(stderr, "nada");
        }
        e => panic!("{e:?}"),
    }
    assert!(matches!(mapear_erro(2, "Not enough space"), EngineError::SemEspacoEmDisco));
    assert!(matches!(classificar_erro(2, "wrong password", "X"), EngineError::SenhaIncorreta));
    assert_eq!(trim_string("\u{3000} a b \u{a0}"), "a b");
}

#[test]
fn resultado_da_execucao() {
    assert_eq!(resultado_execucao(false, Some(0), "saida".to_string(), "").unwrap(), "saida");
    assert!(matches!(
        resultado_execucao(true, Some(0), "saida".to_string(), ""),
        Err(EngineError::Cancelado)
    ));
    assert!(matches!(
        resultado_execucao(false, None, String::new(), ""),
        Err(EngineError::Cancelado)
    ));
    assert!(matches!(
        resultado_execucao(false, Some(2), String::new(), "CRC Failed"),
        Err(EngineError::ArchiveCorrompido(_))
    ));
}

#[test]
fn mensagens_de_erro() {
    assert_eq!(EngineError::SenhaIncorreta.mensagem(), "senha incorreta");
    assert_eq!(
        EngineError::ArchiveCorrompido("x".into()).mensagem(),
        "archive corrompido: x"
    );
    assert_eq!(
        EngineError::Falha { exit_code: -1, stderr: "e".into() }.mensagem(),
        "7zz falhou (código -1): e"
    );
    assert_eq!(
        EngineError::Falha { exit_code: 255, stderr: "".into() }.mensagem(),
        "7zz falhou (código 255): "
    );
    assert_eq!(
        EngineError::Falha { exit_code: i32::MIN, stderr: "".into() }.mensagem(),
        "7zz falhou (código -2147483648): "
    );
}

#[test]
fn senha_errada_sem_senha_vira_senha_necessaria() {
    assert!(matches!(
        ajustar_erro_de_senha(EngineError::SenhaIncorreta, None),
        EngineError::SenhaNecessaria
    ));
    assert!(matches!(
        ajustar_erro_de_senha(EngineError::SenhaIncorreta, Some("x")),
        EngineError::SenhaIncorreta
    ));
    assert!(matches!(
        ajustar_erro_de_senha(EngineError::Cancelado, None),
        EngineError::Cancelado
    ));
}

#[test]
fn targz_por_extensao_sem_caixa() {
    assert!(eh_targz("/x/a.TAR.GZ"));
    assert!(eh_targz("b.tgz"));
    assert!(!eh_targz("c.gz"));
    assert!(!eh_targz("d.tar"));
}

fn v(a: &[&str]) -> Vec<String> {
    a.iter().map(|s| s.to_string()).collect()
}

#[test]
fn linhas_de_comando() {
    assert_eq!(args_list("a.7z", None), v(&["l", "-slt", "-y", "-p", "a.7z"]));
    assert_eq!(args_list("a.7z", Some("s")), v(&["l", "-slt", "-y", "-ps", "a.7z"]));
    assert_eq!(
        args_extract("a.zip", "/d", None, None),
        v(&["x", "-y", "-bsp1", "-bso0", "-p", "-o/d", "a.zip"])
    );
    let sel = v(&["-y", "in/a.txt"]);
    assert_eq!(
        args_extract("a.zip", "/d", Some(&sel), Some("k")),
        v(&["x", "-y", "-bsp1", "-bso0", "-pk", "-o/d", "a.zip", "--", "-y", "in/a.txt"])
    );
    assert_eq!(args_test("a.7z", None), v(&["t", "-y", "-bsp1", "-bso0", "-p", "a.7z"]));
    assert_eq!(
        args_gzip("a.tar.gz", "a.tar.evezip-tmp"),
        v(&["a", "-tgzip", "-y", "-bsp1", "-bso0", "-p", "a.tar.gz", "a.tar.evezip-tmp"])
    );
    assert_eq!(
        args_tar_interno("a.tgz", "/tmp/t"),
        v(&["x", "-y", "-bsp1", "-bso0", "-p", "-o/tmp/t", "a.tgz"])
    );
}

#[test]
fn linha_de_criacao() {
    let ins = v(&["in"]);
    let zip = CreateOptions { format: Format::Zip, level: 5, password: Some("pw".into()), encrypt_names: true };
    assert_eq!(
        args_create("o.zip", &ins, &zip),
        v(&["a", "-tzip", "-y", "-bsp1", "-bso0", "-mx5", "-ppw", "-mem=AES256", "o.zip", "--", "in"])
    );
    let sete = CreateOptions { format: Format::SevenZ, level: 9, password: Some("pw".into()), encrypt_names: true };
    assert_eq!(
        args_create("o.7z", &ins, &sete),
        v(&["a", "-t7z", "-y", "-bsp1", "-bso0", "-mx9", "-ppw", "-mhe=on", "o.7z", "--", "in"])
    );
    let sete_sem = CreateOptions { format: Format::SevenZ, level: 0, password: None, encrypt_names: true };
    assert_eq!(
        args_create("o.7z", &ins, &sete_sem),
        v(&["a", "-t7z", "-y", "-bsp1", "-bso0", "-mx0", "o.7z", "--", "in"])
    );
    let tar = CreateOptions { format: Format::Tar, level: 7, password: None, encrypt_names: false };
    assert_eq!(args_create("o.tar", &ins, &tar), v(&["a", "-ttar", "-y", "-bsp1", "-bso0", "o.tar", "--", "in"]));
}

#[test]
fn validacoes_antes_de_rodar() {
    let tar = CreateOptions { format: Format::TarGz, level: 5, password: Some("x".into()), encrypt_names: false };
    match validar_criacao(&tar) {
        Err(EngineError::OpcaoNaoSuportada(m)) => assert_eq!(m, "senha não é suportada em tar/tar.gz"),
        r => panic!("{r:?}"),
    }
    let zip = CreateOptions { format: Format::Zip, level: 5, password: Some("x".into()), encrypt_names: false };
    assert!(validar_criacao(&zip).is_ok());
    let sel = v(&["ok.txt", "../mau", "/pior"]);
    match validar_selecao(Some(&sel)) {
        Err(EngineError::CaminhoInvalido(p)) => assert_eq!(p, "../mau"),
        r => panic!("{r:?}"),
    }
    assert!(validar_selecao(None).is_ok());
    assert!(validar_selecao(Some(&v(&["a", "b/c"]))).is_ok());
}

#[test]
fn progresso_em_duas_fases() {
    assert_eq!(progresso_primeira_metade(100), 50);
    assert_eq!(progresso_primeira_metade(31), 15);
    assert_eq!(progresso_segunda_metade(0), 50);
    assert_eq!(progresso_segunda_metade(100), 100);
}

#[test]
fn localiza_o_primeiro_binario_existente() {
    let c = v(&["/a/7zz", "/b/7zz", "/c/7zz"]);
    let e = Engine::locate(&c, &[false, true, true]).unwrap();
    assert_eq!(e.bin(), "/b/7zz");
    assert!(matches!(Engine::locate(&c, &[false, false, false]), Err(EngineError::BinarioNaoEncontrado)));
    assert_eq!(nomes_do_binario(true), v(&["7z.exe", "7zz.exe"]));
    assert_eq!(nomes_do_binario(false), v(&["7zz"]));
    assert_eq!(plataforma_vendor("linux", "x86_64"), "linux-x64");
    assert_eq!(plataforma_vendor("linux", "aarch64"), "linux-arm64");
    assert_eq!(plataforma_vendor("macos", "aarch64"), "macos");
    assert_eq!(plataforma_vendor("windows", "x86"), "windows-x64");
    assert_eq!(plataforma_vendor("freebsd", "x86_64"), "");
}

#[test]
fn ordem_de_busca_do_binario() {
    let nomes = v(&["7z.exe", "7zz.exe"]);
    let path = v(&["/usr/bin", "/opt/"]);
    let c = candidatos(Some("/env/7zz"), Some("/app"), Some("/dev/vendor/7zz/windows-x64"), &path, &nomes);
    assert_eq!(
        c,
        v(&[
            "/env/7zz",
            "/app/7z.exe",
            "/app/7zz.exe",
            "/dev/vendor/7zz/windows-x64/7z.exe",
            "/dev/vendor/7zz/windows-x64/7zz.exe",
            "/usr/bin/7z.exe",
            "/usr/bin/7zz.exe",
            "/opt/7z.exe",
            "/opt/7zz.exe",
        ])
    );
    assert_eq!(candidatos(None, None, None, &[], &v(&["7zz"])), Vec::<String>::new());
    let e = Engine::locate(&c, &[false, false, false, true, true, false, false, false, false]).unwrap();
    assert_eq!(e.bin(), "/dev/vendor/7zz/windows-x64/7z.exe");
}

#[test]
fn diretorio_vendorizado() {
    assert_eq!(
        dir_vendor("/w/crates/evezip-engine", "linux-x64").as_deref(),
        Some("/w/crates/evezip-engine/../../vendor/7zz/linux-x64")
    );
    assert_eq!(dir_vendor("/w", ""), None);
}

#[test]
fn conclui_listagem_e_operacao() {
    let es = concluir_listagem(Ok(SAIDA_7Z.to_string()), None).unwrap();
    assert_eq!(es, parse_slt(SAIDA_7Z));
    assert!(matches!(
        concluir_listagem(Err(EngineError::SenhaIncorreta), None),
        Err(EngineError::SenhaNecessaria)
    ));
    assert!(matches!(
        concluir_listagem(Err(EngineError::SenhaIncorreta), Some("x")),
        Err(EngineError::SenhaIncorreta)
    ));
    assert!(concluir_operacao(Ok(String::new()), None).is_ok());
    assert!(matches!(
        concluir_operacao(Err(EngineError::SenhaIncorreta), None),
        Err(EngineError::SenhaNecessaria)
    ));
    assert!(matches!(
        concluir_operacao(Err(EngineError::Cancelado), None),
        Err(EngineError::Cancelado)
    ));
}

#[test]
fn listagem_crlf_igual_a_lf() {
    let crlf = SAIDA_7Z.replace('\n', "\r\n");
    assert_eq!(parse_slt(&crlf), parse_slt(SAIDA_7Z));
    assert!(!parse_slt(SAIDA_7Z).is_empty());
}
