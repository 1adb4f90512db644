use re5_save_editor::itens::Itens;
use re5_save_editor::modelos::{listas_ui, nomes_filtros, slots_ui, tabela_ui, ListaDados};
use re5_save_editor::interno::Slot;
use re5_save_editor::modelos::{data_de_texto, data_texto, filtrar, milhar, Retrato};

#[test]
fn data_ida_e_volta() {
    let d = [2026, 9, 24, 17, 5, 30];
    assert_eq!(data_de_texto(&data_texto(&d)), Some(d));
    assert_eq!(data_de_texto("24/09/2026 17:05"), Some([2026, 9, 24, 17, 5, 0]));
    assert_eq!(data_de_texto("31/13/2026 10:00:00"), None);
    assert_eq!(data_de_texto("abc"), None);
}

#[test]
fn milhar_formata() {
    assert_eq!(milhar(0), "0");
    assert_eq!(milhar(999), "999");
    assert_eq!(milhar(9794), "9.794");
    assert_eq!(milhar(4294967295), "4.294.967.295");
}

#[test]
fn milhar_com_zeros_no_meio() {
    assert_eq!(milhar(1000), "1.000");
    assert_eq!(milhar(1_002_003), "1.002.003");
    assert_eq!(milhar(u64::MAX), "18.446.744.073.709.551.615");
}

#[test]
fn data_texto_com_zeros() {
    assert_eq!(data_texto(&[2009, 3, 5, 7, 8, 9]), "05/03/2009 07:08:09");
}

#[test]
fn data_de_texto_casos() {
    // sem hora: meia-noite
    assert_eq!(data_de_texto("05/03/2009"), Some([2009, 3, 5, 0, 0, 0]));
    // espaços nas pontas e em volta dos números
    assert_eq!(data_de_texto("  5/3/2009  7: 8 :9 "), Some([2009, 3, 5, 7, 8, 9]));
    // o primeiro espaço separa a data da hora
    assert_eq!(data_de_texto("5 /3/2009 7:8"), None);
    assert_eq!(data_de_texto("05/03/2009 24:00"), None);
    assert_eq!(data_de_texto("05/03/1999 10:00"), None);
    assert_eq!(data_de_texto("05/03 10:00"), None);
    assert_eq!(data_de_texto("05/03/2009 10"), None);
    assert_eq!(data_de_texto("05/03/2009 10:00:00:00"), None);
    assert_eq!(data_de_texto("+5/03/2009 10:00"), Some([2009, 3, 5, 10, 0, 0]));
    assert_eq!(data_de_texto(""), None);
}

fn slot(slot: usize, id: u32) -> Slot {
    Slot { slot, id, amount: 1 }
}

#[test]
fn filtros_do_inventario() {
    let v = vec![slot(0, 0), slot(1, 0x0102), slot(2, 0x0305), slot(3, 0), slot(4, 0x0110)];
    assert_eq!(filtrar(&v, 0), vec![0, 1, 2, 3, 4]);
    assert_eq!(filtrar(&v, 1), vec![1, 2, 4]);
    assert_eq!(filtrar(&v, 2), vec![1, 4]);
    assert_eq!(filtrar(&v, 4), vec![2]);
    assert_eq!(filtrar(&v, 9), Vec::<usize>::new());
}

fn retrato(xbox: bool, assinatura_ok: bool, por: &str, kv: Option<&str>) -> Retrato {
    Retrato {
        caminho: "x".into(),
        xbox,
        gold: 0,
        points: 0,
        data: [2026, 1, 1, 0, 0, 0],
        checksum_salvo: String::new(),
        checksum_real: String::new(),
        checksum_ok: true,
        listas: Vec::new(),
        profile_id: String::new(),
        device_id: String::new(),
        assinatura_ok,
        assinado_por: por.into(),
        inventario: Vec::new(),
        chris: Vec::new(),
        sheva: Vec::new(),
        steam_id: String::new(),
        keyvault: kv.map(String::from),
    }
}

#[test]
fn textos_do_retrato() {
    assert_eq!(retrato(true, false, "", None).plataforma(), "Xbox 360 · Title ID 434307D4");
    assert_eq!(retrato(false, false, "", None).plataforma(), "PC · Steam");
    assert_eq!(retrato(true, true, "CONSOLE-1", None).assinatura(), "válida · console CONSOLE-1");
    assert_eq!(retrato(true, false, "", None).assinatura(), "inválida · sem console");
    assert_eq!(retrato(true, false, "CONSOLE-1", None).assinatura(), "inválida · CONSOLE-1");
    let backup = " Antes de gravar por cima, uma cópia vai para a pasta backups.";
    assert_eq!(
        retrato(false, false, "", None).nota(),
        format!("Save de PC: ao gravar, o checksum é recalculado e o arquivo é cifrado de novo.{backup}")
    );
    assert_eq!(
        retrato(true, false, "", Some("console/kv.bin")).nota(),
        format!("Assinatura automática ativada com console/kv.bin: o save sai pronto para o Xbox.{backup}")
    );
    assert!(retrato(true, false, "", None).nota().starts_with("Sem keyvault (console/kv.bin ao lado do programa)"));
}

#[test]
fn listas_e_slots_na_tela() {
    let l = ListaDados {
        chave: "filtros".into(),
        titulo: "Filtros de tela".into(),
        opcoes: vec!["a".into(), "b".into(), "c".into()],
        marcados: vec![true, false, true],
    };
    let u = listas_ui(&vec![l]);
    assert_eq!(u[0].titulo, "Filtros de tela");
    assert_eq!(u[0].contagem, "2/3");
    assert_eq!(u[0].opcoes, vec![("a".to_string(), true), ("b".to_string(), false), ("c".to_string(), true)]);
    let t = Itens::novo(Vec::new(), 1, 1);
    let atuais = vec![slot(0, 0x0102), Slot { slot: 1, id: 0x0201, amount: 1500 }];
    let originais = vec![slot(0, 0x0102), slot(1, 0)];
    let v = slots_ui(&t, &atuais, &originais);
    assert_eq!(v[0].numero, 1);
    assert_eq!(v[1].nome, "Munição 0x0201");
    assert_eq!(v[1].classe, "Munição");
    assert_eq!(v[1].qtd, "× 1.500");
    assert!(!v[0].mudou && v[1].mudou && !v[1].vazio);
    let linhas = tabela_ui(&t, &atuais, &originais, &vec![1]);
    assert_eq!(linhas, vec![vec!["2  •".to_string(), "Munição 0x0201".to_string(), "Munição".to_string(), "1.500".to_string()]]);
    let f = nomes_filtros();
    assert_eq!(f.len(), 9);
    assert_eq!(f[0], "Todos os espaços");
    assert_eq!(f[8], "Arquivo");
}
