use re5_save_editor::edicao::{
    atualizar,
    classes_do_editor, confirmacao, grava_slot, hex_ok, ler_mudancas, lista_mostrada, marcar, marcar_todos,
    nome_do_backup, pode_gravar, posicao_ou_zero, qtd_ao_trocar, resumo_inventario, segundos_do_aviso, slot_de,
    so_hex, so_numeros, tem_mudanca, texto_salvo, titulo_do_editor, valor_do_slot, Campos, Onde, Pendente,
};
use re5_save_editor::interno::{Mudancas, Slot};
use re5_save_editor::itens::{Destino, Item, Itens};
use re5_save_editor::modelos::{ListaDados, Retrato};

fn retrato(xbox: bool) -> Retrato {
    Retrato {
        caminho: "x".into(),
        xbox,
        gold: 100,
        points: 5,
        data: [2026, 9, 24, 17, 5, 30],
        checksum_salvo: String::new(),
        checksum_real: String::new(),
        checksum_ok: true,
        listas: vec![
            ListaDados { chave: "filtros".into(), titulo: "F".into(), opcoes: vec!["a".into(), "b".into()], marcados: vec![false, false] },
            ListaDados { chave: "arquivos".into(), titulo: "A".into(), opcoes: vec!["c".into()], marcados: vec![true] },
        ],
        profile_id: "0011223344556677".into(),
        device_id: "00112233445566778899AABBCCDDEEFF00112233".into(),
        assinatura_ok: false,
        assinado_por: String::new(),
        inventario: (0..3).map(|i| Slot { slot: i, id: 0, amount: 0 }).collect(),
        chris: (0..2).map(|i| Slot { slot: i, id: 0x0102, amount: 10 }).collect(),
        sheva: Vec::new(),
        steam_id: "76561198000000000".into(),
        keyvault: None,
    }
}

fn campos(r: &Retrato) -> Campos {
    Campos {
        gold: r.gold.to_string(),
        points: r.points.to_string(),
        data: "24/09/2026 17:05:30".into(),
        profile_id: r.profile_id.clone(),
        device_id: r.device_id.clone(),
        steam_id: r.steam_id.clone(),
    }
}

#[test]
fn sem_edicao_nada_muda() {
    let o = retrato(true);
    let a = retrato(true);
    let (m, inv, valido) = ler_mudancas(&campos(&o), &o, &a);
    assert!(valido);
    assert!(!tem_mudanca(&m));
    assert!(!inv.gold && !inv.points && !inv.data && !inv.profile_id && !inv.device_id && !inv.steam_id);
    assert!(!tem_mudanca(&Mudancas::default()));
}

#[test]
fn edicoes_do_xbox() {
    let o = retrato(true);
    let mut a = retrato(true);
    a.listas[0].marcados[1] = true;
    grava_slot(&mut a, Onde::Inventario, 2, 0x0305, 7);
    let mut c = campos(&o);
    c.gold = "250".into();
    c.data = "01/01/2027 00:00".into();
    c.profile_id = "AABBCCDDEEFF0011".into();
    let (m, _, valido) = ler_mudancas(&c, &o, &a);
    assert!(valido);
    assert!(tem_mudanca(&m));
    assert_eq!(m.gold, Some(250));
    assert_eq!(m.points, None);
    assert_eq!(m.data, Some([2027, 1, 1, 0, 0, 0]));
    assert_eq!(m.listas, vec![("filtros".to_string(), vec![false, true])]);
    assert_eq!(m.profile_id.as_deref(), Some("AABBCCDDEEFF0011"));
    assert_eq!(m.device_id, None);
    assert_eq!(m.inventario, vec![Slot { slot: 2, id: 0x0305, amount: 7 }]);
    assert!(m.chris.is_empty() && m.steam_id.is_none());
}

#[test]
fn campos_invalidos() {
    let o = retrato(true);
    let mut c = campos(&o);
    c.gold = "12a".into();
    c.points = "".into();
    c.data = "32/01/2026".into();
    c.profile_id = "123".into();
    let (m, inv, valido) = ler_mudancas(&c, &o, &o);
    assert!(!valido);
    assert!(inv.gold && inv.points && inv.data && inv.profile_id && !inv.device_id && !inv.steam_id);
    assert_eq!(m.gold, None);
    let o = retrato(false);
    let mut c = campos(&o);
    c.steam_id = "".into();
    let (m, inv, valido) = ler_mudancas(&c, &o, &o);
    assert!(!valido && inv.steam_id && !inv.profile_id);
    assert_eq!(m.steam_id.as_deref(), Some(""));
}

#[test]
fn ids_hexadecimais() {
    assert!(hex_ok("00aaBBcc11223344", 16));
    assert!(!hex_ok("00aaBBcc1122334", 16));
    assert!(!hex_ok("00aaBBcc1122334g", 16));
    assert_eq!(so_numeros("12a3"), Some("123".to_string()));
    assert_eq!(so_numeros("123"), None);
    assert_eq!(so_hex("ab-12 z"), Some("AB12".to_string()));
    assert_eq!(so_hex("AB12"), None);
}

fn item(id: u32, gravavel: bool, slot: bool) -> Item {
    Item {
        id,
        categoria: "x".into(),
        secao: "principal".into(),
        nome: None,
        oficial: None,
        pt: None,
        interno: String::new(),
        enumerador: None,
        dlc: None,
        descricao: None,
        icone: -1,
        icone_tipo: None,
        gravavel,
        legado: false,
        slot,
        coletavel: false,
        colocacoes: 0,
        obs: None,
    }
}

#[test]
fn editor_de_slot() {
    let t = Itens::novo(vec![item(0x0102, true, true), item(0x0417, true, false), item(0x0305, true, true)], 1, 1);
    assert_eq!(classes_do_editor(&t, Onde::Chris, 0x0102), vec![0, 1, 3]);
    assert_eq!(classes_do_editor(&t, Onde::Chris, 0x0417), vec![0, 1, 3, 4]);
    assert_eq!(classes_do_editor(&t, Onde::Inventario, 0x0417), vec![0, 1, 3, 4]);
    assert_eq!(classes_do_editor(&t, Onde::Chris, 0x0912), vec![0, 1, 3, 7]);
    assert_eq!(titulo_do_editor(Onde::Sheva, 0), "Sheva · slot 1");
    assert_eq!(titulo_do_editor(Onde::Inventario, 83), "Inventário · espaço 84");
    assert_eq!(posicao_ou_zero(&vec![5, 7, 9], 9), 2);
    assert_eq!(posicao_ou_zero(&vec![5, 7, 9], 1), 0);
    assert_eq!(qtd_ao_trocar(0, "12"), Some("0".to_string()));
    assert_eq!(qtd_ao_trocar(2, " 0 "), Some("1".to_string()));
    assert_eq!(qtd_ao_trocar(2, ""), Some("1".to_string()));
    assert_eq!(qtd_ao_trocar(2, "5"), None);
    assert_eq!(Onde::Inventario.maximo(), 0xFFFF);
    assert_eq!(Onde::Chris.destino(), Destino::Personagem);
}

#[test]
fn valor_do_slot_editado() {
    let ids = vec![0x0102, 0x0103];
    assert_eq!(valor_do_slot(&ids, 1, " 30 ", Onde::Chris, false), Some((0x0103, 30)));
    assert_eq!(valor_do_slot(&ids, -4, "3", Onde::Chris, false), Some((0x0102, 3)));
    assert_eq!(valor_do_slot(&ids, 9, "3", Onde::Chris, false), Some((0, 0)));
    assert_eq!(valor_do_slot(&ids, 0, "70000", Onde::Inventario, false), None);
    assert_eq!(valor_do_slot(&ids, 0, "70000", Onde::Sheva, false), Some((0x0102, 70000)));
    assert_eq!(valor_do_slot(&ids, 0, "x", Onde::Sheva, false), None);
    assert_eq!(valor_do_slot(&ids, 0, "x", Onde::Sheva, true), Some((0, 0)));
}

#[test]
fn slots_e_resumo() {
    let mut a = retrato(true);
    assert_eq!(slot_de(&a, Onde::Chris, 1), Some(Slot { slot: 1, id: 0x0102, amount: 10 }));
    assert_eq!(slot_de(&a, Onde::Sheva, 0), None);
    grava_slot(&mut a, Onde::Chris, 1, 0, 0);
    assert_eq!(a.chris[1], Slot { slot: 1, id: 0, amount: 0 });
    grava_slot(&mut a, Onde::Sheva, 5, 1, 1);
    assert!(a.sheva.is_empty());
    assert_eq!(resumo_inventario(&a.chris, 1), "2 espaços · 1 ocupados · mostrando 1");
}

#[test]
fn aviso_depois_de_salvar() {
    assert_eq!(texto_salvo(true, Some("C1"), "/s", None), "✔ Save gravado, assinado (console C1) e conferido.\n/s");
    assert_eq!(texto_salvo(true, None, "/s", Some("/b")), "✔ Save gravado e conferido.\n/s\nBackup: /b");
    assert!(texto_salvo(false, None, "/s", None).starts_with("⚠ O save foi gravado, mas a conferência falhou."));
}

#[test]
fn pode_salvar_so_com_mudanca_valida() {
    let o = retrato(false);
    let mut c = campos(&o);
    assert_eq!(atualizar(&c, &o, &o), (false, true, false));
    c.gold = "7".into();
    assert_eq!(atualizar(&c, &o, &o), (true, true, true));
    c.steam_id = "x".into();
    assert_eq!(atualizar(&c, &o, &o), (true, false, false));
}

#[test]
fn marcar_uma_opcao_e_todas() {
    let mut a = retrato(true);
    marcar(&mut a, 0, 1, true);
    assert_eq!(a.listas[0].marcados, vec![false, true]);
    assert_eq!(a.listas[1].marcados, vec![true]);
    // fora das listas ou das opções: nada muda
    marcar(&mut a, 0, 2, true);
    marcar(&mut a, 5, 0, true);
    marcar(&mut a, -1, 0, true);
    marcar(&mut a, 0, -1, false);
    assert_eq!(a.listas[0].marcados, vec![false, true]);
    assert_eq!(a.listas[1].marcados, vec![true]);
    marcar_todos(&mut a, 0, true);
    assert_eq!(a.listas[0].marcados, vec![true, true]);
    marcar_todos(&mut a, 1, false);
    assert_eq!(a.listas[1].marcados, vec![false]);
    marcar_todos(&mut a, 2, true);
    assert_eq!(a.listas[0].chave, "filtros");
    assert_eq!(a.listas[1].marcados, vec![false]);
}

#[test]
fn lista_mostrada_volta_para_a_primeira() {
    assert_eq!(lista_mostrada(1, 2), 1);
    assert_eq!(lista_mostrada(2, 2), 0);
    assert_eq!(lista_mostrada(-3, 2), 0);
    assert_eq!(lista_mostrada(0, 0), 0);
}

#[test]
fn gravar_so_com_campos_validos() {
    let o = retrato(true);
    let a = retrato(true);
    let c = campos(&o);
    assert!(!pode_gravar(&c, &o, &a, false));
    assert!(pode_gravar(&c, &o, &a, true));
    let mut c2 = campos(&o);
    c2.gold = "251".into();
    assert!(pode_gravar(&c2, &o, &a, false));
    c2.device_id = "12".into();
    assert!(!pode_gravar(&c2, &o, &a, false));
    assert!(!pode_gravar(&c2, &o, &a, true));
}

#[test]
fn nome_da_copia_de_seguranca() {
    assert_eq!(nome_do_backup(true, "20260924_170530", "savedata.bin"), "pc_20260924_170530_savedata.bin");
    assert_eq!(nome_do_backup(false, "20260101_000000", "save"), "xbox_20260101_000000_save");
}

#[test]
fn confirmar_so_com_alteracoes() {
    assert!(confirmacao(&Pendente::Sair, false).is_none());
    assert!(confirmacao(&Pendente::AbrirCaminho("x".into()), false).is_none());
    assert_eq!(
        confirmacao(&Pendente::Sair, true),
        Some(("Sair sem salvar?", "Existem alterações que ainda não foram gravadas no save.", "SAIR SEM SALVAR"))
    );
    assert_eq!(
        confirmacao(&Pendente::Recarregar, true),
        Some(("Recarregar o save?", "As alterações que ainda não foram gravadas serão perdidas.", "RECARREGAR"))
    );
    assert_eq!(confirmacao(&Pendente::Abrir, true).map(|c| c.2), Some("ABRIR MESMO ASSIM"));
    assert_eq!(confirmacao(&Pendente::AbrirCaminho("y".into()), true).map(|c| c.0), Some("Abrir outro save?"));
    assert_eq!(segundos_do_aviso(0), 4);
    assert_eq!(segundos_do_aviso(1), 9);
    assert_eq!(segundos_do_aviso(2), 9);
}

#[test]
fn desfazer_nao_deixa_nada_a_salvar() {
    let o = retrato(false);
    let mut a = retrato(false);
    marcar(&mut a, 1, 0, false);
    let c = campos(&o);
    assert_eq!(atualizar(&c, &o, &a), (true, true, true));
    // desfazer: a edição volta a ser o arquivo
    let a = retrato(false);
    assert_eq!(atualizar(&c, &o, &a), (false, true, false));
}
