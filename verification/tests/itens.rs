use re5_save_editor::catalogo::Catalogo;
use re5_save_editor::itens::{classe_de, nome_categoria, nome_da_classe, rotulo_extras, Destino, Item, Itens, N_CLASSES};

fn item(id: u32, categoria: &str, secao: &str, nome: Option<&str>, gravavel: bool, slot: bool) -> Item {
    Item {
        id,
        categoria: categoria.into(),
        secao: secao.into(),
        nome: nome.map(String::from),
        oficial: None,
        pt: None,
        interno: format!("interno_{id:04x}"),
        enumerador: None,
        dlc: None,
        descricao: None,
        icone: if id == 0x0102 { 7 } else { -1 },
        icone_tipo: None,
        gravavel,
        legado: false,
        slot,
        coletavel: false,
        colocacoes: 0,
        obs: None,
    }
}

fn catalogo() -> Itens {
    let v = vec![
        item(0x0305, "cura", "principal", Some("Erva verde (Herb (Green))"), true, true),
        item(0x0102, "arma", "principal", Some("M92F (HG)"), true, true),
        item(0x0150, "arma_inimigo", "extras", Some("Arma inimiga"), false, false),
        item(0x0417, "tesouro", "principal", Some("Rubi"), true, false),
        item(0x0504, "chave", "principal", None, false, false),
        item(0x0701, "arquivo", "principal", None, false, false),
        item(0x0702, "arquivo", "principal", None, false, false),
        item(0x0427, "item_dlc", "extras", Some("Item DLC"), false, false),
        // repetido: o último fica
        item(0x0301, "cura", "principal", Some("Erva de chão"), true, true),
        item(0x0301, "cura", "principal", Some("Erva de chão"), false, false),
    ];
    Itens::novo(v, 12, 64)
}

#[test]
fn classes_e_nomes() {
    assert_eq!(classe_de(0x0305), 3);
    assert_eq!(classe_de(0x12345), 0x123);
    assert_eq!(nome_da_classe(4), Some("Tesouro"));
    assert_eq!(nome_da_classe(8), None);
    assert_eq!(Itens::nome_classe(0), "");
    assert_eq!(Itens::nome_classe(0x0102), "Arma");
    assert_eq!(Itens::nome_classe(0x0902), "?");
    assert_eq!(nome_categoria("granada_ovo"), "Granada / ovo");
    assert_eq!(nome_categoria("interno_dummy"), "Sem nome no jogo");
    assert_eq!(nome_categoria("qualquer"), "Vazio");
    assert_eq!(rotulo_extras(3), Some("Não testados"));
    assert_eq!(rotulo_extras(5), None);
}

#[test]
fn nomes_dos_itens() {
    let t = catalogo();
    assert_eq!(t.colunas_atlas, 12);
    assert_eq!(t.celula_atlas, 64);
    assert_eq!(t.nome(0), "Vazio");
    assert_eq!(t.nome(0x0305), "Erva verde (Herb (Green))");
    assert_eq!(t.nome(0x0504), "Chave 0x0504");
    assert_eq!(t.nome(0x0999), "Item 0x0999");
    assert_eq!(t.nome(0x04ab), "Tesouro 0x04ab");
    assert_eq!(t.icone(0x0102), 7);
    assert_eq!(t.icone(0x0103), -1);
    assert!(t.item(0x0150).is_some());
    assert!(t.item(0x0151).is_none());
    assert!(!t.item(0x0301).unwrap().gravavel);
}

#[test]
fn todos_em_ordem() {
    let t = catalogo();
    let ids: Vec<u32> = t.todos().iter().map(|i| i.id).collect();
    assert_eq!(ids, vec![0x0102, 0x0150, 0x0301, 0x0305, 0x0417, 0x0427, 0x0504, 0x0701, 0x0702]);
}

#[test]
fn opcoes_por_destino() {
    let t = catalogo();
    assert_eq!(t.opcoes(0, 0x0305, Destino::Inventario), vec![0]);
    assert_eq!(t.opcoes(1, 0, Destino::Inventario), vec![0x0102]);
    assert_eq!(t.opcoes(3, 0, Destino::Inventario), vec![0x0305]);
    assert!(t.opcoes(4, 0, Destino::Personagem).is_empty());
    assert_eq!(t.opcoes(4, 0, Destino::Inventario), vec![0x0417]);
    // o ID atual nunca some da lista
    assert_eq!(t.opcoes(4, 0x0417, Destino::Personagem), vec![0x0417]);
    assert_eq!(t.opcoes(5, 0x0504, Destino::Inventario), vec![0x0504]);
    assert_eq!(t.opcoes(3, 0x0305, Destino::Inventario), vec![0x0305]);
    // de outra classe, não entra
    assert_eq!(t.opcoes(3, 0x0102, Destino::Inventario), vec![0x0305]);
    assert_eq!(t.classes_para(Destino::Personagem), vec![0, 1, 3]);
    assert_eq!(t.classes_para(Destino::Inventario), vec![0, 1, 3, 4]);
}

#[test]
fn extras_e_arquivos() {
    let t = catalogo();
    let ids = |v: Vec<&Item>| v.iter().map(|i| i.id).collect::<Vec<u32>>();
    assert_eq!(ids(t.extras(0)), vec![0x0150]);
    assert_eq!(ids(t.extras(2)), vec![0x0427]);
    assert!(t.extras(1).is_empty());
    assert!(t.extras(7).is_empty());
    assert_eq!(ids(t.arquivos()), vec![0x0701, 0x0702]);
}

#[test]
fn aba_de_extras() {
    let t = catalogo();
    let mut c = Catalogo::novo(Vec::new());
    let rotulos = c.iniciar(&t);
    assert_eq!(
        rotulos,
        vec!["Armas de inimigos (1)", "Objetos de fase (0)", "Itens das DLCs (1)", "Não testados (0)", "Internos (0)"]
    );
    assert_eq!(c.extras_ids, vec![0x0150]);
    assert_eq!(c.mostrar_extras(&t, 2), vec![0x0427]);
    assert_eq!(c.escolher_extra(0), Some(0x0427));
    assert_eq!(c.escolher_extra(1), None);
    assert_eq!(c.escolher_extra(-1), None);
}

/// Uma tabela feita à mão com os registros que os testes abaixo consultam e
/// grupos de Itens Extras do tamanho dos do jogo.
fn tabela() -> Itens {
    let mut v = vec![
        item(0x0102, "arma", "principal", Some("M92F (HG)"), true, true),
        item(0x0150, "arma_inimigo", "extras", Some("Arma inimiga"), false, false),
        item(0x0201, "municao", "principal", Some("Munição de pistola"), true, true),
        item(0x0301, "objeto_fase", "extras", Some("Erva de chão"), false, false),
        item(0x0305, "cura", "principal", Some("Erva verde"), true, true),
        item(0x0417, "tesouro", "principal", Some("Rubi"), true, false),
        item(0x0451, "tesouro", "principal", Some("Rubi em gota"), true, false),
        item(0x0501, "chave", "principal", Some("Chave"), true, false),
        item(0x0504, "chave", "principal", None, false, false),
        item(0x0601, "outros", "principal", Some("Colete"), true, true),
        item(0x0602, "interno", "extras", None, false, false),
        item(0x0603, "interno_dummy", "extras", None, false, false),
        item(0x0604, "arma_dlc", "extras", None, false, false),
    ];
    // Armas de inimigos: 38, com a 0x0150
    v.extend((1..38u32).map(|i| item(0x0150 + i, "arma_inimigo", "extras", None, false, false)));
    // Objetos de fase: 9, com a 0x0301
    v.extend((0..8u32).map(|i| item(0x0310 + i, "objeto_fase", "extras", None, false, false)));
    // Itens das DLCs: 24, com a 0x0604
    v.extend((0..23u32).map(|i| item(0x0520 + i, "item_dlc", "extras", None, false, false)));
    // Não testados: 25
    v.extend((0..25u32).map(|i| item(0x0180 + i, "arma", "extras", None, false, false)));
    // File 01–0F e o 0x0700
    v.extend((0..16u32).map(|i| item(0x0700 + i, "arquivo", "principal", None, false, false)));
    Itens::novo(v, 12, 64)
}

#[test]
fn inimigos_e_internos_nunca_sao_opcao() {
    let t = tabela();
    for c in 1..N_CLASSES {
        for d in [Destino::Inventario, Destino::Personagem] {
            for id in t.opcoes(c, 0, d) {
                let i = t.item(id).unwrap();
                assert!(i.gravavel, "0x{id:04x}");
                assert!(!matches!(i.categoria.as_str(), "arma_inimigo" | "objeto_fase" | "interno" | "interno_dummy" | "arma_dlc"));
            }
        }
    }
    assert!(t.opcoes(1, 0, Destino::Inventario).contains(&0x0102));
    assert!(!t.opcoes(1, 0, Destino::Inventario).contains(&0x0150));
    // a erva "de chão" não entra; a do inventário, sim
    assert!(!t.opcoes(3, 0, Destino::Inventario).contains(&0x0301));
    assert!(t.opcoes(3, 0, Destino::Inventario).contains(&0x0305));
}

#[test]
fn slots_do_personagem_so_com_itens_de_slot() {
    let t = tabela();
    assert!(t.opcoes(1, 0, Destino::Personagem).contains(&0x0102));
    assert!(t.opcoes(4, 0, Destino::Personagem).is_empty());
    assert!(t.opcoes(5, 0, Destino::Personagem).is_empty());
    assert!(!t.opcoes(4, 0, Destino::Inventario).is_empty());
    assert_eq!(t.classes_para(Destino::Personagem), vec![0, 1, 2, 3, 6]);
}

#[test]
fn id_atual_nunca_some_da_lista() {
    let t = tabela();
    // tesouro num slot do Chris (vindo de um save) continua aparecendo
    assert_eq!(t.opcoes(4, 0x0417, Destino::Personagem)[0], 0x0417);
    // registro sem nome (legado) continua aparecendo se já estiver no save
    assert_eq!(t.opcoes(5, 0x0504, Destino::Inventario)[0], 0x0504);
    assert!(!t.opcoes(5, 0, Destino::Inventario).contains(&0x0504));
}

#[test]
fn grupos_das_extras() {
    let t = tabela();
    assert_eq!(t.extras(0).len(), 38);
    assert_eq!(t.extras(1).len(), 9);
    assert_eq!(t.extras(2).len(), 24);
    assert_eq!(t.extras(3).len(), 25);
    assert!(t.extras(4).iter().all(|i| !i.gravavel));
    assert_eq!(t.arquivos().len(), 16);
    assert!(t.todos().iter().filter(|i| i.secao == "extras").all(|i| !i.gravavel));
}
