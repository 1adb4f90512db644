use re5_save_editor::catalogo::pagina_arquivos;
use re5_save_editor::itens::{Item, Itens};
use re5_save_editor::catalogo::{estado, Catalogo, Linha};
use re5_save_editor::historia::{indice_desbloqueio, Texto};
use re5_save_editor::modelos::ListaDados;

#[test]
fn biblioteca_na_ordem_do_save() {
    assert_eq!(indice_desbloqueio(12), Some(0)); // Albert Wesker
    assert_eq!(indice_desbloqueio(1), Some(11)); // A Saga de Resident Evil
    assert_eq!(indice_desbloqueio(13), None);
}

#[test]
fn biblioteca_fora_dos_limites() {
    assert_eq!(indice_desbloqueio(0), None);
    assert_eq!(indice_desbloqueio(6), Some(6));
}

fn texto(grupo: &str, numero: Option<u32>, titulo: &str) -> Texto {
    Texto {
        grupo: grupo.into(),
        numero,
        titulo: titulo.into(),
        paginas: vec!["p".into()],
        titulo_pt: titulo.into(),
        paginas_pt: vec!["p".into()],
    }
}

#[test]
fn linhas_da_historia() {
    let ts = vec![
        texto("documento", Some(3), "Doc"),
        texto("biblioteca", Some(1), "Saga"),
        texto("dlc", None, "DLC"),
        texto("biblioteca", Some(12), "Wesker"),
    ];
    let c = Catalogo::novo(ts);
    assert_eq!(
        c.linhas,
        vec![
            Linha::Cabecalho,
            Linha::Texto(1),
            Linha::Texto(3),
            Linha::Cabecalho,
            Linha::Texto(0),
            Linha::Cabecalho,
            Linha::Texto(2),
            Linha::Cabecalho,
            Linha::Arquivos,
        ]
    );
    assert!(c.extras_ids.is_empty());
    assert_eq!(c.escolher_extra(0), None);
}

#[test]
fn estado_dos_arquivos_da_biblioteca() {
    let mut marcados = vec![false; 12];
    marcados[0] = true; // Albert Wesker (arquivo 12)
    let listas = vec![
        ListaDados { chave: "figuras".into(), titulo: "F".into(), opcoes: vec![], marcados: vec![true; 45] },
        ListaDados { chave: "arquivos".into(), titulo: "A".into(), opcoes: vec![], marcados },
    ];
    assert_eq!(estado(Some(&listas), &texto("biblioteca", Some(12), "Wesker")), 1);
    assert_eq!(estado(Some(&listas), &texto("biblioteca", Some(1), "Saga")), 0);
    assert_eq!(estado(Some(&listas), &texto("biblioteca", Some(13), "?")), -1);
    assert_eq!(estado(Some(&listas), &texto("documento", Some(12), "Doc")), -1);
    assert_eq!(estado(None, &texto("biblioteca", Some(12), "Wesker")), -1);
    let so_figuras =
        vec![ListaDados { chave: "figuras".into(), titulo: "F".into(), opcoes: vec![], marcados: vec![true; 45] }];
    assert_eq!(estado(Some(&so_figuras), &texto("biblioteca", Some(12), "Wesker")), -1);
}

#[test]
fn lista_e_paginas_da_historia() {
    let mut ts = vec![texto("biblioteca", Some(12), "Albert Wesker"), texto("dlc", None, "Notas")];
    ts[0].titulo_pt = "Albert Wesker".into();
    ts[1].titulo_pt = "Anotações".into();
    let c = Catalogo::novo(ts);
    let mut marcados = vec![false; 12];
    marcados[0] = true;
    let listas = vec![ListaDados { chave: "arquivos".into(), titulo: "A".into(), opcoes: vec![], marcados }];
    let l = c.mostrar_historia(Some(&listas));
    let titulos: Vec<&str> = l.iter().map(|x| x.titulo.as_str()).collect();
    assert_eq!(
        titulos,
        vec!["BIBLIOTECA", "Albert Wesker", "DOCUMENTOS DAS FASES", "DOCUMENTOS DAS DLCs", "Anotações", "REGISTROS DE ARQUIVO (FILE)", "File 01–0F"]
    );
    assert_eq!(l[1].estado, 1);
    assert!(l[0].cabecalho && !l[1].cabecalho);
    let item = |id: u32, interno: &str, colocacoes: u32| Item {
        id,
        categoria: "arquivo".into(),
        secao: "principal".into(),
        nome: None,
        oficial: None,
        pt: None,
        interno: interno.into(),
        enumerador: None,
        dlc: None,
        descricao: None,
        icone: -1,
        icone_tipo: None,
        gravavel: false,
        legado: false,
        slot: false,
        coletavel: false,
        colocacoes,
        obs: None,
    };
    let itens = Itens::novo(vec![item(0x0700, "File_00", 0), item(0x070a, "File_0A", 3), item(0x0701, "File_01", 1)], 1, 1);
    let (sub_titulo, sub, p) = c.escolher_texto(1, Some(&listas), &itens).unwrap();
    assert_eq!(sub_titulo, "Albert Wesker");
    assert_eq!(sub, "Biblioteca · arquivo 12 de 12 · desbloqueado neste save");
    assert_eq!(p, vec!["p".to_string()]);
    let (_, sub, _) = c.escolher_texto(4, None, &itens).unwrap();
    assert_eq!(sub, "Documento das DLCs (Lost in Nightmares) · original: Notas");
    assert!(c.escolher_texto(0, None, &itens).is_none());
    assert!(c.escolher_texto(-3, None, &itens).is_none());
    assert!(c.escolher_texto(99, None, &itens).is_none());
    let (a, b, p) = pagina_arquivos(&itens);
    assert_eq!(a, "Registros File 01–0F");
    assert_eq!(b, "Classe 0x07 da tabela de itens · somente consulta");
    assert_eq!(p[2], "0x0701  File_01  —  1 vez nas fases\n0x070A  File_0A  —  3 vezes nas fases");
    assert_eq!(c.escolher_texto(6, None, &itens).unwrap().2, p);
}
