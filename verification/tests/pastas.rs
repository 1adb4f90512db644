use re5_save_editor::pastas::{keyvault, pasta_de, pasta_inicial};

#[test]
fn keyvault_o_primeiro_que_existe() {
    let c = vec![("a/console/kv.bin".to_string(), false), ("h/horizon_final/console/kv.bin".to_string(), true)];
    assert_eq!(keyvault(c), Some("h/horizon_final/console/kv.bin".to_string()));
    let c = vec![("a/console/kv.bin".to_string(), true), ("b".to_string(), true)];
    assert_eq!(keyvault(c), Some("a/console/kv.bin".to_string()));
    assert_eq!(keyvault(vec![("a".to_string(), false)]), None);
}

#[test]
fn pasta_inicial_prefere_a_do_save() {
    let p = vec![("h/Documentos".to_string(), true)];
    assert_eq!(pasta_inicial(Some("/saves/x/savedata.bin".into()), p.clone(), "h".into()), "/saves/x");
    assert_eq!(pasta_inicial(None, p.clone(), "h".into()), "h/Documentos");
    assert_eq!(pasta_inicial(None, vec![("x".to_string(), false)], "h".into()), "h");
    // a raiz não tem pasta acima: vai para os lugares prováveis
    assert_eq!(pasta_inicial(Some("/".into()), p, "h".into()), "h/Documentos");
    assert_eq!(pasta_de(Some("saves".into()), vec![], "h".into()), "saves");
}
