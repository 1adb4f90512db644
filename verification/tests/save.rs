use re5_save_editor::erro::Erro;
use re5_save_editor::interno::{lista, Interno, Mudancas, Slot, TAM_MINIMO};
use re5_save_editor::pc::{pc_cifra, pc_decifra};
use re5_save_editor::rsa::{assinatura_ok, pode_carregar, ChaveConsole};
use re5_save_editor::save::{ids_de_outro, Plataforma, Save};
use re5_save_editor::stfs::{e_pacote_stfs, ids_do_pacote, Stfs};

#[test]
fn xor_do_pc_ida_e_volta() {
    let claro: Vec<u8> = (0..0x5663u32).map(|i| (i * 7 + 3) as u8).collect();
    assert_eq!(pc_decifra(&pc_cifra(&claro)), claro);
}

#[test]
fn bits_preservam_o_que_nao_e_da_lista() {
    let mut i = Interno::xbox(vec![0; TAM_MINIMO]);
    let fig = lista(5);
    i.set_bits(&fig, 1 << 45 | 1); // bit 45 não está na lista
    let m = Mudancas { listas: vec![("figuras".into(), vec![true; 45])], ..Default::default() };
    i.aplica_comum(&m).unwrap();
    assert_eq!(i.bits(&fig), (1 << 46) - 1);
    let m = Mudancas { listas: vec![("figuras".into(), vec![false; 45])], ..Default::default() };
    i.aplica_comum(&m).unwrap();
    assert_eq!(i.bits(&fig), 1 << 45);
    assert_eq!(i.u32(0x84), 0);
    assert_eq!(i.u32(0x88), 1 << 13);
}

// ---------------------------------------------------------------- saves de exemplo

/// Um savedata.bin com o checksum certo.
fn interno(xbox: bool, tam: usize) -> Vec<u8> {
    let d: Vec<u8> = (0..tam).map(|i| (i * 31 + 7) as u8).collect();
    let mut i = if xbox { Interno::xbox(d) } else { Interno::pc(d) };
    i.fecha_checksum();
    i.d
}

fn save_pc() -> Vec<u8> {
    pc_cifra(&interno(false, 0x5663))
}

/// Um pacote CON com um nível de hash: cabeçalho de 0xB000 bytes, tabela de
/// hash logo depois, bloco 0 com a tabela de arquivos e o savedata.bin nos
/// blocos 1 em diante, encadeados.
fn pacote_xbox(interno: &[u8]) -> Vec<u8> {
    let tam = interno.len();
    let nb = (tam + 0xFFF) / 0x1000;
    let base = 0xB000usize;
    let off = |b: usize| base + (b + ((b + 0xAA) / 0xAA) * 2) * 0x1000;
    let mut d = vec![0u8; off(nb) + 0x1000];
    d[0..4].copy_from_slice(b"CON ");
    d[0x340..0x344].copy_from_slice(&0xB000u32.to_be_bytes());
    let vd = 0x379;
    d[vd + 0x1C..vd + 0x20].copy_from_slice(&((nb + 1) as u32).to_be_bytes());
    let ft = off(0);
    d[ft..ft + 12].copy_from_slice(b"savedata.bin");
    d[ft + 0x28] = 12;
    d[ft + 0x2F] = 1;
    d[ft + 0x34..ft + 0x38].copy_from_slice(&(tam as u32).to_be_bytes());
    for b in 1..nb {
        let e = base + b * 0x18;
        d[e + 0x15..e + 0x18].copy_from_slice(&((b + 1) as u32).to_be_bytes()[1..]);
    }
    for (k, byte) in interno.iter().enumerate() {
        d[off(k / 0x1000 + 1) + k % 0x1000] = *byte;
    }
    // perfil, device ID e o nome do console no certificado
    for k in 0..8 {
        d[0x371 + k] = 0xA0 + k as u8;
    }
    for k in 0..20 {
        d[0x3FD + k] = k as u8;
    }
    d
}

/// Blocos de 8 bytes na ordem inversa, como o keyvault guarda os números.
fn qwrev(b: &[u8]) -> Vec<u8> {
    b.chunks(8).rev().flatten().copied().collect()
}

fn de_hex(s: &str) -> Vec<u8> {
    (0..s.len()).step_by(2).map(|i| u8::from_str_radix(&s[i..i + 2], 16).unwrap()).collect()
}

const P: &str = "f637bfe52626ff63c3ad204a01908298fc631e7e885f290cd845151d809891a04ad13d9e9d57b758520c8d8297c86e54215dfb298d91f7318d1e9d2ecf4f0c9b";
const Q: &str = "fe6de9d78e3ce730e9dabc7c9e1236f5f5602bd56786e19d201d3aedf2340215c9bd0a9d6d03b29c96e1d8d48086814d27cc8570ee15034fe33a649abd0f6101";
const N: &str = "f4b5070a1fb32909b137d23d645976536793d885c998c777d5592248e4b5aea7bb3acfd492a5e9dc54b0ef643d31bafa6b586ceb4c68fa12c337be0628807b01ad41658186346f839f459dd07aaee519f4b6f938855fab90764c0940d75d49a46d7af69948384fa1bdd5790db52599c500b98dfdeed3388fce10fce9ef2ac79b";

/// Um keyvault com uma chave RSA de 1024 bits e o certificado com a chave
/// pública e o nome do console.
fn keyvault() -> Vec<u8> {
    let mut kv = vec![0u8; 0x4000];
    let k = 0x298;
    kv[k + 4..k + 8].copy_from_slice(&65537u32.to_be_bytes());
    kv[k + 0x10..k + 0x90].copy_from_slice(&qwrev(&de_hex(N)));
    kv[k + 0x90..k + 0xD0].copy_from_slice(&qwrev(&de_hex(P)));
    kv[k + 0xD0..k + 0x110].copy_from_slice(&qwrev(&de_hex(Q)));
    let c = 0x9C8;
    kv[c..c + 2].copy_from_slice(&0x1A8u16.to_be_bytes());
    kv[c + 7..c + 0x12].copy_from_slice(b"CONSOLE-123");
    kv[c + 0x24..c + 0x28].copy_from_slice(&65537u32.to_be_bytes());
    kv[c + 0x28..c + 0xA8].copy_from_slice(&qwrev(&de_hex(N)));
    kv
}

// ---------------------------------------------------------------- PC

#[test]
fn pc_abre_e_mostra() {
    let s = Save::abre("savedata.bin".into(), save_pc()).unwrap();
    assert!(matches!(s.plat, Plataforma::Pc));
    assert!(!s.interno.big_endian);
    let info = s.info();
    assert!(!info.xbox);
    assert!(info.checksum_ok);
    assert_eq!(info.checksum_salvo, info.checksum_real);
    assert_eq!(info.caminho, "savedata.bin");
    assert_eq!(info.listas.len(), 6);
    assert!(info.inventario.is_empty());
    let claro = interno(false, 0x5663);
    let id = u64::from_le_bytes(claro[0..8].try_into().unwrap());
    assert_eq!(info.steam_id, id.to_string());
}

#[test]
fn pc_grava_e_confere() {
    let mut s = Save::abre("savedata.bin".into(), save_pc()).unwrap();
    let m = Mudancas {
        gold: Some(9_999_999),
        points: Some(4321),
        data: Some([2026, 9, 24, 17, 5, 30]),
        steam_id: Some(" 76561198000000001 ".into()),
        listas: vec![("arquivos".into(), vec![true; 12])],
        ..Default::default()
    };
    s.aplica(&m).unwrap();
    let (bytes, console) = s.monta(None).unwrap();
    assert!(console.is_none());
    assert!(Save::confere(bytes.clone(), false));
    let info = Save::abre("x".into(), bytes).unwrap().info();
    assert_eq!(info.gold, 9_999_999);
    assert_eq!(info.points, 4321);
    assert_eq!(info.data, [2026, 9, 24, 17, 5, 30]);
    assert_eq!(info.steam_id, "76561198000000001");
    assert!(info.checksum_ok);
    let arq = info.listas.iter().find(|l| l.chave == "arquivos").unwrap();
    assert_eq!(arq.marcados, vec![true; 12]);
}

#[test]
fn pc_erros() {
    assert!(matches!(Save::abre("x".into(), vec![0; 100]), Err(Erro::ArquivoPequeno)));
    let mut ruim = save_pc();
    ruim[0x200] ^= 0xFF;
    assert!(matches!(Save::abre("x".into(), ruim), Err(Erro::NaoReconhecido)));
    assert!(!Save::confere(vec![1, 2, 3], false));
    let mut s = Save::abre("x".into(), save_pc()).unwrap();
    let m = Mudancas { steam_id: Some("abc".into()), ..Default::default() };
    assert!(matches!(s.aplica(&m), Err(Erro::SteamIdInvalido)));
    let m = Mudancas { steam_id: Some("99999999999999999999".into()), ..Default::default() };
    assert!(matches!(s.aplica(&m), Err(Erro::SteamIdInvalido)));
    let m = Mudancas { data: Some([1999, 1, 1, 0, 0, 0]), ..Default::default() };
    assert!(matches!(s.aplica(&m), Err(Erro::DataInvalida)));
    let m = Mudancas { listas: vec![("nada".into(), vec![])], ..Default::default() };
    match s.aplica(&m) {
        Err(Erro::ListaDesconhecida(c)) => assert_eq!(c, "nada"),
        r => panic!("{:?}", r.err()),
    }
    let m = Mudancas { listas: vec![("figuras".into(), vec![true; 3])], ..Default::default() };
    assert!(matches!(s.aplica(&m), Err(Erro::QuantidadeErrada(_))));
    // Steam ID em branco não muda nada
    let m = Mudancas { steam_id: Some("   ".into()), ..Default::default() };
    assert!(s.aplica(&m).is_ok());
}

// ---------------------------------------------------------------- Xbox

#[test]
fn xbox_abre_e_mostra() {
    let d = interno(true, TAM_MINIMO);
    let pkg = pacote_xbox(&d);
    assert!(e_pacote_stfs(&pkg));
    let s = Save::abre("savedata".into(), pkg.clone()).unwrap();
    match &s.plat {
        Plataforma::Xbox(p) => {
            assert_eq!(p.base, 0xB000);
            assert_eq!(p.tabela, 0xB000);
            assert_eq!(p.shift, 1);
            assert_eq!(p.le().unwrap(), d);
            assert!(!p.hashes_ok());
        }
        Plataforma::Pc => panic!("devia ser Xbox"),
    }
    assert_eq!(s.interno.d, d);
    let info = s.info();
    assert!(info.xbox);
    assert!(info.checksum_ok);
    assert_eq!(info.inventario.len(), 84);
    assert_eq!(info.chris.len(), 9);
    assert_eq!(info.sheva.len(), 9);
    assert_eq!(info.profile_id, "A0A1A2A3A4A5A6A7");
    assert_eq!(info.device_id, "000102030405060708090A0B0C0D0E0F10111213");
    assert!(!info.assinatura_ok);
    let (perfil, device) = ids_do_pacote(&pkg);
    assert_eq!(perfil, info.profile_id);
    assert_eq!(device, info.device_id);
    assert_eq!(ids_de_outro(&pkg).unwrap(), (perfil, device));
}

#[test]
fn xbox_grava_hashes_e_confere() {
    let d = interno(true, TAM_MINIMO);
    let mut s = Save::abre("savedata".into(), pacote_xbox(&d)).unwrap();
    let m = Mudancas {
        gold: Some(1_000_000),
        profile_id: Some("0011223344556677".into()),
        device_id: Some(" ffeeddccbbaa99887766554433221100ffeeddcc ".into()),
        inventario: vec![Slot { slot: 3, id: 0x0305, amount: 5 }],
        chris: vec![Slot { slot: 0, id: 0x0102, amount: 15 }],
        sheva: vec![Slot { slot: 8, id: 0x0201, amount: 99 }],
        ..Default::default()
    };
    s.aplica(&m).unwrap();
    let (bytes, console) = s.monta(None).unwrap();
    assert!(console.is_none());
    assert!(Save::confere(bytes.clone(), false));
    assert!(!Save::confere(bytes.clone(), true));
    let s2 = Save::abre("x".into(), bytes.clone()).unwrap();
    if let Plataforma::Xbox(p) = &s2.plat {
        assert!(p.hashes_ok());
    }
    let info = s2.info();
    assert_eq!(info.gold, 1_000_000);
    assert_eq!(info.profile_id, "0011223344556677");
    assert_eq!(info.device_id, "FFEEDDCCBBAA99887766554433221100FFEEDDCC");
    assert_eq!(info.inventario[3], Slot { slot: 3, id: 0x0305, amount: 5 });
    assert_eq!(info.chris[0], Slot { slot: 0, id: 0x0102, amount: 15 });
    assert_eq!(info.sheva[8], Slot { slot: 8, id: 0x0201, amount: 99 });
    // um byte trocado num bloco de dados quebra o hash
    let mut estragado = bytes;
    estragado[0xB000 + 3 * 0x1000 + 10] ^= 1;
    assert!(!Save::confere(estragado, false));
}

#[test]
fn xbox_assina_com_o_keyvault() {
    let kv = keyvault();
    assert!(pode_carregar(&kv));
    let k = ChaveConsole::carrega(&kv).unwrap();
    assert_eq!(k.console, "CONSOLE-123");
    let d = interno(true, TAM_MINIMO);
    let mut s = Save::abre("savedata".into(), pacote_xbox(&d)).unwrap();
    let (bytes, console) = s.monta(Some(&kv)).unwrap();
    assert_eq!(console.as_deref(), Some("CONSOLE-123"));
    assert!(assinatura_ok(&bytes));
    assert!(Save::confere(bytes.clone(), true));
    let info = Save::abre("x".into(), bytes).unwrap().info();
    assert!(info.assinatura_ok);
    assert_eq!(info.assinado_por, "CONSOLE-123");
}

#[test]
fn xbox_erros() {
    let d = interno(true, TAM_MINIMO);
    let pkg = pacote_xbox(&d);
    let mut s = Save::abre("x".into(), pkg.clone()).unwrap();
    let m = Mudancas { profile_id: Some("123".into()), ..Default::default() };
    match s.aplica(&m) {
        Err(Erro::HexInvalido(nome, n)) => {
            assert_eq!(nome, "O perfil (XUID)");
            assert_eq!(n, 16);
        }
        r => panic!("{:?}", r.err()),
    }
    let m = Mudancas { device_id: Some("zz".into()), ..Default::default() };
    assert!(matches!(s.aplica(&m), Err(Erro::HexInvalido(_, 40))));
    let m = Mudancas { inventario: vec![Slot { slot: 84, id: 1, amount: 1 }], ..Default::default() };
    assert!(matches!(s.aplica(&m), Err(Erro::SlotInventarioInvalido)));
    let m = Mudancas { inventario: vec![Slot { slot: 0, id: 0x10000, amount: 1 }], ..Default::default() };
    assert!(matches!(s.aplica(&m), Err(Erro::SlotInventarioInvalido)));
    let m = Mudancas { sheva: vec![Slot { slot: 9, id: 1, amount: 1 }], ..Default::default() };
    assert!(matches!(s.aplica(&m), Err(Erro::SlotPersonagemInvalido)));
    // keyvault recusado
    let mut kv = keyvault();
    kv[0x9C8] = 0;
    assert!(matches!(s.monta(Some(&kv)), Err(Erro::KeyvaultInvalido)));
    assert!(matches!(ChaveConsole::carrega(&[0u8; 16]), Err(Erro::KeyvaultInvalido)));
    // pacotes recusados
    assert!(matches!(ids_de_outro(&save_pc()), Err(Erro::NaoEXbox)));
    let mut grande = pkg.clone();
    grande[0x379 + 0x1F] = 0xAA;
    assert!(matches!(Save::abre("x".into(), grande), Err(Erro::PacoteGrande)));
    let curto = pkg[..0xB800].to_vec();
    assert!(matches!(Save::abre("x".into(), curto), Err(Erro::PacoteTruncado)));
    let mut sem = pkg.clone();
    sem[0xB000 + 0x2000] = b'X';
    assert!(matches!(Save::abre("x".into(), sem), Err(Erro::SemSavedata)));
    let mut pequeno = pkg.clone();
    pequeno[0xB000 + 0x2000 + 0x34..0xB000 + 0x2000 + 0x38].copy_from_slice(&0x100u32.to_be_bytes());
    assert!(matches!(Save::abre("x".into(), pequeno), Err(Erro::InternoPequeno)));
    let mut fora = pkg.clone();
    fora[0xB000 + 0x2000 + 0x2F] = 0x90;
    assert!(matches!(Save::abre("x".into(), fora), Err(Erro::BlocoFora)));
    let nao = vec![0u8; 0x100];
    assert!(matches!(Stfs::novo(nao), Err(Erro::NaoEStfs)));
}

#[test]
fn xbox_tamanho_mudou() {
    let d = interno(true, TAM_MINIMO);
    let mut s = Save::abre("x".into(), pacote_xbox(&d)).unwrap();
    s.interno.d.push(0);
    assert!(matches!(s.monta(None), Err(Erro::TamanhoMudou)));
}

#[test]
fn mensagens_dos_erros() {
    assert_eq!(Erro::SteamIdInvalido.mensagem(), "Steam ID precisa ser um número");
    assert_eq!(Erro::HexInvalido("O device ID".into(), 40).mensagem(), "O device ID precisa ter 40 dígitos hexadecimais");
    assert_eq!(Erro::ListaDesconhecida("x".into()).mensagem(), "lista desconhecida: x");
}

#[test]
fn o_que_pode_ser_conferido() {
    let d = interno(true, TAM_MINIMO);
    let pkg = pacote_xbox(&d);
    assert!(Save::pode_conferir(&pkg));
    // bytes que não abrem nunca levam a conferência a parar
    assert!(Save::pode_conferir(&[1, 2, 3]));
    assert!(!Save::confere(vec![1, 2, 3], false));
    // um save de PC sempre pode
    assert!(Save::pode_conferir(&save_pc()));
}

#[test]
fn montar_no_pc_nao_le_o_keyvault() {
    let mut s = Save::abre("x".into(), save_pc()).unwrap();
    assert!(!s.vai_gravar());
    // keyvault qualquer: no PC ele não é lido
    let kv = vec![0u8; 16];
    let (bytes, console) = s.monta(Some(&kv)).unwrap();
    assert!(console.is_none());
    assert!(Save::confere(bytes, false));
    let mut x = Save::abre("y".into(), pacote_xbox(&interno(true, TAM_MINIMO))).unwrap();
    assert!(x.vai_gravar());
    assert!(x.monta(None).is_ok());
}

#[test]
fn marcar_uma_lista_nao_mexe_nas_outras() {
    let mut i = Interno::pc(vec![0; TAM_MINIMO]);
    for k in 0..6 {
        i.set_bits(&lista(k), 0xA5A5_0000 | k as u64);
    }
    let antes: Vec<u64> = (0..6).map(|k| i.bits(&lista(k))).collect();
    let m = Mudancas { listas: vec![("filtros".into(), vec![true, false, true, true])], ..Default::default() };
    i.aplica_comum(&m).unwrap();
    for k in [0, 1, 3, 4, 5] {
        assert_eq!(i.bits(&lista(k)), antes[k]);
    }
    assert_eq!(i.bits(&lista(2)), 0xA5A5_0000 | 0b1011);
}
