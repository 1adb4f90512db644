//! O save aberto: descobre a plataforma, mostra o que tem, aplica as
//! mudanças e monta o arquivo final (Xbox 360: pacote STFS com hashes e,
//! com o keyvault, assinatura; PC: savedata.bin cifrado com XOR).
use vstd::prelude::*;
use vstd::slice::{slice_subrange, slice_to_vec};
use crate::bytes::{be32_spec, be32, copia_em, grava_palavra, grava_palavra_exec, lema_grava_palavra, palavra, byte_de};
use crate::erro::Erro;
use crate::sha::resumo;
use crate::texto::{lema_de_hex_volta, maiusculas_hex, apara, apara_spec, caracteres, de_hex, de_hex_spec, decimal, decimal_exec, hex, hex_spec, hex_valido, le_u64, numero_ate, texto_de};
use crate::interno::{aplica_lista_spec, indice_lista, lei_bits_da_lista, lista_pedida_ok, lei_checksum_fechado, Interno, Lista, Mudancas, Slot, aplica_listas_spec, com_data, com_gold_points, data_valida, erro_da_lista, primeira_invalida, TAM_MINIMO, OFF_CHECKSUM, OFF_DATA, N_LISTAS, bit, bits_em, checksum_spec, chave_spec, dupla_spec, lista_e, lista_ok, listas, nomes_spec, off_gold_spec, rel_spec, tam_spec, titulo_spec};
use crate::modelos::ListaDados;
use crate::pc::{cifra_spec, decifra_spec, lei_pc_ida_e_volta, lema_cifra_tamanho, pc_cifra, pc_decifra};
use crate::rsa::{cert_pkg, chave_genuina, lei_assinatura_confere, lei_bloco_da_assinatura, inverte, be_minimo, fixo_spec, bloco_pkcs, lema_be_minimo_tam, lema_valor_limite, p_kv, q_kv, assinatura_ok, assinatura_ok_spec, assinatura_spec, cert_kv, d_kv, e_kv, keyvault_aceito, n_kv, phi_kv, tem_inverso, texto_lossy, utf8_lossy_spec, valor_be, ChaveConsole, keyvault_sem_panico};
use crate::releitura::{lema_escreve, lema_mesmo_fim, lei_grava_le, regravado, regravavel};
use crate::stfs::{Stfs, escreve, grava_spec, hashes_ok_spec, ids_do_pacote, e_pacote_spec, e_pacote_stfs, be32_em, VD, tabela_de, base_de, shift_de, arquivo_spec, le_spec};

verus! {

/// Espaços do inventário (baú) do Xbox.
pub const XBOX_INV: usize = 0x3158;

pub const XBOX_INV_SLOTS: usize = 84;

pub const XBOX_CHRIS: usize = 0x3690;

pub const XBOX_SHEVA: usize = 0x3AB0;

pub const XBOX_SLOT_PERS: usize = 0x2C;

/// Slots visíveis do Chris e da Sheva.
pub const XBOX_PERS_VISIVEIS: usize = 9;

/// Perfil (XUID) e device ID no cabeçalho do pacote.
pub const PKG_PERFIL: usize = 0x371;

pub const PKG_DEVICE: usize = 0x3FD;

pub enum Plataforma {
    Xbox(Stfs),
    Pc,
}

/// O save aberto.
pub struct Save {
    pub caminho: String,
    pub plat: Plataforma,
    pub interno: Interno,
}

// ---------------------------------------------------------------- abrir

/// O pacote passa pelas conferências de `Stfs::novo`.
pub open spec fn pacote_ok(d: Seq<u8>) -> bool {
    &&& e_pacote_spec(d)
    &&& be32_em(d, VD + 0x1C) < 0xAA
    &&& tabela_de(d) + 0x1000 <= d.len()
}

/// O erro que `Stfs::novo` dá para um pacote recusado.
pub open spec fn erro_do_pacote(d: Seq<u8>) -> Erro {
    if !e_pacote_spec(d) {
        Erro::NaoEStfs
    } else if be32_em(d, VD + 0x1C) >= 0xAA {
        Erro::PacoteGrande
    } else {
        Erro::PacoteTruncado
    }
}

/// O savedata.bin de um pacote do Xbox, ou o erro.
pub open spec fn savedata_xbox(d: Seq<u8>) -> Result<Seq<u8>, Erro> {
    if !pacote_ok(d) {
        Err(erro_do_pacote(d))
    } else {
        match arquivo_spec(d, base_de(d) as int, shift_de(d), tabela_de(d) as int) {
            Err(e) => Err(e),
            Ok((bl, tam)) => if tam < TAM_MINIMO {
                Err(Erro::InternoPequeno)
            } else {
                Ok(le_spec(d, base_de(d) as int, shift_de(d), bl, tam as nat))
            },
        }
    }
}

/// O savedata.bin de um arquivo de PC (decifrado e com o checksum
/// conferido), ou o erro.
pub open spec fn savedata_pc(d: Seq<u8>) -> Result<Seq<u8>, Erro> {
    if d.len() < TAM_MINIMO {
        Err(Erro::ArquivoPequeno)
    } else {
        let c = decifra_spec(d);
        if palavra(c, OFF_CHECKSUM as int, false) != checksum_spec(c, false) {
            Err(Erro::NaoReconhecido)
        } else {
            Ok(c)
        }
    }
}

/// O savedata.bin do arquivo: pacote CON é Xbox 360; o resto é tentado como
/// save de PC.
pub open spec fn savedata_spec(d: Seq<u8>) -> Result<Seq<u8>, Erro> {
    if e_pacote_spec(d) {
        savedata_xbox(d)
    } else {
        savedata_pc(d)
    }
}

/// `Save::confere` só passa do checksum para os hashes de um pacote que
/// abre e cujo checksum confere; aí o hash do cabeçalho cobre
/// [0x344, início dos blocos), que precisa existir.
pub open spec fn confere_sem_panico(d: Seq<u8>) -> bool {
    match savedata_spec(d) {
        Ok(c) => (e_pacote_spec(d) && palavra(c, OFF_CHECKSUM as int, true) == checksum_spec(c, true)) ==> base_de(
            d,
        ) >= 0x344,
        Err(_) => true,
    }
}

impl Save {
    /// Plataforma, ordem dos bytes e tamanhos coerentes.
    pub open spec fn bem_formado(&self) -> bool {
        &&& self.interno.bem_formado()
        &&& match self.plat {
            Plataforma::Xbox(pkg) => self.interno.big_endian && pkg.bem_formado(),
            Plataforma::Pc => !self.interno.big_endian,
        }
    }

    /// Abre os bytes de um save e descobre a plataforma sozinho: pacote CON
    /// é Xbox 360; senão tenta o formato do PC e confere o checksum.
    pub fn abre(caminho: String, bruto: Vec<u8>) -> (r: Result<Save, Erro>)
        ensures
            match (r, savedata_spec(bruto@)) {
                (Ok(s), Ok(c)) => {
                    &&& s.caminho == caminho
                    &&& s.bem_formado()
                    &&& s.interno.d@ == c
                    &&& if e_pacote_spec(bruto@) {
                        &&& s.plat matches Plataforma::Xbox(pkg)
                        &&& pkg.d == bruto
                        &&& pkg.base == base_de(bruto@)
                        &&& pkg.shift == shift_de(bruto@)
                        &&& pkg.tabela == tabela_de(bruto@)
                    } else {
                        s.plat is Pc
                    }
                },
                (Err(e), Err(e2)) => e == e2,
                _ => false,
            },
    {
        if e_pacote_stfs(bruto.as_slice()) {
            let pkg = match Stfs::novo(bruto) {
                Ok(p) => p,
                Err(e) => return Err(e),
            };
            let d = match pkg.le() {
                Ok(d) => d,
                Err(e) => return Err(e),
            };
            if d.len() < TAM_MINIMO {
                return Err(Erro::InternoPequeno);
            }
            return Ok(Save { caminho, plat: Plataforma::Xbox(pkg), interno: Interno::xbox(d) });
        }
        if bruto.len() < TAM_MINIMO {
            return Err(Erro::ArquivoPequeno);
        }
        let interno = Interno::pc(pc_decifra(bruto.as_slice()));
        if interno.checksum_salvo() != interno.checksum() {
            return Err(Erro::NaoReconhecido);
        }
        Ok(Save { caminho, plat: Plataforma::Pc, interno })
    }
}

// ---------------------------------------------------------------- o que o save tem

/// Tudo o que o save aberto informa à tela.
pub struct Info {
    pub caminho: String,
    pub xbox: bool,
    /// Ano, mês, dia, hora, minuto, segundo.
    pub data: [u32; 6],
    pub gold: u32,
    pub points: u32,
    pub checksum_salvo: String,
    pub checksum_real: String,
    pub checksum_ok: bool,
    pub listas: Vec<ListaDados>,
    /// PC.
    pub steam_id: String,
    /// Xbox.
    pub profile_id: String,
    pub device_id: String,
    pub assinatura_ok: bool,
    pub assinado_por: String,
    pub inventario: Vec<Slot>,
    pub chris: Vec<Slot>,
    pub sheva: Vec<Slot>,
}

/// `v` com oito algarismos hexadecimais maiúsculos (`{:08X}`).
pub open spec fn hex8_spec(v: u32) -> Seq<char> {
    hex_spec(seq![byte_de(v, 3), byte_de(v, 2), byte_de(v, 1), byte_de(v, 0)])
}

pub fn hex8(v: u32) -> (r: String)
    ensures
        r@ == hex8_spec(v),
{
    let b = vec![
        ((v >> 24u32) & 0xff) as u8,
        ((v >> 16u32) & 0xff) as u8,
        ((v >> 8u32) & 0xff) as u8,
        (v & 0xff) as u8,
    ];
    assert(b@ =~= seq![byte_de(v, 3), byte_de(v, 2), byte_de(v, 1), byte_de(v, 0)]);
    hex(b.as_slice())
}

/// Os 8 primeiros bytes como número little-endian (o Steam ID do PC).
pub open spec fn le64_spec(d: Seq<u8>) -> u64 {
    (d[0] as u64) | ((d[1] as u64) << 8u64) | ((d[2] as u64) << 16u64) | ((d[3] as u64) << 24u64)
        | ((d[4] as u64) << 32u64) | ((d[5] as u64) << 40u64) | ((d[6] as u64) << 48u64) | ((
    d[7] as u64) << 56u64)
}

/// Palavra de 16 bits big-endian em `o`.
pub open spec fn be16_em(d: Seq<u8>, o: int) -> u32 {
    (d[o] as int * 256 + d[o + 1] as int) as u32
}

/// O espaço `i` do inventário do Xbox: ID e quantidade em 16 bits.
pub open spec fn slot_inv_spec(d: Seq<u8>, i: int) -> Slot {
    Slot {
        slot: i as usize,
        id: be16_em(d, XBOX_INV + 12 * i),
        amount: be16_em(d, XBOX_INV + 12 * i + 2),
    }
}

/// O slot `i` do personagem que começa em `base`: ID e quantidade em 32 bits.
pub open spec fn slot_pers_spec(d: Seq<u8>, base: int, i: int) -> Slot {
    Slot {
        slot: i as usize,
        id: be32_em(d, base + XBOX_SLOT_PERS * i),
        amount: be32_em(d, base + XBOX_SLOT_PERS * i + 4),
    }
}

/// A lista `k` como o save a descreve: chave, título, opções e quais estão
/// marcadas (a opção `i` é o bit `n - 1 - i`).
pub open spec fn lista_info_ok(li: &ListaDados, d: Seq<u8>, be: bool, k: int) -> bool {
    let n = tam_spec(k);
    let v = bits_em(d, be, rel_spec(k) as int, dupla_spec(k));
    &&& li.chave@ == chave_spec(k)
    &&& li.titulo@ == titulo_spec(k)
    &&& li.opcoes@.len() == n
    &&& forall|i: int| 0 <= i < n ==> #[trigger] li.opcoes@[i]@ == nomes_spec(k)[i]
    &&& li.marcados@.len() == n
    &&& forall|i: int| 0 <= i < n ==> #[trigger] li.marcados@[i] == bit(v, (n - 1 - i) as u64)
}

proof fn lema_bit_and(v: u64, j: u64)
    requires
        j < 64,
    ensures
        ((v & (1u64 << j)) != 0) == ((v >> j) & 1 == 1),
{
    assert(((v & (1u64 << j)) != 0) == ((v >> j) & 1 == 1)) by (bit_vector)
        requires
            j < 64,
    ;
}

fn lista_info(interno: &Interno, l: &Lista, Ghost(k): Ghost<int>) -> (r: ListaDados)
    requires
        interno.bem_formado(),
        0 <= k < N_LISTAS,
        lista_e(l, k),
        lista_ok(l),
    ensures
        lista_info_ok(&r, interno.d@, interno.big_endian, k),
{
    let v = interno.bits(l);
    let n = l.nomes.len();
    let mut opcoes: Vec<String> = Vec::new();
    let mut marcados: Vec<bool> = Vec::new();
    let mut i: usize = 0;
    while i < n
        invariant
            n == l.nomes@.len(),
            n == tam_spec(k),
            n <= 62,
            lista_e(l, k),
            lista_ok(l),
            v == bits_em(interno.d@, interno.big_endian, rel_spec(k) as int, dupla_spec(k)),
            i <= n,
            opcoes@.len() == i,
            marcados@.len() == i,
            forall|j: int| 0 <= j < i ==> #[trigger] opcoes@[j]@ == nomes_spec(k)[j],
            forall|j: int| 0 <= j < i ==> #[trigger] marcados@[j] == bit(v, (n - 1 - j) as u64),
        decreases n - i,
    {
        opcoes.push(l.nomes[i].to_owned());
        let b = Interno::bit_de(l, i);
        proof {
            lema_bit_and(v, (n - 1 - i) as u64);
        }
        marcados.push(v & b != 0);
        i += 1;
    }
    ListaDados { chave: l.chave.to_owned(), titulo: l.titulo.to_owned(), opcoes, marcados }
}

fn slot_inv(d: &[u8], i: usize) -> (r: Slot)
    requires
        i < XBOX_INV_SLOTS,
        d@.len() >= TAM_MINIMO,
    ensures
        r == slot_inv_spec(d@, i as int),
{
    let o = XBOX_INV + i * 12;
    Slot {
        slot: i,
        id: (d[o] as u32) * 256 + (d[o + 1] as u32),
        amount: (d[o + 2] as u32) * 256 + (d[o + 3] as u32),
    }
}

fn slots_pers(d: &[u8], base: usize) -> (r: Vec<Slot>)
    requires
        base == XBOX_CHRIS || base == XBOX_SHEVA,
        d@.len() >= TAM_MINIMO,
    ensures
        r@.len() == XBOX_PERS_VISIVEIS,
        forall|i: int|
            0 <= i < XBOX_PERS_VISIVEIS ==> #[trigger] r@[i] == slot_pers_spec(d@, base as int, i),
{
    let mut r: Vec<Slot> = Vec::new();
    let mut i: usize = 0;
    while i < XBOX_PERS_VISIVEIS
        invariant
            base == XBOX_CHRIS || base == XBOX_SHEVA,
            d@.len() >= TAM_MINIMO,
            i <= XBOX_PERS_VISIVEIS,
            r@.len() == i,
            forall|j: int| 0 <= j < i ==> #[trigger] r@[j] == slot_pers_spec(d@, base as int, j),
        decreases XBOX_PERS_VISIVEIS - i,
    {
        let o = base + i * XBOX_SLOT_PERS;
        r.push(Slot { slot: i, id: be32(d, o), amount: be32(d, o + 4) });
        i += 1;
    }
    r
}

impl Save {
    /// O que o save tem: data, dinheiro, checksum, listas e, conforme a
    /// plataforma, Steam ID ou perfil, device ID, assinatura, inventário e
    /// slots dos personagens.
    pub fn info(&self) -> (r: Info)
        requires
            self.bem_formado(),
        ensures
            ({
                let d = self.interno.d@;
                let be = self.interno.big_endian;
                &&& r.caminho == self.caminho
                &&& r.xbox == (self.plat is Xbox)
                &&& forall|i: int| 0 <= i < 6 ==> #[trigger] r.data@[i] == palavra(d, OFF_DATA + 4 * i, be)
                &&& r.gold == palavra(d, off_gold_spec(be), be)
                &&& r.points == palavra(d, off_gold_spec(be) + 4, be)
                &&& r.checksum_salvo@ == hex8_spec(palavra(d, OFF_CHECKSUM as int, be))
                &&& r.checksum_real@ == hex8_spec(checksum_spec(d, be))
                &&& r.checksum_ok == (palavra(d, OFF_CHECKSUM as int, be) == checksum_spec(d, be))
                &&& r.listas@.len() == N_LISTAS
                &&& forall|k: int| 0 <= k < N_LISTAS ==> lista_info_ok(#[trigger] &r.listas@[k], d, be, k)
                &&& match self.plat {
                    Plataforma::Pc => {
                        &&& r.steam_id@ == decimal(le64_spec(d) as nat)
                        &&& r.profile_id@.len() == 0
                        &&& r.device_id@.len() == 0
                        &&& !r.assinatura_ok
                        &&& r.assinado_por@.len() == 0
                        &&& r.inventario@.len() == 0
                        &&& r.chris@.len() == 0
                        &&& r.sheva@.len() == 0
                    },
                    Plataforma::Xbox(pkg) => {
                        &&& r.steam_id@.len() == 0
                        &&& r.profile_id@ == hex_spec(pkg.d@.subrange(0x371, 0x379))
                        &&& r.device_id@ == hex_spec(pkg.d@.subrange(0x3FD, 0x411))
                        &&& r.assinatura_ok == assinatura_ok_spec(pkg.d@)
                        &&& r.assinado_por@ == utf8_lossy_spec(pkg.d@.subrange(0xB, 0x16))
                        &&& r.inventario@.len() == XBOX_INV_SLOTS
                        &&& forall|i: int|
                            0 <= i < XBOX_INV_SLOTS ==> #[trigger] r.inventario@[i] == slot_inv_spec(d, i)
                        &&& r.chris@.len() == XBOX_PERS_VISIVEIS
                        &&& forall|i: int|
                            0 <= i < XBOX_PERS_VISIVEIS ==> #[trigger] r.chris@[i] == slot_pers_spec(
                                d,
                                XBOX_CHRIS as int,
                                i,
                            )
                        &&& r.sheva@.len() == XBOX_PERS_VISIVEIS
                        &&& forall|i: int|
                            0 <= i < XBOX_PERS_VISIVEIS ==> #[trigger] r.sheva@[i] == slot_pers_spec(
                                d,
                                XBOX_SHEVA as int,
                                i,
                            )
                    },
                }
            }),
    {
        let it = &self.interno;
        let og = it.off_gold();
        let data = [
            it.u32(OFF_DATA),
            it.u32(OFF_DATA + 4),
            it.u32(OFF_DATA + 8),
            it.u32(OFF_DATA + 12),
            it.u32(OFF_DATA + 16),
            it.u32(OFF_DATA + 20),
        ];
        let salvo = it.checksum_salvo();
        let calculado = it.checksum();
        let tabela = listas();
        let mut ls: Vec<ListaDados> = Vec::new();
        let mut k: usize = 0;
        while k < N_LISTAS
            invariant
                it.bem_formado(),
                tabela@.len() == N_LISTAS,
                forall|q: int| 0 <= q < N_LISTAS ==> lista_e(#[trigger] &tabela@[q], q) && lista_ok(&tabela@[q]),
                k <= N_LISTAS,
                ls@.len() == k,
                forall|q: int| 0 <= q < k ==> lista_info_ok(#[trigger] &ls@[q], it.d@, it.big_endian, q),
            decreases N_LISTAS - k,
        {
            ls.push(lista_info(it, &tabela[k], Ghost(k as int)));
            k += 1;
        }
        let caminho = self.caminho.clone();
        match &self.plat {
            Plataforma::Pc => {
                let d = &it.d;
                let id: u64 = (d[0] as u64) | ((d[1] as u64) << 8u64) | ((d[2] as u64) << 16u64) | ((
                d[3] as u64) << 24u64) | ((d[4] as u64) << 32u64) | ((d[5] as u64) << 40u64) | ((
                d[6] as u64) << 48u64) | ((d[7] as u64) << 56u64);
                let digitos = decimal_exec(id);
                Info {
                    caminho,
                    xbox: false,
                    data,
                    gold: it.u32(og),
                    points: it.u32(og + 4),
                    checksum_salvo: hex8(salvo),
                    checksum_real: hex8(calculado),
                    checksum_ok: salvo == calculado,
                    listas: ls,
                    steam_id: texto_de(&digitos),
                    profile_id: String::new(),
                    device_id: String::new(),
                    assinatura_ok: false,
                    assinado_por: String::new(),
                    inventario: Vec::new(),
                    chris: Vec::new(),
                    sheva: Vec::new(),
                }
            },
            Plataforma::Xbox(pkg) => {
                let d = it.d.as_slice();
                let (perfil, device) = ids_do_pacote(pkg.d.as_slice());
                let mut inv: Vec<Slot> = Vec::new();
                let mut i: usize = 0;
                while i < XBOX_INV_SLOTS
                    invariant
                        d@ == it.d@,
                        d@.len() >= TAM_MINIMO,
                        i <= XBOX_INV_SLOTS,
                        inv@.len() == i,
                        forall|j: int| 0 <= j < i ==> #[trigger] inv@[j] == slot_inv_spec(d@, j),
                    decreases XBOX_INV_SLOTS - i,
                {
                    inv.push(slot_inv(d, i));
                    i += 1;
                }
                Info {
                    caminho,
                    xbox: true,
                    data,
                    gold: it.u32(og),
                    points: it.u32(og + 4),
                    checksum_salvo: hex8(salvo),
                    checksum_real: hex8(calculado),
                    checksum_ok: salvo == calculado,
                    listas: ls,
                    steam_id: String::new(),
                    profile_id: perfil,
                    device_id: device,
                    assinatura_ok: assinatura_ok(pkg.d.as_slice()),
                    assinado_por: texto_lossy(slice_subrange(pkg.d.as_slice(), 0xB, 0x16)),
                    inventario: inv,
                    chris: slots_pers(d, XBOX_CHRIS),
                    sheva: slots_pers(d, XBOX_SHEVA),
                }
            },
        }
    }
}

// ---------------------------------------------------------------- aplicar mudanças

/// Dinheiro, pontos, data e listas aceitos.
pub open spec fn comum_ok(m: &Mudancas) -> bool {
    &&& m.data is None || data_valida(m.data.unwrap())
    &&& primeira_invalida(m.listas@) < 0
}

/// O savedata.bin com dinheiro, pontos, data e listas aplicados.
pub open spec fn comum_spec(d: Seq<u8>, be: bool, m: &Mudancas) -> Seq<u8> {
    aplica_listas_spec(com_data(com_gold_points(d, be, m.gold, m.points), be, m.data), be, m.listas@)
}

/// O erro de dinheiro, pontos, data e listas.
pub open spec fn erro_comum(m: &Mudancas, e: Erro) -> bool {
    if !(m.data is None || data_valida(m.data.unwrap())) {
        e == Erro::DataInvalida
    } else {
        erro_da_lista(m.listas@[primeira_invalida(m.listas@)], e)
    }
}

/// Steam ID aceito: ausente, em branco ou um número de 64 bits.
pub open spec fn steam_ok(m: &Mudancas) -> bool {
    match m.steam_id {
        None => true,
        Some(s) => apara_spec(s@).len() == 0 || numero_ate(apara_spec(s@), u64::MAX as nat) is Some,
    }
}

/// `d` com `v` nos 8 primeiros bytes, little-endian.
pub open spec fn grava_le64(d: Seq<u8>, v: u64) -> Seq<u8> {
    Seq::new(
        d.len(),
        |i: int|
            if i < 8 {
                ((v >> ((8 * i) as u64)) & 0xff) as u8
            } else {
                d[i]
            },
    )
}

/// O savedata.bin com o Steam ID pedido gravado.
pub open spec fn com_steam(d: Seq<u8>, m: &Mudancas) -> Seq<u8> {
    match m.steam_id {
        Some(s) => if apara_spec(s@).len() > 0 && numero_ate(apara_spec(s@), u64::MAX as nat) is Some {
            grava_le64(d, numero_ate(apara_spec(s@), u64::MAX as nat).unwrap() as u64)
        } else {
            d
        },
        None => d,
    }
}

/// ID em hexadecimal aceito: ausente, vazio ou com `tam` bytes.
pub open spec fn hex_ok(v: Option<String>, tam: nat) -> bool {
    match v {
        None => true,
        Some(s) => s@.len() == 0 || hex_valido(apara_spec(s@), tam),
    }
}

/// O pacote com o ID pedido gravado em `o`.
pub open spec fn com_hex(d: Seq<u8>, v: Option<String>, o: int, tam: nat) -> Seq<u8> {
    match v {
        Some(s) => if s@.len() > 0 {
            escreve(d, o, de_hex_spec(apara_spec(s@), tam))
        } else {
            d
        },
        None => d,
    }
}

pub open spec fn inv_ok(s: Slot) -> bool {
    s.slot < XBOX_INV_SLOTS && s.id <= 0xFFFF && s.amount <= 0xFFFF
}

/// `d` com o espaço do inventário gravado (ID e quantidade em 16 bits
/// big-endian).
pub open spec fn grava_inv_slot(d: Seq<u8>, s: Slot) -> Seq<u8> {
    let o = XBOX_INV + 12 * s.slot;
    d.update(o, (s.id / 256) as u8).update(o + 1, (s.id % 256) as u8).update(o + 2, (s.amount / 256) as u8).update(
        o + 3,
        (s.amount % 256) as u8,
    )
}

pub open spec fn grava_inv(d: Seq<u8>, ss: Seq<Slot>) -> Seq<u8>
    decreases ss.len(),
{
    if ss.len() == 0 {
        d
    } else {
        grava_inv_slot(grava_inv(d, ss.drop_last()), ss.last())
    }
}

pub open spec fn todos_inv_ok(ss: Seq<Slot>) -> bool {
    forall|i: int| 0 <= i < ss.len() ==> inv_ok(#[trigger] ss[i])
}

pub open spec fn pers_ok(s: Slot) -> bool {
    s.slot < XBOX_PERS_VISIVEIS
}

/// `d` com o slot do personagem gravado (ID e quantidade em 32 bits
/// big-endian).
pub open spec fn grava_pers_slot(d: Seq<u8>, base: int, s: Slot) -> Seq<u8> {
    let o = base + XBOX_SLOT_PERS * s.slot;
    grava_palavra(grava_palavra(d, o, s.id, true), o + 4, s.amount, true)
}

pub open spec fn grava_pers(d: Seq<u8>, base: int, ss: Seq<Slot>) -> Seq<u8>
    decreases ss.len(),
{
    if ss.len() == 0 {
        d
    } else {
        grava_pers_slot(grava_pers(d, base, ss.drop_last()), base, ss.last())
    }
}

pub open spec fn todos_pers_ok(ss: Seq<Slot>) -> bool {
    forall|i: int| 0 <= i < ss.len() ==> pers_ok(#[trigger] ss[i])
}

/// As mudanças próprias do Xbox são aceitas.
pub open spec fn xbox_ok(m: &Mudancas) -> bool {
    &&& hex_ok(m.profile_id, 8)
    &&& hex_ok(m.device_id, 20)
    &&& todos_inv_ok(m.inventario@)
    &&& todos_pers_ok(m.chris@)
    &&& todos_pers_ok(m.sheva@)
}

/// O erro das mudanças do Xbox: a primeira que falha, na ordem perfil,
/// device ID, inventário, Chris, Sheva.
pub open spec fn erro_xbox(m: &Mudancas, e: Erro) -> bool {
    if !hex_ok(m.profile_id, 8) {
        e matches Erro::HexInvalido(n, k) && n@ == "O perfil (XUID)"@ && k == 16
    } else if !hex_ok(m.device_id, 20) {
        e matches Erro::HexInvalido(n, k) && n@ == "O device ID"@ && k == 40
    } else if !todos_inv_ok(m.inventario@) {
        e == Erro::SlotInventarioInvalido
    } else {
        e == Erro::SlotPersonagemInvalido
    }
}

/// O savedata.bin quando dinheiro, pontos, data e listas param num erro: o
/// que veio antes do erro está aplicado.
pub open spec fn comum_ate_o_erro(d: Seq<u8>, be: bool, m: &Mudancas) -> Seq<u8> {
    let d1 = com_gold_points(d, be, m.gold, m.points);
    if !(m.data is None || data_valida(m.data.unwrap())) {
        d1
    } else {
        aplica_listas_spec(com_data(d1, be, m.data), be, m.listas@.take(primeira_invalida(m.listas@)))
    }
}

/// `d` é `d0` com os espaços do inventário gravados até o primeiro
/// inválido, exclusive.
pub open spec fn parou_no_inv(d0: Seq<u8>, ss: Seq<Slot>, d: Seq<u8>) -> bool {
    exists|k: int|
        0 <= k < ss.len() && !inv_ok(#[trigger] ss[k]) && todos_inv_ok(ss.take(k)) && d == grava_inv(
            d0,
            ss.take(k),
        )
}

/// `d` é `d0` com os slots do personagem gravados até o primeiro inválido,
/// exclusive.
pub open spec fn parou_no_pers(d0: Seq<u8>, base: int, ss: Seq<Slot>, d: Seq<u8>) -> bool {
    exists|k: int|
        0 <= k < ss.len() && !pers_ok(#[trigger] ss[k]) && todos_pers_ok(ss.take(k)) && d == grava_pers(
            d0,
            base,
            ss.take(k),
        )
}

/// O pacote (`p`) e o savedata.bin (`d`) quando as mudanças do Xbox param
/// no primeiro erro, a partir de `p0` e `d0`: o que veio antes está
/// aplicado.
pub open spec fn xbox_ate_o_erro(p0: Seq<u8>, d0: Seq<u8>, m: &Mudancas, p: Seq<u8>, d: Seq<u8>) -> bool {
    let p1 = com_hex(p0, m.profile_id, PKG_PERFIL as int, 8);
    let p2 = com_hex(p1, m.device_id, PKG_DEVICE as int, 20);
    let d1 = grava_inv(d0, m.inventario@);
    let d2 = grava_pers(d1, XBOX_CHRIS as int, m.chris@);
    if !hex_ok(m.profile_id, 8) {
        p == p0 && d == d0
    } else if !hex_ok(m.device_id, 20) {
        p == p1 && d == d0
    } else if !todos_inv_ok(m.inventario@) {
        p == p2 && parou_no_inv(d0, m.inventario@, d)
    } else if !todos_pers_ok(m.chris@) {
        p == p2 && parou_no_pers(d1, XBOX_CHRIS as int, m.chris@, d)
    } else {
        p == p2 && parou_no_pers(d2, XBOX_SHEVA as int, m.sheva@, d)
    }
}

fn grava_hex(pkg: &mut Stfs, v: &Option<String>, o: usize, tam: usize, nome: &str) -> (r: Result<(), Erro>)
    requires
        old(pkg).d@.len() >= 0x1000,
        o + tam <= 0x1000,
        tam <= 20,
    ensures
        final(pkg).base == old(pkg).base,
        final(pkg).shift == old(pkg).shift,
        final(pkg).tabela == old(pkg).tabela,
        final(pkg).d@.len() == old(pkg).d@.len(),
        match r {
            Ok(_) => hex_ok(*v, tam as nat) && final(pkg).d@ == com_hex(old(pkg).d@, *v, o as int, tam as nat),
            Err(e) => !hex_ok(*v, tam as nat) && (e matches Erro::HexInvalido(n, k) && n@ == nome@ && k
                == 2 * tam) && final(pkg).d == old(pkg).d,
        },
{
    match v {
        Some(s) => {
            if s.as_str().is_empty() {
                return Ok(());
            }
            let b = de_hex(s.as_str(), tam, nome)?;
            copia_em(&mut pkg.d, o, b.as_slice());
            Ok(())
        },
        None => Ok(()),
    }
}

/// Grava o Steam ID nos 8 primeiros bytes, little-endian.
fn grava_le64_exec(d: &mut Vec<u8>, id: u64)
    requires
        old(d)@.len() >= 8,
    ensures
        final(d)@ == grava_le64(old(d)@, id),
{
    let ghost d0 = d@;
    let mut i: usize = 0;
    while i < 8
        invariant
            i <= 8,
            d@.len() == d0.len(),
            d0.len() >= 8,
            forall|k: int|
                0 <= k < d0.len() ==> #[trigger] d@[k] == if k < i {
                    ((id >> ((8 * k) as u64)) & 0xff) as u8
                } else {
                    d0[k]
                },
        decreases 8 - i,
    {
        d.set(i, ((id >> ((8 * i) as u64)) & 0xff) as u8);
        i += 1;
    }
    assert(d@ =~= grava_le64(d0, id));
}

/// Grava os espaços do inventário pedidos, na ordem; o primeiro inválido
/// interrompe.
fn aplica_inv(d: &mut Vec<u8>, ss: &Vec<Slot>) -> (r: Result<(), Erro>)
    requires
        old(d)@.len() >= TAM_MINIMO,
    ensures
        final(d)@.len() == old(d)@.len(),
        match r {
            Ok(_) => todos_inv_ok(ss@) && final(d)@ == grava_inv(old(d)@, ss@),
            Err(e) => !todos_inv_ok(ss@) && e == Erro::SlotInventarioInvalido && parou_no_inv(
                old(d)@,
                ss@,
                final(d)@,
            ),
        },
{
    let ghost d0 = d@;
    let mut j: usize = 0;
    assert(ss@.take(0) =~= Seq::<Slot>::empty());
    while j < ss.len()
        invariant
            j <= ss@.len(),
            d0 == old(d)@,
            d@.len() == d0.len(),
            d0.len() >= TAM_MINIMO,
            todos_inv_ok(ss@.take(j as int)),
            d@ == grava_inv(d0, ss@.take(j as int)),
        decreases ss@.len() - j,
    {
        let s = &ss[j];
        if s.slot >= XBOX_INV_SLOTS || s.id > 0xFFFF || s.amount > 0xFFFF {
            assert(!inv_ok(ss@[j as int]));
            assert(parou_no_inv(d0, ss@, d@));
            return Err(Erro::SlotInventarioInvalido);
        }
        let o = XBOX_INV + s.slot * 12;
        d.set(o, (s.id / 256) as u8);
        d.set(o + 1, (s.id % 256) as u8);
        d.set(o + 2, (s.amount / 256) as u8);
        d.set(o + 3, (s.amount % 256) as u8);
        assert(ss@.take(j + 1).drop_last() =~= ss@.take(j as int));
        assert(ss@.take(j + 1).last() == ss@[j as int]);
        j += 1;
    }
    assert(ss@.take(ss@.len() as int) =~= ss@);
    Ok(())
}

/// Grava os slots pedidos do personagem que começa em `base`, na ordem; o
/// primeiro inválido interrompe.
fn aplica_pers(d: &mut Vec<u8>, base: usize, ss: &Vec<Slot>) -> (r: Result<(), Erro>)
    requires
        old(d)@.len() >= TAM_MINIMO,
        base == XBOX_CHRIS || base == XBOX_SHEVA,
    ensures
        final(d)@.len() == old(d)@.len(),
        match r {
            Ok(_) => todos_pers_ok(ss@) && final(d)@ == grava_pers(old(d)@, base as int, ss@),
            Err(e) => !todos_pers_ok(ss@) && e == Erro::SlotPersonagemInvalido && parou_no_pers(
                old(d)@,
                base as int,
                ss@,
                final(d)@,
            ),
        },
{
    let ghost d0 = d@;
    let mut j: usize = 0;
    assert(ss@.take(0) =~= Seq::<Slot>::empty());
    while j < ss.len()
        invariant
            j <= ss@.len(),
            base == XBOX_CHRIS || base == XBOX_SHEVA,
            d0 == old(d)@,
            d@.len() == d0.len(),
            d0.len() >= TAM_MINIMO,
            todos_pers_ok(ss@.take(j as int)),
            d@ == grava_pers(d0, base as int, ss@.take(j as int)),
        decreases ss@.len() - j,
    {
        let s = &ss[j];
        if s.slot >= XBOX_PERS_VISIVEIS {
            assert(!pers_ok(ss@[j as int]));
            assert(parou_no_pers(d0, base as int, ss@, d@));
            return Err(Erro::SlotPersonagemInvalido);
        }
        let o = base + s.slot * XBOX_SLOT_PERS;
        grava_palavra_exec(d, o, s.id, true);
        grava_palavra_exec(d, o + 4, s.amount, true);
        assert(ss@.take(j + 1).drop_last() =~= ss@.take(j as int));
        assert(ss@.take(j + 1).last() == ss@[j as int]);
        j += 1;
    }
    assert(ss@.take(ss@.len() as int) =~= ss@);
    Ok(())
}

impl Save {
    /// Aplica as mudanças: primeiro dinheiro, pontos, data e listas; depois,
    /// no PC, o Steam ID; no Xbox, perfil, device ID, inventário e slots do
    /// Chris e da Sheva.
    pub fn aplica(&mut self, m: &Mudancas) -> (r: Result<(), Erro>)
        requires
            old(self).bem_formado(),
        ensures
            final(self).bem_formado(),
            final(self).caminho == old(self).caminho,
            final(self).interno.big_endian == old(self).interno.big_endian,
            (old(self).plat is Pc) == (final(self).plat is Pc),
            match (old(self).plat, final(self).plat) {
                (Plataforma::Xbox(p0), Plataforma::Xbox(p1)) => p1.base == p0.base && p1.shift
                    == p0.shift && p1.tabela == p0.tabela && p1.d@.len() == p0.d@.len(),
                _ => true,
            },
            ({
                let d0 = old(self).interno.d@;
                let be = old(self).interno.big_endian;
                let d2 = comum_spec(d0, be, m);
                match r {
                    Ok(_) => {
                        &&& comum_ok(m)
                        &&& match (old(self).plat, final(self).plat) {
                            (Plataforma::Pc, Plataforma::Pc) => steam_ok(m) && final(self).interno.d@
                                == com_steam(d2, m),
                            (Plataforma::Xbox(p0), Plataforma::Xbox(p1)) => {
                                &&& xbox_ok(m)
                                &&& p1.d@ == com_hex(
                                    com_hex(p0.d@, m.profile_id, PKG_PERFIL as int, 8),
                                    m.device_id,
                                    PKG_DEVICE as int,
                                    20,
                                )
                                &&& final(self).interno.d@ == grava_pers(
                                    grava_pers(grava_inv(d2, m.inventario@), XBOX_CHRIS as int, m.chris@),
                                    XBOX_SHEVA as int,
                                    m.sheva@,
                                )
                            },
                            _ => false,
                        }
                    },
                    Err(e) => if !comum_ok(m) {
                        &&& erro_comum(m, e)
                        &&& final(self).interno.d@ == comum_ate_o_erro(d0, be, m)
                        &&& final(self).plat == old(self).plat
                    } else {
                        match (old(self).plat, final(self).plat) {
                            (Plataforma::Pc, Plataforma::Pc) => {
                                &&& !steam_ok(m)
                                &&& e == Erro::SteamIdInvalido
                                &&& final(self).interno.d@ == d2
                            },
                            (Plataforma::Xbox(p0), Plataforma::Xbox(p1)) => {
                                &&& !xbox_ok(m)
                                &&& erro_xbox(m, e)
                                &&& xbox_ate_o_erro(p0.d@, d2, m, p1.d@, final(self).interno.d@)
                            },
                            _ => false,
                        }
                    },
                }
            }),
    {
        let ghost d0 = self.interno.d@;
        match self.interno.aplica_comum(m) {
            Ok(_) => {},
            Err(e) => return Err(e),
        }
        let ghost d2 = self.interno.d@;
        assert(d2 == comum_spec(d0, self.interno.big_endian, m));
        match &mut self.plat {
            Plataforma::Pc => {
                if let Some(s) = &m.steam_id {
                    let c = caracteres(s.as_str());
                    let t = apara(&c);
                    if t.len() > 0 {
                        match le_u64(&t) {
                            Some(id) => grava_le64_exec(&mut self.interno.d, id),
                            None => return Err(Erro::SteamIdInvalido),
                        }
                    }
                }
                Ok(())
            },
            Plataforma::Xbox(pkg) => {
                grava_hex(pkg, &m.profile_id, PKG_PERFIL, 8, "O perfil (XUID)")?;
                grava_hex(pkg, &m.device_id, PKG_DEVICE, 20, "O device ID")?;
                aplica_inv(&mut self.interno.d, &m.inventario)?;
                aplica_pers(&mut self.interno.d, XBOX_CHRIS, &m.chris)?;
                aplica_pers(&mut self.interno.d, XBOX_SHEVA, &m.sheva)?;
                Ok(())
            },
        }
    }
}

// ---------------------------------------------------------------- montar e conferir

/// O savedata.bin com o checksum recalculado gravado em 0x08.
pub open spec fn fechado(d: Seq<u8>, be: bool) -> Seq<u8> {
    grava_palavra(d, OFF_CHECKSUM as int, checksum_spec(d, be), be)
}

/// O keyvault é aceito por `ChaveConsole::carrega`.
pub open spec fn keyvault_ok(kv: Seq<u8>) -> bool {
    keyvault_aceito(kv) && tem_inverso(valor_be(e_kv(kv)), phi_kv(kv))
}

/// O pacote `g` com o certificado do keyvault em 4 e a assinatura nova de
/// [0x22C, 0x344) em 0x1AC.
pub open spec fn assinado_spec(g: Seq<u8>, kv: Seq<u8>) -> Seq<u8> {
    let d1 = g.subrange(0, 4) + cert_kv(kv) + g.subrange(0x1AC, g.len() as int);
    d1.subrange(0, 0x1AC) + assinatura_spec(n_kv(kv), d_kv(kv), d1.subrange(0x22C, 0x344)) + d1.subrange(
        0x22C,
        d1.len() as int,
    )
}

/// O que `Save::confere` acha dos bytes de um arquivo gravado.
pub open spec fn confere_spec(d: Seq<u8>, assinado: bool) -> bool {
    match savedata_spec(d) {
        Err(_) => false,
        Ok(c) => {
            let be = e_pacote_spec(d);
            &&& palavra(c, OFF_CHECKSUM as int, be) == checksum_spec(c, be)
            &&& be ==> hashes_ok_spec(d, base_de(d) as int, shift_de(d), tabela_de(d) as int)
            &&& (be && assinado) ==> assinatura_ok_spec(d)
        },
    }
}

/// O keyvault dado, se houver, não leva `ChaveConsole::carrega` a um pânico.
pub open spec fn kv_sem_panico(kv: Option<&[u8]>) -> bool {
    match kv {
        Some(k) => keyvault_sem_panico(k@),
        None => true,
    }
}

impl Save {
    /// Xbox, e o savedata.bin com o checksum fechado tem o tamanho do arquivo
    /// do pacote: `monta` chega a gravar no pacote (e então a ler o
    /// keyvault).
    pub open spec fn grava_vai_adiante(&self) -> bool {
        match self.plat {
            Plataforma::Xbox(p) => p.arquivo() matches Ok((bl, tam)) && fechado(
                self.interno.d@,
                self.interno.big_endian,
            ).len() == tam,
            Plataforma::Pc => false,
        }
    }

    /// Onde começam os blocos do pacote (zero no PC).
    pub open spec fn base_do_pacote(&self) -> int {
        match self.plat {
            Plataforma::Xbox(p) => p.base as int,
            Plataforma::Pc => 0,
        }
    }

    /// Monta o arquivo final: grava o checksum; no PC cifra o savedata.bin;
    /// no Xbox grava-o no pacote (com os hashes) e, com o keyvault, troca o
    /// certificado e assina. Devolve os bytes e o console que assinou.
    pub fn monta(&mut self, kv: Option<&[u8]>) -> (r: Result<(Vec<u8>, Option<String>), Erro>)
        requires
            old(self).bem_formado(),
            old(self).grava_vai_adiante() ==> old(self).base_do_pacote() >= 0x344,
            old(self).grava_vai_adiante() ==> kv_sem_panico(kv),
        ensures
            final(self).bem_formado(),
            final(self).caminho == old(self).caminho,
            final(self).interno.big_endian == old(self).interno.big_endian,
            final(self).interno.d@ == fechado(old(self).interno.d@, old(self).interno.big_endian),
            ({
                let d1 = fechado(old(self).interno.d@, old(self).interno.big_endian);
                match old(self).plat {
                    Plataforma::Pc => {
                        &&& final(self).plat is Pc
                        &&& r matches Ok((b, c)) && b@ == cifra_spec(d1) && c is None
                    },
                    Plataforma::Xbox(p0) => {
                        &&& final(self).plat matches Plataforma::Xbox(p1) && p1.base == p0.base && p1.shift
                            == p0.shift && p1.tabela == p0.tabela
                        &&& match p0.arquivo() {
                            Err(e) => r matches Err(e2) && e2 == e,
                            Ok((bl, tam)) => if d1.len() != tam {
                                r matches Err(e) && e == Erro::TamanhoMudou
                            } else {
                                let g = grava_spec(
                                    p0.d@,
                                    p0.base as int,
                                    p0.shift,
                                    p0.tabela as int,
                                    bl,
                                    d1,
                                );
                                match kv {
                                    None => {
                                        &&& r matches Ok((b, c)) && b@ == g && c is None
                                        &&& final(self).plat matches Plataforma::Xbox(p1) && p1.d@ == g
                                    },
                                    Some(k) => if !keyvault_ok(k@) {
                                        r matches Err(e) && e == Erro::KeyvaultInvalido
                                    } else {
                                        &&& r matches Ok((b, c)) && b@ == assinado_spec(g, k@) && (c matches Some(
                                            cs,
                                        ) && cs@ == utf8_lossy_spec(cert_kv(k@).subrange(7, 0x12)))
                                        &&& final(self).plat matches Plataforma::Xbox(p1) && p1.d@
                                            == assinado_spec(g, k@)
                                    },
                                }
                            },
                        }
                    },
                }
            }),
    {
        self.interno.fecha_checksum();
        match &mut self.plat {
            Plataforma::Pc => Ok((pc_cifra(self.interno.d.as_slice()), None)),
            Plataforma::Xbox(pkg) => {
                pkg.grava(self.interno.d.as_slice())?;
                let mut console: Option<String> = None;
                if let Some(kv) = kv {
                    let k = ChaveConsole::carrega(kv)?;
                    pkg.reassina(&k);
                    console = Some(k.nome_console());
                }
                Ok((slice_to_vec(pkg.d.as_slice()), console))
            },
        }
    }

    /// Relê os bytes de um arquivo gravado e confere tudo o que dá para
    /// conferir: o checksum do savedata.bin e, no Xbox, os hashes do pacote e,
    /// se foi assinado, a assinatura.
    pub fn confere(bruto: Vec<u8>, assinado: bool) -> (r: bool)
        requires
            confere_sem_panico(bruto@),
        ensures
            r == confere_spec(bruto@, assinado),
    {
        let ghost d = bruto@;
        let s = match Save::abre(String::new(), bruto) {
            Ok(s) => s,
            Err(_) => return false,
        };
        let chk = s.interno.checksum_salvo() == s.interno.checksum();
        match &s.plat {
            Plataforma::Pc => chk,
            Plataforma::Xbox(pkg) => chk && pkg.hashes_ok() && (!assinado || assinatura_ok(pkg.d.as_slice())),
        }
    }

    /// Os bytes podem ser dados a `confere` (o teste de
    /// `confere_sem_panico`).
    pub fn pode_conferir(bruto: &[u8]) -> (r: bool)
        ensures
            r == confere_sem_panico(bruto@),
    {
        let s = match Save::abre(String::new(), slice_to_vec(bruto)) {
            Ok(s) => s,
            Err(_) => return true,
        };
        let chk = s.interno.checksum_salvo() == s.interno.checksum();
        match &s.plat {
            Plataforma::Pc => true,
            Plataforma::Xbox(pkg) => !chk || pkg.base >= 0x344,
        }
    }

    /// `monta` chega a gravar no pacote (o teste de `grava_vai_adiante`).
    pub fn vai_gravar(&self) -> (r: bool)
        requires
            self.bem_formado(),
        ensures
            r == self.grava_vai_adiante(),
    {
        match &self.plat {
            Plataforma::Pc => false,
            Plataforma::Xbox(p) => match p.blocos_do_arquivo() {
                Ok((_, tam)) => {
                    proof {
                        lema_grava_palavra(
                            self.interno.d@,
                            OFF_CHECKSUM as int,
                            checksum_spec(self.interno.d@, self.interno.big_endian),
                            self.interno.big_endian,
                        );
                    }
                    self.interno.d.len() == tam as usize
                },
                Err(_) => false,
            },
        }
    }
}

/// Perfil e device ID de outro save do Xbox (para trocar de perfil ou de
/// console).
pub fn ids_de_outro(d: &[u8]) -> (r: Result<(String, String), Erro>)
    ensures
        match r {
            Ok((perfil, device)) => {
                &&& e_pacote_spec(d@)
                &&& perfil@ == hex_spec(d@.subrange(0x371, 0x379))
                &&& device@ == hex_spec(d@.subrange(0x3FD, 0x411))
            },
            Err(e) => !e_pacote_spec(d@) && e == Erro::NaoEXbox,
        },
{
    if !e_pacote_stfs(d) {
        return Err(Erro::NaoEXbox);
    }
    Ok(ids_do_pacote(d))
}

// ---------------------------------------------------------------- leis

/// O ID que o campo pede, como é lido de volta do pacote: o texto sem
/// espaços nas pontas e em maiúsculas; sem pedido (ausente ou vazio), o
/// que já estava.
pub open spec fn id_lido(v: Option<String>, antes: Seq<char>) -> Seq<char> {
    match v {
        Some(s) => if s@.len() > 0 {
            maiusculas_hex(apara_spec(s@))
        } else {
            antes
        },
        None => antes,
    }
}

/// O perfil e o device ID gravados por `Save::aplica` no pacote são lidos
/// de volta (como `ids_do_pacote` os escreve) iguais ao pedido, sem espaços
/// nas pontas e em maiúsculas; nenhum outro byte do pacote muda.
pub proof fn lei_ids_gravados(p0: Seq<u8>, m: &Mudancas)
    requires
        p0.len() >= 0x1000,
        hex_ok(m.profile_id, 8),
        hex_ok(m.device_id, 20),
    ensures
        ({
            let p = com_hex(com_hex(p0, m.profile_id, PKG_PERFIL as int, 8), m.device_id, PKG_DEVICE as int, 20);
            &&& p.len() == p0.len()
            &&& hex_spec(p.subrange(0x371, 0x379)) == id_lido(m.profile_id, hex_spec(p0.subrange(0x371, 0x379)))
            &&& hex_spec(p.subrange(0x3FD, 0x411)) == id_lido(m.device_id, hex_spec(p0.subrange(0x3FD, 0x411)))
            &&& forall|k: int| 0 <= k < p0.len() && !(0x371 <= k < 0x379) && !(0x3FD <= k < 0x411) ==> #[trigger] p[k] == p0[k]
        }),
{
    let p1 = com_hex(p0, m.profile_id, PKG_PERFIL as int, 8);
    let p = com_hex(p1, m.device_id, PKG_DEVICE as int, 20);
    if let Some(s) = m.profile_id {
        if s@.len() > 0 {
            let b = de_hex_spec(apara_spec(s@), 8);
            lema_escreve(p0, 0x371, b);
            lema_de_hex_volta(apara_spec(s@), 8);
            assert(p1.subrange(0x371, 0x379) =~= b);
        } else {
            assert(p1 == p0);
        }
    } else {
        assert(p1 == p0);
    }
    assert(p1.len() == p0.len());
    if let Some(s) = m.device_id {
        if s@.len() > 0 {
            let b = de_hex_spec(apara_spec(s@), 20);
            lema_escreve(p1, 0x3FD, b);
            lema_de_hex_volta(apara_spec(s@), 20);
            assert(p.subrange(0x3FD, 0x411) =~= b);
            assert(p.subrange(0x371, 0x379) =~= p1.subrange(0x371, 0x379));
        } else {
            assert(p == p1);
        }
    } else {
        assert(p == p1);
    }
    if let Some(s) = m.profile_id {
        if s@.len() > 0 {
            assert(p1.subrange(0x3FD, 0x411) =~= p0.subrange(0x3FD, 0x411));
        }
    }
}

/// Um save de PC montado e relido dá de volta o savedata.bin com o checksum
/// recalculado, e `Save::confere` o aceita; fica de fora o arquivo cifrado
/// que por acaso comece como um pacote do Xbox ("CON ", "LIVE", "PIRS").
pub proof fn lei_pc_monta_confere(d: Seq<u8>, assinado: bool)
    requires
        d.len() >= TAM_MINIMO,
        !e_pacote_spec(cifra_spec(fechado(d, false))),
    ensures
        savedata_spec(cifra_spec(fechado(d, false))) == Ok::<Seq<u8>, Erro>(fechado(d, false)),
        confere_spec(cifra_spec(fechado(d, false)), assinado),
{
    let f = fechado(d, false);
    lei_checksum_fechado(d, false);
    lei_pc_ida_e_volta(f);
    lema_cifra_tamanho(f);
}

/// Montado sem keyvault e relido, um save do Xbox dá de volta o savedata.bin
/// com o checksum recalculado, e `Save::confere` aceita o pacote: checksum e
/// hashes conferem. Vale quando os blocos do savedata.bin podem ser
/// regravados sem se atropelar (`regravavel`).
pub proof fn lei_xbox_monta_confere(bruto: Seq<u8>, d: Seq<u8>)
    requires
        savedata_xbox(bruto) is Ok,
        base_de(bruto) >= 0x344,
        d.len() == savedata_xbox(bruto)->Ok_0.len(),
        regravavel(bruto, base_de(bruto) as int, shift_de(bruto), tabela_de(bruto) as int, fechado(d, true)),
    ensures
        ({
            let g = regravado(bruto, base_de(bruto) as int, shift_de(bruto), tabela_de(bruto) as int, fechado(d, true));
            &&& savedata_spec(g) == Ok::<Seq<u8>, Erro>(fechado(d, true))
            &&& confere_spec(g, false)
        }),
{
    let base = base_de(bruto) as int;
    let shift = shift_de(bruto);
    let tabela = tabela_de(bruto) as int;
    let f = fechado(d, true);
    let g = regravado(bruto, base, shift, tabela, f);
    lei_grava_le(bruto, base, shift, tabela, f);
    lei_checksum_fechado(d, true);
    assert(pacote_ok(g));
}

/// Assinar com um keyvault aceito o pacote montado não mexe no savedata.bin
/// nem nos hashes: relido, dá o mesmo conteúdo e `Save::confere` continua
/// aceitando checksum e hashes; com a chave de um console genuíno
/// (`chave_genuina`), aceita também a assinatura.
#[verifier::spinoff_prover]
#[verifier::rlimit(40)]
pub proof fn lei_xbox_assinado_confere(bruto: Seq<u8>, d: Seq<u8>, kv: Seq<u8>)
    requires
        savedata_xbox(bruto) is Ok,
        base_de(bruto) >= 0x344,
        d.len() == savedata_xbox(bruto)->Ok_0.len(),
        regravavel(bruto, base_de(bruto) as int, shift_de(bruto), tabela_de(bruto) as int, fechado(d, true)),
        keyvault_ok(kv),
        keyvault_sem_panico(kv),
    ensures
        ({
            let g = regravado(bruto, base_de(bruto) as int, shift_de(bruto), tabela_de(bruto) as int, fechado(d, true));
            &&& savedata_spec(assinado_spec(g, kv)) == Ok::<Seq<u8>, Erro>(fechado(d, true))
            &&& confere_spec(assinado_spec(g, kv), false)
            &&& chave_genuina(kv) ==> confere_spec(assinado_spec(g, kv), true)
        }),
{
    let base = base_de(bruto) as int;
    let shift = shift_de(bruto);
    let tabela = tabela_de(bruto) as int;
    let f = fechado(d, true);
    let g = regravado(bruto, base, shift, tabela, f);
    lei_xbox_monta_confere(bruto, d);
    lei_grava_le(bruto, base, shift, tabela, f);
    let a = assinado_spec(g, kv);
    // O tamanho da assinatura: o resto módulo n cabe em 128 bytes.
    let n = n_kv(kv);
    assert(valor_be(n) > 0) by (nonlinear_arith)
        requires
            valor_be(p_kv(kv)) * valor_be(q_kv(kv)) == valor_be(n),
            valor_be(p_kv(kv)) >= 2,
            valor_be(q_kv(kv)) >= 2,
    ;
    let d1 = g.subrange(0, 4) + cert_kv(kv) + g.subrange(0x1AC, g.len() as int);
    let m = valor_be(bloco_pkcs(d1.subrange(0x22C, 0x344)));
    let x = (vstd::arithmetic::power::pow(m as int, d_kv(kv)) % (valor_be(n) as int)) as nat;
    lema_valor_limite(n);
    lema_be_minimo_tam(x, 0x80);
    let sig = assinatura_spec(n, d_kv(kv), d1.subrange(0x22C, 0x344));
    assert(sig.len() == 0x80);
    assert(a.len() == g.len());
    assert forall|p: int| 0x22C <= p < g.len() implies g[p] == a[p] by {
    }
    assert(a[0] == g[0] && a[1] == g[1] && a[2] == g[2] && a[3] == g[3]);
    assert(a[0x340] == g[0x340] && a[0x341] == g[0x341] && a[0x342] == g[0x342] && a[0x343] == g[0x343]);
    assert(a[VD + 2] == g[VD + 2]);
    assert(a[VD + 0x1C] == g[VD + 0x1C] && a[VD + 0x1D] == g[VD + 0x1D] && a[VD + 0x1E] == g[VD + 0x1E]
        && a[VD + 0x1F] == g[VD + 0x1F]);
    assert(pacote_ok(a));
    lema_mesmo_fim(g, a, base, shift, tabela);
    if chave_genuina(kv) {
        lema_assinado_confere(g, kv);
    }
}

/// O pacote que `monta` assina com uma chave genuína passa na conferência
/// da assinatura, e o bloco que a chave pública recupera da assinatura é o
/// bloco PKCS #1 v1.5 de tipo 01 inteiro: 00 01, 90 bytes FF, 00, o
/// DigestInfo do SHA-1 e o SHA-1 de [0x22C, 0x344).
pub proof fn lema_assinado_confere(g: Seq<u8>, kv: Seq<u8>)
    requires
        g.len() >= 0x344,
        keyvault_ok(kv),
        chave_genuina(kv),
    ensures
        assinatura_ok_spec(assinado_spec(g, kv)),
        ({
            let a = assinado_spec(g, kv);
            let s = valor_be(inverte(a.subrange(0x1AC, 0x22C)));
            let r = fixo_spec(
                be_minimo(
                    (vstd::arithmetic::power::pow(s as int, valor_be(e_kv(kv))) % (valor_be(n_kv(kv)) as int)) as nat,
                ),
                0x80,
            );
            &&& r.len() == 0x80
            &&& r[0] == 0x00
            &&& r[1] == 0x01
            &&& forall|i: int| 2 <= i < 92 ==> #[trigger] r[i] == 0xFF
            &&& r[92] == 0x00
            &&& r.subrange(93, 108) == seq![
                0x30u8,
                0x21u8,
                0x30u8,
                0x09u8,
                0x06u8,
                0x05u8,
                0x2Bu8,
                0x0Eu8,
                0x03u8,
                0x02u8,
                0x1Au8,
                0x05u8,
                0x00u8,
                0x04u8,
                0x14u8,
            ]
            &&& r.subrange(108, 128) == resumo(a.subrange(0x22C, 0x344))
        }),
{
    let a = assinado_spec(g, kv);
    let d1 = g.subrange(0, 4) + cert_kv(kv) + g.subrange(0x1AC, g.len() as int);
    let sig = assinatura_spec(n_kv(kv), d_kv(kv), d1.subrange(0x22C, 0x344));
    let n = n_kv(kv);
    let x = (vstd::arithmetic::power::pow(valor_be(bloco_pkcs(d1.subrange(0x22C, 0x344))) as int, d_kv(kv))
        % (valor_be(n) as int)) as nat;
    assert(valor_be(n) > 0) by (nonlinear_arith)
        requires
            valor_be(p_kv(kv)) * valor_be(q_kv(kv)) == valor_be(n),
            valor_be(p_kv(kv)) >= 2,
            valor_be(q_kv(kv)) >= 2,
    ;
    lema_valor_limite(n);
    lema_be_minimo_tam(x, 0x80);
    assert(sig.len() == 0x80);
    assert(cert_pkg(a) =~= cert_kv(kv));
    assert(a.subrange(0x22C, 0x344) =~= d1.subrange(0x22C, 0x344));
    assert(a.subrange(0x1AC, 0x22C) =~= sig);
    lei_assinatura_confere(a, kv);
    lei_bloco_da_assinatura(a, kv);
}

/// O Steam ID gravado nos 8 primeiros bytes é lido de volta igual, e o resto
/// do savedata.bin não muda.
pub proof fn lei_steam_id(d: Seq<u8>, v: u64)
    requires
        d.len() >= 8,
    ensures
        grava_le64(d, v).len() == d.len(),
        le64_spec(grava_le64(d, v)) == v,
        forall|i: int| 8 <= i < d.len() ==> #[trigger] grava_le64(d, v)[i] == d[i],
{
    let g = grava_le64(d, v);
    let b0 = g[0];
    let b1 = g[1];
    let b2 = g[2];
    let b3 = g[3];
    let b4 = g[4];
    let b5 = g[5];
    let b6 = g[6];
    let b7 = g[7];
    assert(b0 == ((v >> 0u64) & 0xff) as u8);
    assert(b1 == ((v >> 8u64) & 0xff) as u8);
    assert(b2 == ((v >> 16u64) & 0xff) as u8);
    assert(b3 == ((v >> 24u64) & 0xff) as u8);
    assert(b4 == ((v >> 32u64) & 0xff) as u8);
    assert(b5 == ((v >> 40u64) & 0xff) as u8);
    assert(b6 == ((v >> 48u64) & 0xff) as u8);
    assert(b7 == ((v >> 56u64) & 0xff) as u8);
    assert((b0 as u64) | ((b1 as u64) << 8u64) | ((b2 as u64) << 16u64) | ((b3 as u64) << 24u64) | ((
    b4 as u64) << 32u64) | ((b5 as u64) << 40u64) | ((b6 as u64) << 48u64) | ((b7 as u64) << 56u64)
        == v) by (bit_vector)
        requires
            b0 == ((v >> 0u64) & 0xff) as u8,
            b1 == ((v >> 8u64) & 0xff) as u8,
            b2 == ((v >> 16u64) & 0xff) as u8,
            b3 == ((v >> 24u64) & 0xff) as u8,
            b4 == ((v >> 32u64) & 0xff) as u8,
            b5 == ((v >> 40u64) & 0xff) as u8,
            b6 == ((v >> 48u64) & 0xff) as u8,
            b7 == ((v >> 56u64) & 0xff) as u8,
    ;
}

/// Um espaço do inventário gravado é lido de volta igual, e os outros 83
/// espaços não mudam.
pub proof fn lei_espaco_do_inventario(d: Seq<u8>, s: Slot, j: int)
    requires
        d.len() >= TAM_MINIMO,
        inv_ok(s),
        0 <= j < XBOX_INV_SLOTS,
    ensures
        slot_inv_spec(grava_inv_slot(d, s), s.slot as int) == s,
        j != s.slot ==> slot_inv_spec(grava_inv_slot(d, s), j) == slot_inv_spec(d, j),
{
    let g = grava_inv_slot(d, s);
    let o = XBOX_INV + 12 * s.slot;
    assert(g[o] as int * 256 + g[o + 1] as int == s.id);
    assert(g[o + 2] as int * 256 + g[o + 3] as int == s.amount);
}

/// Um slot do personagem gravado é lido de volta igual, e os outros não
/// mudam.
pub proof fn lei_slot_do_personagem(d: Seq<u8>, base: int, s: Slot, j: int)
    requires
        d.len() >= TAM_MINIMO,
        base == XBOX_CHRIS || base == XBOX_SHEVA,
        pers_ok(s),
        0 <= j < XBOX_PERS_VISIVEIS,
    ensures
        slot_pers_spec(grava_pers_slot(d, base, s), base, s.slot as int) == s,
        j != s.slot ==> slot_pers_spec(grava_pers_slot(d, base, s), base, j) == slot_pers_spec(d, base, j),
{
    let o = base + XBOX_SLOT_PERS * s.slot;
    lema_grava_palavra(d, o, s.id, true);
    let d1 = grava_palavra(d, o, s.id, true);
    lema_grava_palavra(d1, o + 4, s.amount, true);
    let g = grava_pers_slot(d, base, s);
    assert(be32_em(g, o) == palavra(g, o, true));
    assert(palavra(g, o, true) == palavra(d1, o, true)) by {
        assert(g[o] == d1[o] && g[o + 1] == d1[o + 1] && g[o + 2] == d1[o + 2] && g[o + 3] == d1[o + 3]);
    }
    assert(be32_em(g, o + 4) == palavra(g, o + 4, true));
    if j != s.slot {
        let q = base + XBOX_SLOT_PERS * j;
        assert(g[q] == d[q] && g[q + 1] == d[q + 1] && g[q + 2] == d[q + 2] && g[q + 3] == d[q + 3]);
        assert(g[q + 4] == d[q + 4] && g[q + 5] == d[q + 5] && g[q + 6] == d[q + 6] && g[q + 7] == d[q + 7]);
    }
}

/// As marcas que `info` mostra de uma lista são os bits da palavra dela no
/// savedata.bin (em 0x70 + 4k no Xbox, 0x124 + 4k no PC; a das figuras
/// ocupa duas palavras, a de cima com os bits 32 a 63): a primeira opção é
/// o bit mais alto, n - 1, e a última o bit 0.
pub proof fn lei_marcas_mostradas(li: &ListaDados, d: Seq<u8>, be: bool, k: int, i: int)
    requires
        0 <= k < 6,
        lista_info_ok(li, d, be, k),
        0 <= i < li.marcados@.len(),
    ensures
        li.marcados@.len() == if k <= 2 {
            4nat
        } else if k == 3 {
            19nat
        } else if k == 4 {
            12nat
        } else {
            45nat
        },
        ({
            let o = (if be {
                0x70int
            } else {
                0x124int
            }) + 4 * k;
            let w = if k == 5 {
                (palavra(d, o, be) as u64) | ((palavra(d, o + 4, be) as u64) << 32u64)
            } else {
                palavra(d, o, be) as u64
            };
            li.marcados@[i] == ((w >> ((li.marcados@.len() - 1 - i) as u64)) & 1 == 1)
        }),
{
}

/// Marcar as opções de uma lista e mostrar o save: as marcas mostradas são
/// as pedidas, opção por opção, na mesma ordem.
pub proof fn lei_marcas_lidas_de_volta(li: &ListaDados, d: Seq<u8>, be: bool, p: (String, Vec<bool>))
    requires
        d.len() >= TAM_MINIMO,
        lista_pedida_ok(p),
        lista_info_ok(li, aplica_lista_spec(d, be, p), be, indice_lista(p.0@)),
    ensures
        li.marcados@ == p.1@,
{
    let n = p.1@.len();
    assert forall|i: int| 0 <= i < n implies #[trigger] li.marcados@[i] == p.1@[i] by {
        lei_bits_da_lista(d, be, p, (n - 1 - i) as u64);
    }
    assert(li.marcados@ =~= p.1@);
}

/// O espaço `i` do inventário, como `info` o mostra: o ID são os bytes
/// 0x3158 + 12i e 0x3158 + 12i + 1, a quantidade os dois seguintes, em 16
/// bits big-endian.
pub proof fn lei_espaco_lido(d: Seq<u8>, i: int)
    requires
        0 <= i < 84,
    ensures
        slot_inv_spec(d, i).slot == i,
        slot_inv_spec(d, i).id == d[0x3158 + 12 * i] as int * 256 + d[0x3158 + 12 * i + 1] as int,
        slot_inv_spec(d, i).amount == d[0x3158 + 12 * i + 2] as int * 256 + d[0x3158 + 12 * i + 3] as int,
{
}

/// Gravar um espaço do inventário põe o ID nos bytes 0x3158 + 12·slot e
/// seguinte e a quantidade nos dois depois, em big-endian; nenhum outro
/// byte muda.
pub proof fn lei_espaco_gravado(d: Seq<u8>, s: Slot)
    requires
        d.len() >= TAM_MINIMO,
        inv_ok(s),
    ensures
        ({
            let g = grava_inv_slot(d, s);
            let o = 0x3158 + 12 * s.slot;
            &&& g.len() == d.len()
            &&& g[o] as int == s.id / 256
            &&& g[o + 1] as int == s.id % 256
            &&& g[o + 2] as int == s.amount / 256
            &&& g[o + 3] as int == s.amount % 256
            &&& forall|j: int| 0 <= j < d.len() && !(o <= j < o + 4) ==> #[trigger] g[j] == d[j]
        }),
{
}

/// Bytes big-endian de 32 bits como número.
proof fn lema_be32_valor(b0: u8, b1: u8, b2: u8, b3: u8)
    ensures
        be32_spec(b0, b1, b2, b3) as int == b0 as int * 0x1000000 + b1 as int * 0x10000 + b2 as int * 0x100
            + b3 as int,
{
    assert(((b0 as u32) << 24) | ((b1 as u32) << 16) | ((b2 as u32) << 8) | (b3 as u32) == (b0 as u32) * 0x1000000
        + (b1 as u32) * 0x10000 + (b2 as u32) * 0x100 + (b3 as u32)) by (bit_vector);
}

/// O slot `i` do Chris (a partir de 0x3690) ou da Sheva (0x3AB0), como
/// `info` o mostra: slots de 0x2C bytes, ID nos 4 primeiros e quantidade nos
/// 4 seguintes, em 32 bits big-endian.
pub proof fn lei_slot_lido(d: Seq<u8>, base: int, i: int)
    requires
        base == 0x3690 || base == 0x3AB0,
        0 <= i < 9,
    ensures
        ({
            let o = base + 0x2C * i;
            &&& slot_pers_spec(d, base, i).slot == i
            &&& slot_pers_spec(d, base, i).id == d[o] as int * 0x1000000 + d[o + 1] as int * 0x10000 + d[o + 2] as int
                * 0x100 + d[o + 3] as int
            &&& slot_pers_spec(d, base, i).amount == d[o + 4] as int * 0x1000000 + d[o + 5] as int * 0x10000 + d[o
                + 6] as int * 0x100 + d[o + 7] as int
        }),
{
    let o = base + 0x2C * i;
    lema_be32_valor(d[o], d[o + 1], d[o + 2], d[o + 3]);
    lema_be32_valor(d[o + 4], d[o + 5], d[o + 6], d[o + 7]);
}

/// Os bytes de uma palavra de 32 bits, do mais alto ao mais baixo.
proof fn lema_bytes_da_palavra(v: u32)
    ensures
        byte_de(v, 3) as int == v / 0x1000000,
        byte_de(v, 2) as int == (v / 0x10000) % 256,
        byte_de(v, 1) as int == (v / 0x100) % 256,
        byte_de(v, 0) as int == v % 256,
{
    assert(((v >> 24u32) & 0xff) == v / 0x1000000) by (bit_vector);
    assert(((v >> 16u32) & 0xff) == (v / 0x10000) % 256) by (bit_vector);
    assert(((v >> 8u32) & 0xff) == (v / 0x100) % 256) by (bit_vector);
    assert((v & 0xff) == v % 256) by (bit_vector);
}

/// Gravar um slot do Chris (a partir de 0x3690) ou da Sheva (0x3AB0) põe o
/// ID nos 4 bytes em base + 0x2C·slot e a quantidade nos 4 seguintes, em
/// big-endian; nenhum outro byte muda.
pub proof fn lei_slot_gravado(d: Seq<u8>, base: int, s: Slot)
    requires
        d.len() >= TAM_MINIMO,
        base == 0x3690 || base == 0x3AB0,
        pers_ok(s),
    ensures
        ({
            let g = grava_pers_slot(d, base, s);
            let o = base + 0x2C * s.slot;
            &&& g.len() == d.len()
            &&& g[o] as int == s.id / 0x1000000
            &&& g[o + 1] as int == (s.id / 0x10000) % 256
            &&& g[o + 2] as int == (s.id / 0x100) % 256
            &&& g[o + 3] as int == s.id % 256
            &&& g[o + 4] as int == s.amount / 0x1000000
            &&& g[o + 5] as int == (s.amount / 0x10000) % 256
            &&& g[o + 6] as int == (s.amount / 0x100) % 256
            &&& g[o + 7] as int == s.amount % 256
            &&& forall|j: int| 0 <= j < d.len() && !(o <= j < o + 8) ==> #[trigger] g[j] == d[j]
        }),
{
    let o = base + 0x2C * s.slot;
    lema_grava_palavra(d, o, s.id, true);
    let d1 = grava_palavra(d, o, s.id, true);
    lema_grava_palavra(d1, o + 4, s.amount, true);
    lema_bytes_da_palavra(s.id);
    lema_bytes_da_palavra(s.amount);
}

/// Onde `info` lê os campos do savedata.bin: o dinheiro em 0xE0 no Xbox e
/// 0x194 no PC, os Exchange Points 4 bytes depois, a data (ano, mês, dia,
/// hora, minuto, segundo) em seis palavras a partir de 0x10, o checksum em
/// 0x08, e o Steam ID do PC nos 8 primeiros bytes, little-endian.
pub proof fn lei_onde_ficam_os_campos(d: Seq<u8>, be: bool)
    requires
        d.len() >= TAM_MINIMO,
    ensures
        off_gold_spec(be) == if be {
            0xE0int
        } else {
            0x194int
        },
        OFF_DATA == 0x10,
        OFF_CHECKSUM == 0x08,
        le64_spec(d) as int == d[0] as int + d[1] as int * 0x100 + d[2] as int * 0x10000 + d[3] as int * 0x1000000
            + d[4] as int * 0x100000000 + d[5] as int * 0x10000000000 + d[6] as int * 0x1000000000000 + d[7] as int
            * 0x100000000000000,
{
    let (b0, b1, b2, b3, b4, b5, b6, b7) = (d[0], d[1], d[2], d[3], d[4], d[5], d[6], d[7]);
    assert((b0 as u64) | ((b1 as u64) << 8u64) | ((b2 as u64) << 16u64) | ((b3 as u64) << 24u64) | ((b4 as u64)
        << 32u64) | ((b5 as u64) << 40u64) | ((b6 as u64) << 48u64) | ((b7 as u64) << 56u64) == (b0 as u64) + (
    b1 as u64) * 0x100 + (b2 as u64) * 0x10000 + (b3 as u64) * 0x1000000 + (b4 as u64) * 0x100000000 + (b5 as u64)
        * 0x10000000000 + (b6 as u64) * 0x1000000000000 + (b7 as u64) * 0x100000000000000) by (bit_vector);
}

} // verus!
