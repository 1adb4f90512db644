//! O savedata.bin decifrado, comum ao Xbox 360 e ao PC: checksum, dinheiro,
//! data e as listas de desbloqueio.
use vstd::prelude::*;
use crate::bytes::{grava_palavra, grava_palavra_exec, lema_grava_palavra, le_palavra, palavra};
use crate::erro::Erro;
use crate::texto::mesmo_texto;

verus! {

/// Tamanho mínimo do savedata.bin: o fim da segunda região do checksum.
pub const TAM_MINIMO: usize = 0x52B0;

pub const OFF_CHECKSUM: usize = 0x08;

pub const OFF_DATA: usize = 0x10;

// ---------------------------------------------------------------- listas

/// Lista de desbloqueios: o bit N é o item N a partir do fim da lista.
pub struct Lista {
    pub chave: &'static str,
    pub titulo: &'static str,
    /// Deslocamento a partir do início do bloco (Xbox 0x70 / PC 0x124).
    pub rel: usize,
    /// 64 bits (duas palavras: baixa, depois alta).
    pub dupla: bool,
    pub nomes: Vec<&'static str>,
}

/// Uma lista que cabe nas palavras do bloco.
pub open spec fn lista_ok(l: &Lista) -> bool {
    &&& 1 <= l.nomes@.len() <= 62
    &&& !l.dupla ==> l.nomes@.len() <= 32
    &&& l.rel <= 0x100
}

pub const N_LISTAS: usize = 6;

pub open spec fn chave_spec(k: int) -> Seq<char> {
    if k == 0 {
        "chris_roupas"@
    } else if k == 1 {
        "sheva_roupas"@
    } else if k == 2 {
        "filtros"@
    } else if k == 3 {
        "municao"@
    } else if k == 4 {
        "arquivos"@
    } else {
        "figuras"@
    }
}

pub open spec fn titulo_spec(k: int) -> Seq<char> {
    if k == 0 {
        "Roupas do Chris"@
    } else if k == 1 {
        "Roupas da Sheva"@
    } else if k == 2 {
        "Filtros de tela"@
    } else if k == 3 {
        "Munição infinita"@
    } else if k == 4 {
        "Arquivos (Biblioteca)"@
    } else {
        "Figuras"@
    }
}

/// Número de opções de cada lista.
pub open spec fn tam_spec(k: int) -> nat {
    if k <= 2 {
        4
    } else if k == 3 {
        19
    } else if k == 4 {
        12
    } else {
        45
    }
}

pub open spec fn rel_spec(k: int) -> usize {
    (4 * k) as usize
}

pub open spec fn dupla_spec(k: int) -> bool {
    k == 5
}

/// Nomes das opções da lista `k`, na ordem.
pub open spec fn nomes_spec(k: int) -> Seq<Seq<char>> {
    if k == 0 {
        seq!["Warrior"@, "S.T.A.R.S."@, "Safari"@, "BSAA"@]
    } else if k == 1 {
        seq!["Business"@, "Tribal"@, "Clubbin'"@, "BSAA"@]
    } else if k == 2 {
        seq!["Ruído"@, "Retrô"@, "Clássico"@, "Padrão"@]
    } else if k == 3 {
        seq!["RPG"@, "S&W M500"@, "L. Hawk"@, "S&W M29"@, "H&K PSG-1"@, "Dragunov SVD"@, "S75"@, "SIG 556"@, "H&K MP5"@, "AK-74"@, "VZ61"@, "Hydra"@, "Jail Breaker"@, "M3"@, "Ithaca M37"@, "M93R"@, "SIG P226"@, "H&K P8"@, "M92F"@]
    } else if k == 4 {
        seq!["Albert Wesker"@, "Excella Gionne"@, "Jill Valentine"@, "Tricell"@, "U-8"@, "Tribo Ndipaya"@, "Ricardo Irving"@, "Sheva Alomar"@, "Chris Redfield"@, "Majini"@, "BSAA"@, "A Saga de Resident Evil"@]
    } else {
        seq!["Jill (rara)"@, "Sheva (rara)"@, "Chris (rara)"@, "Irving (transformado)"@, "Ndesu"@, "Popokarimu"@, "U-8"@, "Uroboros Aheri"@, "Crocodilo"@, "Adjule"@, "Bui Kichwa"@, "Kipepeo"@, "Licker β"@, "Uroboros"@, "Majini de moto"@, "Majini da metralhadora"@, "Majini da motosserra"@, "Executioner Majini"@, "Big Man Majini"@, "Reaper"@, "Majini (Duvalia)"@, "Majini (Base B)"@, "Majini (Base A)"@, "Majini gigante"@, "Majini (Pântano C)"@, "Majini (Pântano B)"@, "Majini (Pântano A)"@, "Majini (Agitador)"@, "Majini (Cephalo)"@, "Majini (Vila D)"@, "Majini (Vila C)"@, "Majini (Vila B)"@, "Majini (Vila A)"@, "Reynard"@, "Kirk"@, "Dave"@, "DeChant"@, "Spencer"@, "Irving"@, "Excella"@, "Wesker"@, "Jill (controlada)"@, "Josh"@, "Sheva (BSAA)"@, "Chris (BSAA)"@]
    }
}

/// Índice da lista com essa chave, ou -1.
pub open spec fn indice_lista(c: Seq<char>) -> int {
    if c == chave_spec(0) {
        0
    } else if c == chave_spec(1) {
        1
    } else if c == chave_spec(2) {
        2
    } else if c == chave_spec(3) {
        3
    } else if c == chave_spec(4) {
        4
    } else if c == chave_spec(5) {
        5
    } else {
        -1
    }
}

/// A lista de índice `k` é a k-ésima da tabela.
pub open spec fn lista_e(l: &Lista, k: int) -> bool {
    &&& l.chave@ == chave_spec(k)
    &&& l.titulo@ == titulo_spec(k)
    &&& l.rel == rel_spec(k)
    &&& l.dupla == dupla_spec(k)
    &&& l.nomes@.len() == tam_spec(k)
    &&& forall|i: int| 0 <= i < tam_spec(k) ==> #[trigger] l.nomes@[i]@ == nomes_spec(k)[i]
}

/// A lista `k` (0 a 5): roupas do Chris, roupas da Sheva, filtros, munição
/// infinita, arquivos e figuras.
pub fn lista(k: usize) -> (l: Lista)
    requires
        k < N_LISTAS,
    ensures
        lista_e(&l, k as int),
        lista_ok(&l),
{
    if k == 0 {
        Lista {
            chave: "chris_roupas",
            titulo: "Roupas do Chris",
            rel: 0x00,
            dupla: false,
            nomes: vec!["Warrior", "S.T.A.R.S.", "Safari", "BSAA"],
        }
    } else if k == 1 {
        Lista {
            chave: "sheva_roupas",
            titulo: "Roupas da Sheva",
            rel: 0x04,
            dupla: false,
            nomes: vec!["Business", "Tribal", "Clubbin'", "BSAA"],
        }
    } else if k == 2 {
        Lista {
            chave: "filtros",
            titulo: "Filtros de tela",
            rel: 0x08,
            dupla: false,
            nomes: vec!["Ruído", "Retrô", "Clássico", "Padrão"],
        }
    } else if k == 3 {
        Lista {
            chave: "municao",
            titulo: "Munição infinita",
            rel: 0x0C,
            dupla: false,
            nomes: vec![
                "RPG",
                "S&W M500",
                "L. Hawk",
                "S&W M29",
                "H&K PSG-1",
                "Dragunov SVD",
                "S75",
                "SIG 556",
                "H&K MP5",
                "AK-74",
                "VZ61",
                "Hydra",
                "Jail Breaker",
                "M3",
                "Ithaca M37",
                "M93R",
                "SIG P226",
                "H&K P8",
                "M92F",
            ],
        }
    } else if k == 4 {
        Lista {
            chave: "arquivos",
            titulo: "Arquivos (Biblioteca)",
            rel: 0x10,
            dupla: false,
            nomes: vec![
                "Albert Wesker",
                "Excella Gionne",
                "Jill Valentine",
                "Tricell",
                "U-8",
                "Tribo Ndipaya",
                "Ricardo Irving",
                "Sheva Alomar",
                "Chris Redfield",
                "Majini",
                "BSAA",
                "A Saga de Resident Evil",
            ],
        }
    } else {
        Lista {
            chave: "figuras",
            titulo: "Figuras",
            rel: 0x14,
            dupla: true,
            nomes: vec![
                "Jill (rara)",
                "Sheva (rara)",
                "Chris (rara)",
                "Irving (transformado)",
                "Ndesu",
                "Popokarimu",
                "U-8",
                "Uroboros Aheri",
                "Crocodilo",
                "Adjule",
                "Bui Kichwa",
                "Kipepeo",
                "Licker β",
                "Uroboros",
                "Majini de moto",
                "Majini da metralhadora",
                "Majini da motosserra",
                "Executioner Majini",
                "Big Man Majini",
                "Reaper",
                "Majini (Duvalia)",
                "Majini (Base B)",
                "Majini (Base A)",
                "Majini gigante",
                "Majini (Pântano C)",
                "Majini (Pântano B)",
                "Majini (Pântano A)",
                "Majini (Agitador)",
                "Majini (Cephalo)",
                "Majini (Vila D)",
                "Majini (Vila C)",
                "Majini (Vila B)",
                "Majini (Vila A)",
                "Reynard",
                "Kirk",
                "Dave",
                "DeChant",
                "Spencer",
                "Irving",
                "Excella",
                "Wesker",
                "Jill (controlada)",
                "Josh",
                "Sheva (BSAA)",
                "Chris (BSAA)",
            ],
        }
    }
}

/// Todas as listas de desbloqueio, na ordem da tabela.
pub fn listas() -> (r: Vec<Lista>)
    ensures
        r@.len() == N_LISTAS,
        forall|k: int| 0 <= k < N_LISTAS ==> lista_e(#[trigger] &r@[k], k) && lista_ok(&r@[k]),
{
    let mut r: Vec<Lista> = Vec::new();
    let mut k: usize = 0;
    while k < N_LISTAS
        invariant
            k <= N_LISTAS,
            r@.len() == k,
            forall|j: int| 0 <= j < k ==> lista_e(#[trigger] &r@[j], j) && lista_ok(&r@[j]),
        decreases N_LISTAS - k,
    {
        r.push(lista(k));
        k += 1;
    }
    r
}

// ---------------------------------------------------------------- bits

/// O bit `k` de `v` está ligado.
pub open spec fn bit(v: u64, k: u64) -> bool {
    (v >> k) & 1 == 1
}

/// As opções marcadas como número: a primeira opção é o bit mais alto e a
/// última o bit 0.
pub open spec fn marcas(ms: Seq<bool>) -> nat
    decreases ms.len(),
{
    if ms.len() == 0 {
        0
    } else {
        marcas(ms.drop_last()) * 2 + (if ms.last() {
            1nat
        } else {
            0nat
        })
    }
}

/// Máscara com os `n` bits mais baixos ligados.
pub open spec fn mascara(n: nat) -> u64 {
    ((1u64 << (n as u64)) - 1) as u64
}

/// Bits da lista depois de marcar as opções `ms`: os `ms.len()` bits
/// baixos vêm das opções; os outros ficam como estavam.
pub open spec fn novos_bits(antigo: u64, ms: Seq<bool>) -> u64 {
    (antigo & !mascara(ms.len())) | (marcas(ms) as u64)
}

pub proof fn lema_marcas_limite(ms: Seq<bool>)
    ensures
        marcas(ms) < vstd::arithmetic::power2::pow2(ms.len()),
    decreases ms.len(),
{
    if ms.len() > 0 {
        lema_marcas_limite(ms.drop_last());
        vstd::arithmetic::power2::lemma_pow2_unfold(ms.len());
    } else {
        vstd::arithmetic::power2::lemma2_to64();
    }
}

proof fn lema_bit_dobro(x: u64, b: u64, k: u64)
    requires
        x < 0x4000_0000_0000_0000,
        b <= 1,
        k < 64,
    ensures
        k == 0 ==> (((x * 2 + b) as u64 >> k) & 1 == b),
        k > 0 ==> (((x * 2 + b) as u64 >> k) & 1 == (x >> ((k - 1) as u64)) & 1),
{
    assert(k == 0 ==> (((x * 2 + b) as u64 >> k) & 1 == b)) by (bit_vector)
        requires
            x < 0x4000_0000_0000_0000,
            b <= 1,
    ;
    assert(k > 0 ==> (((x * 2 + b) as u64 >> k) & 1 == (x >> ((k - 1) as u64)) & 1)) by (bit_vector)
        requires
            x < 0x4000_0000_0000_0000,
            b <= 1,
            k < 64,
    ;
}

/// O bit `k` das marcas é a opção `n - 1 - k`.
pub proof fn lema_bit_marcas(ms: Seq<bool>, k: u64)
    requires
        ms.len() <= 62,
        k < 64,
    ensures
        bit(marcas(ms) as u64, k) == (k < ms.len() && ms[ms.len() - 1 - k]),
    decreases ms.len(),
{
    lema_marcas_limite(ms);
    vstd::arithmetic::power2::lemma2_to64();
    vstd::arithmetic::power2::lemma2_to64_rest();
    if ms.len() < 62 {
        vstd::arithmetic::power2::lemma_pow2_strictly_increases(ms.len(), 62);
    }
    if ms.len() == 0 {
        assert((0u64 >> k) & 1 == 0) by (bit_vector);
    } else {
        let p = ms.drop_last();
        lema_marcas_limite(p);
        vstd::arithmetic::power2::lemma_pow2_strictly_increases(p.len(), 62);
        let x = marcas(p) as u64;
        let b: u64 = if ms.last() {
            1
        } else {
            0
        };
        assert(marcas(ms) == x * 2 + b);
        lema_bit_dobro(x, b, k);
        if k > 0 {
            lema_bit_marcas(p, (k - 1) as u64);
        }
    }
}

proof fn lema_combina(a: u64, c: u64, n: u64, k: u64)
    requires
        n < 64,
        k < 64,
        c < (1u64 << n),
    ensures
        (((a & !(((1u64 << n) - 1) as u64)) | c) >> k) & 1 == if k < n {
            (c >> k) & 1
        } else {
            (a >> k) & 1
        },
{
    assert((((a & !(((1u64 << n) - 1) as u64)) | c) >> k) & 1 == if k < n {
        (c >> k) & 1
    } else {
        (a >> k) & 1
    }) by (bit_vector)
        requires
            n < 64,
            k < 64,
            c < (1u64 << n),
    ;
}

/// Depois de marcar as opções, a opção `i` está marcada exatamente quando
/// foi pedida, e os bits fora da lista ficam como estavam.
pub proof fn lema_novos_bits(antigo: u64, ms: Seq<bool>, k: u64)
    requires
        ms.len() <= 62,
        k < 64,
    ensures
        bit(novos_bits(antigo, ms), k) == if k < ms.len() {
            ms[ms.len() - 1 - k]
        } else {
            bit(antigo, k)
        },
{
    let n = ms.len() as u64;
    lema_marcas_limite(ms);
    vstd::arithmetic::power2::lemma2_to64();
    vstd::arithmetic::power2::lemma2_to64_rest();
    if ms.len() < 62 {
        vstd::arithmetic::power2::lemma_pow2_strictly_increases(ms.len(), 62);
    }
    vstd::bits::lemma_u64_shl_is_mul(1, n);
    let c = marcas(ms) as u64;
    lema_combina(antigo, c, n, k);
    lema_bit_marcas(ms, k);
}

// ---------------------------------------------------------------- mudanças vindas da tela

/// Um espaço do inventário ou dos slots do personagem: ID do item e
/// quantidade.
#[derive(Clone, Debug, PartialEq, Eq, Structural)]
pub struct Slot {
    pub slot: usize,
    pub id: u32,
    pub amount: u32,
}

/// O que o usuário mudou na tela.
pub struct Mudancas {
    pub gold: Option<u32>,
    pub points: Option<u32>,
    /// Ano, mês, dia, hora, minuto, segundo.
    pub data: Option<[u32; 6]>,
    /// Chave da lista e as opções marcadas, na ordem da lista.
    pub listas: Vec<(String, Vec<bool>)>,
    pub steam_id: Option<String>,
    pub profile_id: Option<String>,
    pub device_id: Option<String>,
    pub inventario: Vec<Slot>,
    pub chris: Vec<Slot>,
    pub sheva: Vec<Slot>,
}

impl Mudancas {
    pub open spec fn vazia(&self) -> bool {
        &&& self.gold is None
        &&& self.points is None
        &&& self.data is None
        &&& self.listas@.len() == 0
        &&& self.steam_id is None
        &&& self.profile_id is None
        &&& self.device_id is None
        &&& self.inventario@.len() == 0
        &&& self.chris@.len() == 0
        &&& self.sheva@.len() == 0
    }
}

impl Default for Mudancas {
    fn default() -> (r: Self)
        ensures
            r.vazia(),
    {
        Mudancas {
            gold: None,
            points: None,
            data: None,
            listas: Vec::new(),
            steam_id: None,
            profile_id: None,
            device_id: None,
            inventario: Vec::new(),
            chris: Vec::new(),
            sheva: Vec::new(),
        }
    }
}

/// Data aceita pelo editor: ano 2000–2099, mês 1–12, dia 1–31, hora até 23,
/// minuto e segundo até 59.
pub open spec fn data_valida(dt: [u32; 6]) -> bool {
    &&& 2000 <= dt[0] <= 2099
    &&& 1 <= dt[1] <= 12
    &&& 1 <= dt[2] <= 31
    &&& dt[3] <= 23
    &&& dt[4] <= 59
    &&& dt[5] <= 59
}

/// `d` com as palavras `ws` gravadas em sequência a partir de `o`.
pub open spec fn grava_palavras(d: Seq<u8>, o: int, ws: Seq<u32>, be: bool) -> Seq<u8>
    decreases ws.len(),
{
    if ws.len() == 0 {
        d
    } else {
        grava_palavra(grava_palavras(d, o, ws.drop_last(), be), o + 4 * (ws.len() - 1), ws.last(), be)
    }
}

/// Dinheiro e pontos gravados, quando pedidos.
pub open spec fn com_gold_points(d: Seq<u8>, be: bool, gold: Option<u32>, points: Option<u32>) -> Seq<u8> {
    let d1 = match gold {
        Some(g) => grava_palavra(d, off_gold_spec(be), g, be),
        None => d,
    };
    match points {
        Some(p) => grava_palavra(d1, off_gold_spec(be) + 4, p, be),
        None => d1,
    }
}

/// Data gravada, quando pedida.
pub open spec fn com_data(d: Seq<u8>, be: bool, data: Option<[u32; 6]>) -> Seq<u8> {
    match data {
        Some(dt) => grava_palavras(d, OFF_DATA as int, dt@, be),
        None => d,
    }
}

/// A lista pedida existe e veio com o número certo de opções.
pub open spec fn lista_pedida_ok(p: (String, Vec<bool>)) -> bool {
    let k = indice_lista(p.0@);
    k >= 0 && p.1@.len() == tam_spec(k)
}

/// `d` com as opções da lista pedida marcadas.
pub open spec fn aplica_lista_spec(d: Seq<u8>, be: bool, p: (String, Vec<bool>)) -> Seq<u8> {
    let k = indice_lista(p.0@);
    grava_bits_em(
        d,
        be,
        rel_spec(k) as int,
        dupla_spec(k),
        novos_bits(bits_em(d, be, rel_spec(k) as int, dupla_spec(k)), p.1@),
    )
}

/// As listas pedidas aplicadas uma depois da outra.
pub open spec fn aplica_listas_spec(d: Seq<u8>, be: bool, ls: Seq<(String, Vec<bool>)>) -> Seq<u8>
    decreases ls.len(),
{
    if ls.len() == 0 {
        d
    } else {
        aplica_lista_spec(aplica_listas_spec(d, be, ls.drop_last()), be, ls.last())
    }
}

/// Índice da primeira lista pedida que não existe ou tem o número errado de
/// opções; -1 se todas estão certas.
pub open spec fn primeira_invalida(ls: Seq<(String, Vec<bool>)>) -> int
    decreases ls.len(),
{
    if ls.len() == 0 {
        -1
    } else {
        let p = primeira_invalida(ls.drop_last());
        if p >= 0 {
            p
        } else if !lista_pedida_ok(ls.last()) {
            ls.len() - 1
        } else {
            -1
        }
    }
}

proof fn lema_primeira_invalida(ls: Seq<(String, Vec<bool>)>, k: int, n: int)
    requires
        0 <= k <= n <= ls.len(),
        primeira_invalida(ls.take(k)) >= 0,
    ensures
        primeira_invalida(ls.take(n)) == primeira_invalida(ls.take(k)),
    decreases n - k,
{
    if n > k {
        lema_primeira_invalida(ls, k, n - 1);
        assert(ls.take(n).drop_last() =~= ls.take(n - 1));
    }
}

/// O erro dado pela lista pedida `p`, que não está certa.
pub open spec fn erro_da_lista(p: (String, Vec<bool>), e: Erro) -> bool {
    if indice_lista(p.0@) < 0 {
        e == Erro::ListaDesconhecida(p.0)
    } else {
        e matches Erro::QuantidadeErrada(t) && t@ == titulo_spec(indice_lista(p.0@))
    }
}

// ---------------------------------------------------------------- o savedata.bin

/// O savedata.bin decifrado, com a ordem dos bytes de cada plataforma:
/// big-endian no Xbox 360, little-endian no PC.
pub struct Interno {
    pub d: Vec<u8>,
    pub big_endian: bool,
}

/// Soma das `n` palavras a partir de `o`.
pub open spec fn soma_palavras(d: Seq<u8>, o: int, n: nat, be: bool) -> int
    decreases n,
{
    if n == 0 {
        0
    } else {
        soma_palavras(d, o, (n - 1) as nat, be) + palavra(d, o + 4 * (n - 1), be)
    }
}

/// Checksum: soma (módulo 2^32) das palavras de [0x10, 0x3BAC) e
/// [0x3BB0, 0x52B0).
pub open spec fn checksum_spec(d: Seq<u8>, be: bool) -> u32 {
    ((soma_palavras(d, 0x10, 3815, be) + soma_palavras(d, 0x3BB0, 1472, be)) % 0x1_0000_0000) as u32
}

/// Duas sequências que coincidem nas `n` palavras a partir de `o` somam igual.
pub proof fn lema_soma_igual(d1: Seq<u8>, d2: Seq<u8>, o: int, n: nat, be: bool)
    requires
        forall|i: int| o <= i < o + 4 * n ==> d1[i] == d2[i],
    ensures
        soma_palavras(d1, o, n, be) == soma_palavras(d2, o, n, be),
    decreases n,
{
    if n > 0 {
        lema_soma_igual(d1, d2, o, (n - 1) as nat, be);
        let p = o + 4 * (n - 1);
        assert(d1[p] == d2[p] && d1[p + 1] == d2[p + 1] && d1[p + 2] == d2[p + 2] && d1[p + 3]
            == d2[p + 3]);
    }
}

/// Deslocamento do dinheiro (Gold / Money); os Exchange Points vêm logo depois.
pub open spec fn off_gold_spec(be: bool) -> int {
    if be {
        0xE0
    } else {
        0x194
    }
}

/// Início do bloco das listas de desbloqueio.
pub open spec fn off_listas_spec(be: bool) -> int {
    if be {
        0x70
    } else {
        0x124
    }
}

/// Bits da lista que fica em `rel` (duas palavras se `dupla`).
pub open spec fn bits_em(d: Seq<u8>, be: bool, rel: int, dupla: bool) -> u64 {
    let o = off_listas_spec(be) + rel;
    let baixo = palavra(d, o, be) as u64;
    if dupla {
        baixo | ((palavra(d, o + 4, be) as u64) << 32u64)
    } else {
        baixo
    }
}

/// `d` com os bits `v` gravados na lista que fica em `rel`.
pub open spec fn grava_bits_em(d: Seq<u8>, be: bool, rel: int, dupla: bool, v: u64) -> Seq<u8> {
    let o = off_listas_spec(be) + rel;
    let d1 = grava_palavra(d, o, v as u32, be);
    if dupla {
        grava_palavra(d1, o + 4, (v >> 32u64) as u32, be)
    } else {
        d1
    }
}

/// Bits de uma lista lidos de `d`.
pub open spec fn bits_spec(d: Seq<u8>, be: bool, l: &Lista) -> u64 {
    bits_em(d, be, l.rel as int, l.dupla)
}

/// `d` com os bits `v` gravados na lista.
pub open spec fn grava_bits(d: Seq<u8>, be: bool, l: &Lista, v: u64) -> Seq<u8> {
    grava_bits_em(d, be, l.rel as int, l.dupla, v)
}

proof fn lema_junta_palavras(v: u64)
    ensures
        ((v as u32) as u64) | ((((v >> 32u64) as u32) as u64) << 32u64) == v,
        v < 0x1_0000_0000 ==> (v as u32) as u64 == v,
{
    assert(((v as u32) as u64) | ((((v >> 32u64) as u32) as u64) << 32u64) == v) by (bit_vector);
    assert(v < 0x1_0000_0000 ==> (v as u32) as u64 == v) by (bit_vector);
}

/// Bits gravados numa lista são lidos de volta iguais (numa lista simples,
/// quando cabem em 32 bits), e o resto do arquivo não muda.
pub proof fn lema_grava_bits(d: Seq<u8>, be: bool, rel: int, dupla: bool, v: u64)
    requires
        0 <= rel <= 0x100,
        d.len() >= TAM_MINIMO,
        !dupla ==> v < 0x1_0000_0000,
    ensures
        grava_bits_em(d, be, rel, dupla, v).len() == d.len(),
        bits_em(grava_bits_em(d, be, rel, dupla, v), be, rel, dupla) == v,
        forall|i: int|
            0 <= i < d.len() && !(off_listas_spec(be) + rel <= i < off_listas_spec(be) + rel + 8)
                ==> #[trigger] grava_bits_em(d, be, rel, dupla, v)[i] == d[i],
{
    let o = off_listas_spec(be) + rel;
    let d1 = grava_palavra(d, o, v as u32, be);
    lema_grava_palavra(d, o, v as u32, be);
    lema_junta_palavras(v);
    if dupla {
        lema_grava_palavra(d1, o + 4, (v >> 32u64) as u32, be);
        let d2 = grava_palavra(d1, o + 4, (v >> 32u64) as u32, be);
        assert(palavra(d2, o, be) == palavra(d1, o, be)) by {
            assert(d2[o] == d1[o] && d2[o + 1] == d1[o + 1] && d2[o + 2] == d1[o + 2] && d2[o + 3]
                == d1[o + 3]);
        }
    }
}

impl Interno {
    pub open spec fn bem_formado(&self) -> bool {
        self.d@.len() >= TAM_MINIMO
    }

    pub fn xbox(d: Vec<u8>) -> (r: Self)
        ensures
            r.d == d,
            r.big_endian,
    {
        Interno { d, big_endian: true }
    }

    pub fn pc(d: Vec<u8>) -> (r: Self)
        ensures
            r.d == d,
            !r.big_endian,
    {
        Interno { d, big_endian: false }
    }

    pub fn off_gold(&self) -> (r: usize)
        ensures
            r == off_gold_spec(self.big_endian),
    {
        if self.big_endian {
            0xE0
        } else {
            0x194
        }
    }

    pub fn off_listas(&self) -> (r: usize)
        ensures
            r == off_listas_spec(self.big_endian),
    {
        if self.big_endian {
            0x70
        } else {
            0x124
        }
    }

    /// A palavra em `o`, na ordem de bytes da plataforma.
    pub fn u32(&self, o: usize) -> (r: u32)
        requires
            o + 4 <= self.d@.len(),
        ensures
            r == palavra(self.d@, o as int, self.big_endian),
    {
        le_palavra(self.d.as_slice(), o, self.big_endian)
    }

    pub fn set32(&mut self, o: usize, v: u32)
        requires
            o + 4 <= old(self).d@.len(),
        ensures
            final(self).big_endian == old(self).big_endian,
            final(self).d@ == grava_palavra(old(self).d@, o as int, v, old(self).big_endian),
    {
        let be = self.big_endian;
        grava_palavra_exec(&mut self.d, o, v, be);
    }

    /// Checksum calculado sobre as duas regiões.
    pub fn checksum(&self) -> (r: u32)
        requires
            self.bem_formado(),
        ensures
            r == checksum_spec(self.d@, self.big_endian),
    {
        let be = self.big_endian;
        let mut acc: u32 = 0;
        let mut i: usize = 0;
        while i < 3815
            invariant
                self.bem_formado(),
                be == self.big_endian,
                i <= 3815,
                acc == soma_palavras(self.d@, 0x10, i as nat, be) % 0x1_0000_0000,
            decreases 3815 - i,
        {
            let w = self.u32(0x10 + i * 4);
            proof {
                vstd::arithmetic::div_mod::lemma_add_mod_noop(
                    soma_palavras(self.d@, 0x10, i as nat, be),
                    w as int,
                    0x1_0000_0000,
                );
            }
            acc = acc.wrapping_add(w);
            i += 1;
        }
        let ghost a = soma_palavras(self.d@, 0x10, 3815, be);
        let mut j: usize = 0;
        while j < 1472
            invariant
                self.bem_formado(),
                be == self.big_endian,
                j <= 1472,
                acc == (a + soma_palavras(self.d@, 0x3BB0, j as nat, be)) % 0x1_0000_0000,
            decreases 1472 - j,
        {
            let w = self.u32(0x3BB0 + j * 4);
            proof {
                vstd::arithmetic::div_mod::lemma_add_mod_noop(
                    a + soma_palavras(self.d@, 0x3BB0, j as nat, be),
                    w as int,
                    0x1_0000_0000,
                );
            }
            acc = acc.wrapping_add(w);
            j += 1;
        }
        acc
    }

    /// O checksum gravado no arquivo (offset 0x08).
    pub fn checksum_salvo(&self) -> (r: u32)
        requires
            self.bem_formado(),
        ensures
            r == palavra(self.d@, OFF_CHECKSUM as int, self.big_endian),
    {
        self.u32(OFF_CHECKSUM)
    }

    /// Grava no offset 0x08 o checksum calculado.
    pub fn fecha_checksum(&mut self)
        requires
            old(self).bem_formado(),
        ensures
            final(self).big_endian == old(self).big_endian,
            final(self).d@ == grava_palavra(
                old(self).d@,
                OFF_CHECKSUM as int,
                checksum_spec(old(self).d@, old(self).big_endian),
                old(self).big_endian,
            ),
            final(self).bem_formado(),
            palavra(final(self).d@, OFF_CHECKSUM as int, final(self).big_endian) == checksum_spec(
                final(self).d@,
                final(self).big_endian,
            ),
    {
        let c = self.checksum();
        let ghost antes = self.d@;
        self.set32(OFF_CHECKSUM, c);
        proof {
            lei_checksum_fechado(antes, self.big_endian);
        }
    }

    /// Bits da lista (64 bits se ela for dupla).
    pub fn bits(&self, l: &Lista) -> (r: u64)
        requires
            self.bem_formado(),
            lista_ok(l),
        ensures
            r == bits_spec(self.d@, self.big_endian, l),
    {
        let o = self.off_listas() + l.rel;
        let baixo = self.u32(o) as u64;
        if l.dupla {
            baixo | ((self.u32(o + 4) as u64) << 32u64)
        } else {
            baixo
        }
    }

    /// Grava os bits da lista.
    pub fn set_bits(&mut self, l: &Lista, v: u64)
        requires
            old(self).bem_formado(),
            lista_ok(l),
        ensures
            final(self).big_endian == old(self).big_endian,
            final(self).d@ == grava_bits(old(self).d@, old(self).big_endian, l, v),
    {
        let o = self.off_listas() + l.rel;
        self.set32(o, v as u32);
        if l.dupla {
            self.set32(o + 4, (v >> 32u64) as u32);
        }
    }

    /// Bit do item `i` da lista (o último da lista é o bit 0).
    pub fn bit_de(l: &Lista, i: usize) -> (r: u64)
        requires
            lista_ok(l),
            i < l.nomes@.len(),
        ensures
            r == 1u64 << ((l.nomes@.len() - 1 - i) as u64),
    {
        1u64 << ((l.nomes.len() - 1 - i) as u64)
    }

    /// Marca as opções `ms` na lista: os bits de cada opção passam a ser o
    /// pedido e os bits fora da lista ficam como estavam.
    pub fn marca_lista(&mut self, l: &Lista, ms: &Vec<bool>)
        requires
            old(self).bem_formado(),
            lista_ok(l),
            ms@.len() == l.nomes@.len(),
        ensures
            final(self).big_endian == old(self).big_endian,
            final(self).d@ == grava_bits(
                old(self).d@,
                old(self).big_endian,
                l,
                novos_bits(bits_spec(old(self).d@, old(self).big_endian, l), ms@),
            ),
    {
        let antigo = self.bits(l);
        let n = ms.len();
        let mut acc: u64 = 0;
        let mut i: usize = 0;
        proof {
            vstd::arithmetic::power2::lemma2_to64();
            vstd::arithmetic::power2::lemma2_to64_rest();
        }
        while i < n
            invariant
                n == ms@.len(),
                n <= 62,
                i <= n,
                acc == marcas(ms@.subrange(0, i as int)),
                vstd::arithmetic::power2::pow2(62) == 0x4000_0000_0000_0000,
            decreases n - i,
        {
            proof {
                lema_marcas_limite(ms@.subrange(0, i as int));
                if i < 62 {
                    vstd::arithmetic::power2::lemma_pow2_strictly_increases(i as nat, 62);
                }
                assert(ms@.subrange(0, i + 1).drop_last() =~= ms@.subrange(0, i as int));
            }
            let b: u64 = if ms[i] {
                1
            } else {
                0
            };
            acc = acc * 2 + b;
            i += 1;
        }
        assert(ms@.subrange(0, n as int) =~= ms@);
        proof {
            vstd::bits::lemma_u64_shl_is_mul(1, n as u64);
            vstd::arithmetic::power2::lemma_pow2_pos(n as nat);
        }
        let mascara_n = (1u64 << (n as u64)) - 1;
        let v = (antigo & !mascara_n) | acc;
        self.set_bits(l, v);
    }

    /// Aplica dinheiro, pontos, data e listas de desbloqueio, nessa ordem.
    /// Só os bits de cada lista mudam; os outros bits ficam como estavam.
    pub fn aplica_comum(&mut self, m: &Mudancas) -> (r: Result<(), Erro>)
        requires
            old(self).bem_formado(),
        ensures
            final(self).big_endian == old(self).big_endian,
            final(self).bem_formado(),
            ({
                let be = old(self).big_endian;
                let d1 = com_gold_points(old(self).d@, be, m.gold, m.points);
                let data_ok = m.data is None || data_valida(m.data.unwrap());
                let d2 = com_data(d1, be, m.data);
                let j = primeira_invalida(m.listas@);
                match r {
                    Ok(_) => data_ok && j < 0 && final(self).d@ == aplica_listas_spec(
                        d2,
                        be,
                        m.listas@,
                    ),
                    Err(e) => if !data_ok {
                        e == Erro::DataInvalida && final(self).d@ == d1
                    } else {
                        &&& 0 <= j < m.listas@.len()
                        &&& erro_da_lista(m.listas@[j], e)
                        &&& final(self).d@ == aplica_listas_spec(d2, be, m.listas@.take(j))
                    },
                }
            }),
    {
        let be = self.big_endian;
        let ghost d0 = self.d@;
        proof {
            lema_grava_palavra(d0, off_gold_spec(be), m.gold.unwrap_or(0), be);
        }
        if let Some(g) = m.gold {
            let o = self.off_gold();
            self.set32(o, g);
        }
        proof {
            lema_grava_palavra(self.d@, off_gold_spec(be) + 4, m.points.unwrap_or(0), be);
        }
        if let Some(p) = m.points {
            let o = self.off_gold();
            self.set32(o + 4, p);
        }
        let ghost d1 = self.d@;
        assert(d1 == com_gold_points(d0, be, m.gold, m.points));
        if let Some(dt) = &m.data {
            let ano = dt[0];
            let mes = dt[1];
            let dia = dt[2];
            let h = dt[3];
            let min = dt[4];
            let s = dt[5];
            if !(2000 <= ano && ano <= 2099) || !(1 <= mes && mes <= 12) || !(1 <= dia && dia <= 31)
                || h > 23 || min > 59 || s > 59 {
                return Err(Erro::DataInvalida);
            }
            let mut i: usize = 0;
            while i < 6
                invariant
                    i <= 6,
                    self.big_endian == be,
                    self.d@.len() == d1.len(),
                    d1.len() >= TAM_MINIMO,
                    self.d@ == grava_palavras(d1, OFF_DATA as int, dt@.subrange(0, i as int), be),
                decreases 6 - i,
            {
                proof {
                    lema_grava_palavra(self.d@, OFF_DATA + 4 * i, dt@[i as int], be);
                    assert(dt@.subrange(0, i + 1).drop_last() =~= dt@.subrange(0, i as int));
                }
                self.set32(OFF_DATA + i * 4, dt[i]);
                i += 1;
            }
            assert(dt@.subrange(0, 6) =~= dt@);
        }
        let ghost d2 = self.d@;
        assert(d2 == com_data(d1, be, m.data));
        let tabela = listas();
        let mut j: usize = 0;
        assert(m.listas@.take(0) =~= Seq::<(String, Vec<bool>)>::empty());
        while j < m.listas.len()
            invariant
                j <= m.listas@.len(),
                self.big_endian == be,
                self.d@.len() == d2.len(),
                d2.len() >= TAM_MINIMO,
                tabela@.len() == N_LISTAS,
                forall|k: int| 0 <= k < N_LISTAS ==> lista_e(#[trigger] &tabela@[k], k) && lista_ok(
                    &tabela@[k],
                ),
                primeira_invalida(m.listas@.take(j as int)) < 0,
                self.d@ == aplica_listas_spec(d2, be, m.listas@.take(j as int)),
                be == old(self).big_endian,
                m.data is None || data_valida(m.data.unwrap()),
                d2 == com_data(com_gold_points(old(self).d@, be, m.gold, m.points), be, m.data),
            decreases m.listas@.len() - j,
        {
            let ghost p = m.listas@[j as int];
            assert(m.listas@.take(j + 1).drop_last() =~= m.listas@.take(j as int));
            assert(m.listas@.take(j + 1).last() == p);
            let chave = &m.listas[j].0;
            let marcados = &m.listas[j].1;
            let mut k: usize = 0;
            while k < N_LISTAS && !mesmo_texto(tabela[k].chave, chave.as_str())
                invariant
                    k <= N_LISTAS,
                    tabela@.len() == N_LISTAS,
                    forall|q: int| 0 <= q < N_LISTAS ==> lista_e(#[trigger] &tabela@[q], q),
                    forall|q: int| 0 <= q < k ==> chave_spec(q) != chave@,
                decreases N_LISTAS - k,
            {
                k += 1;
            }
            if k == N_LISTAS {
                assert(indice_lista(chave@) == -1);
                proof {
                    lema_primeira_invalida(m.listas@, j + 1, m.listas@.len() as int);
                    assert(m.listas@.take(m.listas@.len() as int) =~= m.listas@);
                }
                return Err(Erro::ListaDesconhecida(chave.clone()));
            }
            assert(indice_lista(chave@) == k);
            let l = &tabela[k];
            if marcados.len() != l.nomes.len() {
                proof {
                    lema_primeira_invalida(m.listas@, j + 1, m.listas@.len() as int);
                    assert(m.listas@.take(m.listas@.len() as int) =~= m.listas@);
                }
                return Err(Erro::QuantidadeErrada(l.titulo.to_owned()));
            }
            self.marca_lista(l, marcados);
            j += 1;
        }
        assert(m.listas@.take(m.listas@.len() as int) =~= m.listas@);
        Ok(())
    }
}

/// Depois de gravar o checksum no offset 0x08, o checksum gravado confere
/// com o calculado: o offset 0x08 fica fora das regiões somadas.
pub proof fn lei_checksum_fechado(d: Seq<u8>, be: bool)
    requires
        d.len() >= TAM_MINIMO,
    ensures
        ({
            let d2 = grava_palavra(d, OFF_CHECKSUM as int, checksum_spec(d, be), be);
            &&& d2.len() == d.len()
            &&& checksum_spec(d2, be) == checksum_spec(d, be)
            &&& palavra(d2, OFF_CHECKSUM as int, be) == checksum_spec(d2, be)
        }),
{
    let d2 = grava_palavra(d, OFF_CHECKSUM as int, checksum_spec(d, be), be);
    lema_grava_palavra(d, OFF_CHECKSUM as int, checksum_spec(d, be), be);
    lema_soma_igual(d2, d, 0x10, 3815, be);
    lema_soma_igual(d2, d, 0x3BB0, 1472, be);
}

proof fn lema_novos_bits_32(a: u64, c: u64, n: u64)
    requires
        a < 0x1_0000_0000,
        n <= 32,
        c < (1u64 << n),
    ensures
        (a & !(((1u64 << n) - 1) as u64)) | c < 0x1_0000_0000,
{
    assert((a & !(((1u64 << n) - 1) as u64)) | c < 0x1_0000_0000) by (bit_vector)
        requires
            a < 0x1_0000_0000,
            n <= 32,
            c < (1u64 << n),
    ;
}

/// Marcar as opções de uma lista pedida: lidos de volta, os bits dessa
/// lista são o pedido (a opção `i` é o bit `n - 1 - i`) e os bits fora da
/// lista ficam como estavam.
pub proof fn lei_bits_da_lista(d: Seq<u8>, be: bool, p: (String, Vec<bool>), k: u64)
    requires
        d.len() >= TAM_MINIMO,
        lista_pedida_ok(p),
        k < 64,
    ensures
        ({
            let q = indice_lista(p.0@);
            let antes = bits_em(d, be, rel_spec(q) as int, dupla_spec(q));
            let depois = bits_em(aplica_lista_spec(d, be, p), be, rel_spec(q) as int, dupla_spec(q));
            let n = p.1@.len();
            &&& depois == novos_bits(antes, p.1@)
            &&& bit(depois, k) == if k < n {
                p.1@[n - 1 - k]
            } else {
                bit(antes, k)
            }
        }),
{
    let q = indice_lista(p.0@);
    let ms = p.1@;
    let antes = bits_em(d, be, rel_spec(q) as int, dupla_spec(q));
    let v = novos_bits(antes, ms);
    if !dupla_spec(q) {
        lema_marcas_limite(ms);
        vstd::arithmetic::power2::lemma2_to64();
        vstd::bits::lemma_u64_shl_is_mul(1, ms.len() as u64);
        assert((palavra(d, off_listas_spec(be) + rel_spec(q), be) as u64) < 0x1_0000_0000);
        lema_novos_bits_32(antes, marcas(ms) as u64, ms.len() as u64);
    }
    lema_grava_bits(d, be, rel_spec(q) as int, dupla_spec(q), v);
    lema_novos_bits(antes, ms, k);
}

/// Gravar as palavras uma depois da outra: cada uma é lida de volta e o
/// resto não muda.
proof fn lema_grava_palavras(d: Seq<u8>, o: int, ws: Seq<u32>, be: bool)
    requires
        0 <= o,
        o + 4 * ws.len() <= d.len(),
    ensures
        grava_palavras(d, o, ws, be).len() == d.len(),
        forall|i: int| 0 <= i < ws.len() ==> palavra(grava_palavras(d, o, ws, be), o + 4 * i, be) == #[trigger] ws[i],
        forall|j: int|
            0 <= j < d.len() && !(o <= j < o + 4 * ws.len()) ==> #[trigger] grava_palavras(d, o, ws, be)[j] == d[j],
    decreases ws.len(),
{
    if ws.len() > 0 {
        let u = ws.drop_last();
        lema_grava_palavras(d, o, u, be);
        let d1 = grava_palavras(d, o, u, be);
        let q = o + 4 * (ws.len() - 1);
        lema_grava_palavra(d1, q, ws.last(), be);
        let d2 = grava_palavras(d, o, ws, be);
        assert forall|i: int| 0 <= i < ws.len() implies palavra(d2, o + 4 * i, be) == #[trigger] ws[i] by {
            if i < ws.len() - 1 {
                assert(u[i] == ws[i]);
                let p = o + 4 * i;
                assert(d2[p] == d1[p] && d2[p + 1] == d1[p + 1] && d2[p + 2] == d1[p + 2] && d2[p + 3] == d1[p + 3]);
            }
        }
    }
}

/// Gravar os bits de uma lista só mexe nos 8 bytes dela.
proof fn lema_lista_fora(d: Seq<u8>, be: bool, p: (String, Vec<bool>))
    requires
        d.len() >= TAM_MINIMO,
        lista_pedida_ok(p),
    ensures
        aplica_lista_spec(d, be, p).len() == d.len(),
        forall|j: int|
            0 <= j < d.len() && !(off_listas_spec(be) <= j < off_listas_spec(be) + 0x1C)
                ==> #[trigger] aplica_lista_spec(d, be, p)[j] == d[j],
{
    let k = indice_lista(p.0@);
    let o = off_listas_spec(be) + rel_spec(k);
    let v = novos_bits(bits_em(d, be, rel_spec(k) as int, dupla_spec(k)), p.1@);
    lema_grava_palavra(d, o, v as u32, be);
    let d1 = grava_palavra(d, o, v as u32, be);
    lema_grava_palavra(d1, o + 4, (v >> 32u64) as u32, be);
}

proof fn lema_listas_fora(d: Seq<u8>, be: bool, ls: Seq<(String, Vec<bool>)>)
    requires
        d.len() >= TAM_MINIMO,
        primeira_invalida(ls) < 0,
    ensures
        aplica_listas_spec(d, be, ls).len() == d.len(),
        forall|j: int|
            0 <= j < d.len() && !(off_listas_spec(be) <= j < off_listas_spec(be) + 0x1C)
                ==> #[trigger] aplica_listas_spec(d, be, ls)[j] == d[j],
    decreases ls.len(),
{
    if ls.len() > 0 {
        lema_listas_fora(d, be, ls.drop_last());
        lema_lista_fora(aplica_listas_spec(d, be, ls.drop_last()), be, ls.last());
    }
}

/// Aplicadas as mudanças comuns, o que se lê de volta é o pedido: dinheiro,
/// pontos e data gravados quando pedidos, e como estavam quando não.
pub proof fn lei_comum_le_o_pedido(d: Seq<u8>, be: bool, m: &Mudancas)
    requires
        d.len() >= TAM_MINIMO,
        m.data is None || data_valida(m.data.unwrap()),
        primeira_invalida(m.listas@) < 0,
    ensures
        ({
            let d2 = aplica_listas_spec(com_data(com_gold_points(d, be, m.gold, m.points), be, m.data), be, m.listas@);
            &&& d2.len() == d.len()
            &&& palavra(d2, off_gold_spec(be), be) == match m.gold {
                Some(g) => g,
                None => palavra(d, off_gold_spec(be), be),
            }
            &&& palavra(d2, off_gold_spec(be) + 4, be) == match m.points {
                Some(p) => p,
                None => palavra(d, off_gold_spec(be) + 4, be),
            }
            &&& forall|i: int|
                0 <= i < 6 ==> #[trigger] palavra(d2, OFF_DATA + 4 * i, be) == match m.data {
                    Some(dt) => dt[i],
                    None => palavra(d, OFF_DATA + 4 * i, be),
                }
            // fora do dinheiro, da data e das listas, nenhum byte muda
            &&& forall|j: int|
                0 <= j < d.len() && !(OFF_DATA <= j < OFF_DATA + 24) && !(off_gold_spec(be) <= j < off_gold_spec(
                    be,
                ) + 8) && !(off_listas_spec(be) <= j < off_listas_spec(be) + 0x1C) ==> #[trigger] d2[j] == d[j]
        }),
{
    let og = off_gold_spec(be);
    let d0 = match m.gold {
        Some(g) => grava_palavra(d, og, g, be),
        None => d,
    };
    if let Some(g) = m.gold {
        lema_grava_palavra(d, og, g, be);
    }
    let d1 = com_gold_points(d, be, m.gold, m.points);
    if let Some(p) = m.points {
        lema_grava_palavra(d0, og + 4, p, be);
    }
    let dd = com_data(d1, be, m.data);
    if let Some(dt) = m.data {
        lema_grava_palavras(d1, OFF_DATA as int, dt@, be);
    }
    let d2 = aplica_listas_spec(dd, be, m.listas@);
    lema_listas_fora(dd, be, m.listas@);
    assert forall|i: int| 0 <= i < 6 implies #[trigger] palavra(d2, OFF_DATA + 4 * i, be) == match m.data {
        Some(dt) => dt[i],
        None => palavra(d, OFF_DATA + 4 * i, be),
    } by {
        let p = OFF_DATA + 4 * i;
        assert(d2[p] == dd[p] && d2[p + 1] == dd[p + 1] && d2[p + 2] == dd[p + 2] && d2[p + 3] == dd[p + 3]);
        if let Some(dt) = m.data {
            assert(palavra(dd, p, be) == dt@[i]);
        } else {
            assert(d1[p] == d[p] && d1[p + 1] == d[p + 1] && d1[p + 2] == d[p + 2] && d1[p + 3] == d[p + 3]);
        }
    }
    assert forall|j: int|
        0 <= j < d.len() && !(OFF_DATA <= j < OFF_DATA + 24) && !(og <= j < og + 8) && !(off_listas_spec(be) <= j
            < off_listas_spec(be) + 0x1C) implies #[trigger] d2[j] == d[j] by {
        assert(d2[j] == dd[j]);
        assert(dd[j] == d1[j]);
        assert(d1[j] == d0[j]);
    }
    let q = og + 4;
    assert(d2[og] == dd[og] && d2[og + 1] == dd[og + 1] && d2[og + 2] == dd[og + 2] && d2[og + 3] == dd[og + 3]);
    assert(d2[q] == dd[q] && d2[q + 1] == dd[q + 1] && d2[q + 2] == dd[q + 2] && d2[q + 3] == dd[q + 3]);
    assert(dd[og] == d1[og] && dd[og + 1] == d1[og + 1] && dd[og + 2] == d1[og + 2] && dd[og + 3] == d1[og + 3]);
    assert(dd[q] == d1[q] && dd[q + 1] == d1[q + 1] && dd[q + 2] == d1[q + 2] && dd[q + 3] == d1[q + 3]);
    assert(d1[og] == d0[og] && d1[og + 1] == d0[og + 1] && d1[og + 2] == d0[og + 2] && d1[og + 3] == d0[og + 3]);
    assert(d0[q] == d[q] && d0[q + 1] == d[q + 1] && d0[q + 2] == d[q + 2] && d0[q + 3] == d[q + 3]);
}

/// Marcar as opções de uma lista não mexe nos bits de nenhuma outra lista.
pub proof fn lei_outras_listas(d: Seq<u8>, be: bool, p: (String, Vec<bool>), j: int)
    requires
        d.len() >= TAM_MINIMO,
        lista_pedida_ok(p),
        0 <= j < N_LISTAS,
        j != indice_lista(p.0@),
    ensures
        bits_em(aplica_lista_spec(d, be, p), be, rel_spec(j) as int, dupla_spec(j)) == bits_em(
            d,
            be,
            rel_spec(j) as int,
            dupla_spec(j),
        ),
{
    let k = indice_lista(p.0@);
    let o = off_listas_spec(be) + rel_spec(k);
    let v = novos_bits(bits_em(d, be, rel_spec(k) as int, dupla_spec(k)), p.1@);
    lema_grava_palavra(d, o, v as u32, be);
    let d1 = grava_palavra(d, o, v as u32, be);
    let d2 = aplica_lista_spec(d, be, p);
    if dupla_spec(k) {
        lema_grava_palavra(d1, o + 4, (v >> 32u64) as u32, be);
    }
    // os bytes lidos pela lista j ficam fora dos gravados pela lista k
    let oj = off_listas_spec(be) + rel_spec(j);
    assert forall|i: int| oj <= i < oj + (if dupla_spec(j) { 8int } else { 4int }) implies #[trigger] d2[i] == d[i] by {
        assert(d2[i] == d1[i]);
    }
    assert(d2[oj] == d[oj] && d2[oj + 1] == d[oj + 1] && d2[oj + 2] == d[oj + 2] && d2[oj + 3] == d[oj + 3]);
    if dupla_spec(j) {
        assert(d2[oj + 4] == d[oj + 4] && d2[oj + 5] == d[oj + 5] && d2[oj + 6] == d[oj + 6] && d2[oj + 7] == d[oj + 7]);
    }
}

/// Trocar uma palavra: a soma das palavras muda pela diferença, se ela
/// está entre as somadas; senão, não muda.
proof fn lema_soma_troca(d: Seq<u8>, s: int, n: nat, o: int, v: u32, be: bool)
    requires
        0 <= s,
        0 <= o,
        o + 4 <= d.len(),
        s + 4 * n <= d.len(),
        s <= o < s + 4 * n ==> (o - s) % 4 == 0,
        !(s <= o < s + 4 * n) ==> o + 4 <= s || s + 4 * n <= o,
    ensures
        soma_palavras(grava_palavra(d, o, v, be), s, n, be) == if s <= o < s + 4 * n {
            soma_palavras(d, s, n, be) - palavra(d, o, be) + v
        } else {
            soma_palavras(d, s, n, be)
        },
    decreases n,
{
    let g = grava_palavra(d, o, v, be);
    lema_grava_palavra(d, o, v, be);
    if n > 0 {
        let q = s + 4 * (n - 1);
        if o == q {
            lema_soma_igual(g, d, s, (n - 1) as nat, be);
        } else {
            if s <= o < s + 4 * n {
                assert(o + 4 <= q) by (nonlinear_arith)
                    requires
                        s <= o < s + 4 * n,
                        (o - s) % 4 == 0,
                        o != q,
                        q == s + 4 * (n - 1),
                ;
            }
            lema_soma_troca(d, s, (n - 1) as nat, o, v, be);
            assert(g[q] == d[q] && g[q + 1] == d[q + 1] && g[q + 2] == d[q + 2] && g[q + 3] == d[q + 3]);
        }
    }
}

/// O checksum soma exatamente as palavras de [0x10, 0x3BAC) e de
/// [0x3BB0, 0x52B0), módulo 2^32: trocar uma palavra alinhada dessas
/// muda o checksum pela diferença; trocar qualquer outra palavra alinhada
/// (o próprio checksum em 0x08, a de 0x3BAC, as do fim) não o muda.
pub proof fn lei_checksum_palavras(d: Seq<u8>, be: bool, o: int, v: u32)
    requires
        d.len() >= TAM_MINIMO,
        0 <= o,
        o % 4 == 0,
        o + 4 <= d.len(),
    ensures
        ((0x10 <= o < 0x3BAC) || (0x3BB0 <= o < 0x52B0)) ==> checksum_spec(grava_palavra(d, o, v, be), be) as int
            == (checksum_spec(d, be) as int + v - palavra(d, o, be)) % 0x1_0000_0000,
        !((0x10 <= o < 0x3BAC) || (0x3BB0 <= o < 0x52B0)) ==> checksum_spec(grava_palavra(d, o, v, be), be)
            == checksum_spec(d, be),
{
    let g = grava_palavra(d, o, v, be);
    lema_soma_troca(d, 0x10, 3815, o, v, be);
    lema_soma_troca(d, 0x3BB0, 1472, o, v, be);
    let a = soma_palavras(d, 0x10, 3815, be);
    let b = soma_palavras(d, 0x3BB0, 1472, be);
    let m: int = 0x1_0000_0000;
    let x = a + b;
    let t = v - palavra(d, o, be);
    vstd::arithmetic::div_mod::lemma_add_mod_noop(x, t, m);
    vstd::arithmetic::div_mod::lemma_add_mod_noop(x % m, t, m);
    vstd::arithmetic::div_mod::lemma_mod_twice(x, m);
}

} // verus!
