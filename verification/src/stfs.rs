//! Pacote STFS do Xbox 360 ("CON") com um nível de hash: onde ficam os
//! blocos do savedata.bin, como lê-lo e gravá-lo de volta com os hashes.
use vstd::prelude::*;
use vstd::slice::slice_subrange;
use crate::bytes::{be32, be32_spec, copia_em, iguais};
use crate::erro::Erro;
use crate::sha::{resumo, sha1};
use crate::texto::{hex, hex_spec};

verus! {

/// Início do descritor do volume no cabeçalho.
pub const VD: usize = 0x379;

/// O arquivo começa com "CON ", "LIVE" ou "PIRS" e tem pelo menos 4 KiB.
pub open spec fn e_pacote_spec(d: Seq<u8>) -> bool {
    &&& d.len() >= 0x1000
    &&& {
        ||| (d[0] == 0x43 && d[1] == 0x4F && d[2] == 0x4E && d[3] == 0x20)
        ||| (d[0] == 0x4C && d[1] == 0x49 && d[2] == 0x56 && d[3] == 0x45)
        ||| (d[0] == 0x50 && d[1] == 0x49 && d[2] == 0x52 && d[3] == 0x53)
    }
}

/// É um pacote STFS (CON, LIVE ou PIRS).
pub fn e_pacote_stfs(d: &[u8]) -> (r: bool)
    ensures
        r == e_pacote_spec(d@),
{
    if d.len() < 0x1000 {
        return false;
    }
    (d[0] == 0x43 && d[1] == 0x4F && d[2] == 0x4E && d[3] == 0x20) || (d[0] == 0x4C && d[1] == 0x49
        && d[2] == 0x56 && d[3] == 0x45) || (d[0] == 0x50 && d[1] == 0x49 && d[2] == 0x52 && d[3]
        == 0x53)
}

/// Palavra big-endian em `o`.
pub open spec fn be32_em(d: Seq<u8>, o: int) -> u32 {
    be32_spec(d[o], d[o + 1], d[o + 2], d[o + 3])
}

/// Início dos blocos: o tamanho do cabeçalho arredondado para 4 KiB.
pub open spec fn base_de(d: Seq<u8>) -> usize {
    ((((be32_em(d, 0x340) as u64) + 0xFFF) as u64) & 0xF000) as usize
}

pub open spec fn shift_de(d: Seq<u8>) -> u32 {
    if base_de(d) == 0xB000 || d[VD + 2] & 1 == 0 {
        1
    } else {
        0
    }
}

/// A tabela de hash ativa: a segunda cópia quando o bit 1 está ligado.
pub open spec fn tabela_de(d: Seq<u8>) -> usize {
    (base_de(d) + if d[VD + 2] & 2 != 0 {
        0x1000int
    } else {
        0
    }) as usize
}

/// Deslocamento do bloco de dados `b` (um bloco de hash a cada 0xAA).
pub open spec fn off_spec(base: int, shift: u32, b: int) -> int {
    base + (b + ((b + 0xAA) / 0xAA) * (if shift == 1 {
        2int
    } else {
        1
    })) * 0x1000
}

/// O bloco `b` cabe inteiro no pacote.
pub open spec fn bloco_ok_spec(n: int, base: int, shift: u32, b: int) -> bool {
    off_spec(base, shift, b) + 0x1000 <= n
}

/// Entrada do bloco `b` na tabela de hash.
pub open spec fn entrada_spec(tabela: int, b: int) -> int {
    tabela + b * 0x18
}

/// Próximo bloco da cadeia (24 bits big-endian no fim da entrada).
pub open spec fn proximo_spec(d: Seq<u8>, tabela: int, b: int) -> usize {
    let e = entrada_spec(tabela, b);
    (d[e + 0x15] as int * 0x10000 + d[e + 0x16] as int * 0x100 + d[e + 0x17] as int) as usize
}

/// O `k`-ésimo bloco da cadeia que começa em `b`.
pub open spec fn passo(d: Seq<u8>, tabela: int, b: usize, k: nat) -> usize
    decreases k,
{
    if k == 0 {
        b
    } else {
        proximo_spec(d, tabela, passo(d, tabela, b, (k - 1) as nat) as int)
    }
}

/// Os `n` primeiros blocos da cadeia que começa em `b`.
pub open spec fn cadeia(d: Seq<u8>, tabela: int, b: usize, n: nat) -> Seq<usize> {
    Seq::new(n, |i: int| passo(d, tabela, b, i as nat))
}

/// Todos os `n` primeiros blocos da cadeia cabem no pacote.
pub open spec fn cadeia_ok(d: Seq<u8>, base: int, shift: u32, tabela: int, b: usize, n: nat) -> bool {
    forall|i: nat|
        i < n ==> bloco_ok_spec(d.len() as int, base, shift, #[trigger] passo(d, tabela, b, i) as int)
}

/// Bloco da tabela de arquivos (24 bits little-endian no descritor).
pub open spec fn ft_spec(d: Seq<u8>) -> usize {
    (d[VD + 5] as int + d[VD + 6] as int * 0x100 + d[VD + 7] as int * 0x10000) as usize
}

/// Bytes de "savedata.bin".
pub open spec fn nome_savedata() -> Seq<u8> {
    seq![0x73u8, 0x61, 0x76, 0x65, 0x64, 0x61, 0x74, 0x61, 0x2E, 0x62, 0x69, 0x6E]
}

/// A entrada em `o` da tabela de arquivos é a do savedata.bin.
pub open spec fn nome_ok(d: Seq<u8>, o: int) -> bool {
    &&& d[o + 0x28] & 0x3F == 12
    &&& d.subrange(o, o + 12) == nome_savedata()
}

/// A primeira das `n` entradas da tabela de arquivos (em `oft`) que é a do
/// savedata.bin, ou -1.
pub open spec fn primeira_entrada(d: Seq<u8>, oft: int, n: nat) -> int
    decreases n,
{
    if n == 0 {
        -1
    } else {
        let p = primeira_entrada(d, oft, (n - 1) as nat);
        if p >= 0 {
            p
        } else if nome_ok(d, oft + 0x40 * (n - 1)) {
            n - 1
        } else {
            -1
        }
    }
}

/// Primeiro bloco do arquivo (24 bits little-endian na entrada).
pub open spec fn inicio_spec(d: Seq<u8>, o: int) -> usize {
    (d[o + 0x2F] as int + d[o + 0x30] as int * 0x100 + d[o + 0x31] as int * 0x10000) as usize
}

/// Número de blocos de 4 KiB de um arquivo de `tam` bytes.
pub open spec fn n_blocos(tam: u32) -> nat {
    ((tam as int + 0xFFF) / 0x1000) as nat
}

/// Os blocos do savedata.bin e seu tamanho, ou o erro.
pub open spec fn arquivo_spec(d: Seq<u8>, base: int, shift: u32, tabela: int) -> Result<
    (Seq<usize>, u32),
    Erro,
> {
    let ft = ft_spec(d);
    if !bloco_ok_spec(d.len() as int, base, shift, ft as int) {
        Err(Erro::BlocoFora)
    } else {
        let oft = off_spec(base, shift, ft as int);
        let i = primeira_entrada(d, oft, 64);
        if i < 0 {
            Err(Erro::SemSavedata)
        } else {
            let o = oft + 0x40 * i;
            let tam = be32_em(d, o + 0x34);
            let b0 = inicio_spec(d, o);
            let n = n_blocos(tam);
            if cadeia_ok(d, base, shift, tabela, b0, n) {
                Ok((cadeia(d, tabela, b0, n), tam))
            } else {
                Err(Erro::BlocoFora)
            }
        }
    }
}

/// O conteúdo do arquivo: o byte `k` está no bloco `k / 4096`.
pub open spec fn le_spec(d: Seq<u8>, base: int, shift: u32, bl: Seq<usize>, tam: nat) -> Seq<u8> {
    Seq::new(tam, |k: int| d[off_spec(base, shift, bl[k / 0x1000] as int) + k % 0x1000])
}

/// `d` com `s` gravado a partir de `o`.
pub open spec fn escreve(d: Seq<u8>, o: int, s: Seq<u8>) -> Seq<u8> {
    d.subrange(0, o) + s + d.subrange(o + s.len(), d.len() as int)
}

/// O pedaço do conteúdo que vai para o bloco `i`.
pub open spec fn parte(c: Seq<u8>, i: int) -> Seq<u8> {
    let fim = if (i + 1) * 0x1000 < c.len() {
        (i + 1) * 0x1000
    } else {
        c.len() as int
    };
    c.subrange(i * 0x1000, fim)
}

/// Os `n` primeiros blocos gravados, cada um seguido do seu hash na tabela.
pub open spec fn grava_blocos(
    d: Seq<u8>,
    base: int,
    shift: u32,
    tabela: int,
    bl: Seq<usize>,
    c: Seq<u8>,
    n: nat,
) -> Seq<u8>
    decreases n,
{
    if n == 0 {
        d
    } else {
        let i = n - 1;
        let d1 = grava_blocos(d, base, shift, tabela, bl, c, (n - 1) as nat);
        let o = off_spec(base, shift, bl[i] as int);
        let d2 = escreve(d1, o, parte(c, i));
        escreve(d2, entrada_spec(tabela, bl[i] as int), resumo(d2.subrange(o, o + 0x1000)))
    }
}

/// Blocos gravados, depois o hash da tabela (no descritor) e o hash do
/// cabeçalho.
pub open spec fn grava_spec(
    d: Seq<u8>,
    base: int,
    shift: u32,
    tabela: int,
    bl: Seq<usize>,
    c: Seq<u8>,
) -> Seq<u8> {
    let d1 = grava_blocos(d, base, shift, tabela, bl, c, bl.len());
    let d2 = escreve(d1, VD + 8, resumo(d1.subrange(tabela, tabela + 0x1000)));
    escreve(d2, 0x32C, resumo(d2.subrange(0x344, base)))
}

/// Hashes dos blocos, da tabela e do cabeçalho conferem.
pub open spec fn hashes_ok_spec(d: Seq<u8>, base: int, shift: u32, tabela: int) -> bool {
    match arquivo_spec(d, base, shift, tabela) {
        Err(_) => false,
        Ok((bl, _)) => {
            &&& forall|i: int|
                0 <= i < bl.len() ==> {
                    let o = off_spec(base, shift, #[trigger] bl[i] as int);
                    let e = entrada_spec(tabela, bl[i] as int);
                    resumo(d.subrange(o, o + 0x1000)) == d.subrange(e, e + 20)
                }
            &&& resumo(d.subrange(tabela, tabela + 0x1000)) == d.subrange(VD + 8, VD + 0x1C)
            &&& resumo(d.subrange(0x344, base)) == d.subrange(0x32C, 0x340)
        },
    }
}

/// Pacote STFS com um nível de hash (saves pequenos).
pub struct Stfs {
    pub d: Vec<u8>,
    /// Início dos blocos (tamanho do cabeçalho arredondado).
    pub base: usize,
    pub shift: u32,
    /// Tabela de hash ativa.
    pub tabela: usize,
}

/// Um bloco de dados cabe no pacote: a entrada dele na tabela também.
proof fn lema_entrada_no_pacote(n: int, base: int, shift: u32, tabela: int, b: int)
    requires
        0 <= b,
        0 <= base,
        tabela <= base + 0x1000,
        bloco_ok_spec(n, base, shift, b),
    ensures
        entrada_spec(tabela, b) + 0x18 <= off_spec(base, shift, b) + 0x1000 <= n,
{
    let q = (b + 0xAA) / 0xAA;
    assert(q >= 1);
    if shift == 1 {
        assert(q * 2 >= 2);
    }
}

impl Stfs {
    pub open spec fn base_v(&self) -> usize {
        self.base
    }

    pub open spec fn shift_v(&self) -> u32 {
        self.shift
    }

    pub open spec fn tabela_v(&self) -> usize {
        self.tabela
    }

    /// Os campos lidos do cabeçalho são coerentes com o tamanho do pacote.
    pub open spec fn bem_formado(&self) -> bool {
        &&& self.shift_v() <= 1
        &&& self.base_v() <= 0xF000
        &&& self.tabela_v() == self.base_v() || self.tabela_v() == self.base_v() + 0x1000
        &&& self.tabela_v() + 0x1000 <= self.d@.len()
        &&& self.d@.len() >= 0x1000
    }

    /// O savedata.bin deste pacote.
    pub open spec fn arquivo(&self) -> Result<(Seq<usize>, u32), Erro> {
        arquivo_spec(self.d@, self.base_v() as int, self.shift_v(), self.tabela_v() as int)
    }

    /// Abre o pacote: confere a assinatura "CON "/"LIVE"/"PIRS", que há só
    /// um nível de hash e que a tabela de hash cabe no arquivo.
    pub fn novo(d: Vec<u8>) -> (r: Result<Self, Erro>)
        ensures
            match r {
                Ok(s) => {
                    &&& e_pacote_spec(d@)
                    &&& be32_em(d@, VD + 0x1C) < 0xAA
                    &&& s.d == d
                    &&& s.base_v() == base_de(d@)
                    &&& s.shift_v() == shift_de(d@)
                    &&& s.tabela_v() == tabela_de(d@)
                    &&& s.bem_formado()
                },
                Err(e) => if !e_pacote_spec(d@) {
                    e == Erro::NaoEStfs
                } else if be32_em(d@, VD + 0x1C) >= 0xAA {
                    e == Erro::PacoteGrande
                } else {
                    e == Erro::PacoteTruncado && tabela_de(d@) + 0x1000 > d@.len()
                },
            },
    {
        if !e_pacote_stfs(d.as_slice()) {
            return Err(Erro::NaoEStfs);
        }
        let tam_cab = be32(d.as_slice(), 0x340);
        let sep = d[VD + 2];
        let soma: u64 = (tam_cab as u64) + 0xFFF;
        let base = (soma & 0xF000) as usize;
        assert(soma & 0xF000 <= 0xF000) by (bit_vector);
        let shift: u32 = if base == 0xB000 || sep & 1 == 0 {
            1
        } else {
            0
        };
        let tabela = base + if sep & 2 != 0 {
            0x1000
        } else {
            0
        };
        if be32(d.as_slice(), VD + 0x1C) >= 0xAA {
            return Err(Erro::PacoteGrande);
        }
        if d.len() < tabela + 0x1000 {
            return Err(Erro::PacoteTruncado);
        }
        Ok(Stfs { d, base, shift, tabela })
    }

    /// Deslocamento do bloco de dados `b`.
    fn off(&self, b: usize) -> (r: u64)
        requires
            self.bem_formado(),
            b < 0x100_0000,
        ensures
            r == off_spec(self.base_v() as int, self.shift_v(), b as int),
    {
        let b64 = b as u64;
        let q = (b64 + 0xAA) / 0xAA;
        let m: u64 = if self.shift == 1 {
            2
        } else {
            1
        };
        assert(q <= 0x100_0000);
        assert(q * m <= 0x200_0000) by (nonlinear_arith)
            requires
                q <= 0x100_0000,
                m <= 2,
        ;
        self.base as u64 + (b64 + q * m) * 0x1000
    }

    /// O bloco `b` cabe inteiro no pacote.
    fn bloco_ok(&self, b: usize) -> (r: bool)
        requires
            self.bem_formado(),
            b < 0x100_0000,
        ensures
            r == bloco_ok_spec(self.d@.len() as int, self.base_v() as int, self.shift_v(), b as int),
    {
        self.off(b) + 0x1000 <= self.d.len() as u64
    }

    /// Próximo bloco da cadeia.
    fn proximo(&self, b: usize) -> (r: usize)
        requires
            self.bem_formado(),
            b < 0x100_0000,
            bloco_ok_spec(self.d@.len() as int, self.base_v() as int, self.shift_v(), b as int),
        ensures
            r == proximo_spec(self.d@, self.tabela_v() as int, b as int),
            r < 0x100_0000,
    {
        proof {
            lema_entrada_no_pacote(
                self.d@.len() as int,
                self.base_v() as int,
                self.shift_v(),
                self.tabela_v() as int,
                b as int,
            );
        }
        let e = self.tabela + b * 0x18;
        (self.d[e + 0x15] as usize) * 0x10000 + (self.d[e + 0x16] as usize) * 0x100 + (self.d[e
            + 0x17] as usize)
    }

    /// Os blocos do savedata.bin, na ordem, e o tamanho dele.
    #[verifier::loop_isolation(false)]
    pub(crate) fn blocos_do_arquivo(&self) -> (r: Result<(Vec<usize>, u32), Erro>)
        requires
            self.bem_formado(),
        ensures
            match (r, self.arquivo()) {
                (Ok((bl, tam)), Ok((bl2, tam2))) => bl@ == bl2 && tam == tam2,
                (Err(e), Err(e2)) => e == e2,
                _ => false,
            },
    {
        let ft = (self.d[VD + 5] as usize) + (self.d[VD + 6] as usize) * 0x100 + (self.d[VD + 7]
            as usize) * 0x10000;
        if !self.bloco_ok(ft) {
            return Err(Erro::BlocoFora);
        }
        let of = self.off(ft);
        let dl = self.d.len();
        assert(of + 0x1000 <= dl as u64);
        let oft = of as usize;
        let ghost d = self.d@;
        let mut i: usize = 0;
        while i < 64
            invariant
                self.bem_formado(),
                d == self.d@,
                i <= 64,
                oft == off_spec(self.base_v() as int, self.shift_v(), ft as int),
                oft + 0x1000 <= d.len(),
                ft == ft_spec(d),
                dl == d.len(),
                primeira_entrada(d, oft as int, i as nat) < 0,
            decreases 64 - i,
        {
            let o = oft + 0x40 * i;
            let len = self.d[o + 0x28] & 0x3F;
            let mut igual = len == 12;
            if igual {
                let mut k: usize = 0;
                while k < 12
                    invariant
                        k <= 12,
                        o + 0x40 <= d.len(),
                        dl == d.len(),
                        d == self.d@,
                        igual ==> forall|j: int| 0 <= j < k ==> d[o + j] == nome_savedata()[j],
                        !igual ==> d.subrange(o as int, o + 12) != nome_savedata(),
                    decreases 12 - k,
                {
                    let esperado: u8 = if k == 0 {
                        0x73
                    } else if k == 1 {
                        0x61
                    } else if k == 2 {
                        0x76
                    } else if k == 3 {
                        0x65
                    } else if k == 4 {
                        0x64
                    } else if k == 5 {
                        0x61
                    } else if k == 6 {
                        0x74
                    } else if k == 7 {
                        0x61
                    } else if k == 8 {
                        0x2E
                    } else if k == 9 {
                        0x62
                    } else if k == 10 {
                        0x69
                    } else {
                        0x6E
                    };
                    assert(esperado == nome_savedata()[k as int]);
                    if self.d[o + k] != esperado {
                        assert(d.subrange(o as int, o + 12)[k as int] != nome_savedata()[k as int]);
                        igual = false;
                    }
                    k += 1;
                }
                if igual {
                    assert(d.subrange(o as int, o + 12) =~= nome_savedata());
                }
            }
            assert(igual == nome_ok(d, o as int));
            if igual {
                assert(primeira_entrada(d, oft as int, (i + 1) as nat) == i);
                proof {
                    lema_primeira_entrada(d, oft as int, (i + 1) as nat, 64);
                }
                let b0 = (self.d[o + 0x2F] as usize) + (self.d[o + 0x30] as usize) * 0x100 + (
                self.d[o + 0x31] as usize) * 0x10000;
                let tam = be32(self.d.as_slice(), o + 0x34);
                let n = ((tam as u64 + 0xFFF) / 0x1000) as usize;
                let mut blocos: Vec<usize> = Vec::new();
                let mut b = b0;
                let mut k: usize = 0;
                while k < n
                    invariant
                        self.bem_formado(),
                        d == self.d@,
                        k <= n,
                        n == n_blocos(tam),
                        b < 0x100_0000,
                        b == passo(d, self.tabela_v() as int, b0, k as nat),
                        blocos@ == cadeia(d, self.tabela_v() as int, b0, k as nat),
                        forall|j: nat|
                            j < k ==> bloco_ok_spec(
                                d.len() as int,
                                self.base_v() as int,
                                self.shift_v(),
                                #[trigger] passo(d, self.tabela_v() as int, b0, j) as int,
                            ),
                    decreases n - k,
                {
                    if !self.bloco_ok(b) {
                        assert(!bloco_ok_spec(
                            d.len() as int,
                            self.base_v() as int,
                            self.shift_v(),
                            passo(d, self.tabela_v() as int, b0, k as nat) as int,
                        ));
                        assert(!cadeia_ok(
                            d,
                            self.base_v() as int,
                            self.shift_v(),
                            self.tabela_v() as int,
                            b0,
                            n as nat,
                        ));
                        return Err(Erro::BlocoFora);
                    }
                    blocos.push(b);
                    b = self.proximo(b);
                    k += 1;
                    assert(blocos@ =~= cadeia(d, self.tabela_v() as int, b0, k as nat));
                }
                return Ok((blocos, tam));
            }
            i += 1;
        }
        Err(Erro::SemSavedata)
    }

    /// O conteúdo do savedata.bin.
    pub fn le(&self) -> (r: Result<Vec<u8>, Erro>)
        requires
            self.bem_formado(),
        ensures
            match (r, self.arquivo()) {
                (Ok(c), Ok((bl, tam))) => c@ == le_spec(
                    self.d@,
                    self.base_v() as int,
                    self.shift_v(),
                    bl,
                    tam as nat,
                ),
                (Err(e), Err(e2)) => e == e2,
                _ => false,
            },
    {
        let (blocos, tam) = self.blocos_do_arquivo()?;
        let ghost bl = blocos@;
        let ghost d = self.d@;
        let tam = tam as usize;
        let dl = self.d.len();
        let mut out: Vec<u8> = Vec::new();
        let mut k: usize = 0;
        while k < tam
            invariant
                self.bem_formado(),
                d == self.d@,
                k <= tam,
                bl == blocos@,
                bl.len() == n_blocos(tam as u32),
                tam <= u32::MAX,
                dl == d.len(),
                forall|i: int|
                    0 <= i < bl.len() ==> bl[i] < 0x100_0000 && bloco_ok_spec(
                        d.len() as int,
                        self.base_v() as int,
                        self.shift_v(),
                        #[trigger] bl[i] as int,
                    ),
                out@ == le_spec(d, self.base_v() as int, self.shift_v(), bl, tam as nat).subrange(
                    0,
                    k as int,
                ),
            decreases tam - k,
        {
            assert(k / 0x1000 < (tam + 0xFFF) / 0x1000) by (nonlinear_arith)
                requires
                    k < tam,
            ;
            let b = blocos[k / 0x1000];
            let of = self.off(b);
            assert(of + 0x1000 <= dl as u64);
            let o = of as usize + k % 0x1000;
            out.push(self.d[o]);
            k += 1;
            assert(out@ =~= le_spec(d, self.base_v() as int, self.shift_v(), bl, tam as nat).subrange(
                0,
                k as int,
            ));
        }
        assert(out@ =~= le_spec(d, self.base_v() as int, self.shift_v(), bl, tam as nat));
        Ok(out)
    }
}

impl Stfs {
    /// Grava o conteúdo do savedata.bin nos blocos dele, atualiza o hash
    /// de cada bloco na tabela, o hash da tabela (no descritor do volume)
    /// e o hash do cabeçalho. O tamanho do arquivo interno não pode mudar.
    pub fn grava(&mut self, conteudo: &[u8]) -> (r: Result<(), Erro>)
        requires
            old(self).bem_formado(),
            old(self).arquivo() matches Ok((bl, tam)) && conteudo@.len() == tam ==> old(self).base >= 0x344,
        ensures
            final(self).base == old(self).base,
            final(self).shift == old(self).shift,
            final(self).tabela == old(self).tabela,
            final(self).d@.len() == old(self).d@.len(),
            match old(self).arquivo() {
                Err(e) => r == Err::<(), Erro>(e) && final(self).d == old(self).d,
                Ok((bl, tam)) => if conteudo@.len() != tam {
                    r == Err::<(), Erro>(Erro::TamanhoMudou) && final(self).d == old(self).d
                } else {
                    r is Ok && final(self).d@ == grava_spec(
                        old(self).d@,
                        old(self).base as int,
                        old(self).shift,
                        old(self).tabela as int,
                        bl,
                        conteudo@,
                    )
                },
            },
    {
        let (blocos, tam) = match self.blocos_do_arquivo() {
            Ok(x) => x,
            Err(e) => return Err(e),
        };
        if conteudo.len() != tam as usize {
            return Err(Erro::TamanhoMudou);
        }
        let tam = tam as usize;
        let ghost d0 = self.d@;
        let ghost bl = blocos@;
        let dl = self.d.len();
        let mut i: usize = 0;
        while i < blocos.len()
            invariant
                self.bem_formado(),
                self.base == old(self).base,
                self.shift == old(self).shift,
                self.tabela == old(self).tabela,
                self.d@.len() == d0.len(),
                dl == d0.len(),
                d0 == old(self).d@,
                bl == blocos@,
                old(self).arquivo() == Ok::<(Seq<usize>, u32), Erro>((bl, tam as u32)),
                tam == conteudo@.len(),
                tam <= u32::MAX,
                bl.len() == n_blocos(tam as u32),
                i <= bl.len(),
                forall|k: int|
                    0 <= k < bl.len() ==> bl[k] < 0x100_0000 && bloco_ok_spec(
                        d0.len() as int,
                        self.base as int,
                        self.shift,
                        #[trigger] bl[k] as int,
                    ),
                self.d@ == grava_blocos(
                    d0,
                    self.base as int,
                    self.shift,
                    self.tabela as int,
                    bl,
                    conteudo@,
                    i as nat,
                ),
            decreases bl.len() - i,
        {
            let b = blocos[i];
            assert(i * 0x1000 < tam) by (nonlinear_arith)
                requires
                    i < (tam + 0xFFF) / 0x1000,
            ;
            let ini = i * 0x1000;
            let prox: u64 = (i as u64 + 1) * 0x1000;
            let fim = if prox < tam as u64 {
                prox as usize
            } else {
                tam
            };
            let pedaco = slice_subrange(conteudo, ini, fim);
            assert(pedaco@ == parte(conteudo@, i as int));
            let of = self.off(b);
            assert(of + 0x1000 <= dl as u64);
            let o = of as usize;
            copia_em(&mut self.d, o, pedaco);
            let ghost d2 = self.d@;
            let h = sha1(slice_subrange(self.d.as_slice(), o, o + 0x1000));
            proof {
                lema_entrada_no_pacote(
                    d0.len() as int,
                    self.base as int,
                    self.shift,
                    self.tabela as int,
                    b as int,
                );
            }
            let e = self.tabela + b * 0x18;
            copia_em(&mut self.d, e, h.as_slice());
            i += 1;
            proof {
                assert(h@ =~= resumo(d2.subrange(o as int, o + 0x1000)));
                assert(escreve(d2, e as int, resumo(d2.subrange(o as int, o + 0x1000))) =~= self.d@);
            }
        }
        let topo = sha1(slice_subrange(self.d.as_slice(), self.tabela, self.tabela + 0x1000));
        assert(topo@ =~= resumo(self.d@.subrange(self.tabela as int, self.tabela + 0x1000)));
        copia_em(&mut self.d, VD + 8, topo.as_slice());
        let base = self.base;
        let cab = sha1(slice_subrange(self.d.as_slice(), 0x344, base));
        assert(cab@ =~= resumo(self.d@.subrange(0x344, base as int)));
        copia_em(&mut self.d, 0x32C, cab.as_slice());
        Ok(())
    }

    /// Confere os hashes: de cada bloco do savedata.bin, da tabela e do
    /// cabeçalho.
    pub fn hashes_ok(&self) -> (r: bool)
        requires
            self.bem_formado(),
            self.arquivo() is Ok ==> self.base >= 0x344,
        ensures
            r == hashes_ok_spec(self.d@, self.base as int, self.shift, self.tabela as int),
    {
        let blocos = match self.blocos_do_arquivo() {
            Ok((b, _)) => b,
            Err(_) => return false,
        };
        let ghost bl = blocos@;
        let ghost d = self.d@;
        let dl = self.d.len();
        let mut blocos_ok = true;
        let mut i: usize = 0;
        while i < blocos.len()
            invariant
                self.bem_formado(),
                d == self.d@,
                dl == d.len(),
                bl == blocos@,
                self.arquivo() is Ok,
                bl == self.arquivo()->Ok_0.0,
                i <= bl.len(),
                forall|k: int|
                    0 <= k < bl.len() ==> bl[k] < 0x100_0000 && bloco_ok_spec(
                        d.len() as int,
                        self.base as int,
                        self.shift,
                        #[trigger] bl[k] as int,
                    ),
                blocos_ok == forall|k: int|
                    0 <= k < i ==> {
                        let o = off_spec(self.base as int, self.shift, #[trigger] bl[k] as int);
                        let e = entrada_spec(self.tabela as int, bl[k] as int);
                        resumo(d.subrange(o, o + 0x1000)) == d.subrange(e, e + 20)
                    },
            decreases bl.len() - i,
        {
            let b = blocos[i];
            let of = self.off(b);
            assert(of + 0x1000 <= dl as u64);
            let o = of as usize;
            let h = sha1(slice_subrange(self.d.as_slice(), o, o + 0x1000));
            assert(h@ =~= resumo(d.subrange(o as int, o + 0x1000)));
            proof {
                lema_entrada_no_pacote(
                    d.len() as int,
                    self.base as int,
                    self.shift,
                    self.tabela as int,
                    b as int,
                );
            }
            let e = self.tabela + b * 0x18;
            let igual = iguais(h.as_slice(), slice_subrange(self.d.as_slice(), e, e + 20));
            blocos_ok = blocos_ok && igual;
            i += 1;
        }
        let topo = sha1(slice_subrange(self.d.as_slice(), self.tabela, self.tabela + 0x1000));
        assert(topo@ =~= resumo(self.d@.subrange(self.tabela as int, self.tabela + 0x1000)));
        let topo_ok = iguais(topo.as_slice(), slice_subrange(self.d.as_slice(), VD + 8, VD + 0x1C));
        let cab = sha1(slice_subrange(self.d.as_slice(), 0x344, self.base));
        assert(cab@ =~= resumo(self.d@.subrange(0x344, self.base as int)));
        let cab_ok = iguais(cab.as_slice(), slice_subrange(self.d.as_slice(), 0x32C, 0x340));
        blocos_ok && topo_ok && cab_ok
    }
}

/// Perfil (XUID, 8 bytes em 0x371) e device ID (20 bytes em 0x3FD) do
/// pacote, em hexadecimal.
pub fn ids_do_pacote(pkg: &[u8]) -> (r: (String, String))
    requires
        pkg@.len() >= 0x411,
    ensures
        r.0@ == hex_spec(pkg@.subrange(0x371, 0x379)),
        r.1@ == hex_spec(pkg@.subrange(0x3FD, 0x411)),
{
    (hex(slice_subrange(pkg, 0x371, 0x379)), hex(slice_subrange(pkg, 0x3FD, 0x411)))
}

/// Se a entrada já foi achada entre as `k` primeiras, continua a mesma
/// entre as `n`.
proof fn lema_primeira_entrada(d: Seq<u8>, oft: int, k: nat, n: nat)
    requires
        k <= n,
        primeira_entrada(d, oft, k) >= 0,
    ensures
        primeira_entrada(d, oft, n) == primeira_entrada(d, oft, k),
    decreases n - k,
{
    if n > k {
        lema_primeira_entrada(d, oft, k, (n - 1) as nat);
    }
}

} // verus!
