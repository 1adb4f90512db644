//! Regravar o savedata.bin num pacote e relê-lo: o pacote continua abrindo
//! do mesmo jeito, o conteúdo relido é o gravado e os hashes conferem.
use vstd::prelude::*;
use crate::sha::resumo;
use crate::stfs::{
    VD, arquivo_spec, be32_em, base_de, bloco_ok_spec, cadeia, cadeia_ok, e_pacote_spec, entrada_spec,
    escreve, ft_spec, grava_blocos, grava_spec, hashes_ok_spec, inicio_spec, le_spec, n_blocos, nome_ok,
    off_spec, parte, passo, primeira_entrada, proximo_spec, shift_de, tabela_de,
};

verus! {

// ---------------------------------------------------------------- posições

/// Todo bloco de dados fica pelo menos um bloco depois do início.
proof fn lema_off_minimo(base: int, shift: u32, b: int)
    requires
        0 <= b,
    ensures
        off_spec(base, shift, b) >= base + 0x1000,
{
    assert((b + 0xAA) / 0xAA >= 1) by (nonlinear_arith)
        requires
            0 <= b,
    ;
    let q = (b + 0xAA) / 0xAA;
    let m: int = if shift == 1 {
        2
    } else {
        1
    };
    assert((b + q * m) * 0x1000 >= 0x1000) by (nonlinear_arith)
        requires
            0 <= b,
            q >= 1,
            m >= 1,
    ;
}

/// Blocos diferentes não se tocam.
proof fn lema_off_distintos(base: int, shift: u32, b1: int, b2: int)
    requires
        0 <= b1,
        0 <= b2,
        b1 != b2,
    ensures
        off_spec(base, shift, b1) + 0x1000 <= off_spec(base, shift, b2) || off_spec(base, shift, b2) + 0x1000
            <= off_spec(base, shift, b1),
{
    if b1 < b2 {
        lema_off_ordem(base, shift, b1, b2);
    } else {
        lema_off_ordem(base, shift, b2, b1);
    }
}

/// Blocos de número maior ficam depois.
proof fn lema_off_ordem(base: int, shift: u32, b1: int, b2: int)
    requires
        0 <= b1 < b2,
    ensures
        off_spec(base, shift, b1) + 0x1000 <= off_spec(base, shift, b2),
{
    vstd::arithmetic::div_mod::lemma_div_is_ordered(b1 + 0xAA, b2 + 0xAA, 0xAA);
}

/// `escreve` byte a byte.
pub proof fn lema_escreve(d: Seq<u8>, o: int, s: Seq<u8>)
    requires
        0 <= o,
        o + s.len() <= d.len(),
    ensures
        escreve(d, o, s).len() == d.len(),
        forall|p: int|
            0 <= p < d.len() ==> #[trigger] escreve(d, o, s)[p] == if o <= p < o + s.len() {
                s[p - o]
            } else {
                d[p]
            },
{
}

/// Número de blocos de um conteúdo de `t` bytes.
proof fn lema_n_blocos(t: int, n: int)
    requires
        0 <= t,
        n == (t + 0xFFF) / 0x1000,
    ensures
        t <= n * 0x1000,
        n >= 1 ==> (n - 1) * 0x1000 < t,
{
    assert(t <= n * 0x1000 && (n >= 1 ==> (n - 1) * 0x1000 < t)) by (nonlinear_arith)
        requires
            0 <= t,
            n == (t + 0xFFF) / 0x1000,
    ;
}

// ---------------------------------------------------------------- a regravação

/// [a, a + n) e [x, x + m) não se tocam.
pub open spec fn separados(a: int, n: int, x: int, m: int) -> bool {
    a + n <= x || x + m <= a
}

/// O que a regravação precisa para que um passo não atropele o outro: os
/// blocos do arquivo são distintos, cabem no pacote e ficam fora da tabela
/// de hash; a entrada de cada um cabe no pacote e fica fora dos blocos de
/// dados do arquivo; o cabeçalho ocupa pelo menos um bloco e a tabela vem
/// depois dele.
pub open spec fn gravavel(d: Seq<u8>, base: int, shift: u32, tabela: int, bl: Seq<usize>, c: Seq<u8>) -> bool {
    &&& 0x1000 <= base <= tabela
    &&& tabela + 0x1000 <= d.len()
    &&& c.len() <= u32::MAX
    &&& bl.len() == n_blocos(c.len() as u32)
    &&& forall|i: int|
        0 <= i < bl.len() ==> {
            &&& bloco_ok_spec(d.len() as int, base, shift, #[trigger] bl[i] as int)
            &&& separados(off_spec(base, shift, bl[i] as int), 0x1000, tabela, 0x1000)
            &&& entrada_spec(tabela, bl[i] as int) + 0x18 <= d.len()
        }
    &&& forall|i: int, j: int|
        0 <= i < bl.len() && 0 <= j < bl.len() ==> separados(
            entrada_spec(tabela, #[trigger] bl[i] as int),
            0x18,
            off_spec(base, shift, #[trigger] bl[j] as int),
            0x1000,
        )
    &&& forall|i: int, j: int| 0 <= i < j < bl.len() ==> bl[i] != bl[j]
}

/// A posição `p` é escrita no passo `j`: no bloco de dados ou na entrada
/// (20 bytes de hash) dele.
pub open spec fn no_passo(base: int, shift: u32, tabela: int, bl: Seq<usize>, j: int, p: int) -> bool {
    let o = off_spec(base, shift, bl[j] as int);
    let e = entrada_spec(tabela, bl[j] as int);
    (o <= p < o + 0x1000) || (e <= p < e + 20)
}

/// O pedaço do passo `i` tem entre 1 e 4096 bytes.
proof fn lema_parte(c: Seq<u8>, n: int, i: int)
    requires
        c.len() <= u32::MAX,
        n == n_blocos(c.len() as u32),
        0 <= i < n,
    ensures
        0 < parte(c, i).len() <= 0x1000,
        i * 0x1000 < c.len(),
{
    lema_n_blocos(c.len() as int, n);
}

/// Bloco e entrada do passo `i` ficam fora do que o passo `j` escreve.
proof fn lema_separados(
    d: Seq<u8>,
    base: int,
    shift: u32,
    tabela: int,
    bl: Seq<usize>,
    c: Seq<u8>,
    i: int,
    j: int,
    p: int,
)
    requires
        gravavel(d, base, shift, tabela, bl, c),
        0 <= i < bl.len(),
        0 <= j < bl.len(),
        i != j,
        no_passo(base, shift, tabela, bl, i, p),
    ensures
        !no_passo(base, shift, tabela, bl, j, p),
{
    let bi = bl[i] as int;
    let bj = bl[j] as int;
    if i < j {
        assert(bi != bj);
    } else {
        assert(bj != bi);
    }
    lema_off_distintos(base, shift, bi, bj);
    assert(separados(entrada_spec(tabela, bi), 0x18, off_spec(base, shift, bj), 0x1000));
    assert(separados(entrada_spec(tabela, bj), 0x18, off_spec(base, shift, bi), 0x1000));
}

proof fn lema_tam_blocos(d: Seq<u8>, base: int, shift: u32, tabela: int, bl: Seq<usize>, c: Seq<u8>, n: nat)
    requires
        gravavel(d, base, shift, tabela, bl, c),
        n <= bl.len(),
    ensures
        grava_blocos(d, base, shift, tabela, bl, c, n).len() == d.len(),
    decreases n,
{
    if n > 0 {
        let i = n - 1;
        lema_tam_blocos(d, base, shift, tabela, bl, c, (n - 1) as nat);
        let d1 = grava_blocos(d, base, shift, tabela, bl, c, (n - 1) as nat);
        let o = off_spec(base, shift, bl[i] as int);
        assert(bloco_ok_spec(d.len() as int, base, shift, bl[i] as int));
        lema_off_minimo(base, shift, bl[i] as int);
        lema_parte(c, bl.len() as int, i);
        lema_escreve(d1, o, parte(c, i));
        let d2 = escreve(d1, o, parte(c, i));
        lema_escreve(d2, entrada_spec(tabela, bl[i] as int), resumo(d2.subrange(o, o + 0x1000)));
    }
}

/// Fora do que os passos `m..n` escrevem, nada muda entre eles.
proof fn lema_quadro(
    d: Seq<u8>,
    base: int,
    shift: u32,
    tabela: int,
    bl: Seq<usize>,
    c: Seq<u8>,
    m: nat,
    n: nat,
    p: int,
)
    requires
        gravavel(d, base, shift, tabela, bl, c),
        m <= n <= bl.len(),
        0 <= p < d.len(),
        forall|j: int| m <= j < n ==> !#[trigger] no_passo(base, shift, tabela, bl, j, p),
    ensures
        grava_blocos(d, base, shift, tabela, bl, c, n)[p] == grava_blocos(d, base, shift, tabela, bl, c, m)[p],
    decreases n,
{
    if n > m {
        let i = n - 1;
        lema_quadro(d, base, shift, tabela, bl, c, m, (n - 1) as nat, p);
        lema_tam_blocos(d, base, shift, tabela, bl, c, (n - 1) as nat);
        let d1 = grava_blocos(d, base, shift, tabela, bl, c, (n - 1) as nat);
        let o = off_spec(base, shift, bl[i] as int);
        assert(bloco_ok_spec(d.len() as int, base, shift, bl[i] as int));
        assert(!no_passo(base, shift, tabela, bl, i, p));
        lema_off_minimo(base, shift, bl[i] as int);
        lema_parte(c, bl.len() as int, i);
        lema_escreve(d1, o, parte(c, i));
        let d2 = escreve(d1, o, parte(c, i));
        lema_escreve(d2, entrada_spec(tabela, bl[i] as int), resumo(d2.subrange(o, o + 0x1000)));
    }
}

/// Depois de todos os passos, o bloco `i` tem o pedaço `i` do conteúdo e a
/// entrada dele tem o hash do bloco.
proof fn lema_conteudo(d: Seq<u8>, base: int, shift: u32, tabela: int, bl: Seq<usize>, c: Seq<u8>, i: int)
    requires
        gravavel(d, base, shift, tabela, bl, c),
        0 <= i < bl.len(),
    ensures
        ({
            let g = grava_blocos(d, base, shift, tabela, bl, c, bl.len());
            let o = off_spec(base, shift, bl[i] as int);
            let e = entrada_spec(tabela, bl[i] as int);
            &&& forall|k: int| 0 <= k < parte(c, i).len() ==> #[trigger] g[o + k] == c[i * 0x1000 + k]
            &&& g.subrange(e, e + 20) == resumo(g.subrange(o, o + 0x1000))
        }),
{
    let n = bl.len();
    let g = grava_blocos(d, base, shift, tabela, bl, c, n);
    let o = off_spec(base, shift, bl[i] as int);
    let e = entrada_spec(tabela, bl[i] as int);
    lema_tam_blocos(d, base, shift, tabela, bl, c, i as nat);
    lema_tam_blocos(d, base, shift, tabela, bl, c, n);
    let d1 = grava_blocos(d, base, shift, tabela, bl, c, i as nat);
    assert(bloco_ok_spec(d.len() as int, base, shift, bl[i] as int));
    lema_off_minimo(base, shift, bl[i] as int);
    lema_parte(c, n as int, i);
    lema_escreve(d1, o, parte(c, i));
    let d2 = escreve(d1, o, parte(c, i));
    let h = resumo(d2.subrange(o, o + 0x1000));
    lema_escreve(d2, e, h);
    let d3 = escreve(d2, e, h);
    assert(d3 == grava_blocos(d, base, shift, tabela, bl, c, (i + 1) as nat));
    assert forall|p: int| no_passo(base, shift, tabela, bl, i, p) implies g[p] == d3[p] by {
        assert forall|j: int| i + 1 <= j < n implies !#[trigger] no_passo(base, shift, tabela, bl, j, p) by {
            lema_separados(d, base, shift, tabela, bl, c, i, j, p);
        }
        lema_quadro(d, base, shift, tabela, bl, c, (i + 1) as nat, n, p);
    }
    assert forall|k: int| 0 <= k < parte(c, i).len() implies #[trigger] g[o + k] == c[i * 0x1000 + k] by {
        assert(no_passo(base, shift, tabela, bl, i, o + k));
    }
    assert(g.subrange(o, o + 0x1000) =~= d2.subrange(o, o + 0x1000)) by {
        assert forall|k: int| 0 <= k < 0x1000 implies #[trigger] g.subrange(o, o + 0x1000)[k] == d2.subrange(
            o,
            o + 0x1000,
        )[k] by {
            assert(no_passo(base, shift, tabela, bl, i, o + k));
        }
    }
    assert(g.subrange(e, e + 20) =~= h) by {
        assert forall|k: int| 0 <= k < 20 implies #[trigger] g.subrange(e, e + 20)[k] == h[k] by {
            assert(no_passo(base, shift, tabela, bl, i, e + k));
        }
    }
}

/// Fora dos blocos, das entradas e dos dois hashes do cabeçalho, o pacote
/// regravado é igual ao original.
proof fn lema_fora(d: Seq<u8>, base: int, shift: u32, tabela: int, bl: Seq<usize>, c: Seq<u8>, p: int)
    requires
        gravavel(d, base, shift, tabela, bl, c),
        0 <= p < d.len(),
        forall|j: int| 0 <= j < bl.len() ==> !#[trigger] no_passo(base, shift, tabela, bl, j, p),
        !(VD + 8 <= p < VD + 0x1C),
        !(0x32C <= p < 0x340),
    ensures
        grava_spec(d, base, shift, tabela, bl, c)[p] == d[p],
{
    let n = bl.len();
    lema_quadro(d, base, shift, tabela, bl, c, 0, n, p);
    lema_tam_blocos(d, base, shift, tabela, bl, c, n);
    let d1 = grava_blocos(d, base, shift, tabela, bl, c, n);
    let h1 = resumo(d1.subrange(tabela, tabela + 0x1000));
    lema_escreve(d1, VD + 8, h1);
    let d2 = escreve(d1, VD + 8, h1);
    lema_escreve(d2, 0x32C, resumo(d2.subrange(0x344, base)));
}

/// Posições abaixo do início dos blocos não são escritas pelos passos.
proof fn lema_cabecalho_fora(d: Seq<u8>, base: int, shift: u32, tabela: int, bl: Seq<usize>, c: Seq<u8>, p: int)
    requires
        gravavel(d, base, shift, tabela, bl, c),
        0 <= p < base,
    ensures
        forall|j: int| 0 <= j < bl.len() ==> !#[trigger] no_passo(base, shift, tabela, bl, j, p),
{
    assert forall|j: int| 0 <= j < bl.len() implies !#[trigger] no_passo(base, shift, tabela, bl, j, p) by {
        lema_off_minimo(base, shift, bl[j] as int);
    }
}

// ---------------------------------------------------------------- reler

/// O pacote não muda onde a tabela de arquivos e a cadeia de blocos são
/// lidas: o arquivo achado é o mesmo.
proof fn lema_primeira_igual(a: Seq<u8>, b: Seq<u8>, oft: int, n: nat)
    requires
        n <= 64,
        0 <= oft,
        oft + 0x1000 <= a.len(),
        a.len() == b.len(),
        forall|p: int| oft <= p < oft + 0x1000 ==> a[p] == b[p],
    ensures
        primeira_entrada(a, oft, n) == primeira_entrada(b, oft, n),
    decreases n,
{
    if n > 0 {
        lema_primeira_igual(a, b, oft, (n - 1) as nat);
        let o = oft + 0x40 * (n - 1);
        assert forall|k: int| 0 <= k < 12 implies #[trigger] a.subrange(o, o + 12)[k] == b.subrange(o, o + 12)[k] by {
            assert(a[o + k] == b[o + k]);
        }
        assert(a.subrange(o, o + 12) =~= b.subrange(o, o + 12));
        assert(a[o + 0x28] == b[o + 0x28]);
        assert(nome_ok(a, o) == nome_ok(b, o));
    }
}

/// A entrada achada é uma das `n` primeiras.
proof fn lema_primeira_limite(d: Seq<u8>, oft: int, n: nat)
    ensures
        primeira_entrada(d, oft, n) < n,
    decreases n,
{
    if n > 0 {
        lema_primeira_limite(d, oft, (n - 1) as nat);
    }
}

proof fn lema_passo_igual(a: Seq<u8>, b: Seq<u8>, tabela: int, b0: usize, bl: Seq<usize>, k: nat)
    requires
        k < bl.len(),
        forall|i: int| 0 <= i < bl.len() ==> bl[i] == #[trigger] passo(a, tabela, b0, i as nat),
        forall|i: int, q: int|
            0 <= i < bl.len() && 0x15 <= q < 0x18 ==> #[trigger] a[entrada_spec(tabela, bl[i] as int) + q]
                == b[entrada_spec(tabela, bl[i] as int) + q],
    ensures
        passo(b, tabela, b0, k) == passo(a, tabela, b0, k),
    decreases k,
{
    if k > 0 {
        lema_passo_igual(a, b, tabela, b0, bl, (k - 1) as nat);
        let j = (k - 1) as int;
        assert(bl[j] == passo(a, tabela, b0, j as nat));
        let e = entrada_spec(tabela, bl[j] as int);
        assert(a[e + 0x15] == b[e + 0x15]);
        assert(a[e + 0x16] == b[e + 0x16]);
        assert(a[e + 0x17] == b[e + 0x17]);
        assert(proximo_spec(a, tabela, bl[j] as int) == proximo_spec(b, tabela, bl[j] as int));
    }
}

/// Dois pacotes do mesmo tamanho que concordam no ponteiro da tabela de
/// arquivos, no bloco dela e nos ponteiros de próximo bloco das entradas dos
/// blocos do arquivo acham o mesmo arquivo.
proof fn lema_arquivo_igual(a: Seq<u8>, b: Seq<u8>, base: int, shift: u32, tabela: int)
    requires
        0 <= base,
        a.len() == b.len(),
        arquivo_spec(a, base, shift, tabela) is Ok,
        ft_spec(a) == ft_spec(b),
        forall|p: int|
            off_spec(base, shift, ft_spec(a) as int) <= p < off_spec(base, shift, ft_spec(a) as int) + 0x1000
                ==> a[p] == b[p],
        forall|i: int, q: int|
            0 <= i < arquivo_spec(a, base, shift, tabela)->Ok_0.0.len() && 0x15 <= q < 0x18
                ==> #[trigger] a[entrada_spec(
                tabela,
                arquivo_spec(a, base, shift, tabela)->Ok_0.0[i] as int,
            ) + q] == b[entrada_spec(tabela, arquivo_spec(a, base, shift, tabela)->Ok_0.0[i] as int) + q],
    ensures
        arquivo_spec(b, base, shift, tabela) == arquivo_spec(a, base, shift, tabela),
{
    let bl = arquivo_spec(a, base, shift, tabela)->Ok_0.0;
    let ft = ft_spec(a);
    let oft = off_spec(base, shift, ft as int);
    lema_primeira_igual(a, b, oft, 64);
    lema_primeira_limite(a, oft, 64);
    let i = primeira_entrada(a, oft, 64);
    let o = oft + 0x40 * i;
    let tam = be32_em(a, o + 0x34);
    let b0 = inicio_spec(a, o);
    let n = n_blocos(tam);
    assert(0 <= i < 64);
    assert(be32_em(b, o + 0x34) == tam);
    assert(inicio_spec(b, o) == b0);
    assert(bl == cadeia(a, tabela, b0, n));
    assert forall|k: int| 0 <= k < bl.len() implies bl[k] == #[trigger] passo(a, tabela, b0, k as nat) by {
    }
    assert forall|k: nat| k < n implies #[trigger] passo(b, tabela, b0, k) == passo(a, tabela, b0, k) by {
        lema_passo_igual(a, b, tabela, b0, bl, k);
    }
    assert(cadeia(b, tabela, b0, n) =~= cadeia(a, tabela, b0, n));
    assert(cadeia_ok(b, base, shift, tabela, b0, n)) by {
        assert forall|k: nat| k < n implies bloco_ok_spec(
            b.len() as int,
            base,
            shift,
            #[trigger] passo(b, tabela, b0, k) as int,
        ) by {
            assert(passo(b, tabela, b0, k) == passo(a, tabela, b0, k));
        }
    }
}

// ---------------------------------------------------------------- a lei

/// Os blocos do arquivo de um pacote, quando ele é achado.
pub open spec fn blocos_de(d: Seq<u8>, base: int, shift: u32, tabela: int) -> Seq<usize> {
    arquivo_spec(d, base, shift, tabela)->Ok_0.0
}

/// As condições da regravação: o arquivo é achado, o conteúdo novo tem o
/// tamanho dele, os passos da regravação não se atropelam (`gravavel`) e
/// nenhum bloco do arquivo nem entrada dele cai no bloco da tabela de
/// arquivos.
pub open spec fn regravavel(d: Seq<u8>, base: int, shift: u32, tabela: int, c: Seq<u8>) -> bool {
    &&& arquivo_spec(d, base, shift, tabela) is Ok
    &&& c.len() == arquivo_spec(d, base, shift, tabela)->Ok_0.1
    &&& gravavel(d, base, shift, tabela, blocos_de(d, base, shift, tabela), c)
    &&& forall|i: int|
        0 <= i < blocos_de(d, base, shift, tabela).len() ==> {
            &&& #[trigger] blocos_de(d, base, shift, tabela)[i] != ft_spec(d)
            &&& separados(
                entrada_spec(tabela, blocos_de(d, base, shift, tabela)[i] as int),
                0x18,
                off_spec(base, shift, ft_spec(d) as int),
                0x1000,
            )
        }
}

/// O pacote regravado.
pub open spec fn regravado(d: Seq<u8>, base: int, shift: u32, tabela: int, c: Seq<u8>) -> Seq<u8> {
    grava_spec(d, base, shift, tabela, blocos_de(d, base, shift, tabela), c)
}

/// O cabeçalho só muda nos dois hashes.
proof fn lema_regravado_cabecalho(d: Seq<u8>, base: int, shift: u32, tabela: int, c: Seq<u8>)
    requires
        regravavel(d, base, shift, tabela, c),
    ensures
        ({
            let g = regravado(d, base, shift, tabela, c);
            &&& g.len() == d.len()
            &&& forall|p: int|
                0 <= p < base && !(VD + 8 <= p < VD + 0x1C) && !(0x32C <= p < 0x340) ==> #[trigger] g[p]
                    == d[p]
        }),
{
    let bl = blocos_de(d, base, shift, tabela);
    let n = bl.len();
    let g = regravado(d, base, shift, tabela, c);
    lema_tam_blocos(d, base, shift, tabela, bl, c, n);
    let d1 = grava_blocos(d, base, shift, tabela, bl, c, n);
    let h1 = resumo(d1.subrange(tabela, tabela + 0x1000));
    lema_escreve(d1, VD + 8, h1);
    let d2 = escreve(d1, VD + 8, h1);
    lema_escreve(d2, 0x32C, resumo(d2.subrange(0x344, base)));
    assert forall|p: int|
        0 <= p < base && !(VD + 8 <= p < VD + 0x1C) && !(0x32C <= p < 0x340) implies #[trigger] g[p] == d[p] by {
        lema_cabecalho_fora(d, base, shift, tabela, bl, c, p);
        lema_fora(d, base, shift, tabela, bl, c, p);
    }
}

/// O pacote regravado acha o mesmo arquivo.
proof fn lema_regravado_arquivo(d: Seq<u8>, base: int, shift: u32, tabela: int, c: Seq<u8>)
    requires
        regravavel(d, base, shift, tabela, c),
    ensures
        arquivo_spec(regravado(d, base, shift, tabela, c), base, shift, tabela) == arquivo_spec(
            d,
            base,
            shift,
            tabela,
        ),
{
    let bl = blocos_de(d, base, shift, tabela);
    let n = bl.len();
    let g = regravado(d, base, shift, tabela, c);
    lema_regravado_cabecalho(d, base, shift, tabela, c);
    assert(g[VD + 5] == d[VD + 5] && g[VD + 6] == d[VD + 6] && g[VD + 7] == d[VD + 7]);
    let ft = ft_spec(d);
    let oft = off_spec(base, shift, ft as int);
    assert forall|p: int| oft <= p < oft + 0x1000 implies d[p] == g[p] by {
        assert forall|j: int| 0 <= j < n implies !#[trigger] no_passo(base, shift, tabela, bl, j, p) by {
            let bj = bl[j] as int;
            assert(bl[j] != ft);
            lema_off_distintos(base, shift, bj, ft as int);
        }
        lema_off_minimo(base, shift, ft as int);
        lema_fora(d, base, shift, tabela, bl, c, p);
    }
    assert forall|i: int, q: int| 0 <= i < n && 0x15 <= q < 0x18 implies #[trigger] d[entrada_spec(
        tabela,
        bl[i] as int,
    ) + q] == g[entrada_spec(tabela, bl[i] as int) + q] by {
        let p = entrada_spec(tabela, bl[i] as int) + q;
        assert forall|j: int| 0 <= j < n implies !#[trigger] no_passo(base, shift, tabela, bl, j, p) by {
            assert(separados(entrada_spec(tabela, bl[i] as int), 0x18, off_spec(base, shift, bl[j] as int), 0x1000));
        }
        lema_fora(d, base, shift, tabela, bl, c, p);
    }
    lema_arquivo_igual(d, g, base, shift, tabela);
}

/// O pacote regravado, relido, dá o conteúdo gravado.
proof fn lema_regravado_le(d: Seq<u8>, base: int, shift: u32, tabela: int, c: Seq<u8>)
    requires
        regravavel(d, base, shift, tabela, c),
    ensures
        le_spec(regravado(d, base, shift, tabela, c), base, shift, blocos_de(d, base, shift, tabela), c.len())
            == c,
{
    let bl = blocos_de(d, base, shift, tabela);
    let n = bl.len();
    let g = regravado(d, base, shift, tabela, c);
    lema_tam_blocos(d, base, shift, tabela, bl, c, n);
    let d1 = grava_blocos(d, base, shift, tabela, bl, c, n);
    let h1 = resumo(d1.subrange(tabela, tabela + 0x1000));
    lema_escreve(d1, VD + 8, h1);
    let d2 = escreve(d1, VD + 8, h1);
    lema_escreve(d2, 0x32C, resumo(d2.subrange(0x344, base)));
    assert forall|k: int| 0 <= k < c.len() implies #[trigger] le_spec(g, base, shift, bl, c.len())[k] == c[k] by {
        let i = k / 0x1000;
        let r = k % 0x1000;
        assert(k == i * 0x1000 + r && 0 <= r < 0x1000) by (nonlinear_arith)
            requires
                0 <= k,
                i == k / 0x1000,
                r == k % 0x1000,
        ;
        lema_n_blocos(c.len() as int, n as int);
        assert(i < n) by (nonlinear_arith)
            requires
                k == i * 0x1000 + r,
                0 <= r,
                k < c.len(),
                c.len() <= n * 0x1000,
        ;
        lema_parte(c, n as int, i);
        lema_conteudo(d, base, shift, tabela, bl, c, i);
        let o = off_spec(base, shift, bl[i] as int);
        lema_off_minimo(base, shift, bl[i] as int);
        assert(r < parte(c, i).len());
        assert(d1[o + r] == c[i * 0x1000 + r]);
    }
    assert(le_spec(g, base, shift, bl, c.len()) =~= c);
}

/// Os hashes do pacote regravado conferem.
proof fn lema_regravado_hashes(d: Seq<u8>, base: int, shift: u32, tabela: int, c: Seq<u8>)
    requires
        regravavel(d, base, shift, tabela, c),
    ensures
        hashes_ok_spec(regravado(d, base, shift, tabela, c), base, shift, tabela),
{
    let bl = blocos_de(d, base, shift, tabela);
    let n = bl.len();
    let g = regravado(d, base, shift, tabela, c);
    lema_regravado_arquivo(d, base, shift, tabela, c);
    lema_tam_blocos(d, base, shift, tabela, bl, c, n);
    let d1 = grava_blocos(d, base, shift, tabela, bl, c, n);
    let h1 = resumo(d1.subrange(tabela, tabela + 0x1000));
    lema_escreve(d1, VD + 8, h1);
    let d2 = escreve(d1, VD + 8, h1);
    let h2 = resumo(d2.subrange(0x344, base));
    lema_escreve(d2, 0x32C, h2);
    assert forall|i: int| 0 <= i < n implies {
        let o = off_spec(base, shift, #[trigger] bl[i] as int);
        let e = entrada_spec(tabela, bl[i] as int);
        resumo(g.subrange(o, o + 0x1000)) == g.subrange(e, e + 20)
    } by {
        let o = off_spec(base, shift, bl[i] as int);
        let e = entrada_spec(tabela, bl[i] as int);
        lema_conteudo(d, base, shift, tabela, bl, c, i);
        assert(bloco_ok_spec(d.len() as int, base, shift, bl[i] as int));
        lema_off_minimo(base, shift, bl[i] as int);
        assert(g.subrange(o, o + 0x1000) =~= d1.subrange(o, o + 0x1000));
        assert(g.subrange(e, e + 20) =~= d1.subrange(e, e + 20));
    }
    assert(g.subrange(tabela, tabela + 0x1000) =~= d1.subrange(tabela, tabela + 0x1000));
    assert(g.subrange(VD + 8, VD + 0x1C) =~= h1);
    assert(g.subrange(0x344, base) =~= d2.subrange(0x344, base));
    assert(g.subrange(0x32C, 0x340) =~= h2);
}

/// Regravar o savedata.bin com um conteúdo do mesmo tamanho e relê-lo: o
/// pacote continua com o mesmo cabeçalho (fora os dois hashes) e acha o
/// mesmo arquivo, o conteúdo relido é o gravado e os hashes dos blocos, da
/// tabela e do cabeçalho conferem. Vale quando os blocos do arquivo podem ser
/// regravados sem se atropelar e nenhum deles é o bloco da tabela de
/// arquivos (`regravavel`).
pub proof fn lei_grava_le(d: Seq<u8>, base: int, shift: u32, tabela: int, c: Seq<u8>)
    requires
        regravavel(d, base, shift, tabela, c),
    ensures
        ({
            let g = regravado(d, base, shift, tabela, c);
            &&& g.len() == d.len()
            &&& g.subrange(0, 0x32C) == d.subrange(0, 0x32C)
            &&& base_de(g) == base_de(d)
            &&& shift_de(g) == shift_de(d)
            &&& tabela_de(g) == tabela_de(d)
            &&& e_pacote_spec(g) == e_pacote_spec(d)
            &&& be32_em(g, VD + 0x1C) == be32_em(d, VD + 0x1C)
            &&& arquivo_spec(g, base, shift, tabela) == arquivo_spec(d, base, shift, tabela)
            &&& le_spec(g, base, shift, blocos_de(d, base, shift, tabela), c.len()) == c
            &&& hashes_ok_spec(g, base, shift, tabela)
            // fora dos blocos do arquivo, das entradas deles e dos dois
            // hashes do cabeçalho, nenhum byte muda
            &&& forall|p: int|
                0 <= p < d.len() && !(VD + 8 <= p < VD + 0x1C) && !(0x32C <= p < 0x340) && (forall|j: int|
                    0 <= j < blocos_de(d, base, shift, tabela).len() ==> !#[trigger] no_passo(
                        base,
                        shift,
                        tabela,
                        blocos_de(d, base, shift, tabela),
                        j,
                        p,
                    )) ==> #[trigger] g[p] == d[p]
        }),
{
    let g = regravado(d, base, shift, tabela, c);
    lema_regravado_cabecalho(d, base, shift, tabela, c);
    assert(g[0x340] == d[0x340] && g[0x341] == d[0x341] && g[0x342] == d[0x342] && g[0x343] == d[0x343]);
    assert(g[VD + 2] == d[VD + 2]);
    assert(g[VD + 0x1C] == d[VD + 0x1C] && g[VD + 0x1D] == d[VD + 0x1D] && g[VD + 0x1E] == d[VD + 0x1E]
        && g[VD + 0x1F] == d[VD + 0x1F]);
    assert(g[0] == d[0] && g[1] == d[1] && g[2] == d[2] && g[3] == d[3]);
    assert(g.subrange(0, 0x32C) =~= d.subrange(0, 0x32C));
    lema_regravado_arquivo(d, base, shift, tabela, c);
    lema_regravado_le(d, base, shift, tabela, c);
    lema_regravado_hashes(d, base, shift, tabela, c);
    let bl = blocos_de(d, base, shift, tabela);
    assert forall|p: int|
        0 <= p < d.len() && !(VD + 8 <= p < VD + 0x1C) && !(0x32C <= p < 0x340) && (forall|j: int|
            0 <= j < bl.len() ==> !#[trigger] no_passo(base, shift, tabela, bl, j, p)) implies #[trigger] g[p] == d[p] by {
        lema_fora(d, base, shift, tabela, bl, c, p);
    }
}

/// Dois pacotes do mesmo tamanho que só diferem antes de 0x22C (certificado e
/// assinatura) acham o mesmo arquivo, com o mesmo conteúdo e os mesmos
/// hashes.
pub proof fn lema_mesmo_fim(a: Seq<u8>, b: Seq<u8>, base: int, shift: u32, tabela: int)
    requires
        a.len() == b.len(),
        0x1000 <= base <= tabela,
        tabela + 0x1000 <= a.len(),
        arquivo_spec(a, base, shift, tabela) is Ok,
        forall|i: int|
            0 <= i < blocos_de(a, base, shift, tabela).len() ==> entrada_spec(
                tabela,
                #[trigger] blocos_de(a, base, shift, tabela)[i] as int,
            ) + 0x18 <= a.len(),
        forall|p: int| 0x22C <= p < a.len() ==> a[p] == b[p],
    ensures
        arquivo_spec(b, base, shift, tabela) == arquivo_spec(a, base, shift, tabela),
        le_spec(b, base, shift, blocos_de(a, base, shift, tabela), arquivo_spec(a, base, shift, tabela)->Ok_0.1 as nat)
            == le_spec(a, base, shift, blocos_de(a, base, shift, tabela), arquivo_spec(a, base, shift, tabela)->Ok_0.1 as nat),
        hashes_ok_spec(b, base, shift, tabela) == hashes_ok_spec(a, base, shift, tabela),
{
    let bl = blocos_de(a, base, shift, tabela);
    let tam = arquivo_spec(a, base, shift, tabela)->Ok_0.1;
    let ft = ft_spec(a);
    assert(a[VD + 5] == b[VD + 5] && a[VD + 6] == b[VD + 6] && a[VD + 7] == b[VD + 7]);
    assert(bloco_ok_spec(a.len() as int, base, shift, ft as int));
    lema_off_minimo(base, shift, ft as int);
    assert forall|i: int, q: int| 0 <= i < bl.len() && 0x15 <= q < 0x18 implies #[trigger] a[entrada_spec(
        tabela,
        bl[i] as int,
    ) + q] == b[entrada_spec(tabela, bl[i] as int) + q] by {
    }
    lema_arquivo_igual(a, b, base, shift, tabela);
    assert forall|k: int| 0 <= k < tam implies #[trigger] le_spec(b, base, shift, bl, tam as nat)[k] == le_spec(
        a,
        base,
        shift,
        bl,
        tam as nat,
    )[k] by {
        let i = k / 0x1000;
        assert(0 <= i < bl.len()) by {
            lema_n_blocos(tam as int, bl.len() as int);
            assert(0 <= i && i * 0x1000 <= k) by (nonlinear_arith)
                requires
                    0 <= k,
                    i == k / 0x1000,
            ;
        }
        lema_bloco_do_arquivo(a, base, shift, tabela, i);
        lema_off_ordem_ou_igual(base, shift, bl[i] as int);
    }
    assert(le_spec(b, base, shift, bl, tam as nat) =~= le_spec(a, base, shift, bl, tam as nat));
    if hashes_ok_spec(a, base, shift, tabela) || hashes_ok_spec(b, base, shift, tabela) {
        assert forall|i: int| 0 <= i < bl.len() implies {
            let o = off_spec(base, shift, #[trigger] bl[i] as int);
            let e = entrada_spec(tabela, bl[i] as int);
            &&& a.subrange(o, o + 0x1000) == b.subrange(o, o + 0x1000)
            &&& a.subrange(e, e + 20) == b.subrange(e, e + 20)
        } by {
            let o = off_spec(base, shift, bl[i] as int);
            let e = entrada_spec(tabela, bl[i] as int);
            lema_bloco_do_arquivo(a, base, shift, tabela, i);
            lema_off_minimo(base, shift, bl[i] as int);
            assert(a.subrange(o, o + 0x1000) =~= b.subrange(o, o + 0x1000));
            assert(a.subrange(e, e + 20) =~= b.subrange(e, e + 20));
        }
        assert(a.subrange(tabela, tabela + 0x1000) =~= b.subrange(tabela, tabela + 0x1000));
        assert(a.subrange(VD + 8, VD + 0x1C) =~= b.subrange(VD + 8, VD + 0x1C));
        assert(a.subrange(0x344, base) =~= b.subrange(0x344, base));
        assert(a.subrange(0x32C, 0x340) =~= b.subrange(0x32C, 0x340));
    }
}

/// Os blocos de dados ficam depois do bloco zero.
proof fn lema_off_ordem_ou_igual(base: int, shift: u32, b: int)
    requires
        0 <= b,
    ensures
        off_spec(base, shift, 0) <= off_spec(base, shift, b),
{
    if b > 0 {
        lema_off_ordem(base, shift, 0, b);
    }
}

/// Cada bloco do arquivo achado cabe no pacote, e a entrada dele também.
proof fn lema_bloco_do_arquivo(d: Seq<u8>, base: int, shift: u32, tabela: int, i: int)
    requires
        arquivo_spec(d, base, shift, tabela) is Ok,
        0 <= i < blocos_de(d, base, shift, tabela).len(),
    ensures
        bloco_ok_spec(d.len() as int, base, shift, blocos_de(d, base, shift, tabela)[i] as int),
{
    let bl = blocos_de(d, base, shift, tabela);
    let ft = ft_spec(d);
    let oft = off_spec(base, shift, ft as int);
    let j = primeira_entrada(d, oft, 64);
    let o = oft + 0x40 * j;
    let b0 = inicio_spec(d, o);
    let n = n_blocos(be32_em(d, o + 0x34));
    assert(bl == cadeia(d, tabela, b0, n));
    assert(bl[i] == passo(d, tabela, b0, i as nat));
}

} // verus!
