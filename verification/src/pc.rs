//! Cifra do save de PC: XOR encadeado em blocos de 8 bytes. Cada bloco é
//! combinado com o bloco cifrado anterior; o primeiro, com uma chave fixa.
use vstd::prelude::*;

verus! {

/// Chave do primeiro bloco: 00 21 11 08 C0 4B 00 00.
pub open spec fn chave_inicial_spec(i: int) -> u8 {
    if i == 1 {
        0x21
    } else if i == 2 {
        0x11
    } else if i == 3 {
        0x08
    } else if i == 4 {
        0xC0
    } else if i == 5 {
        0x4B
    } else {
        0x00
    }
}

fn chave_inicial(i: usize) -> (r: u8)
    ensures
        r == chave_inicial_spec(i as int),
{
    if i == 1 {
        0x21
    } else if i == 2 {
        0x11
    } else if i == 3 {
        0x08
    } else if i == 4 {
        0xC0
    } else if i == 5 {
        0x4B
    } else {
        0x00
    }
}

/// Decifra: cada byte com o byte cifrado 8 posições antes (ou a chave fixa).
pub open spec fn decifra_spec(c: Seq<u8>) -> Seq<u8> {
    Seq::new(
        c.len(),
        |i: int|
            c[i] ^ (if i < 8 {
                chave_inicial_spec(i)
            } else {
                c[i - 8]
            }),
    )
}

/// Cifra: cada byte com o byte já cifrado 8 posições antes (ou a chave fixa).
pub open spec fn cifra_spec(p: Seq<u8>) -> Seq<u8>
    decreases p.len(),
{
    if p.len() == 0 {
        Seq::empty()
    } else {
        let ant = cifra_spec(p.drop_last());
        let i = p.len() - 1;
        ant.push(
            p.last() ^ (if i < 8 {
                chave_inicial_spec(i)
            } else {
                ant[i - 8]
            }),
        )
    }
}

pub proof fn lema_cifra_tamanho(p: Seq<u8>)
    ensures
        cifra_spec(p).len() == p.len(),
    decreases p.len(),
{
    if p.len() > 0 {
        lema_cifra_tamanho(p.drop_last());
    }
}

/// Cada byte cifrado depende só do começo do texto claro.
pub proof fn lema_cifra_prefixo(p: Seq<u8>, n: int)
    requires
        0 <= n <= p.len(),
    ensures
        cifra_spec(p.subrange(0, n)) == cifra_spec(p).subrange(0, n),
    decreases p.len() - n,
{
    lema_cifra_tamanho(p);
    if n < p.len() {
        lema_cifra_prefixo(p, n + 1);
        let q = p.subrange(0, n + 1);
        assert(q.drop_last() =~= p.subrange(0, n));
        lema_cifra_tamanho(q.drop_last());
        assert(cifra_spec(q).drop_last() =~= cifra_spec(p.subrange(0, n)));
        assert(cifra_spec(p).subrange(0, n + 1).drop_last() =~= cifra_spec(p).subrange(0, n));
    } else {
        assert(p.subrange(0, n) =~= p);
        assert(cifra_spec(p).subrange(0, n) =~= cifra_spec(p));
    }
}

/// O byte `i` da cifra.
pub proof fn lema_cifra_byte(p: Seq<u8>, i: int)
    requires
        0 <= i < p.len(),
    ensures
        cifra_spec(p)[i] == p[i] ^ (if i < 8 {
            chave_inicial_spec(i)
        } else {
            cifra_spec(p)[i - 8]
        }),
{
    lema_cifra_prefixo(p, i + 1);
    lema_cifra_tamanho(p);
    let q = p.subrange(0, i + 1);
    assert(q.drop_last() =~= p.subrange(0, i));
    lema_cifra_prefixo(p, i);
    lema_cifra_tamanho(q.drop_last());
    assert(cifra_spec(q)[i] == cifra_spec(p)[i]);
    if i >= 8 {
        assert(cifra_spec(p.subrange(0, i))[i - 8] == cifra_spec(p)[i - 8]);
    }
}

proof fn lema_xor_volta(a: u8, b: u8)
    ensures
        (a ^ b) ^ b == a,
{
    assert((a ^ b) ^ b == a) by (bit_vector);
}

/// Decifrar o que foi cifrado devolve o texto claro.
pub proof fn lema_decifra_cifra(p: Seq<u8>)
    ensures
        decifra_spec(cifra_spec(p)) == p,
{
    lema_cifra_tamanho(p);
    let c = cifra_spec(p);
    assert forall|i: int| 0 <= i < p.len() implies #[trigger] decifra_spec(c)[i] == p[i] by {
        lema_cifra_byte(p, i);
        if i < 8 {
            lema_xor_volta(p[i], chave_inicial_spec(i));
        } else {
            lema_xor_volta(p[i], c[i - 8]);
        }
    }
    assert(decifra_spec(c) =~= p);
}

/// Cifrar o que foi decifrado devolve o arquivo cifrado.
pub proof fn lema_cifra_decifra(c: Seq<u8>)
    ensures
        cifra_spec(decifra_spec(c)) == c,
    decreases c.len(),
{
    let p = decifra_spec(c);
    lema_cifra_tamanho(p);
    assert forall|i: int| 0 <= i < c.len() implies #[trigger] cifra_spec(p)[i] == c[i] by {
        lema_cifra_decifra_ate(c, i);
    }
    assert(cifra_spec(p) =~= c);
}

proof fn lema_cifra_decifra_ate(c: Seq<u8>, i: int)
    requires
        0 <= i < c.len(),
    ensures
        cifra_spec(decifra_spec(c))[i] == c[i],
    decreases i,
{
    let p = decifra_spec(c);
    lema_cifra_byte(p, i);
    if i < 8 {
        lema_xor_volta(c[i], chave_inicial_spec(i));
    } else {
        lema_cifra_decifra_ate(c, i - 8);
        lema_xor_volta(c[i], c[i - 8]);
    }
}

/// Decifra o save de PC.
pub fn pc_decifra(cifrado: &[u8]) -> (r: Vec<u8>)
    ensures
        r@ == decifra_spec(cifrado@),
{
    let n = cifrado.len();
    let mut out: Vec<u8> = Vec::new();
    let mut i: usize = 0;
    while i < n
        invariant
            n == cifrado@.len(),
            i <= n,
            out@ == decifra_spec(cifrado@).subrange(0, i as int),
        decreases n - i,
    {
        let k = if i < 8 {
            chave_inicial(i)
        } else {
            cifrado[i - 8]
        };
        out.push(cifrado[i] ^ k);
        i += 1;
        assert(out@ =~= decifra_spec(cifrado@).subrange(0, i as int));
    }
    assert(decifra_spec(cifrado@).subrange(0, n as int) =~= decifra_spec(cifrado@));
    out
}

/// Cifra o save de PC.
pub fn pc_cifra(claro: &[u8]) -> (r: Vec<u8>)
    ensures
        r@ == cifra_spec(claro@),
{
    let n = claro.len();
    let mut out: Vec<u8> = Vec::new();
    let mut i: usize = 0;
    proof {
        lema_cifra_tamanho(claro@);
    }
    while i < n
        invariant
            n == claro@.len(),
            i <= n,
            cifra_spec(claro@).len() == n,
            out@ == cifra_spec(claro@).subrange(0, i as int),
        decreases n - i,
    {
        let k = if i < 8 {
            chave_inicial(i)
        } else {
            out[i - 8]
        };
        proof {
            lema_cifra_byte(claro@, i as int);
        }
        out.push(claro[i] ^ k);
        i += 1;
        assert(out@ =~= cifra_spec(claro@).subrange(0, i as int));
    }
    assert(cifra_spec(claro@).subrange(0, n as int) =~= cifra_spec(claro@));
    out
}

/// Decifrar um save de PC cifrado por `pc_cifra` devolve os bytes claros.
pub proof fn lei_pc_ida_e_volta(claro: Seq<u8>)
    ensures
        decifra_spec(cifra_spec(claro)) == claro,
        cifra_spec(decifra_spec(claro)) == claro,
{
    lema_decifra_cifra(claro);
    lema_cifra_decifra(claro);
}

/// A cifra byte a byte: os 8 primeiros bytes com a chave fixa
/// 00 21 11 08 C0 4B 00 00; cada byte seguinte com o byte cifrado 8
/// posições antes. Decifrar usa a mesma chave e os bytes cifrados. (Cifrar
/// 8 bytes zero dá 00 21 11 08 C0 4B 00 00.)
pub proof fn lei_pc_cifra_por_byte(p: Seq<u8>, c: Seq<u8>)
    ensures
        cifra_spec(p).len() == p.len(),
        decifra_spec(c).len() == c.len(),
        forall|i: int|
            0 <= i < p.len() ==> #[trigger] cifra_spec(p)[i] == p[i] ^ (if i < 8 {
                seq![0x00u8, 0x21u8, 0x11u8, 0x08u8, 0xC0u8, 0x4Bu8, 0x00u8, 0x00u8][i]
            } else {
                cifra_spec(p)[i - 8]
            }),
        forall|i: int|
            0 <= i < c.len() ==> #[trigger] decifra_spec(c)[i] == c[i] ^ (if i < 8 {
                seq![0x00u8, 0x21u8, 0x11u8, 0x08u8, 0xC0u8, 0x4Bu8, 0x00u8, 0x00u8][i]
            } else {
                c[i - 8]
            }),
{
    lema_cifra_tamanho(p);
    let k = seq![0x00u8, 0x21u8, 0x11u8, 0x08u8, 0xC0u8, 0x4Bu8, 0x00u8, 0x00u8];
    assert forall|i: int| 0 <= i < 8 implies #[trigger] k[i] == chave_inicial_spec(i) by {
    }
    assert forall|i: int| 0 <= i < p.len() implies #[trigger] cifra_spec(p)[i] == p[i] ^ (if i < 8 {
        k[i]
    } else {
        cifra_spec(p)[i - 8]
    }) by {
        lema_cifra_byte(p, i);
    }
}

} // verus!
