//! Palavras de 32 bits nas duas ordens de bytes.
use vstd::prelude::*;

verus! {

/// Valor de quatro bytes, o primeiro mais significativo.
pub open spec fn be32_spec(b0: u8, b1: u8, b2: u8, b3: u8) -> u32 {
    ((b0 as u32) << 24) | ((b1 as u32) << 16) | ((b2 as u32) << 8) | (b3 as u32)
}

/// Palavra de 32 bits que começa em `o`: big-endian (`be`) ou little-endian.
pub open spec fn palavra(d: Seq<u8>, o: int, be: bool) -> u32 {
    if be {
        be32_spec(d[o], d[o + 1], d[o + 2], d[o + 3])
    } else {
        be32_spec(d[o + 3], d[o + 2], d[o + 1], d[o])
    }
}

/// Byte `k` (0 = o menos significativo) de `v`.
pub open spec fn byte_de(v: u32, k: int) -> u8 {
    if k == 0 {
        (v & 0xff) as u8
    } else if k == 1 {
        ((v >> 8u32) & 0xff) as u8
    } else if k == 2 {
        ((v >> 16u32) & 0xff) as u8
    } else {
        ((v >> 24u32) & 0xff) as u8
    }
}

/// `d` com a palavra `v` gravada em `o`, na ordem de bytes dada.
pub open spec fn grava_palavra(d: Seq<u8>, o: int, v: u32, be: bool) -> Seq<u8> {
    if be {
        d.update(o, byte_de(v, 3)).update(o + 1, byte_de(v, 2)).update(o + 2, byte_de(v, 1)).update(
            o + 3,
            byte_de(v, 0),
        )
    } else {
        d.update(o, byte_de(v, 0)).update(o + 1, byte_de(v, 1)).update(o + 2, byte_de(v, 2)).update(
            o + 3,
            byte_de(v, 3),
        )
    }
}

pub proof fn lema_bytes_de_be32(v: u32)
    ensures
        be32_spec(byte_de(v, 3), byte_de(v, 2), byte_de(v, 1), byte_de(v, 0)) == v,
{
    let b0 = (v & 0xff) as u8;
    let b1 = ((v >> 8u32) & 0xff) as u8;
    let b2 = ((v >> 16u32) & 0xff) as u8;
    let b3 = ((v >> 24u32) & 0xff) as u8;
    assert(((b3 as u32) << 24) | ((b2 as u32) << 16) | ((b1 as u32) << 8) | (b0 as u32) == v)
        by (bit_vector)
        requires
            b0 == (v & 0xff) as u8,
            b1 == ((v >> 8u32) & 0xff) as u8,
            b2 == ((v >> 16u32) & 0xff) as u8,
            b3 == ((v >> 24u32) & 0xff) as u8,
    ;
}

/// Uma palavra gravada é lida de volta igual, e os outros bytes não mudam.
pub proof fn lema_grava_palavra(d: Seq<u8>, o: int, v: u32, be: bool)
    requires
        0 <= o,
        o + 4 <= d.len(),
    ensures
        grava_palavra(d, o, v, be).len() == d.len(),
        palavra(grava_palavra(d, o, v, be), o, be) == v,
        forall|i: int|
            0 <= i < d.len() && !(o <= i < o + 4) ==> #[trigger] grava_palavra(d, o, v, be)[i]
                == d[i],
{
    lema_bytes_de_be32(v);
}

/// Lê a palavra big-endian que começa em `o`.
pub fn be32(d: &[u8], o: usize) -> (r: u32)
    requires
        o + 4 <= d@.len(),
    ensures
        r == be32_spec(d@[o as int], d@[o + 1], d@[o + 2], d@[o + 3]),
{
    ((d[o] as u32) << 24) | ((d[o + 1] as u32) << 16) | ((d[o + 2] as u32) << 8) | (d[o + 3] as u32)
}

/// Lê a palavra que começa em `o` na ordem de bytes dada.
pub fn le_palavra(d: &[u8], o: usize, be: bool) -> (r: u32)
    requires
        o + 4 <= d@.len(),
    ensures
        r == palavra(d@, o as int, be),
{
    let tam = d.len();
    assert(o + 4 <= tam);
    if be {
        be32(d, o)
    } else {
        ((d[o + 3] as u32) << 24) | ((d[o + 2] as u32) << 16) | ((d[o + 1] as u32) << 8) | (
        d[o] as u32)
    }
}

/// Grava `v` em `o` na ordem de bytes dada.
pub fn grava_palavra_exec(d: &mut Vec<u8>, o: usize, v: u32, be: bool)
    requires
        o + 4 <= old(d)@.len(),
    ensures
        final(d)@ == grava_palavra(old(d)@, o as int, v, be),
{
    let tam = d.len();
    assert(o + 4 <= tam);
    let b0 = (v & 0xff) as u8;
    let b1 = ((v >> 8u32) & 0xff) as u8;
    let b2 = ((v >> 16u32) & 0xff) as u8;
    let b3 = ((v >> 24u32) & 0xff) as u8;
    if be {
        d.set(o, b3);
        d.set(o + 1, b2);
        d.set(o + 2, b1);
        d.set(o + 3, b0);
    } else {
        d.set(o, b0);
        d.set(o + 1, b1);
        d.set(o + 2, b2);
        d.set(o + 3, b3);
    }
}

/// Copia `src` para `d` a partir de `o`.
pub fn copia_em(d: &mut Vec<u8>, o: usize, src: &[u8])
    requires
        o + src@.len() <= old(d)@.len(),
    ensures
        final(d)@ == old(d)@.subrange(0, o as int) + src@ + old(d)@.subrange(
            o + src@.len(),
            old(d)@.len() as int,
        ),
{
    let tam = d.len();
    let mut i: usize = 0;
    while i < src.len()
        invariant
            tam == old(d)@.len(),
            o + src@.len() <= d@.len(),
            d@.len() == old(d)@.len(),
            i <= src@.len(),
            d@ == old(d)@.subrange(0, o as int) + src@.subrange(0, i as int) + old(d)@.subrange(
                o + i,
                old(d)@.len() as int,
            ),
        decreases src@.len() - i,
    {
        d.set(o + i, src[i]);
        i += 1;
        assert(d@ =~= old(d)@.subrange(0, o as int) + src@.subrange(0, i as int) + old(d)@.subrange(
            o + i,
            old(d)@.len() as int,
        ));
    }
    assert(src@.subrange(0, src@.len() as int) =~= src@);
}

/// Os dois trechos de bytes são iguais.
pub fn iguais(a: &[u8], b: &[u8]) -> (r: bool)
    ensures
        r == (a@ == b@),
{
    if a.len() != b.len() {
        return false;
    }
    let mut i: usize = 0;
    while i < a.len()
        invariant
            a@.len() == b@.len(),
            i <= a@.len(),
            forall|j: int| 0 <= j < i ==> a@[j] == b@[j],
        decreases a@.len() - i,
    {
        if a[i] != b[i] {
            return false;
        }
        i += 1;
    }
    assert(a@ =~= b@);
    true
}

/// Uma palavra lida: no big-endian o primeiro byte é o mais significativo;
/// no little-endian, o menos.
pub proof fn lei_palavra_bytes(d: Seq<u8>, o: int, be: bool)
    requires
        0 <= o,
        o + 4 <= d.len(),
    ensures
        palavra(d, o, be) as int == if be {
            d[o] as int * 0x1000000 + d[o + 1] as int * 0x10000 + d[o + 2] as int * 0x100 + d[o + 3] as int
        } else {
            d[o + 3] as int * 0x1000000 + d[o + 2] as int * 0x10000 + d[o + 1] as int * 0x100 + d[o] as int
        },
{
    let (b0, b1, b2, b3) = (d[o], d[o + 1], d[o + 2], d[o + 3]);
    assert(((b0 as u32) << 24) | ((b1 as u32) << 16) | ((b2 as u32) << 8) | (b3 as u32) == (b0 as u32) * 0x1000000
        + (b1 as u32) * 0x10000 + (b2 as u32) * 0x100 + (b3 as u32)) by (bit_vector);
    assert(((b3 as u32) << 24) | ((b2 as u32) << 16) | ((b1 as u32) << 8) | (b0 as u32) == (b3 as u32) * 0x1000000
        + (b2 as u32) * 0x10000 + (b1 as u32) * 0x100 + (b0 as u32)) by (bit_vector);
}

} // verus!
