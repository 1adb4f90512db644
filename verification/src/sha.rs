//! SHA-1 (crate `sha1`).
use vstd::prelude::*;
use sha1::Digest;

verus! {

/// O resumo SHA-1 dos bytes dados, como o crate `sha1` o calcula.
pub uninterp spec fn sha1_spec(d: Seq<u8>) -> Seq<u8>;

/// Resumo SHA-1 dos bytes: `sha1::Sha1::digest`. O contrato diz que o
/// resultado é o nome `sha1_spec` aplicado aos bytes e que tem 20 bytes
/// (160 bits), como a norma do SHA-1 fixa; o algoritmo em si não é descrito.
#[verifier::external_body]
pub(crate) fn sha1(d: &[u8]) -> (r: Vec<u8>)
    ensures
        r@ == sha1_spec(d@),
        r@.len() == 20,
{
    sha1::Sha1::digest(d).to_vec()
}

/// Os 20 bytes do resumo SHA-1 (o tamanho fica explícito para as provas).
pub open spec fn resumo(d: Seq<u8>) -> Seq<u8> {
    Seq::new(20, |i: int| sha1_spec(d)[i])
}

} // verus!
