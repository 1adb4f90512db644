//! Assinatura RSA do pacote do Xbox 360: a chave do console vem do keyvault
//! decifrado (kv.bin); a conferência usa a chave pública do certificado
//! gravado no próprio pacote. A aritmética de números grandes é a do crate
//! `num_bigint`; os números passam por aqui como bytes big-endian.
use vstd::prelude::*;
use vstd::slice::slice_subrange;
use num_bigint::BigUint;
use crate::aritmetica::{lema_rsa, primo};
use crate::bytes::{copia_em, iguais};
use crate::erro::Erro;
use crate::sha::{resumo, sha1};
use crate::stfs::Stfs;

verus! {

// ---------------------------------------------------------------- números como bytes

/// Valor de uma sequência de bytes big-endian.
pub open spec fn valor_be(s: Seq<u8>) -> nat
    decreases s.len(),
{
    if s.len() == 0 {
        0
    } else {
        valor_be(s.drop_last()) * 256 + s.last() as nat
    }
}

/// Bytes big-endian de `x` sem zeros à esquerda (o zero é um byte 0), como
/// `BigUint::to_bytes_be` devolve.
pub open spec fn be_minimo(x: nat) -> Seq<u8>
    decreases x,
{
    if x < 256 {
        seq![x as u8]
    } else {
        be_minimo(x / 256).push((x % 256) as u8)
    }
}

/// 256 elevado a `k`.
pub open spec fn pot256(k: nat) -> nat
    decreases k,
{
    if k == 0 {
        1
    } else {
        256 * pot256((k - 1) as nat)
    }
}

pub proof fn lema_valor_be_minimo(x: nat)
    ensures
        valor_be(be_minimo(x)) == x,
        be_minimo(x).len() >= 1,
    decreases x,
{
    if x >= 256 {
        lema_valor_be_minimo(x / 256);
        assert(be_minimo(x).drop_last() =~= be_minimo(x / 256));
        assert(x == (x / 256) * 256 + x % 256) by (nonlinear_arith);
        assert(((x % 256) as u8) as nat == x % 256);
    } else {
        assert(be_minimo(x).drop_last() =~= Seq::<u8>::empty());
        assert(valor_be(Seq::<u8>::empty()) == 0);
        assert((x as u8) as nat == x);
    }
}

pub proof fn lema_valor_limite(s: Seq<u8>)
    ensures
        valor_be(s) < pot256(s.len()),
    decreases s.len(),
{
    if s.len() > 0 {
        lema_valor_limite(s.drop_last());
        let v = valor_be(s.drop_last());
        let p = pot256((s.len() - 1) as nat);
        assert(v * 256 + s.last() < 256 * p) by (nonlinear_arith)
            requires
                v < p,
                s.last() < 256,
        ;
    }
}

pub proof fn lema_be_minimo_tam(x: nat, k: nat)
    requires
        k >= 1,
        x < pot256(k),
    ensures
        be_minimo(x).len() <= k,
    decreases x,
{
    if x >= 256 {
        let p = pot256((k - 1) as nat);
        assert(x / 256 < p) by (nonlinear_arith)
            requires
                x < 256 * p,
        ;
        if k == 1 {
            assert(false);
        } else {
            lema_be_minimo_tam(x / 256, (k - 1) as nat);
        }
    }
}

/// `x` é o inverso de `a` módulo `m`: está em [0, m) e a·x ≡ 1 (mod m).
pub open spec fn e_inverso(a: nat, m: nat, x: nat) -> bool {
    x < m && ((a * x) as int) % (m as int) == 1int % (m as int)
}

/// `a` tem inverso módulo `m`.
pub open spec fn tem_inverso(a: nat, m: nat) -> bool {
    exists|x: nat| #[trigger] e_inverso(a, m, x)
}

/// Produto de dois números: `Mul` de `num_bigint::BigUint`. Os bytes são
/// lidos com `from_bytes_be` e o resultado sai de `to_bytes_be`.
#[verifier::external_body]
fn bu_mul(a: &[u8], b: &[u8]) -> (r: Vec<u8>)
    ensures
        r@ == be_minimo(valor_be(a@) * valor_be(b@)),
{
    (BigUint::from_bytes_be(a) * BigUint::from_bytes_be(b)).to_bytes_be()
}

/// Diferença de dois números: `Sub` de `num_bigint::BigUint`, que entra em
/// pânico quando `b > a` (por isso o `requires`).
#[verifier::external_body]
fn bu_sub(a: &[u8], b: &[u8]) -> (r: Vec<u8>)
    requires
        valor_be(a@) >= valor_be(b@),
    ensures
        r@ == be_minimo((valor_be(a@) - valor_be(b@)) as nat),
{
    (BigUint::from_bytes_be(a) - BigUint::from_bytes_be(b)).to_bytes_be()
}

/// Os dois números são iguais: `PartialEq` de `num_bigint::BigUint`.
#[verifier::external_body]
fn bu_igual(a: &[u8], b: &[u8]) -> (r: bool)
    ensures
        r == (valor_be(a@) == valor_be(b@)),
{
    BigUint::from_bytes_be(a) == BigUint::from_bytes_be(b)
}

/// Inverso modular: `BigUint::modinv`. Segundo a documentação, acha `x` em
/// `[0, m)` com `a * x ≡ 1 (mod m)` e devolve `None` quando ele não existe;
/// com módulo zero entra em pânico (por isso o `requires`).
#[verifier::external_body]
fn bu_modinv(a: &[u8], m: &[u8]) -> (r: Option<Vec<u8>>)
    requires
        valor_be(m@) > 0,
    ensures
        r is Some <==> tem_inverso(valor_be(a@), valor_be(m@)),
        r matches Some(x) ==> {
            &&& valor_be(x@) < valor_be(m@)
            &&& ((valor_be(a@) * valor_be(x@)) as int) % (valor_be(m@) as int) == 1int % (valor_be(m@) as int)
            &&& x@ == be_minimo(valor_be(x@))
        },
{
    BigUint::from_bytes_be(a).modinv(&BigUint::from_bytes_be(m)).map(|x| x.to_bytes_be())
}

/// Potência modular: `BigUint::modpow`, que devolve `b ^ e mod m` e entra em
/// pânico com módulo zero (por isso o `requires`).
#[verifier::external_body]
fn bu_modpow(b: &[u8], e: &[u8], m: &[u8]) -> (r: Vec<u8>)
    requires
        valor_be(m@) > 0,
    ensures
        r@ == be_minimo(
            (vstd::arithmetic::power::pow(valor_be(b@) as int, valor_be(e@)) % (valor_be(m@) as int)) as nat,
        ),
{
    BigUint::from_bytes_be(b).modpow(&BigUint::from_bytes_be(e), &BigUint::from_bytes_be(m)).to_bytes_be()
}

/// Texto de bytes em UTF-8, com as sequências inválidas trocadas por U+FFFD
/// (`String::from_utf8_lossy`).
pub uninterp spec fn utf8_lossy_spec(b: Seq<u8>) -> Seq<char>;

/// `String::from_utf8_lossy`: o contrato dá o nome do resultado e, para
/// bytes em UTF-8 válido, diz que o texto é o decodificado; a troca das
/// sequências inválidas por U+FFFD não é descrita.
#[verifier::external_body]
pub(crate) fn texto_lossy(b: &[u8]) -> (r: String)
    ensures
        r@ == utf8_lossy_spec(b@),
        vstd::utf8::valid_utf8(b@) ==> r@ == vstd::utf8::decode_utf8(b@),
{
    String::from_utf8_lossy(b).into_owned()
}

// ---------------------------------------------------------------- bytes

/// Números do XeCrypt ficam em qwords na ordem inversa: os blocos de 8
/// bytes trocam de ordem, os bytes de cada bloco não.
pub open spec fn qwrev_spec(b: Seq<u8>) -> Seq<u8> {
    Seq::new(b.len(), |i: int| b[(b.len() / 8 - 1 - i / 8) * 8 + i % 8])
}

fn qwrev(b: &[u8]) -> (r: Vec<u8>)
    requires
        b@.len() % 8 == 0,
    ensures
        r@ == qwrev_spec(b@),
{
    let n = b.len();
    let m = n / 8;
    let mut r: Vec<u8> = Vec::new();
    let mut i: usize = 0;
    while i < n
        invariant
            n == b@.len(),
            n % 8 == 0,
            m == n / 8,
            i <= n,
            r@ == qwrev_spec(b@).subrange(0, i as int),
        decreases n - i,
    {
        assert((m - 1 - i / 8) * 8 + i % 8 < n) by (nonlinear_arith)
            requires
                i < n,
                n % 8 == 0,
                m == n / 8,
        ;
        assert(0 <= (m - 1 - i / 8) * 8 + i % 8) by (nonlinear_arith)
            requires
                i < n,
                n % 8 == 0,
                m == n / 8,
        ;
        let j = (m - 1 - i / 8) * 8 + i % 8;
        r.push(b[j]);
        i += 1;
        assert(r@ =~= qwrev_spec(b@).subrange(0, i as int));
    }
    assert(r@ =~= qwrev_spec(b@));
    r
}

/// `b` completado com zeros à esquerda até `tam` bytes.
pub open spec fn fixo_spec(b: Seq<u8>, tam: nat) -> Seq<u8> {
    if b.len() >= tam {
        b
    } else {
        Seq::new((tam - b.len()) as nat, |i: int| 0u8) + b
    }
}

fn fixo_be(b: Vec<u8>, tam: usize) -> (r: Vec<u8>)
    ensures
        r@ == fixo_spec(b@, tam as nat),
{
    if b.len() >= tam {
        return b;
    }
    let z = tam - b.len();
    let mut r: Vec<u8> = Vec::new();
    let mut i: usize = 0;
    while i < z
        invariant
            i <= z,
            r@ == Seq::new(i as nat, |k: int| 0u8),
        decreases z - i,
    {
        r.push(0u8);
        i += 1;
        assert(r@ =~= Seq::new(i as nat, |k: int| 0u8));
    }
    let mut j: usize = 0;
    while j < b.len()
        invariant
            j <= b@.len(),
            r@ == Seq::new(z as nat, |k: int| 0u8) + b@.subrange(0, j as int),
        decreases b@.len() - j,
    {
        r.push(b[j]);
        j += 1;
        assert(r@ =~= Seq::new(z as nat, |k: int| 0u8) + b@.subrange(0, j as int));
    }
    assert(b@.subrange(0, b@.len() as int) =~= b@);
    r
}

/// Prefixo DigestInfo do SHA-1 (PKCS #1).
pub open spec fn digest_info() -> Seq<u8> {
    seq![0x30u8, 0x21, 0x30, 0x09, 0x06, 0x05, 0x2b, 0x0e, 0x03, 0x02, 0x1a, 0x05, 0x00, 0x04, 0x14]
}

fn digest_info_exec() -> (r: Vec<u8>)
    ensures
        r@ == digest_info(),
{
    let r = vec![0x30u8, 0x21, 0x30, 0x09, 0x06, 0x05, 0x2b, 0x0e, 0x03, 0x02, 0x1a, 0x05, 0x00, 0x04, 0x14];
    assert(r@ =~= digest_info());
    r
}

/// Os bytes invertidos.
pub open spec fn inverte(s: Seq<u8>) -> Seq<u8> {
    Seq::new(s.len(), |i: int| s[s.len() - 1 - i])
}

fn inverte_exec(s: &[u8]) -> (r: Vec<u8>)
    ensures
        r@ == inverte(s@),
{
    let n = s.len();
    let mut r: Vec<u8> = Vec::new();
    let mut i: usize = 0;
    while i < n
        invariant
            n == s@.len(),
            i <= n,
            r@ == inverte(s@).subrange(0, i as int),
        decreases n - i,
    {
        r.push(s[n - 1 - i]);
        i += 1;
        assert(r@ =~= inverte(s@).subrange(0, i as int));
    }
    assert(r@ =~= inverte(s@));
    r
}

// ---------------------------------------------------------------- keyvault

pub open spec fn cert_kv(kv: Seq<u8>) -> Seq<u8> {
    kv.subrange(0x9C8, 0xB70)
}

pub open spec fn chave_kv(kv: Seq<u8>) -> Seq<u8> {
    kv.subrange(0x298, 0x468)
}

/// Expoente público (32 bits).
pub open spec fn e_kv(kv: Seq<u8>) -> Seq<u8> {
    chave_kv(kv).subrange(4, 8)
}

/// Módulo.
pub open spec fn n_kv(kv: Seq<u8>) -> Seq<u8> {
    qwrev_spec(chave_kv(kv).subrange(0x10, 0x90))
}

pub open spec fn p_kv(kv: Seq<u8>) -> Seq<u8> {
    qwrev_spec(chave_kv(kv).subrange(0x90, 0xD0))
}

pub open spec fn q_kv(kv: Seq<u8>) -> Seq<u8> {
    qwrev_spec(chave_kv(kv).subrange(0xD0, 0x110))
}

/// (p - 1)(q - 1).
pub open spec fn phi_kv(kv: Seq<u8>) -> nat {
    ((valor_be(p_kv(kv)) - 1) * (valor_be(q_kv(kv)) - 1)) as nat
}

/// O expoente privado: o inverso de `e` módulo (p - 1)(q - 1), que é único
/// quando existe (`lema_inverso_unico`).
pub open spec fn d_kv(kv: Seq<u8>) -> nat {
    choose|x: nat| e_inverso(valor_be(e_kv(kv)), phi_kv(kv), x)
}

/// Dois inversos de `a` módulo `m` são o mesmo número.
pub proof fn lema_inverso_unico(a: nat, m: nat, x: nat, y: nat)
    requires
        e_inverso(a, m, x),
        e_inverso(a, m, y),
    ensures
        x == y,
{
    let mi = m as int;
    if m == 1 {
    } else {
        assert(1int % mi == 1) by {
            vstd::arithmetic::div_mod::lemma_small_mod(1, m);
        }
        vstd::arithmetic::div_mod::lemma_mul_mod_noop_right(x as int, (a * y) as int, mi);
        vstd::arithmetic::div_mod::lemma_mul_mod_noop_right(y as int, (a * x) as int, mi);
        vstd::arithmetic::div_mod::lemma_small_mod(x, m);
        vstd::arithmetic::div_mod::lemma_small_mod(y, m);
        assert((x as int) * ((a * y) as int) == (y as int) * ((a * x) as int)) by (nonlinear_arith);
        assert((x as int) * 1 == x as int);
        assert((y as int) * 1 == y as int);
    }
}

/// Keyvault com tamanho, `p * q == n` e cabeçalho do certificado (0x1A8)
/// certos.
pub open spec fn keyvault_aceito(kv: Seq<u8>) -> bool {
    &&& kv.len() >= 0x4000
    &&& valor_be(p_kv(kv)) * valor_be(q_kv(kv)) == valor_be(n_kv(kv))
    &&& cert_kv(kv)[0] as int * 256 + cert_kv(kv)[1] as int == 0x1A8
}

/// Keyvault que não faz `num_bigint` entrar em pânico: aceito, p e q são
/// pelo menos 2 (senão `p - 1` ou o módulo zero do inverso param o
/// programa).
pub open spec fn keyvault_sem_panico(kv: Seq<u8>) -> bool {
    keyvault_aceito(kv) ==> valor_be(p_kv(kv)) >= 2 && valor_be(q_kv(kv)) >= 2
}

/// Um número big-endian é zero exatamente quando todos os bytes são zero.
proof fn lema_valor_zero(s: Seq<u8>)
    ensures
        (valor_be(s) == 0) == (forall|i: int| 0 <= i < s.len() ==> s[i] == 0),
    decreases s.len(),
{
    if s.len() > 0 {
        let dl = s.drop_last();
        lema_valor_zero(dl);
        if valor_be(s) == 0 {
            assert forall|i: int| 0 <= i < s.len() implies s[i] == 0 by {
                if i < s.len() - 1 {
                    assert(dl[i] == s[i]);
                }
            }
        } else if valor_be(dl) == 0 {
            assert(s[s.len() - 1] != 0);
        } else {
            let i = choose|i: int| 0 <= i < dl.len() && dl[i] != 0;
            assert(s[i] == dl[i]);
        }
    }
}

/// O número big-endian vale pelo menos 2.
fn ao_menos_dois(s: &[u8]) -> (r: bool)
    ensures
        r == (valor_be(s@) >= 2),
{
    let n = s.len();
    if n == 0 {
        return false;
    }
    let ghost dl = s@.drop_last();
    proof {
        lema_valor_zero(dl);
    }
    let mut i: usize = 0;
    while i < n - 1
        invariant
            n == s@.len(),
            n >= 1,
            dl == s@.drop_last(),
            (valor_be(dl) == 0) == (forall|j: int| 0 <= j < dl.len() ==> dl[j] == 0),
            i <= n - 1,
            forall|j: int| 0 <= j < i ==> dl[j] == 0,
        decreases n - 1 - i,
    {
        if s[i] != 0 {
            assert(dl[i as int] != 0);
            assert(valor_be(dl) >= 1);
            return true;
        }
        i += 1;
    }
    assert(valor_be(dl) == 0);
    s[n - 1] >= 2
}

/// O keyvault não leva `carrega` a um pânico de `num_bigint` (o
/// `requires` de `carrega`).
pub fn pode_carregar(kv: &[u8]) -> (r: bool)
    ensures
        r == keyvault_sem_panico(kv@),
{
    if kv.len() < 0x4000 {
        return true;
    }
    let cert_s = slice_subrange(kv, 0x9C8, 0x9C8 + 0x1A8);
    let k = slice_subrange(kv, 0x298, 0x298 + 0x1D0);
    let n = qwrev(slice_subrange(k, 0x10, 0x90));
    let p = qwrev(slice_subrange(k, 0x90, 0xD0));
    let q = qwrev(slice_subrange(k, 0xD0, 0x110));
    let pq = bu_mul(p.as_slice(), q.as_slice());
    proof {
        lema_valor_be_minimo(valor_be(p@) * valor_be(q@));
    }
    if !bu_igual(pq.as_slice(), n.as_slice()) || (cert_s[0] as u16) * 256 + (cert_s[1] as u16) != 0x1A8 {
        return true;
    }
    ao_menos_dois(p.as_slice()) && ao_menos_dois(q.as_slice())
}

/// Chave RSA e certificado do console, lidos do keyvault decifrado.
pub struct ChaveConsole {
    cert: Vec<u8>,
    n: Vec<u8>,
    d: Vec<u8>,
    pub console: String,
}

impl ChaveConsole {
    pub closed spec fn cert_v(&self) -> Seq<u8> {
        self.cert@
    }

    pub closed spec fn n_v(&self) -> Seq<u8> {
        self.n@
    }

    pub closed spec fn d_v(&self) -> Seq<u8> {
        self.d@
    }

    pub closed spec fn console_v(&self) -> Seq<char> {
        self.console@
    }

    /// O nome do console, lido do certificado.
    pub fn nome_console(&self) -> (r: String)
        ensures
            r@ == self.console_v(),
    {
        self.console.clone()
    }

    /// Certificado de 0x1A8 bytes e módulo de 128 bytes, diferente de zero.
    pub open spec fn bem_formada(&self) -> bool {
        &&& self.cert_v().len() == 0x1A8
        &&& self.n_v().len() == 0x80
        &&& valor_be(self.n_v()) > 0
    }

    /// Lê a chave e o certificado do keyvault (kv.bin): confere o tamanho,
    /// que p * q == n, o cabeçalho do certificado e calcula o expoente
    /// privado d = e⁻¹ mod (p - 1)(q - 1).
    pub fn carrega(kv: &[u8]) -> (r: Result<ChaveConsole, Erro>)
        requires
            keyvault_sem_panico(kv@),
        ensures
            match r {
                Ok(c) => {
                    &&& keyvault_aceito(kv@)
                    &&& tem_inverso(valor_be(e_kv(kv@)), phi_kv(kv@))
                    &&& c.cert_v() == cert_kv(kv@)
                    &&& c.n_v() == n_kv(kv@)
                    &&& valor_be(c.d_v()) == d_kv(kv@)
                    &&& valor_be(c.d_v()) < phi_kv(kv@)
                    &&& ((valor_be(e_kv(kv@)) * valor_be(c.d_v())) as int) % (phi_kv(kv@) as int) == 1int % (phi_kv(kv@) as int)
                    &&& c.console_v() == utf8_lossy_spec(cert_kv(kv@).subrange(7, 0x12))
                    &&& c.bem_formada()
                },
                Err(e) => {
                    &&& e == Erro::KeyvaultInvalido
                    &&& !(keyvault_aceito(kv@) && tem_inverso(valor_be(e_kv(kv@)), phi_kv(kv@)))
                },
            },
    {
        if kv.len() < 0x4000 {
            return Err(Erro::KeyvaultInvalido);
        }
        let cert_s = slice_subrange(kv, 0x9C8, 0x9C8 + 0x1A8);
        let k = slice_subrange(kv, 0x298, 0x298 + 0x1D0);
        let e = slice_subrange(k, 4, 8);
        let n = qwrev(slice_subrange(k, 0x10, 0x90));
        let p = qwrev(slice_subrange(k, 0x90, 0xD0));
        let q = qwrev(slice_subrange(k, 0xD0, 0x110));
        let pq = bu_mul(p.as_slice(), q.as_slice());
        proof {
            lema_valor_be_minimo(valor_be(p@) * valor_be(q@));
        }
        if !bu_igual(pq.as_slice(), n.as_slice()) || (cert_s[0] as u16) * 256 + (cert_s[1] as u16)
            != 0x1A8 {
            return Err(Erro::KeyvaultInvalido);
        }
        let um: Vec<u8> = vec![1u8];
        assert(valor_be(um@) == 1) by {
            assert(um@.drop_last() =~= Seq::<u8>::empty());
            assert(valor_be(Seq::<u8>::empty()) == 0);
            assert(um@.last() == 1u8);
        }
        let p1 = bu_sub(p.as_slice(), um.as_slice());
        let q1 = bu_sub(q.as_slice(), um.as_slice());
        proof {
            lema_valor_be_minimo((valor_be(p@) - 1) as nat);
            lema_valor_be_minimo((valor_be(q@) - 1) as nat);
        }
        let phi = bu_mul(p1.as_slice(), q1.as_slice());
        proof {
            lema_valor_be_minimo(valor_be(p1@) * valor_be(q1@));
            assert(valor_be(p1@) * valor_be(q1@) > 0) by (nonlinear_arith)
                requires
                    valor_be(p1@) >= 1,
                    valor_be(q1@) >= 1,
            ;
        }
        let d = match bu_modinv(e, phi.as_slice()) {
            Some(d) => d,
            None => return Err(Erro::KeyvaultInvalido),
        };
        proof {
            let a = valor_be(e_kv(kv@));
            let m = phi_kv(kv@);
            assert(e_inverso(a, m, valor_be(d@)));
            lema_inverso_unico(a, m, valor_be(d@), d_kv(kv@));
        }
        let cert = vstd::slice::slice_to_vec(cert_s);
        let console = texto_lossy(slice_subrange(cert.as_slice(), 7, 0x12));
        proof {
            assert(valor_be(n@) > 0) by (nonlinear_arith)
                requires
                    valor_be(n@) == valor_be(p@) * valor_be(q@),
                    valor_be(p@) >= 2,
                    valor_be(q@) >= 2,
            ;
        }
        Ok(ChaveConsole { cert, n, d, console })
    }

    /// Assina os dados: PKCS #1 v1.5 com SHA-1, s = m^d mod n, em 128 bytes
    /// na ordem inversa (como o console grava).
    fn assina(&self, dados: &[u8]) -> (r: Vec<u8>)
        requires
            self.bem_formada(),
        ensures
            r@ == assinatura_spec(self.n_v(), valor_be(self.d_v()), dados@),
            r@.len() == 0x80,
    {
        let mut t = digest_info_exec();
        let h = sha1(dados);
        let mut i: usize = 0;
        while i < 20
            invariant
                i <= 20,
                h@.len() == 20,
                t@ == digest_info() + h@.subrange(0, i as int),
            decreases 20 - i,
        {
            t.push(h[i]);
            i += 1;
            assert(t@ =~= digest_info() + h@.subrange(0, i as int));
        }
        assert(h@.subrange(0, 20) =~= h@);
        assert(h@ =~= resumo(dados@));
        let mut m: Vec<u8> = vec![0x00u8, 0x01u8];
        let mut j: usize = 0;
        while j < 90
            invariant
                j <= 90,
                m@ == seq![0x00u8, 0x01u8] + Seq::new(j as nat, |k: int| 0xFFu8),
            decreases 90 - j,
        {
            m.push(0xFFu8);
            j += 1;
            assert(m@ =~= seq![0x00u8, 0x01u8] + Seq::new(j as nat, |k: int| 0xFFu8));
        }
        m.push(0x00u8);
        let mut k: usize = 0;
        let ghost m0 = m@;
        while k < t.len()
            invariant
                k <= t@.len(),
                m@ == m0 + t@.subrange(0, k as int),
            decreases t@.len() - k,
        {
            m.push(t[k]);
            k += 1;
            assert(m@ =~= m0 + t@.subrange(0, k as int));
        }
        assert(t@.subrange(0, t@.len() as int) =~= t@);
        assert(m@ =~= bloco_pkcs(dados@));
        let s = bu_modpow(m.as_slice(), self.d.as_slice(), self.n.as_slice());
        proof {
            let x = (vstd::arithmetic::power::pow(valor_be(m@) as int, valor_be(self.d@)) % (valor_be(
                self.n@,
            ) as int)) as nat;
            lema_valor_limite(self.n@);
            lema_be_minimo_tam(x, 0x80);
        }
        let f = fixo_be(s, 0x80);
        inverte_exec(f.as_slice())
    }
}

/// Bloco PKCS #1 v1.5 de 128 bytes com o SHA-1 dos dados.
pub open spec fn bloco_pkcs(dados: Seq<u8>) -> Seq<u8> {
    seq![0x00u8, 0x01u8] + Seq::new(90, |k: int| 0xFFu8) + seq![0x00u8] + digest_info() + resumo(dados)
}

/// Assinatura dos dados com a chave (n, d): m^d mod n em 128 bytes
/// big-endian, invertidos.
pub open spec fn assinatura_spec(n: Seq<u8>, d: nat, dados: Seq<u8>) -> Seq<u8> {
    inverte(
        fixo_spec(
            be_minimo(
                (vstd::arithmetic::power::pow(valor_be(bloco_pkcs(dados)) as int, d) % (
                valor_be(n) as int)) as nat,
            ),
            0x80,
        ),
    )
}

/// `m` termina com `fim`.
pub open spec fn termina_com(m: Seq<u8>, fim: Seq<u8>) -> bool {
    m.len() >= fim.len() && m.subrange(m.len() - fim.len(), m.len() as int) == fim
}

/// O certificado do pacote (0x1A8 bytes a partir de 4).
pub open spec fn cert_pkg(pkg: Seq<u8>) -> Seq<u8> {
    pkg.subrange(4, 0x1AC)
}

/// A assinatura do pacote confere com a chave pública do certificado: o
/// bloco recuperado termina com o DigestInfo e o SHA-1 de [0x22C, 0x344).
pub open spec fn assinatura_ok_spec(pkg: Seq<u8>) -> bool {
    let cert = cert_pkg(pkg);
    let e = cert.subrange(0x24, 0x28);
    let n = qwrev_spec(cert.subrange(0x28, 0xA8));
    let sig = inverte(pkg.subrange(0x1AC, 0x22C));
    if valor_be(n) == 0 {
        false
    } else {
        termina_com(
            fixo_spec(
                be_minimo(
                    (vstd::arithmetic::power::pow(valor_be(sig) as int, valor_be(e)) % (valor_be(n) as int)) as nat,
                ),
                0x80,
            ),
            digest_info() + resumo(pkg.subrange(0x22C, 0x344)),
        )
    }
}

/// Confere a assinatura do pacote com a chave pública do próprio
/// certificado.
pub fn assinatura_ok(pkg: &[u8]) -> (r: bool)
    requires
        pkg@.len() >= 0x344,
    ensures
        r == assinatura_ok_spec(pkg@),
{
    let cert = slice_subrange(pkg, 4, 4 + 0x1A8);
    let e = slice_subrange(cert, 0x24, 0x28);
    let n = qwrev(slice_subrange(cert, 0x28, 0xA8));
    let zero: Vec<u8> = Vec::new();
    if bu_igual(n.as_slice(), zero.as_slice()) {
        return false;
    }
    let sig = inverte_exec(slice_subrange(pkg, 0x1AC, 0x22C));
    let m = fixo_be(bu_modpow(sig.as_slice(), e, n.as_slice()), 0x80);
    let mut fim = digest_info_exec();
    let h = sha1(slice_subrange(pkg, 0x22C, 0x344));
    let mut i: usize = 0;
    while i < 20
        invariant
            i <= 20,
            h@.len() == 20,
            fim@ == digest_info() + h@.subrange(0, i as int),
        decreases 20 - i,
    {
        fim.push(h[i]);
        i += 1;
        assert(fim@ =~= digest_info() + h@.subrange(0, i as int));
    }
    assert(h@.subrange(0, 20) =~= h@);
    assert(h@ =~= resumo(pkg@.subrange(0x22C, 0x344)));
    if m.len() < fim.len() {
        return false;
    }
    iguais(slice_subrange(m.as_slice(), m.len() - fim.len(), m.len()), fim.as_slice())
}

impl Stfs {
    /// Troca o certificado do pacote pelo do console e assina [0x22C, 0x344).
    pub fn reassina(&mut self, k: &ChaveConsole)
        requires
            old(self).d@.len() >= 0x344,
            k.bem_formada(),
        ensures
            final(self).base == old(self).base,
            final(self).shift == old(self).shift,
            final(self).tabela == old(self).tabela,
            ({
                let d1 = old(self).d@.subrange(0, 4) + k.cert_v() + old(self).d@.subrange(
                    0x1AC,
                    old(self).d@.len() as int,
                );
                final(self).d@ == d1.subrange(0, 0x1AC) + assinatura_spec(
                    k.n_v(),
                    valor_be(k.d_v()),
                    d1.subrange(0x22C, 0x344),
                ) + d1.subrange(0x22C, d1.len() as int)
            }),
    {
        copia_em(&mut self.d, 4, k.cert.as_slice());
        let s = k.assina(slice_subrange(self.d.as_slice(), 0x22C, 0x344));
        copia_em(&mut self.d, 0x1AC, s.as_slice());
    }
}

// ---------------------------------------------------------------- a assinatura confere

/// Zeros à esquerda não mudam o valor.
proof fn lema_valor_fixo(b: Seq<u8>, k: nat)
    ensures
        valor_be(fixo_spec(b, k)) == valor_be(b),
    decreases b.len(),
{
    if b.len() < k {
        let z = Seq::new((k - b.len()) as nat, |i: int| 0u8);
        if b.len() == 0 {
            assert(z + b =~= z);
            lema_valor_zero(z);
        } else {
            lema_valor_fixo(b.drop_last(), k);
            assert((z + b).drop_last() =~= z + b.drop_last());
            assert(fixo_spec(b.drop_last(), k) == z.push(0u8) + b.drop_last()) by {
                assert(Seq::new((k - b.drop_last().len()) as nat, |i: int| 0u8) =~= z.push(0u8));
            }
            lema_valor_fixo_zeros(z, b.drop_last());
            assert((z + b).last() == b.last());
        }
    }
}

/// O valor de zeros seguidos de `b` é o valor de `b`.
proof fn lema_valor_fixo_zeros(z: Seq<u8>, b: Seq<u8>)
    requires
        forall|i: int| 0 <= i < z.len() ==> z[i] == 0,
    ensures
        valor_be(z + b) == valor_be(b),
    decreases b.len(),
{
    if b.len() == 0 {
        assert(z + b =~= z);
        lema_valor_zero(z);
    } else {
        lema_valor_fixo_zeros(z, b.drop_last());
        assert((z + b).drop_last() =~= z + b.drop_last());
        assert((z + b).last() == b.last());
    }
}

/// Duas sequências do mesmo tamanho com o mesmo valor são iguais.
proof fn lema_valor_injetivo(s: Seq<u8>, t: Seq<u8>)
    requires
        s.len() == t.len(),
        valor_be(s) == valor_be(t),
    ensures
        s == t,
    decreases s.len(),
{
    if s.len() > 0 {
        let (vs, vt) = (valor_be(s.drop_last()) as int, valor_be(t.drop_last()) as int);
        let (ls, lt) = (s.last() as int, t.last() as int);
        assert(vs == vt && ls == lt) by (nonlinear_arith)
            requires
                vs * 256 + ls == vt * 256 + lt,
                0 <= ls < 256,
                0 <= lt < 256,
        ;
        lema_valor_injetivo(s.drop_last(), t.drop_last());
        assert(s =~= s.drop_last().push(s.last()));
        assert(t =~= t.drop_last().push(t.last()));
    } else {
        assert(s =~= t);
    }
}

/// O valor separado no primeiro byte e no resto.
proof fn lema_valor_primeiro(s: Seq<u8>)
    requires
        s.len() >= 1,
    ensures
        valor_be(s) == s[0] * pot256((s.len() - 1) as nat) + valor_be(s.drop_first()),
    decreases s.len(),
{
    if s.len() == 1 {
        assert(s.drop_last() =~= Seq::<u8>::empty());
        assert(s.drop_first() =~= Seq::<u8>::empty());
        assert(valor_be(Seq::<u8>::empty()) == 0);
        assert(pot256(0) == 1);
        assert(valor_be(s) == s[0]);
        let a = s[0] as int;
        assert(a * 1 == a);
    } else {
        let dl = s.drop_last();
        let df = s.drop_first();
        lema_valor_primeiro(dl);
        assert(df.drop_last() =~= dl.drop_first());
        assert(df.last() == s.last());
        assert(dl[0] == s[0]);
        let k = (s.len() - 2) as nat;
        assert(pot256(k + 1) == 256 * pot256(k));
        assert((s.len() - 1) as nat == k + 1);
        assert((dl.len() - 1) as nat == k);
        let (a, b, c, w) = (s[0] as int, pot256(k) as int, valor_be(dl.drop_first()) as int, s.last() as int);
        assert(valor_be(dl) == a * b + c);
        assert(valor_be(s) == valor_be(dl) * 256 + w);
        assert(valor_be(df) == c * 256 + w);
        assert((a * b + c) * 256 + w == a * (256 * b) + (c * 256 + w)) by (nonlinear_arith);
    }
}

/// Um número cujo primeiro byte é zero fica abaixo de um de mesmo tamanho
/// cujo primeiro byte não é.
proof fn lema_menor_pelo_primeiro(m: Seq<u8>, n: Seq<u8>)
    requires
        m.len() == n.len(),
        m.len() >= 1,
        m[0] == 0,
        n[0] != 0,
    ensures
        valor_be(m) < valor_be(n),
{
    lema_valor_primeiro(m);
    lema_valor_primeiro(n);
    lema_valor_limite(m.drop_first());
    let k = (m.len() - 1) as nat;
    let (a, b) = (n[0] as int, pot256(k) as int);
    assert(a * b >= b) by (nonlinear_arith)
        requires
            a >= 1,
            b >= 0,
    ;
    assert(0 * pot256(k) == 0);
}

/// Completar com zeros a forma mínima de um número de `k` bytes dá de
/// volta os mesmos `k` bytes.
proof fn lema_fixo_minimo(s: Seq<u8>)
    requires
        s.len() >= 1,
    ensures
        fixo_spec(be_minimo(valor_be(s)), s.len()) == s,
{
    let v = valor_be(s);
    lema_valor_limite(s);
    lema_be_minimo_tam(v, s.len());
    lema_valor_be_minimo(v);
    lema_valor_fixo(be_minimo(v), s.len());
    lema_valor_injetivo(fixo_spec(be_minimo(v), s.len()), s);
}

/// Chave de console genuína: p e q primos distintos, o certificado do
/// keyvault traz a mesma chave pública (e, n) que a chave privada, e o
/// módulo ocupa os 128 bytes (1024 bits).
pub open spec fn chave_genuina(kv: Seq<u8>) -> bool {
    &&& primo(valor_be(p_kv(kv)))
    &&& primo(valor_be(q_kv(kv)))
    &&& valor_be(p_kv(kv)) != valor_be(q_kv(kv))
    &&& cert_kv(kv).subrange(0x24, 0x28) == e_kv(kv)
    &&& qwrev_spec(cert_kv(kv).subrange(0x28, 0xA8)) == n_kv(kv)
    &&& n_kv(kv)[0] != 0
}

/// Um pacote com o certificado do keyvault em 4 e, em 0x1AC, a assinatura
/// de [0x22C, 0x344) feita com a chave privada desse keyvault passa na
/// conferência da assinatura, quando a chave é genuína.
pub proof fn lei_assinatura_confere(pkg: Seq<u8>, kv: Seq<u8>)
    requires
        pkg.len() >= 0x344,
        keyvault_aceito(kv),
        tem_inverso(valor_be(e_kv(kv)), phi_kv(kv)),
        chave_genuina(kv),
        cert_pkg(pkg) == cert_kv(kv),
        pkg.subrange(0x1AC, 0x22C) == assinatura_spec(n_kv(kv), d_kv(kv), pkg.subrange(0x22C, 0x344)),
    ensures
        assinatura_ok_spec(pkg),
{
    let dados = pkg.subrange(0x22C, 0x344);
    let bloco = bloco_pkcs(dados);
    let n = n_kv(kv);
    let (p, q) = (valor_be(p_kv(kv)), valor_be(q_kv(kv)));
    let e = valor_be(e_kv(kv));
    let d = d_kv(kv);
    assert(bloco.len() == 0x80);
    assert(n.len() == 0x80);
    assert(bloco[0] == 0);
    lema_menor_pelo_primeiro(bloco, n);
    let m = valor_be(bloco);
    // d é o inverso de e módulo (p - 1)(q - 1)
    assert(e_inverso(e, phi_kv(kv), d));
    assert(((p - 1) * (q - 1)) as nat == phi_kv(kv));
    lema_rsa(p, q, e, d, m);
    // a assinatura lida de volta
    let nn = valor_be(n) as int;
    let x = (vstd::arithmetic::power::pow(m as int, d) % nn) as nat;
    let f = fixo_spec(be_minimo(x), 0x80);
    assert(nn > 0);
    lema_valor_limite(n);
    lema_be_minimo_tam(x, 0x80);
    assert(inverte(inverte(f)) =~= f);
    lema_valor_fixo(be_minimo(x), 0x80);
    lema_valor_be_minimo(x);
    // o bloco recuperado é o bloco assinado
    lema_fixo_minimo(bloco);
    let fim = digest_info() + resumo(dados);
    assert(bloco.subrange(bloco.len() - fim.len(), bloco.len() as int) =~= fim);
}

/// O bloco que a chave pública recupera da assinatura gravada (s^e mod n,
/// em 128 bytes big-endian) é um bloco PKCS #1 v1.5 de tipo 01 inteiro:
/// 00 01, 90 bytes FF, 00, o DigestInfo do SHA-1
/// (30 21 30 09 06 05 2B 0E 03 02 1A 05 00 04 14) e o SHA-1 de
/// [0x22C, 0x344), quando a chave é genuína.
pub proof fn lei_bloco_da_assinatura(pkg: Seq<u8>, kv: Seq<u8>)
    requires
        pkg.len() >= 0x344,
        keyvault_aceito(kv),
        tem_inverso(valor_be(e_kv(kv)), phi_kv(kv)),
        chave_genuina(kv),
        cert_pkg(pkg) == cert_kv(kv),
        pkg.subrange(0x1AC, 0x22C) == assinatura_spec(n_kv(kv), d_kv(kv), pkg.subrange(0x22C, 0x344)),
    ensures
        ({
            let s = valor_be(inverte(pkg.subrange(0x1AC, 0x22C)));
            let r = fixo_spec(
                be_minimo(
                    (vstd::arithmetic::power::pow(s as int, valor_be(e_kv(kv))) % (valor_be(n_kv(kv)) as int)) as nat,
                ),
                0x80,
            );
            &&& r.len() == 0x80
            &&& r[0] == 0x00
            &&& r[1] == 0x01
            &&& forall|i: int| 2 <= i < 92 ==> #[trigger] r[i] == 0xFF
            &&& r[92] == 0x00
            &&& r.subrange(93, 108) == seq![
                0x30u8,
                0x21u8,
                0x30u8,
                0x09u8,
                0x06u8,
                0x05u8,
                0x2Bu8,
                0x0Eu8,
                0x03u8,
                0x02u8,
                0x1Au8,
                0x05u8,
                0x00u8,
                0x04u8,
                0x14u8,
            ]
            &&& r.subrange(108, 128) == resumo(pkg.subrange(0x22C, 0x344))
        }),
{
    let dados = pkg.subrange(0x22C, 0x344);
    let bloco = bloco_pkcs(dados);
    let n = n_kv(kv);
    let (p, q) = (valor_be(p_kv(kv)), valor_be(q_kv(kv)));
    let e = valor_be(e_kv(kv));
    let d = d_kv(kv);
    assert(bloco.len() == 0x80);
    assert(n.len() == 0x80);
    assert(bloco[0] == 0);
    lema_menor_pelo_primeiro(bloco, n);
    let m = valor_be(bloco);
    assert(e_inverso(e, phi_kv(kv), d));
    assert(((p - 1) * (q - 1)) as nat == phi_kv(kv));
    lema_rsa(p, q, e, d, m);
    let nn = valor_be(n) as int;
    let x = (vstd::arithmetic::power::pow(m as int, d) % nn) as nat;
    let f = fixo_spec(be_minimo(x), 0x80);
    lema_valor_limite(n);
    lema_be_minimo_tam(x, 0x80);
    assert(inverte(inverte(f)) =~= f);
    lema_valor_fixo(be_minimo(x), 0x80);
    lema_valor_be_minimo(x);
    lema_fixo_minimo(bloco);
    let r = fixo_spec(be_minimo((vstd::arithmetic::power::pow(x as int, e) % nn) as nat), 0x80);
    assert(r == bloco);
    assert(bloco.subrange(93, 108) =~= digest_info());
    assert(bloco.subrange(108, 128) =~= resumo(dados));
}

/// A conferência da assinatura: com e nos bytes 0x28..0x2C do pacote e n
/// nos 128 bytes de 0x2C (qwords em ordem inversa), ela aceita exatamente
/// quando n não é zero e o bloco s^e mod n (s = a assinatura em 0x1AC..0x22C,
/// bytes invertidos), em 128 bytes big-endian, termina com o DigestInfo do
/// SHA-1 (30 21 30 09 06 05 2B 0E 03 02 1A 05 00 04 14) seguido do SHA-1
/// de [0x22C, 0x344).
pub proof fn lei_conferencia_da_assinatura(pkg: Seq<u8>)
    requires
        pkg.len() >= 0x344,
    ensures
        assinatura_ok_spec(pkg) == ({
            let e = valor_be(pkg.subrange(0x28, 0x2C));
            let n = valor_be(qwrev_spec(pkg.subrange(0x2C, 0xAC)));
            let s = valor_be(inverte(pkg.subrange(0x1AC, 0x22C)));
            let r = fixo_spec(be_minimo((vstd::arithmetic::power::pow(s as int, e) % (n as int)) as nat), 0x80);
            let fim = seq![
                0x30u8,
                0x21u8,
                0x30u8,
                0x09u8,
                0x06u8,
                0x05u8,
                0x2Bu8,
                0x0Eu8,
                0x03u8,
                0x02u8,
                0x1Au8,
                0x05u8,
                0x00u8,
                0x04u8,
                0x14u8,
            ] + resumo(pkg.subrange(0x22C, 0x344));
            n != 0 && r.len() >= fim.len() && r.subrange(r.len() - fim.len(), r.len() as int) == fim
        }),
{
    let cert = cert_pkg(pkg);
    assert(cert.subrange(0x24, 0x28) =~= pkg.subrange(0x28, 0x2C));
    assert(cert.subrange(0x28, 0xA8) =~= pkg.subrange(0x2C, 0xAC));
    assert(digest_info() =~= seq![
        0x30u8,
        0x21u8,
        0x30u8,
        0x09u8,
        0x06u8,
        0x05u8,
        0x2Bu8,
        0x0Eu8,
        0x03u8,
        0x02u8,
        0x1Au8,
        0x05u8,
        0x00u8,
        0x04u8,
        0x14u8,
    ]);
}

} // verus!
