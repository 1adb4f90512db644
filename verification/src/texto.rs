//! Texto: caracteres de uma `&str`, espaços nas pontas, números decimais e
//! hexadecimais.
use vstd::prelude::*;
use vstd::string::StrSliceExecFns;
use crate::erro::Erro;

verus! {

/// Acrescenta um caractere ao fim do texto: `String::push`, que segundo a
/// documentação do std junta o `char` ao fim da `String`.
#[verifier::external_body]
pub(crate) fn empurra(s: &mut String, c: char)
    ensures
        final(s)@ == old(s)@.push(c),
{
    s.push(c);
}

/// Os caracteres de uma `&str`, na ordem.
pub fn caracteres(s: &str) -> (r: Vec<char>)
    ensures
        r@ == s@,
{
    let n = s.unicode_len();
    let mut r: Vec<char> = Vec::new();
    let mut i: usize = 0;
    while i < n
        invariant
            n == s@.len(),
            i <= n,
            r@ == s@.subrange(0, i as int),
        decreases n - i,
    {
        r.push(s.get_char(i));
        i += 1;
        assert(r@ =~= s@.subrange(0, i as int));
    }
    assert(r@ =~= s@);
    r
}

/// Uma `String` com os caracteres dados.
pub fn texto_de(v: &Vec<char>) -> (r: String)
    ensures
        r@ == v@,
{
    let mut r = String::new();
    let mut i: usize = 0;
    while i < v.len()
        invariant
            i <= v@.len(),
            r@ == v@.subrange(0, i as int),
        decreases v@.len() - i,
    {
        empurra(&mut r, v[i]);
        i += 1;
        assert(r@ =~= v@.subrange(0, i as int));
    }
    assert(r@ =~= v@);
    r
}

/// Junta ao fim de `r` os caracteres de `v`.
pub fn junta(r: &mut String, v: &Vec<char>)
    ensures
        final(r)@ == old(r)@ + v@,
{
    let mut i: usize = 0;
    while i < v.len()
        invariant
            i <= v@.len(),
            r@ == old(r)@ + v@.subrange(0, i as int),
        decreases v@.len() - i,
    {
        empurra(r, v[i]);
        i += 1;
        assert(r@ =~= old(r)@ + v@.subrange(0, i as int));
    }
    assert(v@.subrange(0, v@.len() as int) =~= v@);
}

/// Os dois vetores de caracteres são iguais.
pub fn mesmos_caracteres(a: &Vec<char>, b: &Vec<char>) -> (r: bool)
    ensures
        r == (a@ == b@),
{
    if a.len() != b.len() {
        return false;
    }
    let mut i: usize = 0;
    while i < a.len()
        invariant
            a@.len() == b@.len(),
            i <= a@.len(),
            forall|j: int| 0 <= j < i ==> a@[j] == b@[j],
        decreases a@.len() - i,
    {
        if a[i] != b[i] {
            return false;
        }
        i += 1;
    }
    assert(a@ =~= b@);
    true
}

/// Os dois textos são iguais.
pub fn mesmo_texto(a: &str, b: &str) -> (r: bool)
    ensures
        r == (a@ == b@),
{
    let ca = caracteres(a);
    let cb = caracteres(b);
    mesmos_caracteres(&ca, &cb)
}

// ---------------------------------------------------------------- espaços

/// Espaço em branco no sentido do Unicode (propriedade White_Space), o que
/// `char::is_whitespace` reconhece.
pub open spec fn e_espaco(c: char) -> bool {
    let n = c as u32;
    ||| 0x09 <= n <= 0x0D
    ||| n == 0x20
    ||| n == 0x85
    ||| n == 0xA0
    ||| n == 0x1680
    ||| 0x2000 <= n <= 0x200A
    ||| n == 0x2028
    ||| n == 0x2029
    ||| n == 0x202F
    ||| n == 0x205F
    ||| n == 0x3000
}

pub fn e_espaco_exec(c: char) -> (r: bool)
    ensures
        r == e_espaco(c),
{
    let n = c as u32;
    (0x09 <= n && n <= 0x0D) || n == 0x20 || n == 0x85 || n == 0xA0 || n == 0x1680 || (0x2000 <= n
        && n <= 0x200A) || n == 0x2028 || n == 0x2029 || n == 0x202F || n == 0x205F || n == 0x3000
}

/// O texto sem os espaços do começo.
pub open spec fn sem_espaco_inicial(s: Seq<char>) -> Seq<char>
    decreases s.len(),
{
    if s.len() > 0 && e_espaco(s[0]) {
        sem_espaco_inicial(s.drop_first())
    } else {
        s
    }
}

/// O texto sem os espaços do fim.
pub open spec fn sem_espaco_final(s: Seq<char>) -> Seq<char>
    decreases s.len(),
{
    if s.len() > 0 && e_espaco(s.last()) {
        sem_espaco_final(s.drop_last())
    } else {
        s
    }
}

/// O texto sem espaços nas pontas (`str::trim`).
pub open spec fn apara_spec(s: Seq<char>) -> Seq<char> {
    sem_espaco_final(sem_espaco_inicial(s))
}

/// Tira os espaços das pontas: o mesmo que `str::trim`.
pub fn apara(s: &Vec<char>) -> (r: Vec<char>)
    ensures
        r@ == apara_spec(s@),
{
    let n = s.len();
    let mut i: usize = 0;
    assert(s@.subrange(0, n as int) =~= s@);
    while i < n && e_espaco_exec(s[i])
        invariant
            n == s@.len(),
            i <= n,
            sem_espaco_inicial(s@) == sem_espaco_inicial(s@.subrange(i as int, n as int)),
        decreases n - i,
    {
        let ghost t = s@.subrange(i as int, n as int);
        assert(t.drop_first() =~= s@.subrange(i + 1, n as int));
        i += 1;
    }
    let ghost ini = s@.subrange(i as int, n as int);
    assert(sem_espaco_inicial(s@) == ini);
    let mut j: usize = n;
    while j > i && e_espaco_exec(s[j - 1])
        invariant
            n == s@.len(),
            i <= j <= n,
            ini == s@.subrange(i as int, n as int),
            sem_espaco_final(ini) == sem_espaco_final(s@.subrange(i as int, j as int)),
        decreases j - i,
    {
        let ghost t = s@.subrange(i as int, j as int);
        assert(t.drop_last() =~= s@.subrange(i as int, j - 1));
        j -= 1;
    }
    let mut r: Vec<char> = Vec::new();
    let mut k: usize = i;
    while k < j
        invariant
            n == s@.len(),
            i <= k <= j <= n,
            r@ == s@.subrange(i as int, k as int),
        decreases j - k,
    {
        r.push(s[k]);
        k += 1;
        assert(r@ =~= s@.subrange(i as int, k as int));
    }
    r
}

// ---------------------------------------------------------------- decimais

pub open spec fn e_digito(c: char) -> bool {
    '0' <= c <= '9'
}

pub open spec fn valor_digito(c: char) -> nat {
    (c as int - '0' as int) as nat
}

/// O caractere do algarismo `n` (0 a 9).
pub open spec fn digito(n: nat) -> char {
    (n + '0' as int) as char
}

pub open spec fn so_digitos(s: Seq<char>) -> bool {
    forall|i: int| 0 <= i < s.len() ==> e_digito(#[trigger] s[i])
}

/// Valor de uma sequência de algarismos decimais.
pub open spec fn valor_dec(s: Seq<char>) -> nat
    decreases s.len(),
{
    if s.len() == 0 {
        0
    } else {
        valor_dec(s.drop_last()) * 10 + valor_digito(s.last())
    }
}

/// O que `u64::from_str` aceita, sem o limite do tipo: um `+` opcional e
/// pelo menos um algarismo, nada mais.
pub open spec fn numero_spec(s: Seq<char>) -> Option<nat> {
    let d = if s.len() > 0 && s[0] == '+' {
        s.drop_first()
    } else {
        s
    };
    if d.len() > 0 && so_digitos(d) {
        Some(valor_dec(d))
    } else {
        None
    }
}

/// Número lido do texto que cabe em `limite`.
pub open spec fn numero_ate(s: Seq<char>, limite: nat) -> Option<nat> {
    match numero_spec(s) {
        Some(n) => if n <= limite {
            Some(n)
        } else {
            None
        },
        None => None,
    }
}

pub proof fn lema_valor_dec_cresce(s: Seq<char>, k: int)
    requires
        0 <= k <= s.len(),
    ensures
        valor_dec(s.subrange(0, k)) <= valor_dec(s),
    decreases s.len() - k,
{
    if k < s.len() {
        lema_valor_dec_cresce(s, k + 1);
        assert(s.subrange(0, k + 1).drop_last() =~= s.subrange(0, k));
    } else {
        assert(s.subrange(0, k) =~= s);
    }
}

/// `u64::from_str` sobre os caracteres dados.
pub fn le_u64(s: &Vec<char>) -> (r: Option<u64>)
    ensures
        r matches Some(v) ==> numero_ate(s@, u64::MAX as nat) == Some(v as nat),
        r is None ==> numero_ate(s@, u64::MAX as nat) is None,
{
    let n = s.len();
    let mut i: usize = 0;
    if n > 0 && s[0] == '+' {
        i = 1;
    }
    let ini = i;
    let ghost d = if s@.len() > 0 && s@[0] == '+' {
        s@.drop_first()
    } else {
        s@
    };
    assert(d =~= s@.subrange(ini as int, n as int));
    if ini == n {
        return None;
    }
    let mut acc: u64 = 0;
    while i < n
        invariant
            n == s@.len(),
            ini <= i <= n,
            d == s@.subrange(ini as int, n as int),
            d == (if s@.len() > 0 && s@[0] == '+' {
                s@.drop_first()
            } else {
                s@
            }),
            d.len() > 0,
            so_digitos(s@.subrange(ini as int, i as int)),
            acc == valor_dec(s@.subrange(ini as int, i as int)),
        decreases n - i,
    {
        let c = s[i];
        if !('0' <= c && c <= '9') {
            assert(d[i - ini] == c);
            assert(!so_digitos(d));
            return None;
        }
        let ghost p = s@.subrange(ini as int, i + 1);
        assert(p.drop_last() =~= s@.subrange(ini as int, i as int));
        assert(p.last() == c);
        let dg = (c as u32 - '0' as u32) as u64;
        assert(valor_dec(p) == acc * 10 + dg);
        let m = acc.checked_mul(10);
        match m {
            None => {
                proof {
                    lema_valor_dec_cresce(d, i + 1 - ini);
                    assert(d.subrange(0, i + 1 - ini) =~= p);
                }
                return None;
            },
            Some(m) => {
                let t = m.checked_add(dg);
                match t {
                    None => {
                        proof {
                            lema_valor_dec_cresce(d, i + 1 - ini);
                            assert(d.subrange(0, i + 1 - ini) =~= p);
                        }
                        return None;
                    },
                    Some(t) => {
                        acc = t;
                    },
                }
            },
        }
        i += 1;
    }
    assert(s@.subrange(ini as int, n as int) =~= d);
    Some(acc)
}

/// `u32::from_str` sobre os caracteres dados.
pub fn le_u32(s: &Vec<char>) -> (r: Option<u32>)
    ensures
        r matches Some(v) ==> numero_ate(s@, u32::MAX as nat) == Some(v as nat),
        r is None ==> numero_ate(s@, u32::MAX as nat) is None,
{
    match le_u64(s) {
        Some(v) => if v <= 0xFFFF_FFFFu64 {
            Some(v as u32)
        } else {
            None
        },
        None => None,
    }
}

/// Algarismos decimais de `n`, sem zeros à esquerda.
pub open spec fn decimal(n: nat) -> Seq<char>
    decreases n,
{
    if n < 10 {
        seq![digito(n)]
    } else {
        decimal(n / 10).push(digito(n % 10))
    }
}

/// Os algarismos decimais de `n`.
pub fn decimal_exec(n: u64) -> (r: Vec<char>)
    ensures
        r@ == decimal(n as nat),
    decreases n,
{
    let d = ((n % 10) as u8 + 48u8) as char;
    assert(d == digito((n % 10) as nat));
    if n < 10 {
        vec![d]
    } else {
        let mut r = decimal_exec(n / 10);
        r.push(d);
        r
    }
}

/// `n` com pelo menos `w` algarismos, completado com zeros à esquerda
/// (`format!("{:0w$}")`).
pub open spec fn com_zeros(n: nat, w: nat) -> Seq<char> {
    let d = decimal(n);
    if d.len() >= w {
        d
    } else {
        Seq::new((w - d.len()) as nat, |i: int| '0') + d
    }
}

pub fn com_zeros_exec(n: u64, w: usize) -> (r: Vec<char>)
    ensures
        r@ == com_zeros(n as nat, w as nat),
{
    let d = decimal_exec(n);
    if d.len() >= w {
        return d;
    }
    let mut r: Vec<char> = Vec::new();
    let z = w - d.len();
    let mut i: usize = 0;
    while i < z
        invariant
            i <= z,
            r@ == Seq::new(i as nat, |k: int| '0'),
        decreases z - i,
    {
        r.push('0');
        i += 1;
        assert(r@ =~= Seq::new(i as nat, |k: int| '0'));
    }
    let mut j: usize = 0;
    while j < d.len()
        invariant
            j <= d@.len(),
            r@ == Seq::new(z as nat, |k: int| '0') + d@.subrange(0, j as int),
        decreases d@.len() - j,
    {
        r.push(d[j]);
        j += 1;
        assert(r@ =~= Seq::new(z as nat, |k: int| '0') + d@.subrange(0, j as int));
    }
    assert(d@.subrange(0, d@.len() as int) =~= d@);
    r
}

// ---------------------------------------------------------------- hexadecimais

pub open spec fn e_hex(c: char) -> bool {
    ||| '0' <= c <= '9'
    ||| 'a' <= c <= 'f'
    ||| 'A' <= c <= 'F'
}

pub open spec fn valor_hex(c: char) -> nat {
    if '0' <= c <= '9' {
        (c as int - '0' as int) as nat
    } else if 'a' <= c <= 'f' {
        (c as int - 'a' as int + 10) as nat
    } else {
        (c as int - 'A' as int + 10) as nat
    }
}

/// Algarismo hexadecimal maiúsculo de `n` (0 a 15).
pub open spec fn hex_maiusculo(n: nat) -> char {
    if n < 10 {
        (n + '0' as int) as char
    } else {
        (n - 10 + 'A' as int) as char
    }
}

/// Algarismo hexadecimal minúsculo de `n` (0 a 15).
pub open spec fn hex_minusculo(n: nat) -> char {
    if n < 10 {
        (n + '0' as int) as char
    } else {
        (n - 10 + 'a' as int) as char
    }
}

fn hex_maiusculo_exec(n: u8) -> (c: char)
    requires
        n < 16,
    ensures
        c == hex_maiusculo(n as nat),
{
    if n < 10 {
        (n + 48u8) as char
    } else {
        (n - 10 + 65u8) as char
    }
}

fn hex_minusculo_exec(n: u8) -> (c: char)
    requires
        n < 16,
    ensures
        c == hex_minusculo(n as nat),
{
    if n < 10 {
        (n + 48u8) as char
    } else {
        (n - 10 + 97u8) as char
    }
}

/// Cada byte como dois algarismos hexadecimais maiúsculos.
pub open spec fn hex_spec(b: Seq<u8>) -> Seq<char>
    decreases b.len(),
{
    if b.len() == 0 {
        Seq::empty()
    } else {
        hex_spec(b.drop_last()).push(hex_maiusculo((b.last() / 16) as nat)).push(
            hex_maiusculo((b.last() % 16) as nat),
        )
    }
}

/// Os bytes em hexadecimal maiúsculo, dois algarismos por byte.
pub fn hex(b: &[u8]) -> (r: String)
    ensures
        r@ == hex_spec(b@),
{
    let mut r = String::new();
    let mut i: usize = 0;
    while i < b.len()
        invariant
            i <= b@.len(),
            r@ == hex_spec(b@.subrange(0, i as int)),
        decreases b@.len() - i,
    {
        let x = b[i];
        empurra(&mut r, hex_maiusculo_exec(x / 16));
        empurra(&mut r, hex_maiusculo_exec(x % 16));
        let ghost p = b@.subrange(0, i + 1);
        assert(p.drop_last() =~= b@.subrange(0, i as int));
        i += 1;
    }
    assert(b@.subrange(0, b@.len() as int) =~= b@);
    r
}

/// `n` em hexadecimal minúsculo, sem zeros à esquerda.
pub open spec fn hex_num(n: nat) -> Seq<char>
    decreases n,
{
    if n < 16 {
        seq![hex_minusculo(n)]
    } else {
        hex_num(n / 16).push(hex_minusculo(n % 16))
    }
}

fn hex_num_exec(n: u32) -> (r: Vec<char>)
    ensures
        r@ == hex_num(n as nat),
    decreases n,
{
    let d = hex_minusculo_exec((n % 16) as u8);
    if n < 16 {
        vec![d]
    } else {
        let mut r = hex_num_exec(n / 16);
        r.push(d);
        r
    }
}

/// `n` em hexadecimal minúsculo com pelo menos quatro algarismos
/// (`format!("{:04x}")`).
pub open spec fn hex4(n: nat) -> Seq<char> {
    let d = hex_num(n);
    if d.len() >= 4 {
        d
    } else {
        Seq::new((4 - d.len()) as nat, |i: int| '0') + d
    }
}

pub fn hex4_exec(n: u32) -> (r: Vec<char>)
    ensures
        r@ == hex4(n as nat),
{
    let d = hex_num_exec(n);
    if d.len() >= 4 {
        return d;
    }
    let mut r: Vec<char> = Vec::new();
    let z = 4 - d.len();
    let mut i: usize = 0;
    while i < z
        invariant
            i <= z,
            r@ == Seq::new(i as nat, |k: int| '0'),
        decreases z - i,
    {
        r.push('0');
        i += 1;
        assert(r@ =~= Seq::new(i as nat, |k: int| '0'));
    }
    let mut j: usize = 0;
    while j < d.len()
        invariant
            j <= d@.len(),
            r@ == Seq::new(z as nat, |k: int| '0') + d@.subrange(0, j as int),
        decreases d@.len() - j,
    {
        r.push(d[j]);
        j += 1;
        assert(r@ =~= Seq::new(z as nat, |k: int| '0') + d@.subrange(0, j as int));
    }
    assert(d@.subrange(0, d@.len() as int) =~= d@);
    r
}

/// `n` em hexadecimal maiúsculo, sem zeros à esquerda.
pub open spec fn hex_num_m(n: nat) -> Seq<char>
    decreases n,
{
    if n < 16 {
        seq![hex_maiusculo(n)]
    } else {
        hex_num_m(n / 16).push(hex_maiusculo(n % 16))
    }
}

fn hex_num_m_exec(n: u32) -> (r: Vec<char>)
    ensures
        r@ == hex_num_m(n as nat),
    decreases n,
{
    let d = hex_maiusculo_exec((n % 16) as u8);
    if n < 16 {
        vec![d]
    } else {
        let mut r = hex_num_m_exec(n / 16);
        r.push(d);
        r
    }
}

/// `n` em hexadecimal maiúsculo com pelo menos quatro algarismos
/// (`format!("{:04X}")`).
pub open spec fn hex4_m(n: nat) -> Seq<char> {
    let d = hex_num_m(n);
    if d.len() >= 4 {
        d
    } else {
        Seq::new((4 - d.len()) as nat, |i: int| '0') + d
    }
}

pub fn hex4_m_exec(n: u32) -> (r: Vec<char>)
    ensures
        r@ == hex4_m(n as nat),
{
    let d = hex_num_m_exec(n);
    if d.len() >= 4 {
        return d;
    }
    let mut r: Vec<char> = Vec::new();
    let z = 4 - d.len();
    let mut i: usize = 0;
    while i < z
        invariant
            i <= z,
            r@ == Seq::new(i as nat, |k: int| '0'),
        decreases z - i,
    {
        r.push('0');
        i += 1;
        assert(r@ =~= Seq::new(i as nat, |k: int| '0'));
    }
    let mut j: usize = 0;
    while j < d.len()
        invariant
            j <= d@.len(),
            r@ == Seq::new(z as nat, |k: int| '0') + d@.subrange(0, j as int),
        decreases d@.len() - j,
    {
        r.push(d[j]);
        j += 1;
        assert(r@ =~= Seq::new(z as nat, |k: int| '0') + d@.subrange(0, j as int));
    }
    assert(d@.subrange(0, d@.len() as int) =~= d@);
    r
}

/// `t` tem exatamente `2 * tam` algarismos hexadecimais.
pub open spec fn hex_valido(t: Seq<char>, tam: nat) -> bool {
    &&& t.len() == 2 * tam
    &&& forall|i: int| 0 <= i < t.len() ==> e_hex(#[trigger] t[i])
}

/// Os bytes escritos em `t`, dois algarismos hexadecimais por byte.
pub open spec fn de_hex_spec(t: Seq<char>, tam: nat) -> Seq<u8> {
    Seq::new(tam, |i: int| (valor_hex(t[2 * i]) * 16 + valor_hex(t[2 * i + 1])) as u8)
}

fn valor_hex_exec(c: char) -> (r: u8)
    requires
        e_hex(c),
    ensures
        r as nat == valor_hex(c),
        r < 16,
{
    if '0' <= c && c <= '9' {
        (c as u32 - '0' as u32) as u8
    } else if 'a' <= c && c <= 'f' {
        (c as u32 - 'a' as u32 + 10) as u8
    } else {
        (c as u32 - 'A' as u32 + 10) as u8
    }
}

/// O caractere com as letras de `a` a `f` em maiúscula.
pub open spec fn maiuscula_hex(c: char) -> char {
    if 'a' <= c <= 'f' {
        ((c as int) - 32) as char
    } else {
        c
    }
}

/// O texto com as letras de `a` a `f` em maiúscula.
pub open spec fn maiusculas_hex(t: Seq<char>) -> Seq<char> {
    Seq::new(t.len(), |i: int| maiuscula_hex(t[i]))
}

proof fn lema_digito_hex(c: char)
    requires
        e_hex(c),
    ensures
        valor_hex(c) < 16,
        hex_maiusculo(valor_hex(c)) == maiuscula_hex(c),
{
    let n = c as int;
    if '0' <= c <= '9' {
        assert((((n - '0' as int) as nat) + '0' as int) as char == c);
    } else if 'a' <= c <= 'f' {
        assert(((((n - 'a' as int + 10) as nat) - 10 + 'A' as int) as char) == ((c as int) - 32) as char);
    } else {
        assert(((((n - 'A' as int + 10) as nat) - 10 + 'A' as int) as char) == c);
    }
}

/// Escrever em hexadecimal os bytes lidos dá o texto lido, em maiúsculas.
pub proof fn lema_de_hex_volta(t: Seq<char>, tam: nat)
    requires
        hex_valido(t, tam),
    ensures
        hex_spec(de_hex_spec(t, tam)) == maiusculas_hex(t),
    decreases tam,
{
    if tam == 0 {
        assert(de_hex_spec(t, tam) =~= Seq::<u8>::empty());
        assert(maiusculas_hex(t) =~= Seq::<char>::empty());
    } else {
        let k = (tam - 1) as nat;
        let ki = k as int;
        let t1 = t.subrange(0, 2 * ki);
        assert(hex_valido(t1, k)) by {
            assert forall|i: int| 0 <= i < t1.len() implies e_hex(#[trigger] t1[i]) by {
                assert(t1[i] == t[i]);
            }
        }
        lema_de_hex_volta(t1, k);
        let b = de_hex_spec(t, tam);
        assert(b.drop_last() =~= de_hex_spec(t1, k));
        let (c1, c2) = (t[2 * ki], t[2 * ki + 1]);
        assert(e_hex(c1) && e_hex(c2));
        lema_digito_hex(c1);
        lema_digito_hex(c2);
        let (v1, v2) = (valor_hex(c1) as int, valor_hex(c2) as int);
        assert(b.last() == (v1 * 16 + v2) as u8);
        assert(0 <= v1 * 16 + v2 < 256) by (nonlinear_arith)
            requires
                0 <= v1 < 16,
                0 <= v2 < 16,
        ;
        assert((v1 * 16 + v2) / 16 == v1 && (v1 * 16 + v2) % 16 == v2) by (nonlinear_arith)
            requires
                0 <= v1 < 16,
                0 <= v2 < 16,
        ;
        assert(maiusculas_hex(t) =~= maiusculas_hex(t1).push(maiuscula_hex(c1)).push(maiuscula_hex(c2)));
    }
}

/// Lê `tam` bytes escritos em hexadecimal (sem espaços nas pontas); o
/// erro leva o nome do campo. Escritos de volta em hexadecimal, os bytes
/// dão o texto em maiúsculas.
pub fn de_hex(s: &str, tam: usize, nome: &str) -> (r: Result<Vec<u8>, Erro>)
    requires
        2 * tam <= usize::MAX,
    ensures
        match r {
            Ok(v) => hex_valido(apara_spec(s@), tam as nat) && v@ == de_hex_spec(
                apara_spec(s@),
                tam as nat,
            ) && hex_spec(v@) == maiusculas_hex(apara_spec(s@)),
            Err(e) => !hex_valido(apara_spec(s@), tam as nat) && (e matches Erro::HexInvalido(n, k)
                && n@ == nome@ && k == 2 * tam),
        },
{
    let c = caracteres(s);
    let t = apara(&c);
    let mut ok = t.len() == tam * 2;
    let mut i: usize = 0;
    while ok && i < t.len()
        invariant
            i <= t@.len(),
            ok ==> t@.len() == 2 * tam,
            ok ==> forall|j: int| 0 <= j < i ==> e_hex(#[trigger] t@[j]),
            !ok ==> !hex_valido(t@, tam as nat),
        decreases t@.len() - i,
    {
        let x = t[i];
        if !(('0' <= x && x <= '9') || ('a' <= x && x <= 'f') || ('A' <= x && x <= 'F')) {
            ok = false;
        }
        i += 1;
    }
    if !ok {
        return Err(Erro::HexInvalido(nome.to_owned(), tam * 2));
    }
    let mut v: Vec<u8> = Vec::new();
    let mut k: usize = 0;
    while k < tam
        invariant
            k <= tam,
            2 * tam <= usize::MAX,
            t@.len() == 2 * tam,
            hex_valido(t@, tam as nat),
            v@ == de_hex_spec(t@, tam as nat).subrange(0, k as int),
        decreases tam - k,
    {
        let a = valor_hex_exec(t[2 * k]);
        let b = valor_hex_exec(t[2 * k + 1]);
        v.push(a * 16 + b);
        k += 1;
        assert(v@ =~= de_hex_spec(t@, tam as nat).subrange(0, k as int));
    }
    assert(v@ =~= de_hex_spec(t@, tam as nat));
    proof {
        lema_de_hex_volta(t@, tam as nat);
    }
    Ok(v)
}

} // verus!
