//! Teoria dos números da assinatura RSA: primos, o lema de Euclides, o
//! pequeno teorema de Fermat e por que m^(e·d) volta a m módulo p·q.
use vstd::prelude::*;
use vstd::arithmetic::div_mod::{lemma_add_mod_noop, lemma_fundamental_div_mod, lemma_mod_equivalence, lemma_mod_multiples_basic, lemma_mod_multiples_vanish, lemma_mul_mod_noop_left, lemma_mul_mod_noop_right, lemma_small_mod};
use vstd::arithmetic::power::{lemma1_pow, lemma_pow_adds, lemma_pow_mod_noop, lemma_pow_multiplies, pow};

verus! {

/// `p` é primo: maior que 1 e sem divisor entre 2 e p - 1.
pub open spec fn primo(p: nat) -> bool {
    p >= 2 && forall|k: nat| 2 <= k < p ==> #[trigger] (p % k) != 0
}

/// Máximo divisor comum, pelo algoritmo de Euclides.
pub open spec fn mdc(a: nat, b: nat) -> nat
    decreases b,
{
    if b == 0 {
        a
    } else {
        mdc(b, a % b)
    }
}

/// Identidade de Bézout: a·x + b·y = mdc(a, b) para algum par (x, y).
proof fn lema_bezout(a: nat, b: nat) -> (r: (int, int))
    ensures
        a * r.0 + b * r.1 == mdc(a, b),
    decreases b,
{
    if b == 0 {
        (1, 0)
    } else {
        let (x, y) = lema_bezout(b, a % b);
        let (ai, bi) = (a as int, b as int);
        lemma_fundamental_div_mod(ai, bi);
        let q = ai / bi;
        let r = ai % bi;
        assert(ai * y + bi * (x - q * y) == bi * x + r * y) by (nonlinear_arith)
            requires
                ai == bi * q + r,
        ;
        (y, x - q * y)
    }
}

/// `d` divide `x` (com `d` positivo): `x` é um múltiplo de `d`.
proof fn lema_multiplo(x: int, d: int)
    requires
        d > 0,
        x % d == 0,
    ensures
        x == d * (x / d),
{
    lemma_fundamental_div_mod(x, d);
}

/// O mdc divide os dois números.
proof fn lema_mdc_divide(a: nat, b: nat)
    requires
        a > 0 || b > 0,
    ensures
        mdc(a, b) > 0,
        a % mdc(a, b) == 0,
        b % mdc(a, b) == 0,
    decreases b,
{
    if b == 0 {
        assert(a % a == 0) by {
            lemma_mod_multiples_basic(1, a as int);
        }
    } else {
        lema_mdc_divide(b, a % b);
        let g = mdc(a, b) as int;
        let (ai, bi, ri) = (a as int, b as int, (a % b) as int);
        lemma_fundamental_div_mod(ai, bi);
        lema_multiplo(bi, g);
        lema_multiplo(ri, g);
        let (s, t, q) = (bi / g, ri / g, ai / bi);
        assert(ai == g * (s * q + t)) by (nonlinear_arith)
            requires
                ai == bi * q + ri,
                bi == g * s,
                ri == g * t,
        ;
        lemma_mod_multiples_basic(s * q + t, g);
        assert((s * q + t) * g == g * (s * q + t)) by (nonlinear_arith);
    }
}

/// Lema de Euclides: se um primo divide um produto, divide um dos fatores.
pub proof fn lema_euclides(p: nat, a: int, b: int)
    requires
        primo(p),
        (a * b) % (p as int) == 0,
    ensures
        a % (p as int) == 0 || b % (p as int) == 0,
{
    let pi = p as int;
    let a1 = (a % pi) as nat;
    if a1 != 0 {
        lema_mdc_divide(a1, p);
        let g = mdc(a1, p);
        lema_multiplo(a1 as int, g as int);
        assert(g <= a1) by (nonlinear_arith)
            requires
                a1 > 0,
                g > 0,
                a1 == g * (a1 / g),
        ;
        if g >= 2 {
            assert(p % g != 0);
        }
        assert(g == 1);
        let (x, y) = lema_bezout(a1, p);
        lemma_mul_mod_noop_left(a, b, pi);
        lema_multiplo(a1 * b, pi);
        let c = (a1 * b) / pi;
        assert(b == pi * (c * x + b * y)) by (nonlinear_arith)
            requires
                a1 * x + pi * y == 1,
                a1 * b == pi * c,
        ;
        lemma_mod_multiples_basic(c * x + b * y, pi);
        assert((c * x + b * y) * pi == pi * (c * x + b * y)) by (nonlinear_arith);
    }
}

// ---------------------------------------------------------------- binômios

/// Coeficiente binomial, pelo triângulo de Pascal.
pub open spec fn binom(n: nat, k: nat) -> nat
    decreases n,
{
    if k == 0 {
        1
    } else if n == 0 {
        0
    } else {
        binom((n - 1) as nat, (k - 1) as nat) + binom((n - 1) as nat, k)
    }
}

/// Σ binom(n, k)·x^k para k < j.
pub open spec fn soma_binom(n: nat, x: int, j: nat) -> int
    decreases j,
{
    if j == 0 {
        0
    } else {
        soma_binom(n, x, (j - 1) as nat) + binom(n, (j - 1) as nat) * pow(x, (j - 1) as nat)
    }
}

proof fn lema_binom_acima(n: nat, k: nat)
    requires
        k > n,
    ensures
        binom(n, k) == 0,
    decreases n,
{
    if n > 0 {
        lema_binom_acima((n - 1) as nat, (k - 1) as nat);
        lema_binom_acima((n - 1) as nat, k);
    }
}

proof fn lema_binom_diagonal(n: nat)
    ensures
        binom(n, n) == 1,
    decreases n,
{
    if n > 0 {
        lema_binom_diagonal((n - 1) as nat);
        lema_binom_acima((n - 1) as nat, n);
    }
}

/// Um passo do binômio: as somas de n + 1 vêm das de n pela regra de Pascal.
proof fn lema_passo_binomial(n: nat, x: int, j: nat)
    ensures
        soma_binom(n + 1, x, j + 1) == soma_binom(n, x, j + 1) + x * soma_binom(n, x, j),
    decreases j,
{
    reveal(pow);
    if j == 0 {
        assert(soma_binom(n, x, 0) == 0);
        assert(soma_binom(n + 1, x, 0) == 0);
        assert(pow(x, 0) == 1);
    } else {
        let j1 = (j - 1) as nat;
        lema_passo_binomial(n, x, j1);
        let s0 = soma_binom(n, x, j1);
        let s1 = soma_binom(n, x, j);
        let a = binom(n, j1) as int;
        let b = binom(n, j) as int;
        let w = pow(x, j1);
        let u = pow(x, j);
        assert(u == x * w);
        assert(binom(n + 1, j) == a + b);
        assert(s1 == s0 + a * w);
        assert(soma_binom(n, x, j + 1) == s1 + b * u);
        assert(soma_binom(n + 1, x, j + 1) == soma_binom(n + 1, x, j) + (a + b) * u);
        assert(soma_binom(n + 1, x, j) == s1 + x * s0);
        assert(s1 + x * s0 + (a + b) * u == (s1 + b * u) + x * s1) by (nonlinear_arith)
            requires
                u == x * w,
                s1 == s0 + a * w,
        ;
    }
}

/// Binômio de Newton: (x + 1)^n = Σ binom(n, k)·x^k.
proof fn lema_binomio(n: nat, x: int)
    ensures
        pow(x + 1, n) == soma_binom(n, x, n + 1),
    decreases n,
{
    reveal(pow);
    if n == 0 {
        assert(soma_binom(0, x, 0) == 0);
        assert(pow(x, 0) == 1);
    } else {
        let n1 = (n - 1) as nat;
        lema_binomio(n1, x);
        lema_passo_binomial(n1, x, n);
        lema_binom_acima(n1, n);
        let s = soma_binom(n1, x, n);
        assert(soma_binom(n1, x, n + 1) == s);
        assert(pow(x + 1, n) == (x + 1) * s);
        assert((x + 1) * s == s + x * s) by (nonlinear_arith);
    }
}

/// k·binom(n, k) = n·binom(n - 1, k - 1).
proof fn lema_absorcao(n: nat, k: nat)
    requires
        n >= 1,
        k >= 1,
    ensures
        k * binom(n, k) == n * binom((n - 1) as nat, (k - 1) as nat),
    decreases n,
{
    if n == 1 {
        assert(binom(0, 0) == 1);
        if k > 1 {
            lema_binom_acima(0, (k - 1) as nat);
        }
        lema_binom_acima(0, k);
    } else if k == 1 {
        lema_absorcao((n - 1) as nat, 1);
        assert(binom((n - 2) as nat, 0) == 1);
        assert(binom((n - 1) as nat, 0) == 1);
        let b = binom((n - 1) as nat, 1);
        assert(1 * b == b);
        assert(((n - 1) as nat) * 1nat == n - 1);
        assert(binom(n, 1) == 1 + b);
        assert(n * 1nat == n);
    } else {
        let (n1, n2, k1, k2) = ((n - 1) as nat, (n - 2) as nat, (k - 1) as nat, (k - 2) as nat);
        lema_absorcao(n1, k1);
        lema_absorcao(n1, k);
        let (a, b, c, e) = (binom(n1, k1) as int, binom(n1, k) as int, binom(n2, k2) as int, binom(n2, k1) as int);
        assert(binom(n, k) == a + b);
        assert(a == c + e);
        let (ni, ki) = (n as int, k as int);
        assert(ki * (a + b) == ni * a) by (nonlinear_arith)
            requires
                (ki - 1) * a == (ni - 1) * c,
                ki * b == (ni - 1) * e,
                a == c + e,
        ;
    }
}

/// Um primo divide os binômios do meio da sua linha.
proof fn lema_primo_divide_binom(p: nat, k: nat)
    requires
        primo(p),
        0 < k < p,
    ensures
        binom(p, k) % p == 0,
{
    let pi = p as int;
    lema_absorcao(p, k);
    let c = binom((p - 1) as nat, (k - 1) as nat) as int;
    assert((k as int) * (binom(p, k) as int) == c * pi) by (nonlinear_arith)
        requires
            (k as int) * (binom(p, k) as int) == pi * c,
    ;
    lemma_mod_multiples_basic(c, pi);
    lema_euclides(p, k as int, binom(p, k) as int);
    lemma_small_mod(k, p);
}

/// Só o primeiro termo da soma escapa de ser múltiplo de p.
proof fn lema_soma_do_meio(p: nat, x: int, j: nat)
    requires
        primo(p),
        1 <= j <= p,
    ensures
        soma_binom(p, x, j) % (p as int) == 1,
    decreases j,
{
    reveal(pow);
    let pi = p as int;
    if j == 1 {
        assert(soma_binom(p, x, 0) == 0);
        lemma_small_mod(1, p);
    } else {
        let j1 = (j - 1) as nat;
        lema_soma_do_meio(p, x, j1);
        lema_primo_divide_binom(p, j1);
        lema_multiplo(binom(p, j1) as int, pi);
        let c = (binom(p, j1) as int) / pi;
        let w = pow(x, j1);
        assert((binom(p, j1) as int) * w == pi * (c * w)) by (nonlinear_arith)
            requires
                binom(p, j1) as int == pi * c,
        ;
        lemma_mod_multiples_vanish(c * w, soma_binom(p, x, j1), pi);
    }
}

/// (x + 1)^p ≡ x^p + 1 (mod p).
proof fn lema_calouro(p: nat, x: int)
    requires
        primo(p),
    ensures
        pow(x + 1, p) % (p as int) == (pow(x, p) + 1) % (p as int),
{
    let pi = p as int;
    lema_binomio(p, x);
    lema_binom_diagonal(p);
    lema_soma_do_meio(p, x, p);
    let s = soma_binom(p, x, p);
    let t = pow(x, p);
    assert(soma_binom(p, x, p + 1) == s + binom(p, p) * t);
    let um = binom(p, p) as int;
    assert(um * t == t) by (nonlinear_arith)
        requires
            um == 1,
    ;
    assert(pow(x + 1, p) == s + t);
    lemma_add_mod_noop(s, t, pi);
    lemma_add_mod_noop(1, t, pi);
    lemma_small_mod(1, p);
}

/// Pequeno teorema de Fermat: x^p ≡ x (mod p).
pub proof fn lema_fermat(p: nat, x: nat)
    requires
        primo(p),
    ensures
        pow(x as int, p) % (p as int) == (x as int) % (p as int),
    decreases x,
{
    let pi = p as int;
    if x == 0 {
        vstd::arithmetic::power::lemma0_pow(p);
    } else {
        let x1 = (x - 1) as nat;
        lema_fermat(p, x1);
        lema_calouro(p, x1 as int);
        lemma_add_mod_noop(pow(x1 as int, p), 1, pi);
        lemma_add_mod_noop(x1 as int, 1, pi);
    }
}

// ---------------------------------------------------------------- RSA

/// m^(1 + k(p - 1)) ≡ m (mod p), para todo m.
proof fn lema_expoente_fermat(p: nat, m: nat, k: nat)
    requires
        primo(p),
    ensures
        pow(m as int, 1 + k * (p - 1) as nat) % (p as int) == (m as int) % (p as int),
{
    let pi = p as int;
    let mi = m as int;
    let p1 = (p - 1) as nat;
    let kp = k * p1;
    lemma_pow_adds(mi, 1, kp);
    vstd::arithmetic::power::lemma_pow1(mi);
    let r = pow(mi, kp);
    assert(pow(mi, 1 + kp) == mi * r);
    lemma_mul_mod_noop_left(mi, r, pi);
    if mi % pi == 0 {
        assert((mi % pi) * r == 0) by (nonlinear_arith)
            requires
                mi % pi == 0,
        ;
        lemma_small_mod(0, p);
        assert((mi * r) % pi == 0);
    } else {
        // m^(p - 1) ≡ 1: de m·m^(p - 1) ≡ m, com p não dividindo m.
        lema_fermat(p, m);
        lemma_pow_adds(mi, 1, p1);
        let f = pow(mi, p1);
        assert(pow(mi, p) == mi * f);
        lemma_mod_equivalence(mi * f, mi, pi);
        assert(mi * f - mi == mi * (f - 1)) by (nonlinear_arith);
        lema_euclides(p, mi, f - 1);
        lemma_mod_equivalence(f, 1, pi);
        lemma_small_mod(1, p);
        // m^(k(p - 1)) = (m^(p - 1))^k ≡ 1^k = 1
        lemma_pow_multiplies(mi, p1, k);
        assert(p1 * k == kp) by (nonlinear_arith)
            requires
                kp == k * p1,
        ;
        lemma_pow_mod_noop(f, k, pi);
        lemma1_pow(k);
        assert(r % pi == 1);
        lemma_mul_mod_noop_right(mi, r, pi);
        assert(mi * 1 == mi);
        assert((mi * r) % pi == mi % pi);
    }
}

/// Se dois primos diferentes dividem z, o produto deles divide z.
proof fn lema_dois_primos(p: nat, q: nat, z: int)
    requires
        primo(p),
        primo(q),
        p != q,
        z % (p as int) == 0,
        z % (q as int) == 0,
    ensures
        z % ((p * q) as int) == 0,
{
    let (pi, qi) = (p as int, q as int);
    lema_multiplo(z, pi);
    let t = z / pi;
    assert((pi * t) % qi == 0);
    lema_euclides(q, pi, t);
    if pi % qi == 0 {
        if q < p {
            assert(p % q != 0);
        } else {
            lemma_small_mod(p, q);
        }
    }
    lema_multiplo(t, qi);
    let s = t / qi;
    assert(z == s * (pi * qi)) by (nonlinear_arith)
        requires
            z == pi * t,
            t == qi * s,
    ;
    assert(pi * qi > 0) by (nonlinear_arith)
        requires
            pi >= 2,
            qi >= 2,
    ;
    lemma_mod_multiples_basic(s, pi * qi);
}

/// RSA: com p e q primos distintos e e·d ≡ 1 (mod (p - 1)(q - 1)), elevar
/// a d e depois a e, módulo p·q, devolve a mensagem m < p·q.
pub proof fn lema_rsa(p: nat, q: nat, e: nat, d: nat, m: nat)
    requires
        primo(p),
        primo(q),
        p != q,
        m < p * q,
        ((e * d) as int) % (((p - 1) * (q - 1)) as int) == 1int % (((p - 1) * (q - 1)) as int),
    ensures
        pow(pow(m as int, d) % ((p * q) as int), e) % ((p * q) as int) == m as int,
{
    let (p1, q1) = ((p - 1) as nat, (q - 1) as nat);
    let n = (p * q) as int;
    let phi = (p1 * q1) as int;
    let mi = m as int;
    assert(n > 0) by (nonlinear_arith)
        requires
            p >= 2,
            q >= 2,
            n == p * q,
    ;
    // φ ≥ 2: os dois primos não são ambos 2.
    assert(phi >= 2) by (nonlinear_arith)
        requires
            p1 >= 1,
            q1 >= 1,
            p1 + q1 >= 3,
            phi == p1 * q1,
    ;
    lemma_small_mod(1, phi as nat);
    lemma_fundamental_div_mod((e * d) as int, phi);
    let t = ((e * d) as int) / phi;
    assert(t >= 0) by (nonlinear_arith)
        requires
            (e * d) as int == phi * t + 1,
            phi >= 2,
            e * d >= 0,
    ;
    let tn = t as nat;
    // e·d = 1 + (t(q - 1))(p - 1) = 1 + (t(p - 1))(q - 1)
    assert(d * e == 1 + (tn * q1) * p1) by (nonlinear_arith)
        requires
            (e * d) as int == phi * t + 1,
            phi == p1 * q1,
            tn == t,
    ;
    assert(d * e == 1 + (tn * p1) * q1) by (nonlinear_arith)
        requires
            (e * d) as int == phi * t + 1,
            phi == p1 * q1,
            tn == t,
    ;
    lemma_pow_mod_noop(pow(mi, d), e, n);
    lemma_pow_multiplies(mi, d, e);
    let x = pow(mi, d * e);
    lema_expoente_fermat(p, m, tn * q1);
    lema_expoente_fermat(q, m, tn * p1);
    lemma_mod_equivalence(x, mi, p as int);
    lemma_mod_equivalence(x, mi, q as int);
    lema_dois_primos(p, q, x - mi);
    lemma_mod_equivalence(x, mi, n);
    lemma_small_mod(m, (p * q) as nat);
}

} // verus!
