//! A edição na tela: o que os campos pedem comparado com o save aberto, a
//! validação de cada campo e o editor de slots.
use vstd::prelude::*;
use crate::interno::{Mudancas, Slot};
use crate::itens::{classe_de, classe_spec, Destino, Itens, N_CLASSES};
use crate::interno::data_valida;
use crate::modelos::{data_de_texto, data_de_texto_spec, data_texto_spec, lei_data_ida_e_volta, lema_decimal, ListaDados, Retrato};
use vstd::string::StrSliceExecFns;
use vstd::string::StringExecFns;
use crate::texto::{apara, apara_spec, caracteres, decimal, decimal_exec, e_hex, junta, le_u32, le_u64, numero_ate, texto_de};

verus! {

/// Onde fica o slot que está sendo editado.
#[derive(Clone, Copy, PartialEq, Eq, Structural, Debug)]
pub enum Onde {
    Chris,
    Sheva,
    Inventario,
}

impl Onde {
    /// A maior quantidade que cabe no slot (16 bits no inventário).
    pub fn maximo(self) -> (r: u32)
        ensures
            r == if self == Onde::Inventario {
                0xFFFFu32
            } else {
                u32::MAX
            },
    {
        if self == Onde::Inventario {
            0xFFFF
        } else {
            u32::MAX
        }
    }

    /// Onde o item vai ser gravado.
    pub fn destino(self) -> (r: Destino)
        ensures
            r == destino_de(self),
    {
        if self == Onde::Inventario {
            Destino::Inventario
        } else {
            Destino::Personagem
        }
    }
}

pub open spec fn destino_de(onde: Onde) -> Destino {
    if onde == Onde::Inventario {
        Destino::Inventario
    } else {
        Destino::Personagem
    }
}

/// Os campos de texto da tela.
pub struct Campos {
    pub gold: String,
    pub points: String,
    pub data: String,
    pub profile_id: String,
    pub device_id: String,
    pub steam_id: String,
}

/// Os campos que estão inválidos na tela.
pub struct Invalidos {
    pub gold: bool,
    pub points: bool,
    pub data: bool,
    pub profile_id: bool,
    pub device_id: bool,
    pub steam_id: bool,
}

/// Exatamente `tam` algarismos hexadecimais.
pub open spec fn hex_ok_spec(s: Seq<char>, tam: nat) -> bool {
    s.len() == tam && forall|i: int| 0 <= i < s.len() ==> e_hex(#[trigger] s[i])
}

pub fn hex_ok(s: &str, tam: usize) -> (r: bool)
    ensures
        r == hex_ok_spec(s@, tam as nat),
{
    let c = caracteres(s);
    if c.len() != tam {
        return false;
    }
    let mut i: usize = 0;
    while i < c.len()
        invariant
            i <= c@.len(),
            c@ == s@,
            forall|j: int| 0 <= j < i ==> e_hex(#[trigger] c@[j]),
        decreases c@.len() - i,
    {
        let x = c[i];
        if !(('0' <= x && x <= '9') || ('a' <= x && x <= 'f') || ('A' <= x && x <= 'F')) {
            return false;
        }
        i += 1;
    }
    true
}

/// Há alguma mudança pedida.
pub open spec fn tem_mudanca_spec(m: &Mudancas) -> bool {
    !m.vazia()
}

pub fn tem_mudanca(m: &Mudancas) -> (r: bool)
    ensures
        r == tem_mudanca_spec(m),
{
    m.gold.is_some() || m.points.is_some() || m.data.is_some() || m.listas.len() > 0
        || m.steam_id.is_some() || m.profile_id.is_some() || m.device_id.is_some()
        || m.inventario.len() > 0 || m.chris.len() > 0 || m.sheva.len() > 0
}

/// O número do campo, se for um `u32`.
pub open spec fn campo_u32(s: Seq<char>) -> Option<u32> {
    match numero_ate(s, u32::MAX as nat) {
        Some(v) => Some(v as u32),
        None => None,
    }
}

/// O valor do campo quando ele é válido e difere do original.
pub open spec fn se_mudou<T>(v: Option<T>, original: T) -> Option<T> {
    match v {
        Some(x) => if x != original {
            Some(x)
        } else {
            None
        },
        None => None,
    }
}

/// Posições, entre as `n` primeiras, em que as marcas das listas diferem.
pub open spec fn listas_mudadas(a: Seq<ListaDados>, o: Seq<ListaDados>, n: nat) -> Seq<int>
    decreases n,
{
    if n == 0 {
        Seq::empty()
    } else {
        let p = listas_mudadas(a, o, (n - 1) as nat);
        if a[n - 1].marcados@ != o[n - 1].marcados@ {
            p.push(n - 1)
        } else {
            p
        }
    }
}

/// Posições, entre as `n` primeiras, em que os slots diferem.
pub open spec fn slots_mudados(a: Seq<Slot>, o: Seq<Slot>, n: nat) -> Seq<int>
    decreases n,
{
    if n == 0 {
        Seq::empty()
    } else {
        let p = slots_mudados(a, o, (n - 1) as nat);
        if a[n - 1] != o[n - 1] {
            p.push(n - 1)
        } else {
            p
        }
    }
}

pub open spec fn menor(a: nat, b: nat) -> nat {
    if a < b {
        a
    } else {
        b
    }
}

/// Os slots que mudaram, na ordem.
pub open spec fn slots_dif(a: Seq<Slot>, o: Seq<Slot>) -> Seq<Slot> {
    let p = slots_mudados(a, o, menor(a.len(), o.len()));
    Seq::new(p.len(), |j: int| a[p[j]])
}

/// O Steam ID do campo é aceito: não vazio e um número de 64 bits.
pub open spec fn steam_ok_spec(s: Seq<char>) -> bool {
    s.len() > 0 && numero_ate(s, u64::MAX as nat) is Some
}

fn iguais_bool(a: &Vec<bool>, b: &Vec<bool>) -> (r: bool)
    ensures
        r == (a@ == b@),
{
    if a.len() != b.len() {
        return false;
    }
    let mut i: usize = 0;
    while i < a.len()
        invariant
            a@.len() == b@.len(),
            i <= a@.len(),
            forall|j: int| 0 <= j < i ==> a@[j] == b@[j],
        decreases a@.len() - i,
    {
        if a[i] != b[i] {
            return false;
        }
        i += 1;
    }
    assert(a@ =~= b@);
    true
}

fn copia_bool(a: &Vec<bool>) -> (r: Vec<bool>)
    ensures
        r@ == a@,
{
    let mut r: Vec<bool> = Vec::new();
    let mut i: usize = 0;
    while i < a.len()
        invariant
            i <= a@.len(),
            r@ == a@.subrange(0, i as int),
        decreases a@.len() - i,
    {
        r.push(a[i]);
        i += 1;
        assert(r@ =~= a@.subrange(0, i as int));
    }
    assert(a@.subrange(0, a@.len() as int) =~= a@);
    r
}

fn copia_slot(s: &Slot) -> (r: Slot)
    ensures
        r == *s,
{
    Slot { slot: s.slot, id: s.id, amount: s.amount }
}

fn dif(a: &Vec<Slot>, o: &Vec<Slot>) -> (r: Vec<Slot>)
    ensures
        r@ == slots_dif(a@, o@),
{
    let n = if a.len() < o.len() {
        a.len()
    } else {
        o.len()
    };
    let mut r: Vec<Slot> = Vec::new();
    let mut i: usize = 0;
    while i < n
        invariant
            n == menor(a@.len(), o@.len()),
            i <= n,
            r@ == Seq::new(
                slots_mudados(a@, o@, i as nat).len(),
                |j: int| a@[slots_mudados(a@, o@, i as nat)[j]],
            ),
            forall|j: int|
                0 <= j < slots_mudados(a@, o@, i as nat).len() ==> 0 <= #[trigger] slots_mudados(
                    a@,
                    o@,
                    i as nat,
                )[j] < i,
        decreases n - i,
    {
        if a[i] != o[i] {
            r.push(copia_slot(&a[i]));
        }
        i += 1;
        assert(r@ =~= Seq::new(
            slots_mudados(a@, o@, i as nat).len(),
            |j: int| a@[slots_mudados(a@, o@, i as nat)[j]],
        ));
    }
    r
}

fn iguais_data(a: &[u32; 6], b: &[u32; 6]) -> (r: bool)
    ensures
        r == (a@ == b@),
{
    let mut i: usize = 0;
    while i < 6
        invariant
            i <= 6,
            a@.len() == 6,
            b@.len() == 6,
            forall|j: int| 0 <= j < i ==> a@[j] == b@[j],
        decreases 6 - i,
    {
        if a[i] != b[i] {
            return false;
        }
        i += 1;
    }
    assert(a@ =~= b@);
    true
}

/// O que a tela pede: o que mudou em relação ao save aberto (`o`), com a
/// edição das listas e dos slots (`a`) e os campos de texto.
pub open spec fn mudancas_ok(m: &Mudancas, c: &Campos, o: &Retrato, a: &Retrato) -> bool {
    let pl = listas_mudadas(a.listas@, o.listas@, menor(a.listas@.len(), o.listas@.len()));
    &&& m.gold == se_mudou(campo_u32(c.gold@), o.gold)
    &&& m.points == se_mudou(campo_u32(c.points@), o.points)
    &&& match (m.data, data_de_texto_spec(c.data@)) {
        (Some(d), Some(s)) => d@ == s && s != o.data@,
        (None, Some(s)) => s == o.data@,
        (None, None) => true,
        _ => false,
    }
    &&& m.listas@.len() == pl.len()
    &&& forall|j: int|
        0 <= j < pl.len() ==> (#[trigger] m.listas@[j]).0@ == a.listas@[pl[j]].chave@ && m.listas@[j].1@
            == a.listas@[pl[j]].marcados@
    &&& if o.xbox {
        &&& m.profile_id == if c.profile_id@ != o.profile_id@ {
            Some(c.profile_id)
        } else {
            None::<String>
        }
        &&& m.device_id == if c.device_id@ != o.device_id@ {
            Some(c.device_id)
        } else {
            None::<String>
        }
        &&& m.inventario@ == slots_dif(a.inventario@, o.inventario@)
        &&& m.chris@ == slots_dif(a.chris@, o.chris@)
        &&& m.sheva@ == slots_dif(a.sheva@, o.sheva@)
        &&& m.steam_id is None
    } else {
        &&& m.steam_id == if c.steam_id@ != o.steam_id@ {
            Some(c.steam_id)
        } else {
            None::<String>
        }
        &&& m.profile_id is None
        &&& m.device_id is None
        &&& m.inventario@.len() == 0
        &&& m.chris@.len() == 0
        &&& m.sheva@.len() == 0
    }
}

/// Quais campos estão inválidos e se dá para salvar.
pub open spec fn invalidos_ok(v: &Invalidos, valido: bool, c: &Campos, xbox: bool) -> bool {
    &&& v.gold == (campo_u32(c.gold@) is None)
    &&& v.points == (campo_u32(c.points@) is None)
    &&& v.data == (data_de_texto_spec(c.data@) is None)
    &&& v.profile_id == (xbox && !hex_ok_spec(c.profile_id@, 16))
    &&& v.device_id == (xbox && !hex_ok_spec(c.device_id@, 40))
    &&& v.steam_id == (!xbox && !steam_ok_spec(c.steam_id@))
    &&& valido == !(v.gold || v.points || v.data || v.profile_id || v.device_id || v.steam_id)
}

fn copia_texto(s: &String) -> (r: String)
    ensures
        r@ == s@,
        r == *s,
{
    s.clone()
}

/// Compara a tela com o arquivo: as mudanças, os campos inválidos e se tudo
/// é válido.
pub fn ler_mudancas(c: &Campos, o: &Retrato, a: &Retrato) -> (r: (Mudancas, Invalidos, bool))
    ensures
        mudancas_ok(&r.0, c, o, a),
        invalidos_ok(&r.1, r.2, c, o.xbox),
{
    let gold = le_u32(&caracteres(c.gold.as_str()));
    let points = le_u32(&caracteres(c.points.as_str()));
    let data = data_de_texto(c.data.as_str());
    let mut inv = Invalidos {
        gold: gold.is_none(),
        points: points.is_none(),
        data: data.is_none(),
        profile_id: false,
        device_id: false,
        steam_id: false,
    };
    let mut m = Mudancas {
        gold: match gold {
            Some(g) => if g != o.gold {
                Some(g)
            } else {
                None
            },
            None => None,
        },
        points: match points {
            Some(p) => if p != o.points {
                Some(p)
            } else {
                None
            },
            None => None,
        },
        data: match data {
            Some(d) => if !iguais_data(&d, &o.data) {
                Some(d)
            } else {
                None
            },
            None => None,
        },
        listas: Vec::new(),
        steam_id: None,
        profile_id: None,
        device_id: None,
        inventario: Vec::new(),
        chris: Vec::new(),
        sheva: Vec::new(),
    };
    let n = if a.listas.len() < o.listas.len() {
        a.listas.len()
    } else {
        o.listas.len()
    };
    let mut i: usize = 0;
    while i < n
        invariant
            n == menor(a.listas@.len(), o.listas@.len()),
            i <= n,
            ({
                let pl = listas_mudadas(a.listas@, o.listas@, i as nat);
                &&& m.listas@.len() == pl.len()
                &&& forall|j: int| 0 <= j < pl.len() ==> 0 <= #[trigger] pl[j] < i
                &&& forall|j: int|
                    0 <= j < pl.len() ==> (#[trigger] m.listas@[j]).0@ == a.listas@[pl[j]].chave@
                        && m.listas@[j].1@ == a.listas@[pl[j]].marcados@
            }),
            m.gold == se_mudou(campo_u32(c.gold@), o.gold),
            m.points == se_mudou(campo_u32(c.points@), o.points),
            match (m.data, data_de_texto_spec(c.data@)) {
                (Some(d), Some(s)) => d@ == s && s != o.data@,
                (None, Some(s)) => s == o.data@,
                (None, None) => true,
                _ => false,
            },
            m.steam_id is None,
            m.profile_id is None,
            m.device_id is None,
            m.inventario@.len() == 0,
            m.chris@.len() == 0,
            m.sheva@.len() == 0,
        decreases n - i,
    {
        if !iguais_bool(&a.listas[i].marcados, &o.listas[i].marcados) {
            let ch = copia_texto(&a.listas[i].chave);
            let mk = copia_bool(&a.listas[i].marcados);
            m.listas.push((ch, mk));
        }
        i += 1;
    }
    let mut valido = gold.is_some() && points.is_some() && data.is_some();
    if o.xbox {
        let perfil = copia_texto(&o.profile_id);
        let perfil_c = copia_texto(&c.profile_id);
        let device_c = copia_texto(&c.device_id);
        let perfil_ok = hex_ok(c.profile_id.as_str(), 16);
        let device_ok = hex_ok(c.device_id.as_str(), 40);
        inv.profile_id = !perfil_ok;
        inv.device_id = !device_ok;
        valido = valido && perfil_ok && device_ok;
        m.profile_id = if perfil_c != perfil {
            Some(perfil_c)
        } else {
            None
        };
        m.device_id = if device_c != o.device_id {
            Some(device_c)
        } else {
            None
        };
        m.inventario = dif(&a.inventario, &o.inventario);
        m.chris = dif(&a.chris, &o.chris);
        m.sheva = dif(&a.sheva, &o.sheva);
    } else {
        let steam = copia_texto(&c.steam_id);
        let ok = c.steam_id.as_str().unicode_len() > 0 && le_u64(&caracteres(c.steam_id.as_str())).is_some();
        inv.steam_id = !ok;
        valido = valido && ok;
        m.steam_id = if steam != o.steam_id {
            Some(steam)
        } else {
            None
        };
    }
    (m, inv, valido)
}

/// Os campos todos válidos.
pub open spec fn valido_spec(c: &Campos, xbox: bool) -> bool {
    &&& campo_u32(c.gold@) is Some
    &&& campo_u32(c.points@) is Some
    &&& data_de_texto_spec(c.data@) is Some
    &&& if xbox {
        hex_ok_spec(c.profile_id@, 16) && hex_ok_spec(c.device_id@, 40)
    } else {
        steam_ok_spec(c.steam_id@)
    }
}

/// A tela pede alguma mudança em relação ao arquivo.
pub open spec fn sujo_spec(c: &Campos, o: &Retrato, a: &Retrato) -> bool {
    ||| se_mudou(campo_u32(c.gold@), o.gold) is Some
    ||| se_mudou(campo_u32(c.points@), o.points) is Some
    ||| (data_de_texto_spec(c.data@) matches Some(s) && s != o.data@)
    ||| listas_mudadas(a.listas@, o.listas@, menor(a.listas@.len(), o.listas@.len())).len() > 0
    ||| if o.xbox {
        ||| c.profile_id@ != o.profile_id@
        ||| c.device_id@ != o.device_id@
        ||| slots_dif(a.inventario@, o.inventario@).len() > 0
        ||| slots_dif(a.chris@, o.chris@).len() > 0
        ||| slots_dif(a.sheva@, o.sheva@).len() > 0
    } else {
        c.steam_id@ != o.steam_id@
    }
}

/// Depois de qualquer edição: se há alteração, se tudo é válido e se dá
/// para salvar (as duas coisas).
pub fn atualizar(c: &Campos, o: &Retrato, a: &Retrato) -> (r: (bool, bool, bool))
    ensures
        r.0 == sujo_spec(c, o, a),
        r.1 == valido_spec(c, o.xbox),
        r.2 == (r.0 && r.1),
{
    let (m, inv, valido) = ler_mudancas(c, o, a);
    let sujo = tem_mudanca(&m);
    (sujo, valido, sujo && valido)
}

// ---------------------------------------------------------------- editor de slot

/// O slot `i` de onde se está editando, na edição atual.
pub fn slot_de(a: &Retrato, onde: Onde, i: usize) -> (r: Option<Slot>)
    ensures
        ({
            let v = match onde {
                Onde::Chris => a.chris@,
                Onde::Sheva => a.sheva@,
                Onde::Inventario => a.inventario@,
            };
            r == if i < v.len() {
                Some(v[i as int])
            } else {
                None::<Slot>
            }
        }),
{
    let v = match onde {
        Onde::Chris => &a.chris,
        Onde::Sheva => &a.sheva,
        Onde::Inventario => &a.inventario,
    };
    if i < v.len() {
        Some(copia_slot(&v[i]))
    } else {
        None
    }
}

/// As classes que o editor oferece: as que têm opção para o destino, mais a
/// do item atual (a última, "Arquivo", para um ID de classe maior), em
/// ordem.
pub open spec fn classes_do_editor_ok(r: Seq<usize>, cs: Seq<usize>, atual: usize) -> bool {
    &&& forall|i: int, j: int| 0 <= i < j < r.len() ==> r[i] < r[j]
    &&& forall|c: usize| r.contains(c) <==> (cs.contains(c) || c == atual)
}

/// A classe do item atual no editor.
pub open spec fn classe_do_atual(id: u32) -> usize {
    if classe_spec(id) < N_CLASSES - 1 {
        classe_spec(id)
    } else {
        (N_CLASSES - 1) as usize
    }
}

pub fn classes_do_editor(itens: &Itens, onde: Onde, id: u32) -> (r: Vec<usize>)
    requires
        itens.bem_formado(),
    ensures
        classes_do_editor_ok(r@, itens.classes_ate(destino_de(onde), N_CLASSES as nat), classe_do_atual(id)),
{
    let mut cs = itens.classes_para(onde.destino());
    proof {
        lema_classes_crescentes(itens, destino_de(onde), N_CLASSES as nat);
    }
    let c = classe_de(id);
    let atual = if c < N_CLASSES - 1 {
        c
    } else {
        N_CLASSES - 1
    };
    let ghost antes = cs@;
    let mut p: usize = 0;
    while p < cs.len() && cs[p] < atual
        invariant
            cs@ == antes,
            p <= cs@.len(),
            forall|j: int| 0 <= j < p ==> cs@[j] < atual,
        decreases cs@.len() - p,
    {
        p += 1;
    }
    if p < cs.len() && cs[p] == atual {
        return cs;
    }
    proof {
        assert(!antes.contains(atual)) by {
            if antes.contains(atual) {
                let k = choose|k: int| 0 <= k < antes.len() && antes[k] == atual;
                if k < p {
                } else if k > p {
                    assert(antes[p as int] < antes[k]);
                }
            }
        }
    }
    cs.insert(p, atual);
    proof {
        lema_insere_em_ordem(antes, p as int, atual);
    }
    cs
}

/// Pôr `x` na posição certa de uma sequência crescente que não o tem.
proof fn lema_insere_em_ordem(s: Seq<usize>, p: int, x: usize)
    requires
        0 <= p <= s.len(),
        forall|i: int, j: int| 0 <= i < j < s.len() ==> s[i] < s[j],
        forall|j: int| 0 <= j < p ==> s[j] < x,
        p < s.len() ==> s[p] > x,
    ensures
        classes_do_editor_ok(s.insert(p, x), s, x),
{
    let r = s.insert(p, x);
    assert forall|c2: usize| r.contains(c2) <==> (s.contains(c2) || c2 == x) by {
        if r.contains(c2) {
            let k = choose|k: int| 0 <= k < r.len() && r[k] == c2;
            if k < p {
                assert(s[k] == c2);
            } else if k > p {
                assert(s[k - 1] == c2);
            }
        }
        if s.contains(c2) {
            let k = choose|k: int| 0 <= k < s.len() && s[k] == c2;
            if k < p {
                assert(r[k] == c2);
            } else {
                assert(r[k + 1] == c2);
            }
        }
        if c2 == x {
            assert(r[p] == c2);
        }
    }
    assert forall|i: int, j: int| 0 <= i < j < r.len() implies r[i] < r[j] by {
        if j < p {
            assert(r[i] == s[i] && r[j] == s[j]);
        } else if j == p {
            assert(r[i] == s[i]);
        } else if i < p {
            assert(r[j] == s[j - 1]);
            assert(r[i] == s[i]);
            assert(s[p] > x);
            if j - 1 > p {
                assert(s[p] < s[j - 1]);
            }
        } else if i == p {
            assert(r[j] == s[j - 1]);
            if j - 1 > p {
                assert(s[p] < s[j - 1]);
            }
        } else {
            assert(r[i] == s[i - 1] && r[j] == s[j - 1]);
        }
    }
}

/// As classes com opção ficam em ordem crescente, abaixo de `n`.
proof fn lema_classes_crescentes(itens: &Itens, d: Destino, n: nat)
    requires
        n <= N_CLASSES,
    ensures
        forall|i: int, j: int|
            0 <= i < j < itens.classes_ate(d, n).len() ==> itens.classes_ate(d, n)[i] < itens.classes_ate(d, n)[j],
        forall|i: int| 0 <= i < itens.classes_ate(d, n).len() ==> itens.classes_ate(d, n)[i] < n,
    decreases n,
{
    if n > 0 {
        lema_classes_crescentes(itens, d, (n - 1) as nat);
        let a = itens.classes_ate(d, (n - 1) as nat);
        let c = (n - 1) as usize;
        if c == 0 || itens.tem_opcao(c, d) {
            assert(itens.classes_ate(d, n) == a.push(c));
            assert forall|i: int, j: int| 0 <= i < j < a.push(c).len() implies a.push(c)[i] < a.push(c)[j] by {
                if j == a.len() {
                    assert(a[i] < n - 1);
                } else {
                    assert(a.push(c)[i] == a[i] && a.push(c)[j] == a[j]);
                }
            }
        } else {
            assert(itens.classes_ate(d, n) == a);
        }
    }
}

/// Título do editor de slot.
pub open spec fn titulo_do_editor_spec(onde: Onde, i: nat) -> Seq<char> {
    match onde {
        Onde::Chris => "Chris · slot "@ + decimal(i + 1),
        Onde::Sheva => "Sheva · slot "@ + decimal(i + 1),
        Onde::Inventario => "Inventário · espaço "@ + decimal(i + 1),
    }
}

pub fn titulo_do_editor(onde: Onde, i: usize) -> (r: String)
    requires
        i < usize::MAX,
    ensures
        r@ == titulo_do_editor_spec(onde, i as nat),
{
    let mut r = match onde {
        Onde::Chris => String::from_str("Chris · slot "),
        Onde::Sheva => String::from_str("Sheva · slot "),
        Onde::Inventario => String::from_str("Inventário · espaço "),
    };
    let n = decimal_exec((i + 1) as u64);
    junta(&mut r, &n);
    r
}

/// A posição do ID atual entre as opções, ou 0.
pub fn posicao_ou_zero(ids: &Vec<u32>, atual: u32) -> (r: usize)
    ensures
        (exists|k: int| 0 <= k < ids@.len() && ids@[k] == atual) ==> r < ids@.len() && ids@[r as int] == atual
            && forall|k: int| 0 <= k < r ==> ids@[k] != atual,
        !(exists|k: int| 0 <= k < ids@.len() && ids@[k] == atual) ==> r == 0,
{
    let mut k: usize = 0;
    while k < ids.len()
        invariant
            k <= ids@.len(),
            forall|j: int| 0 <= j < k ==> ids@[j] != atual,
        decreases ids@.len() - k,
    {
        if ids[k] == atual {
            return k;
        }
        k += 1;
    }
    0
}

/// O que o campo de quantidade passa a mostrar ao trocar de classe: "0" na
/// classe vazia; "1" se estava em "0" ou em branco; senão fica como está.
pub open spec fn qtd_ao_trocar_spec(classe: usize, qtd: Seq<char>) -> Option<Seq<char>> {
    if classe == 0 {
        Some("0"@)
    } else if apara_spec(qtd) == "0"@ || qtd.len() == 0 {
        Some("1"@)
    } else {
        None
    }
}

pub fn qtd_ao_trocar(classe: usize, qtd: &str) -> (r: Option<String>)
    ensures
        match (r, qtd_ao_trocar_spec(classe, qtd@)) {
            (Some(a), Some(b)) => a@ == b,
            (None, None) => true,
            _ => false,
        },
{
    if classe == 0 {
        return Some(String::from_str("0"));
    }
    let c = caracteres(qtd);
    let t = apara(&c);
    let zero = caracteres("0");
    if crate::texto::mesmos_caracteres(&t, &zero) || c.len() == 0 {
        Some(String::from_str("1"))
    } else {
        None
    }
}

/// O que o editor grava no slot: vazio, ou o item escolhido com a
/// quantidade do campo (sem espaços nas pontas, até o máximo do slot; zero
/// num item vazio). `None` quando a quantidade não vale.
pub open spec fn valor_do_slot_spec(ids: Seq<u32>, item: i32, qtd: Seq<char>, onde: Onde, esvaziar: bool) -> Option<
    (u32, u32),
> {
    if esvaziar {
        Some((0u32, 0u32))
    } else {
        let k = if item < 0 {
            0
        } else {
            item as int
        };
        let id = if k < ids.len() {
            ids[k]
        } else {
            0u32
        };
        let max = if onde == Onde::Inventario {
            0xFFFFnat
        } else {
            u32::MAX as nat
        };
        match numero_ate(apara_spec(qtd), u64::MAX as nat) {
            Some(q) => if q <= max {
                Some((id, if id == 0 {
                    0u32
                } else {
                    q as u32
                }))
            } else {
                None
            },
            None => None,
        }
    }
}

pub fn valor_do_slot(ids: &Vec<u32>, item: i32, qtd: &str, onde: Onde, esvaziar: bool) -> (r: Option<(u32, u32)>)
    ensures
        r == valor_do_slot_spec(ids@, item, qtd@, onde, esvaziar),
{
    if esvaziar {
        return Some((0, 0));
    }
    let k: usize = if item < 0 {
        0
    } else {
        item as usize
    };
    let id = if k < ids.len() {
        ids[k]
    } else {
        0
    };
    let t = apara(&caracteres(qtd));
    let q = match le_u64(&t) {
        Some(q) => q,
        None => return None,
    };
    if q > onde.maximo() as u64 {
        return None;
    }
    Some((id, if id == 0 {
        0
    } else {
        q as u32
    }))
}

/// Grava no slot `i` o item e a quantidade escolhidos, se o slot existe.
pub fn grava_slot(a: &mut Retrato, onde: Onde, i: usize, id: u32, qtd: u32)
    ensures
        ({
            let (v0, v1) = match onde {
                Onde::Chris => (old(a).chris@, final(a).chris@),
                Onde::Sheva => (old(a).sheva@, final(a).sheva@),
                Onde::Inventario => (old(a).inventario@, final(a).inventario@),
            };
            v1 == if i < v0.len() {
                v0.update(i as int, Slot { slot: v0[i as int].slot, id, amount: qtd })
            } else {
                v0
            }
        }),
        onde != Onde::Chris ==> final(a).chris == old(a).chris,
        onde != Onde::Sheva ==> final(a).sheva == old(a).sheva,
        onde != Onde::Inventario ==> final(a).inventario == old(a).inventario,
        final(a).listas == old(a).listas,
        final(a).xbox == old(a).xbox,
{
    match onde {
        Onde::Chris => if i < a.chris.len() {
            let n = Slot { slot: a.chris[i].slot, id, amount: qtd };
            a.chris.set(i, n);
        },
        Onde::Sheva => if i < a.sheva.len() {
            let n = Slot { slot: a.sheva[i].slot, id, amount: qtd };
            a.sheva.set(i, n);
        },
        Onde::Inventario => if i < a.inventario.len() {
            let n = Slot { slot: a.inventario[i].slot, id, amount: qtd };
            a.inventario.set(i, n);
        },
    }
}

/// Ocupados entre os `n` primeiros espaços.
pub open spec fn ocupados(v: Seq<Slot>, n: nat) -> nat
    decreases n,
{
    if n == 0 {
        0
    } else {
        ocupados(v, (n - 1) as nat) + if v[n - 1].id != 0 {
            1nat
        } else {
            0nat
        }
    }
}

/// "84 espaços · 30 ocupados · mostrando 12"
pub open spec fn resumo_spec(v: Seq<Slot>, mostrando: nat) -> Seq<char> {
    decimal(v.len()) + " espaços · "@ + decimal(ocupados(v, v.len())) + " ocupados · mostrando "@ + decimal(
        mostrando,
    )
}

pub fn resumo_inventario(v: &Vec<Slot>, mostrando: usize) -> (r: String)
    ensures
        r@ == resumo_spec(v@, mostrando as nat),
{
    let mut n: u64 = 0;
    let mut i: usize = 0;
    while i < v.len()
        invariant
            i <= v@.len(),
            n == ocupados(v@, i as nat),
            n <= i,
        decreases v@.len() - i,
    {
        if v[i].id != 0 {
            n += 1;
        }
        i += 1;
    }
    let mut r = texto_de(&decimal_exec(v.len() as u64));
    r.append(" espaços · ");
    junta(&mut r, &decimal_exec(n));
    r.append(" ocupados · mostrando ");
    junta(&mut r, &decimal_exec(mostrando as u64));
    r
}

/// O aviso depois de salvar: gravado e conferido (e assinado), ou a
/// conferência falhou; depois o destino e o backup, se houve.
pub open spec fn texto_salvo_spec(ok: bool, assinado_por: Option<Seq<char>>, destino: Seq<char>, backup: Option<Seq<char>>) -> Seq<char> {
    let base = if !ok {
        "⚠ O save foi gravado, mas a conferência falhou. O backup está guardado."@
    } else {
        match assinado_por {
            Some(c) => "✔ Save gravado, assinado (console "@ + c + ") e conferido."@,
            None => "✔ Save gravado e conferido."@,
        }
    };
    let com_destino = base + "\n"@ + destino;
    match backup {
        Some(b) => com_destino + "\nBackup: "@ + b,
        None => com_destino,
    }
}

pub fn texto_salvo(ok: bool, assinado_por: Option<&str>, destino: &str, backup: Option<&str>) -> (r: String)
    ensures
        r@ == texto_salvo_spec(
            ok,
            match assinado_por {
                Some(c) => Some(c@),
                None => None,
            },
            destino@,
            match backup {
                Some(b) => Some(b@),
                None => None,
            },
        ),
{
    let mut r = if !ok {
        String::from_str("⚠ O save foi gravado, mas a conferência falhou. O backup está guardado.")
    } else {
        match assinado_por {
            Some(c) => String::from_str("✔ Save gravado, assinado (console ").concat(c).concat(") e conferido."),
            None => String::from_str("✔ Save gravado e conferido."),
        }
    };
    r.append("\n");
    r.append(destino);
    if let Some(b) = backup {
        r.append("\nBackup: ");
        r.append(b);
    }
    r
}

// ---------------------------------------------------------------- limpar os campos

/// Só os algarismos do texto.
pub open spec fn so_numeros_spec(s: Seq<char>) -> Seq<char>
    decreases s.len(),
{
    if s.len() == 0 {
        Seq::empty()
    } else {
        let a = so_numeros_spec(s.drop_last());
        if '0' <= s.last() <= '9' {
            a.push(s.last())
        } else {
            a
        }
    }
}

/// Maiúscula de um algarismo hexadecimal.
pub open spec fn hex_maiuscula(c: char) -> char {
    if 'a' <= c <= 'f' {
        ((c as u32) - 32) as char
    } else {
        c
    }
}

/// Só os algarismos hexadecimais do texto, em maiúsculas.
pub open spec fn so_hex_spec(s: Seq<char>) -> Seq<char>
    decreases s.len(),
{
    if s.len() == 0 {
        Seq::empty()
    } else {
        let a = so_hex_spec(s.drop_last());
        if e_hex(s.last()) {
            a.push(hex_maiuscula(s.last()))
        } else {
            a
        }
    }
}

/// O campo só com algarismos, quando ele tinha outra coisa.
pub fn so_numeros(s: &str) -> (r: Option<String>)
    ensures
        match r {
            Some(t) => t@ == so_numeros_spec(s@) && t@ != s@,
            None => so_numeros_spec(s@) == s@,
        },
{
    let c = caracteres(s);
    let mut v: Vec<char> = Vec::new();
    let mut i: usize = 0;
    assert(c@.subrange(0, 0) =~= Seq::<char>::empty());
    while i < c.len()
        invariant
            i <= c@.len(),
            c@ == s@,
            v@ == so_numeros_spec(c@.subrange(0, i as int)),
        decreases c@.len() - i,
    {
        assert(c@.subrange(0, i + 1).drop_last() =~= c@.subrange(0, i as int));
        let x = c[i];
        if '0' <= x && x <= '9' {
            v.push(x);
        }
        i += 1;
    }
    assert(c@.subrange(0, c@.len() as int) =~= c@);
    if crate::texto::mesmos_caracteres(&v, &c) {
        None
    } else {
        Some(texto_de(&v))
    }
}

/// O campo só com algarismos hexadecimais em maiúsculas, quando ele tinha
/// outra coisa.
pub fn so_hex(s: &str) -> (r: Option<String>)
    ensures
        match r {
            Some(t) => t@ == so_hex_spec(s@) && t@ != s@,
            None => so_hex_spec(s@) == s@,
        },
{
    let c = caracteres(s);
    let mut v: Vec<char> = Vec::new();
    let mut i: usize = 0;
    assert(c@.subrange(0, 0) =~= Seq::<char>::empty());
    while i < c.len()
        invariant
            i <= c@.len(),
            c@ == s@,
            v@ == so_hex_spec(c@.subrange(0, i as int)),
        decreases c@.len() - i,
    {
        assert(c@.subrange(0, i + 1).drop_last() =~= c@.subrange(0, i as int));
        let x = c[i];
        if '0' <= x && x <= '9' || 'A' <= x && x <= 'F' {
            v.push(x);
        } else if 'a' <= x && x <= 'f' {
            let m = ((x as u32) - 32) as u8 as char;
            assert(m == hex_maiuscula(x));
            v.push(m);
        }
        i += 1;
    }
    assert(c@.subrange(0, c@.len() as int) =~= c@);
    if crate::texto::mesmos_caracteres(&v, &c) {
        None
    } else {
        Some(texto_de(&v))
    }
}

// ---------------------------------------------------------------- listas

/// Marca ou desmarca a opção `opcao` da lista `lista`, quando as duas
/// existem; senão nada muda.
pub fn marcar(a: &mut Retrato, lista: i32, opcao: i32, valor: bool)
    ensures
        final(a).listas@.len() == old(a).listas@.len(),
        forall|k: int|
            0 <= k < old(a).listas@.len() && k != lista ==> #[trigger] final(a).listas@[k] == old(a).listas@[k],
        0 <= lista < old(a).listas@.len() ==> {
            let (l0, l1) = (old(a).listas@[lista as int], final(a).listas@[lista as int]);
            &&& l1.chave == l0.chave
            &&& l1.titulo == l0.titulo
            &&& l1.opcoes == l0.opcoes
            &&& l1.marcados@ == if 0 <= opcao < l0.marcados@.len() {
                l0.marcados@.update(opcao as int, valor)
            } else {
                l0.marcados@
            }
        },
        !(0 <= lista < old(a).listas@.len()) ==> final(a).listas == old(a).listas,
        final(a).xbox == old(a).xbox,
        final(a).inventario == old(a).inventario,
        final(a).chris == old(a).chris,
        final(a).sheva == old(a).sheva,
{
    if lista < 0 || lista as usize >= a.listas.len() {
        return;
    }
    let i = lista as usize;
    let mut l = a.listas.remove(i);
    if opcao >= 0 && (opcao as usize) < l.marcados.len() {
        l.marcados.set(opcao as usize, valor);
    }
    a.listas.insert(i, l);
}

/// Marca ou desmarca todas as opções da lista `lista`, quando ela existe;
/// senão nada muda.
pub fn marcar_todos(a: &mut Retrato, lista: i32, valor: bool)
    ensures
        final(a).listas@.len() == old(a).listas@.len(),
        forall|k: int|
            0 <= k < old(a).listas@.len() && k != lista ==> #[trigger] final(a).listas@[k] == old(a).listas@[k],
        0 <= lista < old(a).listas@.len() ==> {
            let (l0, l1) = (old(a).listas@[lista as int], final(a).listas@[lista as int]);
            &&& l1.chave == l0.chave
            &&& l1.titulo == l0.titulo
            &&& l1.opcoes == l0.opcoes
            &&& l1.marcados@ == Seq::new(l0.marcados@.len(), |j: int| valor)
        },
        !(0 <= lista < old(a).listas@.len()) ==> final(a).listas == old(a).listas,
        final(a).xbox == old(a).xbox,
        final(a).inventario == old(a).inventario,
        final(a).chris == old(a).chris,
        final(a).sheva == old(a).sheva,
{
    if lista < 0 || lista as usize >= a.listas.len() {
        return;
    }
    let i = lista as usize;
    let mut l = a.listas.remove(i);
    let ghost m0 = l.marcados@;
    let ghost l0 = l;
    let mut j: usize = 0;
    while j < l.marcados.len()
        invariant
            l.chave == l0.chave,
            l.titulo == l0.titulo,
            l.opcoes == l0.opcoes,
            j <= l.marcados@.len(),
            l.marcados@.len() == m0.len(),
            forall|k: int| 0 <= k < j ==> l.marcados@[k] == valor,
        decreases l.marcados@.len() - j,
    {
        l.marcados.set(j, valor);
        j += 1;
    }
    assert(l.marcados@ =~= Seq::new(m0.len(), |k: int| valor));
    a.listas.insert(i, l);
}

/// A lista mostrada depois de abrir um save: a mesma, se o save a tem;
/// senão a primeira.
pub fn lista_mostrada(atual: i32, n: usize) -> (r: i32)
    ensures
        r == if 0 <= atual < n {
            atual
        } else {
            0i32
        },
{
    if atual >= 0 && (atual as usize) < n {
        atual
    } else {
        0
    }
}

// ---------------------------------------------------------------- salvar e confirmar

/// Salvar só acontece com todos os campos válidos e, por cima do mesmo
/// arquivo, só se há alguma mudança ("salvar como" grava mesmo sem).
pub fn pode_gravar(c: &Campos, o: &Retrato, a: &Retrato, como: bool) -> (r: bool)
    ensures
        r == (valido_spec(c, o.xbox) && (como || sujo_spec(c, o, a))),
{
    let (sujo, valido, _) = atualizar(c, o, a);
    valido && (como || sujo)
}

/// Nome da cópia de segurança: a plataforma, a hora e o nome do arquivo.
pub open spec fn nome_do_backup_spec(pc: bool, carimbo: Seq<char>, nome: Seq<char>) -> Seq<char> {
    (if pc {
        "pc"@
    } else {
        "xbox"@
    }) + "_"@ + carimbo + "_"@ + nome
}

pub fn nome_do_backup(pc: bool, carimbo: &str, nome: &str) -> (r: String)
    ensures
        r@ == nome_do_backup_spec(pc, carimbo@, nome@),
{
    let mut r = if pc {
        String::from_str("pc")
    } else {
        String::from_str("xbox")
    };
    r.append("_");
    r.append(carimbo);
    r.append("_");
    r.append(nome);
    r
}

/// Uma ação que pode perder alterações ainda não gravadas.
pub enum Pendente {
    Abrir,
    AbrirCaminho(String),
    Recarregar,
    Sair,
}

/// O que perguntar antes de uma ação: nada quando não há alterações (a ação
/// vai direto); senão o título, o texto e o botão de confirmação.
pub fn confirmacao(acao: &Pendente, sujo: bool) -> (r: Option<(&'static str, &'static str, &'static str)>)
    ensures
        !sujo ==> r is None,
        sujo ==> (r matches Some((t, x, b)) && match acao {
            Pendente::Sair => {
                &&& t@ == "Sair sem salvar?"@
                &&& x@ == "Existem alterações que ainda não foram gravadas no save."@
                &&& b@ == "SAIR SEM SALVAR"@
            },
            Pendente::Recarregar => {
                &&& t@ == "Recarregar o save?"@
                &&& x@ == "As alterações que ainda não foram gravadas serão perdidas."@
                &&& b@ == "RECARREGAR"@
            },
            _ => {
                &&& t@ == "Abrir outro save?"@
                &&& x@ == "Existem alterações que ainda não foram gravadas no save."@
                &&& b@ == "ABRIR MESMO ASSIM"@
            },
        }),
{
    if !sujo {
        return None;
    }
    match acao {
        Pendente::Sair => Some(
            ("Sair sem salvar?", "Existem alterações que ainda não foram gravadas no save.", "SAIR SEM SALVAR"),
        ),
        Pendente::Recarregar => Some(
            ("Recarregar o save?", "As alterações que ainda não foram gravadas serão perdidas.", "RECARREGAR"),
        ),
        _ => Some(
            ("Abrir outro save?", "Existem alterações que ainda não foram gravadas no save.", "ABRIR MESMO ASSIM"),
        ),
    }
}

/// Por quantos segundos um aviso fica no rodapé: 4 para informação, 9
/// para sucesso ou erro.
pub fn segundos_do_aviso(tipo: i32) -> (r: u64)
    ensures
        r == if tipo == 0 {
            4u64
        } else {
            9u64
        },
{
    if tipo == 0 {
        4
    } else {
        9
    }
}

// ---------------------------------------------------------------- desfazer

proof fn lema_listas_iguais(a: Seq<ListaDados>, n: nat)
    ensures
        listas_mudadas(a, a, n).len() == 0,
    decreases n,
{
    if n > 0 {
        lema_listas_iguais(a, (n - 1) as nat);
    }
}

proof fn lema_slots_iguais(a: Seq<Slot>, n: nat)
    ensures
        slots_mudados(a, a, n).len() == 0,
    decreases n,
{
    if n > 0 {
        lema_slots_iguais(a, (n - 1) as nat);
    }
}

/// O número escrito em decimal é lido de volta como `u32`.
proof fn lema_campo_decimal(g: u32)
    ensures
        campo_u32(decimal(g as nat)) == Some(g),
{
    lema_decimal(g as nat);
    let s = decimal(g as nat);
    assert(crate::texto::e_digito(s[0]));
}

/// Desfazer volta ao que estava no arquivo: com os campos mostrando o save
/// como ele foi aberto (números em decimal, a data como o editor a escreve,
/// os IDs como lidos) e as listas e slots sem edição, não há mudança a
/// salvar.
pub proof fn lei_sem_edicao_nada_a_salvar(c: &Campos, o: &Retrato)
    requires
        c.gold@ == decimal(o.gold as nat),
        c.points@ == decimal(o.points as nat),
        c.data@ == data_texto_spec(o.data@),
        data_valida(o.data),
        c.profile_id@ == o.profile_id@,
        c.device_id@ == o.device_id@,
        c.steam_id@ == o.steam_id@,
    ensures
        !sujo_spec(c, o, o),
{
    lema_campo_decimal(o.gold);
    lema_campo_decimal(o.points);
    lei_data_ida_e_volta(o.data);
    lema_listas_iguais(o.listas@, o.listas@.len());
    lema_slots_iguais(o.inventario@, o.inventario@.len());
    lema_slots_iguais(o.chris@, o.chris@.len());
    lema_slots_iguais(o.sheva@, o.sheva@.len());
}

} // verus!
