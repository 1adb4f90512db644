//! O que a tela mostra: a descrição do save aberto, datas e números como
//! texto e os filtros do inventário.
use vstd::prelude::*;
use vstd::string::StringExecFns;
use crate::interno::{data_valida, Slot};
use crate::itens::{classe_de, classe_nome_spec, classe_spec, nome_classe_spec, nome_da_classe, Itens, N_CLASSES};
use crate::save::Info;
use crate::texto::{apara, apara_spec, caracteres, com_zeros, com_zeros_exec, decimal, decimal_exec, e_digito, digito, junta, le_u32, valor_digito, numero_ate, sem_espaco_final, sem_espaco_inicial, so_digitos, texto_de, valor_dec};

verus! {

/// Uma lista de desbloqueios como o save a descreve.
pub struct ListaDados {
    pub chave: String,
    pub titulo: String,
    pub opcoes: Vec<String>,
    pub marcados: Vec<bool>,
}

/// Tudo o que o save aberto informou, mais o keyvault achado.
pub struct Retrato {
    pub caminho: String,
    pub xbox: bool,
    pub gold: u32,
    pub points: u32,
    pub data: [u32; 6],
    pub checksum_salvo: String,
    pub checksum_real: String,
    pub checksum_ok: bool,
    pub listas: Vec<ListaDados>,
    // Xbox
    pub profile_id: String,
    pub device_id: String,
    pub assinatura_ok: bool,
    pub assinado_por: String,
    pub inventario: Vec<Slot>,
    pub chris: Vec<Slot>,
    pub sheva: Vec<Slot>,
    // PC
    pub steam_id: String,
    // ambiente
    pub keyvault: Option<String>,
}

/// Complemento das notas sobre a gravação.
pub open spec fn nota_backup() -> Seq<char> {
    " Antes de gravar por cima, uma cópia vai para a pasta backups."@
}

impl Retrato {
    /// O retrato do que `Save::info` informou.
    pub fn de_info(info: Info, keyvault: Option<String>) -> (r: Retrato)
        ensures
            r.caminho == info.caminho,
            r.xbox == info.xbox,
            r.gold == info.gold,
            r.points == info.points,
            r.data == info.data,
            r.checksum_salvo == info.checksum_salvo,
            r.checksum_real == info.checksum_real,
            r.checksum_ok == info.checksum_ok,
            r.listas == info.listas,
            r.profile_id == info.profile_id,
            r.device_id == info.device_id,
            r.assinatura_ok == info.assinatura_ok,
            r.assinado_por == info.assinado_por,
            r.inventario == info.inventario,
            r.chris == info.chris,
            r.sheva == info.sheva,
            r.steam_id == info.steam_id,
            r.keyvault == keyvault,
    {
        Retrato {
            caminho: info.caminho,
            xbox: info.xbox,
            gold: info.gold,
            points: info.points,
            data: info.data,
            checksum_salvo: info.checksum_salvo,
            checksum_real: info.checksum_real,
            checksum_ok: info.checksum_ok,
            listas: info.listas,
            profile_id: info.profile_id,
            device_id: info.device_id,
            assinatura_ok: info.assinatura_ok,
            assinado_por: info.assinado_por,
            inventario: info.inventario,
            chris: info.chris,
            sheva: info.sheva,
            steam_id: info.steam_id,
            keyvault,
        }
    }

    /// A plataforma do save, para o cabeçalho.
    pub fn plataforma(&self) -> (r: &'static str)
        ensures
            r@ == if self.xbox {
                "Xbox 360 · Title ID 434307D4"@
            } else {
                "PC · Steam"@
            },
    {
        if self.xbox {
            "Xbox 360 · Title ID 434307D4"
        } else {
            "PC · Steam"
        }
    }

    pub open spec fn assinatura_spec(&self) -> Seq<char> {
        if self.assinatura_ok {
            "válida · console "@ + self.assinado_por@
        } else if self.assinado_por@.len() == 0 {
            "inválida · sem console"@
        } else {
            "inválida · "@ + self.assinado_por@
        }
    }

    /// A situação da assinatura do pacote e quem assinou.
    pub fn assinatura(&self) -> (r: String)
        ensures
            r@ == self.assinatura_spec(),
    {
        if self.assinatura_ok {
            String::from_str("válida · console ").concat(self.assinado_por.as_str())
        } else if self.assinado_por.as_str().is_empty() {
            String::from_str("inválida · sem console")
        } else {
            String::from_str("inválida · ").concat(self.assinado_por.as_str())
        }
    }

    pub open spec fn nota_spec(&self) -> Seq<char> {
        if !self.xbox {
            "Save de PC: ao gravar, o checksum é recalculado e o arquivo é cifrado de novo."@ + nota_backup()
        } else {
            match self.keyvault {
                Some(kv) => "Assinatura automática ativada com "@ + kv@ + ": o save sai pronto para o Xbox."@
                    + nota_backup(),
                None => "Sem keyvault (console/kv.bin ao lado do programa): o save é gravado com checksum e hashes, mas sem assinatura — assine no Horizon."@
                    + nota_backup(),
            }
        }
    }

    /// O que acontece ao gravar, conforme a plataforma e o keyvault.
    pub fn nota(&self) -> (r: String)
        ensures
            r@ == self.nota_spec(),
    {
        let backup = " Antes de gravar por cima, uma cópia vai para a pasta backups.";
        if !self.xbox {
            return String::from_str(
                "Save de PC: ao gravar, o checksum é recalculado e o arquivo é cifrado de novo.",
            ).concat(backup);
        }
        match &self.keyvault {
            Some(kv) => String::from_str("Assinatura automática ativada com ").concat(kv.as_str()).concat(
                ": o save sai pronto para o Xbox.",
            ).concat(backup),
            None => String::from_str(
                "Sem keyvault (console/kv.bin ao lado do programa): o save é gravado com checksum e hashes, mas sem assinatura — assine no Horizon.",
            ).concat(backup),
        }
    }
}

// ---------------------------------------------------------------- números

/// `n` com os milhares separados por ponto: 9794 vira "9.794".
pub open spec fn milhar_spec(n: nat) -> Seq<char>
    decreases n,
{
    if n < 1000 {
        decimal(n)
    } else {
        milhar_spec(n / 1000) + seq!['.'] + com_zeros(n % 1000, 3)
    }
}

pub fn milhar(n: u64) -> (r: String)
    ensures
        r@ == milhar_spec(n as nat),
    decreases n,
{
    if n < 1000 {
        let d = decimal_exec(n);
        return texto_de(&d);
    }
    let mut r = milhar(n / 1000);
    r.append(".");
    let z = com_zeros_exec(n % 1000, 3);
    junta(&mut r, &z);
    proof {
        assert("."@ == seq!['.']) by {
            reveal_strlit(".");
        }
    }
    r
}

// ---------------------------------------------------------------- datas

/// A data como o editor mostra: "dd/mm/aaaa hh:mm:ss" (o vetor é ano, mês,
/// dia, hora, minuto, segundo).
pub open spec fn data_texto_spec(d: Seq<u32>) -> Seq<char> {
    com_zeros(d[2] as nat, 2) + seq!['/'] + com_zeros(d[1] as nat, 2) + seq!['/'] + com_zeros(d[0] as nat, 4)
        + seq![' '] + com_zeros(d[3] as nat, 2) + seq![':'] + com_zeros(d[4] as nat, 2) + seq![':']
        + com_zeros(d[5] as nat, 2)
}

fn junta_char(r: &mut Vec<char>, c: char)
    ensures
        final(r)@ == old(r)@.push(c),
{
    r.push(c);
}

fn junta_vec(r: &mut Vec<char>, v: &Vec<char>)
    ensures
        final(r)@ == old(r)@ + v@,
{
    let mut i: usize = 0;
    while i < v.len()
        invariant
            i <= v@.len(),
            r@ == old(r)@ + v@.subrange(0, i as int),
        decreases v@.len() - i,
    {
        r.push(v[i]);
        i += 1;
        assert(r@ =~= old(r)@ + v@.subrange(0, i as int));
    }
    assert(v@.subrange(0, v@.len() as int) =~= v@);
}

pub fn data_texto(d: &[u32; 6]) -> (r: String)
    ensures
        r@ == data_texto_spec(d@),
{
    let mut v: Vec<char> = Vec::new();
    junta_vec(&mut v, &com_zeros_exec(d[2] as u64, 2));
    junta_char(&mut v, '/');
    junta_vec(&mut v, &com_zeros_exec(d[1] as u64, 2));
    junta_char(&mut v, '/');
    junta_vec(&mut v, &com_zeros_exec(d[0] as u64, 4));
    junta_char(&mut v, ' ');
    junta_vec(&mut v, &com_zeros_exec(d[3] as u64, 2));
    junta_char(&mut v, ':');
    junta_vec(&mut v, &com_zeros_exec(d[4] as u64, 2));
    junta_char(&mut v, ':');
    junta_vec(&mut v, &com_zeros_exec(d[5] as u64, 2));
    assert(v@ =~= data_texto_spec(d@));
    texto_de(&v)
}

/// O texto cortado no primeiro `c` (`str::split_once`).
pub open spec fn corte(s: Seq<char>, c: char) -> Option<(Seq<char>, Seq<char>)>
    decreases s.len(),
{
    if s.len() == 0 {
        None
    } else if s[0] == c {
        Some((Seq::empty(), s.drop_first()))
    } else {
        match corte(s.drop_first(), c) {
            Some((a, b)) => Some((seq![s[0]] + a, b)),
            None => None,
        }
    }
}

/// Os pedaços do texto entre os `c` (`str::split`).
pub open spec fn partes(s: Seq<char>, c: char) -> Seq<Seq<char>>
    decreases s.len(),
{
    if s.len() == 0 {
        seq![Seq::empty()]
    } else {
        let p = partes(s.drop_last(), c);
        if s.last() == c {
            p.push(Seq::empty())
        } else {
            p.update(p.len() - 1, p.last().push(s.last()))
        }
    }
}

proof fn lema_partes_tam(s: Seq<char>, c: char)
    ensures
        partes(s, c).len() >= 1,
    decreases s.len(),
{
    if s.len() > 0 {
        lema_partes_tam(s.drop_last(), c);
    }
}

/// Cada pedaço, sem espaços nas pontas, lido como `u32`; `None` se algum
/// não for um número.
pub open spec fn numeros_spec(s: Seq<char>, c: char) -> Option<Seq<u32>> {
    let p = partes(s, c);
    if forall|i: int| 0 <= i < p.len() ==> (#[trigger] numero_ate(apara_spec(p[i]), u32::MAX as nat)) is Some {
        Some(Seq::new(p.len(), |i: int| numero_ate(apara_spec(p[i]), u32::MAX as nat)->Some_0 as u32))
    } else {
        None
    }
}

fn numeros(s: &Vec<char>, c: char) -> (r: Option<Vec<u32>>)
    ensures
        match (r, numeros_spec(s@, c)) {
            (Some(v), Some(w)) => v@ == w,
            (None, None) => true,
            _ => false,
        },
{
    let mut cur: Vec<char> = Vec::new();
    let mut vals: Vec<u32> = Vec::new();
    let mut ok = true;
    let mut i: usize = 0;
    assert(s@.subrange(0, 0) =~= Seq::<char>::empty());
    while i < s.len()
        invariant
            i <= s@.len(),
            ({
                let p = partes(s@.subrange(0, i as int), c);
                &&& p.len() >= 1
                &&& cur@ == p.last()
                &&& ok == forall|j: int|
                    0 <= j < p.len() - 1 ==> (#[trigger] numero_ate(apara_spec(p[j]), u32::MAX as nat)) is Some
                &&& ok ==> vals@.len() == p.len() - 1
                &&& ok ==> forall|j: int|
                    0 <= j < p.len() - 1 ==> vals@[j] == numero_ate(apara_spec(#[trigger] p[j]), u32::MAX as nat)->Some_0
            }),
        decreases s@.len() - i,
    {
        let ghost p = partes(s@.subrange(0, i as int), c);
        let ch = s[i];
        assert(s@.subrange(0, i + 1).drop_last() =~= s@.subrange(0, i as int));
        assert(s@.subrange(0, i + 1).last() == ch);
        if ch == c {
            let t = apara(&cur);
            match le_u32(&t) {
                Some(v) => {
                    if ok {
                        vals.push(v);
                    }
                },
                None => {
                    ok = false;
                },
            }
            cur = Vec::new();
            proof {
                let q = partes(s@.subrange(0, i + 1), c);
                assert(q == p.push(Seq::empty()));
                assert(q[p.len() - 1] == p.last());
                assert forall|j: int| 0 <= j < p.len() - 1 implies q[j] == p[j] by {}
            }
        } else {
            cur.push(ch);
            proof {
                let q = partes(s@.subrange(0, i + 1), c);
                assert(q == p.update(p.len() - 1, p.last().push(ch)));
                assert forall|j: int| 0 <= j < p.len() - 1 implies q[j] == p[j] by {}
            }
        }
        i += 1;
    }
    assert(s@.subrange(0, s@.len() as int) =~= s@);
    let ghost p = partes(s@, c);
    let t = apara(&cur);
    match le_u32(&t) {
        Some(v) => {
            if ok {
                vals.push(v);
                assert(vals@ =~= numeros_spec(s@, c)->Some_0);
                Some(vals)
            } else {
                None
            }
        },
        None => {
            assert(numero_ate(apara_spec(p[p.len() - 1]), u32::MAX as nat) is None);
            None
        },
    }
}

/// `c` nunca aparece antes de `k`.
proof fn lema_corte_acha(s: Seq<char>, c: char, k: int)
    requires
        0 <= k < s.len(),
        s[k] == c,
        forall|j: int| 0 <= j < k ==> s[j] != c,
    ensures
        corte(s, c) == Some((s.subrange(0, k), s.subrange(k + 1, s.len() as int))),
    decreases k,
{
    if k > 0 {
        lema_corte_acha(s.drop_first(), c, k - 1);
        assert(seq![s[0]] + s.drop_first().subrange(0, k - 1) =~= s.subrange(0, k));
        assert(s.drop_first().subrange(k, s.len() - 1) =~= s.subrange(k + 1, s.len() as int));
    } else {
        assert(s.subrange(0, 0) =~= Seq::<char>::empty());
        assert(s.drop_first() =~= s.subrange(1, s.len() as int));
    }
}

proof fn lema_corte_nada(s: Seq<char>, c: char)
    requires
        forall|j: int| 0 <= j < s.len() ==> s[j] != c,
    ensures
        corte(s, c) is None,
    decreases s.len(),
{
    if s.len() > 0 {
        lema_corte_nada(s.drop_first(), c);
    }
}

/// A data que o texto "dd/mm/aaaa hh:mm:ss" (segundos opcionais) descreve,
/// como ano, mês, dia, hora, minuto e segundo, se for uma data aceita.
pub open spec fn data_de_texto_spec(t: Seq<char>) -> Option<Seq<u32>> {
    let t1 = apara_spec(t);
    let (dia, hora) = match corte(t1, ' ') {
        Some((a, b)) => (a, b),
        None => (t1, "00:00:00"@),
    };
    match (numeros_spec(dia, '/'), numeros_spec(apara_spec(hora), ':')) {
        (Some(d), Some(h)) => if d.len() != 3 || h.len() < 2 || h.len() > 3 {
            None
        } else {
            let r = seq![d[2], d[1], d[0], h[0], h[1], if h.len() == 3 {
                h[2]
            } else {
                0u32
            }];
            if 2000 <= r[0] <= 2099 && 1 <= r[1] <= 12 && 1 <= r[2] <= 31 && r[3] <= 23 && r[4] <= 59
                && r[5] <= 59 {
                Some(r)
            } else {
                None
            }
        },
        _ => None,
    }
}

/// Lê "dd/mm/aaaa hh:mm:ss" (segundos opcionais) e devolve
/// [ano, mês, dia, hora, minuto, segundo], ou `None` se o texto não for uma
/// data aceita.
pub fn data_de_texto(t: &str) -> (r: Option<[u32; 6]>)
    ensures
        match (r, data_de_texto_spec(t@)) {
            (Some(a), Some(s)) => a@ == s,
            (None, None) => true,
            _ => false,
        },
{
    let c = caracteres(t);
    let t1 = apara(&c);
    let n = t1.len();
    let mut k: usize = 0;
    while k < n && t1[k] != ' '
        invariant
            n == t1@.len(),
            k <= n,
            forall|j: int| 0 <= j < k ==> t1@[j] != ' ',
        decreases n - k,
    {
        k += 1;
    }
    let mut dia: Vec<char> = Vec::new();
    let mut hora: Vec<char> = Vec::new();
    if k < n {
        proof {
            lema_corte_acha(t1@, ' ', k as int);
        }
        let mut i: usize = 0;
        while i < k
            invariant
                k < n == t1@.len(),
                i <= k,
                dia@ == t1@.subrange(0, i as int),
            decreases k - i,
        {
            dia.push(t1[i]);
            i += 1;
            assert(dia@ =~= t1@.subrange(0, i as int));
        }
        let mut j: usize = k + 1;
        while j < n
            invariant
                k < n == t1@.len(),
                k + 1 <= j <= n,
                hora@ == t1@.subrange(k + 1, j as int),
            decreases n - j,
        {
            hora.push(t1[j]);
            j += 1;
            assert(hora@ =~= t1@.subrange(k + 1, j as int));
        }
    } else {
        proof {
            lema_corte_nada(t1@, ' ');
        }
        dia = t1;
        hora = caracteres("00:00:00");
    }
    let d = match numeros(&dia, '/') {
        Some(d) => d,
        None => return None,
    };
    let ht = apara(&hora);
    let h = match numeros(&ht, ':') {
        Some(h) => h,
        None => return None,
    };
    if d.len() != 3 || h.len() < 2 || h.len() > 3 {
        return None;
    }
    let seg = if h.len() == 3 {
        h[2]
    } else {
        0u32
    };
    let r = [d[2], d[1], d[0], h[0], h[1], seg];
    assert(r@ =~= seq![d@[2], d@[1], d@[0], h@[0], h@[1], seg]);
    if 2000 <= r[0] && r[0] <= 2099 && 1 <= r[1] && r[1] <= 12 && 1 <= r[2] && r[2] <= 31 && r[3] <= 23
        && r[4] <= 59 && r[5] <= 59 {
        Some(r)
    } else {
        None
    }
}

// ---------------------------------------------------------------- listas e slots na tela

/// Uma lista de desbloqueios como a tela mostra: título, "marcadas/total" e
/// cada opção com a sua marca.
pub struct ListaUi {
    pub titulo: String,
    pub contagem: String,
    pub opcoes: Vec<(String, bool)>,
}

/// Quantas marcas estão ligadas entre as `n` primeiras.
pub open spec fn ligadas(m: Seq<bool>, n: nat) -> nat
    decreases n,
{
    if n == 0 {
        0
    } else {
        ligadas(m, (n - 1) as nat) + if m[n - 1] {
            1nat
        } else {
            0nat
        }
    }
}

pub open spec fn lista_ui_ok(u: &ListaUi, l: &ListaDados) -> bool {
    let n = menor_nat(l.opcoes@.len(), l.marcados@.len());
    &&& u.titulo@ == l.titulo@
    &&& u.contagem@ == decimal(ligadas(l.marcados@, l.marcados@.len())) + seq!['/'] + decimal(l.opcoes@.len())
    &&& u.opcoes@.len() == n
    &&& forall|i: int|
        0 <= i < n ==> (#[trigger] u.opcoes@[i]).0@ == l.opcoes@[i]@ && u.opcoes@[i].1 == l.marcados@[i]
}

pub open spec fn menor_nat(a: nat, b: nat) -> nat {
    if a < b {
        a
    } else {
        b
    }
}

fn lista_ui(l: &ListaDados) -> (r: ListaUi)
    ensures
        lista_ui_ok(&r, l),
{
    let mut conta: u64 = 0;
    let mut i: usize = 0;
    while i < l.marcados.len()
        invariant
            i <= l.marcados@.len(),
            conta == ligadas(l.marcados@, i as nat),
            conta <= i,
        decreases l.marcados@.len() - i,
    {
        if l.marcados[i] {
            conta += 1;
        }
        i += 1;
    }
    let mut c = decimal_exec(conta);
    c.push('/');
    let total = decimal_exec(l.opcoes.len() as u64);
    junta_vec(&mut c, &total);
    let n = if l.opcoes.len() < l.marcados.len() {
        l.opcoes.len()
    } else {
        l.marcados.len()
    };
    let mut opcoes: Vec<(String, bool)> = Vec::new();
    let mut k: usize = 0;
    while k < n
        invariant
            n == menor_nat(l.opcoes@.len(), l.marcados@.len()),
            k <= n,
            opcoes@.len() == k,
            forall|j: int|
                0 <= j < k ==> (#[trigger] opcoes@[j]).0@ == l.opcoes@[j]@ && opcoes@[j].1 == l.marcados@[j],
        decreases n - k,
    {
        opcoes.push((l.opcoes[k].clone(), l.marcados[k]));
        k += 1;
    }
    assert(c@ =~= decimal(ligadas(l.marcados@, l.marcados@.len())) + seq!['/'] + decimal(l.opcoes@.len()));
    ListaUi { titulo: l.titulo.clone(), contagem: texto_de(&c), opcoes }
}

/// As listas de desbloqueio como a tela mostra.
pub fn listas_ui(listas: &Vec<ListaDados>) -> (r: Vec<ListaUi>)
    ensures
        r@.len() == listas@.len(),
        forall|i: int| 0 <= i < listas@.len() ==> lista_ui_ok(&r@[i], &listas@[i]),
{
    let mut r: Vec<ListaUi> = Vec::new();
    let mut i: usize = 0;
    while i < listas.len()
        invariant
            i <= listas@.len(),
            r@.len() == i,
            forall|j: int| 0 <= j < i ==> lista_ui_ok(&r@[j], &listas@[j]),
        decreases listas@.len() - i,
    {
        r.push(lista_ui(&listas[i]));
        i += 1;
    }
    r
}

/// Um slot como a tela mostra.
pub struct SlotVisivel {
    pub numero: i32,
    pub nome: String,
    pub classe: String,
    pub qtd: String,
    pub vazio: bool,
    pub mudou: bool,
}

/// A quantidade como a tela mostra: nada num slot vazio.
pub open spec fn qtd_spec(s: Slot) -> Seq<char> {
    if s.id == 0 {
        Seq::empty()
    } else {
        "× "@ + milhar_spec(s.amount as nat)
    }
}

pub open spec fn slot_visivel_ok(v: &SlotVisivel, itens: &Itens, s: Slot, o: Slot) -> bool {
    &&& v.numero == ((s.slot as i32) + 1) as i32
    &&& v.nome@ == itens.nome_spec(s.id)
    &&& v.classe@ == nome_classe_spec(s.id)
    &&& v.qtd@ == qtd_spec(s)
    &&& v.vazio == (s.id == 0)
    &&& v.mudou == (s != o)
}

fn numero_do_slot(slot: usize) -> (r: i32)
    ensures
        r == ((slot as i32) + 1) as i32,
{
    let x = slot as i32;
    assert(x.wrapping_add(1) == ((x as int) + 1) as i32) by (bit_vector);
    x.wrapping_add(1)
}

/// Os slots do personagem como a tela mostra, comparados com o arquivo.
pub fn slots_ui(itens: &Itens, atuais: &Vec<Slot>, originais: &Vec<Slot>) -> (r: Vec<SlotVisivel>)
    ensures
        r@.len() == menor_nat(atuais@.len(), originais@.len()),
        forall|i: int| 0 <= i < r@.len() ==> slot_visivel_ok(&r@[i], itens, atuais@[i], originais@[i]),
{
    let n = if atuais.len() < originais.len() {
        atuais.len()
    } else {
        originais.len()
    };
    let mut r: Vec<SlotVisivel> = Vec::new();
    let mut i: usize = 0;
    while i < n
        invariant
            n == menor_nat(atuais@.len(), originais@.len()),
            i <= n,
            r@.len() == i,
            forall|j: int| 0 <= j < i ==> slot_visivel_ok(&r@[j], itens, atuais@[j], originais@[j]),
        decreases n - i,
    {
        let s = &atuais[i];
        let qtd = if s.id == 0 {
            String::new()
        } else {
            String::from_str("× ").concat(milhar(s.amount as u64).as_str())
        };
        r.push(
            SlotVisivel {
                numero: numero_do_slot(s.slot),
                nome: itens.nome(s.id),
                classe: Itens::nome_classe(s.id).to_owned(),
                qtd,
                vazio: s.id == 0,
                mudou: *s != originais[i],
            },
        );
        i += 1;
    }
    r
}

/// As células de uma linha da tabela do inventário: o número do espaço
/// (com um ponto se mudou), o nome, a classe e a quantidade.
pub open spec fn linha_ok(l: Seq<String>, itens: &Itens, i: int, s: Slot, o: Slot) -> bool {
    &&& l.len() == 4
    &&& l[0]@ == decimal((i + 1) as nat) + if s != o {
        "  •"@
    } else {
        Seq::empty()
    }
    &&& l[1]@ == itens.nome_spec(s.id)
    &&& l[2]@ == nome_classe_spec(s.id)
    &&& l[3]@ == if s.id == 0 {
        Seq::empty()
    } else {
        milhar_spec(s.amount as nat)
    }
}

/// Linhas da tabela do inventário para os espaços escolhidos pelo filtro.
pub fn tabela_ui(itens: &Itens, atuais: &Vec<Slot>, originais: &Vec<Slot>, visiveis: &Vec<usize>) -> (r: Vec<Vec<String>>)
    requires
        forall|k: int| 0 <= k < visiveis@.len() ==> #[trigger] visiveis@[k] < atuais@.len() && visiveis@[k] < originais@.len(),
    ensures
        r@.len() == visiveis@.len(),
        forall|k: int|
            0 <= k < visiveis@.len() ==> linha_ok(
                (#[trigger] r@[k])@,
                itens,
                visiveis@[k] as int,
                atuais@[visiveis@[k] as int],
                originais@[visiveis@[k] as int],
            ),
{
    let mut r: Vec<Vec<String>> = Vec::new();
    let mut k: usize = 0;
    while k < visiveis.len()
        invariant
            forall|q: int| 0 <= q < visiveis@.len() ==> #[trigger] visiveis@[q] < atuais@.len() && visiveis@[q] < originais@.len(),
            k <= visiveis@.len(),
            r@.len() == k,
            forall|q: int|
                0 <= q < k ==> linha_ok(
                    (#[trigger] r@[q])@,
                    itens,
                    visiveis@[q] as int,
                    atuais@[visiveis@[q] as int],
                    originais@[visiveis@[q] as int],
                ),
        decreases visiveis@.len() - k,
    {
        let i = visiveis[k];
        let tam = atuais.len();
        assert(i < tam);
        let i1 = i + 1;
        let s = &atuais[i];
        let mudou = *s != originais[i];
        let mut num = texto_de(&decimal_exec(i1 as u64));
        if mudou {
            num.append("  •");
        } else {
            proof {
                assert(num@ + Seq::<char>::empty() =~= num@);
            }
        }
        let qtd = if s.id == 0 {
            String::new()
        } else {
            milhar(s.amount as u64)
        };
        let linha = vec![num, itens.nome(s.id), Itens::nome_classe(s.id).to_owned(), qtd];
        r.push(linha);
        k += 1;
    }
    r
}

/// Os nomes dos filtros do inventário: todos, só os ocupados e cada classe.
pub fn nomes_filtros() -> (r: Vec<String>)
    ensures
        r@.len() == N_CLASSES + 1,
        r@[0]@ == "Todos os espaços"@,
        r@[1]@ == "Só os ocupados"@,
        forall|c: int| 1 <= c < N_CLASSES ==> (#[trigger] r@[c + 1])@ == classe_nome_spec(c),
{
    let mut r: Vec<String> = vec!["Todos os espaços".to_owned(), "Só os ocupados".to_owned()];
    let mut c: usize = 1;
    while c < N_CLASSES
        invariant
            1 <= c <= N_CLASSES,
            r@.len() == c + 1,
            r@[0]@ == "Todos os espaços"@,
            r@[1]@ == "Só os ocupados"@,
            forall|q: int| 1 <= q < c ==> (#[trigger] r@[q + 1])@ == classe_nome_spec(q),
        decreases N_CLASSES - c,
    {
        let nome = match nome_da_classe(c) {
            Some(n) => n,
            None => "",
        };
        r.push(nome.to_owned());
        c += 1;
    }
    r
}

// ---------------------------------------------------------------- ida e volta da data

pub proof fn lema_decimal(n: nat)
    ensures
        decimal(n).len() >= 1,
        so_digitos(decimal(n)),
        valor_dec(decimal(n)) == n,
    decreases n,
{
    if n >= 10 {
        lema_decimal(n / 10);
        let s = decimal(n / 10);
        assert(decimal(n).drop_last() =~= s);
        assert(valor_digito(digito(n % 10)) == n % 10);
        assert(n == (n / 10) * 10 + n % 10);
        assert(decimal(n).last() == digito(n % 10));
        assert(valor_dec(decimal(n)) == valor_dec(s) * 10 + valor_digito(digito(n % 10)));
        assert(so_digitos(decimal(n))) by {
            assert forall|i: int| 0 <= i < decimal(n).len() implies e_digito(#[trigger] decimal(n)[i]) by {
                if i < s.len() {
                    assert(decimal(n)[i] == s[i]);
                }
            }
        }
    } else {
        assert(decimal(n).drop_last() =~= Seq::<char>::empty());
        assert(valor_digito(digito(n)) == n);
        assert(valor_dec(Seq::<char>::empty()) == 0);
        assert(valor_dec(decimal(n)) == valor_dec(Seq::<char>::empty()) * 10 + valor_digito(digito(n)));
    }
}

proof fn lema_zeros_valor(z: Seq<char>, s: Seq<char>)
    requires
        forall|i: int| 0 <= i < z.len() ==> z[i] == '0',
    ensures
        valor_dec(z + s) == valor_dec(s),
    decreases z.len() + s.len(),
{
    if s.len() > 0 {
        lema_zeros_valor(z, s.drop_last());
        assert((z + s).drop_last() =~= z + s.drop_last());
    } else if z.len() > 0 {
        lema_zeros_valor(z.drop_last(), s);
        assert(z + s =~= z);
        assert((z.drop_last() + s) =~= z.drop_last());
    } else {
        assert(z + s =~= Seq::<char>::empty());
    }
}

/// `n` com zeros à esquerda: só algarismos, e o valor é `n`.
proof fn lema_com_zeros(n: nat, w: nat)
    ensures
        com_zeros(n, w).len() >= 1,
        so_digitos(com_zeros(n, w)),
        valor_dec(com_zeros(n, w)) == n,
{
    lema_decimal(n);
    let d = decimal(n);
    if d.len() < w {
        let z = Seq::new((w - d.len()) as nat, |i: int| '0');
        lema_zeros_valor(z, d);
        assert(so_digitos(z + d)) by {
            assert forall|i: int| 0 <= i < (z + d).len() implies e_digito(#[trigger] (z + d)[i]) by {
                if i >= z.len() {
                    assert((z + d)[i] == d[i - z.len()]);
                }
            }
        }
    }
}

/// Um texto de algarismos não tem espaços nas pontas, não tem `c` e é lido
/// como o seu valor.
proof fn lema_algarismos(s: Seq<char>, c: char)
    requires
        s.len() >= 1,
        so_digitos(s),
        !e_digito(c),
        valor_dec(s) <= u32::MAX,
    ensures
        apara_spec(s) == s,
        forall|i: int| 0 <= i < s.len() ==> s[i] != c,
        numero_ate(apara_spec(s), u32::MAX as nat) == Some(valor_dec(s)),
{
    assert(e_digito(s[0]));
    assert(e_digito(s[s.len() - 1]));
    assert(sem_espaco_inicial(s) == s);
    assert(sem_espaco_final(s) == s);
}

/// Pedaços sem o separador.
proof fn lema_partes_sem(z: Seq<char>, c: char)
    requires
        forall|i: int| 0 <= i < z.len() ==> z[i] != c,
    ensures
        partes(z, c) == seq![z],
    decreases z.len(),
{
    if z.len() > 0 {
        lema_partes_sem(z.drop_last(), c);
        assert(z[z.len() - 1] != c);
        assert(z.drop_last().push(z.last()) =~= z);
        assert(seq![z.drop_last()].update(0, z.drop_last().push(z.last())) =~= seq![z]);
    } else {
        assert(z =~= Seq::<char>::empty());
    }
}

proof fn lema_partes_junta(p: Seq<char>, w: Seq<char>, c: char)
    requires
        forall|i: int| 0 <= i < w.len() ==> w[i] != c,
    ensures
        partes(p + w, c) == partes(p, c).update(partes(p, c).len() - 1, partes(p, c).last() + w),
    decreases w.len(),
{
    lema_partes_tam(p, c);
    if w.len() == 0 {
        assert(p + w =~= p);
        assert(partes(p, c).last() + w =~= partes(p, c).last());
        assert(partes(p, c).update(partes(p, c).len() - 1, partes(p, c).last()) =~= partes(p, c));
    } else {
        let u = w.drop_last();
        lema_partes_junta(p, u, c);
        lema_partes_tam(p + u, c);
        assert((p + w).drop_last() =~= p + u);
        assert((p + w).last() == w.last());
        assert(w[w.len() - 1] != c);
        let pp = partes(p, c);
        let l = pp.len() - 1;
        let q = partes(p + u, c);
        assert(q == pp.update(l, pp.last() + u));
        assert(q.len() == pp.len());
        assert(q.last() == pp.last() + u);
        assert(partes(p + w, c) == q.update(q.len() - 1, q.last().push(w.last())));
        assert((pp.last() + u).push(w.last()) =~= pp.last() + w);
        assert(q.update(l, (pp.last() + u).push(w.last())) =~= pp.update(l, pp.last() + w));
    }
}

proof fn lema_partes_sep(p: Seq<char>, c: char)
    ensures
        partes(p.push(c), c) == partes(p, c).push(Seq::empty()),
{
    assert(p.push(c).drop_last() =~= p);
}

/// Três números separados por `c` dão três pedaços.
proof fn lema_tres_partes(a: Seq<char>, b: Seq<char>, e: Seq<char>, c: char)
    requires
        forall|i: int| 0 <= i < a.len() ==> a[i] != c,
        forall|i: int| 0 <= i < b.len() ==> b[i] != c,
        forall|i: int| 0 <= i < e.len() ==> e[i] != c,
    ensures
        partes(a + seq![c] + b + seq![c] + e, c) == seq![a, b, e],
{
    lema_partes_sem(a, c);
    lema_partes_sep(a, c);
    assert(a + seq![c] =~= a.push(c));
    lema_partes_junta(a + seq![c], b, c);
    assert(seq![a, Seq::<char>::empty()].update(1, Seq::<char>::empty() + b) =~= seq![a, b]);
    lema_partes_sep(a + seq![c] + b, c);
    assert(a + seq![c] + b + seq![c] =~= (a + seq![c] + b).push(c));
    lema_partes_junta(a + seq![c] + b + seq![c], e, c);
    assert(seq![a, b, Seq::<char>::empty()].update(2, Seq::<char>::empty() + e) =~= seq![a, b, e]);
}

proof fn lema_tres_numeros(x: nat, wx: nat, y: nat, wy: nat, z: nat, wz: nat, c: char)
    requires
        !e_digito(c),
        x <= u32::MAX,
        y <= u32::MAX,
        z <= u32::MAX,
    ensures
        numeros_spec(com_zeros(x, wx) + seq![c] + com_zeros(y, wy) + seq![c] + com_zeros(z, wz), c)
            == Some(seq![x as u32, y as u32, z as u32]),
{
    let a = com_zeros(x, wx);
    let b = com_zeros(y, wy);
    let e = com_zeros(z, wz);
    lema_com_zeros(x, wx);
    lema_com_zeros(y, wy);
    lema_com_zeros(z, wz);
    lema_algarismos(a, c);
    lema_algarismos(b, c);
    lema_algarismos(e, c);
    lema_tres_partes(a, b, e, c);
    let p = partes(a + seq![c] + b + seq![c] + e, c);
    assert(p[0] == a && p[1] == b && p[2] == e);
    assert(forall|i: int| 0 <= i < p.len() ==> (#[trigger] numero_ate(apara_spec(p[i]), u32::MAX as nat)) is Some);
    assert(Seq::new(p.len(), |i: int| numero_ate(apara_spec(p[i]), u32::MAX as nat)->Some_0 as u32) =~= seq![
        x as u32,
        y as u32,
        z as u32,
    ]);
}

/// Uma data aceita, escrita como o editor mostra e lida de volta, dá a mesma
/// data.
pub proof fn lei_data_ida_e_volta(d: [u32; 6])
    requires
        data_valida(d),
    ensures
        data_de_texto_spec(data_texto_spec(d@)) == Some(d@),
{
    let dia = com_zeros(d[2] as nat, 2) + seq!['/'] + com_zeros(d[1] as nat, 2) + seq!['/'] + com_zeros(d[0] as nat, 4);
    let hora = com_zeros(d[3] as nat, 2) + seq![':'] + com_zeros(d[4] as nat, 2) + seq![':'] + com_zeros(d[5] as nat, 2);
    let t = data_texto_spec(d@);
    assert(t =~= dia + seq![' '] + hora);
    lema_com_zeros(d[2] as nat, 2);
    lema_com_zeros(d[1] as nat, 2);
    lema_com_zeros(d[0] as nat, 4);
    lema_com_zeros(d[3] as nat, 2);
    lema_com_zeros(d[4] as nat, 2);
    lema_com_zeros(d[5] as nat, 2);
    // sem espaços nas pontas
    let a0 = com_zeros(d[2] as nat, 2);
    let c5 = com_zeros(d[5] as nat, 2);
    assert(e_digito(a0[0]));
    assert(t[0] == a0[0]);
    assert(e_digito(c5[c5.len() - 1]));
    assert(t[t.len() - 1] == c5[c5.len() - 1]);
    assert(sem_espaco_inicial(t) == t);
    assert(sem_espaco_final(t) == t);
    assert(apara_spec(t) == t);
    // o primeiro espaço separa data e hora
    assert forall|i: int| 0 <= i < dia.len() implies dia[i] != ' ' by {
        let b1 = com_zeros(d[1] as nat, 2);
        let b0 = com_zeros(d[0] as nat, 4);
        if i < a0.len() {
            assert(e_digito(a0[i]));
        } else if i == a0.len() {
        } else if i < a0.len() + 1 + b1.len() {
            assert(dia[i] == b1[i - a0.len() - 1]);
            assert(e_digito(b1[i - a0.len() - 1]));
        } else if i == a0.len() + 1 + b1.len() {
        } else {
            assert(dia[i] == b0[i - a0.len() - 2 - b1.len()]);
            assert(e_digito(b0[i - a0.len() - 2 - b1.len()]));
        }
    }
    assert(t[dia.len() as int] == ' ');
    assert forall|j: int| 0 <= j < dia.len() implies t[j] != ' ' by {
        assert(t[j] == dia[j]);
    }
    lema_corte_acha(t, ' ', dia.len() as int);
    assert(t.subrange(0, dia.len() as int) =~= dia);
    assert(t.subrange(dia.len() as int + 1, t.len() as int) =~= hora);
    // a hora não tem espaços nas pontas
    let c3 = com_zeros(d[3] as nat, 2);
    assert(hora[0] == c3[0] && e_digito(c3[0]));
    assert(hora[hora.len() - 1] == c5[c5.len() - 1]);
    assert(sem_espaco_inicial(hora) == hora);
    assert(sem_espaco_final(hora) == hora);
    lema_tres_numeros(d[2] as nat, 2, d[1] as nat, 2, d[0] as nat, 4, '/');
    lema_tres_numeros(d[3] as nat, 2, d[4] as nat, 2, d[5] as nat, 2, ':');
    assert(seq![d[0], d[1], d[2], d[3], d[4], d[5]] =~= d@);
}

// ---------------------------------------------------------------- filtros

/// O espaço do inventário aparece no filtro: 0 = todos, 1 = só os
/// ocupados, 2 em diante = ocupados da classe `filtro - 1`.
pub open spec fn aparece(s: Slot, filtro: usize) -> bool {
    if filtro == 0 {
        true
    } else if filtro == 1 {
        s.id != 0
    } else {
        s.id != 0 && classe_spec(s.id) == filtro - 1
    }
}

/// As posições, em ordem, dos espaços que aparecem no filtro.
pub open spec fn filtrados(s: Seq<Slot>, filtro: usize) -> Seq<usize>
    decreases s.len(),
{
    if s.len() == 0 {
        Seq::empty()
    } else {
        let antes = filtrados(s.drop_last(), filtro);
        if aparece(s.last(), filtro) {
            antes.push((s.len() - 1) as usize)
        } else {
            antes
        }
    }
}

/// Quais espaços do inventário cada filtro mostra.
pub fn filtrar(atuais: &[Slot], filtro: usize) -> (r: Vec<usize>)
    ensures
        r@ == filtrados(atuais@, filtro),
{
    let mut r: Vec<usize> = Vec::new();
    let mut i: usize = 0;
    assert(atuais@.subrange(0, 0) =~= Seq::<Slot>::empty());
    while i < atuais.len()
        invariant
            i <= atuais@.len(),
            r@ == filtrados(atuais@.subrange(0, i as int), filtro),
        decreases atuais@.len() - i,
    {
        let s = &atuais[i];
        let mostra = if filtro == 0 {
            true
        } else if filtro == 1 {
            s.id != 0
        } else {
            s.id != 0 && classe_de(s.id) == filtro - 1
        };
        assert(atuais@.subrange(0, i + 1).drop_last() =~= atuais@.subrange(0, i as int));
        if mostra {
            r.push(i);
        }
        i += 1;
    }
    assert(atuais@.subrange(0, atuais@.len() as int) =~= atuais@);
    r
}

// ---------------------------------------------------------------- grupos de três

/// O texto sem os pontos.
pub open spec fn sem_pontos(s: Seq<char>) -> Seq<char>
    decreases s.len(),
{
    if s.len() == 0 {
        s
    } else if s.last() == '.' {
        sem_pontos(s.drop_last())
    } else {
        sem_pontos(s.drop_last()).push(s.last())
    }
}

proof fn lema_sem_pontos_junta(a: Seq<char>, b: Seq<char>)
    ensures
        sem_pontos(a + b) == sem_pontos(a) + sem_pontos(b),
    decreases b.len(),
{
    if b.len() == 0 {
        assert(a + b =~= a);
        assert(sem_pontos(a) + sem_pontos(b) =~= sem_pontos(a));
    } else {
        lema_sem_pontos_junta(a, b.drop_last());
        assert((a + b).drop_last() =~= a + b.drop_last());
        assert((a + b).last() == b.last());
        if b.last() != '.' {
            assert(sem_pontos(a) + sem_pontos(b.drop_last()).push(b.last()) =~= (sem_pontos(a) + sem_pontos(
                b.drop_last(),
            )).push(b.last()));
        }
    }
}

proof fn lema_sem_pontos_digitos(s: Seq<char>)
    requires
        so_digitos(s),
    ensures
        sem_pontos(s) == s,
    decreases s.len(),
{
    if s.len() > 0 {
        assert(so_digitos(s.drop_last())) by {
            assert forall|i: int| 0 <= i < s.drop_last().len() implies e_digito(#[trigger] s.drop_last()[i]) by {
                assert(s.drop_last()[i] == s[i]);
            }
        }
        lema_sem_pontos_digitos(s.drop_last());
        assert(e_digito(s[s.len() - 1]));
        assert(s.drop_last().push(s.last()) =~= s);
    }
}

/// Até 999 o número tem de 1 a 3 algarismos.
proof fn lema_decimal_curto(n: nat)
    requires
        n < 1000,
    ensures
        1 <= decimal(n).len() <= 3,
{
    if n >= 100 {
        let m = n / 10;
        assert(m / 10 < 10 && m >= 10);
        assert(decimal(m / 10).len() == 1);
        assert(decimal(m).len() == 2);
    } else if n >= 10 {
        assert(decimal(n / 10).len() == 1);
    }
}

/// Os três últimos algarismos, com zeros à esquerda.
proof fn lema_tres_algarismos(b: nat)
    requires
        b < 1000,
    ensures
        com_zeros(b, 3) == seq![digito(b / 100), digito((b / 10) % 10), digito(b % 10)],
{
    if b < 10 {
        assert(decimal(b) =~= seq![digito(b)]);
        assert(digito(0) == '0');
        assert(com_zeros(b, 3) =~= seq![digito(b / 100), digito((b / 10) % 10), digito(b % 10)]);
    } else if b < 100 {
        assert(decimal(b / 10) =~= seq![digito(b / 10)]);
        assert(decimal(b) =~= seq![digito(b / 10), digito(b % 10)]);
        assert(digito(0) == '0');
        assert(com_zeros(b, 3) =~= seq![digito(b / 100), digito((b / 10) % 10), digito(b % 10)]);
    } else {
        assert(b / 10 / 10 == b / 100);
        assert(decimal(b / 10 / 10) =~= seq![digito(b / 100)]);
        assert(decimal(b / 10) =~= seq![digito(b / 100), digito((b / 10) % 10)]);
        assert(decimal(b) =~= seq![digito(b / 100), digito((b / 10) % 10), digito(b % 10)]);
    }
}

/// O número escrito em decimal é o número dos milhares seguido dos três
/// últimos algarismos.
proof fn lema_decimal_milhar(n: nat)
    requires
        n >= 1000,
    ensures
        decimal(n) == decimal(n / 1000) + com_zeros(n % 1000, 3),
{
    let a = n / 1000;
    let b = n % 1000;
    let n1 = n / 10;
    let n2 = n1 / 10;
    assert(n2 / 10 == a && n2 % 10 == b / 100 && n1 % 10 == (b / 10) % 10 && n % 10 == b % 10 && n1 >= 10
        && n2 >= 10) by (nonlinear_arith)
        requires
            n >= 1000,
            a == n / 1000,
            b == n % 1000,
            n1 == n / 10,
            n2 == n1 / 10,
    ;
    lema_tres_algarismos(b);
    assert(decimal(n2) == decimal(a).push(digito(n2 % 10)));
    assert(decimal(n1) == decimal(n2).push(digito(n1 % 10)));
    assert(decimal(n) == decimal(n1).push(digito(n % 10)));
    assert(decimal(n) =~= decimal(a) + com_zeros(b, 3));
}

/// `milhar` separa os algarismos em grupos de três a partir da direita:
/// sem os pontos é o número em decimal; o primeiro grupo tem de 1 a 3
/// algarismos (o comprimento não é múltiplo de 4) e há um ponto exatamente
/// a cada 4 posições contadas do fim.
pub proof fn lei_milhar_em_grupos(n: nat)
    ensures
        sem_pontos(milhar_spec(n)) == decimal(n),
        milhar_spec(n).len() % 4 != 0,
        forall|i: int|
            0 <= i < milhar_spec(n).len() ==> (#[trigger] milhar_spec(n)[i] == '.') == ((milhar_spec(n).len() - i)
                % 4 == 0),
    decreases n,
{
    let s = milhar_spec(n);
    if n < 1000 {
        lema_decimal(n);
        lema_decimal_curto(n);
        lema_sem_pontos_digitos(decimal(n));
        assert forall|i: int| 0 <= i < s.len() implies (#[trigger] s[i] == '.') == ((s.len() - i) % 4 == 0) by {
            assert(e_digito(s[i]));
        }
    } else {
        let a = milhar_spec(n / 1000);
        let z = com_zeros(n % 1000, 3);
        lei_milhar_em_grupos(n / 1000);
        lema_tres_algarismos(n % 1000);
        lema_com_zeros(n % 1000, 3);
        lema_decimal_milhar(n);
        assert(s == a + seq!['.'] + z);
        lema_sem_pontos_junta(a + seq!['.'], z);
        lema_sem_pontos_junta(a, seq!['.']);
        assert(sem_pontos(seq!['.']) =~= Seq::<char>::empty()) by {
            assert(seq!['.'].drop_last() =~= Seq::<char>::empty());
            assert(sem_pontos(Seq::<char>::empty()) == Seq::<char>::empty());
        }
        lema_sem_pontos_digitos(z);
        assert(sem_pontos(a) + Seq::<char>::empty() =~= sem_pontos(a));
        assert forall|i: int| 0 <= i < s.len() implies (#[trigger] s[i] == '.') == ((s.len() - i) % 4 == 0) by {
            if i < a.len() {
                assert(s[i] == a[i]);
                assert((s.len() - i) % 4 == (a.len() - i) % 4) by (nonlinear_arith)
                    requires
                        s.len() == a.len() + 4,
                ;
            } else if i > a.len() {
                assert(s[i] == z[i - a.len() - 1]);
                assert(e_digito(z[i - a.len() - 1]));
            }
        }
        assert(s.len() % 4 == a.len() % 4) by (nonlinear_arith)
            requires
                s.len() == a.len() + 4,
        ;
    }
}

} // verus!
