//! Catálogo dos registros de item do RE5: nomes, classes, ícones e quais IDs
//! podem ser escolhidos para cada destino. O byte alto do ID é a classe:
//! 01 arma, 02 munição, 03 cura, 04 tesouro, 05 chave, 06 colete, 07 arquivo.
//!
//! Regra de gravação: só entra nas listas de escolha o que o editor já
//! gravava e tem nome no jogo ou numa DLC; o resto é só para ver.
use vstd::prelude::*;
use std::collections::BTreeMap;
use vstd::std_specs::cmp::OrdSpec;
use crate::texto::{hex4, hex4_exec, mesmo_texto, texto_de};

verus! {

/// A classe de um ID: o byte alto.
pub open spec fn classe_spec(id: u32) -> usize {
    (id / 256) as usize
}

pub fn classe_de(id: u32) -> (r: usize)
    ensures
        r == classe_spec(id),
{
    assert(id >> 8u32 == id / 256) by (bit_vector);
    (id >> 8u32) as usize
}

/// Quantas classes há (a 0 é "Vazio").
pub const N_CLASSES: usize = 8;

/// Nome de cada classe, na ordem do byte alto do ID.
pub open spec fn classe_nome_spec(c: int) -> Seq<char> {
    if c == 0 {
        "Vazio"@
    } else if c == 1 {
        "Arma"@
    } else if c == 2 {
        "Munição"@
    } else if c == 3 {
        "Cura / acessório"@
    } else if c == 4 {
        "Tesouro"@
    } else if c == 5 {
        "Chave"@
    } else if c == 6 {
        "Colete"@
    } else {
        "Arquivo"@
    }
}

/// O nome da classe `c`, se ela existe.
pub fn nome_da_classe(c: usize) -> (r: Option<&'static str>)
    ensures
        match r {
            Some(s) => c < N_CLASSES && s@ == classe_nome_spec(c as int),
            None => c >= N_CLASSES,
        },
{
    if c == 0 {
        Some("Vazio")
    } else if c == 1 {
        Some("Arma")
    } else if c == 2 {
        Some("Munição")
    } else if c == 3 {
        Some("Cura / acessório")
    } else if c == 4 {
        Some("Tesouro")
    } else if c == 5 {
        Some("Chave")
    } else if c == 6 {
        Some("Colete")
    } else if c == 7 {
        Some("Arquivo")
    } else {
        None
    }
}

/// Nome da classe do ID; vazio para o ID 0 e "?" para uma classe que não
/// existe.
pub open spec fn nome_classe_spec(id: u32) -> Seq<char> {
    if id == 0 {
        ""@
    } else if classe_spec(id) < N_CLASSES {
        classe_nome_spec(classe_spec(id) as int)
    } else {
        "?"@
    }
}

/// Um registro da tabela de itens do jogo.
pub struct Item {
    pub id: u32,
    pub categoria: String,
    pub secao: String,
    /// Nome mostrado no editor: "português (inglês oficial)".
    pub nome: Option<String>,
    /// Nome oficial em inglês (jogo ou DLC).
    pub oficial: Option<String>,
    /// Nome em português (tradução do projeto).
    pub pt: Option<String>,
    pub interno: String,
    pub enumerador: Option<String>,
    pub dlc: Option<String>,
    pub descricao: Option<String>,
    /// Posição no atlas de ícones; -1 = sem ícone.
    pub icone: i32,
    /// "original", "mesmo_objeto" ou "silhueta"; nenhum quando o jogo não
    /// tem imagem.
    pub icone_tipo: Option<String>,
    pub gravavel: bool,
    pub legado: bool,
    /// O jogo marca como item dos slots do personagem.
    pub slot: bool,
    pub coletavel: bool,
    pub colocacoes: u32,
    pub obs: Option<String>,
}

/// Onde o item vai ser gravado.
#[derive(Clone, Copy, PartialEq, Eq, Structural, Debug)]
pub enum Destino {
    /// Os 9 slots do Chris ou da Sheva.
    Personagem,
    /// Os 84 espaços do inventário (baú).
    Inventario,
}

/// Quantos grupos tem a aba Itens Extras.
pub const N_GRUPOS_EXTRAS: usize = 5;

/// Rótulo de cada grupo da aba Itens Extras.
pub fn rotulo_extras(g: usize) -> (r: Option<&'static str>)
    ensures
        r is Some <==> g < N_GRUPOS_EXTRAS,
        r matches Some(s) ==> s@ == if g == 0 {
            "Armas de inimigos"@
        } else if g == 1 {
            "Objetos de fase"@
        } else if g == 2 {
            "Itens das DLCs"@
        } else if g == 3 {
            "Não testados"@
        } else {
            "Internos"@
        },
{
    if g == 0 {
        Some("Armas de inimigos")
    } else if g == 1 {
        Some("Objetos de fase")
    } else if g == 2 {
        Some("Itens das DLCs")
    } else if g == 3 {
        Some("Não testados")
    } else if g == 4 {
        Some("Internos")
    } else {
        None
    }
}

/// A categoria pertence ao grupo `g` da aba Itens Extras.
pub open spec fn categoria_do_grupo(g: usize, c: Seq<char>) -> bool {
    if g == 0 {
        c == "arma_inimigo"@
    } else if g == 1 {
        c == "objeto_fase"@
    } else if g == 2 {
        c == "item_dlc"@ || c == "arma_dlc"@
    } else if g == 3 {
        c == "arma"@ || c == "granada_ovo"@ || c == "municao"@ || c == "cura"@ || c == "outros"@
    } else if g == 4 {
        c == "interno"@ || c == "interno_dummy"@
    } else {
        false
    }
}

fn categoria_do_grupo_exec(g: usize, c: &str) -> (r: bool)
    ensures
        r == categoria_do_grupo(g, c@),
{
    if g == 0 {
        mesmo_texto(c, "arma_inimigo")
    } else if g == 1 {
        mesmo_texto(c, "objeto_fase")
    } else if g == 2 {
        mesmo_texto(c, "item_dlc") || mesmo_texto(c, "arma_dlc")
    } else if g == 3 {
        mesmo_texto(c, "arma") || mesmo_texto(c, "granada_ovo") || mesmo_texto(c, "municao") || mesmo_texto(
            c,
            "cura",
        ) || mesmo_texto(c, "outros")
    } else if g == 4 {
        mesmo_texto(c, "interno") || mesmo_texto(c, "interno_dummy")
    } else {
        false
    }
}

/// Que registros cada consulta do catálogo escolhe.
pub enum Selecao {
    /// Todos.
    Todos,
    /// Os graváveis de uma classe; nos slots do personagem, só os de slot.
    Opcoes(usize, Destino),
    /// Os da seção "extras" nas categorias de um grupo da aba Itens Extras.
    Extras(usize),
    /// Os da categoria "arquivo".
    Arquivos,
}

pub open spec fn seleciona(p: Selecao, i: Item) -> bool {
    match p {
        Selecao::Todos => true,
        Selecao::Opcoes(c, d) => classe_spec(i.id) == c && i.gravavel && (d == Destino::Inventario || i.slot),
        Selecao::Extras(g) => i.secao@ == "extras"@ && categoria_do_grupo(g, i.categoria@),
        Selecao::Arquivos => i.categoria@ == "arquivo"@,
    }
}

fn seleciona_exec(p: &Selecao, i: &Item) -> (r: bool)
    ensures
        r == seleciona(*p, *i),
{
    match p {
        Selecao::Todos => true,
        Selecao::Opcoes(c, d) => classe_de(i.id) == *c && i.gravavel && (*d == Destino::Inventario || i.slot),
        Selecao::Extras(g) => mesmo_texto(i.secao.as_str(), "extras") && categoria_do_grupo_exec(
            *g,
            i.categoria.as_str(),
        ),
        Selecao::Arquivos => mesmo_texto(i.categoria.as_str(), "arquivo"),
    }
}

/// O mapa que resulta de pôr os registros um a um pelo ID (o último de
/// cada ID fica).
pub open spec fn mapa_de(s: Seq<Item>) -> Map<u32, Item>
    decreases s.len(),
{
    if s.len() == 0 {
        Map::empty()
    } else {
        mapa_de(s.drop_last()).insert(s.last().id, s.last())
    }
}

/// Pôr um registro antes dos outros: ele só fica se nenhum dos outros tiver
/// o mesmo ID.
proof fn lema_mapa_antes(x: Item, t: Seq<Item>)
    ensures
        mapa_de(seq![x] + t) == if mapa_de(t).contains_key(x.id) {
            mapa_de(t)
        } else {
            mapa_de(t).insert(x.id, x)
        },
    decreases t.len(),
{
    if t.len() == 0 {
        assert(seq![x] + t =~= seq![x]);
        assert(seq![x].drop_last() =~= Seq::<Item>::empty());
        assert(mapa_de(t) =~= Map::<u32, Item>::empty());
        assert(mapa_de(seq![x]) == mapa_de(Seq::<Item>::empty()).insert(x.id, x));
    } else {
        let u = t.drop_last();
        let l = t.last();
        lema_mapa_antes(x, u);
        assert((seq![x] + t).drop_last() =~= seq![x] + u);
        assert((seq![x] + t).last() == l);
        assert(mapa_de(seq![x] + t) == mapa_de(seq![x] + u).insert(l.id, l));
        assert(mapa_de(t) == mapa_de(u).insert(l.id, l));
        if mapa_de(u).contains_key(x.id) {
            assert(mapa_de(seq![x] + t) =~= mapa_de(t));
        } else if x.id == l.id {
            assert(mapa_de(seq![x] + t) =~= mapa_de(t));
        } else {
            assert(mapa_de(seq![x] + t) =~= mapa_de(t).insert(x.id, x));
        }
    }
}

/// IDs em ordem estritamente crescente.
pub open spec fn crescente(s: Seq<u32>) -> bool {
    forall|i: int, j: int| 0 <= i < j < s.len() ==> s[i] < s[j]
}

/// Os IDs escolhidos, em ordem: crescentes e exatamente os do mapa cujos
/// registros a seleção escolhe.
pub open spec fn selecao_ok(m: Map<u32, Item>, r: Seq<u32>, p: Selecao) -> bool {
    &&& crescente(r)
    &&& forall|k: u32| r.contains(k) <==> (m.contains_key(k) && seleciona(p, m[k]))
}

/// Os IDs de uma sequência de registros.
pub open spec fn ids(r: Seq<&Item>) -> Seq<u32> {
    Seq::new(r.len(), |i: int| r[i].id)
}

/// As chaves de `s` cujos registros a seleção escolhe, na ordem de `s`.
pub open spec fn filtro(s: Seq<u32>, m: Map<u32, Item>, p: Selecao) -> Seq<u32>
    decreases s.len(),
{
    if s.len() == 0 {
        Seq::empty()
    } else {
        let a = filtro(s.drop_last(), m, p);
        if seleciona(p, m[s.last()]) {
            a.push(s.last())
        } else {
            a
        }
    }
}

proof fn lema_filtro(s: Seq<u32>, m: Map<u32, Item>, p: Selecao)
    requires
        crescente(s),
    ensures
        crescente(filtro(s, m, p)),
        forall|k: u32| filtro(s, m, p).contains(k) <==> (s.contains(k) && seleciona(p, m[k])),
    decreases s.len(),
{
    if s.len() > 0 {
        let u = s.drop_last();
        let l = s.last();
        lema_filtro(u, m, p);
        let a = filtro(u, m, p);
        assert forall|k: u32| s.contains(k) <==> (u.contains(k) || k == l) by {
            if s.contains(k) {
                let i = choose|i: int| 0 <= i < s.len() && s[i] == k;
                if i < s.len() - 1 {
                    assert(u[i] == k);
                }
            }
            if u.contains(k) {
                let i = choose|i: int| 0 <= i < u.len() && u[i] == k;
                assert(s[i] == k);
            }
            if k == l {
                assert(s[s.len() - 1] == k);
            }
        }
        if seleciona(p, m[l]) {
            assert forall|i: int| 0 <= i < a.len() implies a[i] < l by {
                assert(a.contains(a[i]));
                assert(u.contains(a[i]));
                let j = choose|j: int| 0 <= j < u.len() && u[j] == a[i];
                assert(s[j] == u[j]);
            }
            assert forall|k: u32| a.push(l).contains(k) <==> (a.contains(k) || k == l) by {
                if a.push(l).contains(k) {
                    let i = choose|i: int| 0 <= i < a.len() + 1 && a.push(l)[i] == k;
                    if i < a.len() {
                        assert(a[i] == k);
                    }
                }
                if a.contains(k) {
                    let i = choose|i: int| 0 <= i < a.len() && a[i] == k;
                    assert(a.push(l)[i] == k);
                }
                if k == l {
                    assert(a.push(l)[a.len() as int] == k);
                }
            }
            assert(filtro(s, m, p) == a.push(l));
            assert forall|k: u32| filtro(s, m, p).contains(k) <==> (s.contains(k) && seleciona(p, m[k])) by {
                assert(a.contains(k) <==> (u.contains(k) && seleciona(p, m[k])));
            }
        } else {
            assert(filtro(s, m, p) == a);
            assert forall|k: u32| filtro(s, m, p).contains(k) <==> (s.contains(k) && seleciona(p, m[k])) by {
                assert(a.contains(k) <==> (u.contains(k) && seleciona(p, m[k])));
            }
        }
    }
}

/// Os valores do mapa saem na ordem das chaves.
proof fn lema_chaves_em_ordem(ks: Seq<u32>)
    requires
        vstd::std_specs::btree::increasing_seq(ks),
    ensures
        crescente(ks),
{
    broadcast use vstd::std_specs::btree::group_btree_axioms;
    broadcast use vstd::laws_cmp::group_laws_cmp;
    assert(vstd::laws_cmp::obeys_cmp::<u32>());
    assert forall|i: int, j: int| 0 <= i < j < ks.len() implies ks[i] < ks[j] by {
        assert(ks[i].cmp_spec(&ks[j]) is Less);
    }
}

/// As operações de `BTreeMap` com chave `u32` seguem o modelo de ordem.
proof fn lema_chave_ordenada()
    ensures
        vstd::laws_cmp::obeys_cmp::<u32>(),
{
    broadcast use vstd::laws_cmp::group_laws_cmp;
}

/// O catálogo: os registros pelo ID.
pub struct Itens {
    pub por_id: BTreeMap<u32, Item>,
    pub colunas_atlas: i32,
    pub celula_atlas: i32,
}

impl Itens {
    /// Os registros pelo ID.
    pub open spec fn mapa(&self) -> Map<u32, Item> {
        self.por_id@
    }

    /// Cada registro está guardado sob o próprio ID.
    pub open spec fn bem_formado(&self) -> bool {
        forall|k: u32| #[trigger] self.mapa().contains_key(k) ==> self.mapa()[k].id == k
    }

    /// O catálogo com os registros dados (o último de cada ID fica) e as
    /// medidas do atlas de ícones.
    pub fn novo(itens: Vec<Item>, colunas_atlas: i32, celula_atlas: i32) -> (r: Itens)
        ensures
            r.bem_formado(),
            r.mapa() == mapa_de(itens@),
            r.colunas_atlas == colunas_atlas,
            r.celula_atlas == celula_atlas,
    {
        broadcast use vstd::std_specs::btree::group_btree_axioms;
        proof {
            lema_chave_ordenada();
        }
        let ghost orig = itens@;
        let mut itens = itens;
        let mut m: BTreeMap<u32, Item> = BTreeMap::new();
        assert(orig.subrange(orig.len() as int, orig.len() as int) =~= Seq::<Item>::empty());
        while itens.len() > 0
            invariant
                itens@ == orig.subrange(0, itens@.len() as int),
                itens@.len() <= orig.len(),
                m@ == mapa_de(orig.subrange(itens@.len() as int, orig.len() as int)),
                forall|k: u32| #[trigger] m@.contains_key(k) ==> m@[k].id == k,
            decreases itens@.len(),
        {
            proof {
                lema_chave_ordenada();
            }
            let ghost j = itens@.len() as int;
            let x = itens.pop().unwrap();
            proof {
                assert(orig.subrange(j - 1, orig.len() as int) =~= seq![x] + orig.subrange(j, orig.len() as int));
                lema_mapa_antes(x, orig.subrange(j, orig.len() as int));
                assert(itens@ =~= orig.subrange(0, j - 1));
            }
            if !m.contains_key(&x.id) {
                m.insert(x.id, x);
            }
        }
        assert(orig.subrange(0, orig.len() as int) =~= orig);
        Itens { por_id: m, colunas_atlas, celula_atlas }
    }

    /// O registro do ID, se houver.
    pub fn item(&self, id: u32) -> (r: Option<&Item>)
        ensures
            match r {
                Some(i) => self.mapa().contains_key(id) && *i == self.mapa()[id],
                None => !self.mapa().contains_key(id),
            },
    {
        broadcast use vstd::std_specs::btree::group_btree_axioms;
        proof {
            lema_chave_ordenada();
        }
        self.por_id.get(&id)
    }

    /// Os registros que a seleção escolhe, em ordem de ID.
    pub fn selecionados(&self, p: Selecao) -> (r: Vec<&Item>)
        requires
            self.bem_formado(),
        ensures
            selecao_ok(self.mapa(), ids(r@), p),
            forall|i: int| 0 <= i < r@.len() ==> *r@[i] == self.mapa()[r@[i].id],
    {
        broadcast use vstd::std_specs::btree::group_btree_axioms;
        proof {
            lema_chave_ordenada();
        }
        let vals = self.por_id.values();
        let ghost m = self.mapa();
        let ghost ks = choose|ks: Seq<u32>|
            {
                &&& vstd::std_specs::btree::increasing_seq(ks)
                &&& ks.to_set() == m.dom()
                &&& ks.no_duplicates()
                &&& vstd::std_specs::iter::IteratorSpec::remaining(&vals) == ks.map(|i: int, k: u32| &m[k])
            };
        proof {
            lema_chaves_em_ordem(ks);
        }
        let mut r: Vec<&Item> = Vec::new();
        for v in it: vals
            invariant
                m == self.mapa(),
                self.bem_formado(),
                it.seq() == ks.map(|i: int, k: u32| &m[k]),
                ks.to_set() == m.dom(),
                ids(r@) == filtro(ks.take(it.index()), m, p),
                forall|i: int| 0 <= i < r@.len() ==> *r@[i] == m[r@[i].id],
        {
            let ghost idx = it.index();
            assert(ks.take(idx + 1).drop_last() =~= ks.take(idx));
            assert(ks.take(idx + 1).last() == ks[idx]);
            assert(ks.to_set().contains(ks[idx]));
            assert(m.contains_key(ks[idx]));
            if seleciona_exec(&p, v) {
                let ghost antes = r@;
                r.push(v);
                assert(ids(r@) =~= ids(antes).push(v.id));
            }
        }
        assert(ks.take(ks.len() as int) =~= ks);
        proof {
            lema_filtro(ks, m, p);
            assert forall|k: u32| ks.contains(k) <==> m.contains_key(k) by {
                assert(ks.to_set().contains(k) == ks.contains(k));
            }
        }
        r
    }

    /// Todos os registros, em ordem de ID.
    pub fn todos(&self) -> (r: Vec<&Item>)
        requires
            self.bem_formado(),
        ensures
            selecao_ok(self.mapa(), ids(r@), Selecao::Todos),
            forall|i: int| 0 <= i < r@.len() ==> *r@[i] == self.mapa()[r@[i].id],
    {
        self.selecionados(Selecao::Todos)
    }

    /// Registros de um grupo da aba Itens Extras (nenhum para um grupo que
    /// não existe).
    pub fn extras(&self, grupo: usize) -> (r: Vec<&Item>)
        requires
            self.bem_formado(),
        ensures
            selecao_ok(self.mapa(), ids(r@), Selecao::Extras(grupo)),
            forall|i: int| 0 <= i < r@.len() ==> *r@[i] == self.mapa()[r@[i].id],
    {
        self.selecionados(Selecao::Extras(grupo))
    }

    /// Registros da classe File, mostrados na aba História.
    pub fn arquivos(&self) -> (r: Vec<&Item>)
        requires
            self.bem_formado(),
        ensures
            selecao_ok(self.mapa(), ids(r@), Selecao::Arquivos),
            forall|i: int| 0 <= i < r@.len() ==> *r@[i] == self.mapa()[r@[i].id],
    {
        self.selecionados(Selecao::Arquivos)
    }

    /// O ID atual entra no começo da lista de opções: não é vazio, é da
    /// classe e não está entre as opções.
    pub open spec fn entra_atual(&self, classe: usize, atual: u32, destino: Destino) -> bool {
        &&& atual != 0
        &&& classe_spec(atual) == classe
        &&& !(self.mapa().contains_key(atual) && seleciona(Selecao::Opcoes(classe, destino), self.mapa()[atual]))
    }

    /// IDs que podem ser escolhidos numa classe: só os graváveis; nos slots
    /// do Chris e da Sheva, só os que o jogo marca como item de slot. O ID
    /// atual entra sempre no começo, para não sumir da lista ao editar. Na
    /// classe 0 a única opção é o vazio.
    pub fn opcoes(&self, classe: usize, atual: u32, destino: Destino) -> (r: Vec<u32>)
        requires
            self.bem_formado(),
        ensures
            classe == 0 ==> r@ == seq![0u32],
            classe != 0 ==> {
                let resto = if self.entra_atual(classe, atual, destino) {
                    r@.drop_first()
                } else {
                    r@
                };
                &&& self.entra_atual(classe, atual, destino) ==> r@.len() >= 1 && r@[0] == atual
                &&& selecao_ok(self.mapa(), resto, Selecao::Opcoes(classe, destino))
            },
            // o ID atual da classe nunca some da lista
            classe != 0 && atual != 0 && classe_spec(atual) == classe ==> r@.contains(atual),
            // fora o atual, só registros graváveis da classe; nos slots do
            // personagem, só itens de slot
            classe != 0 ==> forall|i: int|
                0 <= i < r@.len() && r@[i] != atual ==> {
                    &&& self.mapa().contains_key(#[trigger] r@[i])
                    &&& classe_spec(r@[i]) == classe
                    &&& self.mapa()[r@[i]].gravavel
                    &&& (destino == Destino::Personagem ==> self.mapa()[r@[i]].slot)
                },
    {
        if classe == 0 {
            return vec![0u32];
        }
        let sel = self.selecionados(Selecao::Opcoes(classe, destino));
        let mut ids_v: Vec<u32> = Vec::new();
        let mut i: usize = 0;
        while i < sel.len()
            invariant
                i <= sel@.len(),
                ids_v@ == ids(sel@).take(i as int),
            decreases sel@.len() - i,
        {
            ids_v.push(sel[i].id);
            i += 1;
            assert(ids_v@ =~= ids(sel@).take(i as int));
        }
        assert(ids(sel@).take(sel@.len() as int) =~= ids(sel@));
        let ghost base = ids_v@;
        if atual != 0 && classe_de(atual) == classe {
            let mut tem = false;
            let mut j: usize = 0;
            while j < ids_v.len()
                invariant
                    j <= ids_v@.len(),
                    tem == exists|q: int| 0 <= q < j && ids_v@[q] == atual,
                decreases ids_v@.len() - j,
            {
                if ids_v[j] == atual {
                    tem = true;
                }
                j += 1;
            }
            assert(tem == base.contains(atual));
            if !tem {
                ids_v.insert(0, atual);
                assert(ids_v@.drop_first() =~= base);
                assert(ids_v@[0] == atual);
            } else {
                assert(base.contains(atual));
            }
        }
        proof {
            let m = self.mapa();
            assert forall|i: int| 0 <= i < ids_v@.len() && ids_v@[i] != atual implies {
                &&& m.contains_key(#[trigger] ids_v@[i])
                &&& classe_spec(ids_v@[i]) == classe
                &&& m[ids_v@[i]].gravavel
                &&& (destino == Destino::Personagem ==> m[ids_v@[i]].slot)
            } by {
                let k = ids_v@[i];
                if ids_v@.len() == base.len() + 1 && ids_v@[0] == atual && ids_v@.drop_first() == base {
                    assert(base[i - 1] == k);
                    assert(base.contains(k));
                } else {
                    assert(ids_v@ == base);
                    assert(base.contains(k));
                }
                assert(m[k].id == k);
            }
        }
        ids_v
    }

    /// Nome para mostrar; itens sem nome aparecem pela classe e o ID.
    pub open spec fn nome_spec(&self, id: u32) -> Seq<char> {
        if id == 0 {
            "Vazio"@
        } else if self.mapa().contains_key(id) && self.mapa()[id].nome is Some {
            self.mapa()[id].nome->Some_0@
        } else {
            (if classe_spec(id) < N_CLASSES {
                classe_nome_spec(classe_spec(id) as int)
            } else {
                "Item"@
            }) + " 0x"@ + hex4(id as nat)
        }
    }

    pub fn nome(&self, id: u32) -> (r: String)
        ensures
            r@ == self.nome_spec(id),
    {
        if id == 0 {
            return "Vazio".to_owned();
        }
        if let Some(i) = self.item(id) {
            if let Some(n) = &i.nome {
                return n.clone();
            }
        }
        let mut r = match nome_da_classe(classe_de(id)) {
            Some(c) => c.to_owned(),
            None => "Item".to_owned(),
        };
        vstd::string::StringExecFns::append(&mut r, " 0x");
        let h = hex4_exec(id);
        crate::texto::junta(&mut r, &h);
        r
    }

    /// Nome da classe do ID; vazio para o ID 0 e "?" para uma classe que
    /// não existe.
    pub fn nome_classe(id: u32) -> (r: &'static str)
        ensures
            r@ == nome_classe_spec(id),
    {
        if id == 0 {
            return "";
        }
        match nome_da_classe(classe_de(id)) {
            Some(c) => c,
            None => "?",
        }
    }

    /// Posição do ícone do ID no atlas; -1 sem ícone.
    pub fn icone(&self, id: u32) -> (r: i32)
        ensures
            r == if self.mapa().contains_key(id) {
                self.mapa()[id].icone
            } else {
                -1i32
            },
    {
        match self.item(id) {
            Some(i) => i.icone,
            None => -1,
        }
    }

    /// A classe `c` tem alguma opção para o destino.
    pub open spec fn tem_opcao(&self, c: usize, destino: Destino) -> bool {
        exists|k: u32| self.mapa().contains_key(k) && #[trigger] seleciona(Selecao::Opcoes(c, destino), self.mapa()[k])
    }

    /// As classes abaixo de `n` que têm opção para o destino (a "Vazio"
    /// sempre).
    pub open spec fn classes_ate(&self, destino: Destino, n: nat) -> Seq<usize>
        decreases n,
    {
        if n == 0 {
            Seq::empty()
        } else {
            let c = (n - 1) as usize;
            let a = self.classes_ate(destino, (n - 1) as nat);
            if c == 0 || self.tem_opcao(c, destino) {
                a.push(c)
            } else {
                a
            }
        }
    }

    /// Classes que têm alguma opção para o destino (a "Vazio" sempre).
    pub fn classes_para(&self, destino: Destino) -> (r: Vec<usize>)
        requires
            self.bem_formado(),
        ensures
            r@ == self.classes_ate(destino, N_CLASSES as nat),
    {
        let mut r: Vec<usize> = Vec::new();
        let mut c: usize = 0;
        while c < N_CLASSES
            invariant
                self.bem_formado(),
                c <= N_CLASSES,
                r@ == self.classes_ate(destino, c as nat),
            decreases N_CLASSES - c,
        {
            if c == 0 {
                r.push(c);
            } else {
                let o = self.opcoes(c, 0, destino);
                proof {
                    assert(!self.entra_atual(c, 0, destino));
                    if o@.len() > 0 {
                        assert(o@.contains(o@[0]));
                        let k = o@[0];
                        assert(self.mapa().contains_key(k) && seleciona(Selecao::Opcoes(c, destino), self.mapa()[k]));
                    }
                    if self.tem_opcao(c, destino) {
                        let k = choose|k: u32|
                            self.mapa().contains_key(k) && #[trigger] seleciona(Selecao::Opcoes(c, destino), self.mapa()[k]);
                        assert(o@.contains(k));
                    }
                }
                if o.len() > 0 {
                    r.push(c);
                }
            }
            c += 1;
        }
        r
    }
}

/// Rótulo em português de uma categoria.
pub open spec fn nome_categoria_spec(c: Seq<char>) -> Seq<char> {
    if c == "arma"@ {
        "Arma"@
    } else if c == "granada_ovo"@ {
        "Granada / ovo"@
    } else if c == "municao"@ {
        "Munição"@
    } else if c == "cura"@ {
        "Cura"@
    } else if c == "tesouro"@ {
        "Tesouro"@
    } else if c == "chave"@ {
        "Chave"@
    } else if c == "outros"@ {
        "Outros"@
    } else if c == "arquivo"@ {
        "Arquivo"@
    } else if c == "arma_inimigo"@ {
        "Arma de inimigo"@
    } else if c == "arma_dlc"@ {
        "Arma de DLC"@
    } else if c == "item_dlc"@ {
        "Item de DLC"@
    } else if c == "objeto_fase"@ {
        "Objeto de fase"@
    } else if c == "interno"@ {
        "Interno"@
    } else if c == "interno_dummy"@ {
        "Sem nome no jogo"@
    } else {
        "Vazio"@
    }
}

pub fn nome_categoria(c: &str) -> (r: &'static str)
    ensures
        r@ == nome_categoria_spec(c@),
{
    if mesmo_texto(c, "arma") {
        "Arma"
    } else if mesmo_texto(c, "granada_ovo") {
        "Granada / ovo"
    } else if mesmo_texto(c, "municao") {
        "Munição"
    } else if mesmo_texto(c, "cura") {
        "Cura"
    } else if mesmo_texto(c, "tesouro") {
        "Tesouro"
    } else if mesmo_texto(c, "chave") {
        "Chave"
    } else if mesmo_texto(c, "outros") {
        "Outros"
    } else if mesmo_texto(c, "arquivo") {
        "Arquivo"
    } else if mesmo_texto(c, "arma_inimigo") {
        "Arma de inimigo"
    } else if mesmo_texto(c, "arma_dlc") {
        "Arma de DLC"
    } else if mesmo_texto(c, "item_dlc") {
        "Item de DLC"
    } else if mesmo_texto(c, "objeto_fase") {
        "Objeto de fase"
    } else if mesmo_texto(c, "interno") {
        "Interno"
    } else if mesmo_texto(c, "interno_dummy") {
        "Sem nome no jogo"
    } else {
        "Vazio"
    }
}

} // verus!
