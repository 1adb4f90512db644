//! Abas Itens Extras e História: só mostram dados do jogo, nunca gravam.
use vstd::prelude::*;
use vstd::string::StringExecFns;
use crate::historia::{indice_desbloqueio, Texto};
use crate::itens::{ids, rotulo_extras, selecao_ok, Item, Itens, Selecao, N_GRUPOS_EXTRAS};
use crate::modelos::ListaDados;
use crate::texto::{decimal, decimal_exec, hex4_m, hex4_m_exec, junta, mesmo_texto, texto_de};

verus! {

/// O que cada linha da lista da História abre.
#[derive(Clone, Copy, PartialEq, Eq, Structural, Debug)]
pub enum Linha {
    Cabecalho,
    Texto(usize),
    Arquivos,
}

/// O estado das abas: os textos, as linhas da História e os IDs do grupo de
/// Itens Extras que está na tela.
pub struct Catalogo {
    pub textos: Vec<Texto>,
    pub linhas: Vec<Linha>,
    pub extras_ids: Vec<u32>,
}

/// As linhas dos `n` primeiros textos que são do grupo `g`.
pub open spec fn do_grupo(ts: Seq<Texto>, g: Seq<char>, n: nat) -> Seq<Linha>
    decreases n,
{
    if n == 0 {
        Seq::empty()
    } else {
        let a = do_grupo(ts, g, (n - 1) as nat);
        if ts[n - 1].grupo@ == g {
            a.push(Linha::Texto((n - 1) as usize))
        } else {
            a
        }
    }
}

proof fn lema_do_grupo(ts: Seq<Texto>, g: Seq<char>, n: nat)
    requires
        n <= ts.len(),
    ensures
        forall|i: int| 0 <= i < do_grupo(ts, g, n).len() ==> (#[trigger] do_grupo(ts, g, n)[i] matches Linha::Texto(t) ==> t < n),
    decreases n,
{
    if n > 0 {
        lema_do_grupo(ts, g, (n - 1) as nat);
    }
}

/// A lista da História: Biblioteca, documentos das fases e das DLCs, cada
/// um com um cabeçalho, e no fim os registros File.
pub open spec fn linhas_spec(ts: Seq<Texto>) -> Seq<Linha> {
    seq![Linha::Cabecalho] + do_grupo(ts, "biblioteca"@, ts.len()) + seq![Linha::Cabecalho] + do_grupo(
        ts,
        "documento"@,
        ts.len(),
    ) + seq![Linha::Cabecalho] + do_grupo(ts, "dlc"@, ts.len()) + seq![Linha::Cabecalho, Linha::Arquivos]
}

fn junta_grupo(linhas: &mut Vec<Linha>, ts: &Vec<Texto>, g: &str)
    ensures
        final(linhas)@ == old(linhas)@ + do_grupo(ts@, g@, ts@.len()),
{
    let mut i: usize = 0;
    while i < ts.len()
        invariant
            i <= ts@.len(),
            linhas@ == old(linhas)@ + do_grupo(ts@, g@, i as nat),
        decreases ts@.len() - i,
    {
        if mesmo_texto(ts[i].grupo.as_str(), g) {
            linhas.push(Linha::Texto(i));
        }
        i += 1;
    }
}

/// Rótulo de um grupo de Itens Extras com a contagem: "Internos (12)".
pub open spec fn rotulo_com_conta(g: usize, n: nat) -> Seq<char> {
    (if g == 0 {
        "Armas de inimigos"@
    } else if g == 1 {
        "Objetos de fase"@
    } else if g == 2 {
        "Itens das DLCs"@
    } else if g == 3 {
        "Não testados"@
    } else {
        "Internos"@
    }) + " ("@ + decimal(n) + ")"@
}

/// O rótulo do grupo `g` traz a contagem dos registros dele.
pub open spec fn rotulo_ok(m: Map<u32, crate::itens::Item>, g: usize, t: Seq<char>) -> bool {
    exists|s: Seq<u32>| #[trigger] selecao_ok(m, s, Selecao::Extras(g)) && t == rotulo_com_conta(g, s.len())
}

impl Catalogo {
    /// O catálogo com os textos dados e a lista da História montada.
    pub fn novo(textos: Vec<Texto>) -> (r: Catalogo)
        ensures
            r.textos@ == textos@,
            r.linhas@ == linhas_spec(textos@),
            r.extras_ids@.len() == 0,
            r.bem_formado(),
    {
        let mut linhas: Vec<Linha> = Vec::new();
        linhas.push(Linha::Cabecalho);
        junta_grupo(&mut linhas, &textos, "biblioteca");
        linhas.push(Linha::Cabecalho);
        junta_grupo(&mut linhas, &textos, "documento");
        linhas.push(Linha::Cabecalho);
        junta_grupo(&mut linhas, &textos, "dlc");
        linhas.push(Linha::Cabecalho);
        linhas.push(Linha::Arquivos);
        assert(linhas@ =~= linhas_spec(textos@));
        proof {
            let ts = textos@;
            lema_do_grupo(ts, "biblioteca"@, ts.len());
            lema_do_grupo(ts, "documento"@, ts.len());
            lema_do_grupo(ts, "dlc"@, ts.len());
            let a = do_grupo(ts, "biblioteca"@, ts.len());
            let b = do_grupo(ts, "documento"@, ts.len());
            let c = do_grupo(ts, "dlc"@, ts.len());
            let l = linhas@;
            assert forall|i: int| 0 <= i < l.len() implies (#[trigger] l[i] matches Linha::Texto(t) ==> t < ts.len()) by {
                let n1 = 1 + a.len();
                let n2 = n1 + 1 + b.len();
                let n3 = n2 + 1 + c.len();
                if 1 <= i < n1 {
                    assert(l[i] == a[i - 1]);
                } else if n1 + 1 <= i < n2 {
                    assert(l[i] == b[i - n1 - 1]);
                } else if n2 + 1 <= i < n3 {
                    assert(l[i] == c[i - n2 - 1]);
                }
            }
        }
        Catalogo { textos, linhas, extras_ids: Vec::new() }
    }

    /// Mostra um grupo de Itens Extras: guarda e devolve os IDs dele, em
    /// ordem.
    pub fn mostrar_extras(&mut self, itens: &Itens, grupo: usize) -> (r: Vec<u32>)
        requires
            itens.bem_formado(),
        ensures
            selecao_ok(itens.mapa(), r@, Selecao::Extras(grupo)),
            final(self).extras_ids@ == r@,
            final(self).textos == old(self).textos,
            final(self).linhas == old(self).linhas,
    {
        let sel = itens.extras(grupo);
        let mut r: Vec<u32> = Vec::new();
        let mut guardados: Vec<u32> = Vec::new();
        let mut i: usize = 0;
        while i < sel.len()
            invariant
                i <= sel@.len(),
                r@ == ids(sel@).take(i as int),
                guardados@ == r@,
            decreases sel@.len() - i,
        {
            r.push(sel[i].id);
            guardados.push(sel[i].id);
            i += 1;
            assert(r@ =~= ids(sel@).take(i as int));
        }
        assert(ids(sel@).take(sel@.len() as int) =~= ids(sel@));
        self.extras_ids = guardados;
        r
    }

    /// Prepara a aba Itens Extras: os rótulos dos grupos com a contagem de
    /// cada um, e o primeiro grupo na tela.
    pub fn iniciar(&mut self, itens: &Itens) -> (r: Vec<String>)
        requires
            itens.bem_formado(),
        ensures
            r@.len() == N_GRUPOS_EXTRAS,
            forall|g: int| 0 <= g < N_GRUPOS_EXTRAS ==> rotulo_ok(itens.mapa(), g as usize, #[trigger] r@[g]@),
            selecao_ok(itens.mapa(), final(self).extras_ids@, Selecao::Extras(0)),
            final(self).textos == old(self).textos,
            final(self).linhas == old(self).linhas,
    {
        let mut r: Vec<String> = Vec::new();
        let mut g: usize = 0;
        while g < N_GRUPOS_EXTRAS
            invariant
                itens.bem_formado(),
                g <= N_GRUPOS_EXTRAS,
                r@.len() == g,
                forall|h: int| 0 <= h < g ==> rotulo_ok(itens.mapa(), h as usize, #[trigger] r@[h]@),
            decreases N_GRUPOS_EXTRAS - g,
        {
            let n = match rotulo_extras(g) {
                Some(n) => n,
                None => "",
            };
            let sel = itens.extras(g);
            let mut t = n.to_owned();
            t.append(" (");
            let d = decimal_exec(sel.len() as u64);
            junta(&mut t, &d);
            t.append(")");
            let ghost s = ids(sel@);
            assert(s.len() == sel@.len());
            assert(t@ == rotulo_com_conta(g, s.len()));
            let ghost antes = r@;
            r.push(t);
            proof {
                assert(selecao_ok(itens.mapa(), s, Selecao::Extras(g)));
                assert(rotulo_ok(itens.mapa(), g, r@[g as int]@));
                assert forall|h: int| 0 <= h < g implies r@[h] == antes[h] by {}
            }
            g += 1;
        }
        self.mostrar_extras(itens, 0);
        r
    }

    /// O ID da linha escolhida na lista de Itens Extras, se houver.
    pub fn escolher_extra(&self, i: i32) -> (r: Option<u32>)
        ensures
            r == if 0 <= i < self.extras_ids@.len() {
                Some(self.extras_ids@[i as int])
            } else {
                None::<u32>
            },
    {
        if i < 0 {
            return None;
        }
        let k = i as usize;
        if k < self.extras_ids.len() {
            Some(self.extras_ids[k])
        } else {
            None
        }
    }
}

/// A primeira lista com a chave dada, entre as `n` primeiras; -1 se não há.
pub open spec fn primeira_lista(ls: Seq<ListaDados>, c: Seq<char>, n: nat) -> int
    decreases n,
{
    if n == 0 {
        -1
    } else {
        let p = primeira_lista(ls, c, (n - 1) as nat);
        if p >= 0 {
            p
        } else if ls[n - 1].chave@ == c {
            n - 1
        } else {
            -1
        }
    }
}

proof fn lema_primeira_lista(ls: Seq<ListaDados>, c: Seq<char>, n: nat)
    ensures
        -1 <= primeira_lista(ls, c, n) < n,
    decreases n,
{
    if n > 0 {
        lema_primeira_lista(ls, c, (n - 1) as nat);
    }
}

/// Situação de um arquivo da Biblioteca no save aberto: -1 sem save ou não
/// se aplica, 0 bloqueado, 1 desbloqueado.
pub open spec fn estado_spec(listas: Option<Seq<ListaDados>>, t: Texto) -> int {
    match listas {
        None => -1,
        Some(ls) => if t.numero is None || t.grupo@ != "biblioteca"@ {
            -1
        } else {
            let p = primeira_lista(ls, "arquivos"@, ls.len());
            let n = t.numero->Some_0;
            if p < 0 || !(1 <= n <= 12) || 12 - n >= ls[p].marcados@.len() {
                -1
            } else if ls[p].marcados@[12 - n] {
                1
            } else {
                0
            }
        },
    }
}

pub fn estado(listas: Option<&Vec<ListaDados>>, t: &Texto) -> (r: i32)
    ensures
        r == estado_spec(
            match listas {
                Some(ls) => Some(ls@),
                None => None,
            },
            *t,
        ),
{
    let ls = match listas {
        Some(ls) => ls,
        None => return -1,
    };
    let n = match t.numero {
        Some(n) => n,
        None => return -1,
    };
    if !mesmo_texto(t.grupo.as_str(), "biblioteca") {
        return -1;
    }
    let mut p: usize = 0;
    while p < ls.len() && !mesmo_texto(ls[p].chave.as_str(), "arquivos")
        invariant
            p <= ls@.len(),
            primeira_lista(ls@, "arquivos"@, p as nat) == -1,
        decreases ls@.len() - p,
    {
        p += 1;
    }
    proof {
        lema_primeira_lista(ls@, "arquivos"@, ls@.len());
    }
    if p == ls.len() {
        return -1;
    }
    assert(primeira_lista(ls@, "arquivos"@, (p + 1) as nat) == p);
    proof {
        lema_primeira_estavel(ls@, "arquivos"@, (p + 1) as nat, ls@.len());
    }
    let lista = &ls[p];
    match indice_desbloqueio(n) {
        Some(j) => if j < lista.marcados.len() {
            if lista.marcados[j] {
                1
            } else {
                0
            }
        } else {
            -1
        },
        None => -1,
    }
}

/// Achada entre as `k` primeiras, a lista continua a mesma entre as `n`.
proof fn lema_primeira_estavel(ls: Seq<ListaDados>, c: Seq<char>, k: nat, n: nat)
    requires
        k <= n,
        primeira_lista(ls, c, k) >= 0,
    ensures
        primeira_lista(ls, c, n) == primeira_lista(ls, c, k),
    decreases n - k,
{
    if n > k {
        lema_primeira_estavel(ls, c, k, (n - 1) as nat);
    }
}

// ---------------------------------------------------------------- a lista e as páginas da História

/// Uma linha da lista da História como a tela mostra.
pub struct TextoLista {
    pub titulo: String,
    pub cabecalho: bool,
    pub estado: i32,
}

/// O nome do cabeçalho `j` da lista da História.
pub open spec fn nome_cabecalho(j: nat) -> Seq<char> {
    if j == 0 {
        "BIBLIOTECA"@
    } else if j == 1 {
        "DOCUMENTOS DAS FASES"@
    } else if j == 2 {
        "DOCUMENTOS DAS DLCs"@
    } else if j == 3 {
        "REGISTROS DE ARQUIVO (FILE)"@
    } else {
        Seq::empty()
    }
}

fn nome_cabecalho_exec(j: usize) -> (r: &'static str)
    ensures
        r@ == nome_cabecalho(j as nat),
{
    if j == 0 {
        "BIBLIOTECA"
    } else if j == 1 {
        "DOCUMENTOS DAS FASES"
    } else if j == 2 {
        "DOCUMENTOS DAS DLCs"
    } else if j == 3 {
        "REGISTROS DE ARQUIVO (FILE)"
    } else {
        proof {
            assert(""@ =~= Seq::<char>::empty()) by {
                reveal_strlit("");
            }
        }
        ""
    }
}

/// Quantos cabeçalhos há entre as `n` primeiras linhas.
pub open spec fn cabecalhos(ls: Seq<Linha>, n: nat) -> nat
    decreases n,
{
    if n == 0 {
        0
    } else {
        cabecalhos(ls, (n - 1) as nat) + if ls[n - 1] == Linha::Cabecalho {
            1nat
        } else {
            0nat
        }
    }
}

/// A linha `i` da lista da História: os cabeçalhos recebem os nomes na
/// ordem, cada texto o título em português e a situação no save, e a última o
/// nome dos registros File.
pub open spec fn linha_historia_ok(
    v: &TextoLista,
    c: &Catalogo,
    listas: Option<Seq<ListaDados>>,
    i: int,
) -> bool {
    match c.linhas@[i] {
        Linha::Cabecalho => v.titulo@ == nome_cabecalho(cabecalhos(c.linhas@, i as nat)) && v.cabecalho && v.estado
            == -1,
        Linha::Texto(t) => v.titulo@ == c.textos@[t as int].titulo_pt@ && !v.cabecalho && v.estado == estado_spec(
            listas,
            c.textos@[t as int],
        ),
        Linha::Arquivos => v.titulo@ == "File 01–0F"@ && !v.cabecalho && v.estado == -1,
    }
}

impl Catalogo {
    /// As linhas só apontam para textos que existem.
    pub open spec fn bem_formado(&self) -> bool {
        forall|i: int|
            0 <= i < self.linhas@.len() ==> (#[trigger] self.linhas@[i] matches Linha::Texto(t) ==> t
                < self.textos@.len())
    }

    /// A lista da História, com a situação de cada arquivo da Biblioteca no
    /// save aberto (`listas`, se houver um).
    pub fn mostrar_historia(&self, listas: Option<&Vec<ListaDados>>) -> (r: Vec<TextoLista>)
        requires
            self.bem_formado(),
        ensures
            r@.len() == self.linhas@.len(),
            forall|i: int|
                0 <= i < r@.len() ==> linha_historia_ok(
                    #[trigger] &r@[i],
                    self,
                    match listas {
                        Some(ls) => Some(ls@),
                        None => None,
                    },
                    i,
                ),
    {
        let ghost lv = match listas {
            Some(ls) => Some(ls@),
            None => None::<Seq<ListaDados>>,
        };
        let mut r: Vec<TextoLista> = Vec::new();
        let mut cab: usize = 0;
        let mut i: usize = 0;
        while i < self.linhas.len()
            invariant
                self.bem_formado(),
                lv == match listas {
                    Some(ls) => Some(ls@),
                    None => None::<Seq<ListaDados>>,
                },
                i <= self.linhas@.len(),
                cab == cabecalhos(self.linhas@, i as nat),
                cab <= i,
                r@.len() == i,
                forall|k: int| 0 <= k < i ==> linha_historia_ok(#[trigger] &r@[k], self, lv, k),
            decreases self.linhas@.len() - i,
        {
            let v = match self.linhas[i] {
                Linha::Cabecalho => {
                    let t = nome_cabecalho_exec(cab);
                    cab += 1;
                    TextoLista { titulo: t.to_owned(), cabecalho: true, estado: -1 }
                },
                Linha::Texto(t) => {
                    assert(self.linhas@[i as int] matches Linha::Texto(t2) ==> t2 < self.textos@.len());
                    let tx = &self.textos[t];
                    TextoLista { titulo: tx.titulo_pt.clone(), cabecalho: false, estado: estado(listas, tx) }
                },
                Linha::Arquivos => TextoLista { titulo: "File 01–0F".to_owned(), cabecalho: false, estado: -1 },
            };
            r.push(v);
            i += 1;
        }
        r
    }

    /// O que a linha `i` da História abre: título, subtítulo e páginas; nada
    /// para um cabeçalho ou uma linha que não existe.
    pub fn escolher_texto(&self, i: i32, listas: Option<&Vec<ListaDados>>, itens: &Itens) -> (r: Option<(String, String, Vec<String>)>)
        requires
            self.bem_formado(),
            itens.bem_formado(),
        ensures
            ({
                let k = if i < 0 {
                    0
                } else {
                    i as int
                };
                let lv = match listas {
                    Some(ls) => Some(ls@),
                    None => None,
                };
                if k >= self.linhas@.len() {
                    r is None
                } else {
                    match self.linhas@[k] {
                        Linha::Cabecalho => r is None,
                        Linha::Texto(t) => r matches Some((a, b, p)) && a@ == self.textos@[t as int].titulo_pt@
                            && b@ == subtitulo_spec(self.textos@[t as int], estado_spec(lv, self.textos@[t as int]))
                            && p@.len() == self.textos@[t as int].paginas_pt@.len() && forall|q: int|
                            0 <= q < p@.len() ==> (#[trigger] p@[q])@ == self.textos@[t as int].paginas_pt@[q]@,
                        Linha::Arquivos => r matches Some((a, b, p)) && pagina_arquivos_ok(a@, b@, p@, itens),
                    }
                }
            }),
    {
        let k: usize = if i < 0 {
            0
        } else {
            i as usize
        };
        if k >= self.linhas.len() {
            return None;
        }
        match self.linhas[k] {
            Linha::Cabecalho => None,
            Linha::Texto(t) => {
                assert(self.linhas@[k as int] matches Linha::Texto(t2) ==> t2 < self.textos@.len());
                let tx = &self.textos[t];
                let e = estado(listas, tx);
                let sub = subtitulo(tx, e);
                let mut paginas: Vec<String> = Vec::new();
                let mut q: usize = 0;
                while q < tx.paginas_pt.len()
                    invariant
                        q <= tx.paginas_pt@.len(),
                        paginas@.len() == q,
                        forall|j: int| 0 <= j < q ==> (#[trigger] paginas@[j])@ == tx.paginas_pt@[j]@,
                    decreases tx.paginas_pt@.len() - q,
                {
                    paginas.push(tx.paginas_pt[q].clone());
                    q += 1;
                }
                Some((tx.titulo_pt.clone(), sub, paginas))
            },
            Linha::Arquivos => {
                let (a, b, p) = pagina_arquivos(itens);
                Some((a, b, p))
            },
        }
    }
}

/// O subtítulo de um texto da História: onde ele fica e, na Biblioteca, se
/// está desbloqueado no save; com o título em inglês do jogo quando o
/// título em português é outro.
pub open spec fn subtitulo_spec(t: Texto, estado: int) -> Seq<char> {
    let base = if t.grupo@ == "biblioteca"@ {
        "Biblioteca · arquivo "@ + decimal(
            match t.numero {
                Some(n) => n as nat,
                None => 0,
            },
        ) + " de 12"@ + if estado == 1 {
            " · desbloqueado neste save"@
        } else if estado == 0 {
            " · bloqueado neste save"@
        } else {
            Seq::empty()
        }
    } else if t.grupo@ == "documento"@ {
        "Documento encontrado nas fases"@
    } else {
        "Documento das DLCs (Lost in Nightmares)"@
    };
    if t.titulo_pt@ == t.titulo@ {
        base
    } else {
        base + " · original: "@ + t.titulo@
    }
}

fn subtitulo(t: &Texto, estado: i32) -> (r: String)
    ensures
        r@ == subtitulo_spec(*t, estado as int),
{
    let mut r = if mesmo_texto(t.grupo.as_str(), "biblioteca") {
        let mut s = String::from_str("Biblioteca · arquivo ");
        let n = match t.numero {
            Some(n) => n,
            None => 0,
        };
        junta(&mut s, &decimal_exec(n as u64));
        s.append(" de 12");
        if estado == 1 {
            s.append(" · desbloqueado neste save");
        } else if estado == 0 {
            s.append(" · bloqueado neste save");
        } else {
            assert(s@ + Seq::<char>::empty() =~= s@);
        }
        s
    } else if mesmo_texto(t.grupo.as_str(), "documento") {
        String::from_str("Documento encontrado nas fases")
    } else {
        String::from_str("Documento das DLCs (Lost in Nightmares)")
    };
    if !mesmo_texto(t.titulo_pt.as_str(), t.titulo.as_str()) {
        r.append(" · original: ");
        r.append(t.titulo.as_str());
    }
    r
}

/// Quantas vezes um registro File aparece nas fases, por extenso.
pub open spec fn fases_spec(n: u32) -> Seq<char> {
    if n == 0 {
        "não aparece nas fases do jogo base"@
    } else if n == 1 {
        "1 vez nas fases"@
    } else {
        decimal(n as nat) + " vezes nas fases"@
    }
}

/// A linha de um registro File: "0x0701  interno  —  fases".
pub open spec fn linha_arquivo(i: Item) -> Seq<char> {
    "0x"@ + hex4_m(i.id as nat) + "  "@ + i.interno@ + "  —  "@ + fases_spec(i.colocacoes)
}

/// As linhas juntas, separadas por quebras de linha.
pub open spec fn juntas(ls: Seq<Seq<char>>) -> Seq<char>
    decreases ls.len(),
{
    if ls.len() == 0 {
        Seq::empty()
    } else if ls.len() == 1 {
        ls[0]
    } else {
        juntas(ls.drop_last()) + seq!['\n'] + ls.last()
    }
}

/// A página dos registros File: título, subtítulo, dois parágrafos e a
/// lista dos registros (menos o 0x0700), em ordem de ID.
pub open spec fn pagina_arquivos_ok(a: Seq<char>, b: Seq<char>, p: Seq<String>, itens: &Itens) -> bool {
    &&& a == "Registros File 01–0F"@
    &&& b == "Classe 0x07 da tabela de itens · somente consulta"@
    &&& p.len() == 3
    &&& p[0]@ == paragrafo_1()
    &&& p[1]@ == paragrafo_2()
    &&& exists|s: Seq<u32>| #[trigger] selecao_ok(itens.mapa(), s, Selecao::Arquivos) && p[2]@ == lista_arquivos(s, itens)
}

/// Os IDs, menos o 0x0700 (o registro File vazio).
pub open spec fn sem_0700(s: Seq<u32>) -> Seq<u32>
    decreases s.len(),
{
    if s.len() == 0 {
        Seq::empty()
    } else if s.last() == 0x0700 {
        sem_0700(s.drop_last())
    } else {
        sem_0700(s.drop_last()).push(s.last())
    }
}

/// As linhas dos registros File dados, juntas.
pub open spec fn lista_arquivos(s: Seq<u32>, itens: &Itens) -> Seq<char> {
    let f = sem_0700(s);
    juntas(Seq::new(f.len(), |k: int| linha_arquivo(itens.mapa()[f[k]])))
}

fn fases(n: u32) -> (r: String)
    ensures
        r@ == fases_spec(n),
{
    if n == 0 {
        String::from_str("não aparece nas fases do jogo base")
    } else if n == 1 {
        String::from_str("1 vez nas fases")
    } else {
        let mut r = texto_de(&decimal_exec(n as u64));
        r.append(" vezes nas fases");
        r
    }
}

fn linha_arquivo_exec(i: &Item) -> (r: String)
    ensures
        r@ == linha_arquivo(*i),
{
    let mut r = String::from_str("0x");
    junta(&mut r, &hex4_m_exec(i.id));
    r.append("  ");
    r.append(i.interno.as_str());
    r.append("  —  ");
    r.append(fases(i.colocacoes).as_str());
    r
}

/// A página dos registros File (classe 0x07), que só explica o que eles são.
pub fn pagina_arquivos(itens: &Itens) -> (r: (String, String, Vec<String>))
    requires
        itens.bem_formado(),
    ensures
        pagina_arquivos_ok(r.0@, r.1@, r.2@, itens),
{
    let sel = itens.arquivos();
    let ghost s = ids(sel@);
    let ghost m = itens.mapa();
    let mut lista = String::new();
    let mut n: usize = 0;
    let mut i: usize = 0;
    assert(s.take(0) =~= Seq::<u32>::empty());
    while i < sel.len()
        invariant
            s == ids(sel@),
            m == itens.mapa(),
            forall|j: int| 0 <= j < sel@.len() ==> *sel@[j] == m[sel@[j].id],
            i <= sel@.len(),
            n == sem_0700(s.take(i as int)).len(),
            n <= i,
            lista@ == juntas(Seq::new(n as nat, |k: int| linha_arquivo(m[sem_0700(s.take(i as int))[k]]))),
        decreases sel@.len() - i,
    {
        let it = sel[i];
        let ghost f0 = sem_0700(s.take(i as int));
        assert(s.take(i + 1).drop_last() =~= s.take(i as int));
        assert(s.take(i + 1).last() == it.id);
        if it.id != 0x0700 {
            let linha = linha_arquivo_exec(it);
            let ghost antes = lista@;
            if n > 0 {
                lista.append("\n");
            }
            lista.append(linha.as_str());
            proof {
                let f1 = sem_0700(s.take(i + 1));
                assert(f1 == f0.push(it.id));
                let novas = Seq::new((n + 1) as nat, |k: int| linha_arquivo(m[f1[k]]));
                let velhas = Seq::new(n as nat, |k: int| linha_arquivo(m[f0[k]]));
                assert(novas.drop_last() =~= velhas);
                assert(novas.last() == linha_arquivo(*it));
                if n > 0 {
                    assert("\n"@ == seq!['\n']) by {
                        reveal_strlit("\n");
                    }
                    assert(lista@ =~= juntas(velhas) + seq!['\n'] + novas.last());
                } else {
                    assert(antes =~= Seq::<char>::empty());
                    assert(lista@ =~= novas.last());
                }
            }
            n += 1;
        } else {
            proof {
                let f1 = sem_0700(s.take(i + 1));
                assert(f1 == f0);
            }
        }
        i += 1;
    }
    assert(s.take(sel@.len() as int) =~= s);
    let p1 = String::from_str(
        "São os papéis e cadernos que o jogador pega nas fases. O jogo não dá nome a eles, e o texto que abre não depende do ID: quem escolhe o documento é o script da fase. Por isso eles não têm título aqui.",
    );
    let p2 = String::from_str(
        "O File 01 é o \"manual\" genérico que abre as páginas do BSAA Training Manual nos tutoriais. Os textos que os outros abrem estão nas listas acima.",
    );
    let paginas = vec![p1, p2, lista];
    assert(selecao_ok(itens.mapa(), s, Selecao::Arquivos));
    (String::from_str("Registros File 01–0F"), String::from_str("Classe 0x07 da tabela de itens · somente consulta"), paginas)
}

pub open spec fn paragrafo_1() -> Seq<char> {
    "São os papéis e cadernos que o jogador pega nas fases. O jogo não dá nome a eles, e o texto que abre não depende do ID: quem escolhe o documento é o script da fase. Por isso eles não têm título aqui."@
}

pub open spec fn paragrafo_2() -> Seq<char> {
    "O File 01 é o \"manual\" genérico que abre as páginas do BSAA Training Manual nos tutoriais. Os textos que os outros abrem estão nas listas acima."@
}

} // verus!
