//! Onde ficam o keyvault e por onde os diálogos começam. Os caminhos e o que
//! existe no disco vêm de fora; aqui fica a escolha.
use vstd::prelude::*;

verus! {

/// A posição do primeiro candidato que existe; -1 se nenhum existe.
pub open spec fn primeiro_existente(c: Seq<(String, bool)>) -> int
    decreases c.len(),
{
    if c.len() == 0 {
        -1
    } else if c[0].1 {
        0
    } else {
        let r = primeiro_existente(c.drop_first());
        if r < 0 {
            -1
        } else {
            r + 1
        }
    }
}

proof fn lema_primeiro(c: Seq<(String, bool)>, k: int)
    requires
        0 <= k <= c.len(),
        forall|j: int| 0 <= j < k ==> !(#[trigger] c[j]).1,
    ensures
        k < c.len() && c[k].1 ==> primeiro_existente(c) == k,
        k == c.len() ==> primeiro_existente(c) == -1,
    decreases k,
{
    if k > 0 {
        assert(!c[0].1);
        assert forall|j: int| 0 <= j < k - 1 implies !(#[trigger] c.drop_first()[j]).1 by {
            assert(c.drop_first()[j] == c[j + 1]);
        }
        lema_primeiro(c.drop_first(), k - 1);
    } else if c.len() == 0 {
    }
}

fn primeiro(c: &Vec<(String, bool)>) -> (r: Option<usize>)
    ensures
        match r {
            Some(i) => i < c@.len() && primeiro_existente(c@) == i,
            None => primeiro_existente(c@) == -1,
        },
{
    let mut k: usize = 0;
    while k < c.len() && !c[k].1
        invariant
            k <= c@.len(),
            forall|j: int| 0 <= j < k ==> !(#[trigger] c@[j]).1,
        decreases c@.len() - k,
    {
        k += 1;
    }
    proof {
        lema_primeiro(c@, k as int);
    }
    if k < c.len() {
        Some(k)
    } else {
        None
    }
}

/// Keyvault do console: o primeiro dos lugares (`console/kv.bin` ao lado
/// do programa; no Linux, também o de ~/horizon_final) que é um arquivo.
/// Cada candidato vem com o caminho e se ele existe.
pub fn keyvault(candidatos: Vec<(String, bool)>) -> (r: Option<String>)
    ensures
        match r {
            Some(p) => primeiro_existente(candidatos@) >= 0 && p == candidatos@[primeiro_existente(candidatos@)].0,
            None => primeiro_existente(candidatos@) == -1,
        },
{
    match primeiro(&candidatos) {
        Some(i) => Some(candidatos[i].0.clone()),
        None => None,
    }
}

/// A pasta que contém o caminho, como `std::path::Path::parent` a dá.
pub uninterp spec fn pasta_pai_spec(p: Seq<char>) -> Option<Seq<char>>;

/// `std::path::Path::parent` sobre o caminho dado: o caminho sem o último
/// componente, ou nada quando ele termina numa raiz ou num prefixo, ou é
/// vazio. O contrato só dá o nome do resultado; as regras de componentes de
/// cada sistema não são descritas.
#[verifier::external_body]
fn pasta_pai(p: &str) -> (r: Option<String>)
    ensures
        match r {
            Some(x) => pasta_pai_spec(p@) == Some(x@),
            None => pasta_pai_spec(p@) is None,
        },
{
    std::path::Path::new(p).parent().map(|x| x.to_string_lossy().into_owned())
}

/// Onde os diálogos começam quando a pasta do save aberto (`pai`) já é
/// conhecida: ela, se houver; senão o primeiro lugar provável que existe
/// (as pastas de saves do Xbox em Documentos e a do Steam); senão a pasta
/// pessoal.
pub open spec fn pasta_inicial_spec(pai: Option<Seq<char>>, provaveis: Seq<(String, bool)>, home: Seq<char>) -> Seq<
    char,
> {
    match pai {
        Some(p) => p,
        None => if primeiro_existente(provaveis) >= 0 {
            provaveis[primeiro_existente(provaveis)].0@
        } else {
            home
        },
    }
}

/// Onde os diálogos começam: a pasta que contém o save aberto (`atual`), se
/// houver; senão o primeiro lugar provável que existe; senão a pasta
/// pessoal.
pub fn pasta_inicial(atual: Option<String>, provaveis: Vec<(String, bool)>, home: String) -> (r: String)
    ensures
        r@ == pasta_inicial_spec(
            match atual {
                Some(a) => pasta_pai_spec(a@),
                None => None,
            },
            provaveis@,
            home@,
        ),
{
    let pai = match &atual {
        Some(a) => pasta_pai(a.as_str()),
        None => None,
    };
    pasta_de(pai, provaveis, home)
}

/// A escolha de `pasta_inicial` a partir da pasta do save já calculada.
pub fn pasta_de(pai: Option<String>, provaveis: Vec<(String, bool)>, home: String) -> (r: String)
    ensures
        r@ == pasta_inicial_spec(
            match pai {
                Some(p) => Some(p@),
                None => None,
            },
            provaveis@,
            home@,
        ),
{
    if let Some(p) = pai {
        return p;
    }
    match primeiro(&provaveis) {
        Some(i) => provaveis[i].0.clone(),
        None => home,
    }
}

} // verus!
