//! Textos da Biblioteca e documentos do jogo. Só leitura: nada disso vai
//! para o save.
use vstd::prelude::*;

verus! {

/// Um texto da Biblioteca, de uma fase ou de uma DLC.
pub struct Texto {
    /// "biblioteca", "documento" ou "dlc"
    pub grupo: String,
    /// Número na Biblioteca (1–12) ou na tabela de documentos; nenhum nas DLCs.
    pub numero: Option<u32>,
    /// Título e páginas originais (inglês, como no jogo).
    pub titulo: String,
    pub paginas: Vec<String>,
    /// Título e páginas em português, página a página.
    pub titulo_pt: String,
    pub paginas_pt: Vec<String>,
}

/// Posição do arquivo da Biblioteca (1–12) na lista de desbloqueios
/// "arquivos" do save, que vem na ordem inversa (Albert Wesker primeiro).
pub fn indice_desbloqueio(numero: u32) -> (r: Option<usize>)
    ensures
        r == if 1 <= numero <= 12 {
            Some((12 - numero) as usize)
        } else {
            None::<usize>
        },
{
    if 1 <= numero && numero <= 12 {
        Some(12 - numero as usize)
    } else {
        None
    }
}

} // verus!
