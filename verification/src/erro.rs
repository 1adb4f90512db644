//! Erros ao ler, editar ou montar um save.
use vstd::prelude::*;
use crate::texto::{caracteres, decimal, decimal_exec, junta};

verus! {

/// Por que uma operação sobre o save foi recusada.
#[derive(Debug, Clone)]
pub enum Erro {
    /// Um ID em hexadecimal não tem o tamanho certo (nome do campo, algarismos).
    HexInvalido(String, usize),
    DataInvalida,
    ListaDesconhecida(String),
    /// Uma lista veio com outro número de opções (título da lista).
    QuantidadeErrada(String),
    SteamIdInvalido,
    SlotInventarioInvalido,
    SlotPersonagemInvalido,
    NaoEStfs,
    PacoteGrande,
    PacoteTruncado,
    BlocoFora,
    SemSavedata,
    TamanhoMudou,
    KeyvaultInvalido,
    InternoPequeno,
    ArquivoPequeno,
    NaoReconhecido,
    NaoEXbox,
}

/// Texto mostrado para cada erro.
pub open spec fn mensagem_spec(e: Erro) -> Seq<char> {
    match e {
        Erro::HexInvalido(nome, n) => nome@ + " precisa ter "@ + decimal(n as nat)
            + " dígitos hexadecimais"@,
        Erro::DataInvalida => "data do save inválida"@,
        Erro::ListaDesconhecida(c) => "lista desconhecida: "@ + c@,
        Erro::QuantidadeErrada(t) => t@ + ": quantidade de opções errada"@,
        Erro::SteamIdInvalido => "Steam ID precisa ser um número"@,
        Erro::SlotInventarioInvalido => "slot do inventário inválido"@,
        Erro::SlotPersonagemInvalido => "slot de personagem inválido"@,
        Erro::NaoEStfs => "não é um pacote STFS (CON/LIVE/PIRS)"@,
        Erro::PacoteGrande => "pacote grande demais (mais de um nível de hash)"@,
        Erro::PacoteTruncado => "pacote truncado"@,
        Erro::BlocoFora => "bloco fora do pacote"@,
        Erro::SemSavedata => "savedata.bin não encontrado no pacote"@,
        Erro::TamanhoMudou => "o tamanho do arquivo interno não pode mudar"@,
        Erro::KeyvaultInvalido => "keyvault inválido"@,
        Erro::InternoPequeno => "o savedata.bin do pacote é pequeno demais para ser do RE5"@,
        Erro::ArquivoPequeno => "arquivo pequeno demais para ser um save do RE5"@,
        Erro::NaoReconhecido =>
            "não reconheci o arquivo: não é um pacote do Xbox 360 e, decifrado como save de PC, o checksum não bate"@,
        Erro::NaoEXbox => "esse arquivo não é um save do Xbox 360 (pacote CON)"@,
    }
}

/// Junta o texto de `s` ao fim de `r`.
pub fn anexa(r: &mut String, s: &str)
    ensures
        final(r)@ == old(r)@ + s@,
{
    let c = caracteres(s);
    junta(r, &c);
}

impl Erro {
    /// O texto do erro, em português.
    pub fn mensagem(&self) -> (r: String)
        ensures
            r@ == mensagem_spec(*self),
    {
        let mut r = String::new();
        match self {
            Erro::HexInvalido(nome, n) => {
                anexa(&mut r, nome.as_str());
                anexa(&mut r, " precisa ter ");
                let d = decimal_exec(*n as u64);
                junta(&mut r, &d);
                anexa(&mut r, " dígitos hexadecimais");
            },
            Erro::DataInvalida => anexa(&mut r, "data do save inválida"),
            Erro::ListaDesconhecida(c) => {
                anexa(&mut r, "lista desconhecida: ");
                anexa(&mut r, c.as_str());
            },
            Erro::QuantidadeErrada(t) => {
                anexa(&mut r, t.as_str());
                anexa(&mut r, ": quantidade de opções errada");
            },
            Erro::SteamIdInvalido => anexa(&mut r, "Steam ID precisa ser um número"),
            Erro::SlotInventarioInvalido => anexa(&mut r, "slot do inventário inválido"),
            Erro::SlotPersonagemInvalido => anexa(&mut r, "slot de personagem inválido"),
            Erro::NaoEStfs => anexa(&mut r, "não é um pacote STFS (CON/LIVE/PIRS)"),
            Erro::PacoteGrande => anexa(&mut r, "pacote grande demais (mais de um nível de hash)"),
            Erro::PacoteTruncado => anexa(&mut r, "pacote truncado"),
            Erro::BlocoFora => anexa(&mut r, "bloco fora do pacote"),
            Erro::SemSavedata => anexa(&mut r, "savedata.bin não encontrado no pacote"),
            Erro::TamanhoMudou => anexa(&mut r, "o tamanho do arquivo interno não pode mudar"),
            Erro::KeyvaultInvalido => anexa(&mut r, "keyvault inválido"),
            Erro::InternoPequeno => anexa(
                &mut r,
                "o savedata.bin do pacote é pequeno demais para ser do RE5",
            ),
            Erro::ArquivoPequeno => anexa(&mut r, "arquivo pequeno demais para ser um save do RE5"),
            Erro::NaoReconhecido => anexa(
                &mut r,
                "não reconheci o arquivo: não é um pacote do Xbox 360 e, decifrado como save de PC, o checksum não bate",
            ),
            Erro::NaoEXbox => anexa(&mut r, "esse arquivo não é um save do Xbox 360 (pacote CON)"),
        }
        r
    }
}

} // verus!
