//! Leitura e edição do save do Resident Evil 5 (Xbox 360 e PC).
pub mod aritmetica;
pub mod bytes;
pub mod catalogo;
pub mod edicao;
pub mod erro;
pub mod historia;
pub mod interno;
pub mod itens;
pub mod modelos;
pub mod pastas;
pub mod pc;
pub mod releitura;
pub mod rsa;
pub mod save;
pub mod sha;
pub mod stfs;
pub mod texto;
