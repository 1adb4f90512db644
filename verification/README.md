# re5_save_editor

Leitura e edição de saves do Resident Evil 5 (Xbox 360 e PC/Steam), escrita
em Verus: cada função da biblioteca tem contrato (`requires` / `ensures`) e
prova.

## Organização

`src/` é a biblioteca verificada:

| módulo       | o quê |
|--------------|-------|
| `bytes`      | palavras de 32 bits nas duas ordens de bytes |
| `texto`      | caracteres, espaços, números decimais e hexadecimais |
| `erro`       | os erros e o texto de cada um |
| `pc`         | a cifra XOR do save de PC |
| `interno`    | o savedata.bin: checksum, dinheiro, data e listas de desbloqueio |
| `sha`        | SHA-1 (crate `sha1`) |
| `stfs`       | o pacote STFS do Xbox 360: blocos, hashes, leitura e gravação |
| `releitura`  | provas de que o que se grava no pacote é lido de volta |
| `aritmetica` | primos, lema de Euclides, pequeno teorema de Fermat, RSA |
| `rsa`        | a assinatura do pacote com a chave do console (crate `num-bigint`) |
| `save`       | abrir, editar, montar e conferir um save |
| `modelos`    | o que a tela mostra: datas, milhares, listas, slots |
| `edicao`     | a edição na tela: validação dos campos e editor de slots |
| `itens`      | a tabela de itens e as classes |
| `historia`   | os textos da Biblioteca |
| `catalogo`   | as abas Itens Extras e História |
| `pastas`     | escolha do keyvault e da pasta inicial |

As leis da biblioteca são funções `proof` públicas com nome começando por
`lei_` (por exemplo `lei_pc_ida_e_volta`, `lei_grava_le`,
`lei_xbox_assinado_confere`, `lei_data_ida_e_volta`).

`app/` é o programa de linha de comando em torno da biblioteca (arquivos,
JSON, backups com data e hora); `tests/` são os testes.
