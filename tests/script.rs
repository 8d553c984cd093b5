use bitcoin::util::key::PublicKey;
use bitcoin_script::bitcoin_script;
use bitcoin_script::generate::{Base, Chain, Expression};
use bitcoin_script::opcodes::OpcodeTable;
use bitcoin_script::script::{evaluate, push_value, Pushable};
use bitcoin_script::token::{Span, Token, TokenKind};

fn at(i: usize) -> Span {
    Span { lo: i, hi: i }
}

fn ident(s: &str, i: usize) -> Token {
    Token { kind: TokenKind::Ident(s.to_string()), span: at(i) }
}

fn punct(c: char, i: usize) -> Token {
    Token { kind: TokenKind::Punct(c), span: at(i) }
}

fn lit(s: &str, i: usize) -> Token {
    Token { kind: TokenKind::Literal(s.to_string()), span: at(i) }
}

fn script_of(tokens: Vec<Token>, values: Vec<Pushable>) -> Vec<u8> {
    let table = OpcodeTable::build();
    let expr = bitcoin_script(&table, &tokens).unwrap();
    evaluate(&expr, &values).to_bytes()
}

#[test]
fn fixture() {
    let foo = vec![1, 2, 3, 4];
    let tokens = vec![
        ident("OP_HASH160", 0),
        lit("1234", 1),
        lit("255", 2),
        punct('-', 3),
        lit("1", 4),
        punct('-', 5),
        lit("255", 6),
        lit("0xabcd", 7),
        punct('<', 8),
        lit("1", 9),
        punct('+', 10),
        lit("1", 11),
        punct('>', 12),
        punct('<', 13),
        ident("foo", 14),
        punct('>', 15),
    ];
    let script = script_of(tokens, vec![Pushable::Int(1 + 1), Pushable::Bytes(foo)]);
    assert_eq!(script, vec![169, 2, 210, 4, 2, 255, 0, 79, 2, 255, 128, 2, 171, 205, 82, 4, 1, 2, 3, 4]);
}

#[test]
fn fixture_without_escapes() {
    let tokens = vec![
        ident("OP_HASH160", 0),
        lit("1234", 1),
        lit("255", 2),
        punct('-', 3),
        lit("1", 4),
        punct('-', 5),
        lit("255", 6),
        lit("0xabcd", 7),
    ];
    assert_eq!(
        script_of(tokens, vec![]),
        vec![169, 2, 210, 4, 2, 255, 0, 79, 2, 255, 128, 2, 171, 205]
    );
}

#[test]
fn empty_program_is_an_empty_script() {
    let table = OpcodeTable::build();
    let expr = bitcoin_script(&table, &vec![]).unwrap();
    assert!(matches!(expr.chain.base, Base::New));
    assert!(expr.chain.calls.is_empty());
    assert!(evaluate(&expr, &vec![]).to_bytes().is_empty());
}

#[test]
fn small_integers_use_dedicated_opcodes() {
    let tokens = vec![lit("0", 0), lit("16", 1), lit("17", 2), lit("-2", 3), punct('-', 4), lit("128", 5)];
    assert_eq!(
        script_of(tokens, vec![]),
        vec![0x00, 0x60, 1, 17, 0x01, 0x82, 2, 0x80, 0x80]
    );
}

#[test]
fn escape_between_opcodes() {
    let tokens = vec![
        ident("OP_HASH160", 0),
        punct('<', 1),
        ident("expr", 2),
        punct('>', 3),
        ident("OP_NOP", 4),
    ];
    assert_eq!(
        script_of(tokens, vec![Pushable::Bytes(vec![7, 8])]),
        vec![0xa9, 2, 7, 8, 0x61]
    );
}

#[test]
fn shim_pushes_each_kind() {
    let key = PublicKey::from_slice(&[
        0x02, 0x79, 0xbe, 0x66, 0x7e, 0xf9, 0xdc, 0xbb, 0xac, 0x55, 0xa0, 0x62, 0x95, 0xce, 0x87,
        0x0b, 0x07, 0x02, 0x9b, 0xfc, 0xdb, 0x2d, 0xce, 0x28, 0xd9, 0x59, 0xf2, 0x81, 0x5b, 0x16,
        0xf8, 0x17, 0x98,
    ])
    .unwrap();
    let b = bitcoin::blockdata::script::Builder::new();
    let b = push_value(b, &Pushable::Int(-1));
    let b = push_value(b, &Pushable::Bytes(vec![]));
    let b = push_value(b, &Pushable::Key(key));
    let bytes = b.into_script().to_bytes();
    assert_eq!(&bytes[..3], &[0x4f, 0x00, 33]);
    assert_eq!(bytes.len(), 3 + 33);
    assert_eq!(bytes[3], 0x02);
}

#[test]
fn long_data_gets_a_pushdata_prefix() {
    let data = vec![0xee; 300];
    let expr = Expression {
        chain: Chain {
            base: Base::New,
            calls: vec![(bitcoin_script::generate::Call::PushBytes(data.clone()), at(0))],
        },
    };
    let bytes = evaluate(&expr, &vec![]).to_bytes();
    assert_eq!(&bytes[..3], &[0x4d, 0x2c, 0x01]);
    assert_eq!(&bytes[3..], &data[..]);
}
