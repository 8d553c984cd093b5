use bitcoin::blockdata::opcodes::all as opcodes;
use bitcoin_script::literal::{hex_bytes, parse_decimal};
use bitcoin_script::opcodes::OpcodeTable;
use bitcoin_script::parse::{parse, Diagnostic, ErrorKind, Parsed, Syntax, NOP_CODE};
use bitcoin_script::token::{Span, Token, TokenKind};

fn at(i: usize) -> Span {
    Span { lo: i, hi: i }
}

fn ident(s: &str, i: usize) -> Token {
    Token { kind: TokenKind::Ident(s.to_string()), span: at(i) }
}

fn punct(c: char, i: usize) -> Token {
    Token { kind: TokenKind::Punct(c), span: at(i) }
}

fn lit(s: &str, i: usize) -> Token {
    Token { kind: TokenKind::Literal(s.to_string()), span: at(i) }
}

fn run(tokens: Vec<Token>) -> Result<Parsed, Vec<Diagnostic>> {
    let table = OpcodeTable::build();
    parse(&table, &tokens)
}

fn kinds(ds: &[Diagnostic]) -> Vec<ErrorKind> {
    ds.iter().map(|d| d.kind).collect()
}

#[test]
fn parse_empty() {
    let parsed = run(vec![]).unwrap();
    assert!(parsed.program.is_empty());
    assert!(parsed.diagnostics.is_empty());
}

#[test]
fn parse_unexpected_token() {
    let ds = run(vec![ident("OP_CHECKSIG", 0), punct('&', 1)]).unwrap_err();
    assert_eq!(ds, vec![Diagnostic { kind: ErrorKind::UnexpectedToken, span: at(1) }]);
}

#[test]
fn parse_invalid_opcode() {
    let parsed = run(vec![ident("OP_CHECKSIG", 0), ident("A", 1), ident("B", 2)]).unwrap();
    assert_eq!(
        parsed.diagnostics,
        vec![
            Diagnostic { kind: ErrorKind::UnknownOpcode, span: at(1) },
            Diagnostic { kind: ErrorKind::UnknownOpcode, span: at(2) },
        ]
    );
    assert_eq!(parsed.program.len(), 3);
}

#[test]
fn parse_opcodes() {
    let parsed = run(vec![ident("OP_CHECKSIG", 0), ident("OP_HASH160", 1)]).unwrap();
    if let Syntax::Opcode(opcode) = parsed.program[0].0 {
        assert_eq!(opcode.code, opcodes::OP_CHECKSIG.into_u8());
    } else {
        panic!();
    }
    if let Syntax::Opcode(opcode) = parsed.program[1].0 {
        assert_eq!(opcode.code, opcodes::OP_HASH160.into_u8());
    } else {
        panic!();
    }
}

#[test]
fn parse_unterminated_escape() {
    let ds = run(vec![ident("OP_CHECKSIG", 0), punct('<', 1), ident("abc", 2)]).unwrap_err();
    assert_eq!(ds, vec![Diagnostic { kind: ErrorKind::UnterminatedEscape, span: at(1) }]);
}

#[test]
fn parse_escape() {
    let parsed =
        run(vec![ident("OP_CHECKSIG", 0), punct('<', 1), ident("abc", 2), punct('>', 3)]).unwrap();
    if let Syntax::Escape(tokens) = &parsed.program[1].0 {
        assert_eq!(tokens.len(), 1);
        if let TokenKind::Ident(name) = &tokens[0].kind {
            assert_eq!(name, "abc");
        } else {
            panic!()
        }
    } else {
        panic!()
    }
    assert_eq!(parsed.program[1].1, Span { lo: 1, hi: 3 });
}

#[test]
fn parse_invalid_int() {
    let parsed = run(vec![ident("OP_CHECKSIG", 0), lit("12g34", 1)]).unwrap();
    assert_eq!(
        parsed.diagnostics,
        vec![Diagnostic { kind: ErrorKind::InvalidNumberLiteral, span: at(1) }]
    );
    assert!(matches!(parsed.program[1].0, Syntax::Int(0)));
}

#[test]
fn parse_int() {
    let parsed = run(vec![ident("OP_CHECKSIG", 0), lit("1234", 1)]).unwrap();
    if let Syntax::Int(n) = parsed.program[1].0 {
        assert_eq!(n, 1234i64);
    } else {
        panic!()
    }
}

#[test]
fn parse_invalid_negative_sign() {
    let parsed = run(vec![ident("OP_CHECKSIG", 0), punct('-', 1), ident("OP_HASH160", 2)]).unwrap();
    assert_eq!(
        parsed.diagnostics,
        vec![Diagnostic { kind: ErrorKind::MalformedNegation, span: at(1) }]
    );
}

#[test]
fn parse_negative_int() {
    let parsed = run(vec![ident("OP_CHECKSIG", 0), punct('-', 1), lit("1234", 2)]).unwrap();
    if let Syntax::Int(n) = parsed.program[1].0 {
        assert_eq!(n, -1234i64);
    } else {
        panic!()
    }
    assert!(parsed.diagnostics.is_empty());
}

#[test]
fn parse_invalid_hex() {
    let parsed = run(vec![ident("OP_CHECKSIG", 0), lit("0x123", 1)]).unwrap();
    assert_eq!(
        parsed.diagnostics,
        vec![Diagnostic { kind: ErrorKind::InvalidHexLiteral, span: at(1) }]
    );
    if let Syntax::Bytes(bytes) = &parsed.program[1].0 {
        assert!(bytes.is_empty());
    } else {
        panic!()
    }
}

#[test]
fn parse_hex() {
    let parsed = run(vec![ident("OP_CHECKSIG", 0), lit("0x1234", 1)]).unwrap();
    if let Syntax::Bytes(bytes) = &parsed.program[1].0 {
        assert_eq!(bytes, &vec![0x12, 0x34]);
    } else {
        panic!()
    }
}

#[test]
fn hex_literal_four_bytes() {
    let parsed = run(vec![lit("0x01020304", 0)]).unwrap();
    assert!(parsed.diagnostics.is_empty());
    if let Syntax::Bytes(bytes) = &parsed.program[0].0 {
        assert_eq!(bytes, &vec![1, 2, 3, 4]);
    } else {
        panic!()
    }
}

#[test]
fn hex_literal_with_bad_digit() {
    let parsed = run(vec![lit("0xzz", 0)]).unwrap();
    assert_eq!(kinds(&parsed.diagnostics), vec![ErrorKind::InvalidHexLiteral]);
}

#[test]
fn hex_decoding_mixed_case() {
    assert_eq!(hex_bytes("aBcD"), Some(vec![0xab, 0xcd]));
    assert_eq!(hex_bytes(""), Some(vec![]));
    assert_eq!(hex_bytes("abc"), None);
    assert_eq!(hex_bytes("0g"), None);
}

#[test]
fn negative_int_scenario() {
    let parsed = run(vec![punct('-', 0), lit("1234", 1)]).unwrap();
    assert!(matches!(parsed.program[0].0, Syntax::Int(-1234)));
    assert_eq!(parsed.program.len(), 1);
}

#[test]
fn bare_minus_at_end() {
    let parsed = run(vec![ident("OP_NOP", 0), punct('-', 1)]).unwrap();
    assert_eq!(
        parsed.diagnostics,
        vec![Diagnostic { kind: ErrorKind::MalformedNegation, span: at(1) }]
    );
    assert!(matches!(parsed.program[1].0, Syntax::Int(0)));
}

#[test]
fn minus_before_hex_is_malformed() {
    let parsed = run(vec![punct('-', 0), lit("0xab", 1), lit("7", 2)]).unwrap();
    assert_eq!(kinds(&parsed.diagnostics), vec![ErrorKind::MalformedNegation]);
    assert_eq!(parsed.program.len(), 2);
    assert!(matches!(parsed.program[1].0, Syntax::Int(7)));
}

#[test]
fn unknown_identifier_does_not_stop_the_parse() {
    let parsed =
        run(vec![ident("NOT_AN_OPCODE", 0), ident("OP_DUP", 1), lit("5", 2), ident("XYZ", 3)]).unwrap();
    assert_eq!(parsed.program.len(), 4);
    assert!(matches!(parsed.program[0].0, Syntax::Opcode(op) if op.code == NOP_CODE));
    assert!(matches!(parsed.program[1].0, Syntax::Opcode(op) if op.code == opcodes::OP_DUP.into_u8()));
    assert!(matches!(parsed.program[2].0, Syntax::Int(5)));
    assert_eq!(
        parsed.diagnostics,
        vec![
            Diagnostic { kind: ErrorKind::UnknownOpcode, span: at(0) },
            Diagnostic { kind: ErrorKind::UnknownOpcode, span: at(3) },
        ]
    );
}

#[test]
fn identifiers_keep_length_and_order() {
    let names = ["OP_DUP", "OP_HASH160", "OP_EQUALVERIFY", "OP_CHECKSIG"];
    let tokens: Vec<Token> = names.iter().enumerate().map(|(i, n)| ident(n, i)).collect();
    let parsed = run(tokens).unwrap();
    let codes: Vec<u8> = parsed
        .program
        .iter()
        .map(|(s, _)| match s {
            Syntax::Opcode(op) => op.code,
            _ => panic!(),
        })
        .collect();
    assert_eq!(codes, vec![0x76, 0xa9, 0x88, 0xac]);
    let spans: Vec<Span> = parsed.program.iter().map(|(_, s)| *s).collect();
    assert_eq!(spans, vec![at(0), at(1), at(2), at(3)]);
}

#[test]
fn errors_before_a_fatal_one_are_kept() {
    let ds = run(vec![ident("NOPE", 0), lit("0x1", 1), punct('<', 2), ident("x", 3)]).unwrap_err();
    assert_eq!(
        kinds(&ds),
        vec![ErrorKind::UnknownOpcode, ErrorKind::InvalidHexLiteral, ErrorKind::UnterminatedEscape]
    );
}

#[test]
fn group_is_unexpected() {
    let group = Token { kind: TokenKind::Group("(a)".to_string()), span: at(0) };
    let ds = run(vec![group, ident("OP_NOP", 1)]).unwrap_err();
    assert_eq!(ds, vec![Diagnostic { kind: ErrorKind::UnexpectedToken, span: at(0) }]);
}

#[test]
fn escape_ends_at_first_closing_bracket() {
    let parsed = run(vec![
        punct('<', 0),
        ident("a", 1),
        punct('<', 2),
        ident("b", 3),
        punct('>', 4),
        ident("OP_NOP", 5),
    ])
    .unwrap();
    assert_eq!(parsed.program.len(), 2);
    if let Syntax::Escape(tokens) = &parsed.program[0].0 {
        assert_eq!(tokens.len(), 3);
    } else {
        panic!()
    }
}

#[test]
fn decimal_edges() {
    assert_eq!(parse_decimal("9223372036854775807"), Some(i64::MAX));
    assert_eq!(parse_decimal("9223372036854775808"), None);
    assert_eq!(parse_decimal("-9223372036854775808"), Some(i64::MIN));
    assert_eq!(parse_decimal("+5"), Some(5));
    assert_eq!(parse_decimal("007"), Some(7));
    assert_eq!(parse_decimal("-"), None);
    assert_eq!(parse_decimal(""), None);
    assert_eq!(parse_decimal("12g34"), None);
    assert_eq!(parse_decimal("123456789012345678901234567890"), None);
}

#[test]
fn negating_the_most_negative_literal_is_invalid() {
    let parsed = run(vec![punct('-', 0), lit("-9223372036854775808", 1)]).unwrap();
    assert_eq!(kinds(&parsed.diagnostics), vec![ErrorKind::InvalidNumberLiteral]);
}

#[test]
fn opcode_table_names() {
    let table = OpcodeTable::build();
    let op = table.lookup(&"OP_CHECKSIG".to_string()).unwrap();
    assert_eq!(op.code, 0xac);
    assert_eq!(table.lookup(&"OP_PUSHBYTES_0".to_string()).unwrap().code, 0);
    assert_eq!(table.lookup(&"OP_PUSHNUM_16".to_string()).unwrap().code, 0x60);
    assert_eq!(table.lookup(&"OP_CSV".to_string()).unwrap().code, 0xb2);
    assert_eq!(table.lookup(&"OP_FOO".to_string()), None);
    assert_eq!(table.lookup(&"op_checksig".to_string()), None);
}

#[test]
fn opcode_names_are_distinct() {
    let names: Vec<String> =
        (0..=255u8).map(|i| format!("{:?}", bitcoin::blockdata::opcodes::All::from(i))).collect();
    let table = OpcodeTable::build();
    for (i, name) in names.iter().enumerate() {
        assert_eq!(table.lookup(name).unwrap().code as usize, i);
    }
}
