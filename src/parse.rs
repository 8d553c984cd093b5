//! The parser: a token sequence to the ordered items of a script, with
//! diagnostics for the mistakes found on the way.
use crate::literal::{hex_bytes, hex_decoded, i64_literal, parse_decimal};
use crate::opcodes::{opcode_named, Opcode, OpcodeTable};
use crate::token::{Span, Token, TokenKind};
use vstd::prelude::*;

verus! {

/// The byte value of `OP_NOP`, which stands in for an unknown opcode.
pub const NOP_CODE: u8 = 0x61;

/// One item of a script.
#[derive(Debug)]
pub enum Syntax {
    /// An opcode to push.
    Opcode(Opcode),
    /// An embedded expression, as the tokens between `<` and `>`.
    Escape(Vec<Token>),
    /// A byte string to push, from a hex literal.
    Bytes(Vec<u8>),
    /// An integer to push, from a decimal literal.
    Int(i64),
}

/// What a `Syntax` value stands for: the same item, with its byte string and
/// escaped tokens as sequences.
pub enum Node {
    Opcode(u8),
    Escape(Seq<Token>),
    Bytes(Seq<u8>),
    Int(i64),
}

impl View for Syntax {
    type V = Node;

    open spec fn view(&self) -> Node {
        match self {
            Syntax::Opcode(op) => Node::Opcode(op.code),
            Syntax::Escape(ts) => Node::Escape(ts@),
            Syntax::Bytes(b) => Node::Bytes(b@),
            Syntax::Int(n) => Node::Int(*n),
        }
    }
}

/// The kinds of mistake that the parser reports.
#[derive(Clone, Copy, Debug, PartialEq, Eq)]
pub enum ErrorKind {
    /// An identifier that names no opcode; recovered with `OP_NOP`.
    UnknownOpcode,
    /// A `<` with no `>` after it; parsing stops.
    UnterminatedEscape,
    /// A `0x` literal that is not an even number of hex digits; recovered
    /// with an empty byte string.
    InvalidHexLiteral,
    /// A literal that is no 64-bit decimal integer; recovered with 0.
    InvalidNumberLiteral,
    /// A `-` not followed by a decimal literal; recovered with 0.
    MalformedNegation,
    /// A token that starts no item; parsing stops.
    UnexpectedToken,
}

impl ErrorKind {
    /// Whether this mistake stops the parse.
    pub open spec fn spec_is_fatal(self) -> bool {
        self is UnterminatedEscape || self is UnexpectedToken
    }

    #[verifier::when_used_as_spec(spec_is_fatal)]
    pub fn is_fatal(self) -> (r: bool)
        ensures
            r == self.spec_is_fatal(),
    {
        match self {
            ErrorKind::UnterminatedEscape | ErrorKind::UnexpectedToken => true,
            _ => false,
        }
    }
}

/// A mistake, with the source range of the tokens it concerns.
#[derive(Clone, Copy, Debug, PartialEq, Eq)]
pub struct Diagnostic {
    pub kind: ErrorKind,
    pub span: Span,
}

/// A parse that reached the end of the input: the items in source order,
/// and the mistakes that were recovered from on the way.
#[derive(Debug)]
pub struct Parsed {
    pub program: Vec<(Syntax, Span)>,
    pub diagnostics: Vec<Diagnostic>,
}

/// The items of a program, as what they stand for.
pub open spec fn program_view(p: Seq<(Syntax, Span)>) -> Seq<(Node, Span)> {
    p.map_values(|e: (Syntax, Span)| (e.0@, e.1))
}

/// What one item yields: its node, its range, a recovered mistake if any and
/// the position after it; or a mistake that stops the parse.
pub enum Scan {
    Item { node: Node, span: Span, diag: Option<Diagnostic>, next: int },
    Fatal(Diagnostic),
}

/// Literal text that starts with `0x`.
pub open spec fn is_hex_text(s: Seq<char>) -> bool {
    s.len() >= 2 && s[0] == '0' && s[1] == 'x'
}

/// The integer node of decimal text, negated where `negative`, with the
/// mistake it holds if any.
pub open spec fn int_node(s: Seq<char>, span: Span, negative: bool) -> (Node, Option<Diagnostic>) {
    match i64_literal(s) {
        Some(n) if !negative || n != i64::MIN => (
            Node::Int(if negative { -n as i64 } else { n }),
            None,
        ),
        _ => (Node::Int(0), Some(Diagnostic { kind: ErrorKind::InvalidNumberLiteral, span })),
    }
}

/// The node of a literal, with the mistake it holds if any.
pub open spec fn literal_node(s: Seq<char>, span: Span) -> (Node, Option<Diagnostic>) {
    if is_hex_text(s) {
        match hex_decoded(s.skip(2)) {
            Some(b) => (Node::Bytes(b), None),
            None => (
                Node::Bytes(Seq::empty()),
                Some(Diagnostic { kind: ErrorKind::InvalidHexLiteral, span }),
            ),
        }
    } else {
        int_node(s, span, false)
    }
}

/// The first `>` at or after position `k`.
pub open spec fn first_close_from(tokens: Seq<Token>, k: int) -> Option<int>
    decreases tokens.len() - k,
{
    if k < 0 || k >= tokens.len() {
        None
    } else if tokens[k].is_punct('>') {
        Some(k)
    } else {
        first_close_from(tokens, k + 1)
    }
}

/// The escape that opens with the `<` at position `i`: everything up to the
/// first `>`, whatever stands between.
pub open spec fn scan_escape(tokens: Seq<Token>, i: int) -> Scan {
    match first_close_from(tokens, i + 1) {
        Some(j) => Scan::Item {
            node: Node::Escape(tokens.subrange(i + 1, j)),
            span: tokens[i].span.spec_join(tokens[j].span),
            diag: None,
            next: j + 1,
        },
        None => Scan::Fatal(Diagnostic { kind: ErrorKind::UnterminatedEscape, span: tokens[i].span }),
    }
}

/// The negated integer that opens with the `-` at position `i`; the token
/// after the sign is taken whatever it is.
pub open spec fn scan_negation(tokens: Seq<Token>, i: int) -> Scan {
    let sign = tokens[i].span;
    let malformed = Some(Diagnostic { kind: ErrorKind::MalformedNegation, span: sign });
    if i + 1 < tokens.len() {
        let t = tokens[i + 1];
        match t.kind {
            TokenKind::Literal(s) => if is_hex_text(s@) {
                Scan::Item { node: Node::Int(0), span: sign, diag: malformed, next: i + 2 }
            } else {
                let (node, diag) = int_node(s@, t.span, true);
                Scan::Item { node, span: t.span, diag, next: i + 2 }
            },
            _ => Scan::Item { node: Node::Int(0), span: sign, diag: malformed, next: i + 2 },
        }
    } else {
        Scan::Item { node: Node::Int(0), span: sign, diag: malformed, next: i + 1 }
    }
}

/// The item that starts at position `i`.
pub open spec fn scan_item(tokens: Seq<Token>, i: int) -> Scan {
    let t = tokens[i];
    match t.kind {
        TokenKind::Ident(name) => match opcode_named(name@) {
            Some(c) => Scan::Item { node: Node::Opcode(c), span: t.span, diag: None, next: i + 1 },
            None => Scan::Item {
                node: Node::Opcode(NOP_CODE),
                span: t.span,
                diag: Some(Diagnostic { kind: ErrorKind::UnknownOpcode, span: t.span }),
                next: i + 1,
            },
        },
        TokenKind::Literal(s) => {
            let (node, diag) = literal_node(s@, t.span);
            Scan::Item { node, span: t.span, diag, next: i + 1 }
        },
        TokenKind::Punct(c) => if c == '<' {
            scan_escape(tokens, i)
        } else if c == '-' {
            scan_negation(tokens, i)
        } else {
            Scan::Fatal(Diagnostic { kind: ErrorKind::UnexpectedToken, span: t.span })
        },
        TokenKind::Group(_) => Scan::Fatal(
            Diagnostic { kind: ErrorKind::UnexpectedToken, span: t.span },
        ),
    }
}

/// A scan moves forward, within the input.
pub proof fn lemma_scan_advances(tokens: Seq<Token>, i: int)
    requires
        0 <= i < tokens.len(),
    ensures
        scan_item(tokens, i) matches Scan::Item { next, .. } ==> i < next <= tokens.len(),
{
    if tokens[i].is_punct('<') {
        lemma_first_close_bounds(tokens, i + 1);
    }
}

proof fn lemma_first_close_bounds(tokens: Seq<Token>, k: int)
    requires
        0 <= k,
    ensures
        first_close_from(tokens, k) matches Some(j) ==> k <= j < tokens.len() && tokens[j].is_punct('>')
            && forall|m: int| k <= m < j ==> !(#[trigger] tokens[m]).is_punct('>'),
    decreases tokens.len() - k,
{
    if k < tokens.len() && !tokens[k].is_punct('>') {
        lemma_first_close_bounds(tokens, k + 1);
    }
}

/// The optional mistake as a sequence.
pub open spec fn diag_seq(d: Option<Diagnostic>) -> Seq<Diagnostic> {
    match d {
        Some(d) => seq![d],
        None => Seq::empty(),
    }
}

/// Puts what came before in front of the outcome of the rest of a parse.
pub open spec fn prepend(
    items: Seq<(Node, Span)>,
    diags: Seq<Diagnostic>,
    rest: Result<(Seq<(Node, Span)>, Seq<Diagnostic>), Seq<Diagnostic>>,
) -> Result<(Seq<(Node, Span)>, Seq<Diagnostic>), Seq<Diagnostic>> {
    match rest {
        Ok((p, ds)) => Ok((items + p, diags + ds)),
        Err(ds) => Err(diags + ds),
    }
}

/// The outcome of parsing the input from position `i` on: the items and the
/// recovered mistakes, or every mistake up to and including the one that
/// stopped the parse.
pub open spec fn parse_from(tokens: Seq<Token>, i: int) -> Result<
    (Seq<(Node, Span)>, Seq<Diagnostic>),
    Seq<Diagnostic>,
>
    decreases tokens.len() - i,
{
    if i < 0 || i >= tokens.len() {
        Ok((Seq::empty(), Seq::empty()))
    } else {
        match scan_item(tokens, i) {
            Scan::Fatal(d) => Err(seq![d]),
            Scan::Item { node, span, diag, next } => if next <= i || next > tokens.len() {
                Ok((Seq::empty(), Seq::empty()))
            } else {
                prepend(seq![(node, span)], diag_seq(diag), parse_from(tokens, next))
            },
        }
    }
}

/// The outcome of parsing a whole input.
pub open spec fn parse_spec(tokens: Seq<Token>) -> Result<
    (Seq<(Node, Span)>, Seq<Diagnostic>),
    Seq<Diagnostic>,
> {
    parse_from(tokens, 0)
}

/// Every token is an identifier.
pub open spec fn all_identifiers(tokens: Seq<Token>) -> bool {
    forall|i: int| 0 <= i < tokens.len() ==> (#[trigger] tokens[i]).kind is Ident
}

/// The opcode that an identifier token stands for, `OP_NOP` where it names none.
pub open spec fn ident_opcode(t: Token) -> u8 {
    match opcode_named(t.kind->Ident_0@) {
        Some(c) => c,
        None => NOP_CODE,
    }
}

/// An identifier token that names no opcode.
pub open spec fn is_unknown_ident(t: Token) -> bool {
    t.kind is Ident && opcode_named(t.kind->Ident_0@) is None
}

proof fn lemma_identifiers_from(tokens: Seq<Token>, k: int)
    requires
        all_identifiers(tokens),
        0 <= k <= tokens.len(),
    ensures
        parse_from(tokens, k) matches Ok((items, diags)) && {
            &&& items.len() == tokens.len() - k
            &&& forall|i: int|
                0 <= i < items.len() ==> #[trigger] items[i] == (
                    Node::Opcode(ident_opcode(tokens[k + i])),
                    tokens[k + i].span,
                )
            &&& forall|j: int|
                k <= j < tokens.len() && is_unknown_ident(#[trigger] tokens[j]) ==> diags.contains(
                    Diagnostic { kind: ErrorKind::UnknownOpcode, span: tokens[j].span },
                )
        },
    decreases tokens.len() - k,
{
    if k < tokens.len() {
        lemma_identifiers_from(tokens, k + 1);
        assert(tokens[k].kind is Ident);
        let item = (Node::Opcode(ident_opcode(tokens[k])), tokens[k].span);
        let d = Diagnostic { kind: ErrorKind::UnknownOpcode, span: tokens[k].span };
        let rest = parse_from(tokens, k + 1);
        let (ritems, rdiags) = rest->Ok_0;
        let (items, diags) = parse_from(tokens, k)->Ok_0;
        assert(items == seq![item] + ritems);
        assert forall|i: int| 0 <= i < items.len() implies #[trigger] items[i] == (
            Node::Opcode(ident_opcode(tokens[k + i])),
            tokens[k + i].span,
        ) by {
            if i > 0 {
                assert(items[i] == ritems[i - 1]);
            }
        }
        if is_unknown_ident(tokens[k]) {
            assert(diags == seq![d] + rdiags);
            assert(diags[0] == d);
        } else {
            assert(diags == Seq::<Diagnostic>::empty() + rdiags);
        }
        assert forall|j: int|
            k <= j < tokens.len() && is_unknown_ident(#[trigger] tokens[j]) implies diags.contains(
            Diagnostic { kind: ErrorKind::UnknownOpcode, span: tokens[j].span },
        ) by {
            if j > k {
                let dj = Diagnostic { kind: ErrorKind::UnknownOpcode, span: tokens[j].span };
                let m = choose|m: int| 0 <= m < rdiags.len() && rdiags[m] == dj;
                assert(diags[diags.len() - rdiags.len() + m] == dj);
            } else {
                assert(diags[0] == d);
            }
        }
    }
}

/// A sequence of identifiers always parses to the end: one opcode item per
/// token, in the same order and with the same ranges, `OP_NOP` standing in
/// for an identifier that names no opcode.
pub proof fn law_identifiers_parse_to_opcodes(tokens: Seq<Token>)
    requires
        all_identifiers(tokens),
    ensures
        parse_spec(tokens) matches Ok((items, _)) && {
            &&& items.len() == tokens.len()
            &&& forall|i: int|
                0 <= i < items.len() ==> #[trigger] items[i] == (
                    Node::Opcode(ident_opcode(tokens[i])),
                    tokens[i].span,
                )
        },
{
    lemma_identifiers_from(tokens, 0);
    let (items, _) = parse_spec(tokens)->Ok_0;
    assert forall|i: int| 0 <= i < items.len() implies #[trigger] items[i] == (
        Node::Opcode(ident_opcode(tokens[i])),
        tokens[i].span,
    ) by {
        assert(tokens[0 + i] == tokens[i]);
    }
}

/// An identifier that names no opcode is reported and does not stop the
/// parse: the outcome from it on is `OP_NOP` and an unknown-opcode
/// diagnostic, in front of the outcome from the next token on.
pub proof fn law_unknown_opcode_recovers(tokens: Seq<Token>, k: int)
    requires
        0 <= k < tokens.len(),
        is_unknown_ident(tokens[k]),
    ensures
        parse_from(tokens, k) == prepend(
            seq![(Node::Opcode(NOP_CODE), tokens[k].span)],
            seq![Diagnostic { kind: ErrorKind::UnknownOpcode, span: tokens[k].span }],
            parse_from(tokens, k + 1),
        ),
{
}

/// In a sequence of identifiers, each one that names no opcode yields an
/// unknown-opcode diagnostic, and the parse still reaches the end.
pub proof fn law_unknown_opcode_reported(tokens: Seq<Token>, k: int)
    requires
        all_identifiers(tokens),
        0 <= k < tokens.len(),
        is_unknown_ident(tokens[k]),
    ensures
        parse_spec(tokens) matches Ok((items, diags)) && items.len() == tokens.len()
            && diags.contains(Diagnostic { kind: ErrorKind::UnknownOpcode, span: tokens[k].span }),
{
    lemma_identifiers_from(tokens, 0);
}

/// What the parser returns, as the outcome of a parse.
pub open spec fn parse_outcome(r: Result<Parsed, Vec<Diagnostic>>) -> Result<
    (Seq<(Node, Span)>, Seq<Diagnostic>),
    Seq<Diagnostic>,
> {
    match r {
        Ok(p) => Ok((program_view(p.program@), p.diagnostics@)),
        Err(ds) => Err(ds@),
    }
}

proof fn lemma_prepend_twice(
    items: Seq<(Node, Span)>,
    diags: Seq<Diagnostic>,
    item: (Node, Span),
    diag: Seq<Diagnostic>,
    rest: Result<(Seq<(Node, Span)>, Seq<Diagnostic>), Seq<Diagnostic>>,
)
    ensures
        prepend(items, diags, prepend(seq![item], diag, rest)) == prepend(
            items.push(item),
            diags + diag,
            rest,
        ),
{
    match rest {
        Ok((p, ds)) => {
            assert(items + (seq![item] + p) =~= items.push(item) + p);
            assert(diags + (diag + ds) =~= (diags + diag) + ds);
        },
        Err(ds) => {
            assert(diags + (diag + ds) =~= (diags + diag) + ds);
        },
    }
}

/// One item read by the parser.
struct Scanned {
    node: Syntax,
    span: Span,
    diag: Option<Diagnostic>,
    next: usize,
}

spec fn outcome(r: Result<Scanned, Diagnostic>) -> Scan {
    match r {
        Ok(s) => Scan::Item { node: s.node@, span: s.span, diag: s.diag, next: s.next as int },
        Err(d) => Scan::Fatal(d),
    }
}

/// Reads the escape that opens with the `<` at position `i`.
fn parse_escape(tokens: &Vec<Token>, i: usize) -> (r: Result<Scanned, Diagnostic>)
    requires
        i < tokens.len(),
    ensures
        outcome(r) == scan_escape(tokens@, i as int),
{
    let mut escape: Vec<Token> = Vec::new();
    let mut k: usize = i + 1;
    while k < tokens.len()
        invariant
            i < k <= tokens.len(),
            escape@ == tokens@.subrange(i + 1, k as int),
            first_close_from(tokens@, i + 1) == first_close_from(tokens@, k as int),
        decreases tokens.len() - k,
    {
        let is_close = match &tokens[k].kind {
            TokenKind::Punct(c) => *c == '>',
            _ => false,
        };
        if is_close {
            return Ok(
                Scanned {
                    node: Syntax::Escape(escape),
                    span: tokens[i].span.join(tokens[k].span),
                    diag: None,
                    next: k + 1,
                },
            );
        }
        escape.push(tokens[k].clone());
        assert(escape@ =~= tokens@.subrange(i + 1, k + 1));
        k = k + 1;
    }
    Err(Diagnostic { kind: ErrorKind::UnterminatedEscape, span: tokens[i].span })
}

/// Reads decimal text as an integer, negated where `negative`.
fn parse_int(text: &String, span: Span, negative: bool) -> (r: (Syntax, Option<Diagnostic>))
    ensures
        (r.0@, r.1) == int_node(text@, span, negative),
{
    match parse_decimal(text.as_str()) {
        Some(n) => if !negative {
            (Syntax::Int(n), None)
        } else if n != i64::MIN {
            (Syntax::Int(-n), None)
        } else {
            (Syntax::Int(0), Some(Diagnostic { kind: ErrorKind::InvalidNumberLiteral, span }))
        },
        None => (Syntax::Int(0), Some(Diagnostic { kind: ErrorKind::InvalidNumberLiteral, span })),
    }
}

/// Whether literal text starts with `0x`.
fn starts_hex(text: &String) -> (r: bool)
    ensures
        r == is_hex_text(text@),
{
    let s = text.as_str();
    s.unicode_len() >= 2 && s.get_char(0) == '0' && s.get_char(1) == 'x'
}

/// Reads a `0x` literal as the bytes its hex digits stand for.
fn parse_bytes(text: &String, span: Span) -> (r: (Syntax, Option<Diagnostic>))
    requires
        is_hex_text(text@),
    ensures
        (r.0@, r.1) == literal_node(text@, span),
{
    let s = text.as_str();
    let digits = s.substring_char(2, s.unicode_len());
    assert(digits@ =~= text@.skip(2));
    match hex_bytes(digits) {
        Some(bytes) => (Syntax::Bytes(bytes), None),
        None => {
            let empty: Vec<u8> = Vec::new();
            assert(empty@ =~= Seq::<u8>::empty());
            (Syntax::Bytes(empty), Some(Diagnostic { kind: ErrorKind::InvalidHexLiteral, span }))
        },
    }
}

/// Reads a literal: bytes where it starts with `0x`, else a decimal integer.
fn parse_data(text: &String, span: Span) -> (r: (Syntax, Option<Diagnostic>))
    ensures
        (r.0@, r.1) == literal_node(text@, span),
{
    if starts_hex(text) {
        parse_bytes(text, span)
    } else {
        parse_int(text, span, false)
    }
}

/// Reads the negated integer that opens with the `-` at position `i`.
fn parse_negative_int(tokens: &Vec<Token>, i: usize) -> (r: Scanned)
    requires
        i < tokens.len(),
    ensures
        outcome(Ok(r)) == scan_negation(tokens@, i as int),
{
    let sign = tokens[i].span;
    let malformed = Scanned {
        node: Syntax::Int(0),
        span: sign,
        diag: Some(Diagnostic { kind: ErrorKind::MalformedNegation, span: sign }),
        next: if i + 1 < tokens.len() { i + 2 } else { i + 1 },
    };
    if i + 1 < tokens.len() {
        let t = &tokens[i + 1];
        match &t.kind {
            TokenKind::Literal(text) => if starts_hex(text) {
                malformed
            } else {
                let (node, diag) = parse_int(text, t.span, true);
                Scanned { node, span: t.span, diag, next: i + 2 }
            },
            _ => malformed,
        }
    } else {
        malformed
    }
}

/// Parses a token sequence into the items of a script.
///
/// Unknown opcodes, invalid literals and malformed negations are recorded
/// and replaced by a placeholder, and the parse goes on; an unterminated
/// escape or an unexpected token stops it, and the result is then every
/// mistake found, that one last.
pub fn parse(table: &OpcodeTable, tokens: &Vec<Token>) -> (r: Result<Parsed, Vec<Diagnostic>>)
    requires
        table.wf(),
    ensures
        parse_outcome(r) == parse_spec(tokens@),
{
    let mut program: Vec<(Syntax, Span)> = Vec::new();
    let mut diagnostics: Vec<Diagnostic> = Vec::new();
    let mut i: usize = 0;
    proof {
        assert(program_view(program@) =~= Seq::empty());
        assert(prepend(Seq::empty(), Seq::empty(), parse_from(tokens@, 0)) == parse_from(tokens@, 0))
            by {
            match parse_from(tokens@, 0) {
                Ok((p, ds)) => {
                    assert(Seq::<(Node, Span)>::empty() + p =~= p);
                    assert(Seq::<Diagnostic>::empty() + ds =~= ds);
                },
                Err(ds) => {
                    assert(Seq::<Diagnostic>::empty() + ds =~= ds);
                },
            }
        }
    }
    while i < tokens.len()
        invariant
            i <= tokens.len(),
            table.wf(),
            parse_spec(tokens@) == prepend(
                program_view(program@),
                diagnostics@,
                parse_from(tokens@, i as int),
            ),
        decreases tokens.len() - i,
    {
        let token = &tokens[i];
        let scanned: Result<Scanned, Diagnostic> = match &token.kind {
            TokenKind::Ident(name) => match table.lookup(name) {
                Some(op) => Ok(Scanned { node: Syntax::Opcode(op), span: token.span, diag: None, next: i + 1 }),
                None => Ok(
                    Scanned {
                        node: Syntax::Opcode(Opcode { code: NOP_CODE }),
                        span: token.span,
                        diag: Some(Diagnostic { kind: ErrorKind::UnknownOpcode, span: token.span }),
                        next: i + 1,
                    },
                ),
            },
            TokenKind::Punct(c) => if *c == '<' {
                parse_escape(tokens, i)
            } else if *c == '-' {
                Ok(parse_negative_int(tokens, i))
            } else {
                Err(Diagnostic { kind: ErrorKind::UnexpectedToken, span: token.span })
            },
            TokenKind::Literal(text) => {
                let (node, diag) = parse_data(text, token.span);
                Ok(Scanned { node, span: token.span, diag, next: i + 1 })
            },
            TokenKind::Group(_) => Err(Diagnostic { kind: ErrorKind::UnexpectedToken, span: token.span }),
        };
        assert(outcome(scanned) == scan_item(tokens@, i as int));
        proof {
            lemma_scan_advances(tokens@, i as int);
        }
        match scanned {
            Err(d) => {
                let ghost before = diagnostics@;
                diagnostics.push(d);
                proof {
                    assert(diagnostics@ =~= before + seq![d]);
                }
                return Err(diagnostics);
            },
            Ok(item) => {
                let ghost items = program_view(program@);
                let ghost ds = diagnostics@;
                proof {
                    lemma_prepend_twice(
                        items,
                        ds,
                        (item.node@, item.span),
                        diag_seq(item.diag),
                        parse_from(tokens@, item.next as int),
                    );
                }
                match item.diag {
                    Some(d) => {
                        diagnostics.push(d);
                    },
                    None => {},
                }
                assert(diagnostics@ =~= ds + diag_seq(item.diag));
                i = item.next;
                program.push((item.node, item.span));
                assert(program_view(program@) =~= items.push((item.node@, item.span)));
            },
        }
    }
    proof {
        let pv = program_view(program@);
        assert(pv + Seq::empty() =~= pv);
        assert(diagnostics@ + Seq::empty() =~= diagnostics@);
    }
    Ok(Parsed { program, diagnostics })
}

} // verus!
