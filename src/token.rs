//! The lexical units that the parser consumes.
use vstd::prelude::*;

verus! {

/// A source range, carried beside every token and node for diagnostics only.
#[derive(Clone, Copy, Debug, PartialEq, Eq)]
pub struct Span {
    pub lo: usize,
    pub hi: usize,
}

impl Span {
    /// The smallest range that covers both `self` and `other`.
    pub open spec fn spec_join(self, other: Span) -> Span {
        Span {
            lo: if self.lo <= other.lo { self.lo } else { other.lo },
            hi: if self.hi >= other.hi { self.hi } else { other.hi },
        }
    }

    #[verifier::when_used_as_spec(spec_join)]
    pub fn join(self, other: Span) -> (r: Span)
        ensures
            r == self.spec_join(other),
    {
        Span {
            lo: if self.lo <= other.lo { self.lo } else { other.lo },
            hi: if self.hi >= other.hi { self.hi } else { other.hi },
        }
    }
}

/// What kind of lexical unit a token is, with its text.
#[derive(Debug)]
pub enum TokenKind {
    /// An identifier, such as `OP_CHECKSIG` or `abc`.
    Ident(String),
    /// A single punctuation character, such as `<`, `>` or `-`.
    Punct(char),
    /// A literal, with its source text (`1234`, `0xabcd`, `"text"`).
    Literal(String),
    /// A delimited group, with its source text (`(a b)`, `[1, 2]`).
    Group(String),
}

/// One token of the input, with its source range.
#[derive(Debug)]
pub struct Token {
    pub kind: TokenKind,
    pub span: Span,
}

impl Clone for TokenKind {
    fn clone(&self) -> (r: TokenKind)
        ensures
            r == *self,
    {
        match self {
            TokenKind::Ident(s) => TokenKind::Ident(s.clone()),
            TokenKind::Punct(c) => TokenKind::Punct(*c),
            TokenKind::Literal(s) => TokenKind::Literal(s.clone()),
            TokenKind::Group(s) => TokenKind::Group(s.clone()),
        }
    }
}

impl Clone for Token {
    fn clone(&self) -> (r: Token)
        ensures
            r == *self,
    {
        Token { kind: self.kind.clone(), span: self.span }
    }
}

impl Token {
    /// Whether this token is the punctuation character `c`.
    pub open spec fn is_punct(&self, c: char) -> bool {
        self.kind matches TokenKind::Punct(p) && p == c
    }
}

} // verus!
