//! Tokens produced by the lexer.

use vstd::prelude::*;

verus! {

/// A lexical token.  The lexer never fails: a byte outside the language is
/// carried through as `Unexpected` so the parser can report it.
#[derive(Clone, Debug)]
pub enum Token {
    /// `:`
    Colon,
    /// `def`
    Def,
    /// `=`
    Equals,
    /// `fn`
    Fn,
    /// `import`
    Import,
    /// `Int`
    Int,
    /// An integer literal; these are non-negative `i64` values.
    Integer(i64),
    /// `-`
    Minus,
    /// A name (identifier bytes).
    Name(Vec<u8>),
    /// `+`
    Plus,
    /// `print`
    Print,
    /// `->`
    RightArrow,
    /// `(`
    ParenLeft,
    /// `)`
    ParenRight,
    /// A byte that is not part of the language; reported by the parser.
    Unexpected(u8),
}

/// Mathematical model of a token: names are byte sequences.
pub ghost enum SpecToken {
    Colon,
    Def,
    Equals,
    Fn,
    Import,
    Int,
    Integer(i64),
    Minus,
    Name(Seq<u8>),
    Plus,
    Print,
    RightArrow,
    ParenLeft,
    ParenRight,
    Unexpected(u8),
}

impl View for Token {
    type V = SpecToken;

    open spec fn view(&self) -> SpecToken {
        match self {
            Token::Colon => SpecToken::Colon,
            Token::Def => SpecToken::Def,
            Token::Equals => SpecToken::Equals,
            Token::Fn => SpecToken::Fn,
            Token::Import => SpecToken::Import,
            Token::Int => SpecToken::Int,
            Token::Integer(x) => SpecToken::Integer(*x),
            Token::Minus => SpecToken::Minus,
            Token::Name(n) => SpecToken::Name(n@),
            Token::Plus => SpecToken::Plus,
            Token::Print => SpecToken::Print,
            Token::RightArrow => SpecToken::RightArrow,
            Token::ParenLeft => SpecToken::ParenLeft,
            Token::ParenRight => SpecToken::ParenRight,
            Token::Unexpected(b) => SpecToken::Unexpected(*b),
        }
    }
}

impl Token {
    /// Structural equality, phrased over the token models.
    pub fn same_as(&self, other: &Token) -> (r: bool)
        ensures
            r == (self@ == other@),
    {
        match (self, other) {
            (Token::Colon, Token::Colon) => true,
            (Token::Def, Token::Def) => true,
            (Token::Equals, Token::Equals) => true,
            (Token::Fn, Token::Fn) => true,
            (Token::Import, Token::Import) => true,
            (Token::Int, Token::Int) => true,
            (Token::Integer(x), Token::Integer(y)) => x == y,
            (Token::Minus, Token::Minus) => true,
            (Token::Name(a), Token::Name(b)) => crate::errors::bytes_eq(a, b),
            (Token::Plus, Token::Plus) => true,
            (Token::Print, Token::Print) => true,
            (Token::RightArrow, Token::RightArrow) => true,
            (Token::ParenLeft, Token::ParenLeft) => true,
            (Token::ParenRight, Token::ParenRight) => true,
            (Token::Unexpected(a), Token::Unexpected(b)) => a == b,
            _ => false,
        }
    }

    /// Whether this token may begin a top level statement; the parser
    /// recovers from errors by skipping to such a token.
    pub fn can_start_top_level_statement(&self) -> (r: bool)
        ensures
            r == self@.spec_can_start_top_level_statement(),
    {
        match self {
            Token::Def | Token::Import | Token::Print => true,
            _ => false,
        }
    }
}

impl SpecToken {
    pub open spec fn spec_can_start_top_level_statement(self) -> bool {
        self == SpecToken::Def || self == SpecToken::Import || self == SpecToken::Print
    }
}

/// The bytes a token is written as, used in parser diagnostics.
pub open spec fn spec_token_text(t: SpecToken) -> Seq<u8> {
    match t {
        SpecToken::Colon => seq![58u8],
        SpecToken::Def => seq![100u8, 101u8, 102u8],
        SpecToken::Equals => seq![61u8],
        SpecToken::Fn => seq![102u8, 110u8],
        SpecToken::Import => seq![105u8, 109u8, 112u8, 111u8, 114u8, 116u8],
        SpecToken::Int => seq![73u8, 110u8, 116u8],
        SpecToken::Integer(x) => crate::errors::spec_dec_i64(x),
        SpecToken::Minus => seq![45u8],
        SpecToken::Name(n) => n,
        SpecToken::Plus => seq![43u8],
        SpecToken::Print => seq![112u8, 114u8, 105u8, 110u8, 116u8],
        SpecToken::RightArrow => seq![45u8, 62u8],
        SpecToken::ParenLeft => seq![40u8],
        SpecToken::ParenRight => seq![41u8],
        SpecToken::Unexpected(b) => seq![b],
    }
}

impl Token {
    /// Renders the token as it is written in source.
    pub fn text(&self) -> (r: Vec<u8>)
        ensures
            r@ == spec_token_text(self@),
    {
        match self {
            Token::Colon => {
                let mut v: Vec<u8> = Vec::new();
                v.push(58u8);
                assert(v@ =~= spec_token_text(self@));
                v
            },
            Token::Def => {
                let mut v: Vec<u8> = Vec::new();
                v.push(100u8);
                v.push(101u8);
                v.push(102u8);
                assert(v@ =~= spec_token_text(self@));
                v
            },
            Token::Equals => {
                let mut v: Vec<u8> = Vec::new();
                v.push(61u8);
                assert(v@ =~= spec_token_text(self@));
                v
            },
            Token::Fn => {
                let mut v: Vec<u8> = Vec::new();
                v.push(102u8);
                v.push(110u8);
                assert(v@ =~= spec_token_text(self@));
                v
            },
            Token::Import => {
                let mut v: Vec<u8> = Vec::new();
                v.push(105u8);
                v.push(109u8);
                v.push(112u8);
                v.push(111u8);
                v.push(114u8);
                v.push(116u8);
                assert(v@ =~= spec_token_text(self@));
                v
            },
            Token::Int => {
                let mut v: Vec<u8> = Vec::new();
                v.push(73u8);
                v.push(110u8);
                v.push(116u8);
                assert(v@ =~= spec_token_text(self@));
                v
            },
            Token::Integer(x) => {
                let v = crate::errors::dec_i64(*x);
                v
            },
            Token::Minus => {
                let mut v: Vec<u8> = Vec::new();
                v.push(45u8);
                assert(v@ =~= spec_token_text(self@));
                v
            },
            Token::Name(n) => crate::errors::bytes_clone(n),
            Token::Plus => {
                let mut v: Vec<u8> = Vec::new();
                v.push(43u8);
                assert(v@ =~= spec_token_text(self@));
                v
            },
            Token::Print => {
                let mut v: Vec<u8> = Vec::new();
                v.push(112u8);
                v.push(114u8);
                v.push(105u8);
                v.push(110u8);
                v.push(116u8);
                assert(v@ =~= spec_token_text(self@));
                v
            },
            Token::RightArrow => {
                let mut v: Vec<u8> = Vec::new();
                v.push(45u8);
                v.push(62u8);
                assert(v@ =~= spec_token_text(self@));
                v
            },
            Token::ParenLeft => {
                let mut v: Vec<u8> = Vec::new();
                v.push(40u8);
                assert(v@ =~= spec_token_text(self@));
                v
            },
            Token::ParenRight => {
                let mut v: Vec<u8> = Vec::new();
                v.push(41u8);
                assert(v@ =~= spec_token_text(self@));
                v
            },
            Token::Unexpected(b) => {
                let mut v: Vec<u8> = Vec::new();
                v.push(*b);
                assert(v@ =~= spec_token_text(self@));
                v
            },
        }
    }
}

} // verus!
