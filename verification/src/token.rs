//! The token model: the lexical vocabulary shared by the scanner, the parser
//! and the evaluator.

use vstd::prelude::*;

verus! {

/// Every kind of token the scanner can emit. Literal payloads (the numeric
/// text, the string contents, the identifier name) are not duplicated here:
/// they are recovered from the token's lexeme, which always holds the exact
/// source substring the token was scanned from.
#[derive(Clone, Copy, Debug, PartialEq, Eq, Structural)]
pub enum TokenType {
    LeftParen,
    RightParen,
    LeftBrace,
    RightBrace,
    Comma,
    Period,
    Minus,
    Plus,
    Star,
    Semicolon,
    Slash,
    Bang,
    BangEqual,
    Equal,
    EqualEqual,
    Less,
    LessEqual,
    Greater,
    GreaterEqual,
    StringLiteral,
    Number,
    Identifier,
    True,
    False,
    Nil,
    Var,
    Print,
    Eof,
}

/// One token: its kind, the exact source substring it was scanned from, and
/// the 1-based source line current at the moment it was emitted.
#[derive(Debug, Clone, PartialEq)]
pub struct Token {
    pub token_type: TokenType,
    pub lexeme: String,
    pub line: u64,
}

/// The mathematical image of a [`Token`]: the lexeme as a character sequence.
#[verifier::ext_equal]
pub struct TokenV {
    pub token_type: TokenType,
    pub lexeme: Seq<char>,
    pub line: u64,
}

impl View for Token {
    type V = TokenV;

    open spec fn view(&self) -> TokenV {
        TokenV { token_type: self.token_type, lexeme: self.lexeme@, line: self.line }
    }
}

impl DeepView for Token {
    type V = TokenV;

    open spec fn deep_view(&self) -> TokenV {
        self.view()
    }
}

impl Token {
    /// A structural copy of the token.
    pub fn duplicate(&self) -> (r: Token)
        ensures
            r@ == self@,
    {
        Token { token_type: self.token_type, lexeme: self.lexeme.clone(), line: self.line }
    }
}

/// The reserved-word table: the token kind of a lexeme that is a keyword.
pub open spec fn spec_keyword(s: Seq<char>) -> Option<TokenType> {
    if s == "true"@ {
        Some(TokenType::True)
    } else if s == "false"@ {
        Some(TokenType::False)
    } else if s == "nil"@ {
        Some(TokenType::Nil)
    } else if s == "var"@ {
        Some(TokenType::Var)
    } else if s == "print"@ {
        Some(TokenType::Print)
    } else {
        None
    }
}

/// Character-by-character string equality, so that spec-level sequence
/// equality is available on the result.
pub fn str_eq(a: &str, b: &str) -> (r: bool)
    ensures
        r == (a@ == b@),
{
    let n: usize = a.unicode_len();
    let m: usize = b.unicode_len();
    if n != m {
        assert(a@ != b@) by {
            assert(a@.len() != b@.len());
        }
        return false;
    }
    let mut i: usize = 0;
    while i < n
        invariant
            n == a@.len(),
            n == b@.len(),
            0 <= i <= n,
            forall|j: int| 0 <= j < i ==> a@[j] == b@[j],
        decreases n - i,
    {
        if a.get_char(i) != b.get_char(i) {
            return false;
        }
        i = i + 1;
    }
    proof {
        assert(a@ =~= b@);
    }
    true
}

impl TokenType {
    /// Looks a lexeme up in the reserved-word table.
    pub fn make_keyword(text: &str) -> (r: Option<TokenType>)
        ensures
            r == spec_keyword(text@),
    {
        if str_eq(text, "true") {
            Some(TokenType::True)
        } else if str_eq(text, "false") {
            Some(TokenType::False)
        } else if str_eq(text, "nil") {
            Some(TokenType::Nil)
        } else if str_eq(text, "var") {
            Some(TokenType::Var)
        } else if str_eq(text, "print") {
            Some(TokenType::Print)
        } else {
            None
        }
    }
}

} // verus!
