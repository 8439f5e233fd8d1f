//! Tokens: the words of the language.

use vstd::prelude::*;

verus! {

/// The kind of a token.
#[derive(Clone, Copy, Debug, PartialEq, Eq, Structural)]
pub enum TokenType {
    /// Text that is no token of the language.
    Illegal,
    /// The end of the input.
    Eof,
    Identifier,
    Number,
    String,
    Plus,
    Minus,
    Star,
    Slash,
    Bang,
    Assign,
    Equal,
    NotEqual,
    Less,
    LessEqual,
    Greater,
    GreaterEqual,
    LeftParen,
    RightParen,
    LeftBrace,
    RightBrace,
    Semicolon,
    Let,
    Return,
    If,
    Else,
    While,
    True,
    False,
    Null,
}

/// A token: its kind and the text it was read from. For a `String` token
/// the text is what stands between the quotes.
///
/// `number` is the value of a `Number` token as an IEEE-754 binary64 bit
/// pattern. The scanner leaves it empty: reading a decimal numeral as a
/// binary64 value is the host's part, see [`Token::with_number`].
#[derive(Clone, Debug, PartialEq)]
pub struct Token {
    pub kind: TokenType,
    pub lexeme: String,
    pub number: Option<u64>,
}

/// The mathematical content of a [`Token`].
pub struct TokenView {
    pub kind: TokenType,
    pub lexeme: Seq<char>,
    pub number: Option<u64>,
}

impl View for Token {
    type V = TokenView;

    open spec fn view(&self) -> TokenView {
        TokenView { kind: self.kind, lexeme: self.lexeme@, number: self.number }
    }
}

/// The views of a sequence of tokens, element by element.
pub open spec fn token_views(tokens: Seq<Token>) -> Seq<TokenView> {
    tokens.map_values(|t: Token| t@)
}

impl Token {
    /// A token of the given kind and text, without a number.
    pub fn new(kind: TokenType, lexeme: String) -> (token: Token)
        ensures
            token@ == (TokenView { kind, lexeme: lexeme@, number: None }),
    {
        Token { kind, lexeme, number: None }
    }

    /// The same token with `bits` as its number.
    pub fn with_number(self, bits: u64) -> (token: Token)
        ensures
            token@ == (TokenView { number: Some(bits), ..self@ }),
    {
        Token { kind: self.kind, lexeme: self.lexeme, number: Some(bits) }
    }

    /// A copy of the token with the same content.
    pub fn duplicate(&self) -> (copy: Token)
        ensures
            copy@ == self@,
    {
        Token { kind: self.kind, lexeme: self.lexeme.clone(), number: self.number }
    }
}

/// Whether `read` is `tokens` with numbers filled in: every token as it
/// was, but that a `Number` token whose numeral `reader` reads as `Some` value
/// carries that value.
pub open spec fn numbers_read<F: Fn(&str) -> Option<u64>>(
    reader: F,
    tokens: Seq<Token>,
    read: Seq<Token>,
) -> bool {
    &&& read.len() == tokens.len()
    &&& forall|i: int|
        0 <= i < tokens.len() ==> {
            &&& (#[trigger] read[i]).kind == tokens[i].kind
            &&& read[i].lexeme@ == tokens[i].lexeme@
            &&& if tokens[i].kind is Number {
                exists|text: &str|
                    text@ == tokens[i].lexeme@ && #[trigger] reader.ensures((text,), read[i].number)
            } else {
                read[i].number == tokens[i].number
            }
        }
}

/// Gives every `Number` token its value, as `reader` reads it from the
/// numeral. A numeral that `reader` has no value for keeps none, and the
/// compiler reports it.
pub fn read_numbers<F: Fn(&str) -> Option<u64>>(tokens: Vec<Token>, reader: F) -> (read: Vec<
    Token,
>)
    requires
        forall|text: &str| reader.requires((text,)),
    ensures
        numbers_read(reader, tokens@, read@),
{
    let mut read: Vec<Token> = Vec::new();
    let mut i: usize = 0;
    while i < tokens.len()
        invariant
            i <= tokens@.len(),
            forall|text: &str| reader.requires((text,)),
            numbers_read(reader, tokens@.take(i as int), read@),
        decreases tokens@.len() - i,
    {
        let token = tokens[i].duplicate();
        let filled = match token.kind {
            TokenType::Number => {
                let number = reader(token.lexeme.as_str());
                Token { kind: token.kind, lexeme: token.lexeme, number }
            },
            _ => token,
        };
        read.push(filled);
        i = i + 1;
    }
    assert(tokens@.take(i as int) =~= tokens@);
    read
}

} // verus!
