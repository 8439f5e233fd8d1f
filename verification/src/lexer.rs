//! The scanner: from source text to tokens.

use vstd::prelude::*;
use vstd::string::StringExecFns;
use vstd::string::StrSliceExecFns;
use vstd::std_specs::iter::IteratorSpec;
use crate::token::{Token, TokenType, TokenView, token_views};

verus! {

/// The classes of characters that a token is a run of.
#[derive(Clone, Copy, Debug, PartialEq, Eq, Structural)]
pub enum CharClass {
    /// Blank, tab, line feed, carriage return.
    Space,
    /// `0` to `9`.
    Digit,
    /// A letter of the English alphabet, `_`, or a digit.
    Word,
    /// Anything but `"`.
    Text,
}

/// Whether `c` is a digit.
pub open spec fn is_digit(c: char) -> bool {
    '0' <= c && c <= '9'
}

/// Whether `c` can start an identifier: a letter of the English alphabet or `_`.
pub open spec fn is_letter(c: char) -> bool {
    ('a' <= c && c <= 'z') || ('A' <= c && c <= 'Z') || c == '_'
}

/// Whether `c` belongs to `class`.
pub open spec fn in_class(class: CharClass, c: char) -> bool {
    match class {
        CharClass::Space => c == ' ' || c == '\t' || c == '\n' || c == '\r',
        CharClass::Digit => is_digit(c),
        CharClass::Word => is_letter(c) || is_digit(c),
        CharClass::Text => c != '"',
    }
}

/// The end of the longest run of characters of `class` that starts at `pos`:
/// the first position from `pos` on that holds a character of another class,
/// or the length of `chars`.
pub open spec fn run_end(chars: Seq<char>, pos: int, class: CharClass) -> int
    decreases chars.len() - pos,
{
    if 0 <= pos < chars.len() && in_class(class, chars[pos]) {
        run_end(chars, pos + 1, class)
    } else {
        pos
    }
}

/// The end of the numeral that starts at `pos`: a run of digits, and after
/// it a `.` with a second run of digits where a digit follows the `.`.
pub open spec fn number_end(chars: Seq<char>, pos: int) -> int {
    let whole = run_end(chars, pos, CharClass::Digit);
    if whole + 1 < chars.len() && chars[whole] == '.' && is_digit(chars[whole + 1]) {
        run_end(chars, whole + 1, CharClass::Digit)
    } else {
        whole
    }
}

/// The kind of a word: that of the keyword it spells, or `Identifier`.
pub open spec fn word_kind(word: Seq<char>) -> TokenType {
    if word == "let"@ {
        TokenType::Let
    } else if word == "return"@ {
        TokenType::Return
    } else if word == "if"@ {
        TokenType::If
    } else if word == "else"@ {
        TokenType::Else
    } else if word == "while"@ {
        TokenType::While
    } else if word == "true"@ {
        TokenType::True
    } else if word == "false"@ {
        TokenType::False
    } else if word == "null"@ {
        TokenType::Null
    } else {
        TokenType::Identifier
    }
}

/// The kind of the operator that `c` makes with a `=` after it, if there is one.
pub open spec fn pair_kind(c: char) -> Option<TokenType> {
    if c == '=' {
        Some(TokenType::Equal)
    } else if c == '!' {
        Some(TokenType::NotEqual)
    } else if c == '<' {
        Some(TokenType::LessEqual)
    } else if c == '>' {
        Some(TokenType::GreaterEqual)
    } else {
        None
    }
}

/// The kind of the token that `c` is by itself; `Illegal` where it is none.
pub open spec fn single_kind(c: char) -> TokenType {
    if c == '+' {
        TokenType::Plus
    } else if c == '-' {
        TokenType::Minus
    } else if c == '*' {
        TokenType::Star
    } else if c == '/' {
        TokenType::Slash
    } else if c == '!' {
        TokenType::Bang
    } else if c == '=' {
        TokenType::Assign
    } else if c == '<' {
        TokenType::Less
    } else if c == '>' {
        TokenType::Greater
    } else if c == '(' {
        TokenType::LeftParen
    } else if c == ')' {
        TokenType::RightParen
    } else if c == '{' {
        TokenType::LeftBrace
    } else if c == '}' {
        TokenType::RightBrace
    } else if c == ';' {
        TokenType::Semicolon
    } else {
        TokenType::Illegal
    }
}

/// A token without a number.
pub open spec fn plain(kind: TokenType, lexeme: Seq<char>) -> TokenView {
    TokenView { kind, lexeme, number: None }
}

/// The token that starts at `start`, a position that holds no white space,
/// and the position after it.
///
/// At the end of the text this is `Eof`, with an empty lexeme. A digit starts
/// a numeral, a letter a word, which is a keyword or an identifier. A `"`
/// starts a text that runs to the next `"`; its lexeme is what stands
/// between the two, and where no second `"` follows, the rest of the input is
/// one `Illegal` token. A `=`, `!`, `<` or `>` with a `=` after it is one
/// operator of two characters. Any other character is a token by itself,
/// `Illegal` where the language has no use for it.
pub open spec fn token_at(chars: Seq<char>, start: int) -> (TokenView, int) {
    if !(0 <= start < chars.len()) {
        (plain(TokenType::Eof, Seq::empty()), start)
    } else {
        let c = chars[start];
        if is_digit(c) {
            let end = number_end(chars, start);
            (plain(TokenType::Number, chars.subrange(start, end)), end)
        } else if is_letter(c) {
            let end = run_end(chars, start, CharClass::Word);
            (plain(word_kind(chars.subrange(start, end)), chars.subrange(start, end)), end)
        } else if c == '"' {
            let close = run_end(chars, start + 1, CharClass::Text);
            if close < chars.len() {
                (plain(TokenType::String, chars.subrange(start + 1, close)), close + 1)
            } else {
                (plain(TokenType::Illegal, chars.subrange(start, close)), close)
            }
        } else if start + 1 < chars.len() && chars[start + 1] == '=' && pair_kind(c) is Some {
            (plain(pair_kind(c)->0, chars.subrange(start, start + 2)), start + 2)
        } else {
            (plain(single_kind(c), chars.subrange(start, start + 1)), start + 1)
        }
    }
}

/// The next token from `pos` on, after any white space, and the position
/// after it.
pub open spec fn next_token_spec(chars: Seq<char>, pos: int) -> (TokenView, int) {
    token_at(chars, run_end(chars, pos, CharClass::Space))
}

/// A run ends between its start and the end of the text, on a character that
/// is not of the class, and holds characters of the class only.
pub proof fn lemma_run_end(chars: Seq<char>, pos: int, class: CharClass)
    requires
        0 <= pos <= chars.len(),
    ensures
        pos <= run_end(chars, pos, class) <= chars.len(),
        run_end(chars, pos, class) < chars.len() ==> !in_class(
            class,
            chars[run_end(chars, pos, class)],
        ),
        forall|i: int|
            pos <= i < run_end(chars, pos, class) ==> in_class(class, #[trigger] chars[i]),
    decreases chars.len() - pos,
{
    if pos < chars.len() && in_class(class, chars[pos]) {
        lemma_run_end(chars, pos + 1, class);
    }
}

/// Every token but `Eof` ends after the position it was asked from, and none
/// ends after the end of the text.
pub proof fn lemma_token_advances(chars: Seq<char>, pos: int)
    requires
        0 <= pos <= chars.len(),
    ensures
        pos <= next_token_spec(chars, pos).1 <= chars.len(),
        !(next_token_spec(chars, pos).0.kind is Eof) ==> pos < next_token_spec(chars, pos).1,
        next_token_spec(chars, pos).0.kind is Eof ==> next_token_spec(chars, pos).1
            == chars.len(),
{
    let start = run_end(chars, pos, CharClass::Space);
    lemma_run_end(chars, pos, CharClass::Space);
    if start < chars.len() {
        let c = chars[start];
        lemma_run_end(chars, start, CharClass::Digit);
        lemma_run_end(chars, start, CharClass::Word);
        lemma_run_end(chars, start + 1, CharClass::Text);
        let whole = run_end(chars, start, CharClass::Digit);
        if whole + 1 < chars.len() {
            lemma_run_end(chars, whole + 1, CharClass::Digit);
        }
        lemma_word_kind_is_no_eof(chars.subrange(start, run_end(chars, start, CharClass::Word)));
    }
}

/// A word is a keyword or an identifier, never `Eof`.
pub proof fn lemma_word_kind_is_no_eof(word: Seq<char>)
    ensures
        !(word_kind(word) is Eof),
{
}

/// All the tokens from `pos` to the end of the text, the closing `Eof`
/// included.
pub open spec fn tokens_from(chars: Seq<char>, pos: int) -> Seq<TokenView>
    decreases chars.len() - pos,
    when 0 <= pos <= chars.len()
    via tokens_from_decreases
{
    let (token, next) = next_token_spec(chars, pos);
    if token.kind is Eof {
        seq![token]
    } else {
        seq![token] + tokens_from(chars, next)
    }
}

#[via_fn]
proof fn tokens_from_decreases(chars: Seq<char>, pos: int) {
    lemma_token_advances(chars, pos);
}

/// The tokens of a text end with an `Eof`, which is the only one among them.
pub proof fn tokens_end_with_eof(chars: Seq<char>, pos: int)
    requires
        0 <= pos <= chars.len(),
    ensures
        tokens_from(chars, pos).len() >= 1,
        tokens_from(chars, pos).last().kind is Eof,
        forall|i: int|
            0 <= i < tokens_from(chars, pos).len() - 1 ==> !((#[trigger] tokens_from(
                chars,
                pos,
            )[i]).kind is Eof),
    decreases chars.len() - pos,
{
    lemma_token_advances(chars, pos);
    let (token, next) = next_token_spec(chars, pos);
    if !(token.kind is Eof) {
        tokens_end_with_eof(chars, next);
        let rest = tokens_from(chars, next);
        let all = tokens_from(chars, pos);
        assert(all =~= seq![token] + rest);
        assert forall|i: int| 0 <= i < all.len() - 1 implies !((#[trigger] all[i]).kind is Eof) by {
            if i > 0 {
                assert(all[i] == rest[i - 1]);
            }
        }
    }
}

/// The characters of a text, in order.
pub fn characters(text: &str) -> (chars: Vec<char>)
    ensures
        chars@ == text@,
{
    broadcast use vstd::string::group_string_axioms;

    let mut chars: Vec<char> = Vec::new();
    let mut rest = text.chars();
    loop
        invariant
            chars@ + rest.remaining() == text@,
            rest.decrease() is Some,
        decreases rest.decrease()->0,
    {
        match rest.next() {
            Some(c) => {
                chars.push(c);
                assert(chars@ + rest.remaining() =~= text@);
            },
            None => {
                assert(chars@ =~= text@);
                return chars;
            },
        }
    }
}

/// Tells whether `c` belongs to `class`.
pub fn belongs(class: CharClass, c: char) -> (r: bool)
    ensures
        r == in_class(class, c),
{
    match class {
        CharClass::Space => c == ' ' || c == '\t' || c == '\n' || c == '\r',
        CharClass::Digit => '0' <= c && c <= '9',
        CharClass::Word => ('a' <= c && c <= 'z') || ('A' <= c && c <= 'Z') || c == '_' || (
        '0' <= c && c <= '9'),
        CharClass::Text => c != '"',
    }
}

fn keyword(word: &String) -> (kind: TokenType)
    ensures
        kind == word_kind(word@),
{
    if *word == String::from_str("let") {
        TokenType::Let
    } else if *word == String::from_str("return") {
        TokenType::Return
    } else if *word == String::from_str("if") {
        TokenType::If
    } else if *word == String::from_str("else") {
        TokenType::Else
    } else if *word == String::from_str("while") {
        TokenType::While
    } else if *word == String::from_str("true") {
        TokenType::True
    } else if *word == String::from_str("false") {
        TokenType::False
    } else if *word == String::from_str("null") {
        TokenType::Null
    } else {
        TokenType::Identifier
    }
}

fn pair(c: char) -> (kind: Option<TokenType>)
    ensures
        kind == pair_kind(c),
{
    if c == '=' {
        Some(TokenType::Equal)
    } else if c == '!' {
        Some(TokenType::NotEqual)
    } else if c == '<' {
        Some(TokenType::LessEqual)
    } else if c == '>' {
        Some(TokenType::GreaterEqual)
    } else {
        None
    }
}

fn single(c: char) -> (kind: TokenType)
    ensures
        kind == single_kind(c),
{
    if c == '+' {
        TokenType::Plus
    } else if c == '-' {
        TokenType::Minus
    } else if c == '*' {
        TokenType::Star
    } else if c == '/' {
        TokenType::Slash
    } else if c == '!' {
        TokenType::Bang
    } else if c == '=' {
        TokenType::Assign
    } else if c == '<' {
        TokenType::Less
    } else if c == '>' {
        TokenType::Greater
    } else if c == '(' {
        TokenType::LeftParen
    } else if c == ')' {
        TokenType::RightParen
    } else if c == '{' {
        TokenType::LeftBrace
    } else if c == '}' {
        TokenType::RightBrace
    } else if c == ';' {
        TokenType::Semicolon
    } else {
        TokenType::Illegal
    }
}

/// A scanner over a source text, with the position it has read up to.
pub struct Lexer {
    source: String,
    chars: Vec<char>,
    position: usize,
}

impl Lexer {
    #[verifier::type_invariant]
    spec fn well_formed(&self) -> bool {
        self.chars@ == self.source@ && self.position <= self.chars@.len()
    }

    /// The text that the scanner reads.
    pub closed spec fn text(&self) -> Seq<char> {
        self.chars@
    }

    /// The position that the scanner has read up to, at most the length of
    /// the text.
    pub closed spec fn position(&self) -> int {
        self.position as int
    }

    /// A scanner at the start of `input`.
    pub fn new(input: &str) -> (lexer: Lexer)
        ensures
            lexer.text() == input@,
            lexer.position() == 0,
    {
        Lexer { source: String::from_str(input), chars: characters(input), position: 0 }
    }

    fn run(&self, from: usize, class: CharClass) -> (end: usize)
        requires
            from <= self.text().len(),
        ensures
            end == run_end(self.text(), from as int, class),
            from <= end <= self.text().len(),
    {
        let mut end = from;
        while end < self.chars.len() && belongs(class, self.chars[end])
            invariant
                from <= end <= self.chars@.len(),
                run_end(self.chars@, end as int, class) == run_end(self.chars@, from as int, class),
            decreases self.chars@.len() - end,
        {
            end = end + 1;
        }
        end
    }

    fn slice(&self, from: usize, to: usize) -> (text: String)
        requires
            from <= to <= self.text().len(),
        ensures
            text@ == self.text().subrange(from as int, to as int),
    {
        proof {
            use_type_invariant(self);
        }
        String::from_str(self.source.as_str().substring_char(from, to))
    }

    fn number(&self, start: usize) -> (end: usize)
        requires
            start <= self.text().len(),
        ensures
            end == number_end(self.text(), start as int),
            start <= end <= self.text().len(),
    {
        let whole = self.run(start, CharClass::Digit);
        if whole < self.chars.len() && self.chars.len() - whole > 1 && self.chars[whole] == '.'
            && belongs(CharClass::Digit, self.chars[whole + 1]) {
            self.run(whole + 1, CharClass::Digit)
        } else {
            whole
        }
    }

    /// Reads the next token, as [`next_token_spec`] says. At the end of the
    /// text every call gives `Eof`.
    pub fn next_token(&mut self) -> (token: Token)
        ensures
            final(self).text() == old(self).text(),
            (token@, final(self).position()) == next_token_spec(
                old(self).text(),
                old(self).position(),
            ),
    {
        proof {
            use_type_invariant(&*self);
            lemma_token_advances(self.chars@, self.position as int);
        }
        let start = self.run(self.position, CharClass::Space);
        self.position = start;
        if start >= self.chars.len() {
            let token = Token::new(TokenType::Eof, self.slice(start, start));
            assert(token@.lexeme =~= Seq::<char>::empty());
            return token;
        }
        let c = self.chars[start];
        if belongs(CharClass::Digit, c) {
            let end = self.number(start);
            self.position = end;
            Token::new(TokenType::Number, self.slice(start, end))
        } else if belongs(CharClass::Word, c) {
            let end = self.run(start, CharClass::Word);
            let word = self.slice(start, end);
            self.position = end;
            Token::new(keyword(&word), word)
        } else if c == '"' {
            let close = self.run(start + 1, CharClass::Text);
            if close < self.chars.len() {
                self.position = close + 1;
                Token::new(TokenType::String, self.slice(start + 1, close))
            } else {
                self.position = close;
                Token::new(TokenType::Illegal, self.slice(start, close))
            }
        } else {
            let double = pair(c);
            if self.chars.len() - start > 1 && self.chars[start + 1] == '=' && double.is_some() {
                self.position = start + 2;
                Token::new(double.unwrap(), self.slice(start, start + 2))
            } else {
                self.position = start + 1;
                Token::new(single(c), self.slice(start, start + 1))
            }
        }
    }

    /// Reads all the tokens that are left, through the closing `Eof`.
    pub fn tokenize(&mut self) -> (tokens: Vec<Token>)
        ensures
            final(self).text() == old(self).text(),
            final(self).position() == old(self).text().len(),
            token_views(tokens@) == tokens_from(old(self).text(), old(self).position()),
    {
        let mut tokens: Vec<Token> = Vec::new();
        proof {
            use_type_invariant(&*self);
        }
        loop
            invariant
                self.text() == old(self).text(),
                0 <= self.position() <= self.text().len(),
                token_views(tokens@) + tokens_from(self.text(), self.position()) == tokens_from(
                    old(self).text(),
                    old(self).position(),
                ),
            decreases self.text().len() - self.position(),
        {
            let ghost before = self.position();
            let ghost seen = token_views(tokens@);
            proof {
                lemma_token_advances(self.text(), before);
            }
            let token = self.next_token();
            let done = token.kind == TokenType::Eof;
            proof {
                use_type_invariant(&*self);
            }
            tokens.push(token);
            assert(token_views(tokens@) =~= seen.push(token@));
            if done {
                assert(token_views(tokens@) =~= seen + tokens_from(self.text(), before));
                return tokens;
            }
            assert(token_views(tokens@) + tokens_from(self.text(), self.position()) =~= seen
                + tokens_from(self.text(), before));
        }
    }
}

} // verus!
