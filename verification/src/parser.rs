//! The parser: from tokens to a syntax tree.

use vstd::prelude::*;
use crate::ast::{
    Expression, ExpressionStatement, ExpressionView, Identifier, InfixExpression, IntegerLiteral,
    LetStatement, PrefixExpression, Program, ReturnStatement, Statement, StatementView,
};
use crate::compiler::{binary_of, texts};
use crate::diagnostic::{ErrorKind, describe, message};
use crate::lexer::{Lexer, characters, is_digit, tokens_from};
use crate::token::{Token, TokenType, TokenView, token_views};
use crate::grammar::{LOWEST, UNARY, binary, lowest, unary};

verus! {

/// The state of a parse.
pub struct ParserView {
    /// The tokens of the program.
    pub tokens: Seq<TokenView>,
    /// The index of the token that is read next.
    pub position: nat,
    /// The diagnostics recorded so far.
    pub errors: Seq<Seq<char>>,
}

/// The number that a sequence of digits spells in base ten.
pub open spec fn digits_value(digits: Seq<char>) -> int
    decreases digits.len(),
{
    if digits.len() == 0 {
        0
    } else {
        digits_value(digits.drop_last()) * 10 + (digits.last() as int - '0' as int)
    }
}

/// The integer that a numeral spells, where it is made of digits only, at
/// least one, and the number fits in 64 bits with a sign.
pub open spec fn integer_of(numeral: Seq<char>) -> Option<i64> {
    if numeral.len() > 0 && (forall|i: int|
        0 <= i < numeral.len() ==> is_digit(#[trigger] numeral[i])) && digits_value(numeral)
        <= i64::MAX {
        Some(digits_value(numeral) as i64)
    } else {
        None
    }
}

impl ParserView {
    /// The position is within the tokens or just after them.
    pub open spec fn well_formed(self) -> bool {
        self.position <= self.tokens.len()
    }

    /// The number of tokens that are not read yet.
    pub open spec fn remaining(self) -> nat {
        if self.position <= self.tokens.len() {
            (self.tokens.len() - self.position) as nat
        } else {
            0
        }
    }

    /// The kind of the token `ahead` places after the one that is read next;
    /// `Eof` outside the tokens.
    pub open spec fn kind_at(self, ahead: int) -> TokenType {
        if 0 <= self.position + ahead < self.tokens.len() {
            self.tokens[self.position + ahead].kind
        } else {
            TokenType::Eof
        }
    }

    /// The kind of the token that is read next.
    pub open spec fn kind(self) -> TokenType {
        self.kind_at(0)
    }

    /// The token that is read next.
    pub open spec fn token(self) -> TokenView {
        self.tokens[self.position as int]
    }

    /// The state after reading one token. `Eof` is never read past.
    pub open spec fn advance(self) -> ParserView {
        if self.kind() is Eof {
            self
        } else {
            ParserView { position: self.position + 1, ..self }
        }
    }

    /// The state after reading a `;`, where one is next.
    pub open spec fn end_statement(self) -> ParserView {
        if self.kind() is Semicolon {
            self.advance()
        } else {
            self
        }
    }

    /// The state that a part of a construct leaves, seen from the state
    /// `self` in which the part began: `after`, over the same tokens, at a
    /// position between that of `self` and the end of the tokens. No part
    /// ever moves backwards or past the end, so this is `after` itself.
    pub open spec fn resume(self, after: ParserView) -> ParserView {
        ParserView {
            tokens: self.tokens,
            position: if after.position < self.position {
                self.position
            } else if after.position > self.tokens.len() && self.position <= self.tokens.len() {
                self.tokens.len()
            } else {
                after.position
            },
            ..after
        }
    }

    /// The state with the diagnostic for `kind` recorded.
    pub open spec fn fail(self, kind: ErrorKind) -> ParserView {
        ParserView { errors: self.errors.push(message(kind)), ..self }
    }

    /// Whether a statement can start here: at the end of the input, after a
    /// `;`, or at `let` or `return`.
    pub open spec fn at_boundary(self) -> bool {
        ||| self.kind() is Eof
        ||| self.kind() is Let
        ||| self.kind() is Return
        ||| self.kind_at(-1) is Semicolon
    }
}

/// An operand: a name, an integer, an expression in parentheses, or a unary
/// operator with its operand.
pub open spec fn operand_spec(p: ParserView) -> (ParserView, Option<ExpressionView>)
    decreases p.remaining(), 0nat,
{
    match p.kind() {
        TokenType::Identifier => (
            p.advance(),
            Some(ExpressionView::Identifier { token: p.token(), name: p.token().lexeme }),
        ),
        TokenType::Number => match integer_of(p.token().lexeme) {
            Some(value) => (p.advance(), Some(ExpressionView::Integer { token: p.token(), value })),
            None => (p.fail(ErrorKind::ExpectedInteger), None),
        },
        TokenType::Minus | TokenType::Bang => {
            let (after, right) = tree_spec(p.advance(), unary());
            match right {
                Some(right) => (
                    after,
                    Some(
                        ExpressionView::Prefix {
                            token: p.token(),
                            operator: p.token().lexeme,
                            right: Box::new(right),
                        },
                    ),
                ),
                None => (after, None),
            }
        },
        TokenType::LeftParen => {
            let (after, inner) = tree_spec(p.advance(), lowest());
            if inner is None {
                (after, None)
            } else if after.kind() is RightParen {
                (after.advance(), inner)
            } else {
                (after.fail(ErrorKind::ExpectedRightParen), None)
            }
        },
        _ => (p.fail(ErrorKind::ExpectedExpression), None),
    }
}

/// The tree of an expression whose binary operators all bind at least as
/// strongly as `min`. Operators of one binding power group to the left.
pub open spec fn tree_spec(p: ParserView, min: int) -> (ParserView, Option<ExpressionView>)
    decreases p.remaining(), 2nat,
{
    let (after, first) = operand_spec(p);
    match first {
        Some(left) => operators_spec(p.resume(after), left, min),
        None => (after, None),
    }
}

/// The tree of `left` with the operators that follow it and their right
/// operands, as far as they bind at least as strongly as `min`.
pub open spec fn operators_spec(p: ParserView, left: ExpressionView, min: int) -> (
    ParserView,
    Option<ExpressionView>,
)
    decreases p.remaining(), 1nat,
{
    match binary(p.kind()) {
        Some((power, op)) if power >= min => {
            let (after, right) = tree_spec(p.advance(), power + 1);
            match right {
                Some(right) => operators_spec(
                    p.advance().resume(after),
                    ExpressionView::Infix {
                        token: p.token(),
                        left: Box::new(left),
                        operator: p.token().lexeme,
                        right: Box::new(right),
                    },
                    min,
                ),
                None => (after, None),
            }
        },
        _ => (p, Some(left)),
    }
}

/// One statement: `let name = expression`, `return expression`, or an
/// expression, each with a `;` after it or without.
pub open spec fn parse_statement_spec(p: ParserView) -> (ParserView, Option<StatementView>) {
    match p.kind() {
        TokenType::Let => {
            let named = p.advance();
            if !(named.kind() is Identifier) {
                (named.fail(ErrorKind::ExpectedName), None)
            } else if !(named.kind_at(1) is Assign) {
                (named.advance().fail(ErrorKind::ExpectedAssign), None)
            } else {
                let (after, value) = tree_spec(named.advance().advance(), lowest());
                match value {
                    Some(value) => (
                        after.end_statement(),
                        Some(
                            StatementView::Let {
                                token: p.token(),
                                identifier: ExpressionView::Identifier {
                                    token: named.token(),
                                    name: named.token().lexeme,
                                },
                                value,
                            },
                        ),
                    ),
                    None => (after, None),
                }
            }
        },
        TokenType::Return => {
            let (after, value) = tree_spec(p.advance(), lowest());
            match value {
                Some(value) => (
                    after.end_statement(),
                    Some(StatementView::Return { token: p.token(), value }),
                ),
                None => (after, None),
            }
        },
        _ => {
            let (after, expression) = tree_spec(p, lowest());
            match expression {
                Some(expression) => (
                    after.end_statement(),
                    Some(StatementView::Expression { token: p.token(), expression }),
                ),
                None => (after, None),
            }
        },
    }
}

/// The state after the tokens up to the next place where a statement can
/// start have been passed over.
pub open spec fn pass_spec(p: ParserView) -> ParserView
    decreases p.remaining(),
{
    if p.at_boundary() {
        p
    } else {
        pass_spec(p.advance())
    }
}

/// The recovery from a malformed statement that started at `start`: the
/// parser goes on at the next place where a statement can start, and at
/// least one token after `start`.
pub open spec fn recover_spec(p: ParserView, start: nat) -> ParserView {
    if p.position == start {
        pass_spec(p.advance())
    } else {
        pass_spec(p)
    }
}

/// The statements from here to the end of the input, added to `parsed`. A
/// malformed statement is reported and left out.
pub open spec fn parse_program_spec(p: ParserView, parsed: Seq<StatementView>) -> (
    ParserView,
    Seq<StatementView>,
)
    decreases p.remaining(),
{
    if p.kind() is Eof {
        (p, parsed)
    } else {
        let (after, statement) = parse_statement_spec(p);
        match statement {
            Some(statement) => {
                let next = p.resume(after);
                if next.position > p.position {
                    parse_program_spec(next, parsed.push(statement))
                } else {
                    (next, parsed.push(statement))
                }
            },
            None => {
                let next = p.resume(recover_spec(after, p.position));
                if next.position > p.position {
                    parse_program_spec(next, parsed)
                } else {
                    (next, parsed)
                }
            },
        }
    }
}

/// The content of an expression that may be missing.
pub open spec fn tree_of(e: Option<Expression>) -> Option<ExpressionView> {
    match e {
        Some(e) => Some(e@),
        None => None,
    }
}

/// The content of a statement that may be missing.
pub open spec fn statement_of(s: Option<Statement>) -> Option<StatementView> {
    match s {
        Some(s) => Some(s@),
        None => None,
    }
}

/// Whether `after` is a state that parsing can reach from `before`: the
/// tokens are the same, the position has not moved back nor past the last
/// token, and no diagnostic has gone. Then `after` is the state that a
/// construct begun in `before` resumes in.
pub open spec fn follows(before: ParserView, after: ParserView) -> bool {
    &&& after.tokens == before.tokens
    &&& before.position <= after.position <= before.tokens.len()
    &&& before.errors.len() <= after.errors.len()
    &&& before.resume(after) == after
}

/// An operand leaves a state that follows, and a tree only after it has
/// taken a token.
pub proof fn lemma_operand(p: ParserView)
    requires
        p.well_formed(),
    ensures
        follows(p, operand_spec(p).0),
        operand_spec(p).1 is Some ==> operand_spec(p).0.position > p.position,
    decreases p.remaining(), 0nat,
{
    match p.kind() {
        TokenType::Minus | TokenType::Bang => {
            lemma_tree(p.advance(), unary());
        },
        TokenType::LeftParen => {
            lemma_tree(p.advance(), lowest());
        },
        _ => {},
    }
}

/// An expression leaves a state that follows, and a tree only after it has
/// taken a token.
pub proof fn lemma_tree(p: ParserView, min: int)
    requires
        p.well_formed(),
    ensures
        follows(p, tree_spec(p, min).0),
        tree_spec(p, min).1 is Some ==> tree_spec(p, min).0.position > p.position,
    decreases p.remaining(), 2nat,
{
    lemma_operand(p);
    let (after, first) = operand_spec(p);
    if first is Some {
        lemma_operators(p.resume(after), first->0, min);
    }
}

/// The operators after an operand leave a state that follows.
pub proof fn lemma_operators(p: ParserView, left: ExpressionView, min: int)
    requires
        p.well_formed(),
    ensures
        follows(p, operators_spec(p, left, min).0),
    decreases p.remaining(), 1nat,
{
    match binary(p.kind()) {
        Some((power, op)) => {
            if power >= min {
                lemma_tree(p.advance(), power + 1);
                let (after, right) = tree_spec(p.advance(), power + 1);
                if right is Some {
                    lemma_operators(
                        p.advance().resume(after),
                        ExpressionView::Infix {
                            token: p.token(),
                            left: Box::new(left),
                            operator: p.token().lexeme,
                            right: Box::new(right->0),
                        },
                        min,
                    );
                }
            }
        },
        None => {},
    }
}

/// A statement leaves a state that follows, and is there only after it has
/// taken a token.
pub proof fn lemma_parse_statement(p: ParserView)
    requires
        p.well_formed(),
    ensures
        follows(p, parse_statement_spec(p).0),
        parse_statement_spec(p).1 is Some ==> parse_statement_spec(p).0.position > p.position,
{
    match p.kind() {
        TokenType::Let => {
            let named = p.advance();
            if named.kind() is Identifier && named.kind_at(1) is Assign {
                lemma_tree(named.advance().advance(), lowest());
            }
        },
        TokenType::Return => {
            lemma_tree(p.advance(), lowest());
        },
        _ => {
            lemma_tree(p, lowest());
        },
    }
}

/// Passing over tokens leaves a state that follows.
pub proof fn lemma_pass(p: ParserView)
    requires
        p.well_formed(),
    ensures
        follows(p, pass_spec(p)),
    decreases p.remaining(),
{
    if !p.at_boundary() {
        lemma_pass(p.advance());
    }
}

/// Parsing a program reads all the tokens up to the first `Eof`, and keeps
/// the statements it was given.
pub proof fn parsing_reads_to_the_end(p: ParserView, parsed: Seq<StatementView>)
    requires
        p.well_formed(),
    ensures
        follows(p, parse_program_spec(p, parsed).0),
        parse_program_spec(p, parsed).0.kind() is Eof,
        parsed.len() <= parse_program_spec(p, parsed).1.len(),
        forall|i: int|
            0 <= i < parsed.len() ==> (#[trigger] parse_program_spec(p, parsed).1[i]) == parsed[i],
    decreases p.remaining(),
{
    if !(p.kind() is Eof) {
        lemma_parse_statement(p);
        let (after, statement) = parse_statement_spec(p);
        match statement {
            Some(statement) => {
                parsing_reads_to_the_end(p.resume(after), parsed.push(statement));
            },
            None => {
                if after.position == p.position {
                    lemma_pass(after.advance());
                } else {
                    lemma_pass(after);
                }
                parsing_reads_to_the_end(p.resume(recover_spec(after, p.position)), parsed);
            },
        }
    }
}

/// Reads a numeral as an integer, as [`integer_of`] says.
pub fn read_integer(numeral: &str) -> (value: Option<i64>)
    ensures
        value == integer_of(numeral@),
{
    let digits = characters(numeral);
    if digits.len() == 0 {
        return None;
    }
    let mut value: i64 = 0;
    let mut i: usize = 0;
    while i < digits.len()
        invariant
            i <= digits@.len(),
            digits@ == numeral@,
            forall|j: int| 0 <= j < i ==> is_digit(#[trigger] digits@[j]),
            0 <= value,
            value == digits_value(digits@.take(i as int)),
        decreases digits@.len() - i,
    {
        let c = digits[i];
        assert(digits@.take(i + 1).drop_last() =~= digits@.take(i as int));
        if !('0' <= c && c <= '9') {
            return None;
        }
        let digit = (c as u32 - '0' as u32) as i64;
        if value > (i64::MAX - digit) / 10 {
            proof {
                if forall|j: int| 0 <= j < digits@.len() ==> is_digit(#[trigger] digits@[j]) {
                    lemma_digits_grow(digits@, i + 1);
                }
            }
            return None;
        }
        value = value * 10 + digit;
        i = i + 1;
    }
    assert(digits@.take(i as int) =~= digits@);
    Some(value)
}

/// A sequence of digits spells a number that is at least the number that
/// any of its beginnings spells.
pub proof fn lemma_digits_grow(digits: Seq<char>, n: int)
    requires
        0 <= n <= digits.len(),
        forall|j: int| 0 <= j < digits.len() ==> is_digit(#[trigger] digits[j]),
    ensures
        0 <= digits_value(digits.take(n)) <= digits_value(digits),
    decreases digits.len() - n,
{
    lemma_digits_not_negative(digits.take(n));
    if n < digits.len() {
        assert(digits.take(n + 1).drop_last() =~= digits.take(n));
        lemma_digits_grow(digits, n + 1);
    } else {
        assert(digits.take(n) =~= digits);
    }
}

/// A sequence of digits spells a number that is not negative.
pub proof fn lemma_digits_not_negative(digits: Seq<char>)
    requires
        forall|j: int| 0 <= j < digits.len() ==> is_digit(#[trigger] digits[j]),
    ensures
        0 <= digits_value(digits),
    decreases digits.len(),
{
    if digits.len() > 0 {
        lemma_digits_not_negative(digits.drop_last());
    }
}

/// A parser over the tokens of one program.
pub struct Parser {
    tokens: Vec<Token>,
    position: usize,
    pub errors: Vec<String>,
}

impl View for Parser {
    type V = ParserView;

    closed spec fn view(&self) -> ParserView {
        ParserView {
            tokens: token_views(self.tokens@),
            position: self.position as nat,
            errors: texts(self.errors@),
        }
    }
}

impl Parser {
    /// A parser at the first of the tokens that `lexer` has still to give.
    pub fn new(lexer: Lexer) -> (parser: Parser)
        ensures
            parser@.well_formed(),
            parser@.tokens == tokens_from(lexer.text(), lexer.position()),
            parser@.position == 0,
            parser@.errors.len() == 0,
    {
        let mut lexer = lexer;
        let tokens = lexer.tokenize();
        Parser { tokens, position: 0, errors: Vec::new() }
    }

    fn kind_at(&self, ahead: usize) -> (kind: TokenType)
        requires
            self@.well_formed(),
        ensures
            kind == self@.kind_at(ahead as int),
    {
        if ahead < self.tokens.len() - self.position {
            self.tokens[self.position + ahead].kind
        } else {
            TokenType::Eof
        }
    }

    fn kind(&self) -> (kind: TokenType)
        requires
            self@.well_formed(),
        ensures
            kind == self@.kind(),
            !(kind is Eof) ==> self@.position < self@.tokens.len(),
    {
        self.kind_at(0)
    }

    fn token(&self) -> (token: Token)
        requires
            self@.well_formed(),
            self@.position < self@.tokens.len(),
        ensures
            token@ == self@.token(),
    {
        self.tokens[self.position].duplicate()
    }

    fn at_boundary(&self) -> (r: bool)
        requires
            self@.well_formed(),
        ensures
            r == self@.at_boundary(),
    {
        match self.kind() {
            TokenType::Eof | TokenType::Let | TokenType::Return => true,
            _ => self.position > 0 && self.tokens[self.position - 1].kind == TokenType::Semicolon,
        }
    }

    fn advance(&mut self)
        requires
            old(self)@.well_formed(),
        ensures
            final(self)@.well_formed(),
            final(self)@ == old(self)@.advance(),
            follows(old(self)@, final(self)@),
            !(old(self)@.kind() is Eof) ==> final(self)@.position == old(self)@.position + 1,
    {
        match self.kind() {
            TokenType::Eof => {},
            _ => {
                assert(self.position < self.tokens.len());
                self.position = self.position + 1;
            },
        }
    }

    fn end_statement(&mut self)
        requires
            old(self)@.well_formed(),
        ensures
            final(self)@.well_formed(),
            final(self)@ == old(self)@.end_statement(),
            follows(old(self)@, final(self)@),
    {
        match self.kind() {
            TokenType::Semicolon => {
                self.advance();
            },
            _ => {},
        }
    }

    fn fail(&mut self, kind: ErrorKind)
        requires
            old(self)@.well_formed(),
        ensures
            final(self)@.well_formed(),
            final(self)@ == old(self)@.fail(kind),
    {
        self.errors.push(describe(kind));
        assert(texts(self.errors@) =~= texts(old(self).errors@).push(message(kind)));
    }

    fn operand(&mut self) -> (tree: Option<Expression>)
        requires
            old(self)@.well_formed(),
        ensures
            final(self)@.well_formed(),
            (final(self)@, tree_of(tree)) == operand_spec(old(self)@),
            follows(old(self)@, final(self)@),
            tree.is_some() ==> final(self)@.position > old(self)@.position,
        decreases old(self)@.remaining(), 0nat,
    {
        match self.kind() {
            TokenType::Identifier => {
                let token = self.token();
                let name = token.lexeme.clone();
                self.advance();
                Some(Expression::Identifier(Identifier { token, name }))
            },
            TokenType::Number => {
                let token = self.token();
                match read_integer(token.lexeme.as_str()) {
                    Some(value) => {
                        self.advance();
                        Some(Expression::Integer(IntegerLiteral { token, value }))
                    },
                    None => {
                        self.fail(ErrorKind::ExpectedInteger);
                        None
                    },
                }
            },
            TokenType::Minus | TokenType::Bang => {
                let token = self.token();
                let operator = token.lexeme.clone();
                self.advance();
                match self.tree(UNARY) {
                    Some(right) => Some(
                        Expression::Prefix(
                            PrefixExpression { token, operator, right: Box::new(right) },
                        ),
                    ),
                    None => None,
                }
            },
            TokenType::LeftParen => {
                self.advance();
                let inner = self.tree(LOWEST);
                if inner.is_none() {
                    return None;
                }
                match self.kind() {
                    TokenType::RightParen => {
                        self.advance();
                        inner
                    },
                    _ => {
                        self.fail(ErrorKind::ExpectedRightParen);
                        None
                    },
                }
            },
            _ => {
                self.fail(ErrorKind::ExpectedExpression);
                None
            },
        }
    }

    fn tree(&mut self, min: u8) -> (tree: Option<Expression>)
        requires
            old(self)@.well_formed(),
        ensures
            final(self)@.well_formed(),
            (final(self)@, tree_of(tree)) == tree_spec(old(self)@, min as int),
            follows(old(self)@, final(self)@),
            tree.is_some() ==> final(self)@.position > old(self)@.position,
        decreases old(self)@.remaining(), 2nat,
    {
        match self.operand() {
            Some(left) => self.operators(left, min),
            None => None,
        }
    }

    fn operators(&mut self, left: Expression, min: u8) -> (tree: Option<Expression>)
        requires
            old(self)@.well_formed(),
        ensures
            final(self)@.well_formed(),
            (final(self)@, tree_of(tree)) == operators_spec(old(self)@, left@, min as int),
            follows(old(self)@, final(self)@),
        decreases old(self)@.remaining(), 1nat,
    {
        let power = match binary_of(self.kind()) {
            Some((power, _)) => power,
            None => {
                return Some(left);
            },
        };
        if power < min {
            return Some(left);
        }
        let token = self.token();
        let operator = token.lexeme.clone();
        self.advance();
        match self.tree(power + 1) {
            Some(right) => {
                let joined = Expression::Infix(
                    InfixExpression {
                        token,
                        left: Box::new(left),
                        operator,
                        right: Box::new(right),
                    },
                );
                self.operators(joined, min)
            },
            None => None,
        }
    }

    fn let_statement(&mut self) -> (statement: Option<Statement>)
        requires
            old(self)@.well_formed(),
            old(self)@.kind() is Let,
        ensures
            final(self)@.well_formed(),
            (final(self)@, statement_of(statement)) == parse_statement_spec(old(self)@),
            follows(old(self)@, final(self)@),
            final(self)@.position > old(self)@.position,
    {
        let token = self.token();
        self.advance();
        match self.kind() {
            TokenType::Identifier => {},
            _ => {
                self.fail(ErrorKind::ExpectedName);
                return None;
            },
        }
        let named = self.token();
        let name = named.lexeme.clone();
        match self.kind_at(1) {
            TokenType::Assign => {},
            _ => {
                self.advance();
                self.fail(ErrorKind::ExpectedAssign);
                return None;
            },
        }
        self.advance();
        self.advance();
        match self.tree(LOWEST) {
            Some(value) => {
                self.end_statement();
                Some(
                    Statement::Let(
                        LetStatement {
                            token,
                            identifier: Identifier { token: named, name },
                            value,
                        },
                    ),
                )
            },
            None => None,
        }
    }

    fn statement(&mut self) -> (statement: Option<Statement>)
        requires
            old(self)@.well_formed(),
        ensures
            final(self)@.well_formed(),
            (final(self)@, statement_of(statement)) == parse_statement_spec(old(self)@),
            follows(old(self)@, final(self)@),
            statement.is_some() ==> final(self)@.position > old(self)@.position,
    {
        match self.kind() {
            TokenType::Let => self.let_statement(),
            TokenType::Return => {
                let token = self.token();
                self.advance();
                match self.tree(LOWEST) {
                    Some(value) => {
                        self.end_statement();
                        Some(Statement::Return(ReturnStatement { token, value }))
                    },
                    None => None,
                }
            },
            TokenType::Eof => {
                self.fail(ErrorKind::ExpectedExpression);
                None
            },
            _ => {
                let token = self.token();
                match self.tree(LOWEST) {
                    Some(expression) => {
                        self.end_statement();
                        Some(Statement::Expression(ExpressionStatement { token, expression }))
                    },
                    None => None,
                }
            },
        }
    }

    fn recover(&mut self, start: usize)
        requires
            old(self)@.well_formed(),
            start <= old(self)@.position,
        ensures
            final(self)@.well_formed(),
            final(self)@ == recover_spec(old(self)@, start as nat),
            follows(old(self)@, final(self)@),
            start < old(self)@.tokens.len() && !(old(self)@.tokens[start as int].kind is Eof)
                ==> final(self)@.position > start,
    {
        if self.position == start {
            self.advance();
        }
        while !self.at_boundary()
            invariant
                self@.well_formed(),
                follows(old(self)@, self@),
                pass_spec(self@) == recover_spec(old(self)@, start as nat),
                start < old(self)@.tokens.len() && !(old(self)@.tokens[start as int].kind is Eof)
                    ==> self@.position > start,
            decreases self@.remaining(),
        {
            self.advance();
        }
    }

    /// Parses the rest of the input, as [`parse_program_spec`] says: the
    /// program holds the well-formed statements in order, and `errors` a
    /// diagnostic for each malformed one.
    pub fn parse_program(&mut self) -> (program: Program)
        requires
            old(self)@.well_formed(),
        ensures
            final(self)@.well_formed(),
            (final(self)@, program@) == parse_program_spec(
                old(self)@,
                Seq::<StatementView>::empty(),
            ),
    {
        let mut program = Program::new();
        loop
            invariant
                self@.well_formed(),
                follows(old(self)@, self@),
                parse_program_spec(self@, program@) == parse_program_spec(
                    old(self)@,
                    Seq::<StatementView>::empty(),
                ),
            decreases self@.remaining(),
        {
            match self.kind() {
                TokenType::Eof => {
                    return program;
                },
                _ => {},
            }
            let ghost before = self@;
            let ghost parsed = program@;
            let start = self.position;
            match self.statement() {
                Some(statement) => {
                    program.statements.push(statement);
                    assert(program@ =~= parsed.push(statement@));
                },
                None => {
                    self.recover(start);
                },
            }
            assert(before.resume(self@) == self@);
        }
    }
}

} // verus!
