//! The syntax tree of a program, and its rendering as source text.

use vstd::prelude::*;
use vstd::string::StringExecFns;
use crate::token::{Token, TokenView};

verus! {

/// What every node of the tree offers: its source text.
pub trait Node {
    /// The source text of the node.
    spec fn lexeme(&self) -> Seq<char>;

    /// Renders the node as source text.
    fn get_lexeme(&self) -> (text: String)
        ensures
            text@ == self.lexeme(),
    ;
}

/// A name.
#[derive(Debug)]
pub struct Identifier {
    pub token: Token,
    pub name: String,
}

/// An integer literal and its value.
#[derive(Debug)]
pub struct IntegerLiteral {
    pub token: Token,
    pub value: i64,
}

/// A unary operator and its operand.
#[derive(Debug)]
pub struct PrefixExpression {
    pub token: Token,
    pub operator: String,
    pub right: Box<Expression>,
}

/// A binary operator and its two operands.
#[derive(Debug)]
pub struct InfixExpression {
    pub token: Token,
    pub left: Box<Expression>,
    pub operator: String,
    pub right: Box<Expression>,
}

/// An expression.
#[derive(Debug)]
pub enum Expression {
    Identifier(Identifier),
    Integer(IntegerLiteral),
    Prefix(PrefixExpression),
    Infix(InfixExpression),
}

/// `let identifier = value`.
#[derive(Debug)]
pub struct LetStatement {
    pub token: Token,
    pub identifier: Identifier,
    pub value: Expression,
}

/// `return value`.
#[derive(Debug)]
pub struct ReturnStatement {
    pub token: Token,
    pub value: Expression,
}

/// An expression that stands as a statement.
#[derive(Debug)]
pub struct ExpressionStatement {
    pub token: Token,
    pub expression: Expression,
}

/// A statement.
#[derive(Debug)]
pub enum Statement {
    Let(LetStatement),
    Return(ReturnStatement),
    Expression(ExpressionStatement),
}

/// A program: its statements in order.
#[derive(Debug)]
pub struct Program {
    pub statements: Vec<Statement>,
}

/// The mathematical content of an [`Expression`]. Every node carries the
/// token it began with: for an infix expression that is the operator.
pub enum ExpressionView {
    Identifier { token: TokenView, name: Seq<char> },
    Integer { token: TokenView, value: i64 },
    Prefix { token: TokenView, operator: Seq<char>, right: Box<ExpressionView> },
    Infix {
        token: TokenView,
        left: Box<ExpressionView>,
        operator: Seq<char>,
        right: Box<ExpressionView>,
    },
}

/// The mathematical content of a [`Statement`].
pub enum StatementView {
    Let { token: TokenView, identifier: ExpressionView, value: ExpressionView },
    Return { token: TokenView, value: ExpressionView },
    Expression { token: TokenView, expression: ExpressionView },
}

/// The content of an expression.
pub open spec fn expression_view(e: Expression) -> ExpressionView
    decreases e,
{
    match e {
        Expression::Identifier(id) => id@,
        Expression::Integer(literal) => ExpressionView::Integer {
            token: literal.token@,
            value: literal.value,
        },
        Expression::Prefix(prefix) => ExpressionView::Prefix {
            token: prefix.token@,
            operator: prefix.operator@,
            right: Box::new(expression_view(*prefix.right)),
        },
        Expression::Infix(infix) => ExpressionView::Infix {
            token: infix.token@,
            left: Box::new(expression_view(*infix.left)),
            operator: infix.operator@,
            right: Box::new(expression_view(*infix.right)),
        },
    }
}

impl View for Identifier {
    type V = ExpressionView;

    open spec fn view(&self) -> ExpressionView {
        ExpressionView::Identifier { token: self.token@, name: self.name@ }
    }
}

impl View for Expression {
    type V = ExpressionView;

    open spec fn view(&self) -> ExpressionView {
        expression_view(*self)
    }
}

impl View for LetStatement {
    type V = StatementView;

    open spec fn view(&self) -> StatementView {
        StatementView::Let { token: self.token@, identifier: self.identifier@, value: self.value@ }
    }
}

impl View for Statement {
    type V = StatementView;

    open spec fn view(&self) -> StatementView {
        match self {
            Statement::Let(statement) => statement@,
            Statement::Return(statement) => StatementView::Return {
                token: statement.token@,
                value: statement.value@,
            },
            Statement::Expression(statement) => StatementView::Expression {
                token: statement.token@,
                expression: statement.expression@,
            },
        }
    }
}

impl View for Program {
    type V = Seq<StatementView>;

    open spec fn view(&self) -> Seq<StatementView> {
        self.statements@.map_values(|s: Statement| s@)
    }
}

/// The source text of an expression: a name or a literal as it was written,
/// `(` operator operand `)` for a prefix expression, and
/// `(` left operator right `)`, with blanks around the operator, for an
/// infix expression.
pub open spec fn expression_text(e: ExpressionView) -> Seq<char>
    decreases e,
{
    match e {
        ExpressionView::Identifier { token, name } => token.lexeme,
        ExpressionView::Integer { token, value } => token.lexeme,
        ExpressionView::Prefix { token, operator, right } => "("@ + operator + expression_text(
            *right,
        ) + ")"@,
        ExpressionView::Infix { token, left, operator, right } => "("@ + expression_text(*left)
            + " "@ + operator + " "@ + expression_text(*right) + ")"@,
    }
}

/// The source text of a statement: `let name = value`, `return value`, or
/// the expression.
pub open spec fn statement_text(s: StatementView) -> Seq<char> {
    match s {
        StatementView::Let { token, identifier, value } => "let "@ + expression_text(identifier)
            + " = "@ + expression_text(value),
        StatementView::Return { token, value } => "return "@ + expression_text(value),
        StatementView::Expression { token, expression } => expression_text(expression),
    }
}

/// The source text of a program: that of its statements, one to a line.
pub open spec fn program_text(statements: Seq<StatementView>) -> Seq<char>
    decreases statements.len(),
{
    if statements.len() == 0 {
        Seq::empty()
    } else if statements.len() == 1 {
        statement_text(statements[0])
    } else {
        program_text(statements.drop_last()) + "\n"@ + statement_text(statements.last())
    }
}

fn render_expression(e: &Expression) -> (text: String)
    ensures
        text@ == expression_text(e@),
    decreases e,
{
    match e {
        Expression::Identifier(id) => id.token.lexeme.clone(),
        Expression::Integer(literal) => literal.token.lexeme.clone(),
        Expression::Prefix(prefix) => {
            let right = render_expression(&*prefix.right);
            String::from_str("(").concat(prefix.operator.as_str()).concat(right.as_str()).concat(
                ")",
            )
        },
        Expression::Infix(infix) => {
            let left = render_expression(&*infix.left);
            let right = render_expression(&*infix.right);
            String::from_str("(").concat(left.as_str()).concat(" ").concat(
                infix.operator.as_str(),
            ).concat(" ").concat(right.as_str()).concat(")")
        },
    }
}

impl Identifier {
    /// The identifier `name`, which began with `token`.
    pub fn new(token: Token, name: String) -> (identifier: Identifier)
        ensures
            identifier@ == (ExpressionView::Identifier { token: token@, name: name@ }),
    {
        Identifier { token, name }
    }
}

impl LetStatement {
    /// The statement that declares `identifier` with `value`, which began
    /// with `token`.
    pub fn new(token: Token, identifier: Identifier, value: Expression) -> (statement:
        LetStatement)
        ensures
            statement@ == (StatementView::Let {
                token: token@,
                identifier: identifier@,
                value: value@,
            }),
    {
        LetStatement { token, identifier, value }
    }
}

impl Program {
    /// A program without statements.
    pub fn new() -> (program: Program)
        ensures
            program@ == Seq::<StatementView>::empty(),
    {
        let program = Program { statements: Vec::new() };
        assert(program@ =~= Seq::<StatementView>::empty());
        program
    }
}

impl Node for Identifier {
    open spec fn lexeme(&self) -> Seq<char> {
        expression_text(self@)
    }

    fn get_lexeme(&self) -> (text: String) {
        self.token.lexeme.clone()
    }
}

impl Node for IntegerLiteral {
    open spec fn lexeme(&self) -> Seq<char> {
        self.token@.lexeme
    }

    fn get_lexeme(&self) -> (text: String) {
        self.token.lexeme.clone()
    }
}

impl Node for Expression {
    open spec fn lexeme(&self) -> Seq<char> {
        expression_text(self@)
    }

    fn get_lexeme(&self) -> (text: String) {
        render_expression(self)
    }
}

impl Node for LetStatement {
    open spec fn lexeme(&self) -> Seq<char> {
        statement_text(self@)
    }

    fn get_lexeme(&self) -> (text: String) {
        let name = self.identifier.get_lexeme();
        let value = self.value.get_lexeme();
        String::from_str("let ").concat(name.as_str()).concat(" = ").concat(value.as_str())
    }
}

impl Node for Statement {
    open spec fn lexeme(&self) -> Seq<char> {
        statement_text(self@)
    }

    fn get_lexeme(&self) -> (text: String) {
        match self {
            Statement::Let(statement) => statement.get_lexeme(),
            Statement::Return(statement) => {
                let value = statement.value.get_lexeme();
                String::from_str("return ").concat(value.as_str())
            },
            Statement::Expression(statement) => statement.expression.get_lexeme(),
        }
    }
}

impl Node for Program {
    open spec fn lexeme(&self) -> Seq<char> {
        program_text(self@)
    }

    fn get_lexeme(&self) -> (text: String) {
        let mut text = String::new();
        let mut i: usize = 0;
        while i < self.statements.len()
            invariant
                i <= self.statements@.len(),
                text@ == program_text(self@.take(i as int)),
            decreases self.statements@.len() - i,
        {
            let line = self.statements[i].get_lexeme();
            assert(self@.take(i + 1).drop_last() =~= self@.take(i as int));
            if i > 0 {
                text = text.concat("\n");
            }
            text = text.concat(line.as_str());
            i = i + 1;
        }
        assert(self@.take(i as int) =~= self@);
        text
    }
}

} // verus!
