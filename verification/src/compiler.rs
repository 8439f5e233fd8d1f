//! The compiler: from tokens to a chunk, in a single pass.

use vstd::prelude::*;
use crate::chunk::{Chunk, OpCode, effect, sound, sound_at};
use crate::diagnostic::{ErrorKind, describe, message};
use crate::progress::{begins_with, extends, lemma_block_drops_its_locals, scoped};
use crate::token::{Token, TokenType, token_views};
use crate::grammar::{
    CompilerView, LOWEST, LocalView, UNARY, assignment_spec, binary, block_spec, declaration_spec,
    drop_locals, expression_spec, expression_statement_spec, if_spec, infix_spec, items_spec,
    let_spec, prefix_spec, program_spec, return_spec, skip_spec, slot_of, start, statement_spec,
    synchronize, while_spec,
};
use crate::value::Value;
use crate::vm::InterpretResult;

verus! {

/// A local variable in scope.
pub struct Local {
    name: String,
    slot: usize,
    depth: usize,
}

impl View for Local {
    type V = LocalView;

    closed spec fn view(&self) -> LocalView {
        LocalView { name: self.name@, slot: self.slot, depth: self.depth as int }
    }
}

/// The views of a sequence of locals, element by element.
pub open spec fn local_views(locals: Seq<Local>) -> Seq<LocalView> {
    locals.map_values(|l: Local| l@)
}

/// The contents of a sequence of texts, element by element.
pub open spec fn texts(lines: Seq<String>) -> Seq<Seq<char>> {
    lines.map_values(|line: String| line@)
}

/// Whether `after` has the variables of `before`, and a stack that is no
/// lower.
pub open spec fn same_frame(before: CompilerView, after: CompilerView) -> bool {
    &&& after.locals == before.locals
    &&& after.height >= before.height
}

/// A compiler over the tokens of one program.
pub struct Compiler {
    tokens: Vec<Token>,
    position: usize,
    chunk: Chunk,
    locals: Vec<Local>,
    depth: usize,
    heights: Ghost<Seq<int>>,
    height: usize,
    errors: Vec<String>,
}

impl View for Compiler {
    type V = CompilerView;

    closed spec fn view(&self) -> CompilerView {
        CompilerView {
            tokens: token_views(self.tokens@),
            position: self.position as nat,
            chunk: self.chunk@,
            locals: local_views(self.locals@),
            depth: self.depth as int,
            heights: self.heights@,
            height: self.height as int,
            errors: texts(self.errors@),
        }
    }
}

/// The binding power of a binary operator and the instruction it compiles
/// to, as [`binary`] says.
pub fn binary_of(kind: TokenType) -> (rule: Option<(u8, OpCode)>)
    ensures
        rule.is_some() == binary(kind).is_some(),
        rule.is_some() ==> rule.unwrap().0 == binary(kind).unwrap().0 && rule.unwrap().1
            == binary(kind).unwrap().1,
{
    match kind {
        TokenType::Equal => Some((1, OpCode::Equal)),
        TokenType::NotEqual => Some((1, OpCode::NotEqual)),
        TokenType::Less => Some((2, OpCode::Less)),
        TokenType::LessEqual => Some((2, OpCode::LessEqual)),
        TokenType::Greater => Some((2, OpCode::Greater)),
        TokenType::GreaterEqual => Some((2, OpCode::GreaterEqual)),
        TokenType::Plus => Some((3, OpCode::Add)),
        TokenType::Minus => Some((3, OpCode::Subtract)),
        TokenType::Star => Some((4, OpCode::Multiply)),
        TokenType::Slash => Some((4, OpCode::Divide)),
        _ => None,
    }
}

fn raised(height: usize, op: OpCode) -> (after: usize)
    requires
        0 <= height + effect(op) <= usize::MAX,
    ensures
        after == height + effect(op),
{
    match op {
        OpCode::Constant(_)
        | OpCode::True
        | OpCode::False
        | OpCode::Null
        | OpCode::GetGlobal(_)
        | OpCode::GetLocal(_) => height + 1,
        OpCode::Not
        | OpCode::Negate
        | OpCode::DefineGlobal(_)
        | OpCode::SetLocal(_)
        | OpCode::JumpIfFalse(_)
        | OpCode::Jump(_)
        | OpCode::Loop(_) => height,
        OpCode::Pop
        | OpCode::SetGlobal(_)
        | OpCode::Return
        | OpCode::Equal
        | OpCode::NotEqual
        | OpCode::Greater
        | OpCode::GreaterEqual
        | OpCode::Less
        | OpCode::LessEqual
        | OpCode::Add
        | OpCode::Subtract
        | OpCode::Multiply
        | OpCode::Divide => height - 1,
    }
}

impl Compiler {
    /// A compiler at the first of `tokens`, with an empty chunk. The tokens
    /// are read up to the first `Eof`, or to the last token where there is
    /// no `Eof`.
    pub fn new(tokens: Vec<Token>) -> (compiler: Compiler)
        ensures
            compiler@ == start(token_views(tokens@)),
            compiler@.well_formed(),
    {
        let compiler = Compiler {
            tokens,
            position: 0,
            chunk: Chunk::new(),
            locals: Vec::new(),
            depth: 0,
            heights: Ghost(Seq::empty()),
            height: 0,
            errors: Vec::new(),
        };
        assert(compiler@.locals =~= Seq::<LocalView>::empty());
        assert(compiler@.errors =~= Seq::<Seq<char>>::empty());
        assert(compiler@.chunk == start(token_views(tokens@)).chunk);
        compiler
    }

    /// The chunk compiled so far.
    pub fn current_chunk(&self) -> (chunk: &Chunk)
        ensures
            chunk@ == self@.chunk,
    {
        &self.chunk
    }

    /// Gives up the compiler for its chunk.
    pub fn into_chunk(self) -> (chunk: Chunk)
        ensures
            chunk@ == self@.chunk,
    {
        self.chunk
    }

    /// Gives up the compiler for its chunk and its diagnostics.
    pub fn into_parts(self) -> (parts: (Chunk, Vec<String>))
        ensures
            parts.0@ == self@.chunk,
            texts(parts.1@) == self@.errors,
    {
        (self.chunk, self.errors)
    }

    /// The diagnostics recorded so far, oldest first.
    pub fn errors(&self) -> (errors: &Vec<String>)
        ensures
            texts(errors@) == self@.errors,
    {
        &self.errors
    }

    /// Tells whether any diagnostic was recorded.
    pub fn had_error(&self) -> (failed: bool)
        ensures
            failed == (self@.errors.len() > 0),
    {
        self.errors.len() > 0
    }

    fn kind_at(&self, ahead: usize) -> (kind: TokenType)
        requires
            self@.well_formed(),
        ensures
            kind == self@.kind_at(ahead as int),
    {
        if ahead < self.tokens.len() - self.position {
            self.tokens[self.position + ahead].kind
        } else {
            TokenType::Eof
        }
    }

    fn kind(&self) -> (kind: TokenType)
        requires
            self@.well_formed(),
        ensures
            kind == self@.kind(),
            !(kind is Eof) ==> self@.position < self@.tokens.len(),
    {
        self.kind_at(0)
    }

    fn lexeme(&self) -> (text: String)
        requires
            self@.well_formed(),
            self@.position < self@.tokens.len(),
        ensures
            text@ == self@.token().lexeme,
    {
        self.tokens[self.position].lexeme.clone()
    }

    fn after_semicolon(&self) -> (r: bool)
        requires
            self@.well_formed(),
        ensures
            r == (self@.kind_at(-1) is Semicolon),
    {
        self.position > 0 && self.tokens[self.position - 1].kind == TokenType::Semicolon
    }

    fn at_boundary(&self) -> (r: bool)
        requires
            self@.well_formed(),
        ensures
            r == self@.at_boundary(),
    {
        match self.kind() {
            TokenType::Eof
            | TokenType::Let
            | TokenType::If
            | TokenType::While
            | TokenType::Return
            | TokenType::LeftBrace
            | TokenType::RightBrace => true,
            _ => self.after_semicolon(),
        }
    }

    fn advance(&mut self)
        requires
            old(self)@.well_formed(),
        ensures
            final(self)@.well_formed(),
            final(self)@ == old(self)@.advance(),
            extends(old(self)@, final(self)@),
            same_frame(old(self)@, final(self)@),
            !(old(self)@.kind() is Eof) ==> final(self)@.position == old(self)@.position + 1,
    {
        match self.kind() {
            TokenType::Eof => {},
            _ => {
                assert(self.position < self.tokens.len());
                self.position = self.position + 1;
            },
        }
    }

    fn end_statement(&mut self)
        requires
            old(self)@.well_formed(),
        ensures
            final(self)@.well_formed(),
            final(self)@ == old(self)@.end_statement(),
            extends(old(self)@, final(self)@),
            same_frame(old(self)@, final(self)@),
    {
        match self.kind() {
            TokenType::Semicolon => {
                self.advance();
            },
            _ => {},
        }
    }

    fn emit(&mut self, op: OpCode) -> (at: usize)
        requires
            old(self)@.well_formed(),
            sound_at(old(self)@.emit(op).chunk, old(self)@.chunk.code.len() as int),
            old(self)@.locals.len() <= old(self)@.height + effect(op),
        ensures
            final(self)@.well_formed(),
            final(self)@ == old(self)@.emit(op),
            extends(old(self)@, final(self)@),
            at == old(self)@.chunk.code.len(),
    {
        let at = self.chunk.append(op);
        proof {
            self.chunk.lemma_bounded();
            self.heights@ = self.heights@.push(self.height as int);
        }
        self.height = raised(self.height, op);
        at
    }

    fn constant(&mut self, value: Value) -> (index: usize)
        requires
            old(self)@.well_formed(),
        ensures
            final(self)@.well_formed(),
            final(self)@ == old(self)@.constant(value@),
            extends(old(self)@, final(self)@),
            index == old(self)@.next_index(),
            index == old(self)@.chunk.constants.len(),
    {
        self.chunk.add_constant(value)
    }

    fn load(&mut self, value: Value)
        requires
            old(self)@.well_formed(),
        ensures
            final(self)@.well_formed(),
            extends(old(self)@, final(self)@),
            final(self)@ == old(self)@.load(value@),
    {
        let index = self.constant(value);
        self.emit(OpCode::Constant(index));
    }

    fn fail(&mut self, kind: ErrorKind)
        requires
            old(self)@.well_formed(),
        ensures
            final(self)@.well_formed(),
            extends(old(self)@, final(self)@),
            final(self)@ == old(self)@.fail(kind),
    {
        self.errors.push(describe(kind));
        assert(texts(self.errors@) =~= texts(old(self).errors@).push(message(kind)));
    }

    fn resolve(&self, name: &String) -> (slot: Option<usize>)
        ensures
            slot == slot_of(self@.locals, name@),
    {
        let mut i = self.locals.len();
        assert(local_views(self.locals@).take(i as int) =~= local_views(self.locals@));
        while i > 0
            invariant
                i <= self.locals@.len(),
                slot_of(self@.locals, name@) == slot_of(
                    local_views(self.locals@).take(i as int),
                    name@,
                ),
            decreases i,
        {
            let ghost scope = local_views(self.locals@).take(i as int);
            assert(scope.drop_last() =~= local_views(self.locals@).take(i - 1));
            if self.locals[i - 1].name == *name {
                return Some(self.locals[i - 1].slot);
            }
            i = i - 1;
        }
        None
    }

    fn read(&mut self, name: String)
        requires
            old(self)@.well_formed(),
        ensures
            final(self)@.well_formed(),
            extends(old(self)@, final(self)@),
            final(self)@ == old(self)@.read(name@),
    {
        match self.resolve(&name) {
            Some(slot) => {
                self.emit(OpCode::GetLocal(slot));
            },
            None => {
                let index = self.constant(Value::String(name));
                self.emit(OpCode::GetGlobal(index));
            },
        }
    }

    fn write(&mut self, name: String)
        requires
            old(self)@.well_formed(),
            old(self)@.locals.len() < old(self)@.height,
        ensures
            final(self)@.well_formed(),
            extends(old(self)@, final(self)@),
            final(self)@ == old(self)@.write(name@),
    {
        match self.resolve(&name) {
            Some(slot) => {
                self.emit(OpCode::SetLocal(slot));
                self.emit(OpCode::Pop);
            },
            None => {
                let index = self.constant(Value::String(name));
                self.emit(OpCode::SetGlobal(index));
            },
        }
    }

    fn prefix(&mut self) -> (ok: bool)
        requires
            old(self)@.well_formed(),
        ensures
            final(self)@.well_formed(),
            (final(self)@, ok) == prefix_spec(old(self)@),
            extends(old(self)@, final(self)@),
            same_frame(old(self)@, final(self)@),
            ok ==> final(self)@.height == old(self)@.height + 1,
            ok ==> final(self)@.position > old(self)@.position,
        decreases old(self)@.remaining(), 0nat,
    {
        match self.kind() {
            TokenType::Number => {
                match self.tokens[self.position].number {
                    Some(bits) => {
                        self.load(Value::Number(bits));
                        self.advance();
                        true
                    },
                    None => {
                        self.fail(ErrorKind::NumberNotRead);
                        false
                    },
                }
            },
            TokenType::String => {
                let text = self.lexeme();
                self.load(Value::String(text));
                self.advance();
                true
            },
            TokenType::True => {
                self.emit(OpCode::True);
                self.advance();
                true
            },
            TokenType::False => {
                self.emit(OpCode::False);
                self.advance();
                true
            },
            TokenType::Null => {
                self.emit(OpCode::Null);
                self.advance();
                true
            },
            TokenType::Identifier => {
                let name = self.lexeme();
                self.read(name);
                self.advance();
                true
            },
            TokenType::LeftParen => {
                self.advance();
                if !self.expression(LOWEST) {
                    return false;
                }
                match self.kind() {
                    TokenType::RightParen => {
                        self.advance();
                        true
                    },
                    _ => {
                        self.fail(ErrorKind::ExpectedRightParen);
                        false
                    },
                }
            },
            TokenType::Minus => {
                self.advance();
                if !self.expression(UNARY) {
                    return false;
                }
                self.emit(OpCode::Negate);
                true
            },
            TokenType::Bang => {
                self.advance();
                if !self.expression(UNARY) {
                    return false;
                }
                self.emit(OpCode::Not);
                true
            },
            _ => {
                self.fail(ErrorKind::ExpectedExpression);
                false
            },
        }
    }

    fn expression(&mut self, min: u8) -> (ok: bool)
        requires
            old(self)@.well_formed(),
        ensures
            final(self)@.well_formed(),
            (final(self)@, ok) == expression_spec(old(self)@, min as int),
            extends(old(self)@, final(self)@),
            same_frame(old(self)@, final(self)@),
            ok ==> final(self)@.height == old(self)@.height + 1,
            ok ==> final(self)@.position > old(self)@.position,
        decreases old(self)@.remaining(), 2nat,
    {
        if !self.prefix() {
            return false;
        }
        self.infix(min)
    }

    fn infix(&mut self, min: u8) -> (ok: bool)
        requires
            old(self)@.well_formed(),
            old(self)@.locals.len() < old(self)@.height,
        ensures
            final(self)@.well_formed(),
            (final(self)@, ok) == infix_spec(old(self)@, min as int),
            extends(old(self)@, final(self)@),
            same_frame(old(self)@, final(self)@),
            ok ==> final(self)@.height == old(self)@.height,
        decreases old(self)@.remaining(), 1nat,
    {
        match binary_of(self.kind()) {
            Some((power, op)) => {
                if power < min {
                    return true;
                }
                self.advance();
                if !self.expression(power + 1) {
                    return false;
                }
                self.emit(op);
                self.infix(min)
            },
            None => true,
        }
    }

    fn declare(&mut self, name: String)
        requires
            old(self)@.well_formed(),
            old(self)@.locals.len() < old(self)@.height,
        ensures
            final(self)@.well_formed(),
            final(self)@ == old(self)@.declare(name@),
            extends(old(self)@, final(self)@),
            begins_with(final(self)@.locals, old(self)@.locals),
            forall|i: int|
                old(self)@.locals.len() <= i < final(self)@.locals.len() ==> (
                #[trigger] final(self)@.locals[i]).depth == old(self)@.depth,
            final(self)@.height - final(self)@.locals.len() >= old(self)@.height - old(
                self,
            )@.locals.len() - 1,
    {
        if self.depth == 0 {
            let index = self.constant(Value::String(name));
            self.emit(OpCode::DefineGlobal(index));
        } else {
            let ghost scope = local_views(self.locals@);
            let local = Local { name, slot: self.height, depth: self.depth };
            self.locals.push(local);
            assert(local_views(self.locals@) =~= scope.push(local@));
        }
    }

    fn set_jump(&mut self, at: usize, offset: usize)
        requires
            old(self)@.well_formed(),
            at < old(self)@.chunk.code.len(),
            sound_at(old(self)@.set_jump(at as int, offset as int).chunk, at as int),
        ensures
            final(self)@.well_formed(),
            final(self)@ == old(self)@.set_jump(at as int, offset as int),
    {
        self.chunk.patch_jump(at, offset);
        assert(self@.chunk.code =~= old(self)@.set_jump(at as int, offset as int).chunk.code);
    }

    fn patch(&mut self, at: usize)
        requires
            old(self)@.well_formed(),
            at < old(self)@.chunk.code.len(),
            old(self)@.chunk.code[at as int] is JumpIfFalse || old(self)@.chunk.code[at as int]
                is Jump,
        ensures
            final(self)@.well_formed(),
            final(self)@ == old(self)@.patch(at as int),
    {
        let offset = self.chunk.len() - at - 1;
        self.set_jump(at, offset);
    }

    fn drop_locals(&mut self)
        requires
            old(self)@.well_formed(),
        ensures
            final(self)@.well_formed(),
            final(self)@ == drop_locals(old(self)@),
            extends(old(self)@, final(self)@),
            final(self)@.position == old(self)@.position,
            begins_with(old(self)@.locals, final(self)@.locals),
            forall|i: int|
                final(self)@.locals.len() <= i < old(self)@.locals.len() ==> (
                #[trigger] old(self)@.locals[i]).depth >= old(self)@.depth,
            final(self)@.locals.len() > 0 ==> final(self)@.locals.last().depth < old(self)@.depth,
            final(self)@.height - final(self)@.locals.len() == old(self)@.height
                - old(self)@.locals.len(),
    {
        loop
            invariant
                self@.well_formed(),
                extends(old(self)@, self@),
                self@.position == old(self)@.position,
                self@.height - self@.locals.len() == old(self)@.height - old(self)@.locals.len(),
                drop_locals(self@) == drop_locals(old(self)@),
                begins_with(old(self)@.locals, self@.locals),
                forall|i: int|
                    self@.locals.len() <= i < old(self)@.locals.len() ==> (
                    #[trigger] old(self)@.locals[i]).depth >= old(self)@.depth,
            decreases self.locals@.len(),
        {
            let count = self.locals.len();
            if count == 0 || self.locals[count - 1].depth < self.depth {
                return;
            }
            let ghost scope = local_views(self.locals@);
            self.locals.pop();
            assert(local_views(self.locals@) =~= scope.drop_last());
            self.emit(OpCode::Pop);
        }
    }

    fn skip(&mut self)
        requires
            old(self)@.well_formed(),
        ensures
            final(self)@.well_formed(),
            final(self)@ == skip_spec(old(self)@),
            extends(old(self)@, final(self)@),
            final(self)@.locals == old(self)@.locals,
            final(self)@.height == old(self)@.height,
    {
        while !self.at_boundary()
            invariant
                self@.well_formed(),
                extends(old(self)@, self@),
                self@.locals == old(self)@.locals,
                self@.height == old(self)@.height,
                skip_spec(self@) == skip_spec(old(self)@),
            decreases self@.remaining(),
        {
            self.advance();
        }
    }

    fn synchronize(&mut self, start: usize)
        requires
            old(self)@.well_formed(),
            start <= old(self)@.position,
        ensures
            final(self)@.well_formed(),
            final(self)@ == synchronize(old(self)@, start as nat),
            extends(old(self)@, final(self)@),
            final(self)@.locals == old(self)@.locals,
            final(self)@.height == old(self)@.height,
            start < old(self)@.tokens.len() && !(old(self)@.tokens[start as int].kind is Eof)
                ==> final(self)@.position > start,
    {
        if self.position == start {
            self.advance();
        }
        self.skip();
    }

    fn let_statement(&mut self) -> (ok: bool)
        requires
            old(self)@.well_formed(),
            old(self)@.kind() is Let,
        ensures
            final(self)@.well_formed(),
            (final(self)@, ok) == let_spec(old(self)@),
            extends(old(self)@, final(self)@),
            scoped(old(self)@, final(self)@),
            final(self)@.position > old(self)@.position,
    {
        self.advance();
        match self.kind() {
            TokenType::Identifier => {},
            _ => {
                self.fail(ErrorKind::ExpectedName);
                return false;
            },
        }
        let name = self.lexeme();
        match self.kind_at(1) {
            TokenType::Assign => {},
            _ => {
                self.advance();
                self.fail(ErrorKind::ExpectedAssign);
                return false;
            },
        }
        self.advance();
        self.advance();
        if !self.expression(LOWEST) {
            return false;
        }
        self.declare(name);
        self.end_statement();
        true
    }

    fn assignment(&mut self) -> (ok: bool)
        requires
            old(self)@.well_formed(),
            old(self)@.kind() is Identifier,
            old(self)@.kind_at(1) is Assign,
        ensures
            final(self)@.well_formed(),
            (final(self)@, ok) == assignment_spec(old(self)@),
            extends(old(self)@, final(self)@),
            scoped(old(self)@, final(self)@),
            final(self)@.position > old(self)@.position,
    {
        let name = self.lexeme();
        self.advance();
        self.advance();
        if !self.expression(LOWEST) {
            return false;
        }
        self.write(name);
        self.end_statement();
        true
    }

    fn return_statement(&mut self) -> (ok: bool)
        requires
            old(self)@.well_formed(),
            old(self)@.kind() is Return,
        ensures
            final(self)@.well_formed(),
            (final(self)@, ok) == return_spec(old(self)@),
            extends(old(self)@, final(self)@),
            scoped(old(self)@, final(self)@),
            final(self)@.position > old(self)@.position,
    {
        self.advance();
        if !self.expression(LOWEST) {
            return false;
        }
        self.emit(OpCode::Return);
        self.end_statement();
        true
    }

    fn expression_statement(&mut self) -> (ok: bool)
        requires
            old(self)@.well_formed(),
        ensures
            final(self)@.well_formed(),
            (final(self)@, ok) == expression_statement_spec(old(self)@),
            extends(old(self)@, final(self)@),
            scoped(old(self)@, final(self)@),
            ok ==> final(self)@.position > old(self)@.position,
    {
        if !self.expression(LOWEST) {
            return false;
        }
        if self.depth != 0 {
            self.emit(OpCode::Pop);
        }
        self.end_statement();
        true
    }

    fn statement(&mut self) -> (ok: bool)
        requires
            old(self)@.well_formed(),
        ensures
            final(self)@.well_formed(),
            (final(self)@, ok) == statement_spec(old(self)@),
            extends(old(self)@, final(self)@),
            scoped(old(self)@, final(self)@),
            ok ==> final(self)@.position > old(self)@.position,
        decreases old(self)@.remaining(), 1nat,
    {
        match self.kind() {
            TokenType::Semicolon => {
                self.advance();
                true
            },
            TokenType::Let => self.let_statement(),
            TokenType::Return => self.return_statement(),
            TokenType::If => self.if_statement(),
            TokenType::While => self.while_statement(),
            TokenType::LeftBrace => self.block(),
            TokenType::Identifier => {
                match self.kind_at(1) {
                    TokenType::Assign => self.assignment(),
                    _ => self.expression_statement(),
                }
            },
            _ => self.expression_statement(),
        }
    }

    fn declaration(&mut self) -> (ok: bool)
        requires
            old(self)@.well_formed(),
        ensures
            final(self)@.well_formed(),
            (final(self)@, ok) == declaration_spec(old(self)@),
            extends(old(self)@, final(self)@),
            scoped(old(self)@, final(self)@),
            !(old(self)@.kind() is Eof) ==> final(self)@.position > old(self)@.position,
        decreases old(self)@.remaining(), 2nat,
    {
        let start = self.position;
        if self.statement() {
            true
        } else {
            self.synchronize(start);
            false
        }
    }

    fn items(&mut self)
        requires
            old(self)@.well_formed(),
        ensures
            final(self)@.well_formed(),
            final(self)@ == items_spec(old(self)@),
            extends(old(self)@, final(self)@),
            scoped(old(self)@, final(self)@),
            final(self)@.kind() is RightBrace || final(self)@.kind() is Eof,
        decreases old(self)@.remaining(), 3nat,
    {
        loop
            invariant
                self@.well_formed(),
                extends(old(self)@, self@),
                scoped(old(self)@, self@),
                items_spec(self@) == items_spec(old(self)@),
            decreases self@.remaining(),
        {
            match self.kind() {
                TokenType::RightBrace | TokenType::Eof => {
                    return;
                },
                _ => {},
            }
            let ghost before = self@;
            self.declaration();
            assert(before.resume(self@) == self@);
        }
    }

    fn block(&mut self) -> (ok: bool)
        requires
            old(self)@.well_formed(),
        ensures
            final(self)@.well_formed(),
            (final(self)@, ok) == block_spec(old(self)@),
            extends(old(self)@, final(self)@),
            final(self)@.locals == old(self)@.locals,
            final(self)@.height >= old(self)@.height,
            ok ==> final(self)@.position > old(self)@.position,
        decreases old(self)@.remaining(), 0nat,
    {
        match self.kind() {
            TokenType::LeftBrace => {},
            _ => {
                self.fail(ErrorKind::ExpectedLeftBrace);
                return false;
            },
        }
        self.advance();
        self.depth = self.depth + 1;
        self.items();
        let ghost body = self@;
        self.drop_locals();
        proof {
            lemma_block_drops_its_locals(old(self)@, body);
        }
        self.depth = self.depth - 1;
        match self.kind() {
            TokenType::RightBrace => {
                self.advance();
                true
            },
            _ => {
                self.fail(ErrorKind::ExpectedRightBrace);
                false
            },
        }
    }

    fn if_statement(&mut self) -> (ok: bool)
        requires
            old(self)@.well_formed(),
            old(self)@.kind() is If,
        ensures
            final(self)@.well_formed(),
            (final(self)@, ok) == if_spec(old(self)@),
            extends(old(self)@, final(self)@),
            final(self)@.locals == old(self)@.locals,
            final(self)@.height >= old(self)@.height,
            final(self)@.position > old(self)@.position,
        decreases old(self)@.remaining(), 0nat,
    {
        self.advance();
        let ghost opened = self@;
        if !self.expression(LOWEST) {
            return false;
        }
        assert(opened.resume(self@) == self@);
        let ghost test = self@;
        let branch = self.emit(OpCode::JumpIfFalse(0));
        if !self.block() {
            return false;
        }
        assert(test.resume(self@) == self@);
        match self.kind() {
            TokenType::Else => {
                let skip = self.emit(OpCode::Jump(0));
                self.patch(branch);
                self.advance();
                if !self.block() {
                    return false;
                }
                self.patch(skip);
            },
            _ => {
                self.patch(branch);
            },
        }
        self.emit(OpCode::Pop);
        true
    }

    fn while_statement(&mut self) -> (ok: bool)
        requires
            old(self)@.well_formed(),
            old(self)@.kind() is While,
        ensures
            final(self)@.well_formed(),
            (final(self)@, ok) == while_spec(old(self)@),
            extends(old(self)@, final(self)@),
            final(self)@.locals == old(self)@.locals,
            final(self)@.height >= old(self)@.height,
            final(self)@.position > old(self)@.position,
        decreases old(self)@.remaining(), 0nat,
    {
        let start = self.chunk.len();
        self.advance();
        let ghost opened = self@;
        if !self.expression(LOWEST) {
            return false;
        }
        assert(opened.resume(self@) == self@);
        let tested = self.height;
        let exit = self.emit(OpCode::JumpIfFalse(0));
        self.emit(OpCode::Pop);
        if !self.block() {
            return false;
        }
        let ghost body = self@;
        let back = self.emit(OpCode::Loop(0));
        self.set_jump(back, self.chunk.len() - start);
        assert(self@.chunk.code =~= body.emit(
            OpCode::Loop((back + 1 - start) as usize),
        ).chunk.code);
        self.height = tested;
        self.patch(exit);
        self.emit(OpCode::Pop);
        true
    }

    fn program(&mut self)
        requires
            old(self)@.well_formed(),
        ensures
            final(self)@.well_formed(),
            final(self)@ == program_spec(old(self)@),
            extends(old(self)@, final(self)@),
    {
        loop
            invariant
                self@.well_formed(),
                extends(old(self)@, self@),
                program_spec(self@) == program_spec(old(self)@),
            decreases self@.remaining(),
        {
            let ghost before = self@;
            self.items();
            assert(before.resume(self@) == self@);
            match self.kind() {
                TokenType::RightBrace => {
                    self.fail(ErrorKind::UnexpectedRightBrace);
                    self.advance();
                },
                _ => {
                    return;
                },
            }
        }
    }

    /// Compiles the one statement that starts at the current token, as
    /// [`declaration_spec`] says, and tells whether it was well formed. After
    /// a malformed statement the compiler stands where the next statement can
    /// start. Every instruction of the chunk refers only to what the chunk
    /// holds.
    pub fn compile_one_statement(&mut self) -> (ok: bool)
        requires
            old(self)@.well_formed(),
        ensures
            final(self)@.well_formed(),
            (final(self)@, ok) == declaration_spec(old(self)@),
            sound(final(self)@.chunk),
    {
        let ok = self.declaration();
        proof {
            self.chunk.lemma_bounded();
        }
        ok
    }

    /// Compiles the rest of the program, as [`program_spec`] says. The result
    /// is `CompileError` where any diagnostic is on record afterwards, and
    /// `Success` where none is. Every instruction of the chunk refers only to
    /// what the chunk holds; what more holds of the chunk of a program
    /// without a diagnostic is proved in [`crate::discipline`].
    pub fn compile(&mut self) -> (result: InterpretResult)
        requires
            old(self)@.well_formed(),
        ensures
            final(self)@.well_formed(),
            final(self)@ == program_spec(old(self)@),
            sound(final(self)@.chunk),
            final(self)@.errors.len() == 0 ==> result == InterpretResult::Success,
            final(self)@.errors.len() > 0 ==> result == InterpretResult::CompileError,
    {
        self.program();
        proof {
            self.chunk.lemma_bounded();
        }
        if self.errors.len() == 0 {
            InterpretResult::Success
        } else {
            InterpretResult::CompileError
        }
    }
}

} // verus!
