//! The compiler: a single-pass recursive-descent parser that emits bytecode
//! for the top-level chunk and binds global variables by name.
use vstd::prelude::*;
use crate::chunk::{Chunk, MAX_OPERAND, encode_instr};
use crate::opcodes::{OpCode, opcode_byte};
use crate::token::{Lexeme, LocatedToken, Token};
use crate::value::StackSlot;
use crate::vm::{VM, Machine, ChunkState};

verus! {

/// What a compile error is about.
#[derive(Debug, Clone, Copy, PartialEq, Eq, Structural)]
pub enum CompileErrorKind {
    /// `var` or `const` not followed by a name.
    ExpectedIdentifier,
    /// A declared name followed by neither `=` nor `;`.
    UnexpectedToken,
    /// A statement not ended by `;`.
    ExpectedSemicolon,
    /// No expression where one must stand.
    ExpectedExpression,
    /// A name that no earlier declaration binds.
    UndefinedVariable,
    /// No bit pattern was supplied for a float literal.
    MissingFloatValue,
    /// The constant pool would need an index above the 24-bit range.
    TooManyConstants,
    /// The global table would need an index above the 24-bit range.
    TooManyGlobals,
}

/// A compile error with the line and column of the token where it was found.
#[derive(Debug, Clone, Copy, PartialEq, Eq, Structural)]
pub struct CompileError {
    pub kind: CompileErrorKind,
    pub line: u64,
    pub col: u64,
}

/// The numeric kind that the compiler infers for an expression.
#[derive(Debug, Clone, Copy, PartialEq, Eq, Structural)]
pub enum ValueKind {
    Int,
    Float,
}

/// What the compiler has produced so far: the top-level chunk's code and
/// constants, the declared names with their kinds, and how many float
/// literals have taken their values.
pub ghost struct CompState {
    pub code: Seq<u8>,
    pub consts: Seq<StackSlot>,
    pub names: Seq<Seq<char>>,
    pub kinds: Seq<ValueKind>,
    pub floats_used: nat,
}

/// A compile error in spec form: its kind and the index of the token where
/// it was found (the token count for the end of input).
pub type ErrAt = (CompileErrorKind, int);

/// The kind of a binary operation on operands of kinds `a` and `b`.
pub open spec fn join(a: ValueKind, b: ValueKind) -> ValueKind {
    if a == ValueKind::Float || b == ValueKind::Float {
        ValueKind::Float
    } else {
        ValueKind::Int
    }
}

/// The arithmetic opcode for operator token `t` on operands of kind `k`.
pub open spec fn arith_opcode(t: Token, k: ValueKind) -> OpCode {
    match (t, k) {
        (Token::Plus, ValueKind::Int) => OpCode::IAdd,
        (Token::Minus, ValueKind::Int) => OpCode::ISub,
        (Token::Star, ValueKind::Int) => OpCode::IMul,
        (Token::Slash, ValueKind::Int) => OpCode::IDiv,
        (Token::Percent, ValueKind::Int) => OpCode::IRem,
        (Token::Plus, ValueKind::Float) => OpCode::FAdd,
        (Token::Minus, ValueKind::Float) => OpCode::FSub,
        (Token::Star, ValueKind::Float) => OpCode::FMul,
        (Token::Slash, ValueKind::Float) => OpCode::FDiv,
        _ => OpCode::FRem,
    }
}

pub open spec fn is_additive(l: Lexeme) -> bool {
    l == Lexeme::Other(Token::Plus) || l == Lexeme::Other(Token::Minus)
}

pub open spec fn is_multiplicative(l: Lexeme) -> bool {
    l == Lexeme::Other(Token::Star) || l == Lexeme::Other(Token::Slash) || l == Lexeme::Other(
        Token::Percent,
    )
}

/// The latest declaration of `name` among the first `k` names: each
/// declaration binds its name to its own slot, so a later one shadows an
/// earlier one.
pub open spec fn find_name(names: Seq<Seq<char>>, name: Seq<char>, k: int) -> Option<int>
    decreases k,
{
    if k <= 0 || k > names.len() {
        None
    } else if names[k - 1] == name {
        Some(k - 1)
    } else {
        find_name(names, name, k - 1)
    }
}

/// `st` with one operand-free instruction appended.
pub open spec fn emit_plain(st: CompState, op: OpCode) -> CompState {
    CompState { code: st.code.push(opcode_byte(op)), ..st }
}

/// `st` with an instruction carrying operand `n` appended.
pub open spec fn emit_with(st: CompState, op: OpCode, n: nat) -> CompState {
    CompState { code: st.code + encode_instr(op, n), ..st }
}

/// `st` with constant `v` added to the pool and pushed.
pub open spec fn emit_constant(st: CompState, v: StackSlot) -> CompState {
    CompState {
        code: st.code + encode_instr(OpCode::Push, st.consts.len()),
        consts: st.consts.push(v),
        ..st
    }
}

/// A primary expression at token `i`: a variable, or an integer or float
/// literal. On success: the new state, the next token index and the kind.
pub open spec fn primary(t: Seq<Lexeme>, i: int, st: CompState, floats: Seq<u64>) -> Result<
    (CompState, int, ValueKind),
    ErrAt,
> {
    if !(0 <= i < t.len()) {
        Err((CompileErrorKind::ExpectedExpression, i))
    } else {
        match t[i] {
            Lexeme::Id(name) => match find_name(st.names, name, st.names.len() as int) {
                Some(g) => Ok((emit_with(st, OpCode::LoadGlob, g as nat), i + 1, st.kinds[g])),
                None => Err((CompileErrorKind::UndefinedVariable, i)),
            },
            Lexeme::Other(Token::Int(v)) => if st.consts.len() > MAX_OPERAND {
                Err((CompileErrorKind::TooManyConstants, i))
            } else {
                Ok((emit_constant(st, StackSlot::Int(v)), i + 1, ValueKind::Int))
            },
            Lexeme::Float(_) => if st.floats_used >= floats.len() {
                Err((CompileErrorKind::MissingFloatValue, i))
            } else if st.consts.len() > MAX_OPERAND {
                Err((CompileErrorKind::TooManyConstants, i))
            } else {
                let st2 = emit_constant(st, StackSlot::Float(floats[st.floats_used as int]));
                Ok((CompState { floats_used: st.floats_used + 1, ..st2 }, i + 1, ValueKind::Float))
            },
            _ => Err((CompileErrorKind::ExpectedExpression, i)),
        }
    }
}

/// The rest of a multiplicative chain from token `i`, whose left part has
/// kind `k`: each `* / %` then a primary, then the operator's instruction.
pub open spec fn mul_rest(t: Seq<Lexeme>, i: int, st: CompState, k: ValueKind, floats: Seq<u64>) -> Result<
    (CompState, int, ValueKind),
    ErrAt,
>
    decreases t.len() - i,
{
    if 0 <= i < t.len() && is_multiplicative(t[i]) {
        match primary(t, i + 1, st, floats) {
            Ok((st2, i2, k2)) => {
                let k3 = join(k, k2);
                let st3 = emit_plain(st2, arith_opcode(t[i]->Other_0, k3));
                if i < i2 <= t.len() {
                    mul_rest(t, i2, st3, k3, floats)
                } else {
                    Ok((st3, i2, k3))
                }
            },
            Err(e) => Err(e),
        }
    } else {
        Ok((st, i, k))
    }
}

/// A multiplicative expression at token `i`.
pub open spec fn multiplicative(t: Seq<Lexeme>, i: int, st: CompState, floats: Seq<u64>) -> Result<
    (CompState, int, ValueKind),
    ErrAt,
> {
    match primary(t, i, st, floats) {
        Ok((st1, i1, k1)) => mul_rest(t, i1, st1, k1, floats),
        Err(e) => Err(e),
    }
}

/// The rest of an additive chain from token `i`, whose left part has kind `k`.
pub open spec fn add_rest(t: Seq<Lexeme>, i: int, st: CompState, k: ValueKind, floats: Seq<u64>) -> Result<
    (CompState, int, ValueKind),
    ErrAt,
>
    decreases t.len() - i,
{
    if 0 <= i < t.len() && is_additive(t[i]) {
        match multiplicative(t, i + 1, st, floats) {
            Ok((st2, i2, k2)) => {
                let k3 = join(k, k2);
                let st3 = emit_plain(st2, arith_opcode(t[i]->Other_0, k3));
                if i < i2 <= t.len() {
                    add_rest(t, i2, st3, k3, floats)
                } else {
                    Ok((st3, i2, k3))
                }
            },
            Err(e) => Err(e),
        }
    } else {
        Ok((st, i, k))
    }
}

/// An expression at token `i`: additive over multiplicative over primary.
pub open spec fn expression(t: Seq<Lexeme>, i: int, st: CompState, floats: Seq<u64>) -> Result<
    (CompState, int, ValueKind),
    ErrAt,
> {
    match multiplicative(t, i, st, floats) {
        Ok((st1, i1, k1)) => add_rest(t, i1, st1, k1, floats),
        Err(e) => Err(e),
    }
}

/// A declaration whose name is at token `i` (just after `var` or `const`):
/// the name is bound to a new global slot before its initializer, if any, is
/// compiled and stored into that slot.
pub open spec fn var_def(t: Seq<Lexeme>, i: int, st: CompState, floats: Seq<u64>) -> Result<(CompState, int), ErrAt> {
    if !(0 <= i < t.len()) || !(t[i] is Id) {
        Err((CompileErrorKind::ExpectedIdentifier, i))
    } else if st.names.len() > MAX_OPERAND {
        Err((CompileErrorKind::TooManyGlobals, i))
    } else {
        let g = st.names.len();
        let st1 = CompState {
            names: st.names.push(t[i]->Id_0),
            kinds: st.kinds.push(ValueKind::Int),
            ..st
        };
        if i + 1 < t.len() && t[i + 1] == Lexeme::Other(Token::Assign) {
            match expression(t, i + 2, st1, floats) {
                Ok((st2, i2, k)) => if 0 <= i2 < t.len() && t[i2] == Lexeme::Other(Token::Semi) {
                    let st3 = emit_with(st2, OpCode::StoreGlob, g);
                    Ok((CompState { kinds: st3.kinds.update(g as int, k), ..st3 }, i2 + 1))
                } else {
                    Err((CompileErrorKind::ExpectedSemicolon, i2))
                },
                Err(e) => Err(e),
            }
        } else if i + 1 < t.len() && t[i + 1] == Lexeme::Other(Token::Semi) {
            Ok((st1, i + 2))
        } else {
            Err((CompileErrorKind::UnexpectedToken, i + 1))
        }
    }
}

/// A print statement whose expression starts at token `i`.
pub open spec fn print_stmt(t: Seq<Lexeme>, i: int, st: CompState, floats: Seq<u64>) -> Result<(CompState, int), ErrAt> {
    match expression(t, i, st, floats) {
        Ok((st2, i2, _)) => if 0 <= i2 < t.len() && t[i2] == Lexeme::Other(Token::Semi) {
            Ok((emit_plain(st2, OpCode::Print), i2 + 1))
        } else {
            Err((CompileErrorKind::ExpectedSemicolon, i2))
        },
        Err(e) => Err(e),
    }
}

/// The statements from token `i` on; a token that starts no statement is
/// skipped (a skipped float literal still uses up its value, so that the
/// values stay paired with the float literals in order).
pub open spec fn program(t: Seq<Lexeme>, i: int, st: CompState, floats: Seq<u64>) -> Result<CompState, ErrAt>
    decreases t.len() - i,
{
    if !(0 <= i < t.len()) {
        Ok(st)
    } else {
        let r = if t[i] == Lexeme::Other(Token::Var) || t[i] == Lexeme::Other(Token::Const) {
            var_def(t, i + 1, st, floats)
        } else if t[i] == Lexeme::Other(Token::Print) {
            print_stmt(t, i + 1, st, floats)
        } else if t[i] is Float {
            Ok((CompState { floats_used: st.floats_used + 1, ..st }, i + 1))
        } else {
            Ok((st, i + 1))
        };
        match r {
            Ok((st2, i2)) => if i < i2 <= t.len() {
                program(t, i2, st2, floats)
            } else {
                Ok(st2)
            },
            Err(e) => Err(e),
        }
    }
}

/// The lexemes of a token list.
pub open spec fn lexemes(v: Seq<LocatedToken>) -> Seq<Lexeme> {
    v.map_values(|t: LocatedToken| t.token@)
}

/// The texts of a list of names.
pub open spec fn names_of(v: Seq<String>) -> Seq<Seq<char>> {
    v.map_values(|s: String| s@)
}

/// The error for `e`, located at its token (or at the last token, at the end
/// of input).
pub open spec fn error_at(tokens: Seq<LocatedToken>, e: ErrAt) -> CompileError {
    let idx = if e.1 < tokens.len() { e.1 } else { tokens.len() - 1 };
    if 0 <= idx < tokens.len() {
        CompileError { kind: e.0, line: tokens[idx].line, col: tokens[idx].col }
    } else {
        CompileError { kind: e.0, line: 0, col: 0 }
    }
}

/// The machine that runs a compiled program: its code and constants in
/// chunk 0, one unbound global slot per declared name, empty stacks.
pub open spec fn compiled_machine(st: CompState) -> Machine {
    Machine {
        chunks: seq![ChunkState { code: st.code, constants: st.consts, locals: Seq::empty() }],
        chunk_index: 0,
        pos: 0,
        stack: Seq::empty(),
        frames: Seq::empty(),
        globals: Seq::new(st.names.len(), |_i: int| None::<StackSlot>),
    }
}

/// The empty compile state.
pub open spec fn initial_state() -> CompState {
    CompState {
        code: Seq::empty(),
        consts: Seq::empty(),
        names: Seq::empty(),
        kinds: Seq::empty(),
        floats_used: 0,
    }
}

/// Compiles a whole token list into a machine ready to run. `floats` holds
/// the bit patterns of the program's float literals, in order.
pub fn compile(tokens: Vec<LocatedToken>, floats: &Vec<u64>) -> (r: Result<VM, CompileError>)
    ensures
        match program(lexemes(tokens@), 0, initial_state(), floats@) {
            Ok(st) => r matches Ok(vm) && vm@ == compiled_machine(st),
            Err(e) => r matches Err(err) && err == error_at(tokens@, e),
        },
{
    let mut p = Parser::new(tokens);
    match p.generate(floats) {
        Ok(()) => Ok(p.into_vm()),
        Err(e) => Err(e),
    }
}

/// The index of the latest declaration of `name`.
fn find_global(names: &Vec<String>, name: &String) -> (r: Option<usize>)
    ensures
        match r {
            Some(g) => find_name(names_of(names@), name@, names@.len() as int) == Some(g as int),
            None => find_name(names_of(names@), name@, names@.len() as int) is None,
        },
{
    let ghost n = names_of(names@);
    let mut k: usize = names.len();
    while k > 0
        invariant
            n == names_of(names@),
            k <= names@.len(),
            find_name(n, name@, names@.len() as int) == find_name(n, name@, k as int),
        decreases k,
    {
        if names[k - 1] == *name {
            return Some(k - 1);
        }
        k = k - 1;
    }
    None
}

/// The compiler: it reads a token list and fills the top-level chunk of the
/// machine it owns.
pub struct Parser {
    pub tokens: Vec<LocatedToken>,
    pub pos: usize,
    pub globals: Vec<String>,
    pub kinds: Vec<ValueKind>,
    pub floats_used: usize,
    pub vm: VM,
}

impl Parser {
    /// What has been compiled so far.
    pub open spec fn state(&self) -> CompState {
        CompState {
            code: self.vm.chunks@[0].bytecode@,
            consts: self.vm.chunks@[0].constants@,
            names: names_of(self.globals@),
            kinds: self.kinds@,
            floats_used: self.floats_used as nat,
        }
    }

    /// The machine holds one chunk, with no locals, positioned at its start
    /// with empty stacks, and one unbound global slot for each declared name.
    pub open spec fn wf(&self) -> bool {
        &&& self.pos <= self.tokens@.len()
        &&& self.floats_used <= self.pos
        &&& self.vm.chunks@.len() == 1
        &&& self.vm.chunks@[0].locals@.len() == 0
        &&& self.vm.chunk_index == 0
        &&& self.vm.bc_pos == 0
        &&& self.vm.stack@.len() == 0
        &&& self.vm.frames@.len() == 0
        &&& self.vm.globals@.len() == self.globals@.len()
        &&& forall|k: int| 0 <= k < self.vm.globals@.len() ==> self.vm.globals@[k] is None
        &&& self.kinds@.len() == self.globals@.len()
        &&& self.globals@.len() <= MAX_OPERAND + 1
    }

    /// A compiler over `tokens`, with nothing compiled yet.
    pub fn new(tokens: Vec<LocatedToken>) -> (r: Parser)
        ensures
            r.wf(),
            r.tokens@ == tokens@,
            r.pos == 0,
            r.state() == initial_state(),
    {
        let mut chunks: Vec<Chunk> = Vec::new();
        chunks.push(Chunk::new());
        let r = Parser {
            tokens,
            pos: 0,
            globals: Vec::new(),
            kinds: Vec::new(),
            floats_used: 0,
            vm: VM::new(chunks),
        };
        assert(names_of(r.globals@) =~= Seq::<Seq<char>>::empty());
        r
    }

    /// Compiles a primary expression at the current token.
    fn generate_primary_expr(&mut self, floats: &Vec<u64>) -> (r: Result<ValueKind, CompileError>)
        requires
            old(self).wf(),
        ensures
            final(self).wf(),
            final(self).tokens@ == old(self).tokens@,
            match primary(lexemes(old(self).tokens@), old(self).pos as int, old(self).state(), floats@) {
                Ok((st, i, k)) => r == Ok::<ValueKind, CompileError>(k) && final(self).state() == st
                    && final(self).pos == i && i > old(self).pos,
                Err(e) => r == Err::<ValueKind, CompileError>(error_at(old(self).tokens@, e))
                    && final(self).state() == old(self).state() && final(self).pos == old(self).pos,
            },
    {
        let ghost t = lexemes(self.tokens@);
        let ghost st = self.state();
        let i = self.pos;
        if i >= self.tokens.len() {
            return Err(self.error(CompileErrorKind::ExpectedExpression, i));
        }
        assert(t[i as int] == self.tokens@[i as int].token@);
        match &self.tokens[i].token {
            Token::Id(name) => {
                match find_global(&self.globals, name) {
                    Some(g) => {
                        proof {
                            lemma_find_name_bound(names_of(self.globals@), name@, self.globals@.len() as int);
                        }
                        let k = self.kinds[g];
                        let _ = self.vm.chunks[0].emit_op(OpCode::LoadGlob, g);
                        self.pos = i + 1;
                        Ok(k)
                    },
                    None => Err(self.error(CompileErrorKind::UndefinedVariable, i)),
                }
            },
            Token::Int(v) => {
                let v = *v;
                if self.vm.chunks[0].constants.len() > MAX_OPERAND {
                    return Err(self.error(CompileErrorKind::TooManyConstants, i));
                }
                let _ = self.vm.chunks[0].emit_const(StackSlot::Int(v));
                self.pos = i + 1;
                Ok(ValueKind::Int)
            },
            Token::Float(_) => {
                if self.floats_used >= floats.len() {
                    return Err(self.error(CompileErrorKind::MissingFloatValue, i));
                }
                if self.vm.chunks[0].constants.len() > MAX_OPERAND {
                    return Err(self.error(CompileErrorKind::TooManyConstants, i));
                }
                let b = floats[self.floats_used];
                let _ = self.vm.chunks[0].emit_const(StackSlot::Float(b));
                self.floats_used = self.floats_used + 1;
                self.pos = i + 1;
                Ok(ValueKind::Float)
            },
            _ => Err(self.error(CompileErrorKind::ExpectedExpression, i)),
        }
    }

    /// Compiles a chain of primaries joined by `*`, `/` and `%`.
    fn generate_multiplicative_expr(&mut self, floats: &Vec<u64>) -> (r: Result<ValueKind, CompileError>)
        requires
            old(self).wf(),
        ensures
            final(self).wf(),
            final(self).tokens@ == old(self).tokens@,
            match multiplicative(lexemes(old(self).tokens@), old(self).pos as int, old(self).state(), floats@) {
                Ok((st, i, k)) => r == Ok::<ValueKind, CompileError>(k) && final(self).state() == st
                    && final(self).pos == i && i > old(self).pos,
                Err(e) => r == Err::<ValueKind, CompileError>(error_at(old(self).tokens@, e)),
            },
    {
        let ghost t = lexemes(self.tokens@);
        let ghost pos0 = self.pos as int;
        let ghost s0 = self.state();
        let mut k = match self.generate_primary_expr(floats) {
            Ok(k) => k,
            Err(e) => {
                return Err(e);
            },
        };
        loop
            invariant
                self.wf(),
                self.tokens@ == old(self).tokens@,
                t == lexemes(self.tokens@),
                pos0 == old(self).pos,
                s0 == old(self).state(),
                self.pos > pos0,
                multiplicative(t, pos0, s0, floats@) == mul_rest(t, self.pos as int, self.state(), k, floats@),
            decreases self.tokens@.len() - self.pos,
        {
            let i = self.pos;
            if i >= self.tokens.len() {
                return Ok(k);
            }
            assert(t[i as int] == self.tokens@[i as int].token@);
            let sym = match &self.tokens[i].token {
                Token::Star => Token::Star,
                Token::Slash => Token::Slash,
                Token::Percent => Token::Percent,
                _ => {
                    return Ok(k);
                },
            };
            self.pos = i + 1;
            let k2 = match self.generate_primary_expr(floats) {
                Ok(k2) => k2,
                Err(e) => {
                    return Err(e);
                },
            };
            let k3 = join_kinds(k, k2);
            let op = arith_op(&sym, k3);
            self.vm.chunks[0].emit_byte(op.to_u8());
            k = k3;
        }
    }

    /// Compiles a chain of multiplicative expressions joined by `+` and `-`.
    fn generate_additive_expr(&mut self, floats: &Vec<u64>) -> (r: Result<ValueKind, CompileError>)
        requires
            old(self).wf(),
        ensures
            final(self).wf(),
            final(self).tokens@ == old(self).tokens@,
            match expression(lexemes(old(self).tokens@), old(self).pos as int, old(self).state(), floats@) {
                Ok((st, i, k)) => r == Ok::<ValueKind, CompileError>(k) && final(self).state() == st
                    && final(self).pos == i && i > old(self).pos,
                Err(e) => r == Err::<ValueKind, CompileError>(error_at(old(self).tokens@, e)),
            },
    {
        let ghost t = lexemes(self.tokens@);
        let ghost pos0 = self.pos as int;
        let ghost s0 = self.state();
        let mut k = match self.generate_multiplicative_expr(floats) {
            Ok(k) => k,
            Err(e) => {
                return Err(e);
            },
        };
        loop
            invariant
                self.wf(),
                self.tokens@ == old(self).tokens@,
                t == lexemes(self.tokens@),
                pos0 == old(self).pos,
                s0 == old(self).state(),
                self.pos > pos0,
                expression(t, pos0, s0, floats@) == add_rest(t, self.pos as int, self.state(), k, floats@),
            decreases self.tokens@.len() - self.pos,
        {
            let i = self.pos;
            if i >= self.tokens.len() {
                return Ok(k);
            }
            assert(t[i as int] == self.tokens@[i as int].token@);
            let sym = match &self.tokens[i].token {
                Token::Plus => Token::Plus,
                Token::Minus => Token::Minus,
                _ => {
                    return Ok(k);
                },
            };
            self.pos = i + 1;
            let k2 = match self.generate_multiplicative_expr(floats) {
                Ok(k2) => k2,
                Err(e) => {
                    return Err(e);
                },
            };
            let k3 = join_kinds(k, k2);
            let op = arith_op(&sym, k3);
            self.vm.chunks[0].emit_byte(op.to_u8());
            k = k3;
        }
    }

    /// Compiles the whole token list from the current token on: declarations
    /// and print statements, skipping any other token that starts a statement.
    /// `floats` holds the bit patterns of the program's float literals, in
    /// order.
    pub fn generate(&mut self, floats: &Vec<u64>) -> (r: Result<(), CompileError>)
        requires
            old(self).wf(),
        ensures
            final(self).wf(),
            final(self).tokens@ == old(self).tokens@,
            match program(lexemes(old(self).tokens@), old(self).pos as int, old(self).state(), floats@) {
                Ok(st) => r == Ok::<(), CompileError>(()) && final(self).state() == st,
                Err(e) => r == Err::<(), CompileError>(error_at(old(self).tokens@, e)),
            },
    {
        let ghost t = lexemes(self.tokens@);
        loop
            invariant
                self.wf(),
                self.tokens@ == old(self).tokens@,
                t == lexemes(self.tokens@),
                program(t, old(self).pos as int, old(self).state(), floats@) == program(
                    t,
                    self.pos as int,
                    self.state(),
                    floats@,
                ),
            decreases self.tokens@.len() - self.pos,
        {
            let i = self.pos;
            if i >= self.tokens.len() {
                return Ok(());
            }
            assert(t[i as int] == self.tokens@[i as int].token@);
            let form: u8 = match &self.tokens[i].token {
                Token::Var | Token::Const => 0,
                Token::Print => 1,
                Token::Float(_) => 2,
                _ => 3,
            };
            if form == 2 {
                self.floats_used = self.floats_used + 1;
            }
            self.pos = i + 1;
            if form == 0 {
                if let Err(e) = self.generate_var_def(floats) {
                    return Err(e);
                }
            } else if form == 1 {
                if let Err(e) = self.generate_print(floats) {
                    return Err(e);
                }
            }
        }
    }

    /// Compiles a declaration; the current token is its name.
    #[verifier::rlimit(30)]
    fn generate_var_def(&mut self, floats: &Vec<u64>) -> (r: Result<(), CompileError>)
        requires
            old(self).wf(),
        ensures
            final(self).wf(),
            final(self).tokens@ == old(self).tokens@,
            match var_def(lexemes(old(self).tokens@), old(self).pos as int, old(self).state(), floats@) {
                Ok((st, i)) => r == Ok::<(), CompileError>(()) && final(self).state() == st
                    && final(self).pos == i && i > old(self).pos,
                Err(e) => r == Err::<(), CompileError>(error_at(old(self).tokens@, e)),
            },
    {
        let ghost t = lexemes(self.tokens@);
        let i = self.pos;
        let n = self.tokens.len();
        if i >= n {
            return Err(self.error(CompileErrorKind::ExpectedIdentifier, i));
        }
        assert(t[i as int] == self.tokens@[i as int].token@);
        let name = match &self.tokens[i].token {
            Token::Id(name) => name.clone(),
            _ => {
                return Err(self.error(CompileErrorKind::ExpectedIdentifier, i));
            },
        };
        if self.globals.len() > MAX_OPERAND {
            return Err(self.error(CompileErrorKind::TooManyGlobals, i));
        }
        let g = self.generate_global_var(name);
        if i + 1 < n {
            assert(t[i + 1] == self.tokens@[i + 1].token@);
        }
        let next: u8 = if i + 1 < n {
            match &self.tokens[i + 1].token {
                Token::Assign => 0,
                Token::Semi => 1,
                _ => 2,
            }
        } else {
            2
        };
        if next == 0 {
            self.pos = i + 2;
            proof {
                lemma_expression_keeps_names(t, i + 2, self.state(), floats@);
            }
            let k = match self.generate_expr(floats) {
                Ok(k) => k,
                Err(e) => {
                    return Err(e);
                },
            };
            let j = self.pos;
            if j >= n || !self.at_semi(j) {
                return Err(self.error(CompileErrorKind::ExpectedSemicolon, j));
            }
            let _ = self.vm.chunks[0].emit_op(OpCode::StoreGlob, g);
            self.kinds.set(g, k);
            self.pos = j + 1;
            Ok(())
        } else if next == 1 {
            self.pos = i + 2;
            Ok(())
        } else {
            Err(self.error(CompileErrorKind::UnexpectedToken, i + 1))
        }
    }

    /// Binds `name` to a new, unbound global slot of kind `Int` and returns
    /// the slot's index.
    fn generate_global_var(&mut self, name: String) -> (r: usize)
        requires
            old(self).wf(),
            old(self).globals@.len() <= MAX_OPERAND,
        ensures
            final(self).wf(),
            final(self).tokens@ == old(self).tokens@,
            final(self).pos == old(self).pos,
            r == old(self).globals@.len(),
            final(self).state() == (CompState {
                names: old(self).state().names.push(name@),
                kinds: old(self).state().kinds.push(ValueKind::Int),
                ..old(self).state()
            }),
    {
        let g = self.vm.create_global();
        self.globals.push(name);
        self.kinds.push(ValueKind::Int);
        assert(names_of(self.globals@) =~= names_of(old(self).globals@).push(name@));
        g
    }

    /// Whether token `j` is `;`.
    fn at_semi(&self, j: usize) -> (r: bool)
        requires
            j < self.tokens@.len(),
        ensures
            r == (lexemes(self.tokens@)[j as int] == Lexeme::Other(Token::Semi)),
    {
        match &self.tokens[j].token {
            Token::Semi => true,
            _ => false,
        }
    }

    /// Compiles a print statement; the current token starts its expression.
    fn generate_print(&mut self, floats: &Vec<u64>) -> (r: Result<(), CompileError>)
        requires
            old(self).wf(),
        ensures
            final(self).wf(),
            final(self).tokens@ == old(self).tokens@,
            match print_stmt(lexemes(old(self).tokens@), old(self).pos as int, old(self).state(), floats@) {
                Ok((st, i)) => r == Ok::<(), CompileError>(()) && final(self).state() == st
                    && final(self).pos == i && i > old(self).pos,
                Err(e) => r == Err::<(), CompileError>(error_at(old(self).tokens@, e)),
            },
    {
        if let Err(e) = self.generate_expr(floats) {
            return Err(e);
        }
        let j = self.pos;
        if j >= self.tokens.len() || !self.at_semi(j) {
            return Err(self.error(CompileErrorKind::ExpectedSemicolon, j));
        }
        self.vm.chunks[0].emit_byte(OpCode::Print.to_u8());
        self.pos = j + 1;
        Ok(())
    }

    /// Compiles an expression.
    fn generate_expr(&mut self, floats: &Vec<u64>) -> (r: Result<ValueKind, CompileError>)
        requires
            old(self).wf(),
        ensures
            final(self).wf(),
            final(self).tokens@ == old(self).tokens@,
            match expression(lexemes(old(self).tokens@), old(self).pos as int, old(self).state(), floats@) {
                Ok((st, i, k)) => r == Ok::<ValueKind, CompileError>(k) && final(self).state() == st
                    && final(self).pos == i && i > old(self).pos,
                Err(e) => r == Err::<ValueKind, CompileError>(error_at(old(self).tokens@, e)),
            },
    {
        self.generate_additive_expr(floats)
    }

    /// The machine holding what has been compiled, ready to run.
    pub fn into_vm(self) -> (r: VM)
        requires
            self.wf(),
        ensures
            r@ == compiled_machine(self.state()),
    {
        let vm = self.vm;
        proof {
            let m = compiled_machine(self.state());
            assert(vm.chunks@[0].locals@ =~= Seq::<Option<StackSlot>>::empty());
            assert(vm@.chunks[0] == vm.chunks@[0]@);
            assert(vm.chunks@[0]@ == m.chunks[0]);
            assert(vm@.chunks =~= m.chunks);
            assert(vm@.globals =~= m.globals);
            assert(vm@.stack =~= m.stack);
            assert(vm@.frames =~= m.frames);
        }
        vm
    }

    /// The error of kind `kind` found at token `idx`.
    fn error(&self, kind: CompileErrorKind, idx: usize) -> (r: CompileError)
        ensures
            r == error_at(self.tokens@, (kind, idx as int)),
    {
        let n = self.tokens.len();
        let k = if idx < n {
            idx
        } else if n > 0 {
            n - 1
        } else {
            return CompileError { kind, line: 0, col: 0 };
        };
        CompileError { kind, line: self.tokens[k].line, col: self.tokens[k].col }
    }
}

proof fn lemma_find_name_bound(names: Seq<Seq<char>>, name: Seq<char>, k: int)
    ensures
        find_name(names, name, k) matches Some(g) ==> 0 <= g < names.len() && names[g] == name,
    decreases k,
{
    if 0 < k <= names.len() && names[k - 1] != name {
        lemma_find_name_bound(names, name, k - 1);
    }
}

/// The exec form of `join`.
fn join_kinds(a: ValueKind, b: ValueKind) -> (r: ValueKind)
    ensures
        r == join(a, b),
{
    if a == ValueKind::Float || b == ValueKind::Float {
        ValueKind::Float
    } else {
        ValueKind::Int
    }
}

/// The exec form of `arith_opcode`.
fn arith_op(t: &Token, k: ValueKind) -> (r: OpCode)
    ensures
        r == arith_opcode(*t, k),
{
    match (t, k) {
        (Token::Plus, ValueKind::Int) => OpCode::IAdd,
        (Token::Minus, ValueKind::Int) => OpCode::ISub,
        (Token::Star, ValueKind::Int) => OpCode::IMul,
        (Token::Slash, ValueKind::Int) => OpCode::IDiv,
        (Token::Percent, ValueKind::Int) => OpCode::IRem,
        (Token::Plus, ValueKind::Float) => OpCode::FAdd,
        (Token::Minus, ValueKind::Float) => OpCode::FSub,
        (Token::Star, ValueKind::Float) => OpCode::FMul,
        (Token::Slash, ValueKind::Float) => OpCode::FDiv,
        _ => OpCode::FRem,
    }
}

/// Compiling an expression declares nothing.
pub(crate) proof fn lemma_expression_keeps_names(t: Seq<Lexeme>, i: int, st: CompState, floats: Seq<u64>)
    ensures
        expression(t, i, st, floats) matches Ok((st2, _, _)) ==> st2.names == st.names && st2.kinds == st.kinds,
{
    lemma_multiplicative_keeps_names(t, i, st, floats);
    if let Ok((st1, i1, k1)) = multiplicative(t, i, st, floats) {
        lemma_add_rest_keeps_names(t, i1, st1, k1, floats);
    }
}

proof fn lemma_multiplicative_keeps_names(t: Seq<Lexeme>, i: int, st: CompState, floats: Seq<u64>)
    ensures
        multiplicative(t, i, st, floats) matches Ok((st2, _, _)) ==> st2.names == st.names && st2.kinds == st.kinds,
{
    if let Ok((st1, i1, k1)) = primary(t, i, st, floats) {
        lemma_mul_rest_keeps_names(t, i1, st1, k1, floats);
    }
}

proof fn lemma_mul_rest_keeps_names(t: Seq<Lexeme>, i: int, st: CompState, k: ValueKind, floats: Seq<u64>)
    ensures
        mul_rest(t, i, st, k, floats) matches Ok((st2, _, _)) ==> st2.names == st.names && st2.kinds == st.kinds,
    decreases t.len() - i,
{
    if 0 <= i < t.len() && is_multiplicative(t[i]) {
        if let Ok((st2, i2, k2)) = primary(t, i + 1, st, floats) {
            let k3 = join(k, k2);
            let st3 = emit_plain(st2, arith_opcode(t[i]->Other_0, k3));
            if i < i2 <= t.len() {
                lemma_mul_rest_keeps_names(t, i2, st3, k3, floats);
            }
        }
    }
}

proof fn lemma_add_rest_keeps_names(t: Seq<Lexeme>, i: int, st: CompState, k: ValueKind, floats: Seq<u64>)
    ensures
        add_rest(t, i, st, k, floats) matches Ok((st2, _, _)) ==> st2.names == st.names && st2.kinds == st.kinds,
    decreases t.len() - i,
{
    if 0 <= i < t.len() && is_additive(t[i]) {
        lemma_multiplicative_keeps_names(t, i + 1, st, floats);
        if let Ok((st2, i2, k2)) = multiplicative(t, i + 1, st, floats) {
            let k3 = join(k, k2);
            let st3 = emit_plain(st2, arith_opcode(t[i]->Other_0, k3));
            if i < i2 <= t.len() {
                lemma_add_rest_keeps_names(t, i2, st3, k3, floats);
            }
        }
    }
}

} // verus!
