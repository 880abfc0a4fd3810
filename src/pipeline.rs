//! Properties of the whole pipeline: what compiled programs do when run.
use vstd::prelude::*;
use crate::chunk::{MAX_OPERAND, encode_instr};
use crate::opcodes::{OpCode, opcode_byte, lemma_opcode_byte_injective};
use crate::parser::{
    ValueKind, CompState, CompileErrorKind, arith_opcode, compiled_machine, initial_state, program, emit_constant,
    emit_plain, emit_with, find_name, var_def, primary, lemma_expression_keeps_names, is_additive, is_multiplicative, mul_rest, multiplicative, add_rest, expression, print_stmt,
};
use crate::token::{Lexeme, Token};
use crate::value::StackSlot;
use crate::vm::{Exit, Machine, Step, int_result, is_int_arith, exec_op, run_spec, step_spec, law_operand_round_trip, holds_at};

verus! {

/// The tokens of `print a op b;`.
pub open spec fn print_binary_tokens(a: i64, op: Token, b: i64) -> Seq<Lexeme> {
    seq![
        Lexeme::Other(Token::Print),
        Lexeme::Other(Token::Int(a)),
        Lexeme::Other(op),
        Lexeme::Other(Token::Int(b)),
        Lexeme::Other(Token::Semi),
    ]
}

pub open spec fn is_arith_token(op: Token) -> bool {
    op is Plus || op is Minus || op is Star || op is Slash || op is Percent
}

/// The state that compiling `print a op b;` leaves.
pub open spec fn print_binary_state(a: i64, op: Token, b: i64) -> CompState {
    let st1 = emit_constant(initial_state(), StackSlot::Int(a));
    let st2 = emit_constant(st1, StackSlot::Int(b));
    emit_plain(emit_plain(st2, arith_opcode(op, ValueKind::Int)), OpCode::Print)
}

/// What compiling an expression gives: the new state, the next token index
/// and the kind, or an error.
type ExprOutcome = Result<(CompState, int, ValueKind), (CompileErrorKind, int)>;

proof fn lemma_compile_print_binary(a: i64, op: Token, b: i64, floats: Seq<u64>)
    requires
        is_arith_token(op),
    ensures
        program(print_binary_tokens(a, op, b), 0, initial_state(), floats) == Ok::<
            CompState,
            (CompileErrorKind, int),
        >(print_binary_state(a, op, b)),
{
    let t = print_binary_tokens(a, op, b);
    let st0 = initial_state();
    let st1 = emit_constant(st0, StackSlot::Int(a));
    let st2 = emit_constant(st1, StackSlot::Int(b));
    let st3 = emit_plain(st2, arith_opcode(op, ValueKind::Int));
    let st4 = emit_plain(st3, OpCode::Print);
    assert(primary(t, 1, st0, floats) == ExprOutcome::Ok((st1, 2, ValueKind::Int)));
    assert(primary(t, 3, st1, floats) == ExprOutcome::Ok((st2, 4, ValueKind::Int)));
    assert(mul_rest(t, 4, st3, ValueKind::Int, floats) == ExprOutcome::Ok((st3, 4, ValueKind::Int)));
    assert(add_rest(t, 4, st3, ValueKind::Int, floats) == ExprOutcome::Ok((st3, 4, ValueKind::Int)));
    assert(t[2] == Lexeme::Other(op));
    if op is Plus || op is Minus {
        assert(mul_rest(t, 2, st1, ValueKind::Int, floats) == ExprOutcome::Ok((st1, 2, ValueKind::Int)));
        assert(mul_rest(t, 4, st2, ValueKind::Int, floats) == ExprOutcome::Ok((st2, 4, ValueKind::Int)));
        assert(multiplicative(t, 3, st1, floats) == ExprOutcome::Ok((st2, 4, ValueKind::Int)));
        assert(add_rest(t, 2, st1, ValueKind::Int, floats) == ExprOutcome::Ok((st3, 4, ValueKind::Int)));
    } else {
        assert(mul_rest(t, 2, st1, ValueKind::Int, floats) == ExprOutcome::Ok((st3, 4, ValueKind::Int)));
    }
    assert(expression(t, 1, st0, floats) == ExprOutcome::Ok((st3, 4, ValueKind::Int)));
    assert(print_stmt(t, 1, st0, floats) == Ok::<(CompState, int), (CompileErrorKind, int)>((st4, 5)));
    assert(program(t, 5, st4, floats) == Ok::<CompState, (CompileErrorKind, int)>(st4));
}

proof fn lemma_run_print_binary(a: i64, op: Token, b: i64)
    requires
        is_arith_token(op),
    ensures
        ({
            let (m, out, e) = run_spec(compiled_machine(print_binary_state(a, op, b)), 5);
            match int_result(arith_opcode(op, ValueKind::Int), a, b) {
                Ok(v) => out == seq![StackSlot::Int(v)] && e == Exit::Halted,
                Err(err) => out == Seq::<StackSlot>::empty() && e == Exit::Failed(err),
            }
        }),
{
    let iop = arith_opcode(op, ValueKind::Int);
    let st4 = print_binary_state(a, op, b);
    let code = st4.code;
    let e0 = encode_instr(OpCode::Push, 0);
    let e1 = encode_instr(OpCode::Push, 1);
    assert(code =~= e0 + e1 + seq![opcode_byte(iop), opcode_byte(OpCode::Print)]);
    let m0 = compiled_machine(st4);
    assert(m0.chunks[0].code.subrange(0, 4) =~= e0);
    law_operand_round_trip(m0, OpCode::Push, 0);
    let (m1, s1) = step_spec(m0);
    assert(m1.stack =~= seq![StackSlot::Int(a)]);
    assert(m1.chunks[0].code.subrange(4, 8) =~= e1);
    law_operand_round_trip(m1, OpCode::Push, 1);
    let (m2, s2) = step_spec(m1);
    assert(m2.stack =~= seq![StackSlot::Int(a), StackSlot::Int(b)]);
    assert(m2.pos == 8);
    lemma_opcode_byte_injective(iop);
    lemma_opcode_byte_injective(OpCode::Print);
    assert(m2.chunks[0].code[8] == opcode_byte(iop));
    let (m3, s3) = step_spec(m2);
    match int_result(iop, a, b) {
        Ok(v) => {
            assert(m3.stack =~= seq![StackSlot::Int(v)]);
            assert(m3.pos == 9);
            assert(m3.chunks[0].code[9] == opcode_byte(OpCode::Print));
            let (m4, s4) = step_spec(m3);
            assert(s4 == Step::Printed(StackSlot::Int(v)));
            assert(m4.pos == 10);
            let (m5, s5) = step_spec(m4);
            assert(s5 == Step::Halted);
            assert(run_spec(m4, 1) == (m5, Seq::<StackSlot>::empty(), Exit::Halted));
            assert(run_spec(m3, 2).1 =~= seq![StackSlot::Int(v)]);
            assert(run_spec(m3, 2).2 == Exit::Halted);
            assert(run_spec(m2, 3) == run_spec(m3, 2));
            assert(run_spec(m1, 4) == run_spec(m2, 3));
            assert(run_spec(m0, 5) == run_spec(m1, 4));
        },
        Err(err) => {
            assert(s3 == Step::Failed(err));
            assert(run_spec(m2, 3) == (m3, Seq::<StackSlot>::empty(), Exit::Failed(err)));
            assert(run_spec(m1, 4) == run_spec(m2, 3));
            assert(run_spec(m0, 5) == run_spec(m1, 4));
        },
    }
}

/// `print a op b;`, for any integers `a` and `b` and any arithmetic
/// operator, compiles and then runs to print the result of Rust's native
/// `i64` operation; where that operation overflows or divides by zero, the
/// run fails with that error and prints nothing.
pub proof fn law_int_arithmetic(a: i64, op: Token, b: i64, floats: Seq<u64>)
    requires
        is_arith_token(op),
    ensures
        program(print_binary_tokens(a, op, b), 0, initial_state(), floats) is Ok,
        ({
            let st = program(print_binary_tokens(a, op, b), 0, initial_state(), floats)->Ok_0;
            let (m, out, e) = run_spec(compiled_machine(st), 5);
            match int_result(arith_opcode(op, ValueKind::Int), a, b) {
                Ok(v) => out == seq![StackSlot::Int(v)] && e == Exit::Halted,
                Err(err) => out == Seq::<StackSlot>::empty() && e == Exit::Failed(err),
            }
        }),
{
    lemma_compile_print_binary(a, op, b, floats);
    lemma_run_print_binary(a, op, b);
}

/// The tokens of `var x = lit; print x;`.
pub open spec fn declare_print_tokens(x: Seq<char>, lit: Lexeme) -> Seq<Lexeme> {
    seq![
        Lexeme::Other(Token::Var),
        Lexeme::Id(x),
        Lexeme::Other(Token::Assign),
        lit,
        Lexeme::Other(Token::Semi),
        Lexeme::Other(Token::Print),
        Lexeme::Id(x),
        Lexeme::Other(Token::Semi),
    ]
}

/// A literal token, with the bit patterns given for the program's float
/// literals.
pub open spec fn is_literal(lit: Lexeme, floats: Seq<u64>) -> bool {
    (lit is Other && lit->Other_0 is Int) || (lit is Float && floats.len() >= 1)
}

/// The value of a literal token that is the program's first float literal
/// if it is a float.
pub open spec fn literal_value(lit: Lexeme, floats: Seq<u64>) -> StackSlot {
    match lit {
        Lexeme::Other(Token::Int(n)) => StackSlot::Int(n),
        _ => StackSlot::Float(floats[0]),
    }
}

pub open spec fn literal_kind(lit: Lexeme) -> ValueKind {
    if lit is Float {
        ValueKind::Float
    } else {
        ValueKind::Int
    }
}

/// The state that compiling `var x = lit; print x;` leaves.
pub open spec fn declare_print_state(x: Seq<char>, lit: Lexeme, floats: Seq<u64>) -> CompState {
    let st1 = CompState { names: seq![x], kinds: seq![ValueKind::Int], ..initial_state() };
    let stc = CompState {
        floats_used: if lit is Float { 1nat } else { 0nat },
        ..emit_constant(st1, literal_value(lit, floats))
    };
    let st3 = emit_with(stc, OpCode::StoreGlob, 0);
    let st4 = CompState { kinds: seq![literal_kind(lit)], ..st3 };
    emit_plain(emit_with(st4, OpCode::LoadGlob, 0), OpCode::Print)
}

proof fn lemma_compile_declare_print(x: Seq<char>, lit: Lexeme, floats: Seq<u64>)
    requires
        is_literal(lit, floats),
    ensures
        program(declare_print_tokens(x, lit), 0, initial_state(), floats) == Ok::<
            CompState,
            (CompileErrorKind, int),
        >(declare_print_state(x, lit, floats)),
{
    let t = declare_print_tokens(x, lit);
    let st0 = initial_state();
    let st1 = CompState { names: st0.names.push(x), kinds: st0.kinds.push(ValueKind::Int), ..st0 };
    assert(st1.names =~= seq![x]);
    assert(st1.kinds =~= seq![ValueKind::Int]);
    let stc = CompState {
        floats_used: if lit is Float { 1nat } else { 0nat },
        ..emit_constant(st1, literal_value(lit, floats))
    };
    let k = literal_kind(lit);
    assert(primary(t, 3, st1, floats) == ExprOutcome::Ok((stc, 4, k)));
    assert(mul_rest(t, 4, stc, k, floats) == ExprOutcome::Ok((stc, 4, k)));
    assert(add_rest(t, 4, stc, k, floats) == ExprOutcome::Ok((stc, 4, k)));
    assert(expression(t, 3, st1, floats) == ExprOutcome::Ok((stc, 4, k)));
    let st3 = emit_with(stc, OpCode::StoreGlob, 0);
    let st4 = CompState { kinds: st3.kinds.update(0, k), ..st3 };
    assert(st4.kinds =~= seq![k]);
    assert(var_def(t, 1, st0, floats) == Ok::<(CompState, int), (CompileErrorKind, int)>((st4, 5)));
    assert(find_name(st4.names, x, 1) == Some(0int));
    let st5 = emit_with(st4, OpCode::LoadGlob, 0);
    assert(primary(t, 6, st4, floats) == ExprOutcome::Ok((st5, 7, k)));
    assert(mul_rest(t, 7, st5, k, floats) == ExprOutcome::Ok((st5, 7, k)));
    assert(add_rest(t, 7, st5, k, floats) == ExprOutcome::Ok((st5, 7, k)));
    assert(expression(t, 6, st4, floats) == ExprOutcome::Ok((st5, 7, k)));
    let st6 = emit_plain(st5, OpCode::Print);
    assert(print_stmt(t, 6, st4, floats) == Ok::<(CompState, int), (CompileErrorKind, int)>((st6, 8)));
    assert(program(t, 8, st6, floats) == Ok::<CompState, (CompileErrorKind, int)>(st6));
    assert(program(t, 5, st4, floats) == Ok::<CompState, (CompileErrorKind, int)>(st6));
}

proof fn lemma_run_declare_print(x: Seq<char>, lit: Lexeme, floats: Seq<u64>)
    requires
        is_literal(lit, floats),
    ensures
        ({
            let (m, out, e) = run_spec(compiled_machine(declare_print_state(x, lit, floats)), 5);
            out == seq![literal_value(lit, floats)] && e == Exit::Halted
        }),
{
    let v = literal_value(lit, floats);
    let st = declare_print_state(x, lit, floats);
    let e0 = encode_instr(OpCode::Push, 0);
    let e1 = encode_instr(OpCode::StoreGlob, 0);
    let e2 = encode_instr(OpCode::LoadGlob, 0);
    assert(st.code =~= e0 + e1 + e2 + seq![opcode_byte(OpCode::Print)]);
    assert(st.consts =~= seq![v]);
    let m0 = compiled_machine(st);
    assert(m0.globals =~= seq![None::<StackSlot>]);
    assert(m0.chunks[0].code.subrange(0, 4) =~= e0);
    law_operand_round_trip(m0, OpCode::Push, 0);
    let (m1, s1) = step_spec(m0);
    assert(m1.stack =~= seq![v]);
    assert(m1.chunks[0].code.subrange(4, 8) =~= e1);
    law_operand_round_trip(m1, OpCode::StoreGlob, 0);
    let (m2, s2) = step_spec(m1);
    assert(m2.stack =~= Seq::<StackSlot>::empty());
    assert(m2.globals =~= seq![Some(v)]);
    assert(m2.chunks[0].code.subrange(8, 12) =~= e2);
    law_operand_round_trip(m2, OpCode::LoadGlob, 0);
    let (m3, s3) = step_spec(m2);
    assert(m3.stack =~= seq![v]);
    lemma_opcode_byte_injective(OpCode::Print);
    assert(m3.chunks[0].code[12] == opcode_byte(OpCode::Print));
    let (m4, s4) = step_spec(m3);
    assert(s4 == Step::Printed(v));
    let (m5, s5) = step_spec(m4);
    assert(s5 == Step::Halted);
    assert(run_spec(m4, 1) == (m5, Seq::<StackSlot>::empty(), Exit::Halted));
    assert(run_spec(m3, 2).1 =~= seq![v]);
    assert(run_spec(m3, 2).2 == Exit::Halted);
    assert(run_spec(m2, 3) == run_spec(m3, 2));
    assert(run_spec(m1, 4) == run_spec(m2, 3));
    assert(run_spec(m0, 5) == run_spec(m1, 4));
}

/// `var x = lit; print x;`, for any name and any integer or float literal,
/// compiles to one global slot bound to `x` and runs to print exactly the
/// literal's value.
pub proof fn law_global_round_trip(x: Seq<char>, lit: Lexeme, floats: Seq<u64>)
    requires
        is_literal(lit, floats),
    ensures
        program(declare_print_tokens(x, lit), 0, initial_state(), floats) is Ok,
        ({
            let st = program(declare_print_tokens(x, lit), 0, initial_state(), floats)->Ok_0;
            let (m, out, e) = run_spec(compiled_machine(st), 5);
            &&& st.names == seq![x]
            &&& out == seq![literal_value(lit, floats)]
            &&& e == Exit::Halted
        }),
{
    lemma_compile_declare_print(x, lit, floats);
    lemma_run_declare_print(x, lit, floats);
}

/// The tokens of `var x = E; print x;` for the tokens `e` of an expression.
pub open spec fn declare_expr_print_tokens(x: Seq<char>, e: Seq<Lexeme>) -> Seq<Lexeme> {
    seq![Lexeme::Other(Token::Var), Lexeme::Id(x), Lexeme::Other(Token::Assign)] + e + seq![
        Lexeme::Other(Token::Semi),
        Lexeme::Other(Token::Print),
        Lexeme::Id(x),
        Lexeme::Other(Token::Semi),
    ]
}

/// The state just after `x` is declared, before its initializer.
pub open spec fn declared_state(x: Seq<char>) -> CompState {
    CompState { names: seq![x], kinds: seq![ValueKind::Int], ..initial_state() }
}

/// For every expression `E` that compiles, up to exactly its last token,
/// `var x = E; print x;` compiles to `E`'s code followed by a store into
/// `x`'s slot (slot 0), a load of that slot and a print.
pub proof fn law_declare_compiles(x: Seq<char>, e: Seq<Lexeme>, floats: Seq<u64>)
    requires
        expression(declare_expr_print_tokens(x, e), 3, declared_state(x), floats) matches Ok(
            (_, i, _),
        ) && i == 3 + e.len(),
    ensures
        ({
            let t = declare_expr_print_tokens(x, e);
            let st2 = expression(t, 3, declared_state(x), floats)->Ok_0.0;
            &&& program(t, 0, initial_state(), floats) is Ok
            &&& program(t, 0, initial_state(), floats)->Ok_0.names == seq![x]
            &&& program(t, 0, initial_state(), floats)->Ok_0.consts == st2.consts
            &&& program(t, 0, initial_state(), floats)->Ok_0.code == st2.code + encode_instr(
                OpCode::StoreGlob,
                0,
            ) + encode_instr(OpCode::LoadGlob, 0) + seq![opcode_byte(OpCode::Print)]
        }),
{
    let t = declare_expr_print_tokens(x, e);
    let st0 = initial_state();
    let st1 = declared_state(x);
    assert(st1 == CompState { names: st0.names.push(x), kinds: st0.kinds.push(ValueKind::Int), ..st0 }) by {
        assert(st0.names.push(x) =~= seq![x]);
        assert(st0.kinds.push(ValueKind::Int) =~= seq![ValueKind::Int]);
    }
    lemma_expression_keeps_names(t, 3, st1, floats);
    let (st2, i2, k) = expression(t, 3, st1, floats)->Ok_0;
    let n = e.len() as int;
    assert(t[1] == Lexeme::Id(x));
    assert(t[2] == Lexeme::Other(Token::Assign));
    assert(t[3 + n] == Lexeme::Other(Token::Semi));
    assert(t[4 + n] == Lexeme::Other(Token::Print));
    assert(t[5 + n] == Lexeme::Id(x));
    assert(t[6 + n] == Lexeme::Other(Token::Semi));
    assert(t.len() == 7 + n);
    let st3 = emit_with(st2, OpCode::StoreGlob, 0);
    let st4 = CompState { kinds: st3.kinds.update(0, k), ..st3 };
    assert(var_def(t, 1, st0, floats) == Ok::<(CompState, int), (CompileErrorKind, int)>((st4, 4 + n)));
    assert(find_name(st4.names, x, 1) == Some(0int));
    let st5 = emit_with(st4, OpCode::LoadGlob, 0);
    let k5 = st4.kinds[0];
    assert(primary(t, 5 + n, st4, floats) == ExprOutcome::Ok((st5, 6 + n, k5)));
    assert(mul_rest(t, 6 + n, st5, k5, floats) == ExprOutcome::Ok((st5, 6 + n, k5)));
    assert(add_rest(t, 6 + n, st5, k5, floats) == ExprOutcome::Ok((st5, 6 + n, k5)));
    assert(expression(t, 5 + n, st4, floats) == ExprOutcome::Ok((st5, 6 + n, k5)));
    let st6 = emit_plain(st5, OpCode::Print);
    assert(print_stmt(t, 5 + n, st4, floats) == Ok::<(CompState, int), (CompileErrorKind, int)>((st6, 7 + n)));
    assert(program(t, 7 + n, st6, floats) == Ok::<CompState, (CompileErrorKind, int)>(st6));
    assert(program(t, 4 + n, st4, floats) == Ok::<CompState, (CompileErrorKind, int)>(st6));
    assert(st6.code =~= st2.code + encode_instr(OpCode::StoreGlob, 0) + encode_instr(OpCode::LoadGlob, 0)
        + seq![opcode_byte(OpCode::Print)]);
}

/// Storing the top of the stack into a global slot, loading that slot and
/// printing prints exactly the stored value; the value is left in the slot
/// and the stack below it is as it was.
pub proof fn law_store_load_print(m: Machine, g: nat)
    requires
        g <= MAX_OPERAND,
        g < m.globals.len(),
        m.stack.len() >= 1,
        holds_at(
            m,
            encode_instr(OpCode::StoreGlob, g) + encode_instr(OpCode::LoadGlob, g) + seq![opcode_byte(OpCode::Print)],
        ),
    ensures
        ({
            let (m1, s1) = step_spec(m);
            let (m2, s2) = step_spec(m1);
            let (m3, s3) = step_spec(m2);
            &&& s1 == Step::Continue
            &&& s2 == Step::Continue
            &&& s3 == Step::Printed(m.stack.last())
            &&& m3.stack == m.stack.drop_last()
            &&& m3.globals == m.globals.update(g as int, Some(m.stack.last()))
            &&& m3.pos == m.pos + 9
        }),
{
    let code = m.chunks[m.chunk_index].code;
    let bytes = encode_instr(OpCode::StoreGlob, g) + encode_instr(OpCode::LoadGlob, g) + seq![opcode_byte(OpCode::Print)];
    let p = m.pos;
    assert(code.subrange(p, p + 4) =~= encode_instr(OpCode::StoreGlob, g)) by {
        assert forall|k: int| 0 <= k < 4 implies code.subrange(p, p + 4)[k] == encode_instr(OpCode::StoreGlob, g)[k] by {
            assert(code.subrange(p, p + 9)[k] == bytes[k]);
        }
    }
    law_operand_round_trip(m, OpCode::StoreGlob, g);
    let (m1, s1) = step_spec(m);
    assert(m1.stack =~= m.stack.drop_last());
    assert(code.subrange(p + 4, p + 8) =~= encode_instr(OpCode::LoadGlob, g)) by {
        assert forall|k: int| 0 <= k < 4 implies code.subrange(p + 4, p + 8)[k] == encode_instr(OpCode::LoadGlob, g)[k] by {
            assert(code.subrange(p, p + 9)[4 + k] == bytes[4 + k]);
        }
    }
    law_operand_round_trip(m1, OpCode::LoadGlob, g);
    let (m2, s2) = step_spec(m1);
    lemma_opcode_byte_injective(OpCode::Print);
    assert(code.subrange(p, p + 9)[8] == bytes[8]);
    assert(m2.chunks[m2.chunk_index].code[m2.pos] == opcode_byte(OpCode::Print));
    let (m3, s3) = step_spec(m2);
    assert(m3.stack =~= m.stack.drop_last());
}

/// The machine after `n` steps.
pub open spec fn run_n(m: Machine, n: nat) -> Machine
    decreases n,
{
    if n == 0 {
        m
    } else {
        run_n(step_spec(m).0, (n - 1) as nat)
    }
}

/// Each of the next `n` steps completes without output, halt or error.
pub open spec fn quiet(m: Machine, n: nat) -> bool
    decreases n,
{
    if n == 0 {
        true
    } else {
        step_spec(m).1 == Step::Continue && quiet(step_spec(m).0, (n - 1) as nat)
    }
}

proof fn lemma_quiet_compose(m: Machine, a: nat, b: nat)
    requires
        quiet(m, a),
        quiet(run_n(m, a), b),
    ensures
        quiet(m, a + b),
        run_n(m, a + b) == run_n(run_n(m, a), b),
    decreases a,
{
    if a > 0 {
        lemma_quiet_compose(step_spec(m).0, (a - 1) as nat, b);
        assert((a + b - 1) as nat == (a - 1) as nat + b);
    }
}

proof fn lemma_run_after_quiet(m: Machine, n: nat, k: nat)
    requires
        quiet(m, n),
    ensures
        run_spec(m, n + k) == run_spec(run_n(m, n), k),
    decreases n,
{
    if n > 0 {
        lemma_run_after_quiet(step_spec(m).0, (n - 1) as nat, k);
        assert((n + k - 1) as nat == (n - 1) as nat + k);
    }
}

/// The integer value of a literal token.
pub open spec fn lit_value(l: Lexeme) -> Option<i64> {
    match l {
        Lexeme::Other(Token::Int(v)) => Some(v),
        _ => None,
    }
}

/// Evaluates the rest of a multiplicative chain of integer literals from
/// token `i` whose left part is `acc`: the value and the index past the
/// chain, or `None` where a part is no integer literal or an operation
/// overflows or divides by zero.
pub open spec fn eval_mul_rest(t: Seq<Lexeme>, i: int, acc: i64) -> Option<(i64, int)>
    decreases t.len() - i,
{
    if 0 <= i < t.len() && is_multiplicative(t[i]) {
        if i + 1 < t.len() && lit_value(t[i + 1]) is Some {
            match int_result(arith_opcode(t[i]->Other_0, ValueKind::Int), acc, lit_value(t[i + 1])->0) {
                Ok(r) => eval_mul_rest(t, i + 2, r),
                Err(_) => None,
            }
        } else {
            None
        }
    } else {
        Some((acc, i))
    }
}

/// Evaluates a multiplicative chain of integer literals at token `i`.
pub open spec fn eval_mul(t: Seq<Lexeme>, i: int) -> Option<(i64, int)> {
    if 0 <= i < t.len() && lit_value(t[i]) is Some {
        eval_mul_rest(t, i + 1, lit_value(t[i])->0)
    } else {
        None
    }
}

/// Evaluates the rest of an additive chain from token `i` whose left part is `acc`.
pub open spec fn eval_add_rest(t: Seq<Lexeme>, i: int, acc: i64) -> Option<(i64, int)>
    decreases t.len() - i,
{
    if 0 <= i < t.len() && is_additive(t[i]) {
        match eval_mul(t, i + 1) {
            Some((b, j)) => if i < j <= t.len() {
                match int_result(arith_opcode(t[i]->Other_0, ValueKind::Int), acc, b) {
                    Ok(r) => eval_add_rest(t, j, r),
                    Err(_) => None,
                }
            } else {
                None
            },
            None => None,
        }
    } else {
        Some((acc, i))
    }
}

/// Evaluates an expression over integer literals and `+ - * / %` at token
/// `i`, with the usual precedence and left associativity and Rust's native
/// `i64` operations: its value and the index past it, or `None`.
pub open spec fn eval_expr(t: Seq<Lexeme>, i: int) -> Option<(i64, int)> {
    match eval_mul(t, i) {
        Some((a, j)) => eval_add_rest(t, j, a),
        None => None,
    }
}

/// The current chunk of `m` starts with the code and constants of `st`.
pub open spec fn embeds(m: Machine, st: CompState) -> bool {
    &&& 0 <= m.chunk_index < m.chunks.len()
    &&& st.code.is_prefix_of(m.chunks[m.chunk_index].code)
    &&& st.consts.is_prefix_of(m.chunks[m.chunk_index].constants)
}

/// `st2` adds code and constants to `st` and declares nothing.
pub open spec fn extends(st: CompState, st2: CompState) -> bool {
    &&& st.code.is_prefix_of(st2.code)
    &&& st.consts.is_prefix_of(st2.consts)
    &&& st2.names == st.names
    &&& st2.kinds == st.kinds
    &&& st2.floats_used == st.floats_used
}

/// The constant pool can still take one constant per remaining token.
pub open spec fn room(st: CompState, t: Seq<Lexeme>, i: int) -> bool {
    st.consts.len() + t.len() - i <= MAX_OPERAND
}

/// From the start of the code that `st2` adds to `st`, `n` quiet steps reach
/// its end with `v` pushed.
pub open spec fn runs_pushing(st: CompState, st2: CompState, n: nat, v: i64) -> bool {
    forall|m: Machine|
        #![trigger embeds(m, st2), quiet(m, n)]
        embeds(m, st2) && m.pos == st.code.len() ==> quiet(m, n) && run_n(m, n) == Machine {
            pos: st2.code.len() as int,
            stack: m.stack.push(StackSlot::Int(v)),
            ..m
        }
}

/// From the start of the code that `st2` adds to `st`, with `acc` on top of
/// the stack, `n` quiet steps reach its end with `acc` replaced by `v`.
pub open spec fn runs_folding(st: CompState, st2: CompState, n: nat, acc: i64, v: i64) -> bool {
    forall|m: Machine|
        #![trigger embeds(m, st2), quiet(m, n)]
        embeds(m, st2) && m.pos == st.code.len() && m.stack.len() >= 1 && m.stack.last()
            == StackSlot::Int(acc) ==> quiet(m, n) && run_n(m, n) == Machine {
            pos: st2.code.len() as int,
            stack: m.stack.drop_last().push(StackSlot::Int(v)),
            ..m
        }
}

proof fn lemma_extends_trans(a: CompState, b: CompState, c: CompState)
    requires
        extends(a, b),
        extends(b, c),
    ensures
        extends(a, c),
{
    assert(a.code =~= c.code.subrange(0, a.code.len() as int)) by {
        assert(a.code =~= b.code.subrange(0, a.code.len() as int));
        assert(b.code =~= c.code.subrange(0, b.code.len() as int));
    }
    assert(a.consts =~= c.consts.subrange(0, a.consts.len() as int)) by {
        assert(a.consts =~= b.consts.subrange(0, a.consts.len() as int));
        assert(b.consts =~= c.consts.subrange(0, b.consts.len() as int));
    }
}

proof fn lemma_embeds_prefix(m: Machine, st: CompState, st2: CompState)
    requires
        embeds(m, st2),
        extends(st, st2),
    ensures
        embeds(m, st),
{
    let c = m.chunks[m.chunk_index];
    assert(st.code =~= c.code.subrange(0, st.code.len() as int)) by {
        assert(st.code =~= st2.code.subrange(0, st.code.len() as int));
        assert(st2.code =~= c.code.subrange(0, st2.code.len() as int));
    }
    assert(st.consts =~= c.constants.subrange(0, st.consts.len() as int)) by {
        assert(st.consts =~= st2.consts.subrange(0, st.consts.len() as int));
        assert(st2.consts =~= c.constants.subrange(0, st2.consts.len() as int));
    }
}

/// An integer literal compiles to one `Push`, which pushes its value.
proof fn lemma_literal_runs(t: Seq<Lexeme>, i: int, st: CompState, floats: Seq<u64>)
    requires
        0 <= i < t.len(),
        lit_value(t[i]) is Some,
        room(st, t, i),
    ensures
        primary(t, i, st, floats) == ExprOutcome::Ok(
            (emit_constant(st, StackSlot::Int(lit_value(t[i])->0)), i + 1, ValueKind::Int),
        ),
        extends(st, emit_constant(st, StackSlot::Int(lit_value(t[i])->0))),
        room(emit_constant(st, StackSlot::Int(lit_value(t[i])->0)), t, i + 1),
        runs_pushing(st, emit_constant(st, StackSlot::Int(lit_value(t[i])->0)), 1, lit_value(t[i])->0),
{
    let v = lit_value(t[i])->0;
    let st2 = emit_constant(st, StackSlot::Int(v));
    let idx = st.consts.len();
    assert(st.code =~= st2.code.subrange(0, st.code.len() as int));
    assert(st.consts =~= st2.consts.subrange(0, st.consts.len() as int));
    assert forall|m: Machine|
        #![trigger embeds(m, st2), quiet(m, 1)]
        embeds(m, st2) && m.pos == st.code.len() implies quiet(m, 1) && run_n(m, 1) == Machine {
            pos: st2.code.len() as int,
            stack: m.stack.push(StackSlot::Int(v)),
            ..m
        } by {
        let c = m.chunks[m.chunk_index];
        let p = m.pos;
        assert(c.code.subrange(p, p + 4) =~= encode_instr(OpCode::Push, idx)) by {
            assert forall|k: int| 0 <= k < 4 implies c.code.subrange(p, p + 4)[k] == encode_instr(OpCode::Push, idx)[k] by {
                assert(c.code.subrange(0, st2.code.len() as int)[p + k] == st2.code[p + k]);
            }
        }
        law_operand_round_trip(m, OpCode::Push, idx);
        assert(c.constants.subrange(0, st2.consts.len() as int)[idx as int] == st2.consts[idx as int]);
        assert(c.constants[idx as int] == StackSlot::Int(v));
        let (m1, s1) = step_spec(m);
        assert(s1 == Step::Continue);
        assert(m1 == Machine { pos: st2.code.len() as int, stack: m.stack.push(StackSlot::Int(v)), ..m });
        assert(quiet(m1, 0));
        assert(run_n(m, 1) == run_n(m1, 0));
    }
    assert(runs_pushing(st, st2, 1, v));
}

/// An integer instruction on two integers whose result fits.
proof fn lemma_int_step(m: Machine, op: OpCode, a: i64, b: i64, r: i64)
    requires
        is_int_arith(op),
        0 <= m.chunk_index < m.chunks.len(),
        0 <= m.pos < m.chunks[m.chunk_index].code.len(),
        m.chunks[m.chunk_index].code[m.pos] == opcode_byte(op),
        m.stack.len() >= 2,
        m.stack[m.stack.len() - 2] == StackSlot::Int(a),
        m.stack[m.stack.len() - 1] == StackSlot::Int(b),
        int_result(op, a, b) == Ok::<i64, crate::vm::RuntimeError>(r),
    ensures
        step_spec(m) == (
            Machine { pos: m.pos + 1, stack: m.stack.drop_last().drop_last().push(StackSlot::Int(r)), ..m },
            Step::Continue,
        ),
{
    lemma_opcode_byte_injective(op);
    assert(step_spec(m) == exec_op(m, op, 0, m.pos + 1));
    assert(m.stack.subrange(0, m.stack.len() - 2) =~= m.stack.drop_last().drop_last());
}

/// The byte appended after the code of `st1` sits at that code's end.
proof fn lemma_byte_at(m: Machine, st1: CompState, st2: CompState, op: OpCode)
    requires
        embeds(m, st2),
        extends(emit_plain(st1, op), st2),
    ensures
        m.chunks[m.chunk_index].code[st1.code.len() as int] == opcode_byte(op),
        st1.code.len() < m.chunks[m.chunk_index].code.len(),
{
    let st3 = emit_plain(st1, op);
    let c = m.chunks[m.chunk_index].code;
    let p = st1.code.len() as int;
    assert(st3.code[p] == opcode_byte(op));
    assert(st2.code.subrange(0, st3.code.len() as int)[p] == st3.code[p]);
    assert(c.subrange(0, st2.code.len() as int)[p] == st2.code[p]);
}

proof fn lemma_emit_plain_extends(st: CompState, op: OpCode)
    ensures
        extends(st, emit_plain(st, op)),
{
    assert(st.code =~= emit_plain(st, op).code.subrange(0, st.code.len() as int));
    assert(st.consts =~= emit_plain(st, op).consts.subrange(0, st.consts.len() as int));
}

proof fn lemma_extends_refl(st: CompState)
    ensures
        extends(st, st),
{
    assert(st.code =~= st.code.subrange(0, st.code.len() as int));
    assert(st.consts =~= st.consts.subrange(0, st.consts.len() as int));
}

proof fn lemma_eval_mul_rest_bounds(t: Seq<Lexeme>, i: int, acc: i64)
    requires
        0 <= i <= t.len(),
    ensures
        eval_mul_rest(t, i, acc) matches Some((_, j)) ==> i <= j <= t.len(),
    decreases t.len() - i,
{
    if 0 <= i < t.len() && is_multiplicative(t[i]) && i + 1 < t.len() && lit_value(t[i + 1]) is Some {
        if let Ok(r) = int_result(arith_opcode(t[i]->Other_0, ValueKind::Int), acc, lit_value(t[i + 1])->0) {
            lemma_eval_mul_rest_bounds(t, i + 2, r);
        }
    }
}

/// The rest of a multiplicative chain of integer literals compiles, and its
/// code folds the chain's operations into the value on top of the stack.
proof fn lemma_mul_rest_runs(t: Seq<Lexeme>, i: int, st: CompState, acc: i64, floats: Seq<u64>)
    requires
        0 <= i <= t.len(),
        room(st, t, i),
        eval_mul_rest(t, i, acc) is Some,
    ensures
        ({
            let (v, j) = eval_mul_rest(t, i, acc)->0;
            &&& i <= j <= t.len()
            &&& mul_rest(t, i, st, ValueKind::Int, floats) matches Ok((st2, j2, k)) && j2 == j && k
                == ValueKind::Int && extends(st, st2) && room(st2, t, j) && runs_folding(
                st,
                st2,
                (j - i) as nat,
                acc,
                v,
            )
        }),
    decreases t.len() - i,
{
    lemma_eval_mul_rest_bounds(t, i, acc);
    if 0 <= i < t.len() && is_multiplicative(t[i]) {
        let b = lit_value(t[i + 1])->0;
        let op = arith_opcode(t[i]->Other_0, ValueKind::Int);
        let r = int_result(op, acc, b)->Ok_0;
        lemma_literal_runs(t, i + 1, st, floats);
        let st1 = emit_constant(st, StackSlot::Int(b));
        let st3 = emit_plain(st1, op);
        lemma_emit_plain_extends(st1, op);
        lemma_mul_rest_runs(t, i + 2, st3, r, floats);
        let (v, j) = eval_mul_rest(t, i, acc)->0;
        let st2 = mul_rest(t, i + 2, st3, ValueKind::Int, floats)->Ok_0.0;
        assert(mul_rest(t, i, st, ValueKind::Int, floats) == mul_rest(t, i + 2, st3, ValueKind::Int, floats));
        lemma_extends_trans(st1, st3, st2);
        lemma_extends_trans(st, st1, st2);
        let n2 = (j - i - 2) as nat;
        assert forall|m: Machine|
            #![trigger embeds(m, st2), quiet(m, (j - i) as nat)]
            embeds(m, st2) && m.pos == st.code.len() && m.stack.len() >= 1 && m.stack.last()
                == StackSlot::Int(acc) implies quiet(m, (j - i) as nat) && run_n(m, (j - i) as nat)
                == Machine { pos: st2.code.len() as int, stack: m.stack.drop_last().push(StackSlot::Int(v)), ..m } by {
            lemma_embeds_prefix(m, st1, st2);
            assert(embeds(m, st1) && quiet(m, 1));
            let m1 = run_n(m, 1);
            lemma_byte_at(m, st1, st2, op);
            lemma_int_step(m1, op, acc, b, r);
            let m2 = step_spec(m1).0;
            assert(m2.stack =~= m.stack.drop_last().push(StackSlot::Int(r)));
            assert(quiet(m1, 1)) by {
                assert(quiet(m2, 0));
            }
            assert(run_n(m1, 1) == m2) by {
                assert(run_n(m2, 0) == m2);
            }
            lemma_quiet_compose(m, 1, 1);
            assert(embeds(m2, st2));
            assert(m2.stack.last() == StackSlot::Int(r));
            assert(quiet(m2, n2));
            lemma_quiet_compose(m, 2, n2);
            assert(2 + n2 == (j - i) as nat);
            assert(m2.stack.drop_last() =~= m.stack.drop_last());
        }
        assert(room(st2, t, j));
    } else {
        lemma_extends_refl(st);
        assert forall|m: Machine|
            #![trigger embeds(m, st), quiet(m, 0)]
            embeds(m, st) && m.pos == st.code.len() && m.stack.len() >= 1 && m.stack.last()
                == StackSlot::Int(acc) implies quiet(m, 0) && run_n(m, 0) == Machine {
                pos: st.code.len() as int,
                stack: m.stack.drop_last().push(StackSlot::Int(acc)),
                ..m
            } by {
            assert(m.stack.drop_last().push(StackSlot::Int(acc)) =~= m.stack);
        }
    }
}

/// A multiplicative chain of integer literals compiles, and its code pushes
/// the chain's value.
proof fn lemma_mul_runs(t: Seq<Lexeme>, i: int, st: CompState, floats: Seq<u64>)
    requires
        0 <= i <= t.len(),
        room(st, t, i),
        eval_mul(t, i) is Some,
    ensures
        ({
            let (v, j) = eval_mul(t, i)->0;
            &&& i < j <= t.len()
            &&& multiplicative(t, i, st, floats) matches Ok((st2, j2, k)) && j2 == j && k
                == ValueKind::Int && extends(st, st2) && room(st2, t, j) && runs_pushing(
                st,
                st2,
                (j - i) as nat,
                v,
            )
        }),
{
    let a = lit_value(t[i])->0;
    lemma_literal_runs(t, i, st, floats);
    let st1 = emit_constant(st, StackSlot::Int(a));
    lemma_mul_rest_runs(t, i + 1, st1, a, floats);
    let (v, j) = eval_mul(t, i)->0;
    let st2 = mul_rest(t, i + 1, st1, ValueKind::Int, floats)->Ok_0.0;
    lemma_extends_trans(st, st1, st2);
    let n2 = (j - i - 1) as nat;
    assert forall|m: Machine|
        #![trigger embeds(m, st2), quiet(m, (j - i) as nat)]
        embeds(m, st2) && m.pos == st.code.len() implies quiet(m, (j - i) as nat) && run_n(m, (j - i) as nat)
            == Machine { pos: st2.code.len() as int, stack: m.stack.push(StackSlot::Int(v)), ..m } by {
        lemma_embeds_prefix(m, st1, st2);
        assert(embeds(m, st1) && quiet(m, 1));
        let m1 = run_n(m, 1);
        assert(embeds(m1, st2));
        assert(m1.stack.last() == StackSlot::Int(a));
        assert(quiet(m1, n2));
        lemma_quiet_compose(m, 1, n2);
        assert(1 + n2 == (j - i) as nat);
        assert(m1.stack.drop_last() =~= m.stack);
    }
}

proof fn lemma_eval_add_rest_bounds(t: Seq<Lexeme>, i: int, acc: i64)
    requires
        0 <= i <= t.len(),
    ensures
        eval_add_rest(t, i, acc) matches Some((_, j)) ==> i <= j <= t.len(),
    decreases t.len() - i,
{
    if 0 <= i < t.len() && is_additive(t[i]) {
        if let Some((b, j)) = eval_mul(t, i + 1) {
            if i < j <= t.len() {
                if let Ok(r) = int_result(arith_opcode(t[i]->Other_0, ValueKind::Int), acc, b) {
                    lemma_eval_add_rest_bounds(t, j, r);
                }
            }
        }
    }
}

/// The rest of an additive chain compiles, and its code folds the chain's
/// operations into the value on top of the stack.
#[verifier::rlimit(40)]
proof fn lemma_add_rest_runs(t: Seq<Lexeme>, i: int, st: CompState, acc: i64, floats: Seq<u64>)
    requires
        0 <= i <= t.len(),
        room(st, t, i),
        eval_add_rest(t, i, acc) is Some,
    ensures
        ({
            let (v, j) = eval_add_rest(t, i, acc)->0;
            &&& i <= j <= t.len()
            &&& add_rest(t, i, st, ValueKind::Int, floats) matches Ok((st2, j2, k)) && j2 == j && k
                == ValueKind::Int && extends(st, st2) && room(st2, t, j) && runs_folding(
                st,
                st2,
                (j - i) as nat,
                acc,
                v,
            )
        }),
    decreases t.len() - i,
{
    lemma_eval_add_rest_bounds(t, i, acc);
    if 0 <= i < t.len() && is_additive(t[i]) {
        let (b, j1) = eval_mul(t, i + 1)->0;
        let op = arith_opcode(t[i]->Other_0, ValueKind::Int);
        let r = int_result(op, acc, b)->Ok_0;
        lemma_mul_runs(t, i + 1, st, floats);
        let st1 = multiplicative(t, i + 1, st, floats)->Ok_0.0;
        let st3 = emit_plain(st1, op);
        lemma_emit_plain_extends(st1, op);
        lemma_add_rest_runs(t, j1, st3, r, floats);
        let (v, j) = eval_add_rest(t, i, acc)->0;
        let st2 = add_rest(t, j1, st3, ValueKind::Int, floats)->Ok_0.0;
        assert(add_rest(t, i, st, ValueKind::Int, floats) == add_rest(t, j1, st3, ValueKind::Int, floats));
        lemma_extends_trans(st1, st3, st2);
        lemma_extends_trans(st, st1, st2);
        let n1 = (j1 - i - 1) as nat;
        let n2 = (j - j1) as nat;
        assert forall|m: Machine|
            #![trigger embeds(m, st2), quiet(m, (j - i) as nat)]
            embeds(m, st2) && m.pos == st.code.len() && m.stack.len() >= 1 && m.stack.last()
                == StackSlot::Int(acc) implies quiet(m, (j - i) as nat) && run_n(m, (j - i) as nat)
                == Machine { pos: st2.code.len() as int, stack: m.stack.drop_last().push(StackSlot::Int(v)), ..m } by {
            lemma_embeds_prefix(m, st1, st2);
            assert(embeds(m, st1) && quiet(m, n1));
            let m1 = run_n(m, n1);
            lemma_byte_at(m, st1, st2, op);
            lemma_int_step(m1, op, acc, b, r);
            let m2 = step_spec(m1).0;
            assert(m2.stack =~= m.stack.drop_last().push(StackSlot::Int(r)));
            assert(quiet(m1, 1)) by {
                assert(quiet(m2, 0));
            }
            assert(run_n(m1, 1) == m2) by {
                assert(run_n(m2, 0) == m2);
            }
            lemma_quiet_compose(m, n1, 1);
            assert(embeds(m2, st2));
            assert(m2.stack.last() == StackSlot::Int(r));
            assert(quiet(m2, n2));
            lemma_quiet_compose(m, n1 + 1, n2);
            assert(n1 + 1 + n2 == (j - i) as nat);
            assert(m2.stack.drop_last() =~= m.stack.drop_last());
        }
        assert(eval_add_rest(t, i, acc) == eval_add_rest(t, j1, r));
        assert(room(st2, t, j));
        assert(extends(st, st2));
        assert(runs_folding(st, st2, (j - i) as nat, acc, v));
    } else {
        lemma_extends_refl(st);
        assert forall|m: Machine|
            #![trigger embeds(m, st), quiet(m, 0)]
            embeds(m, st) && m.pos == st.code.len() && m.stack.len() >= 1 && m.stack.last()
                == StackSlot::Int(acc) implies quiet(m, 0) && run_n(m, 0) == Machine {
                pos: st.code.len() as int,
                stack: m.stack.drop_last().push(StackSlot::Int(acc)),
                ..m
            } by {
            assert(m.stack.drop_last().push(StackSlot::Int(acc)) =~= m.stack);
        }
    }
}

/// An expression over integer literals and `+ - * / %` that evaluates
/// without overflow or a zero divisor compiles, and its code runs in one
/// step per token to push its value.
pub proof fn lemma_expression_runs(t: Seq<Lexeme>, i: int, st: CompState, floats: Seq<u64>)
    requires
        0 <= i <= t.len(),
        room(st, t, i),
        eval_expr(t, i) is Some,
    ensures
        ({
            let (v, j) = eval_expr(t, i)->0;
            &&& expression(t, i, st, floats) matches Ok((st2, j2, k)) && j2 == j && k == ValueKind::Int
                && extends(st, st2) && runs_pushing(st, st2, (j - i) as nat, v)
        }),
{
    lemma_mul_runs(t, i, st, floats);
    let (a, j1) = eval_mul(t, i)->0;
    let st1 = multiplicative(t, i, st, floats)->Ok_0.0;
    lemma_add_rest_runs(t, j1, st1, a, floats);
    let (v, j) = eval_expr(t, i)->0;
    let st2 = add_rest(t, j1, st1, ValueKind::Int, floats)->Ok_0.0;
    lemma_extends_trans(st, st1, st2);
    let n1 = (j1 - i) as nat;
    let n2 = (j - j1) as nat;
    assert forall|m: Machine|
        #![trigger embeds(m, st2), quiet(m, (j - i) as nat)]
        embeds(m, st2) && m.pos == st.code.len() implies quiet(m, (j - i) as nat) && run_n(m, (j - i) as nat)
            == Machine { pos: st2.code.len() as int, stack: m.stack.push(StackSlot::Int(v)), ..m } by {
        lemma_embeds_prefix(m, st1, st2);
        assert(embeds(m, st1) && quiet(m, n1));
        let m1 = run_n(m, n1);
        assert(embeds(m1, st2));
        assert(m1.stack.last() == StackSlot::Int(a));
        assert(quiet(m1, n2));
        lemma_quiet_compose(m, n1, n2);
        assert(n1 + n2 == (j - i) as nat);
        assert(m1.stack.drop_last() =~= m.stack);
    }
}

/// Storing `v` into slot 0, loading it and printing it at the end of the
/// code prints `v` and halts.
proof fn lemma_tail_runs(me: Machine, v: i64)
    requires
        holds_at(
            me,
            encode_instr(OpCode::StoreGlob, 0) + encode_instr(OpCode::LoadGlob, 0) + seq![opcode_byte(OpCode::Print)],
        ),
        me.pos + 9 == me.chunks[me.chunk_index].code.len(),
        me.globals == seq![None::<StackSlot>],
        me.stack == seq![StackSlot::Int(v)],
    ensures
        run_spec(me, 4).1 == seq![StackSlot::Int(v)],
        run_spec(me, 4).2 == Exit::Halted,
        run_spec(me, 4).0.globals == seq![Some(StackSlot::Int(v))],
{
    law_store_load_print(me, 0);
    let (m1, s1) = step_spec(me);
    let (m2, s2) = step_spec(m1);
    let (m3, s3) = step_spec(m2);
    let (m4, s4) = step_spec(m3);
    assert(s4 == Step::Halted);
    assert(run_spec(m3, 1) == (m4, Seq::<StackSlot>::empty(), Exit::Halted));
    assert(run_spec(m2, 2).1 =~= seq![StackSlot::Int(v)]);
    assert(run_spec(m1, 3) == run_spec(m2, 2));
    assert(run_spec(me, 4) == run_spec(m1, 3));
    assert(m3.globals =~= seq![Some(StackSlot::Int(v))]);
}

/// `var x = E; print x;`, for every expression `E` over integer literals
/// and `+ - * / %` whose value `v` (by Rust's native `i64` operations, with
/// the usual precedence and left associativity) involves no overflow and no
/// zero divisor, compiles and then runs to print exactly `v`, once, and
/// halts with `v` stored in `x`'s slot.
pub proof fn law_declared_expression_prints(x: Seq<char>, e: Seq<Lexeme>, floats: Seq<u64>)
    requires
        e.len() + 4 <= MAX_OPERAND,
        eval_expr(declare_expr_print_tokens(x, e), 3) matches Some((_, j)) && j == 3 + e.len(),
    ensures
        program(declare_expr_print_tokens(x, e), 0, initial_state(), floats) is Ok,
        ({
            let t = declare_expr_print_tokens(x, e);
            let v = (eval_expr(t, 3)->0).0;
            let st = program(t, 0, initial_state(), floats)->Ok_0;
            let (m, out, ex) = run_spec(compiled_machine(st), e.len() + 4);
            &&& st.names == seq![x]
            &&& out == seq![StackSlot::Int(v)]
            &&& ex == Exit::Halted
            &&& m.globals == seq![Some(StackSlot::Int(v))]
        }),
{
    let t = declare_expr_print_tokens(x, e);
    let st1 = declared_state(x);
    assert(t.len() == e.len() + 7);
    lemma_expression_runs(t, 3, st1, floats);
    let (v, j) = eval_expr(t, 3)->0;
    let st2 = expression(t, 3, st1, floats)->Ok_0.0;
    law_declare_compiles(x, e, floats);
    let st = program(t, 0, initial_state(), floats)->Ok_0;
    let tail = encode_instr(OpCode::StoreGlob, 0) + encode_instr(OpCode::LoadGlob, 0) + seq![opcode_byte(OpCode::Print)];
    assert(st.code =~= st2.code + tail);
    let m0 = compiled_machine(st);
    assert(m0.globals =~= seq![None::<StackSlot>]);
    assert(embeds(m0, st2)) by {
        assert(st2.code =~= st.code.subrange(0, st2.code.len() as int));
        assert(st2.consts =~= st.consts.subrange(0, st2.consts.len() as int));
    }
    let n = e.len() as nat;
    assert(quiet(m0, n));
    let me = run_n(m0, n);
    assert(me.stack =~= seq![StackSlot::Int(v)]);
    let p = st2.code.len() as int;
    assert(holds_at(me, tail)) by {
        assert(st.code.subrange(p, p + 9) =~= tail);
    }
    lemma_tail_runs(me, v);
    lemma_run_after_quiet(m0, n, 4);
}

} // verus!
