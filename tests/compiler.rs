use scriptvm::lexer::tokenize;
use scriptvm::parser::{compile as compile_tokens, CompileError, CompileErrorKind, Parser, ValueKind};
use scriptvm::token::{LocatedToken, Token};
use scriptvm::value::StackSlot;
use scriptvm::vm::{Exit, FloatOp, RuntimeError, VM};

fn float_bits(tokens: &[LocatedToken]) -> Vec<u64> {
    tokens
        .iter()
        .filter_map(|t| match &t.token {
            Token::Float(s) => Some(s.parse::<f64>().unwrap().to_bits()),
            _ => None,
        })
        .collect()
}

fn compile(src: &str) -> Result<Parser, CompileError> {
    let tokens = tokenize(src.to_string()).unwrap();
    let floats = float_bits(&tokens);
    let mut p = Parser::new(tokens);
    p.generate(&floats)?;
    Ok(p)
}

fn run_vm(vm: &mut VM) -> (Vec<StackSlot>, Exit) {
    let mut out = Vec::new();
    loop {
        match vm.execute(10_000, &mut out) {
            Exit::Float(op, a, b) => {
                let (x, y) = (f64::from_bits(a), f64::from_bits(b));
                let r = match op {
                    FloatOp::Add => x + y,
                    FloatOp::Sub => x - y,
                    FloatOp::Mul => x * y,
                    FloatOp::Div => x / y,
                    FloatOp::Rem => x % y,
                };
                vm.push(StackSlot::Float(r.to_bits()));
            }
            e => return (out, e),
        }
    }
}

fn run(src: &str) -> (Vec<StackSlot>, Exit) {
    run_vm(&mut compile(src).unwrap().into_vm())
}

fn compile_failure(src: &str) -> CompileError {
    match compile(src) {
        Ok(_) => panic!("expected a compile error"),
        Err(e) => e,
    }
}

#[test]
fn scenario_declare_and_print() {
    let p = compile("var x = 3; print x;").unwrap();
    assert_eq!(p.globals, vec!["x".to_string()]);
    assert_eq!(p.kinds, vec![ValueKind::Int]);
    assert_eq!(p.vm.chunks[0].constants, vec![StackSlot::Int(3)]);
    assert_eq!(p.vm.chunks[0].bytecode, vec![0, 0, 0, 0, 12, 0, 0, 0, 13, 0, 0, 0, 20]);
    let mut vm = p.into_vm();
    assert_eq!(vm.globals.len(), 1);
    assert_eq!(run_vm(&mut vm), (vec![StackSlot::Int(3)], Exit::Halted));
    assert_eq!(vm.globals[0], Some(StackSlot::Int(3)));
}

#[test]
fn integer_operators() {
    assert_eq!(run("print 7 + 5;").0, vec![StackSlot::Int(12)]);
    assert_eq!(run("print 7 - 5;").0, vec![StackSlot::Int(2)]);
    assert_eq!(run("print 7 * 5;").0, vec![StackSlot::Int(35)]);
    assert_eq!(run("print 7 / 2;").0, vec![StackSlot::Int(3)]);
    assert_eq!(run("print 7 % 3;").0, vec![StackSlot::Int(1)]);
}

#[test]
fn precedence_and_associativity() {
    assert_eq!(run("print 2 + 3 * 4;").0, vec![StackSlot::Int(14)]);
    assert_eq!(run("print 10 - 4 - 3;").0, vec![StackSlot::Int(3)]);
    assert_eq!(run("print 100 / 10 / 5;").0, vec![StackSlot::Int(2)]);
    assert_eq!(run("print 1 + 8 % 3 * 2 - 1;").0, vec![StackSlot::Int(4)]);
}

#[test]
fn operands_compile_left_then_right() {
    let p = compile("print 8 - 3;").unwrap();
    assert_eq!(p.vm.chunks[0].constants, vec![StackSlot::Int(8), StackSlot::Int(3)]);
    assert_eq!(p.vm.chunks[0].bytecode, vec![0, 0, 0, 0, 0, 0, 0, 1, 3, 20]);
}

#[test]
fn runtime_arithmetic_errors() {
    assert_eq!(run("print 1 / 0;"), (vec![], Exit::Failed(RuntimeError::DivisionByZero)));
    assert_eq!(run("print 1 % 0;"), (vec![], Exit::Failed(RuntimeError::DivisionByZero)));
    assert_eq!(run("print 9223372036854775807 + 1;").1, Exit::Failed(RuntimeError::IntegerOverflow));
}

#[test]
fn float_arithmetic() {
    assert_eq!(run("print 1.5 + 2.25;").0, vec![StackSlot::Float(3.75f64.to_bits())]);
    assert_eq!(run("var f = 0.5; print f * 3.0;").0, vec![StackSlot::Float(1.5f64.to_bits())]);
    let p = compile("print 1.5 / 0.5;").unwrap();
    assert_eq!(p.vm.chunks[0].bytecode[8], 10);
}

#[test]
fn mixed_kinds_fail_at_run_time() {
    assert_eq!(run("print 1 + 2.0;").1, Exit::Failed(RuntimeError::TypeMismatch));
}

#[test]
fn globals_hold_their_values() {
    assert_eq!(
        run("var a = 2; const b = a * 5; print b - a; print a;").0,
        vec![StackSlot::Int(8), StackSlot::Int(2)]
    );
}

#[test]
fn global_without_initializer_is_unbound() {
    let p = compile("var x; print x;").unwrap();
    assert_eq!(p.vm.chunks[0].bytecode, vec![13, 0, 0, 0, 20]);
    assert_eq!(run("var x; print x;"), (vec![], Exit::Failed(RuntimeError::UnboundGlobal(0))));
    assert_eq!(run("var x = x;").1, Exit::Failed(RuntimeError::UnboundGlobal(0)));
}

#[test]
fn latest_declaration_of_a_name_wins() {
    assert_eq!(run("var x = 1; var x = 2; print x;").0, vec![StackSlot::Int(2)]);
    let p = compile("var x = 1; var x = 2; print x;").unwrap();
    assert_eq!(&p.vm.chunks[0].bytecode[16..20], &[13, 0, 0, 1]);
}

#[test]
fn other_leading_tokens_are_skipped() {
    assert_eq!(run("1 2 ; print 5; x").0, vec![StackSlot::Int(5)]);
    assert_eq!(run("").0, vec![]);
}

#[test]
fn undefined_variable() {
    assert_eq!(
        compile_failure("print y;"),
        CompileError { kind: CompileErrorKind::UndefinedVariable, line: 1, col: 7 }
    );
}

#[test]
fn declaration_errors() {
    assert_eq!(
        compile_failure("var = 3;"),
        CompileError { kind: CompileErrorKind::ExpectedIdentifier, line: 1, col: 5 }
    );
    assert_eq!(
        compile_failure("var x 3;"),
        CompileError { kind: CompileErrorKind::UnexpectedToken, line: 1, col: 7 }
    );
    assert_eq!(
        compile_failure("var x = 1 print x;"),
        CompileError { kind: CompileErrorKind::ExpectedSemicolon, line: 1, col: 11 }
    );
    assert_eq!(compile_failure("var").kind, CompileErrorKind::ExpectedIdentifier);
}

#[test]
fn statement_errors() {
    assert_eq!(
        compile_failure("print 1"),
        CompileError { kind: CompileErrorKind::ExpectedSemicolon, line: 1, col: 7 }
    );
    assert_eq!(
        compile_failure("print ;"),
        CompileError { kind: CompileErrorKind::ExpectedExpression, line: 1, col: 7 }
    );
    assert_eq!(
        compile_failure("print 1 + ;"),
        CompileError { kind: CompileErrorKind::ExpectedExpression, line: 1, col: 11 }
    );
}

#[test]
fn float_literal_needs_a_value() {
    let tokens = tokenize("print 1.5;".to_string()).unwrap();
    let mut p = Parser::new(tokens);
    assert_eq!(
        p.generate(&vec![]),
        Err(CompileError { kind: CompileErrorKind::MissingFloatValue, line: 1, col: 7 })
    );
}

#[test]
fn compile_builds_a_ready_machine() {
    let tokens = tokenize("var a = 4; print a * a;".to_string()).unwrap();
    let mut vm = compile_tokens(tokens, &vec![]).unwrap();
    assert_eq!((vm.chunk_index, vm.bc_pos), (0, 0));
    assert_eq!(vm.globals, vec![None]);
    assert_eq!(run_vm(&mut vm), (vec![StackSlot::Int(16)], Exit::Halted));
    let tokens = tokenize("print 1 +".to_string()).unwrap();
    assert_eq!(
        compile_tokens(tokens, &vec![]).err(),
        Some(CompileError { kind: CompileErrorKind::ExpectedExpression, line: 1, col: 9 })
    );
}

#[test]
fn constant_pool_beyond_24_bits_is_rejected() {
    let tokens = tokenize("print 1;".to_string()).unwrap();
    let mut p = Parser::new(tokens);
    p.vm.chunks[0].constants = vec![StackSlot::Int(0); 16_777_216];
    assert_eq!(
        p.generate(&vec![]),
        Err(CompileError { kind: CompileErrorKind::TooManyConstants, line: 1, col: 7 })
    );
}

#[test]
fn global_table_beyond_24_bits_is_rejected() {
    let tokens = tokenize("var x;".to_string()).unwrap();
    let mut p = Parser::new(tokens);
    p.globals = vec![String::new(); 16_777_216];
    assert_eq!(
        p.generate(&vec![]),
        Err(CompileError { kind: CompileErrorKind::TooManyGlobals, line: 1, col: 5 })
    );
}

#[test]
fn declared_expression_is_printed_and_stored() {
    let mut vm = compile("var x = 2 + 3 * 4 - 10 / 3 % 2; print x;").unwrap().into_vm();
    assert_eq!(run_vm(&mut vm), (vec![StackSlot::Int(13)], Exit::Halted));
    assert_eq!(vm.globals[0], Some(StackSlot::Int(13)));
}

#[test]
fn undeclared_name_emits_nothing() {
    let tokens = tokenize("print y;".to_string()).unwrap();
    let mut p = Parser::new(tokens);
    assert_eq!(
        p.generate(&vec![]),
        Err(CompileError { kind: CompileErrorKind::UndefinedVariable, line: 1, col: 7 })
    );
    assert!(p.vm.chunks[0].bytecode.is_empty());
    assert!(p.vm.chunks[0].constants.is_empty());
    assert!(p.globals.is_empty());
    assert!(p.vm.globals.is_empty());
}

#[test]
fn stray_float_literal_keeps_values_paired() {
    assert_eq!(run("2.5 print 1.5;").0, vec![StackSlot::Float(1.5f64.to_bits())]);
    assert_eq!(
        run("1.5 var f = 2.5; 0.25 print f + 4.0;").0,
        vec![StackSlot::Float(6.5f64.to_bits())]
    );
}
