use virtual_exec::compile::compile;
use virtual_exec::error::{ExecutionError, RecoverableError, TypeConversionError};
use virtual_exec::exec::State;
use virtual_exec::instructions::Instruction;
use virtual_exec::machine::{FloatUnit, Machine, OwnedValue, StdFn};
use virtual_exec::ops::{BinOp, FloatRequest, Num, Scalar};
use virtual_exec::parser::parse;

struct Floats;

fn num(n: &Num) -> f64 {
    match n {
        Num::Int(i) => *i as f64,
        Num::Float(b) => f64::from_bits(*b),
    }
}

impl FloatUnit for Floats {
    fn compute(&self, req: &FloatRequest) -> Result<Scalar, TypeConversionError> {
        match req {
            FloatRequest::Literal(s) => s
                .parse::<f64>()
                .map(|f| Scalar::Float(f.to_bits()))
                .map_err(|_| TypeConversionError::InvalidTypeError),
            FloatRequest::Binary(op, a, b) => {
                let (x, y) = (num(a), num(b));
                let zero = matches!(b, Num::Int(0)) || y == 0.0;
                match op {
                    BinOp::Add => Ok(Scalar::Float((x + y).to_bits())),
                    BinOp::Sub => Ok(Scalar::Float((x - y).to_bits())),
                    BinOp::Mul => Ok(Scalar::Float((x * y).to_bits())),
                    BinOp::Div if zero => Err(TypeConversionError::DivideByZeroError),
                    BinOp::Div => Ok(Scalar::Float((x / y).to_bits())),
                    BinOp::Mod if zero => Err(TypeConversionError::DivideByZeroError),
                    BinOp::Mod => Ok(Scalar::Float((x % y).to_bits())),
                    BinOp::Eq => Ok(Scalar::Bool((x - y).abs() < f64::EPSILON)),
                    BinOp::Ne => Ok(Scalar::Bool((x - y).abs() >= f64::EPSILON)),
                    BinOp::Lt => Ok(Scalar::Bool(x < y)),
                    BinOp::Le => Ok(Scalar::Bool(x <= y)),
                    BinOp::Gt => Ok(Scalar::Bool(x > y)),
                    BinOp::Ge => Ok(Scalar::Bool(x >= y)),
                    _ => Err(TypeConversionError::UndefinedOperatorMethodError),
                }
            }
        }
    }
}

/// A machine for `code` with no host functions.
fn machine(code: &str, mem: usize, lim: u64) -> Machine<StdFn> {
    let compiled = compile(&parse(code).unwrap());
    Machine::new(compiled, mem, lim, vec![]).unwrap()
}

/// Steps the machine while it is ready and the program has not ended.
fn step_until_stopped(m: &mut Machine<StdFn>) {
    while let Ok(State::Ready) = m.machine.state {
        match m.machine.fn_stack_frame.last() {
            Some(frame) => {
                if frame.ptr as usize >= m.machine.instructions.len() {
                    break;
                }
            }
            None => break,
        }
        let _ = m.machine.run_once();
    }
}

#[test]
fn execution_test_test_execution_compiled_code() {
    let code = "a = 1; b = 2; c = 3; if a != b {d = 2;} d = d + d; d;";
    let mut m = machine(code, 600, 1000);
    step_until_stopped(&mut m);
    match m.get("d") {
        Some(OwnedValue::Int(i)) => assert_eq!(i, 4),
        other => panic!("Expected d to be Int(4) but got {:?}", other),
    }
}

#[test]
fn execution_test_test_execution_compiled_code_if_false() {
    let code = "a = 1; b = 1; c = 3; if a != b {d = 2;} else {d = 5;} d = d + d; d;";
    let mut m = machine(code, 600, 1000);
    step_until_stopped(&mut m);
    match m.get("d") {
        Some(OwnedValue::Int(i)) => assert_eq!(i, 10),
        other => panic!("Expected d to be Int(10) but got {:?}", other),
    }
}

#[test]
fn execution_test_test_execution_compiled_code_math_operations() {
    let code = "a = 10; b = 3; c = a - b; d = a * b; e = a / b; f = a % b;";
    let mut m = machine(code, 600, 1000);
    let _ = m.sync_run_all(&Floats);
    match m.get("c") {
        Some(OwnedValue::Int(i)) => assert_eq!(i, 7),
        other => panic!("Expected c to be Int(7) but got {:?}", other),
    }
    match m.get("d") {
        Some(OwnedValue::Int(i)) => assert_eq!(i, 30),
        other => panic!("Expected d to be Int(30) but got {:?}", other),
    }
    match m.get("e") {
        Some(OwnedValue::Float(_)) => {}
        other => panic!("Expected e to be Float but got {:?}", other),
    }
    match m.get("f") {
        Some(OwnedValue::Int(i)) => assert_eq!(i, 1),
        other => panic!("Expected f to be Int(1) but got {:?}", other),
    }
}

#[test]
fn execution_test_test_execution_compiled_code_bitwise_operations() {
    let code = "a = 5; b = 3; c = a & b; d = a | b; f = a << 1; g = a >> 1;";
    let mut m = machine(code, 600, 1000);
    step_until_stopped(&mut m);
    match m.get("c") {
        Some(OwnedValue::Int(i)) => assert_eq!(i, 1),
        other => panic!("Expected c to be Int(1) but got {:?}", other),
    }
    match m.get("d") {
        Some(OwnedValue::Int(i)) => assert_eq!(i, 7),
        other => panic!("Expected d to be Int(7) but got {:?}", other),
    }
    match m.get("f") {
        Some(OwnedValue::Int(i)) => assert_eq!(i, 10),
        other => panic!("Expected f to be Int(10) but got {:?}", other),
    }
    match m.get("g") {
        Some(OwnedValue::Int(i)) => assert_eq!(i, 2),
        other => panic!("Expected g to be Int(2) but got {:?}", other),
    }
}

#[test]
fn sequential_test_test_value_creation_and_downcast() {
    let code = "a = 1; b = 2; c = 3; if a != b {d = 2;} d += d; d;";
    let parsed = parse(code).unwrap();
    let compiled = compile(&parsed);
    let name = |s: &str| Instruction::LoadName(s.to_string());
    assert_eq!(
        compiled,
        vec![
            name("a"),
            Instruction::LoadLitInt(1),
            Instruction::Assign,
            name("b"),
            Instruction::LoadLitInt(2),
            Instruction::Assign,
            name("c"),
            Instruction::LoadLitInt(3),
            Instruction::Assign,
            name("a"),
            name("b"),
            Instruction::NotEq,
            Instruction::JmpZ(16),
            name("d"),
            Instruction::LoadLitInt(2),
            Instruction::Assign,
            name("d"),
            name("d"),
            name("d"),
            Instruction::Add,
            Instruction::Assign,
            name("d"),
            Instruction::Pop
        ]
    );
}

const BLOCK: &str = "a = 10;
        a = a + 5;
        if a == 15 {
            a = 2;
        }
        a;";

#[test]
fn compile_test_test_simple_assignment_and_expr() {
    let mut m = machine("a = 10;\n        a = a + 5;\n        a;", 600, 1000);
    step_until_stopped(&mut m);
    assert!(m.machine.state.is_ok(), "Evaluation failed: {:?}", m.machine.state.as_ref().err());
    match m.get("a") {
        Some(OwnedValue::Int(i)) => assert_eq!(i, 15),
        other => panic!("Expected an integer result, but got {:?}", other),
    }
}

#[test]
fn compile_test_test_more() {
    let mut m = machine(BLOCK, 600, 1000);
    step_until_stopped(&mut m);
    assert!(m.machine.state.is_ok(), "Evaluation failed: {:?}", m.machine.state.as_ref().err());
    match m.get("a") {
        Some(OwnedValue::Int(i)) => assert_eq!(i, 2),
        other => panic!("Expected an integer result, but got {:?}", other),
    }
}

#[test]
fn compile_test_test_timeout() {
    let mut m = machine(BLOCK, 600, 15);
    step_until_stopped(&mut m);
    assert!(
        matches!(m.machine.state, Ok(State::Timeout(_))),
        "Expected TimeoutError, but got {:?}",
        m.machine.state
    );
}

#[test]
fn compile_test_test_if_fail_path() {
    let code = "a = 10;
        a = a + 5;
        if a == 14 {
            a = 2;
        }
        a;";
    let mut m = machine(code, 600, 1000);
    step_until_stopped(&mut m);
    assert!(m.machine.state.is_ok(), "Evaluation failed: {:?}", m.machine.state.as_ref().err());
    match m.get("a") {
        Some(OwnedValue::Int(i)) => assert_eq!(i, 15),
        other => panic!("Expected an integer result, but got {:?}", other),
    }
}

#[test]
fn test_while_loop() {
    let code = "a = 10;
        while a > 0 {
            a -= 1;
        }";
    let mut m = machine(code, 600, 1000);
    step_until_stopped(&mut m);
    assert!(m.machine.state.is_ok(), "Evaluation failed: {:?}", m.machine.state.as_ref().err());
    match m.get("a") {
        Some(OwnedValue::Int(i)) => assert_eq!(i, 0),
        other => panic!("Expected an integer result, but got {:?}", other),
    }
}

#[test]
fn test_function() {
    let code = "a = 10;
        fn add(a, b) {
            return a + b;
        }
        while a > 0 {
            a = add(a, -1);
        }";
    let mut m = machine(code, 600, 1000);
    step_until_stopped(&mut m);
    assert!(m.machine.state.is_ok(), "Evaluation failed: {:?}", m.machine.state.as_ref().err());
    match m.get("a") {
        Some(OwnedValue::Int(i)) => assert_eq!(i, 0),
        other => panic!("Expected an integer result, but got {:?}", other),
    }
}

#[test]
fn budget_runs_out_with_timeout_of_one() {
    // Three instructions, a budget of two: the third one is not run.
    let mut m = machine("a = 1;", 600, 2);
    step_until_stopped(&mut m);
    assert_eq!(m.machine.state, Ok(State::Timeout(1)));
    assert_eq!(m.machine.lim, 0);
    assert_eq!(m.get("a"), None);
    m.machine.grant_lim(1);
    assert_eq!(m.machine.state, Ok(State::Ready));
    step_until_stopped(&mut m);
    assert_eq!(m.get("a"), Some(OwnedValue::Int(1)));
}

#[test]
fn each_instruction_costs_one_unit() {
    let mut m = machine("a = 1; b = a + 2;", 600, 100);
    let len = m.machine.instructions.len() as u64;
    let _ = m.sync_run_all(&Floats);
    assert_eq!(m.machine.lim, 100 - len);
    let r = m.machine.run_once();
    assert_eq!(r, Ok(State::Terminated));
    assert_eq!(m.machine.lim, 100 - len);
}

#[test]
fn terminated_machine_stays_terminated() {
    let mut m = machine("a = 1;", 600, 100);
    let _ = m.sync_run_all(&Floats);
    assert_eq!(m.machine.state, Ok(State::Terminated));
    let lim = m.machine.lim;
    assert_eq!(m.machine.run_once(), Ok(State::Terminated));
    assert_eq!(m.machine.lim, lim);
}

#[test]
fn unhandled_recoverable_error_escalates() {
    let mut m = machine("a = 1;", 600, 100);
    m.machine.state = Err(ExecutionError::Recoverable(RecoverableError::TimeoutError(5)));
    let r = m.machine.run_once();
    assert_eq!(
        r,
        Err(ExecutionError::NonRecoverable(
            virtual_exec::error::NonRecoverableError::NonRecoveredRecoverableError(RecoverableError::TimeoutError(5))
        ))
    );
}

#[test]
fn memory_limit_is_enforced() {
    let mut m = machine("a = 1; b = 2; c = 3;", 100, 100);
    let r = m.sync_run_all(&Floats);
    assert_eq!(
        r,
        Err(ExecutionError::NonRecoverable(virtual_exec::error::NonRecoverableError::MemoryError))
    );
    assert!(m.machine.memory.curr() <= m.machine.memory.max());
}

#[test]
fn division_by_zero_is_a_program_error() {
    let mut m = machine("a = 1 % 0;", 600, 100);
    let r = m.sync_run_all(&Floats);
    assert_eq!(
        r,
        Err(ExecutionError::NonRecoverable(virtual_exec::error::NonRecoverableError::DivideByZeroError))
    );
}

#[test]
fn float_arithmetic_goes_through_the_host() {
    let mut m = machine("a = 1.5 + 2.25; b = 1 + 0.5; c = 1 == 1.0; d = 0.1 + 0.2 == 0.3;", 1000, 100);
    let r = m.sync_run_all(&Floats);
    assert!(r.is_ok(), "{:?}", r);
    assert_eq!(m.get("a"), Some(OwnedValue::Float(3.75f64.to_bits())));
    assert_eq!(m.get("b"), Some(OwnedValue::Float(1.5f64.to_bits())));
    assert_eq!(m.get("c"), Some(OwnedValue::Bool(true)));
    assert_eq!(m.get("d"), Some(OwnedValue::Bool(false)));
}

#[test]
fn integer_arithmetic_wraps() {
    let mut m = machine("a = 9223372036854775807 + 1; b = -7 % 3; c = 1 << 65;", 1000, 100);
    let r = m.sync_run_all(&Floats);
    assert!(r.is_ok(), "{:?}", r);
    assert_eq!(m.get("a"), Some(OwnedValue::Int(i64::MIN)));
    assert_eq!(m.get("b"), Some(OwnedValue::Int(-1)));
    assert_eq!(m.get("c"), Some(OwnedValue::Int(2)));
}

#[test]
fn logical_operators_yield_the_right_operand_when_it_runs() {
    let mut m = machine("c = 1 && 2; d = 0 || 5;", 1000, 100);
    let r = m.sync_run_all(&Floats);
    assert!(r.is_ok(), "{:?}", r);
    assert_eq!(m.get("c"), Some(OwnedValue::Int(2)));
    assert_eq!(m.get("d"), Some(OwnedValue::Int(5)));
}

#[test]
fn undefined_variable_is_reported() {
    let mut m = machine("a = b;", 1000, 100);
    let r = m.sync_run_all(&Floats);
    assert_eq!(
        r,
        Err(ExecutionError::NonRecoverable(virtual_exec::error::NonRecoverableError::ReferenceNotExistError(
            "b".to_string()
        )))
    );
}

fn run_err(code: &str) -> Result<State, ExecutionError> {
    let mut m = machine(code, 2000, 200);
    m.sync_run_all(&Floats)
}

#[test]
fn operator_on_unsupported_types_is_reported() {
    assert_eq!(
        run_err("a = \"x\" - 1;"),
        Err(ExecutionError::NonRecoverable(virtual_exec::error::NonRecoverableError::UndefinedOperatorMethodError))
    );
}

#[test]
fn comparing_unsupported_types_gives_false() {
    let mut m = machine("a = \"x\" == 1; b = \"x\" != 1;", 2000, 200);
    assert_eq!(m.sync_run_all(&Floats), Ok(State::Terminated));
    assert_eq!(m.get("a"), Some(OwnedValue::Bool(false)));
    assert_eq!(m.get("b"), Some(OwnedValue::Bool(true)));
}

#[test]
fn string_concatenation_with_plus() {
    let mut m = machine("a = \"ab\" + \"c\";", 2000, 200);
    let r = m.sync_run_all(&Floats);
    assert!(r.is_ok(), "{:?}", r);
    assert_eq!(m.get("a"), Some(OwnedValue::String("abc".to_string())));
}

#[test]
fn calling_a_non_function_is_reported() {
    let r = run_err("a = 1; a();");
    assert!(r.is_err(), "{:?}", r);
}

#[test]
fn division_of_integers_yields_a_float() {
    let mut m = machine("a = 7 / 2;", 2000, 200);
    assert_eq!(m.sync_run_all(&Floats), Ok(State::Terminated));
    assert_eq!(m.get("a"), Some(OwnedValue::Float(3.5f64.to_bits())));
}

#[test]
fn integer_division_by_zero_is_reported() {
    assert_eq!(
        run_err("a = 7 / 0;"),
        Err(ExecutionError::NonRecoverable(virtual_exec::error::NonRecoverableError::DivideByZeroError))
    );
}

#[test]
fn recursion_through_functions() {
    let code = "fn fact(n) { if n <= 1 { return 1; } return n * fact(n - 1); } r = fact(10);";
    let mut m = machine(code, 100000, 10000);
    let r = m.sync_run_all(&Floats);
    assert_eq!(r, Ok(State::Terminated));
    assert_eq!(m.get("r"), Some(OwnedValue::Int(3628800)));
}

#[test]
fn unary_operators() {
    let mut m = machine("a = -5; b = !true; c = -(2 - 5);", 2000, 200);
    assert_eq!(m.sync_run_all(&Floats), Ok(State::Terminated));
    assert_eq!(m.get("a"), Some(OwnedValue::Int(-5)));
    assert_eq!(m.get("b"), Some(OwnedValue::Bool(false)));
    assert_eq!(m.get("c"), Some(OwnedValue::Int(3)));
    assert_eq!(parse("c = +3;").err(), Some(virtual_exec::lexer::ParseError::SyntaxError(2)));
}

#[test]
fn prefix_operators_bind_tightest() {
    let mut m = machine("a = -2 + 5; b = !false == false; c = -2 * 3 + 1;", 2000, 200);
    assert_eq!(m.sync_run_all(&Floats), Ok(State::Terminated));
    assert_eq!(m.get("a"), Some(OwnedValue::Int(3)));
    assert_eq!(m.get("b"), Some(OwnedValue::Bool(false)));
    assert_eq!(m.get("c"), Some(OwnedValue::Int(-5)));
}

#[test]
fn loaded_code_resumes_a_terminated_run() {
    let mut m = machine("a = 1;", 2000, 200);
    assert_eq!(m.sync_run_all(&Floats), Ok(State::Terminated));
    let more = virtual_exec::compile::stmts_inst(&parse("a = a + 1;").unwrap().body, m.machine.instructions.len() as u64);
    assert!(m.machine.load(more));
    assert_eq!(m.sync_run_all(&Floats), Ok(State::Terminated));
    assert_eq!(m.get("a"), Some(OwnedValue::Int(2)));
    assert!(!m.machine.load(vec![]));
    assert_eq!(m.machine.state, Ok(State::Terminated));
}

#[test]
fn run_all_runs_until_the_program_ends() {
    let code = "a = 1; b = 2; c = 3; if a != b {d = 2;} d += d; d;";
    let mut m = machine(code, 600, 100);
    assert_eq!(m.run_all(), Ok(State::Terminated));
    assert_eq!(m.get("a"), Some(OwnedValue::Int(1)));
    assert_eq!(m.get("d"), Some(OwnedValue::Int(4)));
}

#[test]
fn run_all_stops_at_the_budget() {
    let code = "a = 10;
        fn add(a, b) {
            return a + b;
        }
        while a > 0 {
            a = add(a, -1);
        }";
    let mut m = machine(code, 600, 50);
    assert_eq!(m.run_all(), Ok(State::Timeout(1)));
    assert_eq!(m.machine.lim, 0);
    m.machine.grant_lim(1000);
    assert_eq!(m.run_all(), Ok(State::Terminated));
    assert_eq!(m.get("a"), Some(OwnedValue::Int(0)));
}

#[test]
fn run_all_stops_for_float_work() {
    let mut m = machine("a = 1.5;", 600, 50);
    let r = m.run_all();
    assert!(matches!(r, Ok(State::FloatInput(_))), "{:?}", r);
}

#[test]
fn a_copied_machine_runs_on_independently() {
    let mut m = machine("a = 1; b = a + 1; c = b * 3;", 2000, 3);
    assert_eq!(m.sync_run_all(&Floats), Ok(State::Timeout(1)));
    let saved = m.machine.clone();
    assert_eq!(saved.memory.curr(), m.machine.memory.curr());
    assert_eq!(saved.stack.len(), m.machine.stack.len());
    m.machine.grant_lim(100);
    assert_eq!(m.sync_run_all(&Floats), Ok(State::Terminated));
    m.machine = saved;
    assert!(m.get("c").is_none());
    m.machine.grant_lim(100);
    assert_eq!(m.sync_run_all(&Floats), Ok(State::Terminated));
    assert_eq!(m.get("b"), Some(OwnedValue::Int(2)));
    assert_eq!(m.get("c"), Some(OwnedValue::Int(6)));
}
