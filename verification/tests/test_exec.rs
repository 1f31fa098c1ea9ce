use virtual_exec::compile::compile;
use virtual_exec::error::{ExecutionError, NonRecoverableError, RecoverableError, TypeConversionError};
use virtual_exec::exec::{InstStateMachine, State};
use virtual_exec::machine::{FloatUnit, FnExtern, Machine, MethodResolver, OwnedValue, StdFn};
use virtual_exec::mem::Value;
use virtual_exec::ops::{BinOp, FloatRequest, Num, Scalar};
use virtual_exec::parser::parse;

struct Floats;

fn num(n: &Num) -> f64 {
    match n {
        Num::Int(i) => *i as f64,
        Num::Float(b) => f64::from_bits(*b),
    }
}

impl FloatUnit for Floats {
    fn compute(&self, req: &FloatRequest) -> Result<Scalar, TypeConversionError> {
        match req {
            FloatRequest::Literal(s) => s
                .parse::<f64>()
                .map(|f| Scalar::Float(f.to_bits()))
                .map_err(|_| TypeConversionError::InvalidTypeError),
            FloatRequest::Binary(op, a, b) => {
                let (x, y) = (num(a), num(b));
                let zero = matches!(b, Num::Int(0)) || y == 0.0;
                match op {
                    BinOp::Add => Ok(Scalar::Float((x + y).to_bits())),
                    BinOp::Sub => Ok(Scalar::Float((x - y).to_bits())),
                    BinOp::Mul => Ok(Scalar::Float((x * y).to_bits())),
                    BinOp::Div if zero => Err(TypeConversionError::DivideByZeroError),
                    BinOp::Div => Ok(Scalar::Float((x / y).to_bits())),
                    BinOp::Mod if zero => Err(TypeConversionError::DivideByZeroError),
                    BinOp::Mod => Ok(Scalar::Float((x % y).to_bits())),
                    BinOp::Eq => Ok(Scalar::Bool((x - y).abs() < f64::EPSILON)),
                    BinOp::Ne => Ok(Scalar::Bool((x - y).abs() >= f64::EPSILON)),
                    BinOp::Lt => Ok(Scalar::Bool(x < y)),
                    BinOp::Le => Ok(Scalar::Bool(x <= y)),
                    BinOp::Gt => Ok(Scalar::Bool(x > y)),
                    BinOp::Ge => Ok(Scalar::Bool(x >= y)),
                    _ => Err(TypeConversionError::UndefinedOperatorMethodError),
                }
            }
        }
    }
}

fn machine(code: &str, mem: usize, lim: u64) -> Machine<StdFn> {
    let compiled = compile(&parse(code).unwrap());
    println!("{:?}", compiled);
    Machine::new(compiled, mem, lim, vec![]).unwrap()
}

#[test]
fn test_simple_assignment() {
    let code = "a = 1; b = 2; c = 3; if a != b {d = 2;} d += d; d;";
    let mut machine = machine(code, 600, 100);
    match machine.sync_run_all(&Floats) {
        Ok(State::Ready) => {}
        Ok(reason) => println!("state: {:?}", reason),
        Err(e) => println!("err: {:?}", e),
    }
    assert_eq!(machine.get("a"), Some(OwnedValue::Int(1)));
    assert_eq!(machine.get("d"), Some(OwnedValue::Int(4)));
}

#[test]
fn test_fn() {
    let code = "a = 10;
        fn add(a, b) {
            return a + b;
        }
        while a > 0 {
            a = add(a, -1);
        }";
    let mut machine = machine(code, 600, 1000);
    match machine.sync_run_all(&Floats) {
        Ok(State::Ready) => {}
        Ok(reason) => println!("state: {:?}", reason),
        Err(e) => println!("err: {:?}", e),
    }
    assert_eq!(machine.get("a"), Some(OwnedValue::Int(0)));
}

#[test]
fn test_incorrect_argument_count() {
    let code = "a = 10;
        fn add(a, b) {
            return a + b;
        }
        while a > 0 {
            a = add(a, -1, -2);
        }";
    let mut machine = machine(code, 1000, 1000);
    match machine.sync_run_all(&Floats) {
        Ok(State::Ready) => {}
        Ok(reason) => println!("state: {:?}", reason),
        Err(e) => println!("err: {:?}", e),
    }
    assert_eq!(machine.machine.state.is_err(), true, "Should be error with incorrect argument count");
    assert_eq!(
        machine.machine.state.err(),
        Some(ExecutionError::NonRecoverable(NonRecoverableError::IncorrectArgumentCountError)),
        "Should be incorrect amount of argument"
    );
}

struct CostlyFn(std::cell::Cell<u64>);

impl FnExtern for CostlyFn {
    fn get_size(&self) -> usize {
        2
    }

    fn fn_extern_sync(&self, machine: &mut InstStateMachine, _values: Vec<usize>) -> Result<usize, ExecutionError> {
        self.0.set(self.0.get() + 1);
        machine.reduce_lim(50).map_err(ExecutionError::Recoverable)?;
        machine.new_result(Value::Int(42))
    }
}

#[test]
fn test_extern_timeout_replay() {
    let resolver = MethodResolver::new(vec![("costly".to_string(), CostlyFn(std::cell::Cell::new(0)))]);
    let code = "a = costly(1, 2);";
    let compiled = compile(&parse(code).unwrap());
    let mut machine = Machine::new(compiled, 1000, 10, vec![resolver]).unwrap();

    let result = machine.sync_run_all(&Floats);
    assert!(
        matches!(result, Err(ExecutionError::Recoverable(RecoverableError::TimeoutError(50)))),
        "Extern function requiring more budget than remaining should report a recoverable timeout: {:?}",
        result
    );
    assert_eq!(machine.resolvers[0].funcs[0].1 .0.get(), 1);

    machine.machine.grant_lim(100);
    let result = machine.sync_run_all(&Floats);
    assert_eq!(result.is_ok(), true, "Execution should complete after granting more budget: {:?}", result);
    assert_eq!(machine.resolvers[0].funcs[0].1 .0.get(), 2, "Extern function should be replayed after resume");
    assert_eq!(machine.get("a"), Some(OwnedValue::Int(42)));
}
