use std::cell::RefCell;
use virtual_exec::compile::compile;
use virtual_exec::error::{ExecutionError, NonRecoverableError, TypeConversionError};
use virtual_exec::exec::{InstStateMachine, State};
use virtual_exec::machine::{basic, FloatUnit, FnExtern, Machine, MethodResolver, OwnedValue, StdFn};
use virtual_exec::mem::Value;
use virtual_exec::ops::{FloatRequest, Scalar};
use virtual_exec::parser::parse;

/// No floating-point work is expected in these programs.
struct NoFloats;

impl FloatUnit for NoFloats {
    fn compute(&self, _req: &FloatRequest) -> Result<Scalar, TypeConversionError> {
        Err(TypeConversionError::InvalidTypeError)
    }
}

#[test]
fn test_arr() {
    let code = "arr = create_array(); push_array(arr, 100); value = arr_get_from_idx(arr, 0); size = arr_get_len(arr); value2 = pop_array(arr);";
    let compiled = compile(&parse(code).unwrap());
    let mut machine = Machine::new(compiled, 2000, 200, vec![basic()]).unwrap();
    match machine.sync_run_all(&NoFloats) {
        Ok(State::Ready) => {}
        Ok(reason) => println!("state: {:?}", reason),
        Err(e) => println!("err: {:?}", e),
    }
    let value = machine.get("value").expect("Variable `value` should exist");
    assert_eq!(value, OwnedValue::Int(100));
    let value2 = machine.get("value2").expect("Variable `value2` should exist");
    assert_eq!(value2, OwnedValue::Int(100));
    let size = machine.get("size").expect("Variable `size` should exist");
    assert_eq!(size, OwnedValue::Int(1));
}

#[test]
fn test_mem() {
    let code = "i = 0; a = \"a\"; while i < 18 { a = concat(a, a); i+=1; }";
    let compiled = compile(&parse(code).unwrap());
    for _ in 0..10000 {
        let mut machine = Machine::new(compiled.clone(), 1 << 19, 500, vec![basic()]).unwrap();
        match machine.sync_run_all(&NoFloats) {
            Ok(State::Ready) | Ok(State::Terminated) => {}
            Ok(reason) => println!("state: {:?}", reason),
            Err(e) => {
                println!("err: {:?}", e);
                if let ExecutionError::NonRecoverable(NonRecoverableError::MemoryError) = e {
                    println!("{}/{}", machine.machine.memory.curr(), machine.machine.memory.max());
                }
            }
        }
    }
}

/// Host functions of these tests: the standard ones plus printing into a buffer.
enum Host {
    Std(StdFn),
    Print(RefCell<String>, bool),
}

impl FnExtern for Host {
    fn get_size(&self) -> usize {
        match self {
            Host::Std(f) => f.get_size(),
            Host::Print(_, _) => 1,
        }
    }

    fn fn_extern_sync(&self, machine: &mut InstStateMachine, values: Vec<usize>) -> Result<usize, ExecutionError> {
        match self {
            Host::Std(f) => f.fn_extern_sync(machine, values),
            Host::Print(out, newline) => {
                let text = match machine.memory.get(values[0]) {
                    Value::String(s) => s.clone(),
                    Value::Nil => "None".to_string(),
                    Value::Int(i) => i.to_string(),
                    other => format!("{:?}", other),
                };
                out.borrow_mut().push_str(&text);
                if *newline {
                    out.borrow_mut().push('\n');
                }
                machine.new_result(Value::Nil)
            }
        }
    }
}

fn resolvers() -> Vec<MethodResolver<Host>> {
    let std = basic().funcs.into_iter().map(|(n, f)| (n, Host::Std(f))).collect();
    let sys = vec![
        ("print".to_string(), Host::Print(RefCell::new(String::new()), false)),
        ("println".to_string(), Host::Print(RefCell::new(String::new()), true)),
    ];
    vec![MethodResolver::new(std), MethodResolver::new(sys)]
}

#[test]
fn print_writes_through_the_host() {
    let code = "a = \"test\n\"; print(a); b = None; println(b);";
    let compiled = compile(&parse(code).unwrap());
    let mut machine = Machine::new(compiled, 2000, 200, resolvers()).unwrap();
    let r = machine.sync_run_all(&NoFloats);
    assert_eq!(r, Ok(State::Terminated));
    let printed = match &machine.resolvers[1].funcs[0].1 {
        Host::Print(out, _) => out.borrow().clone(),
        _ => unreachable!(),
    };
    let printed_ln = match &machine.resolvers[1].funcs[1].1 {
        Host::Print(out, _) => out.borrow().clone(),
        _ => unreachable!(),
    };
    assert_eq!(printed, "test\n");
    assert_eq!(printed_ln, "None\n");
}

#[test]
fn concat_joins_strings() {
    let code = "a = concat(\"ab\", \"cd\");";
    let compiled = compile(&parse(code).unwrap());
    let mut machine = Machine::new(compiled, 2000, 200, vec![basic()]).unwrap();
    assert_eq!(machine.sync_run_all(&NoFloats), Ok(State::Terminated));
    assert_eq!(machine.get("a"), Some(OwnedValue::String("abcd".to_string())));
}

#[test]
fn array_index_out_of_range_is_reported() {
    let code = "arr = create_array(); v = arr_get_from_idx(arr, 3);";
    let compiled = compile(&parse(code).unwrap());
    let mut machine = Machine::new(compiled, 2000, 200, vec![basic()]).unwrap();
    let r = machine.sync_run_all(&NoFloats);
    assert!(r.is_err(), "{:?}", r);
}

#[test]
fn pop_from_empty_array_is_reported() {
    let code = "arr = create_array(); v = pop_array(arr);";
    let compiled = compile(&parse(code).unwrap());
    let mut machine = Machine::new(compiled, 2000, 200, vec![basic()]).unwrap();
    let r = machine.sync_run_all(&NoFloats);
    assert!(r.is_err(), "{:?}", r);
}

#[test]
fn wrong_argument_count_to_host_function_is_reported() {
    let code = "arr = create_array(1);";
    let compiled = compile(&parse(code).unwrap());
    let mut machine = Machine::new(compiled, 2000, 200, vec![basic()]).unwrap();
    let r = machine.sync_run_all(&NoFloats);
    assert_eq!(r, Err(ExecutionError::NonRecoverable(NonRecoverableError::IncorrectArgumentCountError)));
}

#[test]
fn basic_resolver_lists_the_standard_functions() {
    let names: Vec<String> = basic().funcs.iter().map(|(n, _)| n.clone()).collect();
    assert_eq!(
        names,
        vec!["push_array", "pop_array", "arr_get_from_idx", "create_array", "arr_get_len", "concat"]
    );
}
