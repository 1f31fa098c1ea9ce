use virtual_exec::error::MemoryError;
use virtual_exec::mapping::Mapping;
use virtual_exec::mem::{MemoryAllocation, Value};
use virtual_exec::ops::{binop, BinOp, FloatRequest, Num, OpResult};
use virtual_exec::recurse::{RecurseConfig, RecursionError};

#[test]
fn test_mem_alloc() {
    let mut alloc = MemoryAllocation::new(100);
    let _obj_1 = alloc.allocate(Value::MemoryChunk(50)).unwrap();
    assert_eq!(alloc.curr(), 50);
    let _obj_2 = alloc.allocate(Value::MemoryChunk(50)).unwrap();
    assert_eq!(alloc.curr(), 100);
    assert_eq!(
        alloc.allocate(Value::MemoryChunk(1)).is_err(),
        true,
        "Memory allocation should fail as it is allocating the 101th slot when limit is 100"
    );
}

#[test]
fn test_mem_dealloc() {
    let mut alloc = MemoryAllocation::new(100);
    let obj_1 = alloc.allocate(Value::MemoryChunk(50)).unwrap();
    assert_eq!(alloc.curr(), 50);
    let _obj_2 = alloc.allocate(Value::MemoryChunk(50)).unwrap();
    assert_eq!(alloc.curr(), 100);
    assert!(alloc.free(obj_1));
    assert_eq!(alloc.curr(), 50);
    let tmp = alloc.allocate(Value::MemoryChunk(50));
    assert_eq!(tmp.is_ok(), true, "Memory allocation should access as only 50 slot used as original obj_1 is deallocated");
    assert!(alloc.free(tmp.unwrap()));
    let tmp2 = alloc.allocate(Value::MemoryChunk(50));
    assert_eq!(
        tmp2.is_ok(),
        true,
        "Memory allocation should access as only 50 slot used as original obj_1 and temporary object is deallocated"
    );
    assert!(alloc.free(tmp2.unwrap()));
    assert_eq!(alloc.curr(), 50);
}

#[test]
fn test_mem_change_alloc() {
    let mut alloc = MemoryAllocation::new(100);
    let obj_1 = alloc.allocate(Value::MemoryChunk(50)).unwrap();
    let obj_2 = alloc.allocate(Value::MemoryChunk(50)).unwrap();
    assert_eq!(alloc.curr(), 100);
    alloc.set_value(obj_1, Value::MemoryChunk(60));
    assert_eq!(
        alloc.change_alloc(obj_1).is_err(),
        true,
        "Memory extend shouldn't be possible when there are no memory remaining"
    );
    alloc.set_value(obj_1, Value::MemoryChunk(50));
    assert!(alloc.free(obj_1));
    assert_eq!(alloc.curr(), 50);
    alloc.set_value(obj_2, Value::MemoryChunk(100));
    assert_eq!(
        alloc.change_alloc(obj_2).is_ok(),
        true,
        "Memory extend should be possible as there are 100 memory slot in total"
    );
    assert_eq!(alloc.curr(), 100);
}

#[test]
fn value_sizes_follow_the_accounting() {
    let mut alloc = MemoryAllocation::new(1000);
    alloc.allocate(Value::Int(1)).unwrap();
    assert_eq!(alloc.curr(), 40);
    alloc.allocate(Value::Bool(true)).unwrap();
    assert_eq!(alloc.curr(), 73);
    alloc.allocate(Value::String("héllo".to_string())).unwrap();
    assert_eq!(alloc.curr(), 73 + 6 + 32);
    alloc.allocate(Value::Collection(vec![0, 1])).unwrap();
    assert_eq!(alloc.curr(), 111 + 2 * 8 + 16 + 32 + 32);
    assert_eq!(alloc.obj_count(), 4);
}

#[test]
fn collect_frees_unreachable_cells_only() {
    let mut alloc = MemoryAllocation::new(1000);
    let a = alloc.allocate(Value::Int(1)).unwrap();
    let b = alloc.allocate(Value::Int(2)).unwrap();
    let list = alloc.allocate(Value::Collection(vec![a])).unwrap();
    assert_eq!(alloc.obj_count(), 3);
    alloc.collect(&vec![list]);
    assert_eq!(alloc.obj_count(), 2);
    assert!(matches!(alloc.get(a), Value::Int(1)));
    assert!(!alloc.free(b));
    assert_eq!(alloc.curr(), 40 + 8 + 16 + 32 + 32);
}

#[test]
fn a_referenced_cell_cannot_be_freed() {
    let mut alloc = MemoryAllocation::new(1000);
    let a = alloc.allocate(Value::Int(1)).unwrap();
    let _list = alloc.allocate(Value::Collection(vec![a])).unwrap();
    assert!(!alloc.free(a));
    assert_eq!(alloc.obj_count(), 2);
}

#[test]
fn check_alloc_reports_room() {
    let alloc = MemoryAllocation::new(10);
    assert!(alloc.check_alloc(10));
    assert!(!alloc.check_alloc(11));
    assert_eq!(alloc.check_alloc_err(11), Err(MemoryError));
}

#[test]
fn recurse_config_defaults() {
    let c = RecurseConfig::default();
    assert_eq!(c.recurse_depth, Some(256));
    assert_eq!(c.inst_limit, Some(1048576));
    assert_eq!(c.mem_limit, Some(1048576));
}

#[test]
fn recursion_depth_is_limited() {
    let config = RecurseConfig { recurse_depth: Some(2), inst_limit: None, mem_limit: None };
    let r0 = config.as_lim();
    let r1 = r0.incr().unwrap();
    let r2 = r1.incr().unwrap();
    assert_eq!(r2.curr_depth, 2);
    assert_eq!(r2.incr().err(), Some(RecursionError));
    let unlimited = RecurseConfig { recurse_depth: None, inst_limit: None, mem_limit: None }.as_lim();
    assert_eq!(unlimited.incr().unwrap().curr_depth, 1);
}

#[test]
fn work_and_memory_requests() {
    let mut r = RecurseConfig::default().as_lim();
    assert_eq!(r.consume_inst(5), Ok(()));
    r.curr_inst = 2_000_000;
    assert_eq!(r.consume_inst(5), Err(RecursionError));
    r.curr_inst = u64::MAX;
    r.config.inst_limit = None;
    assert_eq!(r.consume_inst(1), Err(RecursionError));
    assert_eq!(r.consume_inst(0), Ok(()));
    let r = RecurseConfig::default().as_lim();
    let alloc = MemoryAllocation::new(10);
    assert_eq!(r.consume_mem(3, &alloc), Ok(()));
    let mut full = MemoryAllocation::new(10);
    full.allocate(Value::MemoryChunk(10)).unwrap();
    let mut r2 = r;
    r2.curr_mem = 1;
    assert_eq!(r2.consume_mem(3, &full), Err(RecursionError));
}

fn texts(mem: &MemoryAllocation) -> Vec<Option<String>> {
    mem.cells
        .iter()
        .map(|c| match &c.value {
            Value::Float(bits) => Some(format!("{}", f64::from_bits(*bits))),
            Value::Error(e) => Some(format!("{:?}", e)),
            _ => None,
        })
        .collect()
}

#[test]
fn values_render_as_text() {
    let mut mem = MemoryAllocation::new(100000);
    let i = mem.allocate(Value::Int(-42)).unwrap();
    let s = mem.allocate(Value::String("hi".to_string())).unwrap();
    let nil = mem.allocate(Value::Nil).unwrap();
    let t = mem.allocate(Value::Bool(true)).unwrap();
    let inner = mem.allocate(Value::Collection(vec![t])).unwrap();
    let f = mem.allocate(Value::Float(2.5f64.to_bits())).unwrap();
    let list = mem.allocate(Value::Collection(vec![i, s, nil, inner, f])).unwrap();
    let mut m = Mapping::new();
    m.insert("a".to_string(), list);
    m.insert("b".to_string(), i);
    let obj = mem.allocate(Value::Object(m)).unwrap();
    let empty = mem.allocate(Value::Collection(vec![])).unwrap();
    let dptr = mem.allocate(Value::DPtr(4, 2)).unwrap();
    let r = RecurseConfig::default().as_lim();
    let tx = texts(&mem);
    assert_eq!(mem.to_string_safe(list, r, &tx), Ok("[-42, \"hi\", None, [true], 2.5]".to_string()));
    assert_eq!(mem.to_string_safe(obj, r, &tx), Ok("{\"a\": [-42, \"hi\", None, [true], 2.5], \"b\": -42}".to_string()));
    assert_eq!(mem.to_string_safe(empty, r, &tx), Ok("[]".to_string()));
    assert_eq!(mem.to_string_safe(dptr, r, &tx), Ok("DynFuncPtr(loc: 4, arg_len: 2)".to_string()));
}

#[test]
fn rendering_stops_at_the_depth_limit() {
    let mut mem = MemoryAllocation::new(100000);
    let one = mem.allocate(Value::Int(1)).unwrap();
    let l1 = mem.allocate(Value::Collection(vec![one])).unwrap();
    let l2 = mem.allocate(Value::Collection(vec![l1])).unwrap();
    let tx = texts(&mem);
    let shallow = RecurseConfig { recurse_depth: Some(1), inst_limit: None, mem_limit: None }.as_lim();
    assert_eq!(mem.to_string_safe(l1, shallow, &tx), Ok("[1]".to_string()));
    assert_eq!(mem.to_string_safe(l2, shallow, &tx), Err(RecursionError));
}

#[test]
fn rendering_a_cycle_fails_instead_of_looping() {
    let mut mem = MemoryAllocation::new(100000);
    let a = mem.allocate(Value::Collection(vec![])).unwrap();
    mem.set_value(a, Value::Collection(vec![a]));
    let tx = texts(&mem);
    assert_eq!(mem.to_string_safe(a, RecurseConfig::default().as_lim(), &tx), Err(RecursionError));
}

#[test]
fn base_test_test_value_creation_and_downcast() {
    let mut alloc = MemoryAllocation::new(100);
    let int = alloc.allocate(Value::Int(42)).unwrap();
    let extracted_int = match alloc.get(int) {
        Value::Int(i) => *i,
        other => panic!("Downcast to Int failed: {:?}", other),
    };
    assert_eq!(extracted_int, 42);
}

/// Applies a float request the way a host does.
fn host_binary(req: &FloatRequest) -> f64 {
    let as_f = |n: &Num| match n {
        Num::Int(i) => *i as f64,
        Num::Float(b) => f64::from_bits(*b),
    };
    match req {
        FloatRequest::Binary(BinOp::Add, a, b) => as_f(a) + as_f(b),
        other => panic!("unexpected request {:?}", other),
    }
}

#[test]
fn test_op_add_functionality() {
    let result_int = match binop(BinOp::Add, &Value::Int(15), &Value::Int(27)) {
        OpResult::Value(v) => v,
        other => panic!("op_add for Int+Int should succeed: {:?}", other),
    };
    assert!(matches!(result_int, Value::Int(42)));

    let lhs_float = Value::Float(1.5f64.to_bits());
    let rhs_float = Value::Float(2.25f64.to_bits());
    let result_float = match binop(BinOp::Add, &lhs_float, &rhs_float) {
        OpResult::Host(req) => host_binary(&req),
        other => panic!("op_add for Float+Float should go to the host: {:?}", other),
    };
    assert!((result_float - 3.75).abs() < f64::EPSILON);

    let result_mixed = match binop(BinOp::Add, &Value::Int(15), &lhs_float) {
        OpResult::Host(req) => host_binary(&req),
        other => panic!("op_add for Int+Float should go to the host: {:?}", other),
    };
    assert!(result_mixed - 16.5 < f64::EPSILON);
}
