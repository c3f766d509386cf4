use scrappy::decode::parse;
use scrappy::executor::Signal;
use scrappy::host::{HostFunc, HostFunction, Supplied};
use scrappy::instance::{Func, FuncKind};
use scrappy::instr::Instr;
use scrappy::memory::{Memory, Table, PAGE_SIZE};
use scrappy::types::Limits;
use scrappy::{FuncType, ModuleInstance, TrapCode, ValType, Value, WasmError};
use std::sync::Arc;

fn leb(v: u32) -> Vec<u8> {
    let mut v = v;
    let mut out = Vec::new();
    loop {
        let b = (v & 0x7F) as u8;
        v >>= 7;
        if v == 0 {
            out.push(b);
            return out;
        }
        out.push(b | 0x80);
    }
}

fn section(id: u8, body: &[u8]) -> Vec<u8> {
    let mut out = vec![id];
    out.extend(leb(body.len() as u32));
    out.extend_from_slice(body);
    out
}

fn list(items: &[Vec<u8>]) -> Vec<u8> {
    let mut out = leb(items.len() as u32);
    for i in items {
        out.extend_from_slice(i);
    }
    out
}

fn ty(params: &[u8], results: &[u8]) -> Vec<u8> {
    let mut out = vec![0x60];
    out.extend(leb(params.len() as u32));
    out.extend_from_slice(params);
    out.extend(leb(results.len() as u32));
    out.extend_from_slice(results);
    out
}

fn body(locals: &[u8], code: &[u8]) -> Vec<u8> {
    let mut b = locals.to_vec();
    b.extend_from_slice(code);
    let mut out = leb(b.len() as u32);
    out.extend(b);
    out
}

const I32: u8 = 0x7F;
const I64: u8 = 0x7E;
const F32: u8 = 0x7D;

/// A module with one memory page and one function `f` of the given signature.
fn one(params: &[u8], results: &[u8], code: &[u8]) -> ModuleInstance {
    several(&[ty(params, results)], &[0], &[body(&[0], code)], &[])
}

fn several(
    types: &[Vec<u8>],
    funcs: &[u8],
    bodies: &[Vec<u8>],
    more: &[Vec<u8>],
) -> ModuleInstance {
    let bytes = binary(types, funcs, bodies, more);
    let m = parse(&bytes).unwrap_or_else(|e| panic!("{:?}", e));
    match ModuleInstance::instantiate(m, vec![]) {
        Ok((i, None)) => i,
        Ok(_) => panic!("a start function"),
        Err(e) => panic!("{:?}", e),
    }
}

fn binary(types: &[Vec<u8>], funcs: &[u8], bodies: &[Vec<u8>], more: &[Vec<u8>]) -> Vec<u8> {
    let mut out = vec![0x00, 0x61, 0x73, 0x6D, 0x01, 0x00, 0x00, 0x00];
    out.extend(section(1, &list(types)));
    let idx: Vec<Vec<u8>> = funcs.iter().map(|f| vec![*f]).collect();
    out.extend(section(3, &list(&idx)));
    out.extend(section(5, &[1, 0x01, 1, 3]));
    out.extend(section(7, &[1, 1, b'f', 0x00, 0]));
    out.extend(section(10, &list(bodies)));
    for m in more {
        out.extend_from_slice(m);
    }
    out
}

fn run(inst: &mut ModuleInstance, args: &[Value]) -> Result<Vec<Value>, WasmError> {
    let mut s = inst.call_export("f", args)?;
    loop {
        s = match inst.drive(s, 1000) {
            Signal::Done(v) => return Ok(v),
            Signal::Trap(e) => return Err(e),
            Signal::Ready(e) => Signal::Ready(e),
            Signal::Float { .. } => panic!("a float"),
            Signal::Host { .. } => panic!("a host function"),
            Signal::Dangling => panic!("dangling"),
        };
    }
}

fn eval(params: &[u8], results: &[u8], code: &[u8], args: &[Value]) -> Result<Vec<Value>, WasmError> {
    run(&mut one(params, results, code), args)
}

fn i32_op(op: u8, a: i32, b: i32) -> Result<Vec<Value>, WasmError> {
    eval(
        &[I32, I32],
        &[I32],
        &[0x20, 0, 0x20, 1, op, 0x0B],
        &[Value::I32(a), Value::I32(b)],
    )
}

fn i64_op(op: u8, a: i64, b: i64) -> Result<Vec<Value>, WasmError> {
    eval(
        &[I64, I64],
        &[I64],
        &[0x20, 0, 0x20, 1, op, 0x0B],
        &[Value::I64(a), Value::I64(b)],
    )
}

#[test]
fn values_know_their_types() {
    assert_eq!(Value::default_for(ValType::I64), Value::I64(0));
    assert_eq!(Value::default_for(ValType::F32).ty(), ValType::F32);
    assert_eq!(Value::I32(3).as_i32(), Some(3));
    assert_eq!(Value::I32(3).as_i64(), None);
    assert_eq!(Value::I64(4).as_i64(), Some(4));
    assert_eq!(Value::F32(5).as_f32b(), Some(5));
    assert_eq!(Value::F64(6).as_f64b(), Some(6));
    assert_eq!(Value::F64(6).as_f32b(), None);
    assert!(Value::F32(1).is_true());
    assert!(!Value::I64(0).is_true());
}

#[test]
fn memory_loads_what_was_stored() {
    let mut m = Memory::new(&Limits { min: 1, max: Some(2) });
    assert_eq!(m.size_pages(), 1);
    assert_eq!(m.store_u32(8, 0x8765_4321), Ok(()));
    assert_eq!(m.load_u32(8), Ok(0x8765_4321));
    assert_eq!(m.load_u8(8), Ok(0x21));
    assert_eq!(m.load_u16(10), Ok(0x8765));
    assert_eq!(m.load_u64(8), Ok(0x8765_4321));
    assert_eq!(m.store_u64(100, u64::MAX - 1), Ok(()));
    assert_eq!(m.load_u64(100), Ok(u64::MAX - 1));
    assert_eq!(m.store_u16(0, 0xABCD), Ok(()));
    assert_eq!(m.data[0], 0xCD);
    assert_eq!(m.data[1], 0xAB);
    assert_eq!(m.store_u8(65535, 7), Ok(()));
    assert_eq!(m.load_u8(65535), Ok(7));
    let bad = Err(WasmError::Trap(TrapCode::MemoryOutOfBounds));
    assert_eq!(m.store_u16(65535, 1), bad);
    assert_eq!(m.load_u8(65535), Ok(7));
    assert_eq!(m.load_u32(65533), Err(WasmError::Trap(TrapCode::MemoryOutOfBounds)));
    assert_eq!(m.load_u8(u32::MAX), Err(WasmError::Trap(TrapCode::MemoryOutOfBounds)));
}

#[test]
fn memory_grows_up_to_its_maximum() {
    let mut m = Memory::new(&Limits { min: 1, max: Some(2) });
    assert_eq!(m.store_u8(3, 9), Ok(()));
    assert_eq!(m.grow(1), 1);
    assert_eq!(m.data.len(), 2 * PAGE_SIZE);
    assert_eq!(m.load_u8(3), Ok(9));
    assert_eq!(m.load_u8(PAGE_SIZE as u32), Ok(0));
    assert_eq!(m.grow(1), -1);
    assert_eq!(m.grow(u32::MAX), -1);
    assert_eq!(m.size_pages(), 2);
    assert_eq!(Table::new(&Limits { min: 3, max: None }).elems, vec![None, None, None]);
}

#[test]
fn integer_arithmetic() {
    assert_eq!(i32_op(0x6A, i32::MAX, 1), Ok(vec![Value::I32(i32::MIN)]));
    assert_eq!(i32_op(0x6B, 3, 5), Ok(vec![Value::I32(-2)]));
    assert_eq!(i32_op(0x6C, 1 << 30, 4), Ok(vec![Value::I32(0)]));
    assert_eq!(i32_op(0x6D, -7, 2), Ok(vec![Value::I32(-3)]));
    assert_eq!(i32_op(0x6D, 7, -2), Ok(vec![Value::I32(-3)]));
    assert_eq!(i32_op(0x6E, -1, 2), Ok(vec![Value::I32(i32::MAX)]));
    assert_eq!(i32_op(0x6F, -7, 2), Ok(vec![Value::I32(-1)]));
    assert_eq!(i32_op(0x6F, i32::MIN, -1), Ok(vec![Value::I32(0)]));
    assert_eq!(i32_op(0x70, -1, 10), Ok(vec![Value::I32(5)]));
    assert_eq!(i32_op(0x71, 12, 10), Ok(vec![Value::I32(8)]));
    assert_eq!(i32_op(0x72, 12, 10), Ok(vec![Value::I32(14)]));
    assert_eq!(i32_op(0x73, 12, 10), Ok(vec![Value::I32(6)]));
    assert_eq!(i32_op(0x74, 1, 33), Ok(vec![Value::I32(2)]));
    assert_eq!(i32_op(0x75, -8, 1), Ok(vec![Value::I32(-4)]));
    assert_eq!(i32_op(0x76, -8, 1), Ok(vec![Value::I32(0x7FFF_FFFC)]));
    assert_eq!(i32_op(0x77, i32::MIN, 1), Ok(vec![Value::I32(1)]));
    assert_eq!(i32_op(0x78, 1, 1), Ok(vec![Value::I32(i32::MIN)]));
    assert_eq!(i32_op(0x77, 5, 32), Ok(vec![Value::I32(5)]));
    assert_eq!(i64_op(0x7C, i64::MAX, 1), Ok(vec![Value::I64(i64::MIN)]));
    assert_eq!(i64_op(0x7F, -9, 4), Ok(vec![Value::I64(-2)]));
    assert_eq!(i64_op(0x81, -9, 4), Ok(vec![Value::I64(-1)]));
    assert_eq!(i64_op(0x89, i64::MIN, 1), Ok(vec![Value::I64(1)]));
    assert_eq!(i64_op(0x88, -1, 60), Ok(vec![Value::I64(15)]));
}

#[test]
fn integer_comparisons() {
    assert_eq!(i32_op(0x48, -1, 1), Ok(vec![Value::I32(1)]));
    assert_eq!(i32_op(0x49, -1, 1), Ok(vec![Value::I32(0)]));
    assert_eq!(i32_op(0x4A, -1, 1), Ok(vec![Value::I32(0)]));
    assert_eq!(i32_op(0x4B, -1, 1), Ok(vec![Value::I32(1)]));
    assert_eq!(i32_op(0x46, 2, 2), Ok(vec![Value::I32(1)]));
    assert_eq!(i32_op(0x47, 2, 2), Ok(vec![Value::I32(0)]));
    assert_eq!(i32_op(0x4C, 2, 2), Ok(vec![Value::I32(1)]));
    assert_eq!(i32_op(0x4F, 1, -2), Ok(vec![Value::I32(0)]));
    assert_eq!(i64_op(0x54, -1, 1), Ok(vec![Value::I32(0)]));
    assert_eq!(i64_op(0x53, -1, 1), Ok(vec![Value::I32(1)]));
}

#[test]
fn unary_instructions() {
    let u = |op: u8, a: i32| eval(&[I32], &[I32], &[0x20, 0, op, 0x0B], &[Value::I32(a)]);
    let w = |op: u8, a: i64| eval(&[I64], &[I64], &[0x20, 0, op, 0x0B], &[Value::I64(a)]);
    assert_eq!(u(0x45, 0), Ok(vec![Value::I32(1)]));
    assert_eq!(u(0x67, 1), Ok(vec![Value::I32(31)]));
    assert_eq!(u(0x67, 0), Ok(vec![Value::I32(32)]));
    assert_eq!(u(0x68, 8), Ok(vec![Value::I32(3)]));
    assert_eq!(u(0x69, -1), Ok(vec![Value::I32(32)]));
    assert_eq!(u(0x69, 0x0F0F), Ok(vec![Value::I32(8)]));
    assert_eq!(u(0xAC, -1), Ok(vec![Value::I64(-1)]));
    assert_eq!(u(0xAD, -1), Ok(vec![Value::I64(0xFFFF_FFFF)]));
    assert_eq!(u(0xBE, -1), Ok(vec![Value::F32(u32::MAX)]));
    assert_eq!(w(0x79, 1), Ok(vec![Value::I64(63)]));
    assert_eq!(w(0x7A, 0), Ok(vec![Value::I64(64)]));
    assert_eq!(w(0x7B, -1), Ok(vec![Value::I64(64)]));
    assert_eq!(w(0xA7, 0x1_0000_0005), Ok(vec![Value::I32(5)]));
    assert_eq!(w(0xBF, -1), Ok(vec![Value::F64(u64::MAX)]));
    assert_eq!(
        eval(&[F32], &[I32], &[0x20, 0, 0xBC, 0x0B], &[Value::F32(7)]),
        Ok(vec![Value::I32(7)])
    );
}

#[test]
fn division_traps() {
    let zero = Err(WasmError::Trap(TrapCode::DivisionByZero));
    let over = Err(WasmError::Trap(TrapCode::IntegerOverflow));
    assert_eq!(i32_op(0x6D, 1, 0), zero);
    assert_eq!(i32_op(0x6E, 1, 0), zero);
    assert_eq!(i32_op(0x6F, 1, 0), zero);
    assert_eq!(i32_op(0x70, 1, 0), zero);
    assert_eq!(i64_op(0x82, 1, 0), zero);
    assert_eq!(i32_op(0x6D, i32::MIN, -1), over);
    assert_eq!(i64_op(0x7F, i64::MIN, -1), over);
}

#[test]
fn stack_errors() {
    assert_eq!(eval(&[], &[], &[0x1A, 0x0B], &[]), Err(WasmError::StackUnderflow));
    assert_eq!(eval(&[], &[], &[0x41, 1, 0x6A, 0x0B], &[]), Err(WasmError::StackUnderflow));
    assert_eq!(eval(&[], &[], &[0x42, 1, 0x45, 0x0B], &[]), Err(WasmError::TypeMismatch));
    assert_eq!(
        eval(&[], &[], &[0x42, 1, 0x41, 1, 0x6A, 0x0B], &[]),
        Err(WasmError::TypeMismatch)
    );
    assert_eq!(eval(&[], &[], &[0x20, 4, 0x0B], &[]), Err(WasmError::UndefinedLocal(4)));
    assert_eq!(eval(&[], &[], &[0x41, 0, 0x21, 4, 0x0B], &[]), Err(WasmError::UndefinedLocal(4)));
    assert_eq!(eval(&[], &[], &[0x22, 0, 0x0B], &[]), Err(WasmError::StackUnderflow));
    assert_eq!(eval(&[], &[], &[0x23, 2, 0x0B], &[]), Err(WasmError::UndefinedGlobal(2)));
    assert_eq!(eval(&[], &[], &[0x41, 0, 0x24, 2, 0x0B], &[]), Err(WasmError::UndefinedGlobal(2)));
    assert_eq!(eval(&[], &[], &[0x10, 9, 0x0B], &[]), Err(WasmError::UndefinedFunc(9)));
    assert_eq!(eval(&[], &[], &[0x0C, 0, 0x0B], &[]), Err(WasmError::StackUnderflow));
    assert_eq!(eval(&[], &[], &[0x00], &[]), Err(WasmError::Trap(TrapCode::Unreachable)));
    assert_eq!(eval(&[], &[], &[0xD0], &[]), Err(WasmError::InvalidOpcode(0xD0)));
    assert_eq!(eval(&[], &[], &[0x02, 0x40, 0x01], &[]), Err(WasmError::UnexpectedEof));
}

#[test]
fn locals_and_select() {
    assert_eq!(
        eval(
            &[I32, I32, I32],
            &[I32],
            &[0x20, 0, 0x20, 1, 0x20, 2, 0x1B, 0x0B],
            &[Value::I32(10), Value::I32(20), Value::I32(0)]
        ),
        Ok(vec![Value::I32(20)])
    );
    let mut inst = several(
        &[ty(&[I32], &[I32, I64])],
        &[0],
        &[body(&[1, 2, I64], &[0x41, 5, 0x22, 0, 0x1A, 0x20, 0, 0x20, 2, 0x0B])],
        &[],
    );
    assert_eq!(run(&mut inst, &[]), Ok(vec![Value::I32(5), Value::I64(0)]));
}

#[test]
fn a_branch_leaves_its_block() {
    let code = [
        0x02, I32, 0x41, 1, 0x41, 7, 0x0C, 0, 0x0B, 0x41, 2, 0x6A, 0x0B,
    ];
    assert_eq!(eval(&[], &[I32], &code, &[]), Ok(vec![Value::I32(9)]));
}

#[test]
fn a_loop_sums() {
    // sum = 0; do { sum += n; n -= 1 } while (n != 0)
    let code = [
        0x02, 0x40, 0x03, 0x40, 0x20, 1, 0x20, 0, 0x6A, 0x21, 1, 0x20, 0, 0x41, 1, 0x6B, 0x22, 0,
        0x45, 0x0D, 1, 0x0C, 0, 0x0B, 0x0B, 0x20, 1, 0x0B,
    ];
    assert_eq!(
        eval(&[I32, I32], &[I32], &code, &[Value::I32(10), Value::I32(0)]),
        Ok(vec![Value::I32(55)])
    );
}

#[test]
fn an_if_chooses_a_branch() {
    let code = [
        0x20, 0, 0x04, I32, 0x41, 1, 0x0C, 0, 0x05, 0x41, 2, 0x0C, 0, 0x0B, 0x0B,
    ];
    assert_eq!(eval(&[I32], &[I32], &code, &[Value::I32(5)]), Ok(vec![Value::I32(1)]));
    assert_eq!(eval(&[I32], &[I32], &code, &[Value::I32(0)]), Ok(vec![Value::I32(2)]));
}

#[test]
fn a_table_selects_a_branch() {
    let code = [
        0x02, 0x40, 0x02, 0x40, 0x20, 0, 0x0E, 1, 0, 1, 0x0B, 0x41, 10, 0x0F, 0x0B, 0x41, 20, 0x0B,
    ];
    assert_eq!(eval(&[I32], &[I32], &code, &[Value::I32(0)]), Ok(vec![Value::I32(10)]));
    assert_eq!(eval(&[I32], &[I32], &code, &[Value::I32(1)]), Ok(vec![Value::I32(20)]));
    assert_eq!(eval(&[I32], &[I32], &code, &[Value::I32(-1)]), Ok(vec![Value::I32(20)]));
}

#[test]
fn an_end_opcode_closes_its_block_only() {
    let code = [0x02, 0x40, 0x0B, 0x41, 1, 0x0B];
    assert_eq!(eval(&[], &[I32], &code, &[]), Ok(vec![Value::I32(1)]));
    // What a block leaves is its results, whatever else it put on the stack.
    let code = [0x41, 5, 0x02, I32, 0x41, 6, 0x41, 7, 0x0B, 0x6A, 0x0B];
    assert_eq!(eval(&[], &[I32], &code, &[]), Ok(vec![Value::I32(12)]));
    let code = [0x41, 5, 0x02, 0x40, 0x41, 6, 0x0B, 0x0B];
    assert_eq!(eval(&[], &[I32, I32], &code, &[]), Ok(vec![Value::I32(5)]));
    // Nested blocks are closed one by one.
    let code = [0x02, I32, 0x02, I32, 0x41, 3, 0x0B, 0x41, 4, 0x6A, 0x0B, 0x41, 5, 0x6C, 0x0B];
    assert_eq!(eval(&[], &[I32], &code, &[]), Ok(vec![Value::I32(35)]));
    // Where the code stops, the function ends.
    assert_eq!(eval(&[], &[I32], &[0x41, 9], &[]), Ok(vec![Value::I32(9)]));
}

#[test]
fn a_loop_leaves_its_results() {
    let code = [0x41, 2, 0x03, I32, 0x41, 1, 0x0B, 0x6A, 0x0B];
    assert_eq!(eval(&[], &[I32], &code, &[]), Ok(vec![Value::I32(3)]));
    // do { n -= 1 } while (n != 0), left at its end
    let code = [
        0x03, 0x40, 0x20, 0, 0x41, 1, 0x6B, 0x22, 0, 0x0D, 0, 0x0B, 0x41, 8, 0x20, 0, 0x6A, 0x0B,
    ];
    assert_eq!(eval(&[I32], &[I32], &code, &[Value::I32(4)]), Ok(vec![Value::I32(8)]));
}

#[test]
fn both_branches_of_an_if_go_on_behind_it() {
    let code = [
        0x41, 10, 0x20, 0, 0x04, I32, 0x41, 1, 0x05, 0x41, 2, 0x0B, 0x6A, 0x0B,
    ];
    assert_eq!(eval(&[I32], &[I32], &code, &[Value::I32(5)]), Ok(vec![Value::I32(11)]));
    assert_eq!(eval(&[I32], &[I32], &code, &[Value::I32(0)]), Ok(vec![Value::I32(12)]));
    // An `if` without `else`, in a block, with a value after each end.
    let code = [
        0x02, I32, 0x20, 0, 0x04, 0x40, 0x41, 7, 0x21, 1, 0x0B, 0x20, 1, 0x0B, 0x41, 1, 0x6A, 0x0B,
    ];
    let args = |c: i32| [Value::I32(c), Value::I32(3)];
    assert_eq!(eval(&[I32, I32], &[I32], &code, &args(1)), Ok(vec![Value::I32(8)]));
    assert_eq!(eval(&[I32, I32], &[I32], &code, &args(0)), Ok(vec![Value::I32(4)]));
}

#[test]
fn results_are_the_top_values() {
    assert_eq!(
        eval(&[], &[I32], &[0x41, 1, 0x41, 2, 0x0B], &[]),
        Ok(vec![Value::I32(2)])
    );
    assert_eq!(eval(&[], &[I32, I32], &[0x41, 1, 0x0B], &[]), Ok(vec![Value::I32(1)]));
}

#[test]
fn loads_and_stores_go_to_memory() {
    let code = [
        0x41, 16, 0x41, 0x7E, 0x3A, 0, 4, 0x41, 20, 0x2C, 0, 0, 0x41, 20, 0x2D, 0, 0, 0x0B,
    ];
    let mut inst = one(&[], &[I32, I32], &code);
    assert_eq!(run(&mut inst, &[]), Ok(vec![Value::I32(-2), Value::I32(254)]));
    assert_eq!(inst.memories[0].data[20], 254);
    let trap = Err(WasmError::Trap(TrapCode::MemoryOutOfBounds));
    assert_eq!(eval(&[], &[I32], &[0x41, 0x7F, 0x28, 0, 0, 0x0B], &[]), trap);
    let code = [0x41, 0, 0x42, 0x7F, 0x37, 0, 0, 0x41, 4, 0x34, 0, 0, 0x41, 4, 0x35, 0, 0, 0x0B];
    assert_eq!(
        eval(&[], &[I64, I64], &code, &[]),
        Ok(vec![Value::I64(-1), Value::I64(0xFFFF_FFFF)])
    );
    assert_eq!(
        eval(&[], &[], &[0x41, 0, 0x41, 1, 0x37, 0, 0, 0x0B], &[]),
        Err(WasmError::TypeMismatch)
    );
}

#[test]
fn memory_size_and_grow() {
    let code = [0x41, 1, 0x40, 0, 0x3F, 0, 0x41, 9, 0x40, 0, 0x0B];
    assert_eq!(
        eval(&[], &[I32, I32, I32], &code, &[]),
        Ok(vec![Value::I32(1), Value::I32(2), Value::I32(-1)])
    );
}

#[test]
fn functions_call_each_other() {
    let types = [ty(&[I32], &[I32])];
    // f(n) = n == 0 ? 0 : g(n - 1); g(n) = f(n) + 2
    let f = body(
        &[0],
        &[
            0x02, 0x40, 0x20, 0, 0x0D, 0, 0x41, 0, 0x0F, 0x0B, 0x20, 0, 0x41, 1, 0x6B, 0x10, 1, 0x0B,
        ],
    );
    let g = body(&[0], &[0x20, 0, 0x10, 0, 0x41, 2, 0x6A, 0x0B]);
    let mut inst = several(&types, &[0, 0], &[f, g], &[]);
    assert_eq!(run(&mut inst, &[Value::I32(600)]), Ok(vec![Value::I32(1200)]));
}

#[test]
fn indirect_calls_check_the_signature() {
    let types = [ty(&[I32], &[I32]), ty(&[], &[I32])];
    let f = body(&[0], &[0x41, 3, 0x20, 0, 0x11, 0, 0, 0x0B]);
    let g = body(&[0], &[0x20, 0, 0x20, 0, 0x6A, 0x0B]);
    let h = body(&[0], &[0x41, 1, 0x0B]);
    let table = section(4, &[1, 0x70, 0x00, 4]);
    let elems = section(9, &[1, 0, 0x41, 1, 0x0B, 2, 1, 2]);
    let mut inst = several(&types, &[0, 0, 1], &[f, g, h], &[table, elems]);
    let trap = Err(WasmError::Trap(TrapCode::IndirectCallTypeMismatch));
    assert_eq!(run(&mut inst, &[Value::I32(1)]), Ok(vec![Value::I32(6)]));
    assert_eq!(run(&mut inst, &[Value::I32(2)]), trap);
    assert_eq!(run(&mut inst, &[Value::I32(0)]), trap);
    assert_eq!(run(&mut inst, &[Value::I32(77)]), trap);
    inst.tables.clear();
    assert_eq!(run(&mut inst, &[Value::I32(1)]), Err(WasmError::UndefinedFunc(0)));
}

#[test]
fn a_dangling_table_entry_is_reported() {
    let types = [ty(&[], &[])];
    let table = section(4, &[1, 0x70, 0x00, 1]);
    let elems = section(9, &[1, 0, 0x41, 0, 0x0B, 1, 50]);
    let mut inst = several(
        &types,
        &[0],
        &[body(&[0], &[0x41, 0, 0x11, 0, 0, 0x0B])],
        &[table, elems],
    );
    let s = inst.call_export("f", &[]).unwrap_or_else(|e| panic!("{:?}", e));
    assert!(matches!(inst.drive(s, 100), Signal::Dangling));
    assert!(matches!(inst.invoke(9, &[]), Signal::Dangling));
}

#[test]
fn running_can_be_split() {
    let mut inst = one(&[I32, I32], &[I32], &[0x20, 0, 0x20, 1, 0x6A, 0x0B]);
    let args = [Value::I32(2), Value::I32(3)];
    let whole = match inst.invoke(0, &args) {
        Signal::Ready(e) => e.run(&mut inst, 4),
        _ => panic!("not ready"),
    };
    assert!(matches!(whole, Signal::Done(ref v) if *v == vec![Value::I32(5)]));
    let first = match inst.invoke(0, &args) {
        Signal::Ready(e) => e.run(&mut inst, 3),
        _ => panic!("not ready"),
    };
    match first {
        Signal::Ready(e) => {
            assert!(matches!(e.run(&mut inst, 1), Signal::Done(v) if v == vec![Value::I32(5)]))
        }
        _ => panic!("not ready"),
    }
    let s = inst.invoke(0, &args);
    assert!(matches!(inst.drive(s, 0), Signal::Ready(_)));
}

#[test]
fn float_instructions_are_handed_out() {
    let mut inst = one(
        &[F32, F32],
        &[F32],
        &[0x20, 0, 0x20, 1, 0x93, 0x20, 0, 0x1A, 0x0B],
    );
    let two = 2.0f32.to_bits();
    let half = 0.5f32.to_bits();
    let s = inst.invoke(0, &[Value::F32(two), Value::F32(half)]);
    match inst.drive(s, 100) {
        Signal::Float { op, args, rest } => {
            assert!(matches!(op, Instr::F32Sub));
            assert_eq!(args, vec![Value::F32(two), Value::F32(half)]);
            let r = (f32::from_bits(two) - f32::from_bits(half)).to_bits();
            let s = rest.resume(vec![Value::F32(r)]);
            match inst.drive(s, 100) {
                Signal::Done(v) => assert_eq!(v, vec![Value::F32(1.5f32.to_bits())]),
                _ => panic!("not done"),
            }
        }
        _ => panic!("no float"),
    }
    assert_eq!(
        eval(&[], &[], &[0x41, 1, 0x8C, 0x0B], &[]),
        Err(WasmError::TypeMismatch)
    );
    assert_eq!(eval(&[], &[], &[0xB2, 0x0B], &[]), Err(WasmError::StackUnderflow));
}

struct Doubler;

impl HostFunction for Doubler {
    fn call(&self, args: &[Value], mem: &mut Memory) -> Result<Vec<Value>, WasmError> {
        let v = args[0].as_i32().unwrap_or(0);
        if v < 0 {
            return Err(WasmError::TypeMismatch);
        }
        if !mem.data.is_empty() {
            mem.data[0] = v as u8;
        }
        Ok(vec![Value::I32(2 * v)])
    }
}

fn doubler() -> Func {
    Func {
        ty: FuncType { params: vec![ValType::I32], results: vec![ValType::I32] },
        kind: FuncKind::Host {
            func: HostFunc::Custom(Arc::new(Supplied { inner: Box::new(Doubler) })),
        },
    }
}

#[test]
fn host_functions_are_called() {
    let mut bytes = vec![0x00, 0x61, 0x73, 0x6D, 0x01, 0x00, 0x00, 0x00];
    bytes.extend(section(1, &list(&[ty(&[I32], &[I32])])));
    bytes.extend(section(3, &[1, 0]));
    bytes.extend(section(5, &[1, 0x00, 1]));
    bytes.extend(section(7, &[1, 1, b'f', 0x00, 1]));
    bytes.extend(section(10, &list(&[body(&[0], &[0x20, 0, 0x10, 0, 0x41, 1, 0x6A, 0x0B])])));
    let m = parse(&bytes).unwrap_or_else(|e| panic!("{:?}", e));
    let (mut inst, start) = ModuleInstance::instantiate(m, vec![doubler()])
        .unwrap_or_else(|e| panic!("{:?}", e));
    assert!(start.is_none());
    assert_eq!(run(&mut inst, &[Value::I32(20)]), Ok(vec![Value::I32(41)]));
    assert_eq!(inst.memories[0].data[0], 20);
    assert_eq!(run(&mut inst, &[Value::I32(-1)]), Err(WasmError::TypeMismatch));
    let s = inst.invoke(0, &[Value::I32(4)]);
    assert!(matches!(s, Signal::Host { func: 0, .. }));
    assert!(matches!(inst.drive(s, 9), Signal::Done(v) if v == vec![Value::I32(8)]));
    inst.memories.clear();
    assert_eq!(inst.call_host(0, &[Value::I32(6)]), Ok(vec![Value::I32(12)]));
}

#[test]
fn instantiation_places_segments() {
    let types = [ty(&[], &[I32])];
    let table = section(4, &[1, 0x70, 0x00, 3]);
    let globals = section(6, &[1, 0x7F, 0x01, 0x41, 0x2A, 0x0B]);
    let elems = section(9, &[1, 0, 0x41, 1, 0x0B, 1, 0]);
    let data = section(11, &[1, 0, 0x41, 5, 0x0B, 2, 7, 8]);
    let code = [0x23, 0, 0x41, 1, 0x6A, 0x24, 0, 0x23, 0, 0x0B];
    let mut inst = several(&types, &[0], &[body(&[0], &code)], &[table, globals, elems, data]);
    assert_eq!(inst.tables[0].elems, vec![None, Some(0), None]);
    assert_eq!(inst.memories[0].data[4..8], [0, 7, 8, 0]);
    assert_eq!(run(&mut inst, &[]), Ok(vec![Value::I32(43)]));
    assert_eq!(run(&mut inst, &[]), Ok(vec![Value::I32(44)]));
    assert_eq!(inst.globals[0].value, Value::I32(44));
}

fn refused(more: &[Vec<u8>]) -> WasmError {
    let bytes = binary(&[ty(&[], &[])], &[0], &[body(&[0], &[0x0B])], more);
    let m = parse(&bytes).unwrap_or_else(|e| panic!("{:?}", e));
    match ModuleInstance::instantiate(m, vec![]) {
        Ok(_) => panic!("instantiated"),
        Err(e) => e,
    }
}

#[test]
fn bad_segments_are_refused() {
    let oob = WasmError::MemoryOutOfBounds;
    assert_eq!(refused(&[section(11, &[1, 0, 0x41, 0x7F, 0x0B, 1, 7])]), oob);
    assert_eq!(refused(&[section(11, &[1, 1, 0x41, 0, 0x0B, 1, 7])]), oob);
    assert_eq!(
        refused(&[section(11, &[1, 0, 0x42, 0, 0x0B, 1, 7])]),
        WasmError::InvalidType
    );
    assert_eq!(
        refused(&[section(6, &[1, 0x7F, 0, 0x0B])]),
        WasmError::InvalidOpcode(0x0B)
    );
    assert_eq!(refused(&[section(9, &[1, 0, 0x41, 0, 0x0B, 0])]), oob);
    let table = section(4, &[1, 0x70, 0x00, 1]);
    assert_eq!(refused(&[table.clone(), section(9, &[1, 0, 0x41, 1, 0x0B, 1, 0])]), oob);
    assert_eq!(refused(&[table, section(9, &[1, 0, 0x41, 0x7F, 0x0B, 1, 0])]), oob);
    assert_eq!(refused(&[section(3, &[1, 7])]), WasmError::InvalidType);
}

#[test]
fn a_start_function_runs_first() {
    let bytes = binary(
        &[ty(&[], &[])],
        &[0],
        &[body(&[0], &[0x41, 3, 0x41, 9, 0x3A, 0, 0, 0x0B])],
        &[section(8, &[0])],
    );
    let m = parse(&bytes).unwrap_or_else(|e| panic!("{:?}", e));
    let (mut inst, start) =
        ModuleInstance::instantiate(m, vec![]).unwrap_or_else(|e| panic!("{:?}", e));
    assert_eq!(inst.memories[0].data[3], 0);
    match start {
        Some(s) => assert!(matches!(inst.drive(s, 10), Signal::Done(v) if v.is_empty())),
        None => panic!("no start"),
    }
    assert_eq!(inst.memories[0].data[3], 9);
}

#[test]
fn unknown_exports_are_refused() {
    let inst = one(&[], &[], &[0x0B]);
    assert!(matches!(inst.call_export("g", &[]), Err(WasmError::ExportNotFound)));
}

#[test]
fn a_failed_float_instruction_traps() {
    let code = [0x20, 0, 0xA8, 0x0B];
    for (bits, answer, want) in [
        (f32::NAN.to_bits(), None, Err(WasmError::Trap(TrapCode::InvalidConversionToInt))),
        ((-2.5f32).to_bits(), Some(-2), Ok(vec![Value::I32(-2)])),
    ] {
        let mut inst = one(&[F32], &[I32], &code);
        let s = match inst.call_export("f", &[Value::F32(bits)]) {
            Ok(s) => s,
            Err(e) => panic!("{:?}", e),
        };
        let s = match inst.drive(s, 1000) {
            Signal::Float { op, args, rest } => {
                assert!(matches!(op, Instr::I32TruncF32S));
                assert_eq!(args, vec![Value::F32(bits)]);
                rest.answer(match answer {
                    Some(v) => Ok(vec![Value::I32(v)]),
                    None => Err(WasmError::Trap(TrapCode::InvalidConversionToInt)),
                })
            }
            _ => panic!("not a float"),
        };
        let got = match inst.drive(s, 1000) {
            Signal::Done(v) => Ok(v),
            Signal::Trap(e) => Err(e),
            _ => panic!("not at an end"),
        };
        assert_eq!(got, want);
    }
}

#[test]
fn float_results_go_back_on_the_stack() {
    let code = [0x20, 0, 0x8D, 0x8C, 0x0B];
    let mut inst = one(&[F32], &[F32], &code);
    let mut s = match inst.call_export("f", &[Value::F32(1.25f32.to_bits())]) {
        Ok(s) => s,
        Err(e) => panic!("{:?}", e),
    };
    loop {
        s = match inst.drive(s, 1000) {
            Signal::Float { op, args, rest } => {
                let a = match args[0] {
                    Value::F32(b) => f32::from_bits(b),
                    _ => panic!("not a float"),
                };
                let v = match op {
                    Instr::F32Ceil => libm::ceilf(a),
                    Instr::F32Neg => -a,
                    _ => panic!("another instruction"),
                };
                rest.answer(Ok(vec![Value::F32(v.to_bits())]))
            }
            Signal::Done(v) => {
                assert_eq!(v, vec![Value::F32((-2.0f32).to_bits())]);
                return;
            }
            _ => panic!("stopped"),
        };
    }
}
