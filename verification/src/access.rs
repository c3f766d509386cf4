//! Loads and stores.
use vstd::prelude::*;

use crate::instr::{Instr, MemArg};
use crate::memory;
use crate::memory::{Memory, MemoryModel};
use crate::numeric;
use crate::types::{ValType, Value, WasmError};

verus! {

/// The operands of a memory access.
pub open spec fn memarg_of(i: Instr) -> MemArg {
    match i {
        Instr::I32Load(ma) => ma,
        Instr::I64Load(ma) => ma,
        Instr::F32Load(ma) => ma,
        Instr::F64Load(ma) => ma,
        Instr::I32Load8S(ma) => ma,
        Instr::I32Load8U(ma) => ma,
        Instr::I32Load16S(ma) => ma,
        Instr::I32Load16U(ma) => ma,
        Instr::I64Load8S(ma) => ma,
        Instr::I64Load8U(ma) => ma,
        Instr::I64Load16S(ma) => ma,
        Instr::I64Load16U(ma) => ma,
        Instr::I64Load32S(ma) => ma,
        Instr::I64Load32U(ma) => ma,
        Instr::I32Store(ma) => ma,
        Instr::I64Store(ma) => ma,
        Instr::F32Store(ma) => ma,
        Instr::F64Store(ma) => ma,
        Instr::I32Store8(ma) => ma,
        Instr::I32Store16(ma) => ma,
        Instr::I64Store8(ma) => ma,
        Instr::I64Store16(ma) => ma,
        Instr::I64Store32(ma) => ma,
        _ => MemArg { align: 0, offset: 0 },
    }
}

/// The address that a memory access goes to.
pub open spec fn effective_addr(base: i32, ma: MemArg) -> u32 {
    (base as u32).wrapping_add(ma.offset)
}

fn effective(base: i32, ma: &MemArg) -> (r: u32)
    ensures
        r == effective_addr(base, *ma),
{
    (base as u32).wrapping_add(ma.offset)
}

/// How many bytes a load reads.
pub open spec fn load_width(i: Instr) -> nat {
    match i {
        Instr::I32Load(_) => 4,
        Instr::I64Load(_) => 8,
        Instr::F32Load(_) => 4,
        Instr::F64Load(_) => 8,
        Instr::I32Load8S(_) => 1,
        Instr::I32Load8U(_) => 1,
        Instr::I32Load16S(_) => 2,
        Instr::I32Load16U(_) => 2,
        Instr::I64Load8S(_) => 1,
        Instr::I64Load8U(_) => 1,
        Instr::I64Load16S(_) => 2,
        Instr::I64Load16U(_) => 2,
        Instr::I64Load32S(_) => 4,
        _ => 4,
    }
}

/// The value that a load makes of the number that it read.
pub open spec fn load_value(i: Instr, v: nat) -> Value {
    match i {
        Instr::I32Load(_) => Value::I32(v as u32 as i32),
        Instr::I64Load(_) => Value::I64(v as u64 as i64),
        Instr::F32Load(_) => Value::F32(v as u32),
        Instr::F64Load(_) => Value::F64(v as u64),
        Instr::I32Load8S(_) => Value::I32(v as u8 as i8 as i32),
        Instr::I32Load8U(_) => Value::I32(v as u8 as i32),
        Instr::I32Load16S(_) => Value::I32(v as u16 as i16 as i32),
        Instr::I32Load16U(_) => Value::I32(v as u16 as i32),
        Instr::I64Load8S(_) => Value::I64(v as u8 as i8 as i64),
        Instr::I64Load8U(_) => Value::I64(v as u8 as i64),
        Instr::I64Load16S(_) => Value::I64(v as u16 as i16 as i64),
        Instr::I64Load16U(_) => Value::I64(v as u16 as i64),
        Instr::I64Load32S(_) => Value::I64(v as u32 as i32 as i64),
        _ => Value::I64(v as u32 as i64),
    }
}

/// The result of a load with address operand `base`.
pub open spec fn load_result(i: Instr, m: MemoryModel, base: i32) -> Result<Value, WasmError> {
    match memory::loaded(m, effective_addr(base, memarg_of(i)), load_width(i)) {
        Ok(v) => Ok(load_value(i, v)),
        Err(e) => Err(e),
    }
}

#[verifier::rlimit(50)]
/// Executes a load from `m` at `base`.
pub fn run_load(i: &Instr, m: &Memory, base: i32) -> (r: Result<Value, WasmError>)
    requires
        numeric::group(*i) == numeric::Group::Load,
    ensures
        r == load_result(*i, m@, base),
{
    match i {
        Instr::I32Load(ma) => {
            let v: u32 = m.load_u32(effective(base, ma))?;
            Ok(Value::I32(v as i32))
        },
        Instr::I64Load(ma) => {
            let v: u64 = m.load_u64(effective(base, ma))?;
            Ok(Value::I64(v as i64))
        },
        Instr::F32Load(ma) => {
            let v: u32 = m.load_u32(effective(base, ma))?;
            Ok(Value::F32(v))
        },
        Instr::F64Load(ma) => {
            let v: u64 = m.load_u64(effective(base, ma))?;
            Ok(Value::F64(v))
        },
        Instr::I32Load8S(ma) => {
            let v: u8 = m.load_u8(effective(base, ma))?;
            Ok(Value::I32(v as i8 as i32))
        },
        Instr::I32Load8U(ma) => {
            let v: u8 = m.load_u8(effective(base, ma))?;
            Ok(Value::I32(v as i32))
        },
        Instr::I32Load16S(ma) => {
            let v: u16 = m.load_u16(effective(base, ma))?;
            Ok(Value::I32(v as i16 as i32))
        },
        Instr::I32Load16U(ma) => {
            let v: u16 = m.load_u16(effective(base, ma))?;
            Ok(Value::I32(v as i32))
        },
        Instr::I64Load8S(ma) => {
            let v: u8 = m.load_u8(effective(base, ma))?;
            Ok(Value::I64(v as i8 as i64))
        },
        Instr::I64Load8U(ma) => {
            let v: u8 = m.load_u8(effective(base, ma))?;
            Ok(Value::I64(v as i64))
        },
        Instr::I64Load16S(ma) => {
            let v: u16 = m.load_u16(effective(base, ma))?;
            Ok(Value::I64(v as i16 as i64))
        },
        Instr::I64Load16U(ma) => {
            let v: u16 = m.load_u16(effective(base, ma))?;
            Ok(Value::I64(v as i64))
        },
        Instr::I64Load32S(ma) => {
            let v: u32 = m.load_u32(effective(base, ma))?;
            Ok(Value::I64(v as i32 as i64))
        },
        Instr::I64Load32U(ma) => {
            let v: u32 = m.load_u32(effective(base, ma))?;
            Ok(Value::I64(v as i64))
        },
        _ => Err(WasmError::TypeMismatch),
    }
}

/// The type of the value that a store takes.
pub open spec fn store_type(i: Instr) -> ValType {
    match i {
        Instr::I32Store(_) => ValType::I32,
        Instr::I64Store(_) => ValType::I64,
        Instr::F32Store(_) => ValType::F32,
        Instr::F64Store(_) => ValType::F64,
        Instr::I32Store8(_) => ValType::I32,
        Instr::I32Store16(_) => ValType::I32,
        Instr::I64Store8(_) => ValType::I64,
        Instr::I64Store16(_) => ValType::I64,
        _ => ValType::I64,
    }
}

/// The type of the value that a store takes.
pub fn store_type_of(i: &Instr) -> (r: ValType)
    ensures
        r == store_type(*i),
{
    match i {
        Instr::I32Store(_) => ValType::I32,
        Instr::I64Store(_) => ValType::I64,
        Instr::F32Store(_) => ValType::F32,
        Instr::F64Store(_) => ValType::F64,
        Instr::I32Store8(_) => ValType::I32,
        Instr::I32Store16(_) => ValType::I32,
        Instr::I64Store8(_) => ValType::I64,
        Instr::I64Store16(_) => ValType::I64,
        _ => ValType::I64,
    }
}

/// How many bytes a store writes.
pub open spec fn store_width(i: Instr) -> nat {
    match i {
        Instr::I32Store(_) => 4,
        Instr::I64Store(_) => 8,
        Instr::F32Store(_) => 4,
        Instr::F64Store(_) => 8,
        Instr::I32Store8(_) => 1,
        Instr::I32Store16(_) => 2,
        Instr::I64Store8(_) => 1,
        Instr::I64Store16(_) => 2,
        _ => 4,
    }
}

/// The number that a store writes for a value, if the value has its type.
pub open spec fn store_number(i: Instr, v: Value) -> Option<nat> {
    match (i, v) {
        (Instr::I32Store(_), Value::I32(x)) => Some(x as u32 as nat),
        (Instr::I64Store(_), Value::I64(x)) => Some(x as u64 as nat),
        (Instr::F32Store(_), Value::F32(x)) => Some(x as u32 as nat),
        (Instr::F64Store(_), Value::F64(x)) => Some(x as u64 as nat),
        (Instr::I32Store8(_), Value::I32(x)) => Some(x as u32 as u8 as nat),
        (Instr::I32Store16(_), Value::I32(x)) => Some(x as u32 as u16 as nat),
        (Instr::I64Store8(_), Value::I64(x)) => Some(x as u64 as u8 as nat),
        (Instr::I64Store16(_), Value::I64(x)) => Some(x as u64 as u16 as nat),
        (Instr::I64Store32(_), Value::I64(x)) => Some(x as u64 as u32 as nat),
        _ => None,
    }
}

/// The memory after a store of `v` with address operand `base`.
pub open spec fn store_result(i: Instr, m: MemoryModel, base: i32, v: Value) -> Result<
    MemoryModel,
    WasmError,
> {
    match store_number(i, v) {
        None => Err(WasmError::TypeMismatch),
        Some(n) => memory::stored(m, effective_addr(base, memarg_of(i)), n, store_width(i)),
    }
}

#[verifier::rlimit(50)]
/// Executes a store of `v` to `m` at `base`.
pub fn run_store(i: &Instr, m: &mut Memory, base: i32, v: Value) -> (r: Result<(), WasmError>)
    ensures
        match store_result(*i, old(m)@, base, v) {
            Ok(m2) => r is Ok && final(m)@ == m2,
            Err(e) => r == Err::<(), WasmError>(e) && *final(m) == *old(m),
        },
{
    match (i, v) {
        (Instr::I32Store(ma), Value::I32(x)) => m.store_u32(effective(base, ma), x as u32),
        (Instr::I64Store(ma), Value::I64(x)) => m.store_u64(effective(base, ma), x as u64),
        (Instr::F32Store(ma), Value::F32(x)) => m.store_u32(effective(base, ma), x),
        (Instr::F64Store(ma), Value::F64(x)) => m.store_u64(effective(base, ma), x),
        (Instr::I32Store8(ma), Value::I32(x)) => m.store_u8(effective(base, ma), x as u32 as u8),
        (Instr::I32Store16(ma), Value::I32(x)) => m.store_u16(effective(base, ma), x as u32 as u16),
        (Instr::I64Store8(ma), Value::I64(x)) => m.store_u8(effective(base, ma), x as u64 as u8),
        (Instr::I64Store16(ma), Value::I64(x)) => m.store_u16(effective(base, ma), x as u64 as u16),
        (Instr::I64Store32(ma), Value::I64(x)) => m.store_u32(effective(base, ma), x as u64 as u32),
        _ => Err(WasmError::TypeMismatch),
    }
}

} // verus!
