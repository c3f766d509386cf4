//! The integer instructions, and the groups that all instructions fall into.
use vstd::prelude::*;
use vstd::std_specs::bits;

use crate::instr::Instr;
use crate::types::{TrapCode, ValType, Value, WasmError};

verus! {

/// Instructions by what they take from the operand stack.
#[derive(Debug, Clone, Copy, PartialEq, Eq, Structural)]
pub enum Group {
    /// One `i32` operand.
    UnaryI32,
    /// One `i64` operand.
    UnaryI64,
    /// The bit pattern of one 32-bit float.
    UnaryF32,
    /// The bit pattern of one 64-bit float.
    UnaryF64,
    /// Two `i32` operands.
    BinaryI32,
    /// Two `i64` operands.
    BinaryI64,
    /// A load from memory.
    Load,
    /// A store to memory.
    Store,
    /// Floating-point arithmetic on one operand of the given type.
    Float1(ValType),
    /// Floating-point arithmetic on two operands of the given type.
    Float2(ValType),
    /// Control, parametric, variable and constant instructions.
    Other,
}

/// The group that an instruction belongs to.
pub open spec fn group(i: Instr) -> Group {
    match i {
        Instr::I32Eqz
        | Instr::I32Clz
        | Instr::I32Ctz
        | Instr::I32Popcnt
        | Instr::I64ExtendI32S
        | Instr::I64ExtendI32U
        | Instr::F32ReinterpretI32 => Group::UnaryI32,
        Instr::I64Eqz
        | Instr::I64Clz
        | Instr::I64Ctz
        | Instr::I64Popcnt
        | Instr::I32WrapI64
        | Instr::F64ReinterpretI64 => Group::UnaryI64,
        Instr::I32ReinterpretF32 => Group::UnaryF32,
        Instr::I64ReinterpretF64 => Group::UnaryF64,
        Instr::I32Eq
        | Instr::I32Ne
        | Instr::I32LtS
        | Instr::I32LtU
        | Instr::I32GtS
        | Instr::I32GtU
        | Instr::I32LeS
        | Instr::I32LeU
        | Instr::I32GeS
        | Instr::I32GeU
        | Instr::I32Add
        | Instr::I32Sub
        | Instr::I32Mul
        | Instr::I32DivS
        | Instr::I32DivU
        | Instr::I32RemS
        | Instr::I32RemU
        | Instr::I32And
        | Instr::I32Or
        | Instr::I32Xor
        | Instr::I32Shl
        | Instr::I32ShrS
        | Instr::I32ShrU
        | Instr::I32Rotl
        | Instr::I32Rotr => Group::BinaryI32,
        Instr::I64Eq
        | Instr::I64Ne
        | Instr::I64LtS
        | Instr::I64LtU
        | Instr::I64GtS
        | Instr::I64GtU
        | Instr::I64LeS
        | Instr::I64LeU
        | Instr::I64GeS
        | Instr::I64GeU
        | Instr::I64Add
        | Instr::I64Sub
        | Instr::I64Mul
        | Instr::I64DivS
        | Instr::I64DivU
        | Instr::I64RemS
        | Instr::I64RemU
        | Instr::I64And
        | Instr::I64Or
        | Instr::I64Xor
        | Instr::I64Shl
        | Instr::I64ShrS
        | Instr::I64ShrU
        | Instr::I64Rotl
        | Instr::I64Rotr => Group::BinaryI64,
        Instr::I32Load(_)
        | Instr::I64Load(_)
        | Instr::F32Load(_)
        | Instr::F64Load(_)
        | Instr::I32Load8S(_)
        | Instr::I32Load8U(_)
        | Instr::I32Load16S(_)
        | Instr::I32Load16U(_)
        | Instr::I64Load8S(_)
        | Instr::I64Load8U(_)
        | Instr::I64Load16S(_)
        | Instr::I64Load16U(_)
        | Instr::I64Load32S(_)
        | Instr::I64Load32U(_) => Group::Load,
        Instr::I32Store(_)
        | Instr::I64Store(_)
        | Instr::F32Store(_)
        | Instr::F64Store(_)
        | Instr::I32Store8(_)
        | Instr::I32Store16(_)
        | Instr::I64Store8(_)
        | Instr::I64Store16(_)
        | Instr::I64Store32(_) => Group::Store,
        Instr::F32Abs
        | Instr::F32Neg
        | Instr::F32Ceil
        | Instr::F32Floor
        | Instr::F32Trunc
        | Instr::F32Nearest
        | Instr::F32Sqrt
        | Instr::I32TruncF32S
        | Instr::I32TruncF32U
        | Instr::I64TruncF32S
        | Instr::I64TruncF32U
        | Instr::F64PromoteF32 => Group::Float1(ValType::F32),
        Instr::F64Abs
        | Instr::F64Neg
        | Instr::F64Ceil
        | Instr::F64Floor
        | Instr::F64Trunc
        | Instr::F64Nearest
        | Instr::F64Sqrt
        | Instr::I32TruncF64S
        | Instr::I32TruncF64U
        | Instr::I64TruncF64S
        | Instr::I64TruncF64U
        | Instr::F32DemoteF64 => Group::Float1(ValType::F64),
        Instr::F32ConvertI32S
        | Instr::F32ConvertI32U
        | Instr::F64ConvertI32S
        | Instr::F64ConvertI32U => Group::Float1(ValType::I32),
        Instr::F32ConvertI64S
        | Instr::F32ConvertI64U
        | Instr::F64ConvertI64S
        | Instr::F64ConvertI64U => Group::Float1(ValType::I64),
        Instr::F32Eq
        | Instr::F32Ne
        | Instr::F32Lt
        | Instr::F32Gt
        | Instr::F32Le
        | Instr::F32Ge
        | Instr::F32Add
        | Instr::F32Sub
        | Instr::F32Mul
        | Instr::F32Div
        | Instr::F32Min
        | Instr::F32Max
        | Instr::F32Copysign => Group::Float2(ValType::F32),
        Instr::F64Eq
        | Instr::F64Ne
        | Instr::F64Lt
        | Instr::F64Gt
        | Instr::F64Le
        | Instr::F64Ge
        | Instr::F64Add
        | Instr::F64Sub
        | Instr::F64Mul
        | Instr::F64Div
        | Instr::F64Min
        | Instr::F64Max
        | Instr::F64Copysign => Group::Float2(ValType::F64),
        _ => Group::Other,
    }
}

/// The group that an instruction belongs to.
#[verifier::rlimit(50)]
pub fn group_of(i: &Instr) -> (r: Group)
    ensures
        r == group(*i),
{
    match i {
        Instr::I32Eqz
        | Instr::I32Clz
        | Instr::I32Ctz
        | Instr::I32Popcnt
        | Instr::I64ExtendI32S
        | Instr::I64ExtendI32U
        | Instr::F32ReinterpretI32 => Group::UnaryI32,
        Instr::I64Eqz
        | Instr::I64Clz
        | Instr::I64Ctz
        | Instr::I64Popcnt
        | Instr::I32WrapI64
        | Instr::F64ReinterpretI64 => Group::UnaryI64,
        Instr::I32ReinterpretF32 => Group::UnaryF32,
        Instr::I64ReinterpretF64 => Group::UnaryF64,
        Instr::I32Eq
        | Instr::I32Ne
        | Instr::I32LtS
        | Instr::I32LtU
        | Instr::I32GtS
        | Instr::I32GtU
        | Instr::I32LeS
        | Instr::I32LeU
        | Instr::I32GeS
        | Instr::I32GeU
        | Instr::I32Add
        | Instr::I32Sub
        | Instr::I32Mul
        | Instr::I32DivS
        | Instr::I32DivU
        | Instr::I32RemS
        | Instr::I32RemU
        | Instr::I32And
        | Instr::I32Or
        | Instr::I32Xor
        | Instr::I32Shl
        | Instr::I32ShrS
        | Instr::I32ShrU
        | Instr::I32Rotl
        | Instr::I32Rotr => Group::BinaryI32,
        Instr::I64Eq
        | Instr::I64Ne
        | Instr::I64LtS
        | Instr::I64LtU
        | Instr::I64GtS
        | Instr::I64GtU
        | Instr::I64LeS
        | Instr::I64LeU
        | Instr::I64GeS
        | Instr::I64GeU
        | Instr::I64Add
        | Instr::I64Sub
        | Instr::I64Mul
        | Instr::I64DivS
        | Instr::I64DivU
        | Instr::I64RemS
        | Instr::I64RemU
        | Instr::I64And
        | Instr::I64Or
        | Instr::I64Xor
        | Instr::I64Shl
        | Instr::I64ShrS
        | Instr::I64ShrU
        | Instr::I64Rotl
        | Instr::I64Rotr => Group::BinaryI64,
        Instr::I32Load(_)
        | Instr::I64Load(_)
        | Instr::F32Load(_)
        | Instr::F64Load(_)
        | Instr::I32Load8S(_)
        | Instr::I32Load8U(_)
        | Instr::I32Load16S(_)
        | Instr::I32Load16U(_)
        | Instr::I64Load8S(_)
        | Instr::I64Load8U(_)
        | Instr::I64Load16S(_)
        | Instr::I64Load16U(_)
        | Instr::I64Load32S(_)
        | Instr::I64Load32U(_) => Group::Load,
        Instr::I32Store(_)
        | Instr::I64Store(_)
        | Instr::F32Store(_)
        | Instr::F64Store(_)
        | Instr::I32Store8(_)
        | Instr::I32Store16(_)
        | Instr::I64Store8(_)
        | Instr::I64Store16(_)
        | Instr::I64Store32(_) => Group::Store,
        Instr::F32Abs
        | Instr::F32Neg
        | Instr::F32Ceil
        | Instr::F32Floor
        | Instr::F32Trunc
        | Instr::F32Nearest
        | Instr::F32Sqrt
        | Instr::I32TruncF32S
        | Instr::I32TruncF32U
        | Instr::I64TruncF32S
        | Instr::I64TruncF32U
        | Instr::F64PromoteF32 => Group::Float1(ValType::F32),
        Instr::F64Abs
        | Instr::F64Neg
        | Instr::F64Ceil
        | Instr::F64Floor
        | Instr::F64Trunc
        | Instr::F64Nearest
        | Instr::F64Sqrt
        | Instr::I32TruncF64S
        | Instr::I32TruncF64U
        | Instr::I64TruncF64S
        | Instr::I64TruncF64U
        | Instr::F32DemoteF64 => Group::Float1(ValType::F64),
        Instr::F32ConvertI32S
        | Instr::F32ConvertI32U
        | Instr::F64ConvertI32S
        | Instr::F64ConvertI32U => Group::Float1(ValType::I32),
        Instr::F32ConvertI64S
        | Instr::F32ConvertI64U
        | Instr::F64ConvertI64S
        | Instr::F64ConvertI64U => Group::Float1(ValType::I64),
        Instr::F32Eq
        | Instr::F32Ne
        | Instr::F32Lt
        | Instr::F32Gt
        | Instr::F32Le
        | Instr::F32Ge
        | Instr::F32Add
        | Instr::F32Sub
        | Instr::F32Mul
        | Instr::F32Div
        | Instr::F32Min
        | Instr::F32Max
        | Instr::F32Copysign => Group::Float2(ValType::F32),
        Instr::F64Eq
        | Instr::F64Ne
        | Instr::F64Lt
        | Instr::F64Gt
        | Instr::F64Le
        | Instr::F64Ge
        | Instr::F64Add
        | Instr::F64Sub
        | Instr::F64Mul
        | Instr::F64Div
        | Instr::F64Min
        | Instr::F64Max
        | Instr::F64Copysign => Group::Float2(ValType::F64),
        _ => Group::Other,
    }
}

/// 1 for true and 0 for false.
pub open spec fn flag_of(b: bool) -> i32 {
    if b {
        1
    } else {
        0
    }
}

fn flag(b: bool) -> (r: i32)
    ensures
        r == flag_of(b),
{
    if b {
        1
    } else {
        0
    }
}

/// The absolute value.
pub open spec fn magnitude(a: int) -> int {
    if a < 0 {
        -a
    } else {
        a
    }
}

/// The quotient rounded towards zero.
pub open spec fn quotient(a: int, b: int) -> int {
    if (a < 0) == (b < 0) {
        magnitude(a) / magnitude(b)
    } else {
        -(magnitude(a) / magnitude(b))
    }
}

/// The remainder that goes with [`quotient`]: it has the sign of `a`.
pub open spec fn remainder(a: int, b: int) -> int {
    if a < 0 {
        -(magnitude(a) % magnitude(b))
    } else {
        magnitude(a) % magnitude(b)
    }
}

/// How large a quotient can be.
proof fn lemma_quotient_bound(a: int, b: int)
    requires
        b != 0,
    ensures
        0 <= magnitude(a) / magnitude(b) <= magnitude(a),
        magnitude(b) == 1 ==> magnitude(a) / magnitude(b) == magnitude(a),
        magnitude(b) > 1 && a != 0 ==> magnitude(a) / magnitude(b) < magnitude(a),
{
    let x = magnitude(a);
    let d = magnitude(b);
    vstd::arithmetic::div_mod::lemma_div_pos_is_pos(x, d);
    vstd::arithmetic::div_mod::lemma_div_basics(x);
    if d > 1 && x > 0 {
        vstd::arithmetic::div_mod::lemma_div_decreases(x, d);
    }
    if x == 0 {
        vstd::arithmetic::div_mod::lemma_div_basics(d);
    }
}

/// How large a remainder can be.
proof fn lemma_remainder_bound(a: int, b: int)
    requires
        b != 0,
    ensures
        0 <= magnitude(a) % magnitude(b) < magnitude(b),
        magnitude(a) % magnitude(b) <= magnitude(a),
        a == 0 ==> magnitude(a) % magnitude(b) == 0,
        magnitude(b) == 1 ==> magnitude(a) % magnitude(b) == 0,
{
    let x = magnitude(a);
    let d = magnitude(b);
    vstd::arithmetic::div_mod::lemma_mod_bound(x, d);
    vstd::arithmetic::div_mod::lemma_mod_decreases(x as nat, d as nat);
    if x == 0 {
        vstd::arithmetic::div_mod::lemma_small_mod(0, d as nat);
    }
}

/// The number of ones in the binary form of `n`.
pub open spec fn ones_of(n: nat) -> nat
    decreases n,
{
    if n == 0 {
        0
    } else {
        n % 2 + ones_of(n / 2)
    }
}

proof fn lemma_ones_bound(n: nat)
    ensures
        ones_of(n) <= n,
    decreases n,
{
    if n > 0 {
        lemma_ones_bound(n / 2);
    }
}

fn ones(n: u64) -> (r: u64)
    ensures
        r == ones_of(n as nat),
{
    let mut x: u64 = n;
    let mut count: u64 = 0;
    proof {
        lemma_ones_bound(n as nat);
    }
    while x > 0
        invariant
            count + ones_of(x as nat) == ones_of(n as nat),
            ones_of(n as nat) <= n,
        decreases x,
    {
        count = count + x % 2;
        x = x / 2;
    }
    count
}

/// Signed 32-bit division.
pub open spec fn div_s32_of(a: i32, b: i32) -> Result<Value, WasmError> {
    if b == 0 {
        Err(WasmError::Trap(TrapCode::DivisionByZero))
    } else if a == i32::MIN && b == -1 {
        Err(WasmError::Trap(TrapCode::IntegerOverflow))
    } else {
        Ok(Value::I32(quotient(a as int, b as int) as i32))
    }
}

fn div_s32(a: i32, b: i32) -> (r: Result<Value, WasmError>)
    ensures
        r == div_s32_of(a, b),
{
    if b == 0 {
        return Err(WasmError::Trap(TrapCode::DivisionByZero));
    }
    proof {
        lemma_quotient_bound(a as int, b as int);
    }
    match a.checked_div(b) {
        Some(q) => Ok(Value::I32(q)),
        None => Err(WasmError::Trap(TrapCode::IntegerOverflow)),
    }
}

/// Unsigned 32-bit division.
pub open spec fn div_u32_of(a: i32, b: i32) -> Result<Value, WasmError> {
    if b as u32 == 0 {
        Err(WasmError::Trap(TrapCode::DivisionByZero))
    } else {
        Ok(Value::I32((a as u32 / b as u32) as i32))
    }
}

fn div_u32(a: i32, b: i32) -> (r: Result<Value, WasmError>)
    ensures
        r == div_u32_of(a, b),
{
    if b as u32 == 0 {
        return Err(WasmError::Trap(TrapCode::DivisionByZero));
    }
    Ok(Value::I32((a as u32 / b as u32) as i32))
}

/// Signed 32-bit remainder.
pub open spec fn rem_s32_of(a: i32, b: i32) -> Result<Value, WasmError> {
    if b == 0 {
        Err(WasmError::Trap(TrapCode::DivisionByZero))
    } else {
        Ok(Value::I32(remainder(a as int, b as int) as i32))
    }
}

fn rem_s32(a: i32, b: i32) -> (r: Result<Value, WasmError>)
    ensures
        r == rem_s32_of(a, b),
{
    if b == 0 {
        return Err(WasmError::Trap(TrapCode::DivisionByZero));
    }
    proof {
        lemma_remainder_bound(a as int, b as int);
    }
    match a.checked_rem(b) {
        Some(m) => Ok(Value::I32(m)),
        None => Ok(Value::I32(0)),
    }
}

/// Unsigned 32-bit remainder.
pub open spec fn rem_u32_of(a: i32, b: i32) -> Result<Value, WasmError> {
    if b as u32 == 0 {
        Err(WasmError::Trap(TrapCode::DivisionByZero))
    } else {
        Ok(Value::I32((a as u32 % b as u32) as i32))
    }
}

fn rem_u32(a: i32, b: i32) -> (r: Result<Value, WasmError>)
    ensures
        r == rem_u32_of(a, b),
{
    if b as u32 == 0 {
        return Err(WasmError::Trap(TrapCode::DivisionByZero));
    }
    Ok(Value::I32((a as u32 % b as u32) as i32))
}

/// `a` rotated left by `n` bits, modulo the width.
pub open spec fn rotl32_of(a: u32, n: u32) -> u32 {
    if n % 32 == 0 {
        a
    } else {
        (a << (n % 32)) | (a >> ((32 - n % 32) as u32))
    }
}

fn rotl32(a: u32, n: u32) -> (r: u32)
    ensures
        r == rotl32_of(a, n),
{
    let k: u32 = n % 32;
    if k == 0 {
        a
    } else {
        (a << k) | (a >> (32 - k))
    }
}

/// `a` rotated right by `n` bits, modulo the width.
pub open spec fn rotr32_of(a: u32, n: u32) -> u32 {
    if n % 32 == 0 {
        a
    } else {
        (a >> (n % 32)) | (a << ((32 - n % 32) as u32))
    }
}

fn rotr32(a: u32, n: u32) -> (r: u32)
    ensures
        r == rotr32_of(a, n),
{
    let k: u32 = n % 32;
    if k == 0 {
        a
    } else {
        (a >> k) | (a << (32 - k))
    }
}

/// Signed 64-bit division.
pub open spec fn div_s64_of(a: i64, b: i64) -> Result<Value, WasmError> {
    if b == 0 {
        Err(WasmError::Trap(TrapCode::DivisionByZero))
    } else if a == i64::MIN && b == -1 {
        Err(WasmError::Trap(TrapCode::IntegerOverflow))
    } else {
        Ok(Value::I64(quotient(a as int, b as int) as i64))
    }
}

fn div_s64(a: i64, b: i64) -> (r: Result<Value, WasmError>)
    ensures
        r == div_s64_of(a, b),
{
    if b == 0 {
        return Err(WasmError::Trap(TrapCode::DivisionByZero));
    }
    proof {
        lemma_quotient_bound(a as int, b as int);
    }
    match a.checked_div(b) {
        Some(q) => Ok(Value::I64(q)),
        None => Err(WasmError::Trap(TrapCode::IntegerOverflow)),
    }
}

/// Unsigned 64-bit division.
pub open spec fn div_u64_of(a: i64, b: i64) -> Result<Value, WasmError> {
    if b as u64 == 0 {
        Err(WasmError::Trap(TrapCode::DivisionByZero))
    } else {
        Ok(Value::I64((a as u64 / b as u64) as i64))
    }
}

fn div_u64(a: i64, b: i64) -> (r: Result<Value, WasmError>)
    ensures
        r == div_u64_of(a, b),
{
    if b as u64 == 0 {
        return Err(WasmError::Trap(TrapCode::DivisionByZero));
    }
    Ok(Value::I64((a as u64 / b as u64) as i64))
}

/// Signed 64-bit remainder.
pub open spec fn rem_s64_of(a: i64, b: i64) -> Result<Value, WasmError> {
    if b == 0 {
        Err(WasmError::Trap(TrapCode::DivisionByZero))
    } else {
        Ok(Value::I64(remainder(a as int, b as int) as i64))
    }
}

fn rem_s64(a: i64, b: i64) -> (r: Result<Value, WasmError>)
    ensures
        r == rem_s64_of(a, b),
{
    if b == 0 {
        return Err(WasmError::Trap(TrapCode::DivisionByZero));
    }
    proof {
        lemma_remainder_bound(a as int, b as int);
    }
    match a.checked_rem(b) {
        Some(m) => Ok(Value::I64(m)),
        None => Ok(Value::I64(0)),
    }
}

/// Unsigned 64-bit remainder.
pub open spec fn rem_u64_of(a: i64, b: i64) -> Result<Value, WasmError> {
    if b as u64 == 0 {
        Err(WasmError::Trap(TrapCode::DivisionByZero))
    } else {
        Ok(Value::I64((a as u64 % b as u64) as i64))
    }
}

fn rem_u64(a: i64, b: i64) -> (r: Result<Value, WasmError>)
    ensures
        r == rem_u64_of(a, b),
{
    if b as u64 == 0 {
        return Err(WasmError::Trap(TrapCode::DivisionByZero));
    }
    Ok(Value::I64((a as u64 % b as u64) as i64))
}

/// `a` rotated left by `n` bits, modulo the width.
pub open spec fn rotl64_of(a: u64, n: u32) -> u64 {
    if n % 64 == 0 {
        a
    } else {
        (a << (n % 64)) | (a >> ((64 - n % 64) as u32))
    }
}

fn rotl64(a: u64, n: u32) -> (r: u64)
    ensures
        r == rotl64_of(a, n),
{
    let k: u32 = n % 64;
    if k == 0 {
        a
    } else {
        (a << k) | (a >> (64 - k))
    }
}

/// `a` rotated right by `n` bits, modulo the width.
pub open spec fn rotr64_of(a: u64, n: u32) -> u64 {
    if n % 64 == 0 {
        a
    } else {
        (a >> (n % 64)) | (a << ((64 - n % 64) as u32))
    }
}

fn rotr64(a: u64, n: u32) -> (r: u64)
    ensures
        r == rotr64_of(a, n),
{
    let k: u32 = n % 64;
    if k == 0 {
        a
    } else {
        (a >> k) | (a << (64 - k))
    }
}

/// The result of an instruction on one `i32`.
pub open spec fn unary_i32(i: Instr, a: i32) -> Value {
    match i {
        Instr::I32Eqz => Value::I32(flag_of(a == 0)),
        Instr::I32Clz => Value::I32(bits::u32_leading_zeros(a as u32) as i32),
        Instr::I32Ctz => Value::I32(bits::u32_trailing_zeros(a as u32) as i32),
        Instr::I32Popcnt => Value::I32(ones_of(a as u32 as nat) as i32),
        Instr::I64ExtendI32S => Value::I64(a as i64),
        Instr::I64ExtendI32U => Value::I64((a as u32) as i64),
        _ => Value::F32(a as u32),
    }
}

/// Executes an instruction on one `i32`.
pub fn run_unary_i32(i: &Instr, a: i32) -> (r: Value)
    ensures
        r == unary_i32(*i, a),
{
    match i {
        Instr::I32Eqz => Value::I32(flag(a == 0)),
        Instr::I32Clz => Value::I32((a as u32).leading_zeros() as i32),
        Instr::I32Ctz => Value::I32((a as u32).trailing_zeros() as i32),
        Instr::I32Popcnt => Value::I32(ones(a as u32 as u64) as i32),
        Instr::I64ExtendI32S => Value::I64(a as i64),
        Instr::I64ExtendI32U => Value::I64((a as u32) as i64),
        _ => Value::F32(a as u32),
    }
}

/// The result of an instruction on one `i64`.
pub open spec fn unary_i64(i: Instr, a: i64) -> Value {
    match i {
        Instr::I64Eqz => Value::I32(flag_of(a == 0)),
        Instr::I64Clz => Value::I64(bits::u64_leading_zeros(a as u64) as i64),
        Instr::I64Ctz => Value::I64(bits::u64_trailing_zeros(a as u64) as i64),
        Instr::I64Popcnt => Value::I64(ones_of(a as u64 as nat) as i64),
        Instr::I32WrapI64 => Value::I32(a as i32),
        _ => Value::F64(a as u64),
    }
}

/// Executes an instruction on one `i64`.
pub fn run_unary_i64(i: &Instr, a: i64) -> (r: Value)
    ensures
        r == unary_i64(*i, a),
{
    match i {
        Instr::I64Eqz => Value::I32(flag(a == 0)),
        Instr::I64Clz => Value::I64((a as u64).leading_zeros() as i64),
        Instr::I64Ctz => Value::I64((a as u64).trailing_zeros() as i64),
        Instr::I64Popcnt => Value::I64(ones(a as u64) as i64),
        Instr::I32WrapI64 => Value::I32(a as i32),
        _ => Value::F64(a as u64),
    }
}

/// The result of an instruction on two `i32`.
pub open spec fn binary_i32(i: Instr, a: i32, b: i32) -> Result<Value, WasmError> {
    match i {
        Instr::I32Eq => Ok(Value::I32(flag_of(a == b))),
        Instr::I32Ne => Ok(Value::I32(flag_of(a != b))),
        Instr::I32LtS => Ok(Value::I32(flag_of(a < b))),
        Instr::I32LtU => Ok(Value::I32(flag_of((a as u32) < (b as u32)))),
        Instr::I32GtS => Ok(Value::I32(flag_of(a > b))),
        Instr::I32GtU => Ok(Value::I32(flag_of((a as u32) > (b as u32)))),
        Instr::I32LeS => Ok(Value::I32(flag_of(a <= b))),
        Instr::I32LeU => Ok(Value::I32(flag_of((a as u32) <= (b as u32)))),
        Instr::I32GeS => Ok(Value::I32(flag_of(a >= b))),
        Instr::I32GeU => Ok(Value::I32(flag_of((a as u32) >= (b as u32)))),
        Instr::I32Add => Ok(Value::I32(a.wrapping_add(b))),
        Instr::I32Sub => Ok(Value::I32(a.wrapping_sub(b))),
        Instr::I32Mul => Ok(Value::I32(a.wrapping_mul(b))),
        Instr::I32DivS => div_s32_of(a, b),
        Instr::I32DivU => div_u32_of(a, b),
        Instr::I32RemS => rem_s32_of(a, b),
        Instr::I32RemU => rem_u32_of(a, b),
        Instr::I32And => Ok(Value::I32(a & b)),
        Instr::I32Or => Ok(Value::I32(a | b)),
        Instr::I32Xor => Ok(Value::I32(a ^ b)),
        Instr::I32Shl => Ok(Value::I32(a.wrapping_shl(b as u32))),
        Instr::I32ShrS => Ok(Value::I32(a.wrapping_shr(b as u32))),
        Instr::I32ShrU => Ok(Value::I32((a as u32).wrapping_shr(b as u32) as i32)),
        Instr::I32Rotl => Ok(Value::I32(rotl32_of(a as u32, b as u32) as i32)),
        Instr::I32Rotr => Ok(Value::I32(rotr32_of(a as u32, b as u32) as i32)),
        _ => Err(WasmError::TypeMismatch),
    }
}

/// Executes an instruction on two `i32`.
#[verifier::rlimit(50)]
pub fn run_binary_i32(i: &Instr, a: i32, b: i32) -> (r: Result<Value, WasmError>)
    ensures
        r == binary_i32(*i, a, b),
{
    match i {
        Instr::I32Eq => Ok(Value::I32(flag(a == b))),
        Instr::I32Ne => Ok(Value::I32(flag(a != b))),
        Instr::I32LtS => Ok(Value::I32(flag(a < b))),
        Instr::I32LtU => Ok(Value::I32(flag((a as u32) < (b as u32)))),
        Instr::I32GtS => Ok(Value::I32(flag(a > b))),
        Instr::I32GtU => Ok(Value::I32(flag((a as u32) > (b as u32)))),
        Instr::I32LeS => Ok(Value::I32(flag(a <= b))),
        Instr::I32LeU => Ok(Value::I32(flag((a as u32) <= (b as u32)))),
        Instr::I32GeS => Ok(Value::I32(flag(a >= b))),
        Instr::I32GeU => Ok(Value::I32(flag((a as u32) >= (b as u32)))),
        Instr::I32Add => Ok(Value::I32(a.wrapping_add(b))),
        Instr::I32Sub => Ok(Value::I32(a.wrapping_sub(b))),
        Instr::I32Mul => Ok(Value::I32(a.wrapping_mul(b))),
        Instr::I32DivS => div_s32(a, b),
        Instr::I32DivU => div_u32(a, b),
        Instr::I32RemS => rem_s32(a, b),
        Instr::I32RemU => rem_u32(a, b),
        Instr::I32And => Ok(Value::I32(a & b)),
        Instr::I32Or => Ok(Value::I32(a | b)),
        Instr::I32Xor => Ok(Value::I32(a ^ b)),
        Instr::I32Shl => Ok(Value::I32(a.wrapping_shl(b as u32))),
        Instr::I32ShrS => Ok(Value::I32(a.wrapping_shr(b as u32))),
        Instr::I32ShrU => Ok(Value::I32((a as u32).wrapping_shr(b as u32) as i32)),
        Instr::I32Rotl => Ok(Value::I32(rotl32(a as u32, b as u32) as i32)),
        Instr::I32Rotr => Ok(Value::I32(rotr32(a as u32, b as u32) as i32)),
        _ => Err(WasmError::TypeMismatch),
    }
}

/// The result of an instruction on two `i64`.
pub open spec fn binary_i64(i: Instr, a: i64, b: i64) -> Result<Value, WasmError> {
    match i {
        Instr::I64Eq => Ok(Value::I32(flag_of(a == b))),
        Instr::I64Ne => Ok(Value::I32(flag_of(a != b))),
        Instr::I64LtS => Ok(Value::I32(flag_of(a < b))),
        Instr::I64LtU => Ok(Value::I32(flag_of((a as u64) < (b as u64)))),
        Instr::I64GtS => Ok(Value::I32(flag_of(a > b))),
        Instr::I64GtU => Ok(Value::I32(flag_of((a as u64) > (b as u64)))),
        Instr::I64LeS => Ok(Value::I32(flag_of(a <= b))),
        Instr::I64LeU => Ok(Value::I32(flag_of((a as u64) <= (b as u64)))),
        Instr::I64GeS => Ok(Value::I32(flag_of(a >= b))),
        Instr::I64GeU => Ok(Value::I32(flag_of((a as u64) >= (b as u64)))),
        Instr::I64Add => Ok(Value::I64(a.wrapping_add(b))),
        Instr::I64Sub => Ok(Value::I64(a.wrapping_sub(b))),
        Instr::I64Mul => Ok(Value::I64(a.wrapping_mul(b))),
        Instr::I64DivS => div_s64_of(a, b),
        Instr::I64DivU => div_u64_of(a, b),
        Instr::I64RemS => rem_s64_of(a, b),
        Instr::I64RemU => rem_u64_of(a, b),
        Instr::I64And => Ok(Value::I64(a & b)),
        Instr::I64Or => Ok(Value::I64(a | b)),
        Instr::I64Xor => Ok(Value::I64(a ^ b)),
        Instr::I64Shl => Ok(Value::I64(a.wrapping_shl(b as u32))),
        Instr::I64ShrS => Ok(Value::I64(a.wrapping_shr(b as u32))),
        Instr::I64ShrU => Ok(Value::I64((a as u64).wrapping_shr(b as u32) as i64)),
        Instr::I64Rotl => Ok(Value::I64(rotl64_of(a as u64, b as u32) as i64)),
        Instr::I64Rotr => Ok(Value::I64(rotr64_of(a as u64, b as u32) as i64)),
        _ => Err(WasmError::TypeMismatch),
    }
}

/// Executes an instruction on two `i64`.
#[verifier::rlimit(50)]
pub fn run_binary_i64(i: &Instr, a: i64, b: i64) -> (r: Result<Value, WasmError>)
    ensures
        r == binary_i64(*i, a, b),
{
    match i {
        Instr::I64Eq => Ok(Value::I32(flag(a == b))),
        Instr::I64Ne => Ok(Value::I32(flag(a != b))),
        Instr::I64LtS => Ok(Value::I32(flag(a < b))),
        Instr::I64LtU => Ok(Value::I32(flag((a as u64) < (b as u64)))),
        Instr::I64GtS => Ok(Value::I32(flag(a > b))),
        Instr::I64GtU => Ok(Value::I32(flag((a as u64) > (b as u64)))),
        Instr::I64LeS => Ok(Value::I32(flag(a <= b))),
        Instr::I64LeU => Ok(Value::I32(flag((a as u64) <= (b as u64)))),
        Instr::I64GeS => Ok(Value::I32(flag(a >= b))),
        Instr::I64GeU => Ok(Value::I32(flag((a as u64) >= (b as u64)))),
        Instr::I64Add => Ok(Value::I64(a.wrapping_add(b))),
        Instr::I64Sub => Ok(Value::I64(a.wrapping_sub(b))),
        Instr::I64Mul => Ok(Value::I64(a.wrapping_mul(b))),
        Instr::I64DivS => div_s64(a, b),
        Instr::I64DivU => div_u64(a, b),
        Instr::I64RemS => rem_s64(a, b),
        Instr::I64RemU => rem_u64(a, b),
        Instr::I64And => Ok(Value::I64(a & b)),
        Instr::I64Or => Ok(Value::I64(a | b)),
        Instr::I64Xor => Ok(Value::I64(a ^ b)),
        Instr::I64Shl => Ok(Value::I64(a.wrapping_shl(b as u32))),
        Instr::I64ShrS => Ok(Value::I64(a.wrapping_shr(b as u32))),
        Instr::I64ShrU => Ok(Value::I64((a as u64).wrapping_shr(b as u32) as i64)),
        Instr::I64Rotl => Ok(Value::I64(rotl64(a as u64, b as u32) as i64)),
        Instr::I64Rotr => Ok(Value::I64(rotr64(a as u64, b as u32) as i64)),
        _ => Err(WasmError::TypeMismatch),
    }
}

} // verus!
