//! The instruction set and its decoder.
use vstd::prelude::*;

use crate::decode;
use crate::reader;
use crate::reader::{Cursor, Reader};
use crate::types;
use crate::types::{ValType, WasmError};

verus! {

/// Alignment hint and offset of a memory access.
#[derive(Debug, Clone, Copy, PartialEq, Eq, Structural)]
pub struct MemArg {
    pub align: u32,
    pub offset: u32,
}

/// The type of a block: nothing, one value, or a signature by index.
#[derive(Debug, Clone, Copy, PartialEq, Eq, Structural)]
pub enum BlockType {
    Empty,
    Val(ValType),
    TypeIdx(u32),
}

/// A decoded instruction. Code is decoded one instruction at a time.
#[derive(Debug, Clone)]
pub enum Instr {
    Unreachable,
    Nop,
    Block(BlockType),
    Loop(BlockType),
    If(BlockType),
    Else,
    End,
    Br(u32),
    BrIf(u32),
    BrTable(Vec<u32>, u32),
    Return,
    Call(u32),
    CallIndirect(u32, u32),
    Drop,
    Select,
    LocalGet(u32),
    LocalSet(u32),
    LocalTee(u32),
    GlobalGet(u32),
    GlobalSet(u32),
    I32Load(MemArg),
    I64Load(MemArg),
    F32Load(MemArg),
    F64Load(MemArg),
    I32Load8S(MemArg),
    I32Load8U(MemArg),
    I32Load16S(MemArg),
    I32Load16U(MemArg),
    I64Load8S(MemArg),
    I64Load8U(MemArg),
    I64Load16S(MemArg),
    I64Load16U(MemArg),
    I64Load32S(MemArg),
    I64Load32U(MemArg),
    I32Store(MemArg),
    I64Store(MemArg),
    F32Store(MemArg),
    F64Store(MemArg),
    I32Store8(MemArg),
    I32Store16(MemArg),
    I64Store8(MemArg),
    I64Store16(MemArg),
    I64Store32(MemArg),
    MemorySize,
    MemoryGrow,
    I32Const(i32),
    I64Const(i64),
    F32Const(u32),
    F64Const(u64),
    I32Eqz,
    I32Eq,
    I32Ne,
    I32LtS,
    I32LtU,
    I32GtS,
    I32GtU,
    I32LeS,
    I32LeU,
    I32GeS,
    I32GeU,
    I64Eqz,
    I64Eq,
    I64Ne,
    I64LtS,
    I64LtU,
    I64GtS,
    I64GtU,
    I64LeS,
    I64LeU,
    I64GeS,
    I64GeU,
    F32Eq,
    F32Ne,
    F32Lt,
    F32Gt,
    F32Le,
    F32Ge,
    F64Eq,
    F64Ne,
    F64Lt,
    F64Gt,
    F64Le,
    F64Ge,
    I32Clz,
    I32Ctz,
    I32Popcnt,
    I32Add,
    I32Sub,
    I32Mul,
    I32DivS,
    I32DivU,
    I32RemS,
    I32RemU,
    I32And,
    I32Or,
    I32Xor,
    I32Shl,
    I32ShrS,
    I32ShrU,
    I32Rotl,
    I32Rotr,
    I64Clz,
    I64Ctz,
    I64Popcnt,
    I64Add,
    I64Sub,
    I64Mul,
    I64DivS,
    I64DivU,
    I64RemS,
    I64RemU,
    I64And,
    I64Or,
    I64Xor,
    I64Shl,
    I64ShrS,
    I64ShrU,
    I64Rotl,
    I64Rotr,
    F32Abs,
    F32Neg,
    F32Ceil,
    F32Floor,
    F32Trunc,
    F32Nearest,
    F32Sqrt,
    F32Add,
    F32Sub,
    F32Mul,
    F32Div,
    F32Min,
    F32Max,
    F32Copysign,
    F64Abs,
    F64Neg,
    F64Ceil,
    F64Floor,
    F64Trunc,
    F64Nearest,
    F64Sqrt,
    F64Add,
    F64Sub,
    F64Mul,
    F64Div,
    F64Min,
    F64Max,
    F64Copysign,
    I32WrapI64,
    I32TruncF32S,
    I32TruncF32U,
    I32TruncF64S,
    I32TruncF64U,
    I64ExtendI32S,
    I64ExtendI32U,
    I64TruncF32S,
    I64TruncF32U,
    I64TruncF64S,
    I64TruncF64U,
    F32ConvertI32S,
    F32ConvertI32U,
    F32ConvertI64S,
    F32ConvertI64U,
    F32DemoteF64,
    F64ConvertI32S,
    F64ConvertI32U,
    F64ConvertI64S,
    F64ConvertI64U,
    F64PromoteF32,
    I32ReinterpretF32,
    I64ReinterpretF64,
    F32ReinterpretI32,
    F64ReinterpretI64,
}

/// Mathematical model of an [`Instr`].
#[verifier::ext_equal]
pub enum InstrModel {
    /// A branch table: the labels and the default.
    BrTable(Seq<u32>, u32),
    /// Any other instruction, as it is.
    Plain(Instr),
}

impl View for Instr {
    type V = InstrModel;

    open spec fn view(&self) -> InstrModel {
        match *self {
            Instr::BrTable(labels, default) => InstrModel::BrTable(labels@, default),
            i => InstrModel::Plain(i),
        }
    }
}

/// The instruction of an opcode without immediate operands.
pub open spec fn plain_instr(op: u8) -> Option<Instr> {
    match op {
        0x00u8 => Some(Instr::Unreachable),
        0x01u8 => Some(Instr::Nop),
        0x05u8 => Some(Instr::Else),
        0x0Fu8 => Some(Instr::Return),
        0x1Au8 => Some(Instr::Drop),
        0x1Bu8 => Some(Instr::Select),
        0x45u8 => Some(Instr::I32Eqz),
        0x46u8 => Some(Instr::I32Eq),
        0x47u8 => Some(Instr::I32Ne),
        0x48u8 => Some(Instr::I32LtS),
        0x49u8 => Some(Instr::I32LtU),
        0x4Au8 => Some(Instr::I32GtS),
        0x4Bu8 => Some(Instr::I32GtU),
        0x4Cu8 => Some(Instr::I32LeS),
        0x4Du8 => Some(Instr::I32LeU),
        0x4Eu8 => Some(Instr::I32GeS),
        0x4Fu8 => Some(Instr::I32GeU),
        0x50u8 => Some(Instr::I64Eqz),
        0x51u8 => Some(Instr::I64Eq),
        0x52u8 => Some(Instr::I64Ne),
        0x53u8 => Some(Instr::I64LtS),
        0x54u8 => Some(Instr::I64LtU),
        0x55u8 => Some(Instr::I64GtS),
        0x56u8 => Some(Instr::I64GtU),
        0x57u8 => Some(Instr::I64LeS),
        0x58u8 => Some(Instr::I64LeU),
        0x59u8 => Some(Instr::I64GeS),
        0x5Au8 => Some(Instr::I64GeU),
        0x5Bu8 => Some(Instr::F32Eq),
        0x5Cu8 => Some(Instr::F32Ne),
        0x5Du8 => Some(Instr::F32Lt),
        0x5Eu8 => Some(Instr::F32Gt),
        0x5Fu8 => Some(Instr::F32Le),
        0x60u8 => Some(Instr::F32Ge),
        0x61u8 => Some(Instr::F64Eq),
        0x62u8 => Some(Instr::F64Ne),
        0x63u8 => Some(Instr::F64Lt),
        0x64u8 => Some(Instr::F64Gt),
        0x65u8 => Some(Instr::F64Le),
        0x66u8 => Some(Instr::F64Ge),
        0x67u8 => Some(Instr::I32Clz),
        0x68u8 => Some(Instr::I32Ctz),
        0x69u8 => Some(Instr::I32Popcnt),
        0x6Au8 => Some(Instr::I32Add),
        0x6Bu8 => Some(Instr::I32Sub),
        0x6Cu8 => Some(Instr::I32Mul),
        0x6Du8 => Some(Instr::I32DivS),
        0x6Eu8 => Some(Instr::I32DivU),
        0x6Fu8 => Some(Instr::I32RemS),
        0x70u8 => Some(Instr::I32RemU),
        0x71u8 => Some(Instr::I32And),
        0x72u8 => Some(Instr::I32Or),
        0x73u8 => Some(Instr::I32Xor),
        0x74u8 => Some(Instr::I32Shl),
        0x75u8 => Some(Instr::I32ShrS),
        0x76u8 => Some(Instr::I32ShrU),
        0x77u8 => Some(Instr::I32Rotl),
        0x78u8 => Some(Instr::I32Rotr),
        0x79u8 => Some(Instr::I64Clz),
        0x7Au8 => Some(Instr::I64Ctz),
        0x7Bu8 => Some(Instr::I64Popcnt),
        0x7Cu8 => Some(Instr::I64Add),
        0x7Du8 => Some(Instr::I64Sub),
        0x7Eu8 => Some(Instr::I64Mul),
        0x7Fu8 => Some(Instr::I64DivS),
        0x80u8 => Some(Instr::I64DivU),
        0x81u8 => Some(Instr::I64RemS),
        0x82u8 => Some(Instr::I64RemU),
        0x83u8 => Some(Instr::I64And),
        0x84u8 => Some(Instr::I64Or),
        0x85u8 => Some(Instr::I64Xor),
        0x86u8 => Some(Instr::I64Shl),
        0x87u8 => Some(Instr::I64ShrS),
        0x88u8 => Some(Instr::I64ShrU),
        0x89u8 => Some(Instr::I64Rotl),
        0x8Au8 => Some(Instr::I64Rotr),
        0x8Bu8 => Some(Instr::F32Abs),
        0x8Cu8 => Some(Instr::F32Neg),
        0x8Du8 => Some(Instr::F32Ceil),
        0x8Eu8 => Some(Instr::F32Floor),
        0x8Fu8 => Some(Instr::F32Trunc),
        0x90u8 => Some(Instr::F32Nearest),
        0x91u8 => Some(Instr::F32Sqrt),
        0x92u8 => Some(Instr::F32Add),
        0x93u8 => Some(Instr::F32Sub),
        0x94u8 => Some(Instr::F32Mul),
        0x95u8 => Some(Instr::F32Div),
        0x96u8 => Some(Instr::F32Min),
        0x97u8 => Some(Instr::F32Max),
        0x98u8 => Some(Instr::F32Copysign),
        0x99u8 => Some(Instr::F64Abs),
        0x9Au8 => Some(Instr::F64Neg),
        0x9Bu8 => Some(Instr::F64Ceil),
        0x9Cu8 => Some(Instr::F64Floor),
        0x9Du8 => Some(Instr::F64Trunc),
        0x9Eu8 => Some(Instr::F64Nearest),
        0x9Fu8 => Some(Instr::F64Sqrt),
        0xA0u8 => Some(Instr::F64Add),
        0xA1u8 => Some(Instr::F64Sub),
        0xA2u8 => Some(Instr::F64Mul),
        0xA3u8 => Some(Instr::F64Div),
        0xA4u8 => Some(Instr::F64Min),
        0xA5u8 => Some(Instr::F64Max),
        0xA6u8 => Some(Instr::F64Copysign),
        0xA7u8 => Some(Instr::I32WrapI64),
        0xA8u8 => Some(Instr::I32TruncF32S),
        0xA9u8 => Some(Instr::I32TruncF32U),
        0xAAu8 => Some(Instr::I32TruncF64S),
        0xABu8 => Some(Instr::I32TruncF64U),
        0xACu8 => Some(Instr::I64ExtendI32S),
        0xADu8 => Some(Instr::I64ExtendI32U),
        0xAEu8 => Some(Instr::I64TruncF32S),
        0xAFu8 => Some(Instr::I64TruncF32U),
        0xB0u8 => Some(Instr::I64TruncF64S),
        0xB1u8 => Some(Instr::I64TruncF64U),
        0xB2u8 => Some(Instr::F32ConvertI32S),
        0xB3u8 => Some(Instr::F32ConvertI32U),
        0xB4u8 => Some(Instr::F32ConvertI64S),
        0xB5u8 => Some(Instr::F32ConvertI64U),
        0xB6u8 => Some(Instr::F32DemoteF64),
        0xB7u8 => Some(Instr::F64ConvertI32S),
        0xB8u8 => Some(Instr::F64ConvertI32U),
        0xB9u8 => Some(Instr::F64ConvertI64S),
        0xBAu8 => Some(Instr::F64ConvertI64U),
        0xBBu8 => Some(Instr::F64PromoteF32),
        0xBCu8 => Some(Instr::I32ReinterpretF32),
        0xBDu8 => Some(Instr::I64ReinterpretF64),
        0xBEu8 => Some(Instr::F32ReinterpretI32),
        0xBFu8 => Some(Instr::F64ReinterpretI64),
        _ => None,
    }
}

#[verifier::rlimit(50)]
fn decode_plain(op: u8) -> (r: Option<Instr>)
    ensures
        r == plain_instr(op),
        r matches Some(i) ==> i@ == InstrModel::Plain(i),
{
    match op {
        0x00 => Some(Instr::Unreachable),
        0x01 => Some(Instr::Nop),
        0x05 => Some(Instr::Else),
        0x0F => Some(Instr::Return),
        0x1A => Some(Instr::Drop),
        0x1B => Some(Instr::Select),
        0x45 => Some(Instr::I32Eqz),
        0x46 => Some(Instr::I32Eq),
        0x47 => Some(Instr::I32Ne),
        0x48 => Some(Instr::I32LtS),
        0x49 => Some(Instr::I32LtU),
        0x4A => Some(Instr::I32GtS),
        0x4B => Some(Instr::I32GtU),
        0x4C => Some(Instr::I32LeS),
        0x4D => Some(Instr::I32LeU),
        0x4E => Some(Instr::I32GeS),
        0x4F => Some(Instr::I32GeU),
        0x50 => Some(Instr::I64Eqz),
        0x51 => Some(Instr::I64Eq),
        0x52 => Some(Instr::I64Ne),
        0x53 => Some(Instr::I64LtS),
        0x54 => Some(Instr::I64LtU),
        0x55 => Some(Instr::I64GtS),
        0x56 => Some(Instr::I64GtU),
        0x57 => Some(Instr::I64LeS),
        0x58 => Some(Instr::I64LeU),
        0x59 => Some(Instr::I64GeS),
        0x5A => Some(Instr::I64GeU),
        0x5B => Some(Instr::F32Eq),
        0x5C => Some(Instr::F32Ne),
        0x5D => Some(Instr::F32Lt),
        0x5E => Some(Instr::F32Gt),
        0x5F => Some(Instr::F32Le),
        0x60 => Some(Instr::F32Ge),
        0x61 => Some(Instr::F64Eq),
        0x62 => Some(Instr::F64Ne),
        0x63 => Some(Instr::F64Lt),
        0x64 => Some(Instr::F64Gt),
        0x65 => Some(Instr::F64Le),
        0x66 => Some(Instr::F64Ge),
        0x67 => Some(Instr::I32Clz),
        0x68 => Some(Instr::I32Ctz),
        0x69 => Some(Instr::I32Popcnt),
        0x6A => Some(Instr::I32Add),
        0x6B => Some(Instr::I32Sub),
        0x6C => Some(Instr::I32Mul),
        0x6D => Some(Instr::I32DivS),
        0x6E => Some(Instr::I32DivU),
        0x6F => Some(Instr::I32RemS),
        0x70 => Some(Instr::I32RemU),
        0x71 => Some(Instr::I32And),
        0x72 => Some(Instr::I32Or),
        0x73 => Some(Instr::I32Xor),
        0x74 => Some(Instr::I32Shl),
        0x75 => Some(Instr::I32ShrS),
        0x76 => Some(Instr::I32ShrU),
        0x77 => Some(Instr::I32Rotl),
        0x78 => Some(Instr::I32Rotr),
        0x79 => Some(Instr::I64Clz),
        0x7A => Some(Instr::I64Ctz),
        0x7B => Some(Instr::I64Popcnt),
        0x7C => Some(Instr::I64Add),
        0x7D => Some(Instr::I64Sub),
        0x7E => Some(Instr::I64Mul),
        0x7F => Some(Instr::I64DivS),
        0x80 => Some(Instr::I64DivU),
        0x81 => Some(Instr::I64RemS),
        0x82 => Some(Instr::I64RemU),
        0x83 => Some(Instr::I64And),
        0x84 => Some(Instr::I64Or),
        0x85 => Some(Instr::I64Xor),
        0x86 => Some(Instr::I64Shl),
        0x87 => Some(Instr::I64ShrS),
        0x88 => Some(Instr::I64ShrU),
        0x89 => Some(Instr::I64Rotl),
        0x8A => Some(Instr::I64Rotr),
        0x8B => Some(Instr::F32Abs),
        0x8C => Some(Instr::F32Neg),
        0x8D => Some(Instr::F32Ceil),
        0x8E => Some(Instr::F32Floor),
        0x8F => Some(Instr::F32Trunc),
        0x90 => Some(Instr::F32Nearest),
        0x91 => Some(Instr::F32Sqrt),
        0x92 => Some(Instr::F32Add),
        0x93 => Some(Instr::F32Sub),
        0x94 => Some(Instr::F32Mul),
        0x95 => Some(Instr::F32Div),
        0x96 => Some(Instr::F32Min),
        0x97 => Some(Instr::F32Max),
        0x98 => Some(Instr::F32Copysign),
        0x99 => Some(Instr::F64Abs),
        0x9A => Some(Instr::F64Neg),
        0x9B => Some(Instr::F64Ceil),
        0x9C => Some(Instr::F64Floor),
        0x9D => Some(Instr::F64Trunc),
        0x9E => Some(Instr::F64Nearest),
        0x9F => Some(Instr::F64Sqrt),
        0xA0 => Some(Instr::F64Add),
        0xA1 => Some(Instr::F64Sub),
        0xA2 => Some(Instr::F64Mul),
        0xA3 => Some(Instr::F64Div),
        0xA4 => Some(Instr::F64Min),
        0xA5 => Some(Instr::F64Max),
        0xA6 => Some(Instr::F64Copysign),
        0xA7 => Some(Instr::I32WrapI64),
        0xA8 => Some(Instr::I32TruncF32S),
        0xA9 => Some(Instr::I32TruncF32U),
        0xAA => Some(Instr::I32TruncF64S),
        0xAB => Some(Instr::I32TruncF64U),
        0xAC => Some(Instr::I64ExtendI32S),
        0xAD => Some(Instr::I64ExtendI32U),
        0xAE => Some(Instr::I64TruncF32S),
        0xAF => Some(Instr::I64TruncF32U),
        0xB0 => Some(Instr::I64TruncF64S),
        0xB1 => Some(Instr::I64TruncF64U),
        0xB2 => Some(Instr::F32ConvertI32S),
        0xB3 => Some(Instr::F32ConvertI32U),
        0xB4 => Some(Instr::F32ConvertI64S),
        0xB5 => Some(Instr::F32ConvertI64U),
        0xB6 => Some(Instr::F32DemoteF64),
        0xB7 => Some(Instr::F64ConvertI32S),
        0xB8 => Some(Instr::F64ConvertI32U),
        0xB9 => Some(Instr::F64ConvertI64S),
        0xBA => Some(Instr::F64ConvertI64U),
        0xBB => Some(Instr::F64PromoteF32),
        0xBC => Some(Instr::I32ReinterpretF32),
        0xBD => Some(Instr::I64ReinterpretF64),
        0xBE => Some(Instr::F32ReinterpretI32),
        0xBF => Some(Instr::F64ReinterpretI64),
        _ => None,
    }
}

/// The memory access with opcode `op`, from 0x28 to 0x3E.
pub open spec fn mem_instr(op: u8, ma: MemArg) -> Instr {
    match op {
        0x28u8 => Instr::I32Load(ma),
        0x29u8 => Instr::I64Load(ma),
        0x2Au8 => Instr::F32Load(ma),
        0x2Bu8 => Instr::F64Load(ma),
        0x2Cu8 => Instr::I32Load8S(ma),
        0x2Du8 => Instr::I32Load8U(ma),
        0x2Eu8 => Instr::I32Load16S(ma),
        0x2Fu8 => Instr::I32Load16U(ma),
        0x30u8 => Instr::I64Load8S(ma),
        0x31u8 => Instr::I64Load8U(ma),
        0x32u8 => Instr::I64Load16S(ma),
        0x33u8 => Instr::I64Load16U(ma),
        0x34u8 => Instr::I64Load32S(ma),
        0x35u8 => Instr::I64Load32U(ma),
        0x36u8 => Instr::I32Store(ma),
        0x37u8 => Instr::I64Store(ma),
        0x38u8 => Instr::F32Store(ma),
        0x39u8 => Instr::F64Store(ma),
        0x3Au8 => Instr::I32Store8(ma),
        0x3Bu8 => Instr::I32Store16(ma),
        0x3Cu8 => Instr::I64Store8(ma),
        0x3Du8 => Instr::I64Store16(ma),
        _ => Instr::I64Store32(ma),
    }
}

fn decode_mem(op: u8, ma: MemArg) -> (r: Instr)
    ensures
        r == mem_instr(op, ma),
        r@ == InstrModel::Plain(r),
{
    match op {
        0x28 => Instr::I32Load(ma),
        0x29 => Instr::I64Load(ma),
        0x2A => Instr::F32Load(ma),
        0x2B => Instr::F64Load(ma),
        0x2C => Instr::I32Load8S(ma),
        0x2D => Instr::I32Load8U(ma),
        0x2E => Instr::I32Load16S(ma),
        0x2F => Instr::I32Load16U(ma),
        0x30 => Instr::I64Load8S(ma),
        0x31 => Instr::I64Load8U(ma),
        0x32 => Instr::I64Load16S(ma),
        0x33 => Instr::I64Load16U(ma),
        0x34 => Instr::I64Load32S(ma),
        0x35 => Instr::I64Load32U(ma),
        0x36 => Instr::I32Store(ma),
        0x37 => Instr::I64Store(ma),
        0x38 => Instr::F32Store(ma),
        0x39 => Instr::F64Store(ma),
        0x3A => Instr::I32Store8(ma),
        0x3B => Instr::I32Store16(ma),
        0x3C => Instr::I64Store8(ma),
        0x3D => Instr::I64Store16(ma),
        _ => Instr::I64Store32(ma),
    }
}

/// The instruction with opcode `op` and one index, if it is one.
pub open spec fn index_instr(op: u8, i: u32) -> Option<Instr> {
    match op {
        0x0Cu8 => Some(Instr::Br(i)),
        0x0Du8 => Some(Instr::BrIf(i)),
        0x10u8 => Some(Instr::Call(i)),
        0x20u8 => Some(Instr::LocalGet(i)),
        0x21u8 => Some(Instr::LocalSet(i)),
        0x22u8 => Some(Instr::LocalTee(i)),
        0x23u8 => Some(Instr::GlobalGet(i)),
        0x24u8 => Some(Instr::GlobalSet(i)),
        _ => None,
    }
}

/// Whether an opcode takes one index.
pub open spec fn has_index(op: u8) -> bool {
    op == 0x0C || op == 0x0D || op == 0x10 || 0x20 <= op <= 0x24
}

fn decode_index(op: u8, i: u32) -> (r: Option<Instr>)
    ensures
        r == index_instr(op, i),
        r matches Some(x) ==> x@ == InstrModel::Plain(x),
{
    match op {
        0x0C => Some(Instr::Br(i)),
        0x0D => Some(Instr::BrIf(i)),
        0x10 => Some(Instr::Call(i)),
        0x20 => Some(Instr::LocalGet(i)),
        0x21 => Some(Instr::LocalSet(i)),
        0x22 => Some(Instr::LocalTee(i)),
        0x23 => Some(Instr::GlobalGet(i)),
        0x24 => Some(Instr::GlobalSet(i)),
        _ => None,
    }
}

/// A block type at position `p`.
pub open spec fn blocktype_at(d: Seq<u8>, p: int) -> Cursor<BlockType> {
    if p >= d.len() {
        (Err(WasmError::UnexpectedEof), p)
    } else if d[p] == 0x40 {
        (Ok(BlockType::Empty), p + 1)
    } else if let Some(t) = decode::valtype_of(d[p]) {
        (Ok(BlockType::Val(t)), p + 1)
    } else {
        match reader::i32_at(d, p) {
            (Err(e), q) => (Err(e), q),
            (Ok(i), q) => (Ok(BlockType::TypeIdx(i as u32)), q),
        }
    }
}

fn read_blocktype(r: &mut Reader) -> (res: Result<BlockType, WasmError>)
    ensures
        final(r).data == old(r).data,
        (res, final(r).pos as int) == blocktype_at(old(r).data@, old(r).pos as int),
{
    if r.is_empty() {
        return Err(WasmError::UnexpectedEof);
    }
    let t: BlockType = match r.data[r.pos] {
        0x40 => BlockType::Empty,
        0x7F => BlockType::Val(ValType::I32),
        0x7E => BlockType::Val(ValType::I64),
        0x7D => BlockType::Val(ValType::F32),
        0x7C => BlockType::Val(ValType::F64),
        _ => {
            let i: i32 = r.read_i32()?;
            return Ok(BlockType::TypeIdx(i as u32));
        },
    };
    r.pos = r.pos + 1;
    Ok(t)
}

/// The operands of a memory access at position `p`.
pub open spec fn memarg_at(d: Seq<u8>, p: int) -> Cursor<MemArg> {
    match reader::u32_at(d, p) {
        (Err(e), q) => (Err(e), q),
        (Ok(align), q) => match reader::u32_at(d, q) {
            (Err(e), q2) => (Err(e), q2),
            (Ok(offset), q2) => (Ok(MemArg { align, offset }), q2),
        },
    }
}

fn read_memarg(r: &mut Reader) -> (res: Result<MemArg, WasmError>)
    ensures
        final(r).data == old(r).data,
        (res, final(r).pos as int) == memarg_at(old(r).data@, old(r).pos as int),
{
    let align: u32 = r.read_u32()?;
    let offset: u32 = r.read_u32()?;
    Ok(MemArg { align, offset })
}

/// A block, loop or if, by opcode.
pub open spec fn block_instr(op: u8, bt: BlockType) -> Instr {
    match op {
        0x02u8 => Instr::Block(bt),
        0x03u8 => Instr::Loop(bt),
        _ => Instr::If(bt),
    }
}

/// The outcome of reading an operand, turned into the outcome of decoding
/// the instruction that takes it.
pub open spec fn instr_with<T>(c: Cursor<T>, f: spec_fn(T) -> Instr) -> Cursor<Option<InstrModel>> {
    match c {
        (Err(e), q) => (Err(e), q),
        (Ok(x), q) => (Ok(Some(InstrModel::Plain(f(x)))), q),
    }
}

/// The branch table at position `p`, after its opcode.
pub open spec fn br_table_at(d: Seq<u8>, p: int) -> Cursor<Option<InstrModel>> {
    match decode::vec_at::<u32>(d, p) {
        (Err(e), q) => (Err(e), q),
        (Ok(labels), q) => match reader::u32_at(d, q) {
            (Err(e), q2) => (Err(e), q2),
            (Ok(default), q2) => (Ok(Some(InstrModel::BrTable(labels, default))), q2),
        },
    }
}

/// The indirect call at position `p`, after its opcode.
pub open spec fn call_indirect_at(d: Seq<u8>, p: int) -> Cursor<Option<InstrModel>> {
    match reader::u32_at(d, p) {
        (Err(e), q) => (Err(e), q),
        (Ok(ty), q) => match reader::u32_at(d, q) {
            (Err(e), q2) => (Err(e), q2),
            (Ok(table), q2) => (
                Ok(Some(InstrModel::Plain(Instr::CallIndirect(ty, table)))),
                q2,
            ),
        },
    }
}

/// The instruction at position `p`; `None` at an `end` opcode (0x0B) and
/// where the code stops.
pub open spec fn instr_at(d: Seq<u8>, p: int) -> Cursor<Option<InstrModel>> {
    if p >= d.len() {
        (Ok(None), p)
    } else {
        let op = d[p];
        let q = p + 1;
        if op == 0x0B {
            (Ok(None), q)
        } else if 0x02 <= op <= 0x04 {
            instr_with(blocktype_at(d, q), |bt: BlockType| block_instr(op, bt))
        } else if has_index(op) {
            instr_with(reader::u32_at(d, q), |i: u32| index_instr(op, i)->0)
        } else if op == 0x0E {
            br_table_at(d, q)
        } else if op == 0x11 {
            call_indirect_at(d, q)
        } else if 0x28 <= op <= 0x3E {
            instr_with(memarg_at(d, q), |ma: MemArg| mem_instr(op, ma))
        } else if op == 0x3F {
            (Ok(Some(InstrModel::Plain(Instr::MemorySize))), reader::byte_at(d, q).1)
        } else if op == 0x40 {
            (Ok(Some(InstrModel::Plain(Instr::MemoryGrow))), reader::byte_at(d, q).1)
        } else if op == 0x41 {
            instr_with(reader::i32_at(d, q), |v: i32| Instr::I32Const(v))
        } else if op == 0x42 {
            instr_with(reader::i64_at(d, q), |v: i64| Instr::I64Const(v))
        } else if op == 0x43 {
            instr_with(reader::f32_bits_at(d, q), |v: u32| Instr::F32Const(v))
        } else if op == 0x44 {
            instr_with(reader::f64_bits_at(d, q), |v: u64| Instr::F64Const(v))
        } else {
            match plain_instr(op) {
                Some(i) => (Ok(Some(InstrModel::Plain(i))), q),
                None => (Err(WasmError::InvalidOpcode(op)), q),
            }
        }
    }
}

/// Reading labels moves on within the code.
proof fn lemma_labels_inside(d: Seq<u8>, p: int, n: nat)
    requires
        0 <= p,
    ensures
        decode::many::<u32>(d, p, n).1 >= p,
        p <= d.len() ==> decode::many::<u32>(d, p, n).1 <= d.len(),
    decreases n,
{
    if n > 0 {
        lemma_labels_inside(d, p, (n - 1) as nat);
        reader::lemma_run_len(d, decode::many::<u32>(d, p, (n - 1) as nat).1);
    }
}

/// Decoding moves past at least the opcode, and never past the end of the
/// code.
pub proof fn law_decode_progress(d: Seq<u8>, p: int)
    requires
        0 <= p,
    ensures
        p < d.len() ==> p < instr_at(d, p).1 <= d.len(),
        p >= d.len() ==> instr_at(d, p) == (Ok::<Option<InstrModel>, WasmError>(None), p),
{
    if p < d.len() {
        let q = p + 1;
        reader::lemma_run_len(d, q);
        let q2 = reader::u32_at(d, q).1;
        reader::lemma_run_len(d, q2);
        if let (Ok(n), q) = reader::u32_at(d, p + 1) {
            lemma_labels_inside(d, q, n as nat);
            reader::lemma_run_len(d, decode::many::<u32>(d, q, n as nat).1);
        }
    }
}

/// The outcome of decoding, with the instruction replaced by its view.
pub open spec fn decoded(r: Result<Option<Instr>, WasmError>, pos: int) -> Cursor<
    Option<InstrModel>,
> {
    match r {
        Ok(Some(i)) => (Ok(Some(i@)), pos),
        Ok(None) => (Ok(None), pos),
        Err(e) => (Err(e), pos),
    }
}

/// Decodes one instruction, giving `None` at an `end` opcode (0x0B) and where
/// the code stops.
pub fn decode_instr(r: &mut Reader) -> (res: Result<Option<Instr>, WasmError>)
    ensures
        final(r).data == old(r).data,
        decoded(res, final(r).pos as int) == instr_at(old(r).data@, old(r).pos as int),
{
    if r.is_empty() {
        return Ok(None);
    }
    let op: u8 = r.read_byte()?;
    if op == 0x0B {
        return Ok(None);
    }
    let instr: Instr = if op == 0x02 {
        Instr::Block(read_blocktype(r)?)
    } else if op == 0x03 {
        Instr::Loop(read_blocktype(r)?)
    } else if op == 0x04 {
        Instr::If(read_blocktype(r)?)
    } else if op == 0x0E {
        let labels: Vec<u32> = decode::read_vec(r)?;
        assert(types::views(labels@) =~= labels@);
        let default: u32 = r.read_u32()?;
        Instr::BrTable(labels, default)
    } else if op == 0x11 {
        let ty: u32 = r.read_u32()?;
        let table: u32 = r.read_u32()?;
        Instr::CallIndirect(ty, table)
    } else if 0x28 <= op && op <= 0x3E {
        decode_mem(op, read_memarg(r)?)
    } else if op == 0x3F {
        let _ = r.read_byte();
        Instr::MemorySize
    } else if op == 0x40 {
        let _ = r.read_byte();
        Instr::MemoryGrow
    } else if op == 0x41 {
        Instr::I32Const(r.read_i32()?)
    } else if op == 0x42 {
        Instr::I64Const(r.read_i64()?)
    } else if op == 0x43 {
        Instr::F32Const(r.read_f32()?)
    } else if op == 0x44 {
        Instr::F64Const(r.read_f64()?)
    } else if op == 0x0C || op == 0x0D || op == 0x10 || (0x20 <= op && op <= 0x24) {
        match decode_index(op, r.read_u32()?) {
            Some(i) => i,
            None => return Err(WasmError::InvalidOpcode(op)),
        }
    } else {
        match decode_plain(op) {
            Some(i) => i,
            None => return Err(WasmError::InvalidOpcode(op)),
        }
    };
    Ok(Some(instr))
}

} // verus!
