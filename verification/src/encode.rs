//! The binary encoding of instructions, and that decoding undoes it.
use vstd::prelude::*;

use crate::bytes;
use crate::decode;
use crate::instr;
use crate::instr::{BlockType, Instr, InstrModel, MemArg};
use crate::leb;
use crate::reader;
use crate::scan;
use crate::types::{ValType, WasmError};

verus! {

/// The opcode of an instruction.
pub open spec fn opcode(i: Instr) -> u8 {
    match i {
        Instr::Block(_) => 0x02,
        Instr::Loop(_) => 0x03,
        Instr::If(_) => 0x04,
        Instr::End => 0x0B,
        Instr::BrTable(_, _) => 0x0E,
        Instr::CallIndirect(_, _) => 0x11,
        Instr::MemorySize => 0x3F,
        Instr::MemoryGrow => 0x40,
        Instr::I32Const(_) => 0x41,
        Instr::I64Const(_) => 0x42,
        Instr::F32Const(_) => 0x43,
        Instr::F64Const(_) => 0x44,
        Instr::Br(_) => 0x0C,
        Instr::BrIf(_) => 0x0D,
        Instr::Call(_) => 0x10,
        Instr::LocalGet(_) => 0x20,
        Instr::LocalSet(_) => 0x21,
        Instr::LocalTee(_) => 0x22,
        Instr::GlobalGet(_) => 0x23,
        Instr::GlobalSet(_) => 0x24,
        Instr::I32Load(_) => 0x28,
        Instr::I64Load(_) => 0x29,
        Instr::F32Load(_) => 0x2A,
        Instr::F64Load(_) => 0x2B,
        Instr::I32Load8S(_) => 0x2C,
        Instr::I32Load8U(_) => 0x2D,
        Instr::I32Load16S(_) => 0x2E,
        Instr::I32Load16U(_) => 0x2F,
        Instr::I64Load8S(_) => 0x30,
        Instr::I64Load8U(_) => 0x31,
        Instr::I64Load16S(_) => 0x32,
        Instr::I64Load16U(_) => 0x33,
        Instr::I64Load32S(_) => 0x34,
        Instr::I64Load32U(_) => 0x35,
        Instr::I32Store(_) => 0x36,
        Instr::I64Store(_) => 0x37,
        Instr::F32Store(_) => 0x38,
        Instr::F64Store(_) => 0x39,
        Instr::I32Store8(_) => 0x3A,
        Instr::I32Store16(_) => 0x3B,
        Instr::I64Store8(_) => 0x3C,
        Instr::I64Store16(_) => 0x3D,
        Instr::I64Store32(_) => 0x3E,
        Instr::Unreachable => 0x00,
        Instr::Nop => 0x01,
        Instr::Else => 0x05,
        Instr::Return => 0x0F,
        Instr::Drop => 0x1A,
        Instr::Select => 0x1B,
        Instr::I32Eqz => 0x45,
        Instr::I32Eq => 0x46,
        Instr::I32Ne => 0x47,
        Instr::I32LtS => 0x48,
        Instr::I32LtU => 0x49,
        Instr::I32GtS => 0x4A,
        Instr::I32GtU => 0x4B,
        Instr::I32LeS => 0x4C,
        Instr::I32LeU => 0x4D,
        Instr::I32GeS => 0x4E,
        Instr::I32GeU => 0x4F,
        Instr::I64Eqz => 0x50,
        Instr::I64Eq => 0x51,
        Instr::I64Ne => 0x52,
        Instr::I64LtS => 0x53,
        Instr::I64LtU => 0x54,
        Instr::I64GtS => 0x55,
        Instr::I64GtU => 0x56,
        Instr::I64LeS => 0x57,
        Instr::I64LeU => 0x58,
        Instr::I64GeS => 0x59,
        Instr::I64GeU => 0x5A,
        Instr::F32Eq => 0x5B,
        Instr::F32Ne => 0x5C,
        Instr::F32Lt => 0x5D,
        Instr::F32Gt => 0x5E,
        Instr::F32Le => 0x5F,
        Instr::F32Ge => 0x60,
        Instr::F64Eq => 0x61,
        Instr::F64Ne => 0x62,
        Instr::F64Lt => 0x63,
        Instr::F64Gt => 0x64,
        Instr::F64Le => 0x65,
        Instr::F64Ge => 0x66,
        Instr::I32Clz => 0x67,
        Instr::I32Ctz => 0x68,
        Instr::I32Popcnt => 0x69,
        Instr::I32Add => 0x6A,
        Instr::I32Sub => 0x6B,
        Instr::I32Mul => 0x6C,
        Instr::I32DivS => 0x6D,
        Instr::I32DivU => 0x6E,
        Instr::I32RemS => 0x6F,
        Instr::I32RemU => 0x70,
        Instr::I32And => 0x71,
        Instr::I32Or => 0x72,
        Instr::I32Xor => 0x73,
        Instr::I32Shl => 0x74,
        Instr::I32ShrS => 0x75,
        Instr::I32ShrU => 0x76,
        Instr::I32Rotl => 0x77,
        Instr::I32Rotr => 0x78,
        Instr::I64Clz => 0x79,
        Instr::I64Ctz => 0x7A,
        Instr::I64Popcnt => 0x7B,
        Instr::I64Add => 0x7C,
        Instr::I64Sub => 0x7D,
        Instr::I64Mul => 0x7E,
        Instr::I64DivS => 0x7F,
        Instr::I64DivU => 0x80,
        Instr::I64RemS => 0x81,
        Instr::I64RemU => 0x82,
        Instr::I64And => 0x83,
        Instr::I64Or => 0x84,
        Instr::I64Xor => 0x85,
        Instr::I64Shl => 0x86,
        Instr::I64ShrS => 0x87,
        Instr::I64ShrU => 0x88,
        Instr::I64Rotl => 0x89,
        Instr::I64Rotr => 0x8A,
        Instr::F32Abs => 0x8B,
        Instr::F32Neg => 0x8C,
        Instr::F32Ceil => 0x8D,
        Instr::F32Floor => 0x8E,
        Instr::F32Trunc => 0x8F,
        Instr::F32Nearest => 0x90,
        Instr::F32Sqrt => 0x91,
        Instr::F32Add => 0x92,
        Instr::F32Sub => 0x93,
        Instr::F32Mul => 0x94,
        Instr::F32Div => 0x95,
        Instr::F32Min => 0x96,
        Instr::F32Max => 0x97,
        Instr::F32Copysign => 0x98,
        Instr::F64Abs => 0x99,
        Instr::F64Neg => 0x9A,
        Instr::F64Ceil => 0x9B,
        Instr::F64Floor => 0x9C,
        Instr::F64Trunc => 0x9D,
        Instr::F64Nearest => 0x9E,
        Instr::F64Sqrt => 0x9F,
        Instr::F64Add => 0xA0,
        Instr::F64Sub => 0xA1,
        Instr::F64Mul => 0xA2,
        Instr::F64Div => 0xA3,
        Instr::F64Min => 0xA4,
        Instr::F64Max => 0xA5,
        Instr::F64Copysign => 0xA6,
        Instr::I32WrapI64 => 0xA7,
        Instr::I32TruncF32S => 0xA8,
        Instr::I32TruncF32U => 0xA9,
        Instr::I32TruncF64S => 0xAA,
        Instr::I32TruncF64U => 0xAB,
        Instr::I64ExtendI32S => 0xAC,
        Instr::I64ExtendI32U => 0xAD,
        Instr::I64TruncF32S => 0xAE,
        Instr::I64TruncF32U => 0xAF,
        Instr::I64TruncF64S => 0xB0,
        Instr::I64TruncF64U => 0xB1,
        Instr::F32ConvertI32S => 0xB2,
        Instr::F32ConvertI32U => 0xB3,
        Instr::F32ConvertI64S => 0xB4,
        Instr::F32ConvertI64U => 0xB5,
        Instr::F32DemoteF64 => 0xB6,
        Instr::F64ConvertI32S => 0xB7,
        Instr::F64ConvertI32U => 0xB8,
        Instr::F64ConvertI64S => 0xB9,
        Instr::F64ConvertI64U => 0xBA,
        Instr::F64PromoteF32 => 0xBB,
        Instr::I32ReinterpretF32 => 0xBC,
        Instr::I64ReinterpretF64 => 0xBD,
        Instr::F32ReinterpretI32 => 0xBE,
        Instr::F64ReinterpretI64 => 0xBF,
    }
}

/// The byte of a value type.
pub open spec fn type_byte(t: ValType) -> u8 {
    match t {
        ValType::I32 => 0x7F,
        ValType::I64 => 0x7E,
        ValType::F32 => 0x7D,
        ValType::F64 => 0x7C,
    }
}

/// The encoding of a block type.
pub open spec fn block_type_bytes(bt: BlockType) -> Seq<u8> {
    match bt {
        BlockType::Empty => seq![0x40u8],
        BlockType::Val(t) => seq![type_byte(t)],
        BlockType::TypeIdx(i) => leb::signed_leb(i as int),
    }
}

/// The encoding of the operands of a memory access: the alignment, then the
/// offset.
pub open spec fn memarg_bytes(ma: MemArg) -> Seq<u8> {
    leb::unsigned_leb(ma.align as nat) + leb::unsigned_leb(ma.offset as nat)
}

/// The encoding of the immediate operands of an instruction.
pub open spec fn operand_bytes(i: Instr) -> Seq<u8> {
    match i {
        Instr::Block(bt) => block_type_bytes(bt),
        Instr::Loop(bt) => block_type_bytes(bt),
        Instr::If(bt) => block_type_bytes(bt),
        Instr::CallIndirect(ty, table) => leb::unsigned_leb(ty as nat) + leb::unsigned_leb(
            table as nat,
        ),
        Instr::MemorySize => seq![0x00u8],
        Instr::MemoryGrow => seq![0x00u8],
        Instr::I32Const(v) => leb::signed_leb(v as int),
        Instr::I64Const(v) => leb::signed_leb(v as int),
        Instr::F32Const(v) => bytes::le_bytes(v as nat, 4),
        Instr::F64Const(v) => bytes::le_bytes(v as nat, 8),
        Instr::Br(x) => leb::unsigned_leb(x as nat),
        Instr::BrIf(x) => leb::unsigned_leb(x as nat),
        Instr::Call(x) => leb::unsigned_leb(x as nat),
        Instr::LocalGet(x) => leb::unsigned_leb(x as nat),
        Instr::LocalSet(x) => leb::unsigned_leb(x as nat),
        Instr::LocalTee(x) => leb::unsigned_leb(x as nat),
        Instr::GlobalGet(x) => leb::unsigned_leb(x as nat),
        Instr::GlobalSet(x) => leb::unsigned_leb(x as nat),
        Instr::I32Load(ma) => memarg_bytes(ma),
        Instr::I64Load(ma) => memarg_bytes(ma),
        Instr::F32Load(ma) => memarg_bytes(ma),
        Instr::F64Load(ma) => memarg_bytes(ma),
        Instr::I32Load8S(ma) => memarg_bytes(ma),
        Instr::I32Load8U(ma) => memarg_bytes(ma),
        Instr::I32Load16S(ma) => memarg_bytes(ma),
        Instr::I32Load16U(ma) => memarg_bytes(ma),
        Instr::I64Load8S(ma) => memarg_bytes(ma),
        Instr::I64Load8U(ma) => memarg_bytes(ma),
        Instr::I64Load16S(ma) => memarg_bytes(ma),
        Instr::I64Load16U(ma) => memarg_bytes(ma),
        Instr::I64Load32S(ma) => memarg_bytes(ma),
        Instr::I64Load32U(ma) => memarg_bytes(ma),
        Instr::I32Store(ma) => memarg_bytes(ma),
        Instr::I64Store(ma) => memarg_bytes(ma),
        Instr::F32Store(ma) => memarg_bytes(ma),
        Instr::F64Store(ma) => memarg_bytes(ma),
        Instr::I32Store8(ma) => memarg_bytes(ma),
        Instr::I32Store16(ma) => memarg_bytes(ma),
        Instr::I64Store8(ma) => memarg_bytes(ma),
        Instr::I64Store16(ma) => memarg_bytes(ma),
        Instr::I64Store32(ma) => memarg_bytes(ma),
        _ => seq![],
    }
}

/// Labels one after the other.
pub open spec fn label_bytes(labels: Seq<u32>) -> Seq<u8>
    decreases labels.len(),
{
    if labels.len() == 0 {
        seq![]
    } else {
        label_bytes(labels.drop_last()) + leb::unsigned_leb(labels.last() as nat)
    }
}

/// The encoding of an instruction: its opcode and its operands.
pub open spec fn encoded(i: InstrModel) -> Seq<u8> {
    match i {
        InstrModel::BrTable(labels, default) => seq![0x0Eu8] + leb::unsigned_leb(labels.len())
            + label_bytes(labels) + leb::unsigned_leb(default as nat),
        InstrModel::Plain(i) => seq![opcode(i)] + operand_bytes(i),
    }
}

/// Whether an instruction has an encoding that stands for it alone: a type
/// index takes 31 bits, the number of labels 32 bits, and `end` stands for
/// no instruction.
pub open spec fn encodable(i: InstrModel) -> bool {
    match i {
        InstrModel::BrTable(labels, _) => labels.len() <= u32::MAX,
        InstrModel::Plain(Instr::Block(BlockType::TypeIdx(x))) => x <= i32::MAX,
        InstrModel::Plain(Instr::Loop(BlockType::TypeIdx(x))) => x <= i32::MAX,
        InstrModel::Plain(Instr::If(BlockType::TypeIdx(x))) => x <= i32::MAX,
        InstrModel::Plain(Instr::End) => false,
        InstrModel::Plain(Instr::BrTable(_, _)) => false,
        _ => true,
    }
}

/// What stands at `p` in two parts stands there part by part.
pub proof fn lemma_stands_apart(d: Seq<u8>, p: int, s: Seq<u8>, t: Seq<u8>)
    requires
        leb::stands_at(d, p, s + t),
    ensures
        leb::stands_at(d, p, s),
        leb::stands_at(d, p + s.len(), t),
{
    let all = d.subrange(p, p + (s + t).len());
    assert(d.subrange(p, p + s.len()) =~= all.subrange(0, s.len() as int));
    assert((s + t).subrange(0, s.len() as int) =~= s);
    assert(d.subrange(p + s.len(), p + s.len() + t.len()) =~= all.subrange(
        s.len() as int,
        (s + t).len() as int,
    ));
    assert((s + t).subrange(s.len() as int, (s + t).len() as int) =~= t);
}

/// What starts with the byte `b` stands at `p` as `b` and the rest.
pub proof fn lemma_starts_with(d: Seq<u8>, p: int, b: u8, t: Seq<u8>)
    requires
        leb::stands_at(d, p, seq![b] + t),
    ensures
        0 <= p < d.len(),
        d[p] == b,
        leb::stands_at(d, p + 1, t),
{
    lemma_stands_apart(d, p, seq![b], t);
    assert(d.subrange(p, p + 1)[0] == d[p]);
}

proof fn lemma_plain_0(i: Instr)
    requires
        i is Unreachable || i is Nop || i is Else || i is Return || i is Drop || i is Select || i is I32Eqz || i is I32Eq || i is I32Ne || i is I32LtS || i is I32LtU || i is I32GtS || i is I32GtU || i is I32LeS || i is I32LeU || i is I32GeS || i is I32GeU || i is I64Eqz || i is I64Eq || i is I64Ne || i is I64LtS || i is I64LtU || i is I64GtS || i is I64GtU || i is I64LeS || i is I64LeU || i is I64GeS || i is I64GeU || i is F32Eq || i is F32Ne || i is F32Lt || i is F32Gt || i is F32Le || i is F32Ge || i is F64Eq || i is F64Ne || i is F64Lt || i is F64Gt || i is F64Le || i is F64Ge || i is I32Clz || i is I32Ctz,
    ensures
        instr::plain_instr(opcode(i)) == Some(i),
        !instr::has_index(opcode(i)),
        opcode(i) != 0x0B && !(0x02 <= opcode(i) <= 0x04) && opcode(i) != 0x0E && opcode(i) != 0x11
            && !(0x28 <= opcode(i) <= 0x44),
        operand_bytes(i) == Seq::<u8>::empty(),
{
}

proof fn lemma_plain_1(i: Instr)
    requires
        i is I32Popcnt || i is I32Add || i is I32Sub || i is I32Mul || i is I32DivS || i is I32DivU || i is I32RemS || i is I32RemU || i is I32And || i is I32Or || i is I32Xor || i is I32Shl || i is I32ShrS || i is I32ShrU || i is I32Rotl || i is I32Rotr || i is I64Clz || i is I64Ctz || i is I64Popcnt || i is I64Add || i is I64Sub || i is I64Mul || i is I64DivS || i is I64DivU || i is I64RemS || i is I64RemU || i is I64And || i is I64Or || i is I64Xor || i is I64Shl || i is I64ShrS || i is I64ShrU || i is I64Rotl || i is I64Rotr || i is F32Abs || i is F32Neg || i is F32Ceil || i is F32Floor || i is F32Trunc || i is F32Nearest || i is F32Sqrt || i is F32Add,
    ensures
        instr::plain_instr(opcode(i)) == Some(i),
        !instr::has_index(opcode(i)),
        opcode(i) != 0x0B && !(0x02 <= opcode(i) <= 0x04) && opcode(i) != 0x0E && opcode(i) != 0x11
            && !(0x28 <= opcode(i) <= 0x44),
        operand_bytes(i) == Seq::<u8>::empty(),
{
}

proof fn lemma_plain_2(i: Instr)
    requires
        i is F32Sub || i is F32Mul || i is F32Div || i is F32Min || i is F32Max || i is F32Copysign || i is F64Abs || i is F64Neg || i is F64Ceil || i is F64Floor || i is F64Trunc || i is F64Nearest || i is F64Sqrt || i is F64Add || i is F64Sub || i is F64Mul || i is F64Div || i is F64Min || i is F64Max || i is F64Copysign || i is I32WrapI64 || i is I32TruncF32S || i is I32TruncF32U || i is I32TruncF64S || i is I32TruncF64U || i is I64ExtendI32S || i is I64ExtendI32U || i is I64TruncF32S || i is I64TruncF32U || i is I64TruncF64S || i is I64TruncF64U || i is F32ConvertI32S || i is F32ConvertI32U || i is F32ConvertI64S || i is F32ConvertI64U || i is F32DemoteF64 || i is F64ConvertI32S || i is F64ConvertI32U || i is F64ConvertI64S || i is F64ConvertI64U || i is F64PromoteF32 || i is I32ReinterpretF32,
    ensures
        instr::plain_instr(opcode(i)) == Some(i),
        !instr::has_index(opcode(i)),
        opcode(i) != 0x0B && !(0x02 <= opcode(i) <= 0x04) && opcode(i) != 0x0E && opcode(i) != 0x11
            && !(0x28 <= opcode(i) <= 0x44),
        operand_bytes(i) == Seq::<u8>::empty(),
{
}

proof fn lemma_plain_3(i: Instr)
    requires
        i is I64ReinterpretF64 || i is F32ReinterpretI32 || i is F64ReinterpretI64,
    ensures
        instr::plain_instr(opcode(i)) == Some(i),
        !instr::has_index(opcode(i)),
        opcode(i) != 0x0B && !(0x02 <= opcode(i) <= 0x04) && opcode(i) != 0x0E && opcode(i) != 0x11
            && !(0x28 <= opcode(i) <= 0x44),
        operand_bytes(i) == Seq::<u8>::empty(),
{
}

/// Whether `i` has no immediate operands.
pub open spec fn bare(i: Instr) -> bool {
    i is Unreachable || i is Nop || i is Else || i is Return || i is Drop || i is Select || i is I32Eqz || i is I32Eq || i is I32Ne || i is I32LtS || i is I32LtU || i is I32GtS || i is I32GtU || i is I32LeS || i is I32LeU || i is I32GeS || i is I32GeU || i is I64Eqz || i is I64Eq || i is I64Ne || i is I64LtS || i is I64LtU || i is I64GtS || i is I64GtU || i is I64LeS || i is I64LeU || i is I64GeS || i is I64GeU || i is F32Eq || i is F32Ne || i is F32Lt || i is F32Gt || i is F32Le || i is F32Ge || i is F64Eq || i is F64Ne || i is F64Lt || i is F64Gt || i is F64Le || i is F64Ge || i is I32Clz || i is I32Ctz || i is I32Popcnt || i is I32Add || i is I32Sub || i is I32Mul || i is I32DivS || i is I32DivU || i is I32RemS || i is I32RemU || i is I32And || i is I32Or || i is I32Xor || i is I32Shl || i is I32ShrS || i is I32ShrU || i is I32Rotl || i is I32Rotr || i is I64Clz || i is I64Ctz || i is I64Popcnt || i is I64Add || i is I64Sub || i is I64Mul || i is I64DivS || i is I64DivU || i is I64RemS || i is I64RemU || i is I64And || i is I64Or || i is I64Xor || i is I64Shl || i is I64ShrS || i is I64ShrU || i is I64Rotl || i is I64Rotr || i is F32Abs || i is F32Neg || i is F32Ceil || i is F32Floor || i is F32Trunc || i is F32Nearest || i is F32Sqrt || i is F32Add || i is F32Sub || i is F32Mul || i is F32Div || i is F32Min || i is F32Max || i is F32Copysign || i is F64Abs || i is F64Neg || i is F64Ceil || i is F64Floor || i is F64Trunc || i is F64Nearest || i is F64Sqrt || i is F64Add || i is F64Sub || i is F64Mul || i is F64Div || i is F64Min || i is F64Max || i is F64Copysign || i is I32WrapI64 || i is I32TruncF32S || i is I32TruncF32U || i is I32TruncF64S || i is I32TruncF64U || i is I64ExtendI32S || i is I64ExtendI32U || i is I64TruncF32S || i is I64TruncF32U || i is I64TruncF64S || i is I64TruncF64U || i is F32ConvertI32S || i is F32ConvertI32U || i is F32ConvertI64S || i is F32ConvertI64U || i is F32DemoteF64 || i is F64ConvertI32S || i is F64ConvertI32U || i is F64ConvertI64S || i is F64ConvertI64U || i is F64PromoteF32 || i is I32ReinterpretF32 || i is I64ReinterpretF64 || i is F32ReinterpretI32 || i is F64ReinterpretI64
}

proof fn lemma_plain(i: Instr)
    requires
        bare(i),
    ensures
        instr::plain_instr(opcode(i)) == Some(i),
        !instr::has_index(opcode(i)),
        opcode(i) != 0x0B && !(0x02 <= opcode(i) <= 0x04) && opcode(i) != 0x0E && opcode(i) != 0x11
            && !(0x28 <= opcode(i) <= 0x44),
        operand_bytes(i) == Seq::<u8>::empty(),
{
    if i is Unreachable || i is Nop || i is Else || i is Return || i is Drop || i is Select || i is I32Eqz || i is I32Eq || i is I32Ne || i is I32LtS || i is I32LtU || i is I32GtS || i is I32GtU || i is I32LeS || i is I32LeU || i is I32GeS || i is I32GeU || i is I64Eqz || i is I64Eq || i is I64Ne || i is I64LtS || i is I64LtU || i is I64GtS || i is I64GtU || i is I64LeS || i is I64LeU || i is I64GeS || i is I64GeU || i is F32Eq || i is F32Ne || i is F32Lt || i is F32Gt || i is F32Le || i is F32Ge || i is F64Eq || i is F64Ne || i is F64Lt || i is F64Gt || i is F64Le || i is F64Ge || i is I32Clz || i is I32Ctz {
        lemma_plain_0(i);
    }
    if i is I32Popcnt || i is I32Add || i is I32Sub || i is I32Mul || i is I32DivS || i is I32DivU || i is I32RemS || i is I32RemU || i is I32And || i is I32Or || i is I32Xor || i is I32Shl || i is I32ShrS || i is I32ShrU || i is I32Rotl || i is I32Rotr || i is I64Clz || i is I64Ctz || i is I64Popcnt || i is I64Add || i is I64Sub || i is I64Mul || i is I64DivS || i is I64DivU || i is I64RemS || i is I64RemU || i is I64And || i is I64Or || i is I64Xor || i is I64Shl || i is I64ShrS || i is I64ShrU || i is I64Rotl || i is I64Rotr || i is F32Abs || i is F32Neg || i is F32Ceil || i is F32Floor || i is F32Trunc || i is F32Nearest || i is F32Sqrt || i is F32Add {
        lemma_plain_1(i);
    }
    if i is F32Sub || i is F32Mul || i is F32Div || i is F32Min || i is F32Max || i is F32Copysign || i is F64Abs || i is F64Neg || i is F64Ceil || i is F64Floor || i is F64Trunc || i is F64Nearest || i is F64Sqrt || i is F64Add || i is F64Sub || i is F64Mul || i is F64Div || i is F64Min || i is F64Max || i is F64Copysign || i is I32WrapI64 || i is I32TruncF32S || i is I32TruncF32U || i is I32TruncF64S || i is I32TruncF64U || i is I64ExtendI32S || i is I64ExtendI32U || i is I64TruncF32S || i is I64TruncF32U || i is I64TruncF64S || i is I64TruncF64U || i is F32ConvertI32S || i is F32ConvertI32U || i is F32ConvertI64S || i is F32ConvertI64U || i is F32DemoteF64 || i is F64ConvertI32S || i is F64ConvertI32U || i is F64ConvertI64S || i is F64ConvertI64U || i is F64PromoteF32 || i is I32ReinterpretF32 {
        lemma_plain_2(i);
    }
    if i is I64ReinterpretF64 || i is F32ReinterpretI32 || i is F64ReinterpretI64 {
        lemma_plain_3(i);
    }
}

/// Whether `i` is a memory access.
pub open spec fn accesses(i: Instr) -> bool {
    i is I32Load || i is I64Load || i is F32Load || i is F64Load || i is I32Load8S || i is I32Load8U || i is I32Load16S || i is I32Load16U || i is I64Load8S || i is I64Load8U || i is I64Load16S || i is I64Load16U || i is I64Load32S || i is I64Load32U || i is I32Store || i is I64Store || i is F32Store || i is F64Store || i is I32Store8 || i is I32Store16 || i is I64Store8 || i is I64Store16 || i is I64Store32
}

/// Whether `i` has one index as its operand.
pub open spec fn indexed(i: Instr) -> bool {
    i is Br || i is BrIf || i is Call || i is LocalGet || i is LocalSet || i is LocalTee || i is GlobalGet || i is GlobalSet
}

proof fn lemma_block_type(d: Seq<u8>, p: int, bt: BlockType)
    requires
        leb::stands_at(d, p, block_type_bytes(bt)),
        bt matches BlockType::TypeIdx(x) ==> x <= i32::MAX,
    ensures
        instr::blocktype_at(d, p) == (
            Ok::<BlockType, WasmError>(bt),
            p + block_type_bytes(bt).len() as int,
        ),
{
    assert(d.subrange(p, p + block_type_bytes(bt).len())[0] == d[p]);
    match bt {
        BlockType::TypeIdx(x) => {
            leb::law_i32_round_trip(d, p, x as i32);
            assert(d[p] < 0x40 || d[p] >= 0x80);
        },
        _ => {},
    }
}

proof fn lemma_memarg(d: Seq<u8>, p: int, ma: MemArg)
    requires
        leb::stands_at(d, p, memarg_bytes(ma)),
    ensures
        instr::memarg_at(d, p) == (
            Ok::<MemArg, WasmError>(ma),
            p + memarg_bytes(ma).len() as int,
        ),
{
    let a = leb::unsigned_leb(ma.align as nat);
    lemma_stands_apart(d, p, a, leb::unsigned_leb(ma.offset as nat));
    leb::law_u32_round_trip(d, p, ma.align);
    leb::law_u32_round_trip(d, p + a.len(), ma.offset);
}

proof fn lemma_labels(d: Seq<u8>, p: int, labels: Seq<u32>)
    requires
        leb::stands_at(d, p, label_bytes(labels)),
    ensures
        decode::many::<u32>(d, p, labels.len()) == (
            Ok::<Seq<u32>, WasmError>(labels),
            p + label_bytes(labels).len() as int,
        ),
    decreases labels.len(),
{
    if labels.len() == 0 {
        assert(labels =~= seq![]);
    } else {
        let rest = labels.drop_last();
        lemma_stands_apart(d, p, label_bytes(rest), leb::unsigned_leb(labels.last() as nat));
        lemma_labels(d, p, rest);
        leb::law_u32_round_trip(d, p + label_bytes(rest).len(), labels.last());
        assert(rest.push(labels.last()) =~= labels);
    }
}

proof fn lemma_br_table(d: Seq<u8>, p: int, labels: Seq<u32>, default: u32)
    requires
        leb::stands_at(d, p, encoded(InstrModel::BrTable(labels, default))),
        labels.len() <= u32::MAX,
    ensures
        instr::instr_at(d, p) == (
            Ok::<Option<InstrModel>, WasmError>(Some(InstrModel::BrTable(labels, default))),
            p + encoded(InstrModel::BrTable(labels, default)).len() as int,
        ),
{
    let op = seq![0x0Eu8];
    let n = leb::unsigned_leb(labels.len());
    let ls = label_bytes(labels);
    let last = leb::unsigned_leb(default as nat);
    lemma_stands_apart(d, p, op + n + ls, last);
    lemma_stands_apart(d, p, op + n, ls);
    lemma_starts_with(d, p, 0x0E, n);
    leb::law_u32_round_trip(d, p + 1, labels.len() as u32);
    lemma_labels(d, p + 1 + n.len(), labels);
    leb::law_u32_round_trip(d, p + 1 + n.len() + ls.len(), default);
}

proof fn lemma_access(d: Seq<u8>, p: int, i: Instr, ma: MemArg)
    requires
        accesses(i),
        operand_bytes(i) == memarg_bytes(ma),
        instr::mem_instr(opcode(i), ma) == i,
        leb::stands_at(d, p, encoded(InstrModel::Plain(i))),
    ensures
        instr::instr_at(d, p) == (
            Ok::<Option<InstrModel>, WasmError>(Some(InstrModel::Plain(i))),
            p + encoded(InstrModel::Plain(i)).len() as int,
        ),
{
    lemma_starts_with(d, p, opcode(i), operand_bytes(i));
    lemma_memarg(d, p + 1, ma);
}

/// The address operands of an access.
pub open spec fn operands_of(i: Instr) -> MemArg {
    match i {
        Instr::I32Load(ma) => ma,
        Instr::I64Load(ma) => ma,
        Instr::F32Load(ma) => ma,
        Instr::F64Load(ma) => ma,
        Instr::I32Load8S(ma) => ma,
        Instr::I32Load8U(ma) => ma,
        Instr::I32Load16S(ma) => ma,
        Instr::I32Load16U(ma) => ma,
        Instr::I64Load8S(ma) => ma,
        Instr::I64Load8U(ma) => ma,
        Instr::I64Load16S(ma) => ma,
        Instr::I64Load16U(ma) => ma,
        Instr::I64Load32S(ma) => ma,
        Instr::I64Load32U(ma) => ma,
        Instr::I32Store(ma) => ma,
        Instr::I64Store(ma) => ma,
        Instr::F32Store(ma) => ma,
        Instr::F64Store(ma) => ma,
        Instr::I32Store8(ma) => ma,
        Instr::I32Store16(ma) => ma,
        Instr::I64Store8(ma) => ma,
        Instr::I64Store16(ma) => ma,
        Instr::I64Store32(ma) => ma,
        _ => MemArg { align: 0, offset: 0 },
    }
}

proof fn lemma_access_opcode(i: Instr)
    requires
        accesses(i),
    ensures
        instr::mem_instr(opcode(i), operands_of(i)) == i,
        operand_bytes(i) == memarg_bytes(operands_of(i)),
{
}

proof fn lemma_index(d: Seq<u8>, p: int, i: Instr, x: u32)
    requires
        instr::index_instr(opcode(i), x) == Some(i),
        instr::has_index(opcode(i)),
        leb::stands_at(d, p, seq![opcode(i)] + leb::unsigned_leb(x as nat)),
    ensures
        instr::instr_at(d, p) == (
            Ok::<Option<InstrModel>, WasmError>(Some(InstrModel::Plain(i))),
            p + 1 + leb::unsigned_leb(x as nat).len() as int,
        ),
{
    lemma_starts_with(d, p, opcode(i), leb::unsigned_leb(x as nat));
    leb::law_u32_round_trip(d, p + 1, x);
}

proof fn lemma_float_constants(d: Seq<u8>, p: int, a: u32, b: u64)
    ensures
        leb::stands_at(d, p, bytes::le_bytes(a as nat, 4)) ==> reader::f32_bits_at(d, p) == (
            Ok::<u32, WasmError>(a),
            p + 4,
        ),
        leb::stands_at(d, p, bytes::le_bytes(b as nat, 8)) ==> reader::f64_bits_at(d, p) == (
            Ok::<u64, WasmError>(b),
            p + 8,
        ),
{
    bytes::lemma_pow256();
    bytes::law_le_round_trip(a as nat, 4);
    bytes::law_le_round_trip(b as nat, 8);
    vstd::arithmetic::div_mod::lemma_small_mod(a as nat, 0x1_0000_0000);
    vstd::arithmetic::div_mod::lemma_small_mod(b as nat, 0x1_0000_0000_0000_0000);
}

proof fn lemma_others(d: Seq<u8>, p: int, i: Instr)
    requires
        !bare(i) && !accesses(i) && !indexed(i),
        encodable(InstrModel::Plain(i)),
        leb::stands_at(d, p, seq![opcode(i)] + operand_bytes(i)),
    ensures
        instr::instr_at(d, p) == (
            Ok::<Option<InstrModel>, WasmError>(Some(InstrModel::Plain(i))),
            p + 1 + operand_bytes(i).len() as int,
        ),
{
    lemma_starts_with(d, p, opcode(i), operand_bytes(i));
    match i {
        Instr::Block(bt) => {
            lemma_block_type(d, p + 1, bt);
        },
        Instr::Loop(bt) => {
            lemma_block_type(d, p + 1, bt);
        },
        Instr::If(bt) => {
            lemma_block_type(d, p + 1, bt);
        },
        Instr::CallIndirect(ty, table) => {
            let a = leb::unsigned_leb(ty as nat);
            lemma_stands_apart(d, p + 1, a, leb::unsigned_leb(table as nat));
            leb::law_u32_round_trip(d, p + 1, ty);
            leb::law_u32_round_trip(d, p + 1 + a.len(), table);
        },
        Instr::I32Const(v) => {
            leb::law_i32_round_trip(d, p + 1, v);
        },
        Instr::I64Const(v) => {
            leb::law_i64_round_trip(d, p + 1, v);
        },
        Instr::F32Const(v) => {
            lemma_float_constants(d, p + 1, v, 0);
            bytes::lemma_le_bytes_len(v as nat, 4);
        },
        Instr::F64Const(v) => {
            lemma_float_constants(d, p + 1, 0, v);
            bytes::lemma_le_bytes_len(v as nat, 8);
        },
        _ => {},
    }
}

/// Decoding the encoding of an instruction gives the instruction, and stops
/// right behind it.
pub proof fn law_decoding_undoes_encoding(d: Seq<u8>, p: int, i: InstrModel)
    requires
        encodable(i),
        leb::stands_at(d, p, encoded(i)),
    ensures
        instr::instr_at(d, p) == (
            Ok::<Option<InstrModel>, WasmError>(Some(i)),
            p + encoded(i).len() as int,
        ),
{
    match i {
        InstrModel::BrTable(labels, default) => {
            lemma_br_table(d, p, labels, default);
        },
        InstrModel::Plain(x) => {
            if bare(x) {
                lemma_plain(x);
                lemma_starts_with(d, p, opcode(x), operand_bytes(x));
            } else if accesses(x) {
                lemma_access_opcode(x);
                lemma_access(d, p, x, operands_of(x));
            } else if indexed(x) {
                lemma_indexed(d, p, x);
            } else {
                lemma_others(d, p, x);
            }
        },
    }
}

proof fn lemma_indexed(d: Seq<u8>, p: int, i: Instr)
    requires
        indexed(i),
        leb::stands_at(d, p, seq![opcode(i)] + operand_bytes(i)),
    ensures
        instr::instr_at(d, p) == (
            Ok::<Option<InstrModel>, WasmError>(Some(InstrModel::Plain(i))),
            p + 1 + operand_bytes(i).len() as int,
        ),
{
    match i {
        Instr::Br(x) => {
            lemma_index(d, p, i, x);
        },
        Instr::BrIf(x) => {
            lemma_index(d, p, i, x);
        },
        Instr::Call(x) => {
            lemma_index(d, p, i, x);
        },
        Instr::LocalGet(x) => {
            lemma_index(d, p, i, x);
        },
        Instr::LocalSet(x) => {
            lemma_index(d, p, i, x);
        },
        Instr::LocalTee(x) => {
            lemma_index(d, p, i, x);
        },
        Instr::GlobalGet(x) => {
            lemma_index(d, p, i, x);
        },
        Instr::GlobalSet(x) => {
            lemma_index(d, p, i, x);
        },
        _ => {},
    }
}

/// The end opcode, and the end of the code, stand for no instruction.
pub proof fn law_end_opcode(d: Seq<u8>, p: int)
    ensures
        0 <= p < d.len() && d[p] == 0x0B ==> instr::instr_at(d, p) == (
            Ok::<Option<InstrModel>, WasmError>(None),
            p + 1,
        ),
        p >= d.len() ==> instr::instr_at(d, p) == (Ok::<Option<InstrModel>, WasmError>(None), p),
{
}

/// An opcode that no instruction has is an error.
pub proof fn law_unknown_opcode(d: Seq<u8>, p: int)
    requires
        0 <= p < d.len(),
        0x06 <= d[p] <= 0x0A || 0x12 <= d[p] <= 0x19 || 0x1C <= d[p] <= 0x1F || 0x25 <= d[p] <= 0x27
            || d[p] >= 0xC0,
    ensures
        instr::instr_at(d, p) == (
            Err::<Option<InstrModel>, WasmError>(WasmError::InvalidOpcode(d[p])),
            p + 1,
        ),
{
}

// ---- Looking for the end of a block ----

proof fn lemma_lebs_next(d: Seq<u8>, p: int, k: nat)
    ensures
        scan::after_lebs(d, p, k + 1) == scan::after_leb(d, scan::after_lebs(d, p, k)),
    decreases k,
{
    if k == 0 {
        reveal_with_fuel(scan::after_lebs, 2);
    } else {
        lemma_lebs_next(d, scan::after_leb(d, p), (k - 1) as nat);
    }
}

proof fn lemma_lebs_read(d: Seq<u8>, p: int, n: nat)
    requires
        decode::many::<u32>(d, p, n).0 is Ok,
    ensures
        scan::after_lebs(d, p, n) == decode::many::<u32>(d, p, n).1,
    decreases n,
{
    if n > 0 {
        lemma_lebs_read(d, p, (n - 1) as nat);
        lemma_lebs_next(d, p, (n - 1) as nat);
    }
}

/// Whether an instruction opens a block.
pub open spec fn opens_block(i: InstrModel) -> bool {
    i matches InstrModel::Plain(x) && (x is Block || x is Loop || x is If)
}

proof fn lemma_skips(d: Seq<u8>, p: int, i: InstrModel, q: int)
    requires
        0 <= p < d.len(),
        instr::instr_at(d, p) == (Ok::<Option<InstrModel>, WasmError>(Some(i)), q),
    ensures
        opens_block(i) ==> 0x02 <= d[p] <= 0x04 && scan::after_blocktype(d, p + 1) == q,
        !opens_block(i) ==> d[p] != 0x0B && !(0x02 <= d[p] <= 0x04) && scan::after_imm(
            d[p],
            d,
            p + 1,
        ) == q,
        (i == InstrModel::Plain(Instr::Else)) == (d[p] == 0x05),
{
    let op = d[p];
    reveal_with_fuel(scan::after_lebs, 3);
    if op == 0x0E {
        if let (Ok(n), r) = reader::u32_at(d, p + 1) {
            lemma_lebs_read(d, r, n as nat);
            lemma_lebs_next(d, r, n as nat);
        }
    } else if 0x02 <= op <= 0x04 {
    } else if instr::has_index(op) || op == 0x11 || 0x28 <= op <= 0x44 {
    } else {
        assert(instr::plain_instr(op) is Some);
    }
}

/// The search for the end of a block goes from instruction to instruction: it
/// is one level deeper behind an instruction that opens a block, and ends
/// behind the end opcode of the outermost level.
pub proof fn law_end_is_found(d: Seq<u8>, p: int, i: InstrModel, q: int, depth: nat)
    requires
        0 <= p < d.len(),
        depth >= 1,
    ensures
        instr::instr_at(d, p) == (Ok::<Option<InstrModel>, WasmError>(Some(i)), q) ==> scan::block_end(
            d,
            p,
            depth,
        ) == scan::block_end(
            d,
            q,
            if opens_block(i) {
                depth + 1
            } else {
                depth
            },
        ),
        d[p] == 0x0B && depth == 1 ==> scan::block_end(d, p, depth) == Some(p + 1),
        d[p] == 0x0B && depth > 1 ==> scan::block_end(d, p, depth) == scan::block_end(
            d,
            p + 1,
            (depth - 1) as nat,
        ),
        scan::block_end(d, d.len() as int, depth) is None,
{
    if instr::instr_at(d, p) == (Ok::<Option<InstrModel>, WasmError>(Some(i)), q) {
        lemma_skips(d, p, i, q);
    }
}

/// The search for the `else` of a block finds the one that stands at the
/// outermost level, and then goes on to the end.
pub proof fn law_else_is_found(
    d: Seq<u8>,
    p: int,
    i: InstrModel,
    q: int,
    depth: nat,
    seen: Option<int>,
)
    requires
        0 <= p < d.len(),
        depth >= 1,
    ensures
        instr::instr_at(d, p) == (Ok::<Option<InstrModel>, WasmError>(Some(i)), q)
            ==> scan::else_and_end(d, p, depth, seen) == (if i == InstrModel::Plain(Instr::Else)
            && depth == 1 {
            scan::else_and_end(d, q, depth, Some(q))
        } else if opens_block(i) {
            scan::else_and_end(d, q, depth + 1, seen)
        } else {
            scan::else_and_end(d, q, depth, seen)
        }),
        d[p] == 0x0B && depth == 1 ==> scan::else_and_end(d, p, depth, seen) == Some((seen, p + 1)),
        d[p] == 0x0B && depth > 1 ==> scan::else_and_end(d, p, depth, seen) == scan::else_and_end(
            d,
            p + 1,
            (depth - 1) as nat,
            seen,
        ),
        scan::else_and_end(d, d.len() as int, depth, seen) is None,
{
    if instr::instr_at(d, p) == (Ok::<Option<InstrModel>, WasmError>(Some(i)), q) {
        lemma_skips(d, p, i, q);
    }
}

} // verus!
