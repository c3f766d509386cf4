//! One activation of a function: its operand stack, locals and blocks, and
//! what each instruction does to them.
use vstd::prelude::*;

use crate::access;
use crate::decode::{ModuleModel, WasmModule};
use crate::instance::{InstanceModel, ModuleInstance};
use crate::instr;
use crate::instr::{BlockType, Instr, InstrModel};
use crate::memory;
use crate::memory::MemoryModel;
use crate::numeric;
use crate::numeric::Group;
use crate::reader::Reader;
use crate::scan;
use crate::types;
use crate::types::{GlobalInst, TrapCode, ValType, Value, WasmError};

verus! {

/// The kind of an open block.
#[derive(Debug, Clone, Copy, PartialEq, Eq, Structural)]
pub enum CtrlOp {
    Block,
    Loop,
    If,
}

/// An open block.
#[derive(Debug, Clone, Copy, PartialEq, Eq, Structural)]
pub struct CtrlFrame {
    pub op: CtrlOp,
    /// The height of the operand stack at entry.
    pub stack_base: usize,
    /// How many values a branch to the block keeps.
    pub arity: usize,
    /// How many values the block leaves at its end.
    pub results: usize,
    /// Where the `else` branch starts, for an `if`.
    pub else_pos: Option<usize>,
    /// Where a branch to the block goes.
    pub br_target: usize,
}

/// One activation of a function.
pub struct Frame {
    pub locals: Vec<Value>,
    pub stack: Vec<Value>,
    pub ctrl: Vec<CtrlFrame>,
    pub result_ty: Vec<ValType>,
    pub code: Vec<u8>,
    pub pc: usize,
}

/// Mathematical model of a [`Frame`].
#[verifier::ext_equal]
pub struct FrameModel {
    pub locals: Seq<Value>,
    pub stack: Seq<Value>,
    pub ctrl: Seq<CtrlFrame>,
    pub result_ty: Seq<ValType>,
    pub code: Seq<u8>,
    pub pc: int,
}

impl View for Frame {
    type V = FrameModel;

    open spec fn view(&self) -> FrameModel {
        FrameModel {
            locals: self.locals@,
            stack: self.stack@,
            ctrl: self.ctrl@,
            result_ty: self.result_ty@,
            code: self.code@,
            pc: self.pc as int,
        }
    }
}

/// What an instruction asks of the machine that runs it.
pub enum Effect {
    /// Go on with the next instruction.
    Next,
    /// Call a function.
    Call { func: u32, args: Vec<Value> },
    /// Compute a floating-point instruction on its operands.
    Float { op: Instr, args: Vec<Value> },
    /// Return from the function.
    Return(Vec<Value>),
    /// The table entry names a function that the instance does not have.
    Dangling,
}

/// Mathematical model of an [`Effect`].
#[verifier::ext_equal]
pub enum EffectModel {
    Next,
    Call { func: u32, args: Seq<Value> },
    Float { op: Instr, args: Seq<Value> },
    Return(Seq<Value>),
    Dangling,
}

impl View for Effect {
    type V = EffectModel;

    open spec fn view(&self) -> EffectModel {
        match *self {
            Effect::Next => EffectModel::Next,
            Effect::Call { func, args } => EffectModel::Call { func, args: args@ },
            Effect::Float { op, args } => EffectModel::Float { op, args: args@ },
            Effect::Return(v) => EffectModel::Return(v@),
            Effect::Dangling => EffectModel::Dangling,
        }
    }
}

// ---- The operand stack ----

/// A stack without its top value, and that value.
pub open spec fn popped(s: Seq<Value>) -> Result<(Value, Seq<Value>), WasmError> {
    if s.len() == 0 {
        Err(WasmError::StackUnderflow)
    } else {
        Ok((s.last(), s.drop_last()))
    }
}

/// As [`popped`], for a value of type `ty`.
pub open spec fn popped_as(s: Seq<Value>, ty: ValType) -> Result<(Value, Seq<Value>), WasmError> {
    match popped(s) {
        Err(e) => Err(e),
        Ok((v, t)) => if types::type_of(v) == ty {
            Ok((v, t))
        } else {
            Err(WasmError::TypeMismatch)
        },
    }
}

/// As [`popped`], for an `i32`.
pub open spec fn popped_i32(s: Seq<Value>) -> Result<(i32, Seq<Value>), WasmError> {
    match popped(s) {
        Err(e) => Err(e),
        Ok((Value::I32(v), t)) => Ok((v, t)),
        Ok(_) => Err(WasmError::TypeMismatch),
    }
}

/// As [`popped`], for an `i64`.
pub open spec fn popped_i64(s: Seq<Value>) -> Result<(i64, Seq<Value>), WasmError> {
    match popped(s) {
        Err(e) => Err(e),
        Ok((Value::I64(v), t)) => Ok((v, t)),
        Ok(_) => Err(WasmError::TypeMismatch),
    }
}

/// The top `n` values, or all if there are fewer.
pub open spec fn top_of(s: Seq<Value>, n: int) -> Seq<Value> {
    if s.len() > n {
        s.subrange(s.len() - n, s.len() as int)
    } else {
        s
    }
}

/// The stack cut to `base` values, with its former top `n` values on top.
pub open spec fn unwound(s: Seq<Value>, base: int, n: int) -> Seq<Value> {
    (if s.len() > base {
        s.subrange(0, base)
    } else {
        s
    }) + top_of(s, n)
}

fn pop(s: &mut Vec<Value>) -> (r: Result<Value, WasmError>)
    ensures
        match popped(old(s)@) {
            Ok((v, t)) => r == Ok::<Value, WasmError>(v) && final(s)@ == t,
            Err(e) => r == Err::<Value, WasmError>(e),
        },
{
    match s.pop() {
        Some(v) => Ok(v),
        None => Err(WasmError::StackUnderflow),
    }
}

fn pop_as(s: &mut Vec<Value>, ty: ValType) -> (r: Result<Value, WasmError>)
    ensures
        match popped_as(old(s)@, ty) {
            Ok((v, t)) => r == Ok::<Value, WasmError>(v) && final(s)@ == t,
            Err(e) => r == Err::<Value, WasmError>(e),
        },
{
    let v: Value = pop(s)?;
    if v.ty() == ty {
        Ok(v)
    } else {
        Err(WasmError::TypeMismatch)
    }
}

fn pop_i32(s: &mut Vec<Value>) -> (r: Result<i32, WasmError>)
    ensures
        match popped_i32(old(s)@) {
            Ok((v, t)) => r == Ok::<i32, WasmError>(v) && final(s)@ == t,
            Err(e) => r == Err::<i32, WasmError>(e),
        },
{
    match pop(s)?.as_i32() {
        Some(v) => Ok(v),
        None => Err(WasmError::TypeMismatch),
    }
}

fn pop_i64(s: &mut Vec<Value>) -> (r: Result<i64, WasmError>)
    ensures
        match popped_i64(old(s)@) {
            Ok((v, t)) => r == Ok::<i64, WasmError>(v) && final(s)@ == t,
            Err(e) => r == Err::<i64, WasmError>(e),
        },
{
    match pop(s)?.as_i64() {
        Some(v) => Ok(v),
        None => Err(WasmError::TypeMismatch),
    }
}

fn top(s: &Vec<Value>, n: usize) -> (r: Vec<Value>)
    ensures
        r@ == top_of(s@, n as int),
{
    let from: usize = if s.len() > n {
        s.len() - n
    } else {
        0
    };
    let r = vstd::slice::slice_to_vec(
        vstd::slice::slice_subrange(s.as_slice(), from, s.len()),
    );
    assert(r@ =~= top_of(s@, n as int));
    r
}

fn unwind(s: &mut Vec<Value>, base: usize, n: usize)
    ensures
        final(s)@ == unwound(old(s)@, base as int, n as int),
{
    let mut kept: Vec<Value> = top(s, n);
    s.truncate(base);
    s.append(&mut kept);
    assert(s@ =~= unwound(old(s)@, base as int, n as int));
}

// ---- Numeric instructions ----

/// The stack after an instruction on integers or bit patterns.
pub open spec fn numeric_step(i: Instr, s: Seq<Value>) -> Result<Seq<Value>, WasmError> {
    match numeric::group(i) {
        Group::UnaryI32 => match popped_i32(s) {
            Err(e) => Err(e),
            Ok((a, t)) => Ok(t.push(numeric::unary_i32(i, a))),
        },
        Group::UnaryI64 => match popped_i64(s) {
            Err(e) => Err(e),
            Ok((a, t)) => Ok(t.push(numeric::unary_i64(i, a))),
        },
        Group::UnaryF32 => match popped(s) {
            Err(e) => Err(e),
            Ok((Value::F32(bits), t)) => Ok(t.push(Value::I32(bits as i32))),
            Ok(_) => Err(WasmError::TypeMismatch),
        },
        Group::UnaryF64 => match popped(s) {
            Err(e) => Err(e),
            Ok((Value::F64(bits), t)) => Ok(t.push(Value::I64(bits as i64))),
            Ok(_) => Err(WasmError::TypeMismatch),
        },
        Group::BinaryI32 => match popped_i32(s) {
            Err(e) => Err(e),
            Ok((b, t)) => match popped_i32(t) {
                Err(e) => Err(e),
                Ok((a, u)) => match numeric::binary_i32(i, a, b) {
                    Err(e) => Err(e),
                    Ok(v) => Ok(u.push(v)),
                },
            },
        },
        Group::BinaryI64 => match popped_i64(s) {
            Err(e) => Err(e),
            Ok((b, t)) => match popped_i64(t) {
                Err(e) => Err(e),
                Ok((a, u)) => match numeric::binary_i64(i, a, b) {
                    Err(e) => Err(e),
                    Ok(v) => Ok(u.push(v)),
                },
            },
        },
        _ => Ok(s),
    }
}

/// Executes an instruction on integers or bit patterns.
fn run_numeric(i: &Instr, s: &mut Vec<Value>) -> (r: Result<(), WasmError>)
    ensures
        match numeric_step(*i, old(s)@) {
            Ok(t) => r is Ok && final(s)@ == t,
            Err(e) => r == Err::<(), WasmError>(e),
        },
{
    let v: Value = match numeric::group_of(i) {
        Group::UnaryI32 => numeric::run_unary_i32(i, pop_i32(s)?),
        Group::UnaryI64 => numeric::run_unary_i64(i, pop_i64(s)?),
        Group::UnaryF32 => match pop(s)?.as_f32b() {
            Some(bits) => Value::I32(bits as i32),
            None => return Err(WasmError::TypeMismatch),
        },
        Group::UnaryF64 => match pop(s)?.as_f64b() {
            Some(bits) => Value::I64(bits as i64),
            None => return Err(WasmError::TypeMismatch),
        },
        Group::BinaryI32 => {
            let b: i32 = pop_i32(s)?;
            let a: i32 = pop_i32(s)?;
            numeric::run_binary_i32(i, a, b)?
        },
        Group::BinaryI64 => {
            let b: i64 = pop_i64(s)?;
            let a: i64 = pop_i64(s)?;
            numeric::run_binary_i64(i, a, b)?
        },
        _ => return Ok(()),
    };
    s.push(v);
    Ok(())
}

/// The stack after a load, with `mems` as the memories.
pub open spec fn load_step(i: Instr, s: Seq<Value>, mems: Seq<MemoryModel>) -> Result<
    Seq<Value>,
    WasmError,
> {
    match popped_i32(s) {
        Err(e) => Err(e),
        Ok((base, t)) => if mems.len() == 0 {
            Err(WasmError::MemoryOutOfBounds)
        } else {
            match access::load_result(i, mems[0], base) {
                Err(e) => Err(e),
                Ok(v) => Ok(t.push(v)),
            }
        },
    }
}

/// The stack and the memories after a store.
pub open spec fn store_step(i: Instr, s: Seq<Value>, mems: Seq<MemoryModel>) -> Result<
    (Seq<Value>, Seq<MemoryModel>),
    WasmError,
> {
    match popped_as(s, access::store_type(i)) {
        Err(e) => Err(e),
        Ok((v, t)) => match popped_i32(t) {
            Err(e) => Err(e),
            Ok((base, u)) => if mems.len() == 0 {
                Err(WasmError::MemoryOutOfBounds)
            } else {
                match access::store_result(i, mems[0], base, v) {
                    Err(e) => Err(e),
                    Ok(m) => Ok((u, mems.update(0, m))),
                }
            },
        },
    }
}

/// The operands of a floating-point instruction, in order, and the stack
/// without them.
pub open spec fn float_step(g: Group, s: Seq<Value>) -> Result<
    (Seq<Value>, Seq<Value>),
    WasmError,
> {
    match g {
        Group::Float2(ty) => match popped_as(s, ty) {
            Err(e) => Err(e),
            Ok((b, t)) => match popped_as(t, ty) {
                Err(e) => Err(e),
                Ok((a, u)) => Ok((seq![a, b], u)),
            },
        },
        Group::Float1(ty) => match popped_as(s, ty) {
            Err(e) => Err(e),
            Ok((a, t)) => Ok((seq![a], t)),
        },
        _ => Ok((seq![], s)),
    }
}

fn float_args(g: Group, s: &mut Vec<Value>) -> (r: Result<Vec<Value>, WasmError>)
    ensures
        match float_step(g, old(s)@) {
            Ok((args, t)) => r matches Ok(v) && v@ == args && final(s)@ == t,
            Err(e) => r == Err::<Vec<Value>, WasmError>(e),
        },
{
    match g {
        Group::Float2(ty) => {
            let b: Value = pop_as(s, ty)?;
            let a: Value = pop_as(s, ty)?;
            let v = vec![a, b];
            assert(v@ =~= seq![a, b]);
            Ok(v)
        },
        Group::Float1(ty) => {
            let a: Value = pop_as(s, ty)?;
            let v = vec![a];
            assert(v@ =~= seq![a]);
            Ok(v)
        },
        _ => Ok(Vec::new()),
    }
}

// ---- Control ----

/// The state after an instruction, and what it asks for.
#[verifier::ext_equal]
pub struct StepModel {
    pub frame: FrameModel,
    pub inst: InstanceModel,
    pub effect: EffectModel,
}

/// The outcome of an instruction that goes on with the next one.
pub open spec fn next(f: FrameModel, m: InstanceModel) -> Result<StepModel, WasmError> {
    Ok(StepModel { frame: f, inst: m, effect: EffectModel::Next })
}

/// How many values a block of type `bt` results in.
pub open spec fn block_arity(bt: BlockType, m: ModuleModel) -> nat {
    match bt {
        BlockType::Empty => 0,
        BlockType::Val(_) => 1,
        BlockType::TypeIdx(i) => if i < m.types.len() {
            m.types[i as int].results.len()
        } else {
            0
        },
    }
}

fn arity_of(bt: &BlockType, m: &WasmModule) -> (r: usize)
    ensures
        r == block_arity(*bt, m@),
{
    match bt {
        BlockType::Empty => 0,
        BlockType::Val(_) => 1,
        BlockType::TypeIdx(i) => if (*i as usize) < m.types.len() {
            m.types[*i as usize].results.len()
        } else {
            0
        },
    }
}

/// The frame after a branch to the block `depth` levels out: the values that
/// the block keeps stay on the stack, a loop starts over, and any other
/// block is left.
pub open spec fn branch(f: FrameModel, depth: u32) -> Result<FrameModel, WasmError> {
    if f.ctrl.len() < 1 + depth {
        Err(WasmError::StackUnderflow)
    } else {
        let t = f.ctrl.len() - 1 - depth;
        let c = f.ctrl[t];
        Ok(
            FrameModel {
                stack: unwound(f.stack, c.stack_base as int, c.arity as int),
                ctrl: if c.op == CtrlOp::Loop {
                    f.ctrl.subrange(0, t + 1)
                } else {
                    f.ctrl.subrange(0, t)
                },
                pc: c.br_target as int,
                ..f
            },
        )
    }
}

/// The frame with a block of the given kind opened, which leaves `results`
/// values at its end. A branch keeps as many, but a branch to a loop starts
/// it over and keeps none.
pub open spec fn opened(
    f: FrameModel,
    op: CtrlOp,
    results: int,
    else_pos: Option<usize>,
    target: int,
) -> FrameModel {
    FrameModel {
        ctrl: f.ctrl.push(
            CtrlFrame {
                op,
                stack_base: f.stack.len() as usize,
                arity: if op == CtrlOp::Loop {
                    0
                } else {
                    results as usize
                },
                results: results as usize,
                else_pos,
                br_target: target as usize,
            },
        ),
        ..f
    }
}

/// Opening a block: the end of the block must exist.
pub open spec fn block_step(f: FrameModel, m: InstanceModel, bt: BlockType) -> Result<
    StepModel,
    WasmError,
> {
    match scan::block_end(f.code, f.pc, 1) {
        None => Err(WasmError::UnexpectedEof),
        Some(end) => next(
            opened(f, CtrlOp::Block, block_arity(bt, m.module) as int, None, end),
            m,
        ),
    }
}

/// The frame with its innermost block closed: the results of the block stay
/// on the stack.
pub open spec fn closed(f: FrameModel) -> FrameModel {
    let c = f.ctrl.last();
    FrameModel {
        stack: unwound(f.stack, c.stack_base as int, c.results as int),
        ctrl: f.ctrl.drop_last(),
        ..f
    }
}

/// Entering an `if`: a zero condition goes to the `else` branch, or past the
/// end, with no block opened, if there is none.
pub open spec fn if_step(f: FrameModel, m: InstanceModel, bt: BlockType) -> Result<
    StepModel,
    WasmError,
> {
    match popped_i32(f.stack) {
        Err(e) => Err(e),
        Ok((cond, s)) => match scan::else_and_end(f.code, f.pc, 1, None) {
            None => Err(WasmError::UnexpectedEof),
            Some(found) => {
                let (else_pos, end) = scan::positions(found);
                let g = FrameModel { stack: s, ..f };
                let inside = opened(
                    g,
                    CtrlOp::If,
                    block_arity(bt, m.module) as int,
                    else_pos,
                    end as int,
                );
                if cond != 0 {
                    next(inside, m)
                } else if else_pos is Some {
                    next(FrameModel { pc: else_pos->0 as int, ..inside }, m)
                } else {
                    next(FrameModel { pc: end as int, ..g }, m)
                }
            },
        },
    }
}

/// The end of a block: its result values stay, and the block is closed;
/// outside of any block the function ends.
pub open spec fn end_step(f: FrameModel, m: InstanceModel) -> Result<StepModel, WasmError> {
    if f.ctrl.len() == 0 {
        return_step(f, m)
    } else {
        next(closed(f), m)
    }
}

/// An `else` that is reached from the branch before it: the block is over,
/// and execution goes on behind its end. A loop has no `else` branch; it
/// starts over.
pub open spec fn else_step(f: FrameModel, m: InstanceModel) -> Result<StepModel, WasmError> {
    if f.ctrl.len() == 0 {
        next(f, m)
    } else {
        let c = f.ctrl.last();
        let g = if c.op == CtrlOp::Loop {
            f
        } else {
            closed(f)
        };
        next(FrameModel { pc: c.br_target as int, ..g }, m)
    }
}

/// The end of the function: the top values are its results.
pub open spec fn return_step(f: FrameModel, m: InstanceModel) -> Result<StepModel, WasmError> {
    Ok(
        StepModel {
            frame: f,
            inst: m,
            effect: EffectModel::Return(top_of(f.stack, f.result_ty.len() as int)),
        },
    )
}

/// A branch as an instruction.
pub open spec fn branch_step(f: FrameModel, m: InstanceModel, depth: u32) -> Result<
    StepModel,
    WasmError,
> {
    match branch(f, depth) {
        Err(e) => Err(e),
        Ok(g) => next(g, m),
    }
}

/// A call with `n` arguments from the stack.
pub open spec fn call_with(f: FrameModel, m: InstanceModel, func: u32, n: int) -> Result<
    StepModel,
    WasmError,
> {
    if f.stack.len() < n {
        Err(WasmError::StackUnderflow)
    } else {
        let k = f.stack.len() - n;
        Ok(
            StepModel {
                frame: FrameModel { stack: f.stack.subrange(0, k), ..f },
                inst: m,
                effect: EffectModel::Call {
                    func,
                    args: f.stack.subrange(k, f.stack.len() as int),
                },
            },
        )
    }
}

/// A direct call.
pub open spec fn call_step(f: FrameModel, m: InstanceModel, func: u32) -> Result<
    StepModel,
    WasmError,
> {
    if func >= m.funcs.len() {
        Err(WasmError::UndefinedFunc(func))
    } else {
        call_with(f, m, func, m.funcs[func as int].ty.params.len() as int)
    }
}

/// The function that slot `i` of table `t` names, if there is one.
pub open spec fn table_entry(m: InstanceModel, t: u32, i: usize) -> Option<u32> {
    if i < m.tables[t as int].len() {
        m.tables[t as int][i as int]
    } else {
        None
    }
}

/// A call through a table: the entry must have the expected signature.
pub open spec fn call_indirect_step(f: FrameModel, m: InstanceModel, ty: u32, table: u32) -> Result<
    StepModel,
    WasmError,
> {
    match popped_i32(f.stack) {
        Err(e) => Err(e),
        Ok((i, s)) => if table >= m.tables.len() {
            Err(WasmError::UndefinedFunc(table))
        } else {
            match table_entry(m, table, i as usize) {
                None => Err(WasmError::Trap(TrapCode::IndirectCallTypeMismatch)),
                Some(func) => if ty >= m.module.types.len() {
                    Err(WasmError::InvalidType)
                } else if func >= m.funcs.len() {
                    Ok(
                        StepModel {
                            frame: FrameModel { stack: s, ..f },
                            inst: m,
                            effect: EffectModel::Dangling,
                        },
                    )
                } else if m.funcs[func as int].ty != m.module.types[ty as int] {
                    Err(WasmError::Trap(TrapCode::IndirectCallTypeMismatch))
                } else {
                    call_with(
                        FrameModel { stack: s, ..f },
                        m,
                        func,
                        m.module.types[ty as int].params.len() as int,
                    )
                },
            }
        },
    }
}

/// The control instructions other than a branch table.
pub open spec fn control_step(i: Instr, f: FrameModel, m: InstanceModel) -> Result<
    StepModel,
    WasmError,
> {
    match i {
        Instr::Unreachable => Err(WasmError::Trap(TrapCode::Unreachable)),
        Instr::Block(bt) => block_step(f, m, bt),
        Instr::Loop(bt) => next(
            opened(f, CtrlOp::Loop, block_arity(bt, m.module) as int, None, f.pc),
            m,
        ),
        Instr::If(bt) => if_step(f, m, bt),
        Instr::Else => else_step(f, m),
        Instr::End => end_step(f, m),
        Instr::Br(depth) => branch_step(f, m, depth),
        Instr::BrIf(depth) => match popped_i32(f.stack) {
            Err(e) => Err(e),
            Ok((cond, s)) => if cond != 0 {
                branch_step(FrameModel { stack: s, ..f }, m, depth)
            } else {
                next(FrameModel { stack: s, ..f }, m)
            },
        },
        Instr::Return => return_step(f, m),
        Instr::Call(func) => call_step(f, m, func),
        Instr::CallIndirect(ty, table) => call_indirect_step(f, m, ty, table),
        _ => next(f, m),
    }
}

/// A branch table: the label that the popped index selects, or the default.
pub open spec fn br_table_step(
    labels: Seq<u32>,
    default: u32,
    f: FrameModel,
    m: InstanceModel,
) -> Result<StepModel, WasmError> {
    match popped_i32(f.stack) {
        Err(e) => Err(e),
        Ok((i, s)) => branch_step(
            FrameModel { stack: s, ..f },
            m,
            if (i as usize) < labels.len() {
                labels[(i as usize) as int]
            } else {
                default
            },
        ),
    }
}

/// Whether `r`, `f` and `m` are what `want` says. After an error the
/// instance is as before and the frame is dropped.
pub open spec fn meets(
    want: Result<StepModel, WasmError>,
    r: Result<Effect, WasmError>,
    f: FrameModel,
    before: InstanceModel,
    after: InstanceModel,
) -> bool {
    match want {
        Ok(s) => r matches Ok(e) && e@ == s.effect && f == s.frame && after == s.inst,
        Err(e) => r == Err::<Effect, WasmError>(e) && after == before,
    }
}

impl Frame {
    /// Branches to the block `depth` levels out.
    fn do_break(&mut self, depth: u32) -> (r: Result<Effect, WasmError>)
        ensures
            match branch(old(self)@, depth) {
                Ok(g) => r == Ok::<Effect, WasmError>(Effect::Next) && final(self)@ == g,
                Err(e) => r == Err::<Effect, WasmError>(e),
            },
    {
        if self.ctrl.len() <= depth as usize {
            return Err(WasmError::StackUnderflow);
        }
        let target: usize = self.ctrl.len() - 1 - depth as usize;
        let c: CtrlFrame = self.ctrl[target];
        unwind(&mut self.stack, c.stack_base, c.arity);
        self.pc = c.br_target;
        if c.op == CtrlOp::Loop {
            self.ctrl.truncate(target + 1);
        } else {
            self.ctrl.truncate(target);
        }
        assert(self@ =~= branch(old(self)@, depth)->Ok_0);
        Ok(Effect::Next)
    }

    /// Opens a block.
    fn open_block(&mut self, op: CtrlOp, results: usize, else_pos: Option<usize>, target: usize)
        ensures
            final(self)@ == opened(old(self)@, op, results as int, else_pos, target as int),
    {
        let stack_base: usize = self.stack.len();
        let arity: usize = if op == CtrlOp::Loop {
            0
        } else {
            results
        };
        self.ctrl.push(CtrlFrame { op, stack_base, arity, results, else_pos, br_target: target });
        assert(self@ =~= opened(old(self)@, op, results as int, else_pos, target as int));
    }

    /// Takes the top `n` values off the stack as arguments of a call.
    fn begin_call(&mut self, func: u32, n: usize, inst: &ModuleInstance) -> (r: Result<
        Effect,
        WasmError,
    >)
        ensures
            meets(call_with(old(self)@, inst@, func, n as int), r, final(self)@, inst@, inst@),
    {
        if self.stack.len() < n {
            return Err(WasmError::StackUnderflow);
        }
        let k: usize = self.stack.len() - n;
        let args: Vec<Value> = self.stack.split_off(k);
        proof {
            let want = call_with(old(self)@, inst@, func, n as int)->Ok_0;
            assert(self@ =~= want.frame);
        }
        Ok(Effect::Call { func, args })
    }

    /// Enters an `if`.
    fn run_if(&mut self, bt: &BlockType, inst: &ModuleInstance) -> (r: Result<Effect, WasmError>)
        requires
            old(self).pc >= 1,
        ensures
            meets(if_step(old(self)@, inst@, *bt), r, final(self)@, inst@, inst@),
    {
        let cond: i32 = pop_i32(&mut self.stack)?;
        let results: usize = arity_of(bt, &inst.module);
        let (else_pos, end) = scan::find_else_end(self.code.as_slice(), self.pc)?;
        if cond != 0 {
            self.open_block(CtrlOp::If, results, else_pos, end);
        } else {
            match else_pos {
                Some(p) => {
                    self.open_block(CtrlOp::If, results, else_pos, end);
                    self.pc = p;
                },
                None => {
                    self.pc = end;
                },
            }
        }
        assert(self@ =~= if_step(old(self)@, inst@, *bt)->Ok_0.frame);
        Ok(Effect::Next)
    }

    /// Calls through a table.
    fn run_call_indirect(&mut self, ty: u32, table: u32, inst: &ModuleInstance) -> (r: Result<
        Effect,
        WasmError,
    >)
        ensures
            meets(
                call_indirect_step(old(self)@, inst@, ty, table),
                r,
                final(self)@,
                inst@,
                inst@,
            ),
    {
        let i: usize = pop_i32(&mut self.stack)? as usize;
        if table as usize >= inst.tables.len() {
            return Err(WasmError::UndefinedFunc(table));
        }
        let elems: &Vec<Option<u32>> = &inst.tables[table as usize].elems;
        let entry: Option<u32> = if i < elems.len() {
            elems[i]
        } else {
            None
        };
        let func: u32 = match entry {
            Some(f) => f,
            None => return Err(WasmError::Trap(TrapCode::IndirectCallTypeMismatch)),
        };
        if ty as usize >= inst.module.types.len() {
            return Err(WasmError::InvalidType);
        }
        if func as usize >= inst.funcs.len() {
            return Ok(Effect::Dangling);
        }
        let expected = &inst.module.types[ty as usize];
        if !inst.funcs[func as usize].ty.same_as(expected) {
            return Err(WasmError::Trap(TrapCode::IndirectCallTypeMismatch));
        }
        self.begin_call(func, expected.params.len(), inst)
    }

    /// The results of the function.
    fn results(&self) -> (r: Result<Effect, WasmError>)
        ensures
            forall|m: InstanceModel| #[trigger]
                meets(return_step(self@, m), r, self@, m, m),
    {
        let v: Vec<Value> = top(&self.stack, self.result_ty.len());
        Ok(Effect::Return(v))
    }

    /// Closes a block, or ends the function.
    fn run_end(&mut self, inst: &ModuleInstance) -> (r: Result<Effect, WasmError>)
        ensures
            meets(end_step(old(self)@, inst@), r, final(self)@, inst@, inst@),
    {
        match self.ctrl.pop() {
            None => self.results(),
            Some(c) => {
                unwind(&mut self.stack, c.stack_base, c.results);
                assert(self@ =~= end_step(old(self)@, inst@)->Ok_0.frame);
                Ok(Effect::Next)
            },
        }
    }

    /// Leaves a block at its `else`.
    fn run_else(&mut self, inst: &ModuleInstance) -> (r: Result<Effect, WasmError>)
        ensures
            meets(else_step(old(self)@, inst@), r, final(self)@, inst@, inst@),
    {
        if self.ctrl.len() > 0 {
            let c: CtrlFrame = self.ctrl[self.ctrl.len() - 1];
            if c.op != CtrlOp::Loop {
                unwind(&mut self.stack, c.stack_base, c.results);
                self.ctrl.truncate(self.ctrl.len() - 1);
            }
            self.pc = c.br_target;
        }
        assert(self@ =~= else_step(old(self)@, inst@)->Ok_0.frame);
        Ok(Effect::Next)
    }

    /// Executes a control instruction other than a branch table.
    fn run_control(&mut self, i: &Instr, inst: &ModuleInstance) -> (r: Result<Effect, WasmError>)
        requires
            old(self).pc >= 1,
        ensures
            meets(control_step(*i, old(self)@, inst@), r, final(self)@, inst@, inst@),
    {
        match i {
            Instr::Unreachable => Err(WasmError::Trap(TrapCode::Unreachable)),
            Instr::Block(bt) => {
                let results: usize = arity_of(bt, &inst.module);
                let end: usize = scan::find_end(self.code.as_slice(), self.pc)?;
                self.open_block(CtrlOp::Block, results, None, end);
                Ok(Effect::Next)
            },
            Instr::Loop(bt) => {
                let results: usize = arity_of(bt, &inst.module);
                self.open_block(CtrlOp::Loop, results, None, self.pc);
                Ok(Effect::Next)
            },
            Instr::If(bt) => self.run_if(bt, inst),
            Instr::Else => self.run_else(inst),
            Instr::End => self.run_end(inst),
            Instr::Br(depth) => self.do_break(*depth),
            Instr::BrIf(depth) => {
                let cond: i32 = pop_i32(&mut self.stack)?;
                if cond != 0 {
                    self.do_break(*depth)
                } else {
                    Ok(Effect::Next)
                }
            },
            Instr::Return => self.results(),
            Instr::Call(func) => {
                if *func as usize >= inst.funcs.len() {
                    return Err(WasmError::UndefinedFunc(*func));
                }
                self.begin_call(*func, inst.funcs[*func as usize].ty.params.len(), inst)
            },
            Instr::CallIndirect(ty, table) => self.run_call_indirect(*ty, *table, inst),
            _ => Ok(Effect::Next),
        }
    }

    /// Executes a branch table.
    fn run_br_table(&mut self, labels: &Vec<u32>, default: u32, inst: &ModuleInstance) -> (r: Result<
        Effect,
        WasmError,
    >)
        ensures
            meets(
                br_table_step(labels@, default, old(self)@, inst@),
                r,
                final(self)@,
                inst@,
                inst@,
            ),
    {
        let i: usize = pop_i32(&mut self.stack)? as usize;
        let depth: u32 = if i < labels.len() {
            labels[i]
        } else {
            default
        };
        self.do_break(depth)
    }
}

// ---- Variables, memory size, constants ----

/// `f` with `v` pushed on its stack.
pub open spec fn pushed(f: FrameModel, v: Value) -> FrameModel {
    FrameModel { stack: f.stack.push(v), ..f }
}

/// Choosing between two values by a condition.
pub open spec fn select_step(s: Seq<Value>) -> Result<Seq<Value>, WasmError> {
    match popped_i32(s) {
        Err(e) => Err(e),
        Ok((cond, t)) => match popped(t) {
            Err(e) => Err(e),
            Ok((b, u)) => match popped(u) {
                Err(e) => Err(e),
                Ok((a, w)) => Ok(
                    w.push(
                        if cond != 0 {
                            a
                        } else {
                            b
                        },
                    ),
                ),
            },
        },
    }
}

/// The number of pages of the first memory; none without a memory.
pub open spec fn memory_size(mems: Seq<MemoryModel>) -> u32 {
    if mems.len() > 0 {
        memory::pages_of(mems[0])
    } else {
        0
    }
}

/// The memories after growing the first one, and the answer.
pub open spec fn memory_grown(mems: Seq<MemoryModel>, delta: u32) -> (Seq<MemoryModel>, i32) {
    if mems.len() > 0 {
        let (m, r) = memory::grown(mems[0], delta);
        (mems.update(0, m), r)
    } else {
        (mems, (-1) as i32)
    }
}

/// The parametric, variable, memory size and constant instructions.
pub open spec fn variable_step(i: Instr, f: FrameModel, m: InstanceModel) -> Result<
    StepModel,
    WasmError,
> {
    match i {
        Instr::Drop => match popped(f.stack) {
            Err(e) => Err(e),
            Ok((_, s)) => next(FrameModel { stack: s, ..f }, m),
        },
        Instr::Select => match select_step(f.stack) {
            Err(e) => Err(e),
            Ok(s) => next(FrameModel { stack: s, ..f }, m),
        },
        Instr::LocalGet(x) => if x < f.locals.len() {
            next(pushed(f, f.locals[x as int]), m)
        } else {
            Err(WasmError::UndefinedLocal(x))
        },
        Instr::LocalSet(x) => match popped(f.stack) {
            Err(e) => Err(e),
            Ok((v, s)) => if x < f.locals.len() {
                next(FrameModel { stack: s, locals: f.locals.update(x as int, v), ..f }, m)
            } else {
                Err(WasmError::UndefinedLocal(x))
            },
        },
        Instr::LocalTee(x) => if f.stack.len() == 0 {
            Err(WasmError::StackUnderflow)
        } else if x < f.locals.len() {
            next(FrameModel { locals: f.locals.update(x as int, f.stack.last()), ..f }, m)
        } else {
            Err(WasmError::UndefinedLocal(x))
        },
        Instr::GlobalGet(x) => if x < m.globals.len() {
            next(pushed(f, m.globals[x as int].value), m)
        } else {
            Err(WasmError::UndefinedGlobal(x))
        },
        Instr::GlobalSet(x) => match popped(f.stack) {
            Err(e) => Err(e),
            Ok((v, s)) => if x < m.globals.len() {
                next(
                    FrameModel { stack: s, ..f },
                    InstanceModel {
                        globals: m.globals.update(
                            x as int,
                            GlobalInst { value: v, ..m.globals[x as int] },
                        ),
                        ..m
                    },
                )
            } else {
                Err(WasmError::UndefinedGlobal(x))
            },
        },
        Instr::MemorySize => next(pushed(f, Value::I32(memory_size(m.memories) as i32)), m),
        Instr::MemoryGrow => match popped_i32(f.stack) {
            Err(e) => Err(e),
            Ok((delta, s)) => {
                let (mems, r) = memory_grown(m.memories, delta as u32);
                next(
                    pushed(FrameModel { stack: s, ..f }, Value::I32(r)),
                    InstanceModel { memories: mems, ..m },
                )
            },
        },
        Instr::I32Const(v) => next(pushed(f, Value::I32(v)), m),
        Instr::I64Const(v) => next(pushed(f, Value::I64(v)), m),
        Instr::F32Const(v) => next(pushed(f, Value::F32(v)), m),
        Instr::F64Const(v) => next(pushed(f, Value::F64(v)), m),
        _ => next(f, m),
    }
}

/// Whether an instruction is one of those in [`variable_step`].
pub open spec fn is_variable(i: Instr) -> bool {
    match i {
        Instr::Drop
        | Instr::Select
        | Instr::LocalGet(_)
        | Instr::LocalSet(_)
        | Instr::LocalTee(_)
        | Instr::GlobalGet(_)
        | Instr::GlobalSet(_)
        | Instr::MemorySize
        | Instr::MemoryGrow
        | Instr::I32Const(_)
        | Instr::I64Const(_)
        | Instr::F32Const(_)
        | Instr::F64Const(_) => true,
        _ => false,
    }
}

/// What an instruction other than a branch table does. The frame's position
/// is already past the instruction.
pub open spec fn plain_step(i: Instr, f: FrameModel, m: InstanceModel) -> Result<
    StepModel,
    WasmError,
> {
    match numeric::group(i) {
        Group::Load => match load_step(i, f.stack, m.memories) {
            Err(e) => Err(e),
            Ok(s) => next(FrameModel { stack: s, ..f }, m),
        },
        Group::Store => match store_step(i, f.stack, m.memories) {
            Err(e) => Err(e),
            Ok((s, mems)) => next(
                FrameModel { stack: s, ..f },
                InstanceModel { memories: mems, ..m },
            ),
        },
        Group::Float1(_) | Group::Float2(_) => match float_step(numeric::group(i), f.stack) {
            Err(e) => Err(e),
            Ok((args, s)) => Ok(
                StepModel {
                    frame: FrameModel { stack: s, ..f },
                    inst: m,
                    effect: EffectModel::Float { op: i, args },
                },
            ),
        },
        Group::Other => if is_variable(i) {
            variable_step(i, f, m)
        } else {
            control_step(i, f, m)
        },
        _ => match numeric_step(i, f.stack) {
            Err(e) => Err(e),
            Ok(s) => next(FrameModel { stack: s, ..f }, m),
        },
    }
}

/// One step of execution: decode the instruction at the frame's position and
/// do what it says. An `end` opcode closes the innermost block; outside of any
/// block it ends the function, and so does the end of the code.
#[verifier::opaque]
pub open spec fn step(f: FrameModel, m: InstanceModel) -> Result<StepModel, WasmError> {
    match instr::instr_at(f.code, f.pc) {
        (Err(e), _) => Err(e),
        (Ok(None), q) => if f.pc < f.code.len() {
            end_step(FrameModel { pc: q, ..f }, m)
        } else {
            return_step(FrameModel { pc: q, ..f }, m)
        },
        (Ok(Some(InstrModel::BrTable(labels, default))), q) => br_table_step(
            labels,
            default,
            FrameModel { pc: q, ..f },
            m,
        ),
        (Ok(Some(InstrModel::Plain(i))), q) => plain_step(i, FrameModel { pc: q, ..f }, m),
    }
}

fn is_variable_instr(i: &Instr) -> (r: bool)
    ensures
        r == is_variable(*i),
{
    match i {
        Instr::Drop
        | Instr::Select
        | Instr::LocalGet(_)
        | Instr::LocalSet(_)
        | Instr::LocalTee(_)
        | Instr::GlobalGet(_)
        | Instr::GlobalSet(_)
        | Instr::MemorySize
        | Instr::MemoryGrow
        | Instr::I32Const(_)
        | Instr::I64Const(_)
        | Instr::F32Const(_)
        | Instr::F64Const(_) => true,
        _ => false,
    }
}

fn run_select(s: &mut Vec<Value>) -> (r: Result<(), WasmError>)
    ensures
        match select_step(old(s)@) {
            Ok(t) => r is Ok && final(s)@ == t,
            Err(e) => r == Err::<(), WasmError>(e),
        },
{
    let cond: i32 = pop_i32(s)?;
    let b: Value = pop(s)?;
    let a: Value = pop(s)?;
    s.push(
        if cond != 0 {
            a
        } else {
            b
        },
    );
    Ok(())
}

fn run_load(i: &Instr, s: &mut Vec<Value>, inst: &ModuleInstance) -> (r: Result<(), WasmError>)
    requires
        numeric::group(*i) == Group::Load,
    ensures
        match load_step(*i, old(s)@, inst@.memories) {
            Ok(t) => r is Ok && final(s)@ == t,
            Err(e) => r == Err::<(), WasmError>(e),
        },
{
    let base: i32 = pop_i32(s)?;
    if inst.memories.len() == 0 {
        return Err(WasmError::MemoryOutOfBounds);
    }
    let v: Value = access::run_load(i, &inst.memories[0], base)?;
    s.push(v);
    Ok(())
}

fn run_store(i: &Instr, s: &mut Vec<Value>, inst: &mut ModuleInstance) -> (r: Result<
    (),
    WasmError,
>)
    ensures
        match store_step(*i, old(s)@, old(inst)@.memories) {
            Ok((t, mems)) => {
                &&& r is Ok
                &&& final(s)@ == t
                &&& final(inst)@ == InstanceModel { memories: mems, ..old(inst)@ }
            },
            Err(e) => r == Err::<(), WasmError>(e) && final(inst)@ == old(inst)@,
        },
{
    let v: Value = pop_as(s, access::store_type_of(i))?;
    let base: i32 = pop_i32(s)?;
    if inst.memories.len() == 0 {
        return Err(WasmError::MemoryOutOfBounds);
    }
    let r = access::run_store(i, &mut inst.memories[0], base, v);
    proof {
        types::lemma_views_update(old(inst).memories@, 0, inst.memories@[0]);
        assert(inst.memories@ =~= old(inst).memories@.update(0, inst.memories@[0]));
        if r is Err {
            assert(inst@ =~= old(inst)@);
        }
    }
    r
}

impl Frame {
    /// Executes a parametric, variable, memory size or constant instruction.
    #[verifier::rlimit(50)]
    fn run_variable(&mut self, i: &Instr, inst: &mut ModuleInstance) -> (r: Result<
        Effect,
        WasmError,
    >)
        requires
            is_variable(*i),
        ensures
            meets(
                variable_step(*i, old(self)@, old(inst)@),
                r,
                final(self)@,
                old(inst)@,
                final(inst)@,
            ),
    {
        match i {
            Instr::Drop => {
                pop(&mut self.stack)?;
            },
            Instr::Select => {
                run_select(&mut self.stack)?;
            },
            Instr::LocalGet(x) => {
                if *x as usize >= self.locals.len() {
                    return Err(WasmError::UndefinedLocal(*x));
                }
                self.stack.push(self.locals[*x as usize]);
            },
            Instr::LocalSet(x) => {
                let v: Value = pop(&mut self.stack)?;
                if *x as usize >= self.locals.len() {
                    return Err(WasmError::UndefinedLocal(*x));
                }
                self.locals[*x as usize] = v;
            },
            Instr::LocalTee(x) => {
                if self.stack.len() == 0 {
                    return Err(WasmError::StackUnderflow);
                }
                let v: Value = self.stack[self.stack.len() - 1];
                if *x as usize >= self.locals.len() {
                    return Err(WasmError::UndefinedLocal(*x));
                }
                self.locals[*x as usize] = v;
            },
            Instr::GlobalGet(x) => {
                if *x as usize >= inst.globals.len() {
                    return Err(WasmError::UndefinedGlobal(*x));
                }
                self.stack.push(inst.globals[*x as usize].value);
            },
            Instr::GlobalSet(x) => {
                let v: Value = pop(&mut self.stack)?;
                if *x as usize >= inst.globals.len() {
                    return Err(WasmError::UndefinedGlobal(*x));
                }
                let ty = inst.globals[*x as usize].ty;
                inst.globals[*x as usize] = GlobalInst { ty, value: v };
            },
            Instr::MemorySize => {
                let pages: u32 = if inst.memories.len() > 0 {
                    inst.memories[0].size_pages()
                } else {
                    0
                };
                self.stack.push(Value::I32(pages as i32));
            },
            Instr::MemoryGrow => {
                let delta: u32 = pop_i32(&mut self.stack)? as u32;
                let r: i32 = if inst.memories.len() > 0 {
                    let r: i32 = inst.memories[0].grow(delta);
                    proof {
                        types::lemma_views_update(old(inst).memories@, 0, inst.memories@[0]);
                        assert(inst.memories@ =~= old(inst).memories@.update(
                            0,
                            inst.memories@[0],
                        ));
                    }
                    r
                } else {
                    -1
                };
                self.stack.push(Value::I32(r));
            },
            Instr::I32Const(v) => {
                self.stack.push(Value::I32(*v));
            },
            Instr::I64Const(v) => {
                self.stack.push(Value::I64(*v));
            },
            Instr::F32Const(v) => {
                self.stack.push(Value::F32(*v));
            },
            Instr::F64Const(v) => {
                self.stack.push(Value::F64(*v));
            },
            _ => {},
        }
        proof {
            let want = variable_step(*i, old(self)@, old(inst)@)->Ok_0;
            assert(self@ =~= want.frame);
            assert(inst@ =~= want.inst);
        }
        Ok(Effect::Next)
    }

    /// Executes an instruction other than a branch table.
    fn run_plain(&mut self, i: Instr, inst: &mut ModuleInstance) -> (r: Result<Effect, WasmError>)
        requires
            old(self).pc >= 1,
        ensures
            meets(
                plain_step(i, old(self)@, old(inst)@),
                r,
                final(self)@,
                old(inst)@,
                final(inst)@,
            ),
    {
        match numeric::group_of(&i) {
            Group::Load => {
                run_load(&i, &mut self.stack, inst)?;
            },
            Group::Store => {
                run_store(&i, &mut self.stack, inst)?;
            },
            Group::Float1(ty) => {
                let args: Vec<Value> = float_args(Group::Float1(ty), &mut self.stack)?;
                return Ok(Effect::Float { op: i, args });
            },
            Group::Float2(ty) => {
                let args: Vec<Value> = float_args(Group::Float2(ty), &mut self.stack)?;
                return Ok(Effect::Float { op: i, args });
            },
            Group::Other => {
                if is_variable_instr(&i) {
                    return self.run_variable(&i, inst);
                }
                return self.run_control(&i, inst);
            },
            _ => {
                run_numeric(&i, &mut self.stack)?;
            },
        }
        Ok(Effect::Next)
    }

    /// Decodes and executes one instruction.
    pub fn step(&mut self, inst: &mut ModuleInstance) -> (r: Result<Effect, WasmError>)
        ensures
            meets(step(old(self)@, old(inst)@), r, final(self)@, old(inst)@, final(inst)@),
    {
        proof {
            reveal(step);
        }
        let inside: bool = self.pc < self.code.len();
        let mut reader = Reader { data: self.code.as_slice(), pos: self.pc };
        let decoded = instr::decode_instr(&mut reader)?;
        let pc: usize = reader.pos;
        proof {
            instr::law_decode_progress(self.code@, self.pc as int);
        }
        self.pc = pc;
        match decoded {
            None => if inside {
                self.run_end(inst)
            } else {
                self.results()
            },
            Some(Instr::BrTable(labels, default)) => self.run_br_table(&labels, default, inst),
            Some(i) => self.run_plain(i, inst),
        }
    }
}

// ---- Laws ----

/// An `end` opcode within a block closes that block only: the results of the
/// block stay on the stack, and execution goes on behind the opcode.
pub proof fn law_end_closes_block(f: FrameModel, m: InstanceModel)
    requires
        0 <= f.pc < f.code.len(),
        f.code[f.pc] == 0x0B,
        f.ctrl.len() > 0,
    ensures
        step(f, m) == next(FrameModel { pc: f.pc + 1, ..closed(f) }, m),
{
    reveal(step);
}

/// Outside of any block an `end` opcode ends the function, and the end of the
/// code ends it anywhere.
pub proof fn law_end_returns(f: FrameModel, m: InstanceModel)
    requires
        0 <= f.pc,
        f.pc >= f.code.len() || (f.code[f.pc] == 0x0B && f.ctrl.len() == 0),
    ensures
        step(f, m) matches Ok(s) && s.inst == m && s.effect == EffectModel::Return(
            top_of(f.stack, f.result_ty.len() as int),
        ),
{
    reveal(step);
}

/// A block that is opened and closed again leaves the values below it and its
/// results, whatever else it put on the stack; the other blocks stay open.
pub proof fn law_block_leaves_results(
    f: FrameModel,
    op: CtrlOp,
    else_pos: Option<usize>,
    target: int,
    other: Seq<Value>,
    results: Seq<Value>,
)
    requires
        f.stack.len() <= usize::MAX,
        results.len() <= usize::MAX,
    ensures
        ({
            let inside = opened(f, op, results.len() as int, else_pos, target);
            closed(FrameModel { stack: f.stack + other + results, ..inside }) == FrameModel {
                stack: f.stack + results,
                ..f
            }
        }),
{
    let inside = opened(f, op, results.len() as int, else_pos, target);
    let g = closed(FrameModel { stack: f.stack + other + results, ..inside });
    assert(g.ctrl =~= f.ctrl);
    assert(g.stack =~= f.stack + results);
}

/// A branch out of a block, an `else` that is reached in it, and its end all
/// leave the same values and the same open blocks.
pub proof fn law_ways_out_agree(f: FrameModel, m: InstanceModel)
    requires
        f.ctrl.len() > 0,
        f.ctrl.last().op != CtrlOp::Loop,
        f.ctrl.last().arity == f.ctrl.last().results,
    ensures
        end_step(f, m) == next(closed(f), m),
        branch_step(f, m, 0) == next(
            FrameModel { pc: f.ctrl.last().br_target as int, ..closed(f) },
            m,
        ),
        else_step(f, m) == branch_step(f, m, 0),
{
    assert(branch(f, 0)->Ok_0.ctrl =~= f.ctrl.drop_last());
}

/// An `if` whose condition is zero and that has no `else` is passed over: no
/// block stays open.
pub proof fn law_if_passed_over(f: FrameModel, m: InstanceModel, bt: BlockType, s: Seq<Value>, end: int)
    requires
        popped_i32(f.stack) == Ok::<(i32, Seq<Value>), WasmError>((0, s)),
        scan::else_and_end(f.code, f.pc, 1, None) == Some((None::<int>, end)),
        f.code.len() <= usize::MAX,
    ensures
        if_step(f, m, bt) == next(FrameModel { stack: s, pc: end, ..f }, m),
{
    scan::law_else_and_end(f.code, f.pc, 1, None);
    scan::law_block_end(f.code, f.pc, 1);
}

} // verus!
