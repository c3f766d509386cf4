//! Calls, branches, blocks and variables, stated of one step of execution:
//! which values move where, and where execution goes on.
use vstd::prelude::*;

use crate::executor;
use crate::executor::SignalModel;
use crate::frame;
use crate::frame::{CtrlFrame, CtrlOp, EffectModel, FrameModel, StepModel};
use crate::host;
use crate::host::Outcome;
use crate::instance::{FuncKind, InstanceModel};
use crate::instr;
use crate::instr::{BlockType, Instr, InstrModel};
use crate::scan;
use crate::semantics;
use crate::types::{GlobalInst, LocalEntry, TrapCode, ValType, Value, WasmError};

verus! {

/// Whether the next step fails with `e`.
pub open spec fn fails(f: FrameModel, m: InstanceModel, e: WasmError) -> bool {
    frame::step(f, m) == Err::<StepModel, WasmError>(e)
}

/// Whether the instruction at the frame's position is a branch table.
pub open spec fn table_next(f: FrameModel, labels: Seq<u32>, default: u32, q: int) -> bool {
    instr::instr_at(f.code, f.pc) == (Ok::<Option<InstrModel>, WasmError>(
        Some(InstrModel::BrTable(labels, default)),
    ), q)
}

// ---- Calls ----

/// Whether `args` are the `n` values on top of the stack `s`, the last one
/// topmost, and `rest` is what lies below them.
pub open spec fn taken(s: Seq<Value>, n: int, rest: Seq<Value>, args: Seq<Value>) -> bool {
    &&& args.len() == n
    &&& rest + args == s
    &&& forall|i: int| 0 <= i < n ==> #[trigger] args[i] == s[s.len() - n + i]
}

/// Whether the next step calls `func` with the top `n` values of `s`, and
/// goes on at `q` with what is left of `s`.
pub open spec fn calls(
    f: FrameModel,
    m: InstanceModel,
    q: int,
    s: Seq<Value>,
    func: u32,
    n: int,
) -> bool {
    frame::step(f, m) matches Ok(st) && st.inst == m && st.frame == (FrameModel {
        stack: st.frame.stack,
        pc: q,
        ..f
    }) && (st.effect matches EffectModel::Call { func: g, args } && g == func && taken(
        s,
        n,
        st.frame.stack,
        args,
    ))
}

/// A call takes its arguments off the stack, in order: the topmost value is
/// the last argument. It fails when the function does not exist, or when
/// there are too few values.
pub proof fn law_call(f: FrameModel, m: InstanceModel, func: u32, q: int)
    requires
        semantics::next_is(f, Instr::Call(func), q),
    ensures
        func >= m.funcs.len() ==> fails(f, m, WasmError::UndefinedFunc(func)),
        func < m.funcs.len() ==> {
            let n = m.funcs[func as int].ty.params.len();
            if f.stack.len() < n {
                fails(f, m, WasmError::StackUnderflow)
            } else {
                calls(f, m, q, f.stack, func, n as int)
            }
        },
{
    reveal(frame::step);
    if func < m.funcs.len() {
        let n = m.funcs[func as int].ty.params.len();
        if f.stack.len() >= n {
            let k = f.stack.len() - n;
            assert(f.stack.subrange(0, k) + f.stack.subrange(k, f.stack.len() as int) =~= f.stack);
        }
    }
}

/// A call through a table calls the function in the slot that the topmost
/// value names, with the arguments below that value. The slot must be set,
/// and its function must have the expected type.
pub proof fn law_call_indirect(
    f: FrameModel,
    m: InstanceModel,
    ty: u32,
    table: u32,
    q: int,
    s: Seq<Value>,
    i: i32,
)
    requires
        semantics::next_is(f, Instr::CallIndirect(ty, table), q),
        f.stack == s.push(Value::I32(i)),
        table < m.tables.len() ==> m.tables[table as int].len() <= i32::MAX,
    ensures
        table >= m.tables.len() ==> fails(f, m, WasmError::UndefinedFunc(table)),
        table < m.tables.len() ==> {
            let slots = m.tables[table as int];
            if !(0 <= i < slots.len()) || slots[i as int] is None {
                fails(f, m, WasmError::Trap(TrapCode::IndirectCallTypeMismatch))
            } else if ty >= m.module.types.len() {
                fails(f, m, WasmError::InvalidType)
            } else {
                let func = slots[i as int]->0;
                let n = m.module.types[ty as int].params.len();
                if func >= m.funcs.len() {
                    frame::step(f, m) matches Ok(st) && st.effect is Dangling
                } else if m.funcs[func as int].ty != m.module.types[ty as int] {
                    fails(f, m, WasmError::Trap(TrapCode::IndirectCallTypeMismatch))
                } else if s.len() < n {
                    fails(f, m, WasmError::StackUnderflow)
                } else {
                    calls(f, m, q, s, func, n as int)
                }
            }
        },
{
    reveal(frame::step);
    assert(f.stack.drop_last() =~= s);
    lemma_index(i);
    if table < m.tables.len() {
        let slots = m.tables[table as int];
        if 0 <= i < slots.len() && slots[i as int] is Some && ty < m.module.types.len() {
            let n = m.module.types[ty as int].params.len();
            if s.len() >= n {
                let k = s.len() - n;
                assert(s.subrange(0, k) + s.subrange(k, s.len() as int) =~= s);
            }
        }
    }
}

proof fn lemma_index(i: i32)
    ensures
        i >= 0 ==> i as usize == i,
        i < 0 ==> i as usize > i32::MAX,
{
    assert(i < 0 ==> i as usize > 0x7fff_ffff) by (bit_vector);
}

/// A function that the module defines starts with the arguments as its first
/// locals, in order, with an empty stack, at the first instruction of its
/// body. The caller keeps what lies below the arguments.
pub proof fn law_enters(frames: Seq<FrameModel>, m: InstanceModel, func: u32, q: int)
    requires
        frames.len() > 0,
        semantics::next_is(frames.last(), Instr::Call(func), q),
        func < m.funcs.len(),
        frames.last().stack.len() >= m.funcs[func as int].ty.params.len(),
    ensures
        ({
            let f = frames.last();
            let n = m.funcs[func as int].ty.params.len() as int;
            let below = FrameModel { stack: f.stack.subrange(0, f.stack.len() - n), pc: q, ..f };
            match m.funcs[func as int].kind {
                FuncKind::Host { .. } => executor::advance(frames, m).0 matches SignalModel::Host {
                    func: g,
                    args,
                    rest,
                } && g == func && rest == frames.drop_last().push(below) && taken(
                    f.stack,
                    n,
                    below.stack,
                    args,
                ),
                FuncKind::Local { body_idx, .. } => if body_idx < m.module.codes.len() {
                    executor::advance(frames, m).0 matches SignalModel::Ready(fs) && fs.len()
                        == frames.len() + 1 && fs.drop_last() == frames.drop_last().push(below)
                        && fs.last().locals.len() >= n && taken(
                        f.stack,
                        n,
                        below.stack,
                        fs.last().locals.subrange(0, n),
                    ) && (forall|i: int|
                        0 <= i < n ==> #[trigger] fs.last().locals[i] == f.stack[f.stack.len() - n
                            + i]) && fs.last().locals.subrange(n, fs.last().locals.len() as int)
                        == executor::declared_locals(m.module.codes[body_idx as int].locals)
                        && fs.last().stack.len() == 0 && fs.last().ctrl.len() == 0
                        && fs.last().pc == 0 && fs.last().code
                        == m.module.codes[body_idx as int].code && fs.last().result_ty
                        == m.funcs[func as int].ty.results
                } else {
                    executor::advance(frames, m).0 is Dangling
                },
            }
        }),
        executor::advance(frames, m).1 == m,
{
    reveal(executor::advance);
    reveal(frame::step);
    let f = frames.last();
    let n = m.funcs[func as int].ty.params.len() as int;
    let s = f.stack;
    let k = s.len() - n;
    assert(s.subrange(0, k) + s.subrange(k, s.len() as int) =~= s);
    let args = s.subrange(k, s.len() as int);
    if let FuncKind::Local { body_idx, .. } = m.funcs[func as int].kind {
        if body_idx < m.module.codes.len() {
            let fs = executor::advance(frames, m).0->Ready_0;
            let below = FrameModel { stack: s.subrange(0, k), pc: q, ..f };
            assert(fs.drop_last() =~= frames.drop_last().push(below));
            assert(fs.last().locals.subrange(0, n) =~= args);
            assert(fs.last().locals.subrange(n, fs.last().locals.len() as int)
                =~= executor::declared_locals(m.module.codes[body_idx as int].locals));
        }
    }
}

/// The locals that a body declares come group by group, each group as many
/// zeros of its type as it says.
pub proof fn law_declared_locals(entries: Seq<LocalEntry>, e: LocalEntry, i: int)
    requires
        0 <= i < e.count,
    ensures
        executor::declared_locals(Seq::empty()).len() == 0,
        ({
            let before = executor::declared_locals(entries);
            let all = executor::declared_locals(entries.push(e));
            &&& all.len() == before.len() + e.count
            &&& all.subrange(0, before.len() as int) == before
            &&& all[before.len() + i] == (match e.ty {
                ValType::I32 => Value::I32(0),
                ValType::I64 => Value::I64(0),
                ValType::F32 => Value::F32(0),
                ValType::F64 => Value::F64(0),
            })
        }),
{
    assert(entries.push(e).drop_last() =~= entries);
    let before = executor::declared_locals(entries);
    let all = executor::declared_locals(entries.push(e));
    assert(all.subrange(0, before.len() as int) =~= before);
}

/// What comes back from a call goes on the stack of the caller, in order; if
/// there is no caller, it is the result of the invocation.
pub proof fn law_results_come_back(frames: Seq<FrameModel>, m: InstanceModel, q: int)
    requires
        frames.len() > 0,
        semantics::next_is(frames.last(), Instr::Return, q),
    ensures
        ({
            let s = frames.last().stack;
            let n = frames.last().result_ty.len();
            let results = if n <= s.len() {
                s.subrange(s.len() - n, s.len() as int)
            } else {
                s
            };
            if frames.len() == 1 {
                executor::advance(frames, m).0 == SignalModel::Done(results)
            } else {
                let c = frames[frames.len() - 2];
                executor::advance(frames, m).0 == SignalModel::Ready(
                    frames.subrange(0, frames.len() - 2).push(
                        FrameModel { stack: c.stack + results, ..c },
                    ),
                )
            }
        }),
        executor::advance(frames, m).1 == m,
{
    reveal(executor::advance);
    reveal(frame::step);
    let s = frames.last().stack;
    let n = frames.last().result_ty.len();
    if n == s.len() {
        assert(s.subrange(s.len() - n, s.len() as int) =~= s);
    }
    if frames.len() > 1 {
        assert(frames.drop_last().drop_last() =~= frames.subrange(0, frames.len() - 2));
    }
}

/// What a host function or a floating-point instruction answers goes on the
/// stack of the activation that asked; its error ends the invocation.
pub proof fn law_answers_come_back(
    rest: Seq<FrameModel>,
    f: FrameModel,
    values: Seq<Value>,
    e: WasmError,
)
    ensures
        executor::after_host(rest.push(f), Ok(values)) == SignalModel::Ready(
            rest.push(FrameModel { stack: f.stack + values, ..f }),
        ),
        executor::after_host(Seq::empty(), Ok(values)) == SignalModel::Done(values),
        executor::after_host(rest.push(f), Err(e)) == SignalModel::Trap(e),
{
    assert(rest.push(f).drop_last() =~= rest);
}

// ---- Branches ----

/// Whether `t` is the stack `s` cut to `base` values with the top `n` values
/// of `s` put back on top, in order.
pub open spec fn cut_to(s: Seq<Value>, t: Seq<Value>, base: int, n: int) -> bool {
    let b = if base < s.len() {
        base
    } else {
        s.len() as int
    };
    let k = if n < s.len() {
        n
    } else {
        s.len() as int
    };
    &&& t.len() == b + k
    &&& forall|i: int| 0 <= i < b ==> #[trigger] t[i] == s[i]
    &&& forall|i: int| b <= i < b + k ==> #[trigger] t[i] == s[s.len() - k + i - b]
}

/// Whether the next step branches, with the stack `s`, to the block `depth`
/// levels out: execution goes on where that block says, its values stay on
/// the stack, and the blocks inside it are left. A loop stays open, and any
/// other block is left too. It fails if there are too few open blocks.
pub open spec fn branches(f: FrameModel, m: InstanceModel, s: Seq<Value>, depth: u32) -> bool {
    if depth >= f.ctrl.len() {
        fails(f, m, WasmError::StackUnderflow)
    } else {
        let t = f.ctrl.len() - 1 - depth;
        let c = f.ctrl[t];
        frame::step(f, m) matches Ok(st) && st.inst == m && st.effect is Next && st.frame.pc
            == c.br_target && st.frame.ctrl == (if c.op is Loop {
            f.ctrl.subrange(0, t + 1)
        } else {
            f.ctrl.subrange(0, t)
        }) && cut_to(s, st.frame.stack, c.stack_base as int, c.arity as int) && st.frame.locals
            == f.locals && st.frame.code == f.code && st.frame.result_ty == f.result_ty
    }
}

proof fn lemma_unwound(s: Seq<Value>, base: int, n: int)
    requires
        base >= 0,
        n >= 0,
    ensures
        cut_to(s, frame::unwound(s, base, n), base, n),
{
}

proof fn lemma_branch(f: FrameModel, g: FrameModel, m: InstanceModel, s: Seq<Value>, depth: u32)
    requires
        frame::step(f, m) == frame::branch_step(g, m, depth),
        g == (FrameModel { stack: s, pc: g.pc, ..f }),
    ensures
        branches(f, m, s, depth),
{
    if depth < f.ctrl.len() {
        let c = f.ctrl[f.ctrl.len() - 1 - depth];
        lemma_unwound(s, c.stack_base as int, c.arity as int);
    }
}

/// `br` branches.
pub proof fn law_br(f: FrameModel, m: InstanceModel, depth: u32, q: int)
    requires
        semantics::next_is(f, Instr::Br(depth), q),
    ensures
        branches(f, m, f.stack, depth),
{
    reveal(frame::step);
    lemma_branch(f, FrameModel { pc: q, ..f }, m, f.stack, depth);
}

/// `br_if` branches on any condition but zero, which it takes off the stack.
pub proof fn law_br_if(f: FrameModel, m: InstanceModel, depth: u32, q: int, s: Seq<Value>, c: i32)
    requires
        semantics::next_is(f, Instr::BrIf(depth), q),
        f.stack == s.push(Value::I32(c)),
    ensures
        c != 0 ==> branches(f, m, s, depth),
        c == 0 ==> semantics::leaves(f, m, q, s),
{
    reveal(frame::step);
    assert(f.stack.drop_last() =~= s);
    if c != 0 {
        lemma_branch(f, FrameModel { stack: s, pc: q, ..f }, m, s, depth);
    }
}

/// `br_table` branches to the label that the topmost value counts out, and to
/// the default for every other value.
pub proof fn law_br_table(
    f: FrameModel,
    m: InstanceModel,
    labels: Seq<u32>,
    default: u32,
    q: int,
    s: Seq<Value>,
    i: i32,
)
    requires
        table_next(f, labels, default, q),
        labels.len() <= i32::MAX,
        f.stack == s.push(Value::I32(i)),
    ensures
        0 <= i < labels.len() ==> branches(f, m, s, labels[i as int]),
        !(0 <= i < labels.len()) ==> branches(f, m, s, default),
{
    reveal(frame::step);
    lemma_index(i);
    assert(f.stack.drop_last() =~= s);
    let depth = if 0 <= i < labels.len() {
        labels[i as int]
    } else {
        default
    };
    lemma_branch(f, FrameModel { stack: s, pc: q, ..f }, m, s, depth);
}

/// `br_table` with the index `i` on top does what `br` with label `i` does on
/// the stack without the index.
pub proof fn law_br_table_is_br(
    f: FrameModel,
    g: FrameModel,
    m: InstanceModel,
    labels: Seq<u32>,
    default: u32,
    q: int,
    i: i32,
)
    requires
        table_next(f, labels, default, q),
        0 <= i < labels.len(),
        semantics::next_is(g, Instr::Br(labels[i as int]), q),
        f == (FrameModel { stack: g.stack.push(Value::I32(i)), code: f.code, pc: f.pc, ..g }),
    ensures
        match (frame::step(f, m), frame::step(g, m)) {
            (Ok(x), Ok(y)) => x.effect == y.effect && x.inst == y.inst && x.frame == (FrameModel {
                code: f.code,
                ..y.frame
            }),
            (Err(x), Err(y)) => x == y,
            _ => false,
        },
{
    reveal(frame::step);
    lemma_index(i);
    assert(f.stack.drop_last() =~= g.stack);
}

/// A branch takes its condition or index off the stack first: one that is
/// missing, or that is not an `i32`, fails.
pub proof fn law_branch_operands(
    f: FrameModel,
    m: InstanceModel,
    labels: Seq<u32>,
    default: u32,
    depth: u32,
    q: int,
)
    requires
        semantics::next_is(f, Instr::BrIf(depth), q) || table_next(f, labels, default, q),
    ensures
        f.stack.len() == 0 ==> fails(f, m, WasmError::StackUnderflow),
        f.stack.len() > 0 && !(f.stack.last() is I32) ==> fails(f, m, WasmError::TypeMismatch),
{
    reveal(frame::step);
}

// ---- Blocks ----

/// Whether a block of type `bt` leaves `n` values.
pub open spec fn leaves_values(bt: BlockType, m: InstanceModel, n: int) -> bool {
    match bt {
        BlockType::Empty => n == 0,
        BlockType::Val(_) => n == 1,
        BlockType::TypeIdx(i) => if i < m.module.types.len() {
            n == m.module.types[i as int].results.len()
        } else {
            n == 0
        },
    }
}

/// Whether the next step opens the block `c` and goes on at `pc` with the
/// stack `s`.
pub open spec fn opens(
    f: FrameModel,
    m: InstanceModel,
    s: Seq<Value>,
    c: CtrlFrame,
    pc: int,
) -> bool {
    frame::step(f, m) == Ok::<StepModel, WasmError>(
        StepModel {
            frame: FrameModel { stack: s, ctrl: f.ctrl.push(c), pc, ..f },
            inst: m,
            effect: EffectModel::Next,
        },
    )
}

/// `block` opens a block. A branch to it goes behind its end, with the values
/// that the block leaves.
pub proof fn law_block(f: FrameModel, m: InstanceModel, bt: BlockType, q: int, n: int, end: int)
    requires
        semantics::next_is(f, Instr::Block(bt), q),
        leaves_values(bt, m, n),
        n <= usize::MAX,
        f.stack.len() <= usize::MAX,
        scan::block_end(f.code, q, 1) == Some(end),
        end <= usize::MAX,
    ensures
        opens(
            f,
            m,
            f.stack,
            CtrlFrame {
                op: CtrlOp::Block,
                stack_base: f.stack.len() as usize,
                arity: n as usize,
                results: n as usize,
                else_pos: None,
                br_target: end as usize,
            },
            q,
        ),
{
    reveal(frame::step);
}

/// `loop` opens a loop. A branch to it goes back to its first instruction and
/// keeps no value.
pub proof fn law_loop(f: FrameModel, m: InstanceModel, bt: BlockType, q: int, n: int)
    requires
        semantics::next_is(f, Instr::Loop(bt), q),
        leaves_values(bt, m, n),
        n <= usize::MAX,
        f.stack.len() <= usize::MAX,
        0 <= q <= usize::MAX,
    ensures
        opens(
            f,
            m,
            f.stack,
            CtrlFrame {
                op: CtrlOp::Loop,
                stack_base: f.stack.len() as usize,
                arity: 0,
                results: n as usize,
                else_pos: None,
                br_target: q as usize,
            },
            q,
        ),
{
    reveal(frame::step);
}

/// `if` takes a condition off the stack. Any condition but zero opens the
/// block and goes on inside it; zero goes on behind the `else`, inside the
/// block, or behind the end, with no block opened, if there is no `else`.
pub proof fn law_if(
    f: FrameModel,
    m: InstanceModel,
    bt: BlockType,
    q: int,
    n: int,
    s: Seq<Value>,
    cond: i32,
    middle: Option<int>,
    end: int,
)
    requires
        semantics::next_is(f, Instr::If(bt), q),
        leaves_values(bt, m, n),
        n <= usize::MAX,
        s.len() <= usize::MAX,
        f.stack == s.push(Value::I32(cond)),
        scan::else_and_end(f.code, q, 1, None) == Some((middle, end)),
        0 <= end <= usize::MAX,
        middle matches Some(p) ==> 0 <= p <= usize::MAX,
    ensures
        ({
            let c = CtrlFrame {
                op: CtrlOp::If,
                stack_base: s.len() as usize,
                arity: n as usize,
                results: n as usize,
                else_pos: match middle {
                    Some(p) => Some(p as usize),
                    None => None,
                },
                br_target: end as usize,
            };
            if cond != 0 {
                opens(f, m, s, c, q)
            } else if middle is Some {
                opens(f, m, s, c, middle->0)
            } else {
                semantics::leaves(f, m, end, s)
            }
        }),
{
    reveal(frame::step);
    assert(f.stack.drop_last() =~= s);
}

/// A block whose end is missing cannot be entered, and an `if` needs an `i32`
/// condition.
pub proof fn law_block_errors(f: FrameModel, m: InstanceModel, bt: BlockType, q: int)
    ensures
        semantics::next_is(f, Instr::Block(bt), q) && scan::block_end(f.code, q, 1) is None
            ==> fails(f, m, WasmError::UnexpectedEof),
        semantics::next_is(f, Instr::If(bt), q) && f.stack.len() == 0 ==> fails(
            f,
            m,
            WasmError::StackUnderflow,
        ),
        semantics::next_is(f, Instr::If(bt), q) && f.stack.len() > 0 && !(f.stack.last() is I32)
            ==> fails(f, m, WasmError::TypeMismatch),
        semantics::next_is(f, Instr::If(bt), q) && f.stack.len() > 0 && f.stack.last() is I32
            && scan::else_and_end(f.code, q, 1, None) is None ==> fails(
            f,
            m,
            WasmError::UnexpectedEof,
        ),
{
    reveal(frame::step);
}

/// An `else` that is reached from the branch before it ends the block:
/// execution goes on behind the end, with the values that the block leaves.
/// In a loop it goes back to the start of the loop, and outside of any block
/// it does nothing.
pub proof fn law_else(f: FrameModel, m: InstanceModel, q: int)
    requires
        semantics::next_is(f, Instr::Else, q),
    ensures
        f.ctrl.len() == 0 ==> semantics::leaves(f, m, q, f.stack),
        f.ctrl.len() > 0 && f.ctrl.last().op is Loop ==> semantics::leaves(
            f,
            m,
            f.ctrl.last().br_target as int,
            f.stack,
        ),
        f.ctrl.len() > 0 && !(f.ctrl.last().op is Loop) ==> (frame::step(f, m) matches Ok(st)
            && st.inst == m && st.effect is Next && st.frame.pc == f.ctrl.last().br_target
            && st.frame.ctrl == f.ctrl.drop_last() && cut_to(
            f.stack,
            st.frame.stack,
            f.ctrl.last().stack_base as int,
            f.ctrl.last().results as int,
        ) && st.frame.locals == f.locals),
{
    reveal(frame::step);
    if f.ctrl.len() > 0 {
        lemma_unwound(f.stack, f.ctrl.last().stack_base as int, f.ctrl.last().results as int);
    }
}

/// The end opcode inside a block closes it, and execution goes on right
/// behind it, with the values that the block leaves.
pub proof fn law_end(f: FrameModel, m: InstanceModel)
    requires
        0 <= f.pc < f.code.len(),
        f.code[f.pc] == 0x0B,
        f.ctrl.len() > 0,
    ensures
        frame::step(f, m) matches Ok(st) && st.inst == m && st.effect is Next && st.frame.pc
            == f.pc + 1 && st.frame.ctrl == f.ctrl.drop_last() && cut_to(
            f.stack,
            st.frame.stack,
            f.ctrl.last().stack_base as int,
            f.ctrl.last().results as int,
        ) && st.frame.locals == f.locals,
{
    reveal(frame::step);
    lemma_unwound(f.stack, f.ctrl.last().stack_base as int, f.ctrl.last().results as int);
}

/// A function ends at `return`, at the end opcode outside of any block, and
/// at the end of its code; its results are the topmost values.
pub proof fn law_return(f: FrameModel, m: InstanceModel, q: int)
    requires
        semantics::next_is(f, Instr::Return, q) || (0 <= f.pc < f.code.len() && f.code[f.pc] == 0x0B
            && f.ctrl.len() == 0) || f.pc >= f.code.len(),
        f.stack.len() >= f.result_ty.len(),
    ensures
        frame::step(f, m) matches Ok(st) && st.inst == m && (st.effect matches EffectModel::Return(
            results,
        ) && taken(
            f.stack,
            f.result_ty.len() as int,
            f.stack.subrange(0, f.stack.len() - f.result_ty.len()),
            results,
        )),
{
    reveal(frame::step);
    let k = f.stack.len() - f.result_ty.len();
    assert(f.stack.subrange(0, k) + f.stack.subrange(k, f.stack.len() as int) =~= f.stack);
}

/// `unreachable` traps, and `nop` changes nothing.
pub proof fn law_unreachable_and_nop(f: FrameModel, m: InstanceModel, q: int)
    ensures
        semantics::next_is(f, Instr::Unreachable, q) ==> fails(
            f,
            m,
            WasmError::Trap(TrapCode::Unreachable),
        ),
        semantics::next_is(f, Instr::Nop, q) ==> semantics::leaves(f, m, q, f.stack),
{
    reveal(frame::step);
}

// ---- Variables and constants ----

/// `drop` takes a value off the stack. `select` takes a condition and two
/// values off it, and puts back the lower value unless the condition is zero.
pub proof fn law_drop_and_select(
    f: FrameModel,
    m: InstanceModel,
    q: int,
    s: Seq<Value>,
    a: Value,
    b: Value,
    c: i32,
)
    ensures
        semantics::next_is(f, Instr::Drop, q) && f.stack == s.push(a) ==> semantics::leaves(
            f,
            m,
            q,
            s,
        ),
        semantics::next_is(f, Instr::Drop, q) && f.stack.len() == 0 ==> fails(
            f,
            m,
            WasmError::StackUnderflow,
        ),
        semantics::next_is(f, Instr::Select, q) && f.stack == s.push(a).push(b).push(Value::I32(c))
            && c != 0 ==> semantics::leaves(f, m, q, s.push(a)),
        semantics::next_is(f, Instr::Select, q) && f.stack == s.push(a).push(b).push(Value::I32(c))
            && c == 0 ==> semantics::leaves(f, m, q, s.push(b)),
        semantics::next_is(f, Instr::Select, q) && f.stack.len() == 0 ==> fails(
            f,
            m,
            WasmError::StackUnderflow,
        ),
        semantics::next_is(f, Instr::Select, q) && f.stack.len() > 0 && !(f.stack.last() is I32)
            ==> fails(f, m, WasmError::TypeMismatch),
        semantics::next_is(f, Instr::Select, q) && 0 < f.stack.len() < 3 && f.stack.last() is I32
            ==> fails(f, m, WasmError::StackUnderflow),
{
    reveal(frame::step);
    assert(s.push(a).drop_last() =~= s);
    assert(s.push(a).push(b).drop_last() =~= s.push(a));
    assert(s.push(a).push(b).push(Value::I32(c)).drop_last() =~= s.push(a).push(b));
}

/// `local.get` puts the local on the stack, `local.set` takes its new value
/// off the stack, and `local.tee` leaves it there. The other locals stay as
/// they are, and a local that does not exist is an error.
pub proof fn law_locals(
    f: FrameModel,
    m: InstanceModel,
    x: u32,
    q: int,
    s: Seq<Value>,
    v: Value,
)
    ensures
        semantics::next_is(f, Instr::LocalGet(x), q) ==> if x < f.locals.len() {
            semantics::leaves(f, m, q, f.stack.push(f.locals[x as int]))
        } else {
            fails(f, m, WasmError::UndefinedLocal(x))
        },
        semantics::next_is(f, Instr::LocalSet(x), q) && f.stack == s.push(v) ==> if x
            < f.locals.len() {
            frame::step(f, m) == Ok::<StepModel, WasmError>(
                StepModel {
                    frame: FrameModel {
                        locals: f.locals.update(x as int, v),
                        stack: s,
                        pc: q,
                        ..f
                    },
                    inst: m,
                    effect: EffectModel::Next,
                },
            )
        } else {
            fails(f, m, WasmError::UndefinedLocal(x))
        },
        semantics::next_is(f, Instr::LocalTee(x), q) && f.stack == s.push(v) ==> if x
            < f.locals.len() {
            frame::step(f, m) == Ok::<StepModel, WasmError>(
                StepModel {
                    frame: FrameModel { locals: f.locals.update(x as int, v), pc: q, ..f },
                    inst: m,
                    effect: EffectModel::Next,
                },
            )
        } else {
            fails(f, m, WasmError::UndefinedLocal(x))
        },
        (semantics::next_is(f, Instr::LocalSet(x), q) || semantics::next_is(
            f,
            Instr::LocalTee(x),
            q,
        )) && f.stack.len() == 0 ==> fails(f, m, WasmError::StackUnderflow),
{
    reveal(frame::step);
    assert(s.push(v).drop_last() =~= s);
}

/// `global.get` puts the value of the global on the stack, and `global.set`
/// takes its new value off the stack. The other globals stay as they are, and
/// a global that does not exist is an error.
pub proof fn law_globals(
    f: FrameModel,
    m: InstanceModel,
    x: u32,
    q: int,
    s: Seq<Value>,
    v: Value,
)
    ensures
        semantics::next_is(f, Instr::GlobalGet(x), q) ==> if x < m.globals.len() {
            semantics::leaves(f, m, q, f.stack.push(m.globals[x as int].value))
        } else {
            fails(f, m, WasmError::UndefinedGlobal(x))
        },
        semantics::next_is(f, Instr::GlobalSet(x), q) && f.stack == s.push(v) ==> if x
            < m.globals.len() {
            frame::step(f, m) == Ok::<StepModel, WasmError>(
                StepModel {
                    frame: FrameModel { stack: s, pc: q, ..f },
                    inst: InstanceModel {
                        globals: m.globals.update(
                            x as int,
                            GlobalInst { ty: m.globals[x as int].ty, value: v },
                        ),
                        ..m
                    },
                    effect: EffectModel::Next,
                },
            )
        } else {
            fails(f, m, WasmError::UndefinedGlobal(x))
        },
        semantics::next_is(f, Instr::GlobalSet(x), q) && f.stack.len() == 0 ==> fails(
            f,
            m,
            WasmError::StackUnderflow,
        ),
{
    reveal(frame::step);
    assert(s.push(v).drop_last() =~= s);
}

/// A constant instruction puts its value on the stack.
pub proof fn law_constants(f: FrameModel, m: InstanceModel, q: int, a: i32, b: i64, c: u32, d: u64)
    ensures
        semantics::next_is(f, Instr::I32Const(a), q) ==> semantics::leaves(
            f,
            m,
            q,
            f.stack.push(Value::I32(a)),
        ),
        semantics::next_is(f, Instr::I64Const(b), q) ==> semantics::leaves(
            f,
            m,
            q,
            f.stack.push(Value::I64(b)),
        ),
        semantics::next_is(f, Instr::F32Const(c), q) ==> semantics::leaves(
            f,
            m,
            q,
            f.stack.push(Value::F32(c)),
        ),
        semantics::next_is(f, Instr::F64Const(d), q) ==> semantics::leaves(
            f,
            m,
            q,
            f.stack.push(Value::F64(d)),
        ),
{
    reveal(frame::step);
}

// ---- Floating-point instructions ----

/// Whether `i` is a floating-point instruction on two operands of type `ty`.
pub open spec fn float_on_two(i: Instr, ty: ValType) -> bool {
    match i {
        Instr::F32Eq
        | Instr::F32Ne
        | Instr::F32Lt
        | Instr::F32Gt
        | Instr::F32Le
        | Instr::F32Ge
        | Instr::F32Add
        | Instr::F32Sub
        | Instr::F32Mul
        | Instr::F32Div
        | Instr::F32Min
        | Instr::F32Max
        | Instr::F32Copysign => ty is F32,
        Instr::F64Eq
        | Instr::F64Ne
        | Instr::F64Lt
        | Instr::F64Gt
        | Instr::F64Le
        | Instr::F64Ge
        | Instr::F64Add
        | Instr::F64Sub
        | Instr::F64Mul
        | Instr::F64Div
        | Instr::F64Min
        | Instr::F64Max
        | Instr::F64Copysign => ty is F64,
        _ => false,
    }
}

/// Whether `i` is a floating-point instruction on one operand of type `ty`.
pub open spec fn float_on_one(i: Instr, ty: ValType) -> bool {
    match i {
        Instr::F32Abs
        | Instr::F32Neg
        | Instr::F32Ceil
        | Instr::F32Floor
        | Instr::F32Trunc
        | Instr::F32Nearest
        | Instr::F32Sqrt
        | Instr::I32TruncF32S
        | Instr::I32TruncF32U
        | Instr::I64TruncF32S
        | Instr::I64TruncF32U
        | Instr::F64PromoteF32 => ty is F32,
        Instr::F64Abs
        | Instr::F64Neg
        | Instr::F64Ceil
        | Instr::F64Floor
        | Instr::F64Trunc
        | Instr::F64Nearest
        | Instr::F64Sqrt
        | Instr::I32TruncF64S
        | Instr::I32TruncF64U
        | Instr::I64TruncF64S
        | Instr::I64TruncF64U
        | Instr::F32DemoteF64 => ty is F64,
        Instr::F32ConvertI32S
        | Instr::F32ConvertI32U
        | Instr::F64ConvertI32S
        | Instr::F64ConvertI32U => ty is I32,
        Instr::F32ConvertI64S
        | Instr::F32ConvertI64U
        | Instr::F64ConvertI64S
        | Instr::F64ConvertI64U => ty is I64,
        _ => false,
    }
}

/// Whether a value has type `ty`.
pub open spec fn has_type(v: Value, ty: ValType) -> bool {
    match ty {
        ValType::I32 => v is I32,
        ValType::I64 => v is I64,
        ValType::F32 => v is F32,
        ValType::F64 => v is F64,
    }
}

/// Whether the next step asks for `i` on `args`, with `s` left on the stack.
pub open spec fn asks(
    f: FrameModel,
    m: InstanceModel,
    q: int,
    s: Seq<Value>,
    i: Instr,
    args: Seq<Value>,
) -> bool {
    frame::step(f, m) == Ok::<StepModel, WasmError>(
        StepModel {
            frame: FrameModel { stack: s, pc: q, ..f },
            inst: m,
            effect: EffectModel::Float { op: i, args },
        },
    )
}

/// A floating-point instruction on two operands is asked for with the lower
/// operand first.
pub proof fn law_float_two(
    f: FrameModel,
    m: InstanceModel,
    i: Instr,
    ty: ValType,
    q: int,
    s: Seq<Value>,
    a: Value,
    b: Value,
)
    requires
        semantics::next_is(f, i, q),
        float_on_two(i, ty),
    ensures
        f.stack == s.push(a).push(b) && has_type(a, ty) && has_type(b, ty) ==> asks(
            f,
            m,
            q,
            s,
            i,
            seq![a, b],
        ),
        f.stack == s.push(a).push(b) && !(has_type(a, ty) && has_type(b, ty)) ==> fails(
            f,
            m,
            WasmError::TypeMismatch,
        ),
        f.stack.len() == 0 || (f.stack.len() == 1 && has_type(f.stack[0], ty)) ==> fails(
            f,
            m,
            WasmError::StackUnderflow,
        ),
{
    reveal(frame::step);
    assert(s.push(a).drop_last() =~= s);
    assert(s.push(a).push(b).drop_last() =~= s.push(a));
}

/// A floating-point instruction on one operand is asked for with the topmost
/// value.
pub proof fn law_float_one(
    f: FrameModel,
    m: InstanceModel,
    i: Instr,
    ty: ValType,
    q: int,
    s: Seq<Value>,
    a: Value,
)
    requires
        semantics::next_is(f, i, q),
        float_on_one(i, ty),
    ensures
        f.stack == s.push(a) && has_type(a, ty) ==> asks(f, m, q, s, i, seq![a]),
        f.stack == s.push(a) && !has_type(a, ty) ==> fails(f, m, WasmError::TypeMismatch),
        f.stack.len() == 0 ==> fails(f, m, WasmError::StackUnderflow),
{
    reveal(frame::step);
    assert(s.push(a).drop_last() =~= s);
}

// ---- Running ----

/// One step of an invocation is a step of its current activation: an error
/// ends it, a floating-point instruction is handed out, and what returns goes
/// to the activation below.
pub proof fn law_advance(rest: Seq<FrameModel>, f: FrameModel, m: InstanceModel)
    ensures
        match frame::step(f, m) {
            Err(e) => executor::advance(rest.push(f), m) == (SignalModel::Trap(e), m),
            Ok(st) => match st.effect {
                EffectModel::Next => executor::advance(rest.push(f), m) == (
                    SignalModel::Ready(rest.push(st.frame)),
                    st.inst,
                ),
                EffectModel::Float { op, args } => executor::advance(rest.push(f), m) == (
                    SignalModel::Float { op, args, rest: rest.push(st.frame) },
                    st.inst,
                ),
                EffectModel::Return(values) => {
                    &&& rest.len() == 0 ==> executor::advance(rest.push(f), m) == (
                        SignalModel::Done(values),
                        st.inst,
                    )
                    &&& rest.len() > 0 ==> executor::advance(rest.push(f), m) == (
                        SignalModel::Ready(
                            rest.drop_last().push(
                                FrameModel { stack: rest.last().stack + values, ..rest.last() },
                            ),
                        ),
                        st.inst,
                    )
                },
                EffectModel::Dangling => executor::advance(rest.push(f), m).0 is Dangling,
                EffectModel::Call { .. } => executor::advance(rest.push(f), m).1 == st.inst,
            },
        },
{
    reveal(executor::advance);
    assert(rest.push(f).drop_last() =~= rest);
}

/// Running for no steps changes nothing; one more step goes on from where
/// the first step leaves the invocation, if it can go on.
pub proof fn law_run(frames: Seq<FrameModel>, m: InstanceModel, n: nat)
    ensures
        executor::run_for(frames, m, 0) == (SignalModel::Ready(frames), m),
        executor::advance(frames, m).0 matches SignalModel::Ready(fs) ==> executor::run_for(
            frames,
            m,
            n + 1,
        ) == executor::run_for(fs, executor::advance(frames, m).1, n),
        !(executor::advance(frames, m).0 is Ready) ==> executor::run_for(frames, m, n + 1)
            == executor::advance(frames, m),
{
}

/// Taking an invocation on for one step is one step of its current
/// activation, or the one call of the host function that it waits for, with
/// exactly the arguments that it was given.
pub proof fn law_drive(
    sig: SignalModel,
    m: InstanceModel,
    end: SignalModel,
    m_end: InstanceModel,
)
    ensures
        executor::driven(sig, m, 0, end, m_end) <==> end == sig && m_end == m,
        sig matches SignalModel::Ready(fs) ==> (executor::driven(sig, m, 1, end, m_end) <==> (
        end,
        m_end,
        ) == executor::advance(fs, m)),
        sig matches SignalModel::Host { func, args, rest } ==> executor::host_ready(m, func, args)
            ==> (executor::driven(sig, m, 1, end, m_end) <==> exists|m2: InstanceModel, r: Outcome|
            #[trigger]
            host::host_call(m, func as int, args, m2, r) && end == executor::after_host(rest, r)
                && m_end == m2),
{
    reveal_with_fuel(executor::driven, 2);
}

/// A call, direct or through a table, hands its arguments to the function as
/// they are: a host function is asked with them, and a function of the module
/// starts with them as its first locals. The caller waits below.
pub proof fn law_called(
    rest: Seq<FrameModel>,
    f: FrameModel,
    m: InstanceModel,
    func: u32,
    args: Seq<Value>,
)
    requires
        frame::step(f, m) matches Ok(st) && st.effect == (EffectModel::Call { func, args }) && func
            < st.inst.funcs.len(),
    ensures
        ({
            let st = frame::step(f, m)->Ok_0;
            let (sig, after) = executor::advance(rest.push(f), m);
            &&& after == st.inst
            &&& match st.inst.funcs[func as int].kind {
                FuncKind::Host { .. } => sig matches SignalModel::Host {
                    func: g,
                    args: given,
                    rest: waiting,
                } && g == func && given == args && waiting == rest.push(st.frame),
                FuncKind::Local { body_idx, .. } => if body_idx < st.inst.module.codes.len() {
                    sig matches SignalModel::Ready(fs) && fs.len() == rest.len() + 2
                        && fs.drop_last() == rest.push(st.frame) && fs.last().locals.len()
                        >= args.len() && fs.last().locals.subrange(0, args.len() as int) == args
                        && fs.last().code == st.inst.module.codes[body_idx as int].code
                        && fs.last().pc == 0 && fs.last().stack.len() == 0 && fs.last().ctrl.len()
                        == 0 && fs.last().result_ty == st.inst.funcs[func as int].ty.results
                } else {
                    sig is Dangling
                },
            }
        }),
{
    reveal(executor::advance);
    assert(rest.push(f).drop_last() =~= rest);
    let st = frame::step(f, m)->Ok_0;
    if let FuncKind::Local { body_idx, .. } = st.inst.funcs[func as int].kind {
        if body_idx < st.inst.module.codes.len() {
            let g = executor::new_frame(st.inst, func as int, body_idx as int, args);
            assert(g.locals.subrange(0, args.len() as int) =~= args);
            assert(rest.push(st.frame).push(g).drop_last() =~= rest.push(st.frame));
        }
    }
}

} // verus!
