//! What running a module never changes.
use vstd::prelude::*;

use crate::executor;
use crate::executor::SignalModel;
use crate::frame;
use crate::frame::{EffectModel, FrameModel, StepModel};
use crate::host;
use crate::host::Outcome;
use crate::instance::InstanceModel;
use crate::instr;
use crate::instr::{Instr, InstrModel};
use crate::memory;
use crate::memory::MemoryModel;
use crate::numeric;
use crate::numeric::Group;
use crate::types::{Value, WasmError};

verus! {

/// Whether a memory consists of whole pages, no more than can be counted.
pub open spec fn paged(m: MemoryModel) -> bool {
    m.data.len() % 65536 == 0 && m.data.len() / 65536 <= u32::MAX
}

/// Whether `b` has the module, the functions and the tables of `a`, the same
/// globals but for their values, and as many memories.
pub open spec fn same_shape(a: InstanceModel, b: InstanceModel) -> bool {
    &&& b.module == a.module
    &&& b.funcs == a.funcs
    &&& b.tables == a.tables
    &&& b.globals.len() == a.globals.len()
    &&& forall|i: int| 0 <= i < a.globals.len() ==> (#[trigger] b.globals[i]).ty == a.globals[i].ty
    &&& b.memories.len() == a.memories.len()
}

/// Whether the memories of `b` are those of `a`, changed in contents and
/// grown at most: a memory of whole pages stays one and does not shrink.
pub open spec fn memories_grown(a: InstanceModel, b: InstanceModel) -> bool {
    &&& b.memories.len() == a.memories.len()
    &&& forall|i: int|
        0 <= i < a.memories.len() ==> {
            &&& (#[trigger] b.memories[i]).max == a.memories[i].max
            &&& paged(a.memories[i]) ==> paged(b.memories[i]) && b.memories[i].data.len()
                >= a.memories[i].data.len()
        }
}

proof fn lemma_grown(m: MemoryModel, delta: u32)
    ensures
        memory::grown(m, delta).0.max == m.max,
        paged(m) ==> paged(memory::grown(m, delta).0) && memory::grown(m, delta).0.data.len()
            >= m.data.len(),
{
}

/// What an instruction keeps: the shape of the instance, and its memories but
/// for contents and growth; of the frame the code, the signature and the
/// number of locals.
pub open spec fn keeps(f: FrameModel, m: InstanceModel, r: Result<StepModel, WasmError>) -> bool {
    r matches Ok(s) ==> {
        &&& same_shape(m, s.inst)
        &&& memories_grown(m, s.inst)
        &&& s.frame.code == f.code
        &&& s.frame.result_ty == f.result_ty
        &&& s.frame.locals.len() == f.locals.len()
    }
}

proof fn lemma_control_keeps(i: Instr, f: FrameModel, m: InstanceModel)
    ensures
        keeps(f, m, frame::control_step(i, f, m)),
{
}

proof fn lemma_variable_keeps(i: Instr, f: FrameModel, m: InstanceModel)
    ensures
        keeps(f, m, frame::variable_step(i, f, m)),
{
    if let Instr::MemoryGrow = i {
        if let Ok((delta, _)) = frame::popped_i32(f.stack) {
            if m.memories.len() > 0 {
                lemma_grown(m.memories[0], delta as u32);
            }
        }
    }
}

proof fn lemma_store_keeps(i: Instr, f: FrameModel, m: InstanceModel)
    ensures
        frame::store_step(i, f.stack, m.memories) matches Ok((_, mems)) ==> memories_grown(
            m,
            InstanceModel { memories: mems, ..m },
        ),
{
}

proof fn lemma_plain_keeps(i: Instr, f: FrameModel, m: InstanceModel)
    ensures
        keeps(f, m, frame::plain_step(i, f, m)),
{
    match numeric::group(i) {
        Group::Store => {
            lemma_store_keeps(i, f, m);
        },
        Group::Other => {
            if frame::is_variable(i) {
                lemma_variable_keeps(i, f, m);
            } else {
                lemma_control_keeps(i, f, m);
            }
        },
        _ => {},
    }
}

/// An instruction keeps the shape of the instance, and its memories but for
/// contents and growth; of the frame it keeps the code, the signature and the
/// number of locals.
pub proof fn law_step_keeps(f: FrameModel, m: InstanceModel)
    ensures
        keeps(f, m, frame::step(f, m)),
{
    reveal(frame::step);
    match instr::instr_at(f.code, f.pc) {
        (Ok(Some(InstrModel::Plain(i))), q) => {
            lemma_plain_keeps(i, FrameModel { pc: q, ..f }, m);
        },
        _ => {},
    }
}

/// A function gives back at most as many values as its signature says, and
/// exactly that many if its stack holds them.
pub proof fn law_return_arity(f: FrameModel, m: InstanceModel)
    ensures
        frame::return_step(f, m) matches Ok(s) && (s.effect matches EffectModel::Return(v)
            && v.len() <= f.result_ty.len() && (f.stack.len() >= f.result_ty.len() ==> v.len()
            == f.result_ty.len())),
{
}

proof fn lemma_shape_joins(a: InstanceModel, b: InstanceModel, c: InstanceModel)
    ensures
        same_shape(a, b) && same_shape(b, c) ==> same_shape(a, c),
        memories_grown(a, b) && memories_grown(b, c) ==> memories_grown(a, c),
{
    if same_shape(a, b) && same_shape(b, c) {
        assert forall|i: int| 0 <= i < a.globals.len() implies (#[trigger] c.globals[i]).ty
            == a.globals[i].ty by {
            assert(b.globals[i].ty == a.globals[i].ty);
        }
    }
    if memories_grown(a, b) && memories_grown(b, c) {
        assert forall|i: int| 0 <= i < a.memories.len() implies {
            &&& (#[trigger] c.memories[i]).max == a.memories[i].max
            &&& paged(a.memories[i]) ==> paged(c.memories[i]) && c.memories[i].data.len()
                >= a.memories[i].data.len()
        } by {
            assert(b.memories[i].max == a.memories[i].max);
        }
    }
}

proof fn lemma_advance_keeps(frames: Seq<FrameModel>, m: InstanceModel)
    ensures
        same_shape(m, executor::advance(frames, m).1),
        memories_grown(m, executor::advance(frames, m).1),
{
    reveal(executor::advance);
    law_step_keeps(frames.last(), m);
}

/// Running an invocation keeps the shape of the instance, and its memories
/// but for contents and growth.
pub proof fn law_run_keeps(frames: Seq<FrameModel>, m: InstanceModel, fuel: nat)
    ensures
        same_shape(m, executor::run_for(frames, m, fuel).1),
        memories_grown(m, executor::run_for(frames, m, fuel).1),
    decreases fuel,
{
    if fuel > 0 {
        let (s, m2) = executor::advance(frames, m);
        lemma_advance_keeps(frames, m);
        if let SignalModel::Ready(fs) = s {
            law_run_keeps(fs, m2, (fuel - 1) as nat);
            lemma_shape_joins(m, m2, executor::run_for(frames, m, fuel).1);
        }
    }
}

/// A host function can change nothing of an instance but its first memory.
pub proof fn law_host_call_keeps(
    before: InstanceModel,
    func: int,
    args: Seq<Value>,
    after: InstanceModel,
    r: Outcome,
)
    requires
        host::host_call(before, func, args, after, r),
    ensures
        same_shape(before, after),
        forall|i: int| 1 <= i < before.memories.len() ==> #[trigger] after.memories[i]
            == before.memories[i],
{
}

/// Taking an invocation on, with its calls of host functions, keeps the shape
/// of the instance.
pub proof fn law_driven_keeps(
    sig: SignalModel,
    m: InstanceModel,
    fuel: nat,
    end: SignalModel,
    m_end: InstanceModel,
)
    requires
        executor::driven(sig, m, fuel, end, m_end),
    ensures
        same_shape(m, m_end),
    decreases fuel,
{
    if fuel > 0 {
        let k = (fuel - 1) as nat;
        match sig {
            SignalModel::Ready(fs) => {
                let (next, m2) = executor::advance(fs, m);
                lemma_advance_keeps(fs, m);
                law_driven_keeps(next, m2, k, end, m_end);
                lemma_shape_joins(m, m2, m_end);
            },
            SignalModel::Host { func, args, rest } => {
                if executor::host_ready(m, func, args) {
                    let (m2, r) = choose|m2: InstanceModel, r: Outcome| #[trigger]
                        host::host_call(m, func as int, args, m2, r) && executor::driven(
                            executor::after_host(rest, r),
                            m2,
                            k,
                            end,
                            m_end,
                        );
                    law_host_call_keeps(m, func as int, args, m2, r);
                    law_driven_keeps(executor::after_host(rest, r), m2, k, end, m_end);
                    lemma_shape_joins(m, m2, m_end);
                }
            },
            _ => {},
        }
    }
}

} // verus!
