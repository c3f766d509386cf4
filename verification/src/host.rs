//! Functions that the embedder supplies to a module.
use std::sync::Arc;

use vstd::prelude::*;

use crate::instance::{FuncKind, InstanceModel, ModuleInstance};
use crate::memory::{Memory, MemoryModel};
use crate::types;
use crate::types::{Value, WasiErrno, WasmError};
use crate::wasi;
use crate::wasi::{WasiCtx, WasiFn};

verus! {

/// The outcome of a call: result values or an error.
pub type Outcome = Result<Seq<Value>, WasmError>;

/// The view of the outcome of a call.
pub open spec fn outcome_of(r: Result<Vec<Value>, WasmError>) -> Outcome {
    match r {
        Ok(v) => Ok(v@),
        Err(e) => Err(e),
    }
}

/// A function of the embedder that a module can call.
pub trait HostFunction {
    /// What a call may do: the arguments, the memory before and after, and
    /// the outcome. An implementation that says nothing else may do anything
    /// to the memory.
    open spec fn behaves(
        &self,
        args: Seq<Value>,
        before: MemoryModel,
        after: MemoryModel,
        r: Outcome,
    ) -> bool {
        true
    }

    /// Performs the call.
    fn call(&self, args: &[Value], mem: &mut Memory) -> (r: Result<Vec<Value>, WasmError>)
        ensures
            self.behaves(args@, old(mem)@, final(mem)@, outcome_of(r)),
    ;
}

/// Something that the embedder supplies.
pub struct Supplied<T> {
    pub inner: T,
}

/// A function of the embedder, to be shared between instances.
pub type CustomFunc = Supplied<Box<dyn HostFunction>>;

/// A host function of an instance.
pub enum HostFunc {
    /// Answers with that many "not supported" codes.
    Stub(usize),
    /// A function of the system interface.
    Wasi { which: WasiFn, ctx: Arc<WasiCtx> },
    /// A function of the embedder.
    Custom(Arc<CustomFunc>),
}

/// What a stub answers: "not supported" for each result.
pub open spec fn stub_results(n: nat) -> Seq<Value> {
    Seq::new(n, |i: int| Value::I32(types::errno_code(WasiErrno::Nosys)))
}

impl HostFunc {
    /// Whether the function can be called with these arguments.
    pub open spec fn accepts(&self, args: Seq<Value>) -> bool {
        match *self {
            HostFunc::Wasi { which, .. } => args.len() >= wasi::fn_type(which).params.len(),
            _ => true,
        }
    }

    /// What a call may do.
    pub open spec fn behaves(
        &self,
        args: Seq<Value>,
        before: MemoryModel,
        after: MemoryModel,
        r: Outcome,
    ) -> bool {
        match *self {
            HostFunc::Stub(n) => after == before && r == Ok::<Seq<Value>, WasmError>(
                stub_results(n as nat),
            ),
            HostFunc::Wasi { which, ctx } => wasi::behaves(which, *ctx, args, before, after, r),
            HostFunc::Custom(f) => f.inner.behaves(args, before, after, r),
        }
    }

    /// Whether the function can be called with this number of arguments.
    pub fn takes(&self, args: &[Value]) -> (r: bool)
        ensures
            r == self.accepts(args@),
    {
        match self {
            HostFunc::Wasi { which, ctx: _ } => args.len() >= wasi::type_of(*which).params.len(),
            _ => true,
        }
    }

    /// Performs a call.
    pub fn call(&self, args: &[Value], mem: &mut Memory) -> (r: Result<Vec<Value>, WasmError>)
        requires
            self.accepts(args@),
        ensures
            self.behaves(args@, old(mem)@, final(mem)@, outcome_of(r)),
    {
        match self {
            HostFunc::Stub(n) => {
                let v: Vec<Value> = vec![Value::I32(WasiErrno::Nosys.code()); *n];
                assert(v@ =~= stub_results(*n as nat));
                Ok(v)
            },
            HostFunc::Wasi { which, ctx } => wasi::call_wasi(*which, ctx, args, mem),
            HostFunc::Custom(f) => f.inner.call(args, mem),
        }
    }
}

/// The memory that a host function sees in an instance without one.
pub open spec fn no_memory() -> MemoryModel {
    MemoryModel { data: seq![], max: None }
}

/// Whether a call of host function `func` may take the instance `before` to
/// `after` with outcome `r`: only the first memory can change.
pub open spec fn host_call(
    before: InstanceModel,
    func: int,
    args: Seq<Value>,
    after: InstanceModel,
    r: Outcome,
) -> bool {
    match before.funcs[func].kind {
        FuncKind::Local { .. } => false,
        FuncKind::Host { func: f } => if before.memories.len() > 0 {
            &&& after.memories.len() > 0
            &&& after == InstanceModel {
                memories: before.memories.update(0, after.memories[0]),
                ..before
            }
            &&& f.behaves(args, before.memories[0], after.memories[0], r)
        } else {
            &&& after == before
            &&& exists|m: MemoryModel| #[trigger] f.behaves(args, no_memory(), m, r)
        },
    }
}

impl ModuleInstance {
    /// The host function with index `func`, if it is one.
    pub open spec fn host_func(&self, func: int) -> Option<HostFunc> {
        if 0 <= func < self.funcs.len() {
            match self.funcs@[func].kind {
                FuncKind::Host { func: f } => Some(f),
                _ => None,
            }
        } else {
            None
        }
    }

    /// Whether `func` is a host function that can be called with `args`.
    pub fn can_call_host(&self, func: usize, args: &[Value]) -> (r: bool)
        ensures
            r == (self.host_func(func as int) matches Some(f) && f.accepts(args@)),
    {
        if func >= self.funcs.len() {
            return false;
        }
        match &self.funcs[func].kind {
            FuncKind::Host { func: f } => f.takes(args),
            _ => false,
        }
    }

    /// Performs a call of a host function.
    pub fn call_host(&mut self, func: usize, args: &[Value]) -> (r: Result<Vec<Value>, WasmError>)
        requires
            old(self).host_func(func as int) matches Some(f) && f.accepts(args@),
        ensures
            host_call(old(self)@, func as int, args@, final(self)@, outcome_of(r)),
    {
        let ghost before = self@;
        match &self.funcs[func].kind {
            FuncKind::Host { func: f } => {
                if self.memories.len() > 0 {
                    let r = f.call(args, &mut self.memories[0]);
                    proof {
                        types::lemma_views_update(old(self).memories@, 0, self.memories@[0]);
                        assert(self.memories@ =~= old(self).memories@.update(
                            0,
                            self.memories@[0],
                        ));
                        assert(self@ =~= (InstanceModel {
                            memories: before.memories.update(0, self@.memories[0]),
                            ..before
                        }));
                    }
                    r
                } else {
                    let mut dummy = Memory { data: Vec::new(), max: None };
                    assert(dummy@ =~= no_memory());
                    let r = f.call(args, &mut dummy);
                    assert(f.behaves(args@, no_memory(), dummy@, outcome_of(r)));
                    r
                }
            },
            _ => Ok(Vec::new()),
        }
    }
}

// ---- Laws ----

/// A call of a host function hands it the arguments as they are and the first
/// memory of the instance, in which it leaves its changes; nothing else of
/// the instance changes. Without a memory it gets an empty one.
pub proof fn law_host_call(
    before: InstanceModel,
    func: int,
    args: Seq<Value>,
    after: InstanceModel,
    r: Outcome,
    f: HostFunc,
)
    requires
        host_call(before, func, args, after, r),
        before.funcs[func].kind == (FuncKind::Host { func: f }),
    ensures
        after.module == before.module,
        after.funcs == before.funcs,
        after.tables == before.tables,
        after.globals == before.globals,
        after.memories.len() == before.memories.len(),
        forall|i: int|
            0 < i < before.memories.len() ==> #[trigger] after.memories[i] == before.memories[i],
        before.memories.len() > 0 ==> f.behaves(args, before.memories[0], after.memories[0], r),
        before.memories.len() == 0 ==> exists|empty: MemoryModel, m: MemoryModel|
            empty.data.len() == 0 && empty.max is None && #[trigger] f.behaves(args, empty, m, r),
{
    if before.memories.len() == 0 {
        let m = choose|m: MemoryModel| #[trigger] f.behaves(args, no_memory(), m, r);
        assert(f.behaves(args, no_memory(), m, r));
    }
}

/// A function of the system interface does what its call does, in its
/// context; a function of the embedder does what the embedder made it do.
pub proof fn law_host_function(
    f: HostFunc,
    args: Seq<Value>,
    before: MemoryModel,
    after: MemoryModel,
    r: Outcome,
)
    requires
        f.behaves(args, before, after, r),
    ensures
        f matches HostFunc::Wasi { which, ctx } ==> wasi::behaves(
            which,
            *ctx,
            args,
            before,
            after,
            r,
        ),
        f matches HostFunc::Custom(g) ==> g.inner.behaves(args, before, after, r),
        f matches HostFunc::Stub(n) ==> after == before && (r matches Ok(v) && v.len() == n),
{
}

} // verus!
