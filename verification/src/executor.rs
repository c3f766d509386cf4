//! The call stack: running functions step by step, and handing out the work
//! that only the embedder can do.
use vstd::prelude::*;

use crate::decode::WasmModule;
use crate::frame;
use crate::frame::{Effect, EffectModel, Frame, FrameModel};
use crate::host;
use crate::host::Outcome;
use crate::instance;
use crate::instance::{Func, FuncKind, InstanceModel, ModuleInstance};
use crate::instr::Instr;
use crate::types;
use crate::types::{ExportDesc, ExportModel, LocalEntry, ValType, Value, WasmError};

verus! {

/// A running invocation: the activations from the outermost to the current.
pub struct Executor {
    pub frames: Vec<Frame>,
}

impl View for Executor {
    type V = Seq<FrameModel>;

    open spec fn view(&self) -> Seq<FrameModel> {
        types::views(self.frames@)
    }
}

/// Where an invocation stands.
pub enum Signal {
    /// It can run on.
    Ready(Executor),
    /// It waits for the result of a floating-point instruction, to be given
    /// to [`Executor::answer`].
    Float { op: Instr, args: Vec<Value>, rest: Executor },
    /// It waits for the results of a host function, to be given to
    /// [`Executor::answer`].
    Host { func: usize, args: Vec<Value>, rest: Executor },
    /// It is finished, with these results.
    Done(Vec<Value>),
    /// It failed.
    Trap(WasmError),
    /// It came to a function, or the body of one, that does not exist.
    Dangling,
}

/// Mathematical model of a [`Signal`].
#[verifier::ext_equal]
pub enum SignalModel {
    Ready(Seq<FrameModel>),
    Float { op: Instr, args: Seq<Value>, rest: Seq<FrameModel> },
    Host { func: usize, args: Seq<Value>, rest: Seq<FrameModel> },
    Done(Seq<Value>),
    Trap(WasmError),
    Dangling,
}

impl View for Signal {
    type V = SignalModel;

    open spec fn view(&self) -> SignalModel {
        match *self {
            Signal::Ready(e) => SignalModel::Ready(e@),
            Signal::Float { op, args, rest } => SignalModel::Float {
                op,
                args: args@,
                rest: rest@,
            },
            Signal::Host { func, args, rest } => SignalModel::Host {
                func,
                args: args@,
                rest: rest@,
            },
            Signal::Done(v) => SignalModel::Done(v@),
            Signal::Trap(e) => SignalModel::Trap(e),
            Signal::Dangling => SignalModel::Dangling,
        }
    }
}

// ---- Entering and leaving functions ----

/// `n` zeros of type `ty`.
pub open spec fn zero_locals(n: nat, ty: ValType) -> Seq<Value> {
    Seq::new(n, |i: int| types::zero_of(ty))
}

/// The locals that a body declares, all zero.
pub open spec fn declared_locals(entries: Seq<LocalEntry>) -> Seq<Value>
    decreases entries.len(),
{
    if entries.len() == 0 {
        seq![]
    } else {
        declared_locals(entries.drop_last()) + zero_locals(
            entries.last().count as nat,
            entries.last().ty,
        )
    }
}

/// Zeros for the parameters for which there is no argument.
pub open spec fn missing_params(params: Seq<ValType>, n: nat) -> Seq<Value> {
    Seq::new(
        if params.len() > n {
            (params.len() - n) as nat
        } else {
            0
        },
        |i: int| types::zero_of(params[n + i]),
    )
}

/// The activation of a function that the module defines: the arguments, the
/// missing parameters and the declared locals, and nothing on the stack.
pub open spec fn new_frame(m: InstanceModel, func: int, body: int, args: Seq<Value>) -> FrameModel {
    FrameModel {
        locals: args + missing_params(m.funcs[func].ty.params, args.len()) + declared_locals(
            m.module.codes[body].locals,
        ),
        stack: seq![],
        ctrl: seq![],
        result_ty: m.funcs[func].ty.results,
        code: m.module.codes[body].code,
        pc: 0,
    }
}

/// What calling function `func` from the call stack `frames` comes to.
pub open spec fn enter(m: InstanceModel, frames: Seq<FrameModel>, func: int, args: Seq<Value>) -> SignalModel {
    if func >= m.funcs.len() {
        SignalModel::Dangling
    } else {
        match m.funcs[func].kind {
            FuncKind::Host { .. } => SignalModel::Host {
                func: func as usize,
                args,
                rest: frames,
            },
            FuncKind::Local { body_idx, .. } => if body_idx < m.module.codes.len() {
                SignalModel::Ready(frames.push(new_frame(m, func, body_idx as int, args)))
            } else {
                SignalModel::Dangling
            },
        }
    }
}

/// The call stack after `values` have come back to it: they go on the stack
/// of the current activation; if there is none, they are the results.
pub open spec fn resumed(frames: Seq<FrameModel>, values: Seq<Value>) -> SignalModel {
    if frames.len() == 0 {
        SignalModel::Done(values)
    } else {
        let f = frames.last();
        SignalModel::Ready(
            frames.drop_last().push(FrameModel { stack: f.stack + values, ..f }),
        )
    }
}

// ---- Running ----

/// One step of the current activation.
#[verifier::opaque]
pub open spec fn advance(frames: Seq<FrameModel>, m: InstanceModel) -> (SignalModel, InstanceModel) {
    match frame::step(frames.last(), m) {
        Err(e) => (SignalModel::Trap(e), m),
        Ok(s) => {
            let rest = frames.drop_last();
            let fs = rest.push(s.frame);
            match s.effect {
                EffectModel::Next => (SignalModel::Ready(fs), s.inst),
                EffectModel::Call { func, args } => (enter(s.inst, fs, func as int, args), s.inst),
                EffectModel::Float { op, args } => (
                    SignalModel::Float { op, args, rest: fs },
                    s.inst,
                ),
                EffectModel::Return(v) => (resumed(rest, v), s.inst),
                EffectModel::Dangling => (SignalModel::Dangling, s.inst),
            }
        },
    }
}

/// At most `fuel` steps.
pub open spec fn run_for(frames: Seq<FrameModel>, m: InstanceModel, fuel: nat) -> (
    SignalModel,
    InstanceModel,
)
    decreases fuel,
{
    if fuel == 0 {
        (SignalModel::Ready(frames), m)
    } else {
        match advance(frames, m) {
            (SignalModel::Ready(fs), m2) => run_for(fs, m2, (fuel - 1) as nat),
            other => other,
        }
    }
}

/// Running for `a + b` steps is running for `a` steps and, if the invocation
/// is then ready, for `b` more.
pub proof fn law_run_splits(frames: Seq<FrameModel>, m: InstanceModel, a: nat, b: nat)
    ensures
        run_for(frames, m, a + b) == (match run_for(frames, m, a) {
            (SignalModel::Ready(fs), m2) => run_for(fs, m2, b),
            other => other,
        }),
    decreases a,
{
    if a > 0 {
        if let (SignalModel::Ready(fs), m2) = advance(frames, m) {
            law_run_splits(fs, m2, (a - 1) as nat, b);
        }
    }
}

/// An invocation that is ready has a current activation.
pub proof fn law_ready_is_active(frames: Seq<FrameModel>, m: InstanceModel, fuel: nat)
    requires
        frames.len() > 0,
    ensures
        run_for(frames, m, fuel).0 matches SignalModel::Ready(fs) ==> fs.len() > 0,
        run_for(frames, m, fuel).0 matches SignalModel::Float { rest, .. } ==> rest.len() > 0,
    decreases fuel,
{
    if fuel > 0 {
        reveal(advance);
        if let (SignalModel::Ready(fs), m2) = advance(frames, m) {
            law_ready_is_active(fs, m2, (fuel - 1) as nat);
        }
    }
}

/// Whether host function `func` can be called with `args`.
pub open spec fn host_ready(m: InstanceModel, func: usize, args: Seq<Value>) -> bool {
    func < m.funcs.len() && (m.funcs[func as int].kind matches FuncKind::Host { func: f }
        && f.accepts(args))
}

/// The call stack after a host function or a floating-point instruction has
/// come to `r`.
pub open spec fn after_host(rest: Seq<FrameModel>, r: Outcome) -> SignalModel {
    match r {
        Ok(values) => resumed(rest, values),
        Err(e) => SignalModel::Trap(e),
    }
}

/// Whether an invocation may be at `end`, with the instance at `m_end`, after
/// at most `fuel` steps from `sig`, where a step is an instruction or a call
/// of a host function. It stops early where it is finished, has failed, or
/// waits for a floating-point result.
pub open spec fn driven(
    sig: SignalModel,
    m: InstanceModel,
    fuel: nat,
    end: SignalModel,
    m_end: InstanceModel,
) -> bool
    decreases fuel,
{
    if fuel == 0 {
        end == sig && m_end == m
    } else {
        match sig {
            SignalModel::Ready(fs) => {
                let (next, m2) = advance(fs, m);
                driven(next, m2, (fuel - 1) as nat, end, m_end)
            },
            SignalModel::Host { func, args, rest } => if host_ready(m, func, args) {
                exists|m2: InstanceModel, r: Outcome| #[trigger]
                    host::host_call(m, func as int, args, m2, r) && driven(
                        after_host(rest, r),
                        m2,
                        (fuel - 1) as nat,
                        end,
                        m_end,
                    )
            } else {
                end == sig && m_end == m
            },
            _ => end == sig && m_end == m,
        }
    }
}

/// An invocation that may come to `mid` in `a` steps, and from there to `end`
/// in `b` steps, may come to `end` in `a + b` steps.
pub proof fn law_driven_joins(
    sig: SignalModel,
    m: InstanceModel,
    a: nat,
    mid: SignalModel,
    m_mid: InstanceModel,
    b: nat,
    end: SignalModel,
    m_end: InstanceModel,
)
    requires
        driven(sig, m, a, mid, m_mid),
        driven(mid, m_mid, b, end, m_end),
    ensures
        driven(sig, m, a + b, end, m_end),
    decreases a,
{
    if a > 0 {
        let k = (a - 1) as nat;
        match sig {
            SignalModel::Ready(fs) => {
                let (next, m2) = advance(fs, m);
                law_driven_joins(next, m2, k, mid, m_mid, b, end, m_end);
            },
            SignalModel::Host { func, args, rest } => {
                if host_ready(m, func, args) {
                    let (m2, r) = choose|m2: InstanceModel, r: Outcome| #[trigger]
                        host::host_call(m, func as int, args, m2, r) && driven(
                            after_host(rest, r),
                            m2,
                            k,
                            mid,
                            m_mid,
                        );
                    law_driven_joins(after_host(rest, r), m2, k, mid, m_mid, b, end, m_end);
                } else {
                    law_driven_stays(sig, m, b, (a + b) as nat, end, m_end);
                }
            },
            _ => {
                law_driven_stays(sig, m, b, (a + b) as nat, end, m_end);
            },
        }
    }
}

/// An invocation that cannot go on by itself stays where it is, however many
/// steps it is given.
pub proof fn law_driven_stays(
    sig: SignalModel,
    m: InstanceModel,
    a: nat,
    b: nat,
    end: SignalModel,
    m_end: InstanceModel,
)
    requires
        sig !is Ready,
        sig matches SignalModel::Host { func, args, .. } ==> !host_ready(m, func, args),
    ensures
        driven(sig, m, a, end, m_end) == (end == sig && m_end == m),
        driven(sig, m, a, end, m_end) == driven(sig, m, b, end, m_end),
{
}

/// As long as no host function is called, an invocation comes to where
/// [`run_for`] takes it.
pub proof fn law_driven_runs(frames: Seq<FrameModel>, m: InstanceModel, fuel: nat)
    ensures
        ({
            let (s, m2) = run_for(frames, m, fuel);
            s !is Host ==> driven(SignalModel::Ready(frames), m, fuel, s, m2)
        }),
    decreases fuel,
{
    if fuel > 0 {
        let (next, m2) = advance(frames, m);
        match next {
            SignalModel::Ready(fs) => {
                law_driven_runs(fs, m2, (fuel - 1) as nat);
            },
            SignalModel::Host { .. } => {},
            _ => {
                law_driven_stays(next, m2, (fuel - 1) as nat, 0, next, m2);
            },
        }
    }
}

/// Builds the activation of a function.
fn make_frame(func: &Func, locals: &Vec<LocalEntry>, code: &Vec<u8>, args: &[Value]) -> (r: Frame)
    ensures
        r@ == (FrameModel {
            locals: args@ + missing_params(func.ty@.params, args@.len()) + declared_locals(locals@),
            stack: seq![],
            ctrl: seq![],
            result_ty: func.ty@.results,
            code: code@,
            pc: 0,
        }),
{
    let mut all: Vec<Value> = vstd::slice::slice_to_vec(args);
    let mut i: usize = args.len();
    let ghost params = func.ty@.params;
    proof {
        assert(args@ =~= args@ + missing_params(params, args@.len()).subrange(0, 0));
    }
    while i < func.ty.params.len()
        invariant
            args.len() <= i,
            i == args.len() || i <= func.ty.params.len(),
            params == func.ty@.params,
            all@ == args@ + missing_params(params, args@.len()).subrange(0, i - args.len()),
        decreases func.ty.params.len() - i,
    {
        all.push(Value::default_for(func.ty.params[i]));
        i = i + 1;
        assert(all@ =~= args@ + missing_params(params, args@.len()).subrange(0, i - args.len()));
    }
    let ghost head = args@ + missing_params(params, args@.len());
    assert(all@ =~= head);
    let mut k: usize = 0;
    assert(head + declared_locals(locals@.subrange(0, 0)) =~= head);
    while k < locals.len()
        invariant
            k <= locals.len(),
            all@ == head + declared_locals(locals@.subrange(0, k as int)),
        decreases locals.len() - k,
    {
        let entry: LocalEntry = locals[k];
        let ghost before = all@;
        let mut c: u32 = 0;
        assert(before + zero_locals(0, entry.ty) =~= before);
        while c < entry.count
            invariant
                c <= entry.count,
                all@ == before + zero_locals(c as nat, entry.ty),
            decreases entry.count - c,
        {
            all.push(Value::default_for(entry.ty));
            c = c + 1;
            assert(all@ =~= before + zero_locals(c as nat, entry.ty));
        }
        proof {
            let s = locals@.subrange(0, k + 1);
            assert(s.drop_last() =~= locals@.subrange(0, k as int));
            assert(s.last() == entry);
            assert(all@ =~= head + declared_locals(s));
        }
        k = k + 1;
    }
    assert(locals@.subrange(0, k as int) =~= locals@);
    let r = Frame {
        locals: all,
        stack: Vec::new(),
        ctrl: Vec::new(),
        result_ty: func.ty.results.clone(),
        code: code.clone(),
        pc: 0,
    };
    assert(r@.stack =~= Seq::<Value>::empty());
    r
}

/// Calls function `func` from the call stack `frames`.
fn call_from(frames: Vec<Frame>, inst: &ModuleInstance, func: usize, args: Vec<Value>) -> (r: Signal)
    ensures
        r@ == enter(inst@, types::views(frames@), func as int, args@),
{
    if func >= inst.funcs.len() {
        return Signal::Dangling;
    }
    match &inst.funcs[func].kind {
        FuncKind::Host { .. } => Signal::Host { func, args, rest: Executor { frames } },
        FuncKind::Local { ty_idx: _, body_idx } => {
            if *body_idx >= inst.module.codes.len() {
                return Signal::Dangling;
            }
            let body = &inst.module.codes[*body_idx];
            let f: Frame = make_frame(
                &inst.funcs[func],
                &body.locals,
                &body.code,
                args.as_slice(),
            );
            let mut frames: Vec<Frame> = frames;
            proof {
                types::lemma_views_push(frames@, f);
                assert(f@ =~= new_frame(inst@, func as int, *body_idx as int, args@));
            }
            frames.push(f);
            Signal::Ready(Executor { frames })
        },
    }
}

/// Gives `values` back to the call stack `frames`.
fn return_to(frames: Vec<Frame>, values: Vec<Value>) -> (r: Signal)
    ensures
        r@ == resumed(types::views(frames@), values@),
{
    let mut frames: Vec<Frame> = frames;
    let mut values: Vec<Value> = values;
    let ghost before = types::views(frames@);
    let ghost vals = values@;
    match frames.pop() {
        None => Signal::Done(values),
        Some(f) => {
            let mut f: Frame = f;
            let ghost f0 = f@;
            f.stack.append(&mut values);
            proof {
                assert(types::views(frames@) =~= before.drop_last());
                assert(before.last() == f0);
                assert(f@ =~= (FrameModel { stack: f0.stack + vals, ..f0 }));
                types::lemma_views_push(frames@, f);
            }
            frames.push(f);
            Signal::Ready(Executor { frames })
        },
    }
}

impl Executor {
    /// Whether there is a current activation.
    pub open spec fn active(&self) -> bool {
        self.frames.len() > 0
    }

    /// Executes one instruction.
    fn advance(self, inst: &mut ModuleInstance) -> (r: Signal)
        requires
            self.active(),
        ensures
            (r@, final(inst)@) == advance(self@, old(inst)@),
            r.sound(),
    {
        proof {
            reveal(advance);
        }
        let mut frames: Vec<Frame> = self.frames;
        let ghost before = self@;
        let r: Signal = match frames.pop() {
            None => Signal::Dangling,
            Some(f) => {
                let mut f: Frame = f;
                proof {
                    assert(types::views(frames@) =~= before.drop_last());
                    assert(before.last() == f@);
                }
                match f.step(inst) {
                    Err(e) => Signal::Trap(e),
                    Ok(Effect::Return(v)) => return_to(frames, v),
                    Ok(Effect::Dangling) => Signal::Dangling,
                    Ok(effect) => {
                        proof {
                            types::lemma_views_push(frames@, f);
                        }
                        frames.push(f);
                        match effect {
                            Effect::Call { func, args } => call_from(
                                frames,
                                inst,
                                func as usize,
                                args,
                            ),
                            Effect::Float { op, args } => Signal::Float {
                                op,
                                args,
                                rest: Executor { frames },
                            },
                            _ => Signal::Ready(Executor { frames }),
                        }
                    },
                }
            },
        };
        assert(r matches Signal::Ready(e) ==> e@.len() > 0);
        assert(r matches Signal::Float { rest, .. } ==> rest@.len() > 0);
        r
    }

    /// Runs for at most `fuel` instructions, or until the invocation ends or
    /// needs something of the embedder.
    pub fn run(self, inst: &mut ModuleInstance, fuel: u64) -> (r: Signal)
        requires
            self.active(),
        ensures
            (r@, final(inst)@) == run_for(self@, old(inst)@, fuel as nat),
            r.sound(),
    {
        let ghost fs = self@;
        let ghost m = inst@;
        let mut now: Executor = self;
        let mut left: u64 = fuel;
        proof {
            law_ready_is_active(fs, m, fuel as nat);
        }
        while left > 0
            invariant
                now.active(),
                m == old(inst)@,
                fs == self@,
                fs.len() > 0,
                run_for(fs, m, fuel as nat) == run_for(now@, inst@, left as nat),
                run_for(fs, m, fuel as nat).0 matches SignalModel::Float { rest, .. } ==> rest.len()
                    > 0,
            decreases left,
        {
            left = left - 1;
            match now.advance(inst) {
                Signal::Ready(e) => {
                    proof {
                        assert(e@.len() > 0);
                    }
                    now = e;
                },
                other => return other,
            }
        }
        Signal::Ready(now)
    }

    /// Goes on after a floating-point instruction or a host function came
    /// back with `values`.
    pub fn resume(self, values: Vec<Value>) -> (r: Signal)
        ensures
            r@ == resumed(self@, values@),
            r.sound(),
            r is Ready || r is Done,
    {
        let r: Signal = return_to(self.frames, values);
        assert(r matches Signal::Ready(e) ==> e@.len() > 0);
        r
    }

    /// Goes on after a floating-point instruction or a host function came to
    /// `outcome`: with its values, or with its failure.
    pub fn answer(self, outcome: Result<Vec<Value>, WasmError>) -> (r: Signal)
        ensures
            r@ == after_host(self@, host::outcome_of(outcome)),
            r.sound(),
    {
        match outcome {
            Ok(values) => self.resume(values),
            Err(e) => Signal::Trap(e),
        }
    }
}

impl Signal {
    /// Whether an activation is there to go on with.
    pub open spec fn sound(&self) -> bool {
        match *self {
            Signal::Ready(e) => e.active(),
            Signal::Float { rest, .. } => rest.active(),
            _ => true,
        }
    }
}

impl ModuleInstance {
    /// Takes an invocation on for at most `fuel` steps: runs it, and calls
    /// the host functions that it needs. It comes back where it is finished,
    /// has failed, or waits for a floating-point result, and where the steps
    /// are used up.
    pub fn drive(&mut self, signal: Signal, fuel: u64) -> (r: Signal)
        requires
            signal.sound(),
        ensures
            driven(signal@, old(self)@, fuel as nat, r@, final(self)@),
            r.sound(),
    {
        let ghost s0 = signal@;
        let ghost m0 = self@;
        let mut now: Signal = signal;
        let mut left: u64 = fuel;
        while left > 0
            invariant
                now.sound(),
                s0 == signal@,
                m0 == old(self)@,
                left <= fuel,
                driven(s0, m0, (fuel - left) as nat, now@, self@),
            decreases left,
        {
            let ghost s1 = now@;
            let ghost m1 = self@;
            let ghost used = (fuel - left) as nat;
            left = left - 1;
            match now {
                Signal::Ready(e) => {
                    now = e.advance(self);
                    proof {
                        assert(driven(now@, self@, 0, now@, self@));
                        assert(driven(s1, m1, 1, now@, self@));
                        law_driven_joins(s0, m0, used, s1, m1, 1, now@, self@);
                    }
                },
                Signal::Host { func, args, rest } => {
                    if !self.can_call_host(func, args.as_slice()) {
                        proof {
                            law_driven_stays(s1, m1, 0, (left + 1) as nat, s1, m1);
                            law_driven_joins(s0, m0, used, s1, m1, (left + 1) as nat, s1, m1);
                        }
                        return Signal::Host { func, args, rest };
                    }
                    let outcome = self.call_host(func, args.as_slice());
                    let ghost o = host::outcome_of(outcome);
                    let ghost fs = rest@;
                    now = rest.answer(outcome);
                    proof {
                        assert(now@ == after_host(fs, o));
                        assert(driven(now@, self@, 0, now@, self@));
                        assert(host::host_call(m1, func as int, args@, self@, o));
                        assert(driven(s1, m1, 1, now@, self@));
                        law_driven_joins(s0, m0, used, s1, m1, 1, now@, self@);
                    }
                },
                other => {
                    proof {
                        law_driven_stays(s1, m1, 0, (left + 1) as nat, s1, m1);
                        law_driven_joins(s0, m0, used, s1, m1, (left + 1) as nat, s1, m1);
                    }
                    return other;
                },
            }
        }
        now
    }
}

/// The function that the first export of that name and kind stands for.
pub open spec fn exported_func(exports: Seq<ExportModel>, name: Seq<char>) -> Option<u32>
    decreases exports.len(),
{
    if exports.len() == 0 {
        None
    } else {
        match exports[0].desc {
            ExportDesc::Func(i) if exports[0].name == name => Some(i),
            _ => exported_func(exports.drop_first(), name),
        }
    }
}

/// What calling the export `name` comes to.
pub open spec fn call_of_export(m: InstanceModel, name: Seq<char>, args: Seq<Value>) -> Result<
    SignalModel,
    WasmError,
> {
    match exported_func(m.module.exports, name) {
        None => Err(WasmError::ExportNotFound),
        Some(i) => Ok(enter(m, seq![], i as int, args)),
    }
}

/// What a fresh instance has to run before it can be used.
pub open spec fn start_of(m: InstanceModel) -> Option<SignalModel> {
    match m.module.start {
        None => None,
        Some(i) => Some(enter(m, seq![], i as int, seq![])),
    }
}

/// The view of a signal that may be absent.
pub open spec fn signal_view(s: Option<Signal>) -> Option<SignalModel> {
    match s {
        None => None,
        Some(x) => Some(x@),
    }
}

impl ModuleInstance {
    /// Instantiates a module with the given imported functions. The second
    /// part of the result is the run of the start function, if there is one;
    /// the instance is ready for use when that run is done.
    pub fn instantiate(module: WasmModule, imports: Vec<Func>) -> (r: Result<
        (ModuleInstance, Option<Signal>),
        WasmError,
    >)
        ensures
            match instance::instance_of(module@, types::views(imports@)) {
                Ok(m) => r matches Ok((i, s)) && i@ == m && signal_view(s) == start_of(m),
                Err(e) => r == Err::<(ModuleInstance, Option<Signal>), WasmError>(e),
            },
            r matches Ok((_, Some(s))) ==> s.sound(),
    {
        let inst: ModuleInstance = instance::build_instance(module, imports)?;
        match inst.module.start {
            None => Ok((inst, None)),
            Some(i) => {
                let args: Vec<Value> = Vec::new();
                let s: Signal = inst.invoke(i as usize, args.as_slice());
                assert(args@ =~= seq![]);
                Ok((inst, Some(s)))
            },
        }
    }

    /// Starts a call of function `func_idx`.
    pub fn invoke(&self, func_idx: usize, args: &[Value]) -> (r: Signal)
        ensures
            r@ == enter(self@, seq![], func_idx as int, args@),
            r.sound(),
    {
        let frames: Vec<Frame> = Vec::new();
        assert(types::views(frames@) =~= Seq::<FrameModel>::empty());
        let r: Signal = call_from(frames, self, func_idx, vstd::slice::slice_to_vec(args));
        assert(r matches Signal::Ready(e) ==> e@.len() > 0);
        r
    }

    /// Starts a call of the function exported as `name`.
    pub fn call_export(&self, name: &str, args: &[Value]) -> (r: Result<Signal, WasmError>)
        ensures
            match call_of_export(self@, name@, args@) {
                Ok(s) => r matches Ok(x) && x@ == s,
                Err(e) => r == Err::<Signal, WasmError>(e),
            },
            r matches Ok(s) ==> s.sound(),
    {
        let wanted: String = name.to_string();
        let mut i: usize = 0;
        let ghost all = self@.module.exports;
        assert(all.subrange(0, all.len() as int) =~= all);
        while i < self.module.exports.len()
            invariant
                i <= self.module.exports.len(),
                all == self@.module.exports,
                wanted@ == name@,
                exported_func(all, name@) == exported_func(
                    all.subrange(i as int, all.len() as int),
                    name@,
                ),
            decreases self.module.exports.len() - i,
        {
            let e = &self.module.exports[i];
            proof {
                let rest = all.subrange(i as int, all.len() as int);
                assert(rest[0] == e@);
                assert(rest.drop_first() =~= all.subrange(i + 1, all.len() as int));
            }
            if let ExportDesc::Func(f) = e.desc {
                if e.name == wanted {
                    return Ok(self.invoke(f as usize, args));
                }
            }
            i = i + 1;
        }
        Err(WasmError::ExportNotFound)
    }
}

} // verus!
