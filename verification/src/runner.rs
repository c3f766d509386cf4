//! Seven cells, each of which can hold one module instance.
use std::sync::Arc;

use vstd::prelude::*;

use crate::bytes;
use crate::decode;
use crate::decode::{ModuleModel, WasmModule};
use crate::executor;
use crate::executor::{Signal, SignalModel};
use crate::frame::FrameModel;
use crate::host;
use crate::host::{CustomFunc, HostFunc, HostFunction, Supplied};
use crate::instance;
use crate::instance::{Func, FuncKind, FuncModel, InstanceModel, ModuleInstance};
use crate::memory::MemoryModel;
use crate::types;
use crate::types::{
    CellId, Export, ExportDesc, ExportModel, FuncType, FuncTypeModel, Import, ImportDesc, ValType,
    Value, WasiErrno, WasmError,
};
use crate::wasi;
use crate::wasi::{WasiCtx, WasiFn, WasiFuncs};

verus! {

/// What a cell is doing.
#[derive(Debug, Clone, Copy, PartialEq, Eq, Structural)]
pub enum CellStatus {
    Idle,
    Running,
    Exited(i32),
    Faulted,
}

/// An occupied cell.
pub struct CellSlot {
    pub id: CellId,
    pub instance: ModuleInstance,
    pub status: CellStatus,
}

/// Mathematical model of a [`CellSlot`].
#[verifier::ext_equal]
pub struct SlotModel {
    pub id: CellId,
    pub instance: InstanceModel,
    pub status: CellStatus,
}

impl View for CellSlot {
    type V = SlotModel;

    open spec fn view(&self) -> SlotModel {
        SlotModel { id: self.id, instance: self.instance@, status: self.status }
    }
}

// ---- Host functions of the embedder ----

/// Makes a host function for the signature that a module asks for.
pub trait HostBuilder {
    /// Whether `f` can be made for signature `ty`. An implementation that
    /// says nothing else may make any function.
    open spec fn builds(&self, ty: FuncTypeModel, f: FuncModel) -> bool {
        true
    }

    fn build(&self, ty: FuncType) -> (f: Func)
        ensures
            self.builds(ty@, f@),
    ;
}

/// How the function of a [`HostImport`] is made.
pub enum Builder {
    Simple { params: Vec<ValType>, results: Vec<ValType>, f: Arc<CustomFunc> },
    Custom(Supplied<Box<dyn HostBuilder>>),
}

/// A host function that a module can import by name.
pub struct HostImport {
    pub module: String,
    pub name: String,
    pub inner: Builder,
}

impl HostImport {
    /// Whether `f` can be made for signature `ty`.
    pub open spec fn builds(&self, ty: FuncTypeModel, f: FuncModel) -> bool {
        match self.inner {
            Builder::Simple { params, results, f: g } => f == (FuncModel {
                ty: FuncTypeModel { params: params@, results: results@ },
                kind: FuncKind::Host { func: HostFunc::Custom(g) },
            }),
            Builder::Custom(b) => b.inner.builds(ty, f),
        }
    }

    /// An import whose function is made by `f`.
    pub fn new(module: &str, name: &str, f: Box<dyn HostBuilder>) -> (r: Self)
        ensures
            r.module@ == module@,
            r.name@ == name@,
            r.inner matches Builder::Custom(b) && b.inner == f,
    {
        let b = Supplied { inner: f };
        HostImport {
            module: module.to_string(),
            name: name.to_string(),
            inner: Builder::Custom(b),
        }
    }

    /// Makes the function for signature `ty`.
    pub fn build_func(&self, ty: FuncType) -> (f: Func)
        ensures
            self.builds(ty@, f@),
    {
        match &self.inner {
            Builder::Simple { params, results, f } => {
                let r = Func {
                    ty: FuncType { params: params.clone(), results: results.clone() },
                    kind: FuncKind::Host { func: HostFunc::Custom(f.clone()) },
                };
                assert(r@.ty =~= (FuncTypeModel { params: params@, results: results@ }));
                r
            },
            Builder::Custom(b) => b.inner.build(ty),
        }
    }

    /// An import with a fixed signature, whatever signature is asked for.
    pub fn simple(
        module: &str,
        name: &str,
        params: Vec<ValType>,
        results: Vec<ValType>,
        f: Box<dyn HostFunction>,
    ) -> (r: Self)
        ensures
            r.module@ == module@,
            r.name@ == name@,
            r.inner matches Builder::Simple { params: p, results: q, f: g } && p == params && q
                == results && g.inner == f,
    {
        let supplied = Supplied { inner: f };
        let shared = Arc::new(supplied);
        HostImport {
            module: module.to_string(),
            name: name.to_string(),
            inner: Builder::Simple { params, results, f: shared },
        }
    }
}

/// A host function for an import that nobody provides.
pub open spec fn stub_model(ty: FuncTypeModel) -> FuncModel {
    FuncModel {
        ty,
        kind: FuncKind::Host { func: HostFunc::Stub(ty.results.len() as usize) },
    }
}

fn stub_func(ty: FuncType) -> (r: Func)
    ensures
        r@ == stub_model(ty@),
{
    let n: usize = ty.results.len();
    Func { ty, kind: FuncKind::Host { func: HostFunc::Stub(n) } }
}

// ---- Resolving imports ----

/// Where the function of an import comes from.
pub enum Source {
    /// A function of the system interface.
    Wasi(WasiFn),
    /// The additional import with that position, made for that signature.
    Extra(int, FuncTypeModel),
    /// Nowhere.
    Stub(FuncTypeModel),
}

/// The position of the first function in `left` with that name.
pub open spec fn find_wasi(left: Seq<WasiFn>, module: Seq<char>, name: Seq<char>, from: int) -> Option<
    int,
>
    decreases left.len() - from,
{
    if from >= left.len() {
        None
    } else if module == wasi::module_name() && name == wasi::fn_name(left[from]) {
        Some(from)
    } else {
        find_wasi(left, module, name, from + 1)
    }
}

/// The position of the first additional import with that name.
pub open spec fn find_extra(
    extra: Seq<HostImport>,
    module: Seq<char>,
    name: Seq<char>,
    from: int,
) -> Option<int>
    decreases extra.len() - from,
{
    if from >= extra.len() {
        None
    } else if extra[from].module@ == module && extra[from].name@ == name {
        Some(from)
    } else {
        find_extra(extra, module, name, from + 1)
    }
}

/// Where the functions of the first `k` imports come from, and which
/// functions of the system interface are still unused: each of them is given
/// out once. Imports that are no functions are passed over.
pub open spec fn plan(
    m: ModuleModel,
    offered: Seq<WasiFn>,
    extra: Seq<HostImport>,
    k: nat,
) -> Result<(Seq<Source>, Seq<WasiFn>), WasmError>
    decreases k,
{
    if k == 0 {
        Ok((seq![], offered))
    } else {
        match plan(m, offered, extra, (k - 1) as nat) {
            Err(e) => Err(e),
            Ok((done, left)) => {
                let i = m.imports[k - 1];
                match i.desc {
                    ImportDesc::Func(t) => if t >= m.types.len() {
                        Err(WasmError::InvalidType)
                    } else if let Some(p) = find_wasi(left, i.module, i.name, 0) {
                        Ok((done.push(Source::Wasi(left[p])), left.remove(p)))
                    } else if let Some(p) = find_extra(extra, i.module, i.name, 0) {
                        Ok((done.push(Source::Extra(p, m.types[t as int])), left))
                    } else {
                        Ok((done.push(Source::Stub(m.types[t as int])), left))
                    },
                    _ => Ok((done, left)),
                }
            },
        }
    }
}

/// Whether `f` can come from `s`.
pub open spec fn provides(s: Source, ctx: Option<WasiCtx>, extra: Seq<HostImport>, f: FuncModel) -> bool {
    match s {
        Source::Wasi(w) => ctx matches Some(c) && wasi::is_wasi_func(f, w, c),
        Source::Extra(p, ty) => extra[p].builds(ty, f),
        Source::Stub(ty) => f == stub_model(ty),
    }
}

/// Whether the functions `fs` can come from the sources `ps`.
pub open spec fn all_provided(
    ps: Seq<Source>,
    ctx: Option<WasiCtx>,
    extra: Seq<HostImport>,
    fs: Seq<FuncModel>,
) -> bool {
    &&& fs.len() == ps.len()
    &&& forall|i: int| 0 <= i < ps.len() ==> provides(ps[i], ctx, extra, #[trigger] fs[i])
}

/// The functions of the system interface that are offered to a module.
pub open spec fn offered(ctx: Option<WasiCtx>) -> Seq<WasiFn> {
    if ctx is Some {
        wasi::all_fns()
    } else {
        seq![]
    }
}

proof fn lemma_plan_err(
    m: ModuleModel,
    offered: Seq<WasiFn>,
    extra: Seq<HostImport>,
    k: nat,
    n: nat,
)
    requires
        k <= n,
    ensures
        plan(m, offered, extra, k) is Err ==> plan(m, offered, extra, n) == plan(
            m,
            offered,
            extra,
            k,
        ),
    decreases n - k,
{
    if k < n {
        lemma_plan_err(m, offered, extra, k, (n - 1) as nat);
    }
}

/// Whether the list holds the functions `left`, all of context `ctx`.
spec fn lists(funcs: Seq<(&'static str, &'static str, Func)>, left: Seq<WasiFn>, ctx: Option<
    WasiCtx,
>) -> bool {
    &&& funcs.len() == left.len()
    &&& forall|i: int|
        0 <= i < left.len() ==> {
            &&& (#[trigger] funcs[i]).0@ == wasi::module_name()
            &&& funcs[i].1@ == wasi::fn_name(left[i])
            &&& provides(Source::Wasi(left[i]), ctx, seq![], funcs[i].2@)
        }
}

fn position_of(funcs: &WasiFuncs, import: &Import, Ghost(left): Ghost<Seq<WasiFn>>) -> (r: Option<
    usize,
>)
    requires
        funcs@.len() == left.len(),
        forall|i: int|
            0 <= i < left.len() ==> (#[trigger] funcs@[i]).0@ == wasi::module_name()
                && funcs@[i].1@ == wasi::fn_name(left[i]),
    ensures
        match r {
            Some(p) => p < left.len() && find_wasi(left, import@.module, import@.name, 0) == Some(
                p as int,
            ),
            None => find_wasi(left, import@.module, import@.name, 0) is None,
        },
{
    let mut i: usize = 0;
    while i < funcs.len()
        invariant
            i <= funcs.len(),
            funcs@.len() == left.len(),
            forall|i: int|
                0 <= i < left.len() ==> (#[trigger] funcs@[i]).0@ == wasi::module_name()
                    && funcs@[i].1@ == wasi::fn_name(left[i]),
            find_wasi(left, import@.module, import@.name, 0) == find_wasi(
                left,
                import@.module,
                import@.name,
                i as int,
            ),
        decreases funcs.len() - i,
    {
        if import.module == funcs[i].0.to_string() && import.name == funcs[i].1.to_string() {
            return Some(i);
        }
        i = i + 1;
    }
    None
}

fn position_of_extra(extra: &Vec<HostImport>, import: &Import) -> (r: Option<usize>)
    ensures
        match r {
            Some(p) => p < extra.len() && find_extra(extra@, import@.module, import@.name, 0)
                == Some(p as int),
            None => find_extra(extra@, import@.module, import@.name, 0) is None,
        },
{
    let mut i: usize = 0;
    while i < extra.len()
        invariant
            i <= extra.len(),
            find_extra(extra@, import@.module, import@.name, 0) == find_extra(
                extra@,
                import@.module,
                import@.name,
                i as int,
            ),
        decreases extra.len() - i,
    {
        if extra[i].module == import.module && extra[i].name == import.name {
            return Some(i);
        }
        i = i + 1;
    }
    None
}

/// Finds the functions that the module imports.
pub fn resolve_imports(module: &WasmModule, ctx: Option<WasiCtx>, extra: &Vec<HostImport>) -> (r:
    Result<Vec<Func>, WasmError>)
    ensures
        match plan(module@, offered(ctx), extra@, module@.imports.len()) {
            Err(e) => r == Err::<Vec<Func>, WasmError>(e),
            Ok((ps, _)) => r matches Ok(fs) && all_provided(
                ps,
                ctx,
                extra@,
                types::views(fs@),
            ),
        },
{
    let ghost m = module@;
    let ghost ctx0 = ctx;
    let ghost all = offered(ctx);
    let mut funcs: WasiFuncs = match ctx {
        Some(c) => {
            let fs: WasiFuncs = wasi::build_wasi_imports(c);
            fs
        },
        None => Vec::new(),
    };
    let mut resolved: Vec<Func> = Vec::new();
    let mut k: usize = 0;
    let ghost mut left: Seq<WasiFn> = all;
    let ghost mut ps: Seq<Source> = seq![];
    assert(types::views(resolved@) =~= Seq::<FuncModel>::empty());
    while k < module.imports.len()
        invariant
            k <= module.imports.len(),
            m == module@,
            all == offered(ctx0),
            ctx0 == ctx,
            plan(m, all, extra@, k as nat) == Ok::<_, WasmError>((ps, left)),
            lists(funcs@, left, ctx0),
            all_provided(ps, ctx0, extra@, types::views(resolved@)),
        decreases module.imports.len() - k,
    {
        let import = &module.imports[k];
        proof {
            lemma_plan_err(m, all, extra@, (k + 1) as nat, m.imports.len());
            assert(m.imports[k as int] == import@);
        }
        if let ImportDesc::Func(t) = import.desc {
            if t as usize >= module.types.len() {
                return Err(WasmError::InvalidType);
            }
            let ty: FuncType = module.types[t as usize].clone();
            let f: Func = match position_of(&funcs, import, Ghost(left)) {
                Some(p) => {
                    let (_, _, f) = funcs.remove(p);
                    proof {
                        ps = ps.push(Source::Wasi(left[p as int]));
                        left = left.remove(p as int);
                    }
                    f
                },
                None => match position_of_extra(extra, import) {
                    Some(p) => {
                        proof {
                            ps = ps.push(Source::Extra(p as int, ty@));
                        }
                        extra[p].build_func(ty)
                    },
                    None => {
                        proof {
                            ps = ps.push(Source::Stub(ty@));
                        }
                        stub_func(ty)
                    },
                },
            };
            proof {
                types::lemma_views_push(resolved@, f);
            }
            resolved.push(f);
        }
        k = k + 1;
    }
    Ok(resolved)
}

// ---- The cells ----

/// The cells, each free or occupied.
pub type Cells = Seq<Option<SlotModel>>;

/// A module whose start function has to run before it can be put in its
/// cell.
pub struct PendingLoad {
    pub cell: CellId,
    pub instance: ModuleInstance,
    pub start: Signal,
}

/// The slot of a module that has just been loaded.
pub open spec fn idle_slot(cell: CellId, inst: InstanceModel) -> SlotModel {
    SlotModel { id: cell, instance: inst, status: CellStatus::Idle }
}

/// Whether loading an instance `inst` into a free cell comes to `r` and
/// `after`: without a start function it is put in the cell; otherwise the
/// run of the start function is handed out first.
pub open spec fn placed(
    before: Cells,
    cell: CellId,
    inst: InstanceModel,
    after: Cells,
    r: Result<Option<PendingLoad>, WasmError>,
) -> bool {
    match executor::start_of(inst) {
        None => r matches Ok(None) && after == before.update(
            cell.0 as int,
            Some(idle_slot(cell, inst)),
        ),
        Some(start) => after == before && (r matches Ok(Some(p)) && p.cell == cell
            && p.instance@ == inst && p.start@ == start),
    }
}

/// Whether loading a module with the imported functions `fs` comes to `r` and
/// `after`.
pub open spec fn instantiated(
    before: Cells,
    cell: CellId,
    m: ModuleModel,
    fs: Seq<FuncModel>,
    after: Cells,
    r: Result<Option<PendingLoad>, WasmError>,
) -> bool {
    match instance::instance_of(m, fs) {
        Err(e) => after == before && r == Err::<Option<PendingLoad>, WasmError>(e),
        Ok(inst) => placed(before, cell, inst, after, r),
    }
}

/// Whether loading a binary comes to `r` and `after`: the cell must be free,
/// the binary must parse, its imports must be resolved, and the module must
/// be instantiated; an error leaves the cells as they were.
pub open spec fn load_outcome(
    before: Cells,
    bytes: Seq<u8>,
    cell: CellId,
    ctx: Option<WasiCtx>,
    extra: Seq<HostImport>,
    after: Cells,
    r: Result<Option<PendingLoad>, WasmError>,
) -> bool {
    if before[cell.0 as int] is Some {
        after == before && r == Err::<Option<PendingLoad>, WasmError>(
            WasmError::CellOutOfRange(cell.0),
        )
    } else {
        match decode::module_of(bytes) {
            Err(e) => after == before && r == Err::<Option<PendingLoad>, WasmError>(e),
            Ok(m) => match plan(m, offered(ctx), extra, m.imports.len()) {
                Err(e) => after == before && r == Err::<Option<PendingLoad>, WasmError>(e),
                Ok((ps, _)) => exists|fs: Seq<FuncModel>| #[trigger]
                    all_provided(ps, ctx, extra, fs) && instantiated(
                        before,
                        cell,
                        m,
                        fs,
                        after,
                        r,
                    ),
            },
        }
    }
}

/// The cells with the status of an occupied one changed.
pub open spec fn with_status(cells: Cells, cell: CellId, status: CellStatus) -> Cells {
    cells.update(cell.0 as int, Some(SlotModel { status, ..cells[cell.0 as int]->0 }))
}

/// Starting a call of an export in a cell: the cell is running, or faulted if
/// there is no such export.
pub open spec fn call_begun(cells: Cells, cell: CellId, name: Seq<char>, args: Seq<Value>) -> (
    Cells,
    Result<SignalModel, WasmError>,
) {
    match cells[cell.0 as int] {
        None => (cells, Err(WasmError::CellOutOfRange(cell.0))),
        Some(slot) => match executor::call_of_export(slot.instance, name, args) {
            Ok(s) => (with_status(cells, cell, CellStatus::Running), Ok(s)),
            Err(e) => (with_status(cells, cell, CellStatus::Faulted), Err(e)),
        },
    }
}

/// The status of a cell after a call has come to `r`, and what the caller is
/// told: an exit of the process counts as success without results.
pub open spec fn settled(r: host::Outcome) -> (CellStatus, host::Outcome) {
    match r {
        Ok(v) => (CellStatus::Idle, Ok(v)),
        Err(WasmError::WasiError(WasiErrno::Success)) => (CellStatus::Exited(0), Ok(seq![])),
        Err(e) => (CellStatus::Faulted, Err(e)),
    }
}

fn settle(r: Result<Vec<Value>, WasmError>) -> (s: (CellStatus, Result<Vec<Value>, WasmError>))
    ensures
        (s.0, host::outcome_of(s.1)) == settled(host::outcome_of(r)),
{
    match r {
        Ok(v) => (CellStatus::Idle, Ok(v)),
        Err(WasmError::WasiError(WasiErrno::Success)) => {
            let none: Vec<Value> = Vec::new();
            assert(none@ =~= Seq::<Value>::empty());
            (CellStatus::Exited(0), Ok(none))
        },
        Err(e) => (CellStatus::Faulted, Err(e)),
    }
}

/// How far a call has come.
pub enum Progress {
    /// It has ended.
    Finished(Result<Vec<Value>, WasmError>),
    /// It can go on, waits for a floating-point result, or has come to a
    /// call that cannot be made.
    Paused(Signal),
}

/// Mathematical model of a [`Progress`].
pub enum ProgressModel {
    Finished(host::Outcome),
    Paused(SignalModel),
}

impl View for Progress {
    type V = ProgressModel;

    open spec fn view(&self) -> ProgressModel {
        match *self {
            Progress::Finished(r) => ProgressModel::Finished(host::outcome_of(r)),
            Progress::Paused(s) => ProgressModel::Paused(s@),
        }
    }
}

/// The cells, and what the caller is told, when a call in an occupied cell
/// has come to `end` with the instance at `inst`.
pub open spec fn concluded(cells: Cells, cell: CellId, end: SignalModel, inst: InstanceModel) -> (
    Cells,
    ProgressModel,
) {
    let slot = SlotModel { instance: inst, ..cells[cell.0 as int]->0 };
    match end {
        SignalModel::Done(v) => (
            cells.update(cell.0 as int, Some(SlotModel { status: settled(Ok(v)).0, ..slot })),
            ProgressModel::Finished(settled(Ok(v)).1),
        ),
        SignalModel::Trap(e) => (
            cells.update(cell.0 as int, Some(SlotModel { status: settled(Err(e)).0, ..slot })),
            ProgressModel::Finished(settled(Err(e)).1),
        ),
        other => (cells.update(cell.0 as int, Some(slot)), ProgressModel::Paused(other)),
    }
}

/// Whether loading comes to `r` and `after` when the start function has come
/// to `end` with the instance at `inst`. The cell must still be free when the
/// start function is done.
pub open spec fn load_resumed(
    before: Cells,
    cell: CellId,
    end: SignalModel,
    inst: InstanceModel,
    after: Cells,
    r: Result<Option<PendingLoad>, WasmError>,
) -> bool {
    match end {
        SignalModel::Done(_) => if before[cell.0 as int] is Some {
            r == Err::<Option<PendingLoad>, WasmError>(WasmError::CellOutOfRange(cell.0)) && after
                == before
        } else {
            r matches Ok(None) && after == before.update(cell.0 as int, Some(idle_slot(cell, inst)))
        },
        SignalModel::Trap(e) => r == Err::<Option<PendingLoad>, WasmError>(e) && after == before,
        other => after == before && (r matches Ok(Some(p)) && p.cell == cell && p.instance@ == inst
            && p.start@ == other),
    }
}

/// `len` bytes at `offset` of the first memory of a cell.
pub open spec fn mem_read(cells: Cells, cell: CellId, offset: u32, len: nat) -> Result<
    Seq<u8>,
    WasmError,
> {
    match cells[cell.0 as int] {
        None => Err(WasmError::CellOutOfRange(cell.0)),
        Some(slot) => if slot.instance.memories.len() == 0 || offset + len
            > slot.instance.memories[0].data.len() {
            Err(WasmError::MemoryOutOfBounds)
        } else {
            Ok(slot.instance.memories[0].data.subrange(offset as int, offset + len))
        },
    }
}

/// The cells after writing `data` at `offset` of the first memory of a cell.
pub open spec fn mem_written(cells: Cells, cell: CellId, offset: u32, data: Seq<u8>) -> Result<
    Cells,
    WasmError,
> {
    match cells[cell.0 as int] {
        None => Err(WasmError::CellOutOfRange(cell.0)),
        Some(slot) => {
            let mems = slot.instance.memories;
            if mems.len() == 0 || offset + data.len() > mems[0].data.len() {
                Err(WasmError::MemoryOutOfBounds)
            } else {
                let m = MemoryModel {
                    data: bytes::overwrite(mems[0].data, offset as int, data),
                    ..mems[0]
                };
                let inst = InstanceModel { memories: mems.update(0, m), ..slot.instance };
                Ok(cells.update(cell.0 as int, Some(SlotModel { instance: inst, ..slot })))
            }
        },
    }
}

/// The global that the first export of that name and kind stands for.
pub open spec fn exported_global(exports: Seq<ExportModel>, name: Seq<char>) -> Option<u32>
    decreases exports.len(),
{
    if exports.len() == 0 {
        None
    } else {
        match exports[0].desc {
            ExportDesc::Global(i) if exports[0].name == name => Some(i),
            _ => exported_global(exports.drop_first(), name),
        }
    }
}

/// Where in a cell's memory messages are delivered.
pub const INBOX_BASE: u32 = 0x1000;

/// The arguments of a delivery: the sender and the length of the message.
pub open spec fn delivery_args(from: CellId, len: nat) -> Seq<Value> {
    seq![Value::I32(from.0 as i32), Value::I32(len as i32)]
}

/// Whether the module in an occupied cell exports a function `name`.
pub open spec fn exports_func(cells: Cells, cell: CellId, name: Seq<char>) -> bool {
    executor::exported_func(cells[cell.0 as int]->0.instance.module.exports, name) is Some
}

/// Delivering a message: its body is written to the inbox of the cell, and
/// the cell's `scrappy_recv` is called, if there is one. Without one nothing
/// is called and the status of the cell stays.
pub open spec fn delivered(cells: Cells, to: CellId, from: CellId, body: Seq<u8>) -> (
    Cells,
    Result<Option<SignalModel>, WasmError>,
) {
    match mem_written(cells, to, INBOX_BASE, body) {
        Err(e) => (cells, Err(e)),
        Ok(c) => if exports_func(c, to, "scrappy_recv"@) {
            let (d, r) = call_begun(c, to, "scrappy_recv"@, delivery_args(from, body.len()));
            (d, Ok(Some(r->Ok_0)))
        } else {
            (c, Ok(None))
        },
    }
}

/// The answer that the results of `scrappy_recv` hold.
pub open spec fn answer_in(results: Seq<Value>) -> i32 {
    if results.len() == 0 {
        0
    } else {
        match results[0] {
            Value::I32(v) => v,
            _ => 0,
        }
    }
}

/// The answer that the results of a delivery hold.
pub fn delivery_answer(results: &Vec<Value>) -> (r: i32)
    ensures
        r == answer_in(results@),
{
    if results.len() == 0 {
        return 0;
    }
    match results[0].as_i32() {
        Some(v) => v,
        None => 0,
    }
}

/// The view of the outcome of starting a call.
pub open spec fn begun(r: Result<Signal, WasmError>) -> Result<SignalModel, WasmError> {
    match r {
        Ok(s) => Ok(s@),
        Err(e) => Err(e),
    }
}

/// The view of the outcome of a delivery.
pub open spec fn delivery_begun(r: Result<Option<Signal>, WasmError>) -> Result<
    Option<SignalModel>,
    WasmError,
> {
    match r {
        Ok(s) => Ok(executor::signal_view(s)),
        Err(e) => Err(e),
    }
}

fn find_global(exports: &Vec<Export>, name: &str) -> (r: Option<u32>)
    ensures
        r == exported_global(types::views(exports@), name@),
{
    let wanted: String = name.to_string();
    let mut i: usize = 0;
    let ghost all = types::views(exports@);
    assert(all.subrange(0, all.len() as int) =~= all);
    while i < exports.len()
        invariant
            i <= exports.len(),
            all == types::views(exports@),
            wanted@ == name@,
            exported_global(all, name@) == exported_global(
                all.subrange(i as int, all.len() as int),
                name@,
            ),
        decreases exports.len() - i,
    {
        let e = &exports[i];
        proof {
            let rest = all.subrange(i as int, all.len() as int);
            assert(rest[0] == e@);
            assert(rest.drop_first() =~= all.subrange(i + 1, all.len() as int));
        }
        if let ExportDesc::Global(g) = e.desc {
            if e.name == wanted {
                return Some(g);
            }
        }
        i = i + 1;
    }
    None
}

/// Seven cells for module instances.
pub struct ScrappyWasmRunner {
    cells: [Option<CellSlot>; 7],
}

impl View for ScrappyWasmRunner {
    type V = Cells;

    closed spec fn view(&self) -> Cells {
        Seq::new(
            7,
            |i: int|
                match self.cells[i] {
                    Some(slot) => Some(slot@),
                    None => None,
                },
        )
    }
}

impl ScrappyWasmRunner {
    /// How many cells there are.
    pub const NUM_CELLS: usize = 7;

    /// There are always seven cells.
    pub proof fn law_seven_cells(&self)
        ensures
            self@.len() == 7,
    {
    }

    /// A runner with all cells free.
    pub fn new() -> (r: Self)
        ensures
            r@ == Seq::new(7, |i: int| None::<SlotModel>),
    {
        let r = ScrappyWasmRunner { cells: [None, None, None, None, None, None, None] };
        assert(r@ =~= Seq::new(7, |i: int| None::<SlotModel>));
        r
    }

    /// Puts an instance in a cell.
    fn put(&mut self, cell: CellId, instance: ModuleInstance)
        requires
            cell.0 <= 6,
        ensures
            final(self)@ == old(self)@.update(cell.0 as int, Some(idle_slot(cell, instance@))),
    {
        let slot = CellSlot { id: cell, instance, status: CellStatus::Idle };
        assert(slot@ =~= idle_slot(cell, instance@));
        self.cells[cell.as_usize()] = Some(slot);
        assert(self@ =~= old(self)@.update(cell.0 as int, Some(idle_slot(cell, instance@))));
    }

    /// Loads a binary into a free cell. With `wasi_ctx` the module can import
    /// the system interface; `extra_imports` are looked at after it, and what
    /// is found nowhere becomes a stub. A module with a start function comes
    /// back, to be given to [`Self::resume_load`].
    pub fn load(
        &mut self,
        wasm_bytes: &[u8],
        cell: CellId,
        wasi_ctx: Option<WasiCtx>,
        extra_imports: Vec<HostImport>,
    ) -> (r: Result<Option<PendingLoad>, WasmError>)
        requires
            cell.0 <= 6,
        ensures
            load_outcome(
                old(self)@,
                wasm_bytes@,
                cell,
                wasi_ctx,
                extra_imports@,
                final(self)@,
                r,
            ),
            r matches Ok(Some(p)) ==> p.start.sound(),
    {
        if self.cells[cell.as_usize()].is_some() {
            return Err(WasmError::CellOutOfRange(cell.0));
        }
        let module: WasmModule = decode::parse(wasm_bytes)?;
        let ghost m = module@;
        let resolved: Vec<Func> = resolve_imports(&module, wasi_ctx, &extra_imports)?;
        proof {
            let ps = plan(m, offered(wasi_ctx), extra_imports@, m.imports.len())->Ok_0.0;
            assert(all_provided(ps, wasi_ctx, extra_imports@, types::views(resolved@)));
        }
        let (instance, start) = ModuleInstance::instantiate(module, resolved)?;
        match start {
            None => {
                self.put(cell, instance);
                Ok(None)
            },
            Some(s) => Ok(Some(PendingLoad { cell, instance, start: s })),
        }
    }

    /// Takes the start function of a module on for at most `fuel` steps. When
    /// it is done, the module is put in its cell, if that is still free; while
    /// it is not, the module comes back.
    pub fn resume_load(&mut self, pending: PendingLoad, fuel: u64) -> (r: Result<
        Option<PendingLoad>,
        WasmError,
    >)
        requires
            pending.cell.0 <= 6,
            pending.start.sound(),
        ensures
            exists|end: SignalModel, inst: InstanceModel| #[trigger]
                executor::driven(
                    pending.start@,
                    pending.instance@,
                    fuel as nat,
                    end,
                    inst,
                ) && load_resumed(old(self)@, pending.cell, end, inst, final(self)@, r),
            r matches Ok(Some(p)) ==> p.start.sound() && p.cell == pending.cell,
    {
        let cell: CellId = pending.cell;
        let mut instance: ModuleInstance = pending.instance;
        let now: Signal = instance.drive(pending.start, fuel);
        let ghost end = now@;
        let ghost inst = instance@;
        let r = match now {
            Signal::Done(_) => {
                if self.cells[cell.as_usize()].is_some() {
                    Err(WasmError::CellOutOfRange(cell.0))
                } else {
                    self.put(cell, instance);
                    Ok(None)
                }
            },
            Signal::Trap(e) => Err(e),
            start => Ok(Some(PendingLoad { cell, instance, start })),
        };
        assert(load_resumed(old(self)@, cell, end, inst, self@, r));
        r
    }

    /// Starts a call of an export of the module in a cell.
    pub fn call(&mut self, cell: CellId, func_name: &str, args: &[Value]) -> (r: Result<
        Signal,
        WasmError,
    >)
        requires
            cell.0 <= 6,
        ensures
            (final(self)@, begun(r)) == call_begun(old(self)@, cell, func_name@, args@),
            r matches Ok(s) ==> s.sound(),
    {
        match &mut self.cells[cell.as_usize()] {
            None => Err(WasmError::CellOutOfRange(cell.0)),
            Some(slot) => {
                let r = slot.instance.call_export(func_name, args);
                slot.status = if r.is_ok() {
                    CellStatus::Running
                } else {
                    CellStatus::Faulted
                };
                assert(self@ =~= call_begun(old(self)@, cell, func_name@, args@).0);
                r
            },
        }
    }

    /// Starts a call of `_start`, the entry point of a program.
    pub fn start(&mut self, cell: CellId) -> (r: Result<Signal, WasmError>)
        requires
            cell.0 <= 6,
        ensures
            (final(self)@, begun(r)) == call_begun(old(self)@, cell, "_start"@, seq![]),
            r matches Ok(s) ==> s.sound(),
    {
        let args: Vec<Value> = Vec::new();
        assert(args@ =~= Seq::<Value>::empty());
        self.call(cell, "_start", args.as_slice())
    }

    /// Takes a call in a cell on for at most `fuel` steps. When it has ended,
    /// the cell gets its new status.
    pub fn proceed(&mut self, cell: CellId, signal: Signal, fuel: u64) -> (r: Progress)
        requires
            cell.0 <= 6,
            old(self)@[cell.0 as int] is Some,
            signal.sound(),
        ensures
            exists|end: SignalModel, inst: InstanceModel| #[trigger]
                executor::driven(
                    signal@,
                    old(self)@[cell.0 as int]->0.instance,
                    fuel as nat,
                    end,
                    inst,
                ) && (final(self)@, r@) == concluded(old(self)@, cell, end, inst),
            r matches Progress::Paused(s) ==> s.sound(),
    {
        match &mut self.cells[cell.as_usize()] {
            None => Progress::Paused(signal),
            Some(slot) => {
                let now: Signal = slot.instance.drive(signal, fuel);
                let ghost end = now@;
                let ghost inst = slot.instance@;
                let r: Progress = match now {
                    Signal::Done(v) => {
                        let (status, outcome) = settle(Ok(v));
                        slot.status = status;
                        Progress::Finished(outcome)
                    },
                    Signal::Trap(e) => {
                        let (status, outcome) = settle(Err(e));
                        slot.status = status;
                        Progress::Finished(outcome)
                    },
                    other => Progress::Paused(other),
                };
                assert(self@ =~= concluded(old(self)@, cell, end, inst).0);
                r
            },
        }
    }

    /// Reads bytes of a cell's memory.
    pub fn read_mem(&self, cell: CellId, offset: u32, len: usize) -> (r: Result<
        Vec<u8>,
        WasmError,
    >)
        requires
            cell.0 <= 6,
        ensures
            match mem_read(self@, cell, offset, len as nat) {
                Ok(b) => r matches Ok(v) && v@ == b,
                Err(e) => r == Err::<Vec<u8>, WasmError>(e),
            },
    {
        match &self.cells[cell.as_usize()] {
            None => Err(WasmError::CellOutOfRange(cell.0)),
            Some(slot) => {
                if slot.instance.memories.len() == 0 {
                    return Err(WasmError::MemoryOutOfBounds);
                }
                let data = slot.instance.memories[0].data.as_slice();
                let from: usize = offset as usize;
                if from > data.len() || len > data.len() - from {
                    return Err(WasmError::MemoryOutOfBounds);
                }
                Ok(vstd::slice::slice_to_vec(vstd::slice::slice_subrange(data, from, from + len)))
            },
        }
    }

    /// Writes bytes to a cell's memory.
    pub fn write_mem(&mut self, cell: CellId, offset: u32, data: &[u8]) -> (r: Result<
        (),
        WasmError,
    >)
        requires
            cell.0 <= 6,
        ensures
            match mem_written(old(self)@, cell, offset, data@) {
                Ok(c) => r is Ok && final(self)@ == c,
                Err(e) => r == Err::<(), WasmError>(e) && final(self)@ == old(self)@,
            },
    {
        match &mut self.cells[cell.as_usize()] {
            None => Err(WasmError::CellOutOfRange(cell.0)),
            Some(slot) => {
                if slot.instance.memories.len() == 0 {
                    return Err(WasmError::MemoryOutOfBounds);
                }
                let len: usize = slot.instance.memories[0].data.len();
                let from: usize = offset as usize;
                if from > len || data.len() > len - from {
                    return Err(WasmError::MemoryOutOfBounds);
                }
                let ghost mems = slot.instance.memories@;
                instance::copy_at(&mut slot.instance.memories[0].data, from, data);
                proof {
                    types::lemma_views_update(mems, 0, slot.instance.memories@[0]);
                    assert(slot.instance.memories@ =~= mems.update(
                        0,
                        slot.instance.memories@[0],
                    ));
                    assert(slot@ =~= mem_written(old(self)@, cell, offset, data@)->Ok_0[cell.0 as int]->0);
                    assert(self@ =~= mem_written(old(self)@, cell, offset, data@)->Ok_0);
                }
                Ok(())
            },
        }
    }

    /// Whether reading the exported global `name` of a cell is defined: the
    /// export, if there is one, stands for a global that the module has.
    pub open spec fn global_ok(&self, cell: CellId, name: Seq<char>) -> bool {
        self@[cell.0 as int] matches Some(slot) ==> (exported_global(
            slot.instance.module.exports,
            name,
        ) matches Some(i) ==> i < slot.instance.globals.len())
    }

    /// Whether [`Self::get_global`] can be called.
    pub fn has_global(&self, cell: CellId, name: &str) -> (r: bool)
        requires
            cell.0 <= 6,
        ensures
            r == self.global_ok(cell, name@),
    {
        match &self.cells[cell.as_usize()] {
            None => true,
            Some(slot) => match find_global(&slot.instance.module.exports, name) {
                None => true,
                Some(i) => (i as usize) < slot.instance.globals.len(),
            },
        }
    }

    /// The value of an exported global of a cell.
    pub fn get_global(&self, cell: CellId, name: &str) -> (r: Result<Value, WasmError>)
        requires
            cell.0 <= 6,
            self.global_ok(cell, name@),
        ensures
            r == (match self@[cell.0 as int] {
                None => Err(WasmError::CellOutOfRange(cell.0)),
                Some(slot) => match exported_global(slot.instance.module.exports, name@) {
                    None => Err(WasmError::ExportNotFound),
                    Some(i) => Ok(slot.instance.globals[i as int].value),
                },
            }),
    {
        match &self.cells[cell.as_usize()] {
            None => Err(WasmError::CellOutOfRange(cell.0)),
            Some(slot) => match find_global(&slot.instance.module.exports, name) {
                None => Err(WasmError::ExportNotFound),
                Some(i) => Ok(slot.instance.globals[i as usize].value),
            },
        }
    }

    /// Frees a cell.
    pub fn unload(&mut self, cell: CellId) -> (r: Result<(), WasmError>)
        requires
            cell.0 <= 6,
        ensures
            if old(self)@[cell.0 as int] is Some {
                r is Ok && final(self)@ == old(self)@.update(cell.0 as int, None)
            } else {
                r == Err::<(), WasmError>(WasmError::CellOutOfRange(cell.0)) && final(self)@
                    == old(self)@
            },
    {
        if self.cells[cell.as_usize()].is_none() {
            return Err(WasmError::CellOutOfRange(cell.0));
        }
        self.cells[cell.as_usize()] = None;
        assert(self@ =~= old(self)@.update(cell.0 as int, None));
        Ok(())
    }

    /// The status of a cell, if it is occupied.
    pub fn cell_status(&self, cell: CellId) -> (r: Option<CellStatus>)
        requires
            cell.0 <= 6,
        ensures
            r == (match self@[cell.0 as int] {
                Some(slot) => Some(slot.status),
                None => None,
            }),
    {
        match &self.cells[cell.as_usize()] {
            Some(slot) => Some(slot.status),
            None => None,
        }
    }

    /// Whether a cell is free.
    pub fn is_cell_free(&self, cell: CellId) -> (r: bool)
        requires
            cell.0 <= 6,
        ensures
            r == (self@[cell.0 as int] is None),
    {
        self.cells[cell.as_usize()].is_none()
    }

    /// The first free cell.
    pub fn first_free_cell(&self) -> (r: Option<CellId>)
        ensures
            match r {
                Some(c) => c.0 <= 6 && self@[c.0 as int] is None && forall|i: int|
                    0 <= i < c.0 ==> #[trigger] self@[i] is Some,
                None => forall|i: int| 0 <= i < 7 ==> #[trigger] self@[i] is Some,
            },
    {
        let mut i: u8 = 0;
        while i < 7
            invariant
                i <= 7,
                forall|j: int| 0 <= j < i ==> #[trigger] self@[j] is Some,
            decreases 7 - i,
        {
            if self.cells[i as usize].is_none() {
                return CellId::new(i);
            }
            i = i + 1;
        }
        None
    }

    /// Delivers a message to a cell and starts its `scrappy_recv`, if it has
    /// one; the answer is in the results of that call (see
    /// [`delivery_answer`]). Without one the answer is 0.
    pub fn deliver_email(&mut self, to: CellId, from: CellId, body: &[u8]) -> (r: Result<
        Option<Signal>,
        WasmError,
    >)
        requires
            to.0 <= 6,
        ensures
            (final(self)@, delivery_begun(r)) == delivered(old(self)@, to, from, body@),
            r matches Ok(Some(s)) ==> s.sound(),
    {
        self.write_mem(to, INBOX_BASE, body)?;
        let ghost c = self@;
        let args: Vec<Value> = vec![Value::I32(from.0 as i32), Value::I32(body.len() as i32)];
        assert(args@ =~= delivery_args(from, body@.len()));
        match &mut self.cells[to.as_usize()] {
            None => Err(WasmError::CellOutOfRange(to.0)),
            Some(slot) => match slot.instance.call_export("scrappy_recv", args.as_slice()) {
                Err(_) => {
                    assert(self@ =~= c);
                    Ok(None)
                },
                Ok(s) => {
                    slot.status = CellStatus::Running;
                    assert(self@ =~= with_status(c, to, CellStatus::Running));
                    Ok(Some(s))
                },
            },
        }
    }
}

// ---- Laws ----

/// What was written to a cell's memory is read back, and no other cell is
/// changed.
pub proof fn law_write_then_read(cells: Cells, cell: CellId, offset: u32, data: Seq<u8>)
    requires
        cells.len() == 7,
        cell.0 <= 6,
        mem_written(cells, cell, offset, data) is Ok,
    ensures
        ({
            let after = mem_written(cells, cell, offset, data)->Ok_0;
            &&& mem_read(after, cell, offset, data.len()) == Ok::<Seq<u8>, WasmError>(data)
            &&& forall|j: int| 0 <= j < 7 && j != cell.0 ==> #[trigger] after[j] == cells[j]
        }),
{
    let after = mem_written(cells, cell, offset, data)->Ok_0;
    let m = after[cell.0 as int]->0.instance.memories[0];
    assert(m.data.subrange(offset as int, offset + data.len()) =~= data);
}

/// Bytes outside the range that was written are as before.
pub proof fn law_write_elsewhere(
    cells: Cells,
    cell: CellId,
    offset: u32,
    data: Seq<u8>,
    other: u32,
    len: nat,
)
    requires
        cells.len() == 7,
        cell.0 <= 6,
        mem_written(cells, cell, offset, data) is Ok,
        other + len <= offset || offset + data.len() <= other,
    ensures
        mem_read(mem_written(cells, cell, offset, data)->Ok_0, cell, other, len) == mem_read(
            cells,
            cell,
            other,
            len,
        ),
{
    let after = mem_written(cells, cell, offset, data)->Ok_0;
    let m0 = cells[cell.0 as int]->0.instance.memories[0];
    let m = after[cell.0 as int]->0.instance.memories[0];
    if other + len <= m0.data.len() {
        assert(m.data.subrange(other as int, other + len) =~= m0.data.subrange(
            other as int,
            other + len,
        ));
    }
}

/// A call changes no cell but the one that it is made in.
pub proof fn law_call_keeps_other_cells(
    cells: Cells,
    cell: CellId,
    name: Seq<char>,
    args: Seq<Value>,
    end: SignalModel,
    inst: InstanceModel,
)
    requires
        cells.len() == 7,
        cell.0 <= 6,
    ensures
        forall|j: int|
            0 <= j < 7 && j != cell.0 ==> #[trigger] call_begun(cells, cell, name, args).0[j]
                == cells[j],
        forall|j: int|
            0 <= j < 7 && j != cell.0 ==> #[trigger] concluded(cells, cell, end, inst).0[j]
                == cells[j],
{
}

/// A message that is delivered stands in the inbox of its cell. The cell's
/// `scrappy_recv`, if there is one, is told the sender and the length;
/// otherwise nothing is called and the cell keeps its status. No other cell
/// is changed.
pub proof fn law_delivered(cells: Cells, to: CellId, from: CellId, body: Seq<u8>)
    requires
        cells.len() == 7,
        to.0 <= 6,
        delivered(cells, to, from, body).1 is Ok,
    ensures
        ({
            let (after, r) = delivered(cells, to, from, body);
            let slot = after[to.0 as int];
            &&& mem_read(after, to, INBOX_BASE, body.len()) == Ok::<Seq<u8>, WasmError>(body)
            &&& slot is Some
            &&& match r->Ok_0 {
                Some(s) => {
                    &&& slot->0.status == CellStatus::Running
                    &&& executor::call_of_export(
                        slot->0.instance,
                        "scrappy_recv"@,
                        delivery_args(from, body.len()),
                    ) == Ok::<SignalModel, WasmError>(s)
                },
                None => {
                    &&& !exports_func(cells, to, "scrappy_recv"@)
                    &&& slot->0.status == cells[to.0 as int]->0.status
                },
            }
            &&& forall|j: int| 0 <= j < 7 && j != to.0 ==> #[trigger] after[j] == cells[j]
        }),
{
    law_write_then_read(cells, to, INBOX_BASE, body);
}

/// A delivery fails only where the message cannot be written: if the cell is
/// free, or its memory does not hold the message; nothing is changed then.
pub proof fn law_delivery_fails(cells: Cells, to: CellId, from: CellId, body: Seq<u8>)
    requires
        cells.len() == 7,
        to.0 <= 6,
    ensures
        delivered(cells, to, from, body).1 is Err <==> mem_written(
            cells,
            to,
            INBOX_BASE,
            body,
        ) is Err,
        delivered(cells, to, from, body).1 is Err ==> delivered(cells, to, from, body).0 == cells,
{
}

/// An import with a fixed signature gives one and the same function, with
/// that signature, for every signature that is asked for.
pub proof fn law_simple_import(
    h: HostImport,
    t1: FuncTypeModel,
    f1: FuncModel,
    t2: FuncTypeModel,
    f2: FuncModel,
)
    requires
        h.inner is Simple,
        h.builds(t1, f1),
        h.builds(t2, f2),
    ensures
        f1 == f2,
        f1.ty.params == h.inner->params@,
        f1.ty.results == h.inner->results@,
        f1.kind == (FuncKind::Host { func: HostFunc::Custom(h.inner->f) }),
{
}

/// The function that an import with a fixed signature gives, whatever
/// signature is asked for, behaves as the function that the import was made
/// from.
pub proof fn law_simple_behaves(
    h: HostImport,
    given: Box<dyn HostFunction>,
    ty: FuncTypeModel,
    f: FuncModel,
    args: Seq<Value>,
    before: MemoryModel,
    after: MemoryModel,
    r: host::Outcome,
)
    requires
        h.inner is Simple,
        h.inner->f.inner == given,
        h.builds(ty, f),
    ensures
        f.kind matches FuncKind::Host { func } && func.behaves(args, before, after, r)
            == given.behaves(args, before, after, r),
{
}

/// An import whose function is made by a builder gives what the builder
/// makes.
pub proof fn law_built_import(
    h: HostImport,
    given: Box<dyn HostBuilder>,
    ty: FuncTypeModel,
    f: FuncModel,
)
    requires
        h.inner is Custom,
        h.inner->Custom_0.inner == given,
    ensures
        h.builds(ty, f) == given.builds(ty, f),
{
}

/// A program that exits leaves its cell exited, and the call counts as a
/// success without results, whatever the scheduler answers.
pub proof fn law_exit_is_success(
    cells: Cells,
    cell: CellId,
    ctx: WasiCtx,
    args: Seq<Value>,
    before: MemoryModel,
    after: MemoryModel,
    r: host::Outcome,
    rest: Seq<FrameModel>,
    inst: InstanceModel,
)
    requires
        cells.len() == 7,
        cell.0 <= 6,
        wasi::behaves(WasiFn::ProcExit, ctx, args, before, after, r),
    ensures
        ({
            let (c, p) = concluded(cells, cell, executor::after_host(rest, r), inst);
            &&& p == ProgressModel::Finished(Ok(seq![]))
            &&& c[cell.0 as int] is Some
            &&& c[cell.0 as int]->0.status == CellStatus::Exited(0)
        }),
{
    wasi::law_proc_exit(ctx, args, before, after, r);
}

/// A module without a start function that has been loaded is idle in its
/// cell, no other cell is changed, and the cell can be freed again.
pub proof fn law_loaded(
    before: Cells,
    bytes: Seq<u8>,
    cell: CellId,
    ctx: Option<WasiCtx>,
    extra: Seq<HostImport>,
    after: Cells,
)
    requires
        before.len() == 7,
        cell.0 <= 6,
        load_outcome(
            before,
            bytes,
            cell,
            ctx,
            extra,
            after,
            Ok::<Option<PendingLoad>, WasmError>(None),
        ),
    ensures
        before[cell.0 as int] is None,
        after[cell.0 as int] matches Some(s) && s.status == CellStatus::Idle && s.id == cell,
        after.update(cell.0 as int, None) == before,
{
    assert(after.update(cell.0 as int, None) =~= before);
}

/// Whether function `p` of `left` answers to the import.
pub open spec fn wasi_named(left: Seq<WasiFn>, p: int, module: Seq<char>, name: Seq<char>) -> bool {
    module == "wasi_snapshot_preview1"@ && name == wasi::fn_name(left[p])
}

/// Whether additional import `p` answers to the import.
pub open spec fn extra_named(
    extra: Seq<HostImport>,
    p: int,
    module: Seq<char>,
    name: Seq<char>,
) -> bool {
    extra[p].module@ == module && extra[p].name@ == name
}

proof fn lemma_find_wasi(left: Seq<WasiFn>, module: Seq<char>, name: Seq<char>, from: int)
    requires
        0 <= from,
    ensures
        match find_wasi(left, module, name, from) {
            Some(p) => from <= p < left.len() && wasi_named(left, p, module, name) && forall|j: int|
                from <= j < p ==> !#[trigger] wasi_named(left, j, module, name),
            None => forall|j: int|
                from <= j < left.len() ==> !#[trigger] wasi_named(left, j, module, name),
        },
    decreases left.len() - from,
{
    if from < left.len() {
        lemma_find_wasi(left, module, name, from + 1);
    }
}

proof fn lemma_find_extra(extra: Seq<HostImport>, module: Seq<char>, name: Seq<char>, from: int)
    requires
        0 <= from,
    ensures
        match find_extra(extra, module, name, from) {
            Some(p) => from <= p < extra.len() && extra_named(extra, p, module, name) && forall|
                j: int,
            |
                from <= j < p ==> !#[trigger] extra_named(extra, j, module, name),
            None => forall|j: int|
                from <= j < extra.len() ==> !#[trigger] extra_named(extra, j, module, name),
        },
    decreases extra.len() - from,
{
    if from < extra.len() {
        lemma_find_extra(extra, module, name, from + 1);
    }
}

/// An imported function comes from the system interface, if a function of
/// its name is still to be given out there; otherwise it is made by the first
/// additional import of its name, for the type that the module asks for; and
/// without one it is a stub of that type. A type that does not exist is an
/// error, and what is no function is passed over.
pub proof fn law_import_resolved(
    m: ModuleModel,
    offered: Seq<WasiFn>,
    extra: Seq<HostImport>,
    k: nat,
    p: int,
)
    requires
        k < m.imports.len(),
        plan(m, offered, extra, k) is Ok,
    ensures
        ({
            let (done, left) = plan(m, offered, extra, k)->Ok_0;
            let i = m.imports[k as int];
            let r = plan(m, offered, extra, k + 1);
            match i.desc {
                ImportDesc::Func(t) => {
                    &&& t >= m.types.len() ==> r == Err::<(Seq<Source>, Seq<WasiFn>), WasmError>(
                        WasmError::InvalidType,
                    )
                    &&& t < m.types.len() && 0 <= p < left.len() && wasi_named(
                        left,
                        p,
                        i.module,
                        i.name,
                    ) && (forall|j: int|
                        0 <= j < p ==> !#[trigger] wasi_named(left, j, i.module, i.name)) ==> r
                        == Ok::<(Seq<Source>, Seq<WasiFn>), WasmError>(
                        (done.push(Source::Wasi(left[p])), left.remove(p)),
                    )
                    &&& t < m.types.len() && (forall|j: int|
                        0 <= j < left.len() ==> !#[trigger] wasi_named(
                            left,
                            j,
                            i.module,
                            i.name,
                        )) && 0 <= p < extra.len() && extra_named(extra, p, i.module, i.name) && (
                    forall|j: int|
                        0 <= j < p ==> !#[trigger] extra_named(extra, j, i.module, i.name)) ==> r
                        == Ok::<(Seq<Source>, Seq<WasiFn>), WasmError>(
                        (done.push(Source::Extra(p, m.types[t as int])), left),
                    )
                    &&& t < m.types.len() && (forall|j: int|
                        0 <= j < left.len() ==> !#[trigger] wasi_named(
                            left,
                            j,
                            i.module,
                            i.name,
                        )) && (forall|j: int|
                        0 <= j < extra.len() ==> !#[trigger] extra_named(
                            extra,
                            j,
                            i.module,
                            i.name,
                        )) ==> r == Ok::<(Seq<Source>, Seq<WasiFn>), WasmError>(
                        (done.push(Source::Stub(m.types[t as int])), left),
                    )
                },
                _ => r == Ok::<(Seq<Source>, Seq<WasiFn>), WasmError>((done, left)),
            }
        }),
        plan(m, offered, extra, 0) == Ok::<(Seq<Source>, Seq<WasiFn>), WasmError>(
            (Seq::empty(), offered),
        ),
{
    let (done, left) = plan(m, offered, extra, k)->Ok_0;
    let i = m.imports[k as int];
    lemma_find_wasi(left, i.module, i.name, 0);
    lemma_find_extra(extra, i.module, i.name, 0);
    assert(Seq::<Source>::empty() =~= seq![]);
    if let Some(w) = find_wasi(left, i.module, i.name, 0) {
        assert(wasi_named(left, w, i.module, i.name));
    }
    if let Some(x) = find_extra(extra, i.module, i.name, 0) {
        assert(extra_named(extra, x, i.module, i.name));
    }
}

/// A stub has the type that is asked for. It leaves the memory alone and
/// answers 52 for each of its results.
pub proof fn law_stub(
    ty: FuncTypeModel,
    args: Seq<Value>,
    before: MemoryModel,
    after: MemoryModel,
    r: host::Outcome,
)
    requires
        ty.results.len() <= usize::MAX,
    ensures
        stub_model(ty).ty == ty,
        stub_model(ty).kind matches FuncKind::Host { func } && func.accepts(args) && (func.behaves(
            args,
            before,
            after,
            r,
        ) ==> after == before && (r matches Ok(v) && v.len() == ty.results.len() && forall|i: int|
            0 <= i < v.len() ==> #[trigger] v[i] == Value::I32(52))),
{
}

/// A call of an export that exists leaves its cell running, and one of an
/// export that does not exist leaves it faulted; a free cell is an error.
pub proof fn law_call_begun(cells: Cells, cell: CellId, name: Seq<char>, args: Seq<Value>)
    requires
        cells.len() == 7,
        cell.0 <= 6,
    ensures
        ({
            let (after, r) = call_begun(cells, cell, name, args);
            match cells[cell.0 as int] {
                None => after == cells && r == Err::<SignalModel, WasmError>(
                    WasmError::CellOutOfRange(cell.0),
                ),
                Some(slot) => after[cell.0 as int] matches Some(s) && s.id == slot.id && s.instance
                    == slot.instance && (if executor::exported_func(
                    slot.instance.module.exports,
                    name,
                ) is Some {
                    s.status == CellStatus::Running && r is Ok && r == executor::call_of_export(
                        slot.instance,
                        name,
                        args,
                    )
                } else {
                    s.status == CellStatus::Faulted && r == Err::<SignalModel, WasmError>(
                        WasmError::ExportNotFound,
                    )
                }),
            }
        }),
{
}

/// A call that is done leaves its cell idle and gives its results; one that
/// fails leaves it faulted and gives the error, but an exit counts as done
/// without results; one that is not over changes no status.
pub proof fn law_concluded(
    cells: Cells,
    cell: CellId,
    end: SignalModel,
    inst: InstanceModel,
)
    requires
        cells.len() == 7,
        cell.0 <= 6,
        cells[cell.0 as int] is Some,
    ensures
        ({
            let slot = cells[cell.0 as int]->0;
            let (after, p) = concluded(cells, cell, end, inst);
            after[cell.0 as int] matches Some(s) && s.id == slot.id && s.instance == inst && (
            match end {
                SignalModel::Done(v) => s.status == CellStatus::Idle && p
                    == ProgressModel::Finished(Ok(v)),
                SignalModel::Trap(e) => if e == WasmError::WasiError(WasiErrno::Success) {
                    s.status == CellStatus::Exited(0) && p == ProgressModel::Finished(
                        Ok(Seq::empty()),
                    )
                } else {
                    s.status == CellStatus::Faulted && p == ProgressModel::Finished(Err(e))
                },
                _ => s.status == slot.status && p == ProgressModel::Paused(end),
            })
        }),
{
    assert(Seq::<Value>::empty() =~= seq![]);
}

/// Reading gives the bytes of the first memory of the cell. It fails exactly
/// where the cell is free, has no memory, or the range reaches over its end.
pub proof fn law_read(cells: Cells, cell: CellId, offset: u32, len: nat, i: int)
    requires
        cells.len() == 7,
        cell.0 <= 6,
        0 <= i < len,
    ensures
        match cells[cell.0 as int] {
            None => mem_read(cells, cell, offset, len) == Err::<Seq<u8>, WasmError>(
                WasmError::CellOutOfRange(cell.0),
            ),
            Some(slot) => if slot.instance.memories.len() > 0 && offset + len
                <= slot.instance.memories[0].data.len() {
                mem_read(cells, cell, offset, len) matches Ok(b) && b.len() == len && b[i]
                    == slot.instance.memories[0].data[offset + i]
            } else {
                mem_read(cells, cell, offset, len) == Err::<Seq<u8>, WasmError>(
                    WasmError::MemoryOutOfBounds,
                )
            },
        },
{
}

/// Writing succeeds exactly where reading as many bytes does, and it keeps
/// everything of the cell but the memory.
pub proof fn law_write(cells: Cells, cell: CellId, offset: u32, data: Seq<u8>)
    requires
        cells.len() == 7,
        cell.0 <= 6,
    ensures
        match mem_read(cells, cell, offset, data.len()) {
            Err(e) => mem_written(cells, cell, offset, data) == Err::<Cells, WasmError>(e),
            Ok(_) => mem_written(cells, cell, offset, data) matches Ok(after) && after.len() == 7
                && (after[cell.0 as int] matches Some(s) && s.id == cells[cell.0 as int]->0.id
                && s.status == cells[cell.0 as int]->0.status && s.instance.module
                == cells[cell.0 as int]->0.instance.module && s.instance.funcs
                == cells[cell.0 as int]->0.instance.funcs && s.instance.globals
                == cells[cell.0 as int]->0.instance.globals && s.instance.tables
                == cells[cell.0 as int]->0.instance.tables),
        },
{
}

/// A message is delivered to address 4096, and the receiver is told the
/// address of the sender and the length of the message, in this order.
pub proof fn law_delivery_place(from: CellId, len: nat)
    requires
        len <= i32::MAX,
    ensures
        INBOX_BASE == 4096,
        delivery_args(from, len).len() == 2,
        delivery_args(from, len)[0] matches Value::I32(a) && a == from.0,
        delivery_args(from, len)[1] matches Value::I32(b) && b == len,
{
}

/// The answer to a message is the first result of the receiver, if that is an
/// `i32`, and otherwise 0.
pub proof fn law_answer(results: Seq<Value>, v: i32)
    ensures
        answer_in(seq![Value::I32(v)] + results) == v,
        answer_in(Seq::empty()) == 0,
        results.len() > 0 && !(results[0] is I32) ==> answer_in(results) == 0,
{
}

/// Nothing is loaded into a cell that is occupied, from a binary that does
/// not parse, or from one whose imports cannot be resolved.
pub proof fn law_not_loaded(
    before: Cells,
    bytes: Seq<u8>,
    cell: CellId,
    ctx: Option<WasiCtx>,
    extra: Seq<HostImport>,
    after: Cells,
    r: Result<Option<PendingLoad>, WasmError>,
)
    requires
        before.len() == 7,
        cell.0 <= 6,
        load_outcome(before, bytes, cell, ctx, extra, after, r),
    ensures
        r is Err ==> after == before,
        before[cell.0 as int] is Some ==> r == Err::<Option<PendingLoad>, WasmError>(
            WasmError::CellOutOfRange(cell.0),
        ),
        before[cell.0 as int] is None && decode::module_of(bytes) is Err ==> r == Err::<
            Option<PendingLoad>,
            WasmError,
        >(decode::module_of(bytes)->Err_0),
{
}

/// Whether export `i` is a global of the given name.
pub open spec fn global_named(exports: Seq<ExportModel>, i: int, name: Seq<char>) -> bool {
    exports[i].name == name && exports[i].desc is Global
}

/// A name stands for the global of the first export of that name that is a
/// global; without one it stands for nothing.
pub proof fn law_exported_global(exports: Seq<ExportModel>, name: Seq<char>)
    ensures
        match exported_global(exports, name) {
            Some(g) => exists|i: int|
                0 <= i < exports.len() && #[trigger] global_named(exports, i, name)
                    && exports[i].desc == ExportDesc::Global(g) && forall|j: int|
                    0 <= j < i ==> !#[trigger] global_named(exports, j, name),
            None => forall|i: int|
                0 <= i < exports.len() ==> !#[trigger] global_named(exports, i, name),
        },
    decreases exports.len(),
{
    if exports.len() > 0 && !global_named(exports, 0, name) {
        let rest = exports.drop_first();
        law_exported_global(rest, name);
        assert(forall|j: int| 0 <= j < rest.len() ==> rest[j] == exports[j + 1]);
        assert forall|j: int| 0 < j < exports.len() implies #[trigger] global_named(
            exports,
            j,
            name,
        ) == global_named(rest, j - 1, name) by {}
        if let Some(g) = exported_global(rest, name) {
            let i = choose|i: int|
                0 <= i < rest.len() && #[trigger] global_named(rest, i, name) && rest[i].desc
                    == ExportDesc::Global(g) && forall|j: int|
                    0 <= j < i ==> !#[trigger] global_named(rest, j, name);
            assert(global_named(exports, i + 1, name));
        }
    }
}

/// The functions that a module imports come from their sources one by one: a
/// function of the system interface has its signature and acts in the context
/// that was given, and an additional one is what its import makes for the
/// type that is asked for.
pub proof fn law_provided(
    ps: Seq<Source>,
    ctx: Option<WasiCtx>,
    extra: Seq<HostImport>,
    fs: Seq<FuncModel>,
    i: int,
)
    requires
        all_provided(ps, ctx, extra, fs),
        0 <= i < fs.len(),
    ensures
        fs.len() == ps.len(),
        match ps[i] {
            Source::Wasi(w) => fs[i].ty == wasi::fn_type(w) && (fs[i].kind matches FuncKind::Host {
                func: HostFunc::Wasi { which, ctx: c },
            } && which == w && ctx == Some(*c)),
            Source::Extra(p, ty) => extra[p].builds(ty, fs[i]),
            Source::Stub(ty) => fs[i] == stub_model(ty),
        },
{
}

/// The functions of the system interface are offered exactly where there is a
/// context for them.
pub proof fn law_offered(ctx: Option<WasiCtx>)
    ensures
        ctx is Some ==> offered(ctx) == wasi::all_fns(),
        ctx is None ==> offered(ctx).len() == 0,
{
}

/// A module with a start function is not yet in its cell when it has been
/// loaded: it waits, with its start function about to run. Without one it is
/// in its cell, idle.
pub proof fn law_pending(
    before: Cells,
    cell: CellId,
    m: ModuleModel,
    fs: Seq<FuncModel>,
    inst: InstanceModel,
    after: Cells,
    r: Result<Option<PendingLoad>, WasmError>,
)
    requires
        before.len() == 7,
        cell.0 <= 6,
        instance::instance_of(m, fs) == Ok::<InstanceModel, WasmError>(inst),
        instantiated(before, cell, m, fs, after, r),
    ensures
        forall|j: int| 0 <= j < 7 && j != cell.0 ==> #[trigger] after[j] == before[j],
        m.start is Some ==> after == before && (r matches Ok(Some(p)) && p.cell == cell
            && p.instance@ == inst && executor::start_of(inst) == Some(p.start@)),
        m.start is None ==> (r matches Ok(None)) && (after[cell.0 as int] matches Some(s) && s.id
            == cell && s.instance == inst && s.status == CellStatus::Idle),
{
}

/// When the start function is done, the instance as it left it is put into
/// the cell, idle, if the cell is still free. If the start function fails,
/// its error is the error of the load, and the cells stay as they are.
pub proof fn law_load_resumed(
    before: Cells,
    cell: CellId,
    end: SignalModel,
    inst: InstanceModel,
    after: Cells,
    r: Result<Option<PendingLoad>, WasmError>,
)
    requires
        before.len() == 7,
        cell.0 <= 6,
        load_resumed(before, cell, end, inst, after, r),
    ensures
        forall|j: int| 0 <= j < 7 && j != cell.0 ==> #[trigger] after[j] == before[j],
        end is Done && before[cell.0 as int] is None ==> (r matches Ok(None)) && (
        after[cell.0 as int] matches Some(s) && s.id == cell && s.instance == inst && s.status
            == CellStatus::Idle),
        end is Done && before[cell.0 as int] is Some ==> after == before && r == Err::<
            Option<PendingLoad>,
            WasmError,
        >(WasmError::CellOutOfRange(cell.0)),
        end matches SignalModel::Trap(e) ==> after == before && r == Err::<
            Option<PendingLoad>,
            WasmError,
        >(e),
        !(end is Done) && !(end is Trap) ==> after == before && (r matches Ok(Some(p)) && p.cell
            == cell && p.instance@ == inst && p.start@ == end),
{
}

/// What is loaded is the instance of the module that the binary stands for,
/// with functions from the sources of its imports.
pub proof fn law_loaded_instance(
    before: Cells,
    bytes: Seq<u8>,
    cell: CellId,
    ctx: Option<WasiCtx>,
    extra: Seq<HostImport>,
    after: Cells,
)
    requires
        before.len() == 7,
        cell.0 <= 6,
        load_outcome(
            before,
            bytes,
            cell,
            ctx,
            extra,
            after,
            Ok::<Option<PendingLoad>, WasmError>(None),
        ),
    ensures
        decode::module_of(bytes) is Ok,
        ({
            let m = decode::module_of(bytes)->Ok_0;
            plan(m, offered(ctx), extra, m.imports.len()) matches Ok((ps, _)) && exists|
                fs: Seq<FuncModel>,
            | #[trigger]
                all_provided(ps, ctx, extra, fs) && instance::instance_of(m, fs) == Ok::<
                    InstanceModel,
                    WasmError,
                >(after[cell.0 as int]->0.instance)
        }),
{
    let m = decode::module_of(bytes)->Ok_0;
    let ps = plan(m, offered(ctx), extra, m.imports.len())->Ok_0.0;
    let r = Ok::<Option<PendingLoad>, WasmError>(None);
    let fs = choose|fs: Seq<FuncModel>| #[trigger]
        all_provided(ps, ctx, extra, fs) && instantiated(before, cell, m, fs, after, r);
    assert(all_provided(ps, ctx, extra, fs));
}

} // verus!
