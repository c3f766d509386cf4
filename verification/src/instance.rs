//! Module instances.
use vstd::prelude::*;

use crate::bytes;
use crate::decode;
use crate::decode::{ModuleModel, WasmModule};
use crate::host::HostFunc;
use crate::memory;
use crate::memory::{Memory, MemoryModel, Table};
use crate::types;
use crate::types::{
    DataSegment, DataSegmentModel, ElemSegment, ElemSegmentModel, FuncType, FuncTypeModel,
    GlobalInst, GlobalType, MemType, TableType, Value, WasmError,
};

verus! {

/// Where a function comes from.
pub enum FuncKind {
    /// Defined by the module: type index and index of the body.
    Local { ty_idx: u32, body_idx: usize },
    /// Supplied by the embedder.
    Host { func: HostFunc },
}

/// A function of an instance.
pub struct Func {
    pub ty: FuncType,
    pub kind: FuncKind,
}

/// Mathematical model of a [`Func`].
#[verifier::ext_equal]
pub struct FuncModel {
    pub ty: FuncTypeModel,
    pub kind: FuncKind,
}

impl View for Func {
    type V = FuncModel;

    open spec fn view(&self) -> FuncModel {
        FuncModel { ty: self.ty@, kind: self.kind }
    }
}

/// An instantiated module.
pub struct ModuleInstance {
    pub module: WasmModule,
    pub funcs: Vec<Func>,
    pub tables: Vec<Table>,
    pub memories: Vec<Memory>,
    pub globals: Vec<GlobalInst>,
}

/// Mathematical model of a [`ModuleInstance`].
#[verifier::ext_equal]
pub struct InstanceModel {
    pub module: ModuleModel,
    pub funcs: Seq<FuncModel>,
    pub tables: Seq<Seq<Option<u32>>>,
    pub memories: Seq<MemoryModel>,
    pub globals: Seq<GlobalInst>,
}

impl View for ModuleInstance {
    type V = InstanceModel;

    open spec fn view(&self) -> InstanceModel {
        InstanceModel {
            module: self.module@,
            funcs: types::views(self.funcs@),
            tables: types::views(self.tables@),
            memories: types::views(self.memories@),
            globals: self.globals@,
        }
    }
}

/// The first `k` functions that the module defines.
pub open spec fn local_funcs(m: ModuleModel, k: nat) -> Result<Seq<FuncModel>, WasmError>
    decreases k,
{
    if k == 0 {
        Ok(seq![])
    } else {
        let i = (k - 1) as nat;
        match local_funcs(m, i) {
            Err(e) => Err(e),
            Ok(fs) => if m.funcs[i as int] >= m.types.len() {
                Err(WasmError::InvalidType)
            } else {
                Ok(
                    fs.push(
                        FuncModel {
                            ty: m.types[m.funcs[i as int] as int],
                            kind: FuncKind::Local {
                                ty_idx: m.funcs[i as int],
                                body_idx: i as usize,
                            },
                        },
                    ),
                )
            },
        }
    }
}

/// The first `k` globals with their initial values.
pub open spec fn initial_globals(gs: Seq<(GlobalType, Seq<u8>)>, k: nat) -> Result<
    Seq<GlobalInst>,
    WasmError,
>
    decreases k,
{
    if k == 0 {
        Ok(seq![])
    } else {
        match initial_globals(gs, (k - 1) as nat) {
            Err(e) => Err(e),
            Ok(done) => match decode::const_expr(gs[k - 1].1) {
                Err(e) => Err(e),
                Ok(value) => Ok(done.push(GlobalInst { ty: gs[k - 1].0, value })),
            },
        }
    }
}

/// The value of an offset expression.
pub open spec fn offset_value(expr: Seq<u8>) -> Result<i32, WasmError> {
    match decode::const_expr(expr) {
        Err(e) => Err(e),
        Ok(Value::I32(v)) => Ok(v),
        Ok(_) => Err(WasmError::InvalidType),
    }
}

/// The memories after one data segment has been placed.
pub open spec fn data_placed(mems: Seq<MemoryModel>, seg: DataSegmentModel) -> Result<
    Seq<MemoryModel>,
    WasmError,
> {
    match offset_value(seg.offset) {
        Err(e) => Err(e),
        Ok(v) => {
            let at = v as u32;
            let i = seg.mem_idx as int;
            if i >= mems.len() || at + seg.init.len() > mems[i].data.len() {
                Err(WasmError::MemoryOutOfBounds)
            } else {
                Ok(
                    mems.update(
                        i,
                        MemoryModel {
                            data: bytes::overwrite(mems[i].data, at as int, seg.init),
                            ..mems[i]
                        },
                    ),
                )
            }
        },
    }
}

/// The memories after the first `k` data segments have been placed.
pub open spec fn all_data_placed(mems: Seq<MemoryModel>, segs: Seq<DataSegmentModel>, k: nat) -> Result<
    Seq<MemoryModel>,
    WasmError,
>
    decreases k,
{
    if k == 0 {
        Ok(mems)
    } else {
        match all_data_placed(mems, segs, (k - 1) as nat) {
            Err(e) => Err(e),
            Ok(ms) => data_placed(ms, segs[k - 1]),
        }
    }
}

/// A table with `indices` placed from slot `at` on.
pub open spec fn slots_set(t: Seq<Option<u32>>, at: int, indices: Seq<u32>) -> Seq<Option<u32>> {
    Seq::new(
        t.len(),
        |i: int|
            if at <= i < at + indices.len() {
                Some(indices[i - at])
            } else {
                t[i]
            },
    )
}

/// The tables after one element segment has been placed.
pub open spec fn elems_placed(tables: Seq<Seq<Option<u32>>>, seg: ElemSegmentModel) -> Result<
    Seq<Seq<Option<u32>>>,
    WasmError,
> {
    match offset_value(seg.offset) {
        Err(e) => Err(e),
        Ok(v) => {
            let at = v as usize;
            let i = seg.table_idx as int;
            let n = seg.indices.len();
            if i >= tables.len() || (n > 0 && at + n > tables[i].len()) {
                Err(WasmError::MemoryOutOfBounds)
            } else {
                Ok(tables.update(i, slots_set(tables[i], at as int, seg.indices)))
            }
        },
    }
}

/// The tables after the first `k` element segments have been placed.
pub open spec fn all_elems_placed(
    tables: Seq<Seq<Option<u32>>>,
    segs: Seq<ElemSegmentModel>,
    k: nat,
) -> Result<Seq<Seq<Option<u32>>>, WasmError>
    decreases k,
{
    if k == 0 {
        Ok(tables)
    } else {
        match all_elems_placed(tables, segs, (k - 1) as nat) {
            Err(e) => Err(e),
            Ok(ts) => elems_placed(ts, segs[k - 1]),
        }
    }
}

/// Whether all memories can be addressed on this machine.
pub open spec fn memories_fit(mems: Seq<MemType>) -> bool {
    forall|i: int| 0 <= i < mems.len() ==> memory::addressable(#[trigger] mems[i].0.min as int)
}

/// The memories of a module, before its data segments.
pub open spec fn fresh_memories(m: ModuleModel) -> Seq<MemoryModel> {
    Seq::new(m.mems.len(), |i: int| memory::fresh_memory(m.mems[i].0))
}

/// The tables of a module, before its element segments.
pub open spec fn fresh_tables(m: ModuleModel) -> Seq<Seq<Option<u32>>> {
    Seq::new(m.tables.len(), |i: int| memory::fresh_table(m.tables[i].limits))
}

/// The instance of a module with the imported functions `imports`, before
/// its start function has run.
pub open spec fn instance_of(m: ModuleModel, imports: Seq<FuncModel>) -> Result<
    InstanceModel,
    WasmError,
> {
    match local_funcs(m, m.funcs.len()) {
        Err(e) => Err(e),
        Ok(locals) => if !memories_fit(m.mems) {
            Err(WasmError::MemoryOutOfBounds)
        } else {
            match initial_globals(m.globals, m.globals.len()) {
                Err(e) => Err(e),
                Ok(globals) => match all_data_placed(fresh_memories(m), m.data, m.data.len()) {
                    Err(e) => Err(e),
                    Ok(memories) => match all_elems_placed(
                        fresh_tables(m),
                        m.elems,
                        m.elems.len(),
                    ) {
                        Err(e) => Err(e),
                        Ok(tables) => Ok(
                            InstanceModel {
                                module: m,
                                funcs: imports + locals,
                                tables,
                                memories,
                                globals,
                            },
                        ),
                    },
                },
            }
        },
    }
}

proof fn lemma_local_funcs_err(m: ModuleModel, k: nat, n: nat)
    requires
        k <= n,
    ensures
        local_funcs(m, k) is Err ==> local_funcs(m, n) == local_funcs(m, k),
    decreases n - k,
{
    if k < n {
        lemma_local_funcs_err(m, k, (n - 1) as nat);
    }
}

proof fn lemma_globals_err(gs: Seq<(GlobalType, Seq<u8>)>, k: nat, n: nat)
    requires
        k <= n,
    ensures
        initial_globals(gs, k) is Err ==> initial_globals(gs, n) == initial_globals(gs, k),
    decreases n - k,
{
    if k < n {
        lemma_globals_err(gs, k, (n - 1) as nat);
    }
}

proof fn lemma_data_err(mems: Seq<MemoryModel>, segs: Seq<DataSegmentModel>, k: nat, n: nat)
    requires
        k <= n,
    ensures
        all_data_placed(mems, segs, k) is Err ==> all_data_placed(mems, segs, n)
            == all_data_placed(mems, segs, k),
    decreases n - k,
{
    if k < n {
        lemma_data_err(mems, segs, k, (n - 1) as nat);
    }
}

proof fn lemma_elems_err(
    tables: Seq<Seq<Option<u32>>>,
    segs: Seq<ElemSegmentModel>,
    k: nat,
    n: nat,
)
    requires
        k <= n,
    ensures
        all_elems_placed(tables, segs, k) is Err ==> all_elems_placed(tables, segs, n)
            == all_elems_placed(tables, segs, k),
    decreases n - k,
{
    if k < n {
        lemma_elems_err(tables, segs, k, (n - 1) as nat);
    }
}

/// Appends the functions that the module defines.
fn push_local_funcs(module: &WasmModule, funcs: &mut Vec<Func>) -> (r: Result<(), WasmError>)
    ensures
        match local_funcs(module@, module@.funcs.len()) {
            Ok(fs) => r is Ok && types::views(final(funcs)@) == types::views(old(funcs)@) + fs,
            Err(e) => r == Err::<(), WasmError>(e),
        },
{
    let mut i: usize = 0;
    let ghost m = module@;
    let ghost before = types::views(funcs@);
    proof {
        assert(before + Seq::<FuncModel>::empty() =~= before);
    }
    while i < module.funcs.len()
        invariant
            i <= module.funcs.len(),
            m == module@,
            before == types::views(old(funcs)@),
            local_funcs(m, i as nat) is Ok,
            types::views(funcs@) == before + local_funcs(m, i as nat)->Ok_0,
        decreases module.funcs.len() - i,
    {
        proof {
            lemma_local_funcs_err(m, (i + 1) as nat, m.funcs.len());
        }
        let ty_idx: u32 = module.funcs[i];
        if ty_idx as usize >= module.types.len() {
            return Err(WasmError::InvalidType);
        }
        let ty: FuncType = module.types[ty_idx as usize].clone();
        let f = Func { ty, kind: FuncKind::Local { ty_idx, body_idx: i } };
        proof {
            types::lemma_views_push(funcs@, f);
            let fs = local_funcs(m, i as nat)->Ok_0;
            assert((before + fs).push(f@) =~= before + fs.push(f@));
        }
        funcs.push(f);
        i = i + 1;
    }
    Ok(())
}

fn make_tables(types_: &Vec<TableType>) -> (r: Vec<Table>)
    ensures
        types::views(r@) == Seq::new(
            types_@.len(),
            |i: int| memory::fresh_table(types_@[i].limits),
        ),
{
    let mut v: Vec<Table> = Vec::new();
    let mut i: usize = 0;
    while i < types_.len()
        invariant
            i <= types_.len(),
            v.len() == i,
            forall|j: int| 0 <= j < i ==> (#[trigger] v@[j])@ == memory::fresh_table(types_@[j].limits),
        decreases types_.len() - i,
    {
        v.push(Table::new(&types_[i].limits));
        i = i + 1;
    }
    assert(types::views(v@) =~= Seq::new(
        types_@.len(),
        |i: int| memory::fresh_table(types_@[i].limits),
    ));
    v
}

fn make_memories(mems: &Vec<MemType>) -> (r: Result<Vec<Memory>, WasmError>)
    ensures
        memories_fit(mems@) ==> r is Ok,
        !memories_fit(mems@) ==> r == Err::<Vec<Memory>, WasmError>(WasmError::MemoryOutOfBounds),
        r matches Ok(v) ==> types::views(v@) == Seq::new(
            mems@.len(),
            |i: int| memory::fresh_memory(mems@[i].0),
        ),
{
    let mut v: Vec<Memory> = Vec::new();
    let mut i: usize = 0;
    while i < mems.len()
        invariant
            i <= mems.len(),
            v.len() == i,
            forall|j: int|
                0 <= j < i ==> memory::addressable(#[trigger] mems@[j].0.min as int) && v@[j]@
                    == memory::fresh_memory(mems@[j].0),
        decreases mems.len() - i,
    {
        if mems[i].0.min as usize > usize::MAX / memory::PAGE_SIZE {
            assert(!memory::addressable(mems@[i as int].0.min as int));
            return Err(WasmError::MemoryOutOfBounds);
        }
        v.push(Memory::new(&mems[i].0));
        i = i + 1;
    }
    assert(types::views(v@) =~= Seq::new(
        mems@.len(),
        |i: int| memory::fresh_memory(mems@[i].0),
    ));
    Ok(v)
}

fn make_globals(gs: &Vec<(GlobalType, Vec<u8>)>) -> (r: Result<Vec<GlobalInst>, WasmError>)
    ensures
        match initial_globals(types::views(gs@), gs@.len()) {
            Ok(v) => r matches Ok(w) && w@ == v,
            Err(e) => r == Err::<Vec<GlobalInst>, WasmError>(e),
        },
{
    let mut v: Vec<GlobalInst> = Vec::new();
    let mut i: usize = 0;
    let ghost m = types::views(gs@);
    while i < gs.len()
        invariant
            i <= gs.len(),
            m == types::views(gs@),
            initial_globals(m, i as nat) == Ok::<_, WasmError>(v@),
        decreases gs.len() - i,
    {
        proof {
            lemma_globals_err(m, (i + 1) as nat, m.len());
        }
        let value: Value = decode::eval_const_expr(gs[i].1.as_slice())?;
        v.push(GlobalInst { ty: gs[i].0, value });
        i = i + 1;
    }
    Ok(v)
}

fn eval_offset(expr: &Vec<u8>) -> (r: Result<i32, WasmError>)
    ensures
        r == offset_value(expr@),
{
    match decode::eval_const_expr(expr.as_slice())?.as_i32() {
        Some(v) => Ok(v),
        None => Err(WasmError::InvalidType),
    }
}

/// Copies `src` over the bytes of `data` from `at` on.
pub fn copy_at(data: &mut Vec<u8>, at: usize, src: &[u8])
    requires
        at + src.len() <= old(data).len(),
    ensures
        final(data)@ == bytes::overwrite(old(data)@, at as int, src@),
{
    let mut i: usize = 0;
    while i < src.len()
        invariant
            i <= src.len(),
            at + src.len() <= data.len(),
            data.len() == old(data).len(),
            data@ == bytes::overwrite(old(data)@, at as int, src@.subrange(0, i as int)),
        decreases src.len() - i,
    {
        data.set(at + i, src[i]);
        i = i + 1;
        assert(data@ =~= bytes::overwrite(old(data)@, at as int, src@.subrange(0, i as int)));
    }
    assert(src@.subrange(0, i as int) =~= src@);
}

fn place_data(mems: &mut Vec<Memory>, seg: &DataSegment) -> (r: Result<(), WasmError>)
    ensures
        match data_placed(types::views(old(mems)@), seg@) {
            Ok(ms) => r is Ok && types::views(final(mems)@) == ms,
            Err(e) => r == Err::<(), WasmError>(e),
        },
{
    let at: usize = eval_offset(&seg.offset)? as u32 as usize;
    let i: usize = seg.mem_idx as usize;
    if i >= mems.len() {
        return Err(WasmError::MemoryOutOfBounds);
    }
    let len: usize = mems[i].data.len();
    if at > len || seg.init.len() > len - at {
        return Err(WasmError::MemoryOutOfBounds);
    }
    copy_at(&mut mems[i].data, at, seg.init.as_slice());
    proof {
        types::lemma_views_update(old(mems)@, i as int, mems@[i as int]);
        assert(mems@ =~= old(mems)@.update(i as int, mems@[i as int]));
        assert(types::views(mems@) =~= data_placed(types::views(old(mems)@), seg@)->Ok_0);
    }
    Ok(())
}

fn set_slots(t: &mut Vec<Option<u32>>, at: usize, indices: &Vec<u32>) -> (r: Result<(), WasmError>)
    ensures
        if indices.len() > 0 && at + indices.len() > old(t).len() {
            r == Err::<(), WasmError>(WasmError::MemoryOutOfBounds)
        } else {
            r is Ok && final(t)@ == slots_set(old(t)@, at as int, indices@)
        },
{
    let mut j: usize = 0;
    while j < indices.len()
        invariant
            j <= indices.len(),
            t.len() == old(t).len(),
            j > 0 ==> at + j <= t.len(),
            t@ == slots_set(old(t)@, at as int, indices@.subrange(0, j as int)),
        decreases indices.len() - j,
    {
        if j > usize::MAX - at || at + j >= t.len() {
            return Err(WasmError::MemoryOutOfBounds);
        }
        t.set(at + j, Some(indices[j]));
        j = j + 1;
        assert(t@ =~= slots_set(old(t)@, at as int, indices@.subrange(0, j as int)));
    }
    assert(indices@.subrange(0, j as int) =~= indices@);
    Ok(())
}

fn place_elems(tables: &mut Vec<Table>, seg: &ElemSegment) -> (r: Result<(), WasmError>)
    ensures
        match elems_placed(types::views(old(tables)@), seg@) {
            Ok(ts) => r is Ok && types::views(final(tables)@) == ts,
            Err(e) => r == Err::<(), WasmError>(e),
        },
{
    let at: usize = eval_offset(&seg.offset)? as usize;
    let i: usize = seg.table_idx as usize;
    if i >= tables.len() {
        return Err(WasmError::MemoryOutOfBounds);
    }
    set_slots(&mut tables[i].elems, at, &seg.indices)?;
    proof {
        types::lemma_views_update(old(tables)@, i as int, tables@[i as int]);
        assert(tables@ =~= old(tables)@.update(i as int, tables@[i as int]));
        assert(types::views(tables@) =~= elems_placed(types::views(old(tables)@), seg@)->Ok_0);
    }
    Ok(())
}

/// Builds the instance of a module, with the imported functions first, up to
/// the point where the start function would run.
pub fn build_instance(module: WasmModule, imports: Vec<Func>) -> (r: Result<
    ModuleInstance,
    WasmError,
>)
    ensures
        match instance_of(module@, types::views(imports@)) {
            Ok(m) => r matches Ok(i) && i@ == m,
            Err(e) => r == Err::<ModuleInstance, WasmError>(e),
        },
{
    let mut funcs: Vec<Func> = imports;
    push_local_funcs(&module, &mut funcs)?;
    let mut tables: Vec<Table> = make_tables(&module.tables);
    let mut memories: Vec<Memory> = make_memories(&module.mems)?;
    let globals: Vec<GlobalInst> = make_globals(&module.globals)?;
    let ghost m = module@;
    let mut i: usize = 0;
    while i < module.data.len()
        invariant
            i <= module.data.len(),
            m == module@,
            all_data_placed(fresh_memories(m), m.data, i as nat) == Ok::<_, WasmError>(
                types::views(memories@),
            ),
            local_funcs(m, m.funcs.len()) is Ok,
            memories_fit(m.mems),
            initial_globals(m.globals, m.globals.len()) is Ok,
        decreases module.data.len() - i,
    {
        proof {
            lemma_data_err(fresh_memories(m), m.data, (i + 1) as nat, m.data.len());
        }
        place_data(&mut memories, &module.data[i])?;
        i = i + 1;
    }
    let mut j: usize = 0;
    while j < module.elems.len()
        invariant
            j <= module.elems.len(),
            m == module@,
            all_elems_placed(fresh_tables(m), m.elems, j as nat) == Ok::<_, WasmError>(
                types::views(tables@),
            ),
            local_funcs(m, m.funcs.len()) is Ok,
            memories_fit(m.mems),
            initial_globals(m.globals, m.globals.len()) is Ok,
            all_data_placed(fresh_memories(m), m.data, m.data.len()) is Ok,
        decreases module.elems.len() - j,
    {
        proof {
            lemma_elems_err(fresh_tables(m), m.elems, (j + 1) as nat, m.elems.len());
        }
        place_elems(&mut tables, &module.elems[j])?;
        j = j + 1;
    }
    Ok(ModuleInstance { module, funcs, tables, memories, globals })
}

} // verus!
