//! What an instance is made of, and what its exports and its start function
//! come to.
use vstd::prelude::*;

use crate::decode;
use crate::decode::ModuleModel;
use crate::encode;
use crate::executor;
use crate::executor::SignalModel;
use crate::frame::FrameModel;
use crate::instance;
use crate::instance::{FuncKind, FuncModel, InstanceModel};
use crate::instr::{Instr, InstrModel};
use crate::leb;
use crate::memory::MemoryModel;
use crate::semantics;
use crate::types::{
    DataSegmentModel, ElemSegmentModel, ExportDesc, ExportModel, GlobalType, ValType, Value,
    WasmError,
};

verus! {

// ---- Constant expressions ----

/// An expression that starts with the encoding of a constant instruction has
/// the value of that constant.
pub proof fn law_constant(d: Seq<u8>, a: i32, b: i64, c: u32, e: u64)
    ensures
        leb::stands_at(d, 0, encode::encoded(InstrModel::Plain(Instr::I32Const(a))))
            ==> decode::const_expr(d) == Ok::<Value, WasmError>(Value::I32(a)),
        leb::stands_at(d, 0, encode::encoded(InstrModel::Plain(Instr::I64Const(b))))
            ==> decode::const_expr(d) == Ok::<Value, WasmError>(Value::I64(b)),
        leb::stands_at(d, 0, encode::encoded(InstrModel::Plain(Instr::F32Const(c))))
            ==> decode::const_expr(d) == Ok::<Value, WasmError>(Value::F32(c)),
        leb::stands_at(d, 0, encode::encoded(InstrModel::Plain(Instr::F64Const(e))))
            ==> decode::const_expr(d) == Ok::<Value, WasmError>(Value::F64(e)),
{
    if leb::stands_at(d, 0, encode::encoded(InstrModel::Plain(Instr::I32Const(a)))) {
        encode::law_decoding_undoes_encoding(d, 0, InstrModel::Plain(Instr::I32Const(a)));
        encode::lemma_starts_with(d, 0, 0x41, leb::signed_leb(a as int));
    }
    if leb::stands_at(d, 0, encode::encoded(InstrModel::Plain(Instr::I64Const(b)))) {
        encode::law_decoding_undoes_encoding(d, 0, InstrModel::Plain(Instr::I64Const(b)));
        encode::lemma_starts_with(d, 0, 0x42, leb::signed_leb(b as int));
    }
    if leb::stands_at(d, 0, encode::encoded(InstrModel::Plain(Instr::F32Const(c)))) {
        encode::law_decoding_undoes_encoding(d, 0, InstrModel::Plain(Instr::F32Const(c)));
        encode::lemma_starts_with(
            d,
            0,
            0x43,
            encode::operand_bytes(Instr::F32Const(c)),
        );
    }
    if leb::stands_at(d, 0, encode::encoded(InstrModel::Plain(Instr::F64Const(e)))) {
        encode::law_decoding_undoes_encoding(d, 0, InstrModel::Plain(Instr::F64Const(e)));
        encode::lemma_starts_with(
            d,
            0,
            0x44,
            encode::operand_bytes(Instr::F64Const(e)),
        );
    }
}

/// An expression that starts otherwise has no value.
pub proof fn law_no_constant(d: Seq<u8>)
    ensures
        d.len() == 0 ==> decode::const_expr(d) == Err::<Value, WasmError>(WasmError::UnexpectedEof),
        d.len() > 0 && !(0x41 <= d[0] <= 0x44) ==> decode::const_expr(d) == Err::<
            Value,
            WasmError,
        >(WasmError::InvalidOpcode(d[0])),
{
}

// ---- Instances ----

proof fn lemma_local_funcs(m: ModuleModel, k: nat)
    requires
        k <= m.funcs.len(),
    ensures
        match instance::local_funcs(m, k) {
            Ok(fs) => fs.len() == k && forall|j: int|
                0 <= j < k ==> m.funcs[j] < m.types.len() && (#[trigger] fs[j]).ty
                    == m.types[m.funcs[j] as int] && fs[j].kind == (FuncKind::Local {
                    ty_idx: m.funcs[j],
                    body_idx: j as usize,
                }),
            Err(e) => e == WasmError::InvalidType && exists|j: int|
                0 <= j < k && #[trigger] m.funcs[j] >= m.types.len(),
        },
    decreases k,
{
    if k > 0 {
        lemma_local_funcs(m, (k - 1) as nat);
    }
}

proof fn lemma_globals(gs: Seq<(GlobalType, Seq<u8>)>, k: nat)
    requires
        k <= gs.len(),
    ensures
        instance::initial_globals(gs, k) matches Ok(done) ==> done.len() == k && forall|j: int|
            0 <= j < k ==> (#[trigger] done[j]).ty == gs[j].0 && decode::const_expr(gs[j].1) == Ok::<
                Value,
                WasmError,
            >(done[j].value),
    decreases k,
{
    if k > 0 {
        lemma_globals(gs, (k - 1) as nat);
    }
}

proof fn lemma_data_keeps_size(mems: Seq<MemoryModel>, segs: Seq<DataSegmentModel>, k: nat)
    ensures
        instance::all_data_placed(mems, segs, k) matches Ok(ms) ==> ms.len() == mems.len()
            && forall|i: int|
            0 <= i < mems.len() ==> (#[trigger] ms[i]).data.len() == mems[i].data.len() && ms[i].max
                == mems[i].max,
    decreases k,
{
    if k > 0 {
        lemma_data_keeps_size(mems, segs, (k - 1) as nat);
    }
}

proof fn lemma_elems_keep_size(tables: Seq<Seq<Option<u32>>>, segs: Seq<ElemSegmentModel>, k: nat)
    ensures
        instance::all_elems_placed(tables, segs, k) matches Ok(ts) ==> ts.len() == tables.len()
            && forall|i: int|
            0 <= i < tables.len() ==> (#[trigger] ts[i]).len() == tables[i].len(),
    decreases k,
{
    if k > 0 {
        lemma_elems_keep_size(tables, segs, (k - 1) as nat);
    }
}

/// The functions of an instance are the imported ones, in order, and then
/// those that the module defines: each has the type that the module gives it
/// and the body of the same number.
pub proof fn law_functions(m: ModuleModel, imports: Seq<FuncModel>, i: int, j: int)
    requires
        instance::instance_of(m, imports) is Ok,
    ensures
        ({
            let inst = instance::instance_of(m, imports)->Ok_0;
            &&& inst.module == m
            &&& inst.funcs.len() == imports.len() + m.funcs.len()
            &&& 0 <= i < imports.len() ==> inst.funcs[i] == imports[i]
            &&& 0 <= j < m.funcs.len() ==> m.funcs[j] < m.types.len() && inst.funcs[imports.len()
                + j].ty == m.types[m.funcs[j] as int] && inst.funcs[imports.len() + j].kind == (
            FuncKind::Local { ty_idx: m.funcs[j], body_idx: j as usize })
        }),
{
    lemma_local_funcs(m, m.funcs.len());
}

/// A function whose type does not exist is an error.
pub proof fn law_missing_type(m: ModuleModel, imports: Seq<FuncModel>, j: int)
    requires
        0 <= j < m.funcs.len(),
        m.funcs[j] >= m.types.len(),
    ensures
        instance::instance_of(m, imports) == Err::<InstanceModel, WasmError>(
            WasmError::InvalidType,
        ),
{
    lemma_local_funcs(m, m.funcs.len());
    if let Ok(fs) = instance::local_funcs(m, m.funcs.len()) {
        assert(fs[j].ty == m.types[m.funcs[j] as int]);
    }
}

/// Each global of an instance has the type that the module gives it and the
/// value of its expression.
pub proof fn law_globals(m: ModuleModel, imports: Seq<FuncModel>, j: int)
    requires
        instance::instance_of(m, imports) is Ok,
    ensures
        ({
            let inst = instance::instance_of(m, imports)->Ok_0;
            &&& inst.globals.len() == m.globals.len()
            &&& 0 <= j < m.globals.len() ==> inst.globals[j].ty == m.globals[j].0
                && decode::const_expr(m.globals[j].1) == Ok::<Value, WasmError>(
                inst.globals[j].value,
            )
        }),
{
    lemma_globals(m.globals, m.globals.len());
}

/// Each memory and each table of an instance has its minimum size, and each
/// memory its maximum.
pub proof fn law_sizes(m: ModuleModel, imports: Seq<FuncModel>, i: int)
    requires
        instance::instance_of(m, imports) is Ok,
    ensures
        ({
            let inst = instance::instance_of(m, imports)->Ok_0;
            &&& inst.memories.len() == m.mems.len()
            &&& inst.tables.len() == m.tables.len()
            &&& 0 <= i < m.mems.len() ==> inst.memories[i].data.len() == m.mems[i].0.min * 65536
                && inst.memories[i].max == m.mems[i].0.max
            &&& 0 <= i < m.tables.len() ==> inst.tables[i].len() == m.tables[i].limits.min
        }),
{
    lemma_data_keeps_size(instance::fresh_memories(m), m.data, m.data.len());
    lemma_elems_keep_size(instance::fresh_tables(m), m.elems, m.elems.len());
}

/// A memory without data segments is zero, and a table without element
/// segments has no slot set.
pub proof fn law_fresh(m: ModuleModel, imports: Seq<FuncModel>, i: int, k: int)
    requires
        instance::instance_of(m, imports) is Ok,
    ensures
        ({
            let inst = instance::instance_of(m, imports)->Ok_0;
            &&& m.data.len() == 0 && 0 <= i < m.mems.len() && 0 <= k < m.mems[i].0.min * 65536
                ==> inst.memories[i].data[k] == 0
            &&& m.elems.len() == 0 && 0 <= i < m.tables.len() && 0 <= k < m.tables[i].limits.min
                ==> inst.tables[i][k] is None
        }),
{
}

/// Whether `after` is `before` with `init` written at `at` of memory `i`, and
/// nothing else changed.
pub open spec fn data_at(
    before: Seq<MemoryModel>,
    after: Seq<MemoryModel>,
    i: int,
    at: int,
    init: Seq<u8>,
) -> bool {
    &&& after.len() == before.len()
    &&& forall|j: int| 0 <= j < before.len() && j != i ==> #[trigger] after[j] == before[j]
    &&& after[i].max == before[i].max
    &&& after[i].data.len() == before[i].data.len()
    &&& after[i].data.subrange(at, at + init.len()) == init
    &&& forall|k: int|
        0 <= k < before[i].data.len() && !(at <= k < at + init.len())
            ==> #[trigger] after[i].data[k] == before[i].data[k]
}

/// The data segments are written in order, each at its offset, which is an
/// unsigned number; one that does not fit is an error.
pub proof fn law_data_segment(
    mems: Seq<MemoryModel>,
    segs: Seq<DataSegmentModel>,
    seg: DataSegmentModel,
    v: i32,
)
    requires
        decode::const_expr(seg.offset) == Ok::<Value, WasmError>(Value::I32(v)),
        instance::all_data_placed(mems, segs, segs.len()) is Ok,
    ensures
        ({
            let before = instance::all_data_placed(mems, segs, segs.len())->Ok_0;
            let at = semantics::unsigned32(v);
            let all = segs.push(seg);
            let r = instance::all_data_placed(mems, all, all.len());
            if seg.mem_idx < before.len() && at + seg.init.len()
                <= before[seg.mem_idx as int].data.len() {
                r matches Ok(after) && data_at(before, after, seg.mem_idx as int, at, seg.init)
            } else {
                r == Err::<Seq<MemoryModel>, WasmError>(WasmError::MemoryOutOfBounds)
            }
        }),
        instance::all_data_placed(mems, Seq::empty(), 0) == Ok::<Seq<MemoryModel>, WasmError>(mems),
{
    semantics::lemma_words32(v, 0);
    let all = segs.push(seg);
    lemma_data_prefix(mems, segs, seg, segs.len());
    assert(all[all.len() - 1] == seg);
    let before = instance::all_data_placed(mems, segs, segs.len())->Ok_0;
    let at = semantics::unsigned32(v);
    let i = seg.mem_idx as int;
    if i < before.len() && at + seg.init.len() <= before[i].data.len() {
        let after = instance::all_data_placed(mems, all, all.len())->Ok_0;
        assert(after[i].data.subrange(at, at + seg.init.len()) =~= seg.init);
    }
}

proof fn lemma_data_prefix(
    mems: Seq<MemoryModel>,
    segs: Seq<DataSegmentModel>,
    seg: DataSegmentModel,
    k: nat,
)
    requires
        k <= segs.len(),
    ensures
        instance::all_data_placed(mems, segs.push(seg), k) == instance::all_data_placed(
            mems,
            segs,
            k,
        ),
    decreases k,
{
    if k > 0 {
        lemma_data_prefix(mems, segs, seg, (k - 1) as nat);
        assert(segs.push(seg)[k - 1] == segs[k - 1]);
    }
}

/// Whether `after` is `before` with `funcs` in the slots from `at` on of
/// table `i`, and nothing else changed.
pub open spec fn slots_at(
    before: Seq<Seq<Option<u32>>>,
    after: Seq<Seq<Option<u32>>>,
    i: int,
    at: int,
    funcs: Seq<u32>,
) -> bool {
    &&& after.len() == before.len()
    &&& forall|j: int| 0 <= j < before.len() && j != i ==> #[trigger] after[j] == before[j]
    &&& after[i].len() == before[i].len()
    &&& forall|k: int| 0 <= k < funcs.len() ==> after[i][at + k] == Some(#[trigger] funcs[k])
    &&& forall|k: int|
        0 <= k < before[i].len() && !(at <= k < at + funcs.len()) ==> #[trigger] after[i][k]
            == before[i][k]
}

/// The element segments are placed in order, each from its offset on; one
/// that does not fit is an error.
pub proof fn law_elem_segment(
    tables: Seq<Seq<Option<u32>>>,
    segs: Seq<ElemSegmentModel>,
    seg: ElemSegmentModel,
    v: i32,
)
    requires
        decode::const_expr(seg.offset) == Ok::<Value, WasmError>(Value::I32(v)),
        v >= 0,
        seg.indices.len() > 0,
        instance::all_elems_placed(tables, segs, segs.len()) is Ok,
    ensures
        ({
            let before = instance::all_elems_placed(tables, segs, segs.len())->Ok_0;
            let all = segs.push(seg);
            let r = instance::all_elems_placed(tables, all, all.len());
            if seg.table_idx < before.len() && v + seg.indices.len()
                <= before[seg.table_idx as int].len() {
                r matches Ok(after) && slots_at(
                    before,
                    after,
                    seg.table_idx as int,
                    v as int,
                    seg.indices,
                )
            } else {
                r == Err::<Seq<Seq<Option<u32>>>, WasmError>(WasmError::MemoryOutOfBounds)
            }
        }),
        instance::all_elems_placed(tables, Seq::empty(), 0) == Ok::<
            Seq<Seq<Option<u32>>>,
            WasmError,
        >(tables),
{
    let all = segs.push(seg);
    lemma_elems_prefix(tables, segs, seg, segs.len());
    assert(all[all.len() - 1] == seg);
}

proof fn lemma_elems_prefix(
    tables: Seq<Seq<Option<u32>>>,
    segs: Seq<ElemSegmentModel>,
    seg: ElemSegmentModel,
    k: nat,
)
    requires
        k <= segs.len(),
    ensures
        instance::all_elems_placed(tables, segs.push(seg), k) == instance::all_elems_placed(
            tables,
            segs,
            k,
        ),
    decreases k,
{
    if k > 0 {
        lemma_elems_prefix(tables, segs, seg, (k - 1) as nat);
        assert(segs.push(seg)[k - 1] == segs[k - 1]);
    }
}

// ---- Exports and the start function ----

/// Whether export `i` is a function of the given name.
pub open spec fn func_named(exports: Seq<ExportModel>, i: int, name: Seq<char>) -> bool {
    exports[i].name == name && exports[i].desc is Func
}

/// A name stands for the function of the first export of that name that is a
/// function; without one it stands for nothing.
pub proof fn law_export(exports: Seq<ExportModel>, name: Seq<char>)
    ensures
        match executor::exported_func(exports, name) {
            Some(f) => exists|i: int|
                0 <= i < exports.len() && #[trigger] func_named(exports, i, name)
                    && exports[i].desc == ExportDesc::Func(f) && forall|j: int|
                    0 <= j < i ==> !#[trigger] func_named(exports, j, name),
            None => forall|i: int|
                0 <= i < exports.len() ==> !#[trigger] func_named(exports, i, name),
        },
    decreases exports.len(),
{
    if exports.len() > 0 {
        let rest = exports.drop_first();
        law_export(rest, name);
        assert(forall|j: int| 0 <= j < rest.len() ==> rest[j] == exports[j + 1]);
        if func_named(exports, 0, name) {
        } else {
            match executor::exported_func(rest, name) {
                Some(f) => {
                    let i = choose|i: int|
                        0 <= i < rest.len() && #[trigger] func_named(rest, i, name) && rest[i].desc
                            == ExportDesc::Func(f) && forall|j: int|
                            0 <= j < i ==> !#[trigger] func_named(rest, j, name);
                    assert(func_named(exports, i + 1, name));
                    assert forall|j: int| 0 <= j < i + 1 implies !#[trigger] func_named(
                        exports,
                        j,
                        name,
                    ) by {
                        if j > 0 {
                            assert(!func_named(rest, j - 1, name));
                        }
                    }
                },
                None => {
                    assert forall|j: int| 0 <= j < exports.len() implies !#[trigger] func_named(
                        exports,
                        j,
                        name,
                    ) by {
                        if j > 0 {
                            assert(!func_named(rest, j - 1, name));
                        }
                    }
                },
            }
        }
    }
}

/// Whether a call of function `func` from outside starts its body: with the
/// arguments as its first locals, and nothing else running.
pub open spec fn starts(s: SignalModel, m: InstanceModel, func: int, args: Seq<Value>) -> bool {
    match m.funcs[func].kind {
        FuncKind::Host { .. } => s matches SignalModel::Host { func: g, args: given, rest } && g
            == func && given == args && rest.len() == 0,
        FuncKind::Local { body_idx, .. } => if body_idx < m.module.codes.len() {
            s matches SignalModel::Ready(fs) && fs.len() == 1 && fs[0].code
                == m.module.codes[body_idx as int].code && fs[0].pc == 0 && fs[0].stack.len() == 0
                && fs[0].ctrl.len() == 0 && fs[0].result_ty == m.funcs[func].ty.results
                && fs[0].locals.len() >= args.len() && fs[0].locals.subrange(0, args.len() as int)
                == args
        } else {
            s is Dangling
        },
    }
}

proof fn lemma_starts(m: InstanceModel, func: int, args: Seq<Value>)
    requires
        0 <= func < m.funcs.len(),
        func <= usize::MAX,
    ensures
        starts(executor::enter(m, seq![], func, args), m, func, args),
{
    if let FuncKind::Local { body_idx, .. } = m.funcs[func].kind {
        if body_idx < m.module.codes.len() {
            let f = executor::new_frame(m, func, body_idx as int, args);
            assert(f.locals.subrange(0, args.len() as int) =~= args);
            assert(Seq::<FrameModel>::empty().push(f)[0] == f);
        }
    }
}

/// Calling an export calls the function that it stands for; a name that
/// stands for no function is an error.
pub proof fn law_call_export(m: InstanceModel, name: Seq<char>, args: Seq<Value>)
    ensures
        match executor::exported_func(m.module.exports, name) {
            None => executor::call_of_export(m, name, args) == Err::<SignalModel, WasmError>(
                WasmError::ExportNotFound,
            ),
            Some(f) => f < m.funcs.len() ==> (executor::call_of_export(m, name, args) matches Ok(s)
                && starts(s, m, f as int, args)),
        },
{
    if let Some(f) = executor::exported_func(m.module.exports, name) {
        if f < m.funcs.len() {
            lemma_starts(m, f as int, args);
        }
    }
}

/// A fresh instance runs the start function of its module, without
/// arguments, if there is one.
pub proof fn law_start(m: InstanceModel)
    ensures
        m.module.start is None ==> executor::start_of(m) is None,
        m.module.start matches Some(f) ==> f < m.funcs.len() ==> (executor::start_of(m) matches Some(
            s,
        ) && starts(s, m, f as int, seq![])),
{
    if let Some(f) = m.module.start {
        if f < m.funcs.len() {
            lemma_starts(m, f as int, seq![]);
        }
    }
}

// ---- Errors of segments and globals ----

/// An element segment without functions fits everywhere in a table that
/// exists, and changes nothing.
pub proof fn law_empty_elem_segment(
    tables: Seq<Seq<Option<u32>>>,
    seg: ElemSegmentModel,
    v: i32,
)
    requires
        decode::const_expr(seg.offset) == Ok::<Value, WasmError>(Value::I32(v)),
        seg.indices.len() == 0,
        seg.table_idx < tables.len(),
    ensures
        instance::elems_placed(tables, seg) == Ok::<Seq<Seq<Option<u32>>>, WasmError>(tables),
{
    let i = seg.table_idx as int;
    assert(instance::slots_set(tables[i], v as usize as int, seg.indices) =~= tables[i]);
    assert(tables.update(i, tables[i]) =~= tables);
}

/// The offset of a segment must be an `i32`, and an expression without a
/// value is the error that it gives.
pub proof fn law_offset(expr: Seq<u8>)
    ensures
        decode::const_expr(expr) matches Err(e) ==> instance::offset_value(expr) == Err::<
            i32,
            WasmError,
        >(e),
        decode::const_expr(expr) matches Ok(v) ==> (match v {
            Value::I32(x) => instance::offset_value(expr) == Ok::<i32, WasmError>(x),
            _ => instance::offset_value(expr) == Err::<i32, WasmError>(WasmError::InvalidType),
        }),
{
}

/// A global whose expression has no value is an error.
pub proof fn law_bad_global(m: ModuleModel, imports: Seq<FuncModel>, j: int)
    requires
        0 <= j < m.globals.len(),
        decode::const_expr(m.globals[j].1) is Err,
    ensures
        instance::instance_of(m, imports) is Err,
{
    lemma_globals(m.globals, m.globals.len());
    if let Ok(done) = instance::initial_globals(m.globals, m.globals.len()) {
        assert(done[j].ty == m.globals[j].0);
    }
}

/// Parameters for which a caller gives no argument are zero, and the locals
/// that the body declares stand behind all parameters.
pub proof fn law_missing_arguments(
    m: InstanceModel,
    func: int,
    body: int,
    args: Seq<Value>,
    i: int,
)
    requires
        0 <= func < m.funcs.len(),
        args.len() <= i < m.funcs[func].ty.params.len(),
    ensures
        ({
            let n = m.funcs[func].ty.params.len() as int;
            let f = executor::new_frame(m, func, body, args);
            &&& f.locals.len() >= n
            &&& f.locals[i] == (match m.funcs[func].ty.params[i] {
                ValType::I32 => Value::I32(0),
                ValType::I64 => Value::I64(0),
                ValType::F32 => Value::F32(0),
                ValType::F64 => Value::F64(0),
            })
            &&& f.locals.subrange(n, f.locals.len() as int) == executor::declared_locals(
                m.module.codes[body].locals,
            )
        }),
{
    let n = m.funcs[func].ty.params.len() as int;
    let f = executor::new_frame(m, func, body, args);
    assert(f.locals.subrange(n, f.locals.len() as int) =~= executor::declared_locals(
        m.module.codes[body].locals,
    ));
}

/// A call of a function that does not exist goes nowhere.
pub proof fn law_no_function(
    m: InstanceModel,
    frames: Seq<FrameModel>,
    func: int,
    args: Seq<Value>,
)
    requires
        func >= m.funcs.len(),
    ensures
        executor::enter(m, frames, func, args) is Dangling,
{
}

} // verus!
