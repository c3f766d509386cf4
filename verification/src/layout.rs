//! The binary encoding of the parts of a module, and that parsing undoes it.
use vstd::prelude::*;
use vstd::utf8;

use crate::decode;
use crate::decode::{Item, ModuleModel};
use crate::encode;
use crate::leb;
use crate::reader;
use crate::types::{
    DataSegment, DataSegmentModel, ElemSegment, ElemSegmentModel, Export, ExportDesc, ExportModel,
    FuncBody, FuncBodyModel, FuncType, FuncTypeModel, GlobalType, Import, ImportDesc, ImportModel,
    Limits, LocalEntry, MemType, TableType, ValType, WasmError,
};

verus! {

// ---- Vectors ----

/// The items of a vector, one after the other.
pub open spec fn items_bytes<V>(xs: Seq<V>, enc: spec_fn(V) -> Seq<u8>) -> Seq<u8>
    decreases xs.len(),
{
    if xs.len() == 0 {
        seq![]
    } else {
        items_bytes(xs.drop_last(), enc) + enc(xs.last())
    }
}

/// A vector: the number of its items, and the items.
pub open spec fn vec_bytes<V>(xs: Seq<V>, enc: spec_fn(V) -> Seq<u8>) -> Seq<u8> {
    leb::unsigned_leb(xs.len()) + items_bytes(xs, enc)
}

/// Whether `x`, encoded, is read back as `x`, wherever it stands.
pub open spec fn reads_back<T: Item>(x: T::V, enc: spec_fn(T::V) -> Seq<u8>) -> bool {
    forall|d: Seq<u8>, p: int| #[trigger]
        leb::stands_at(d, p, enc(x)) ==> T::at(d, p) == (
            Ok::<T::V, WasmError>(x),
            p + enc(x).len() as int,
        )
}

proof fn lemma_items<T: Item>(d: Seq<u8>, p: int, xs: Seq<T::V>, enc: spec_fn(T::V) -> Seq<u8>)
    requires
        leb::stands_at(d, p, items_bytes(xs, enc)),
        forall|i: int| 0 <= i < xs.len() ==> reads_back::<T>(#[trigger] xs[i], enc),
    ensures
        decode::many::<T>(d, p, xs.len()) == (
            Ok::<Seq<T::V>, WasmError>(xs),
            p + items_bytes(xs, enc).len() as int,
        ),
    decreases xs.len(),
{
    if xs.len() == 0 {
        assert(xs =~= seq![]);
    } else {
        let rest = xs.drop_last();
        encode::lemma_stands_apart(d, p, items_bytes(rest, enc), enc(xs.last()));
        assert forall|i: int| 0 <= i < rest.len() implies reads_back::<T>(
            #[trigger] rest[i],
            enc,
        ) by {
            assert(rest[i] == xs[i]);
        }
        lemma_items::<T>(d, p, rest, enc);
        assert(reads_back::<T>(xs[xs.len() - 1], enc));
        assert(leb::stands_at(d, p + items_bytes(rest, enc).len(), enc(xs.last())));
        assert(rest.push(xs.last()) =~= xs);
    }
}

/// A vector, encoded, is read back item by item.
pub proof fn law_vector<T: Item>(d: Seq<u8>, p: int, xs: Seq<T::V>, enc: spec_fn(T::V) -> Seq<u8>)
    requires
        leb::stands_at(d, p, vec_bytes(xs, enc)),
        xs.len() <= u32::MAX,
        forall|i: int| 0 <= i < xs.len() ==> reads_back::<T>(#[trigger] xs[i], enc),
    ensures
        decode::vec_at::<T>(d, p) == (
            Ok::<Seq<T::V>, WasmError>(xs),
            p + vec_bytes(xs, enc).len() as int,
        ),
{
    let n = leb::unsigned_leb(xs.len());
    encode::lemma_stands_apart(d, p, n, items_bytes(xs, enc));
    leb::law_u32_round_trip(d, p, xs.len() as u32);
    lemma_items::<T>(d, p + n.len(), xs, enc);
}

// ---- Numbers, types and names ----

/// An unsigned number.
pub open spec fn u32_bytes(x: u32) -> Seq<u8> {
    leb::unsigned_leb(x as nat)
}

proof fn lemma_u32(x: u32)
    ensures
        reads_back::<u32>(x, |x: u32| u32_bytes(x)),
{
    let enc = |x: u32| u32_bytes(x);
    assert forall|d: Seq<u8>, p: int| #[trigger]
        leb::stands_at(d, p, enc(x)) implies <u32 as Item>::at(d, p) == (
        Ok::<u32, WasmError>(x),
        p + enc(x).len() as int,
    ) by {
        leb::law_u32_round_trip(d, p, x);
    }
}

/// A value type.
pub open spec fn valtype_bytes(t: ValType) -> Seq<u8> {
    seq![encode::type_byte(t)]
}

proof fn lemma_valtype_at(d: Seq<u8>, p: int, t: ValType)
    requires
        leb::stands_at(d, p, valtype_bytes(t)),
    ensures
        <ValType as Item>::at(d, p) == (Ok::<ValType, WasmError>(t), p + 1),
{
    assert(d.subrange(p, p + 1)[0] == d[p]);
}

proof fn lemma_valtype(t: ValType)
    ensures
        reads_back::<ValType>(t, |t: ValType| valtype_bytes(t)),
{
    let enc = |t: ValType| valtype_bytes(t);
    assert forall|d: Seq<u8>, p: int| #[trigger]
        leb::stands_at(d, p, enc(t)) implies <ValType as Item>::at(d, p) == (
        Ok::<ValType, WasmError>(t),
        p + enc(t).len() as int,
    ) by {
        lemma_valtype_at(d, p, t);
    }
}

/// A list of value types.
pub open spec fn valtypes_bytes(ts: Seq<ValType>) -> Seq<u8> {
    vec_bytes(ts, |t: ValType| valtype_bytes(t))
}

/// The type of a function: its parameters, then its results.
pub open spec fn func_type_bytes(x: FuncTypeModel) -> Seq<u8> {
    seq![0x60u8] + (valtypes_bytes(x.params) + valtypes_bytes(x.results))
}

proof fn lemma_valtypes_at(d: Seq<u8>, p: int, ts: Seq<ValType>)
    requires
        leb::stands_at(d, p, valtypes_bytes(ts)),
        ts.len() <= u32::MAX,
    ensures
        decode::vec_at::<ValType>(d, p) == (
            Ok::<Seq<ValType>, WasmError>(ts),
            p + valtypes_bytes(ts).len() as int,
        ),
{
    let enc = |t: ValType| valtype_bytes(t);
    assert forall|i: int| 0 <= i < ts.len() implies reads_back::<ValType>(
        #[trigger] ts[i],
        enc,
    ) by {
        lemma_valtype(ts[i]);
    }
    law_vector::<ValType>(d, p, ts, enc);
}

proof fn lemma_func_type(x: FuncTypeModel)
    requires
        x.params.len() <= u32::MAX,
        x.results.len() <= u32::MAX,
    ensures
        reads_back::<FuncType>(x, |x: FuncTypeModel| func_type_bytes(x)),
{
    let enc = |x: FuncTypeModel| func_type_bytes(x);
    assert forall|d: Seq<u8>, p: int| #[trigger]
        leb::stands_at(d, p, enc(x)) implies <FuncType as Item>::at(d, p) == (
        Ok::<FuncTypeModel, WasmError>(x),
        p + enc(x).len() as int,
    ) by {
        let a = valtypes_bytes(x.params);
        let b = valtypes_bytes(x.results);
        encode::lemma_starts_with(d, p, 0x60, a + b);
        encode::lemma_stands_apart(d, p + 1, a, b);
        lemma_valtypes_at(d, p + 1, x.params);
        lemma_valtypes_at(d, p + 1 + a.len(), x.results);
    }
}

/// Limits: whether there is a maximum, the minimum, and the maximum.
pub open spec fn limits_bytes(x: Limits) -> Seq<u8> {
    match x.max {
        None => seq![0x00u8] + u32_bytes(x.min),
        Some(max) => seq![0x01u8] + (u32_bytes(x.min) + u32_bytes(max)),
    }
}

proof fn lemma_limits_at(d: Seq<u8>, p: int, x: Limits)
    requires
        leb::stands_at(d, p, limits_bytes(x)),
    ensures
        decode::limits_at(d, p) == (Ok::<Limits, WasmError>(x), p + limits_bytes(x).len() as int),
{
    let a = u32_bytes(x.min);
    match x.max {
        None => {
            encode::lemma_starts_with(d, p, 0x00, a);
            leb::law_u32_round_trip(d, p + 1, x.min);
        },
        Some(max) => {
            encode::lemma_starts_with(d, p, 0x01, a + u32_bytes(max));
            encode::lemma_stands_apart(d, p + 1, a, u32_bytes(max));
            leb::law_u32_round_trip(d, p + 1, x.min);
            leb::law_u32_round_trip(d, p + 1 + a.len(), max);
        },
    }
}

/// A table of function references.
pub open spec fn table_bytes(x: TableType) -> Seq<u8> {
    seq![0x70u8] + limits_bytes(x.limits)
}

proof fn lemma_table(x: TableType)
    ensures
        reads_back::<TableType>(x, |x: TableType| table_bytes(x)),
{
    let enc = |x: TableType| table_bytes(x);
    assert forall|d: Seq<u8>, p: int| #[trigger]
        leb::stands_at(d, p, enc(x)) implies <TableType as Item>::at(d, p) == (
        Ok::<TableType, WasmError>(x),
        p + enc(x).len() as int,
    ) by {
        encode::lemma_starts_with(d, p, 0x70, limits_bytes(x.limits));
        lemma_limits_at(d, p + 1, x.limits);
    }
}

/// A memory.
pub open spec fn mem_bytes(x: MemType) -> Seq<u8> {
    limits_bytes(x.0)
}

proof fn lemma_mem(x: MemType)
    ensures
        reads_back::<MemType>(x, |x: MemType| mem_bytes(x)),
{
    let enc = |x: MemType| mem_bytes(x);
    assert forall|d: Seq<u8>, p: int| #[trigger]
        leb::stands_at(d, p, enc(x)) implies <MemType as Item>::at(d, p) == (
        Ok::<MemType, WasmError>(x),
        p + enc(x).len() as int,
    ) by {
        lemma_limits_at(d, p, x.0);
    }
}

/// The type of a global: its value type, and whether it can change.
pub open spec fn global_type_bytes(x: GlobalType) -> Seq<u8> {
    seq![
        encode::type_byte(x.ty),
        if x.mutable {
            0x01u8
        } else {
            0x00u8
        },
    ]
}

proof fn lemma_global_type_at(d: Seq<u8>, p: int, x: GlobalType)
    requires
        leb::stands_at(d, p, global_type_bytes(x)),
    ensures
        decode::global_type_at(d, p) == (Ok::<GlobalType, WasmError>(x), p + 2),
{
    assert(d.subrange(p, p + 2)[0] == d[p]);
    assert(d.subrange(p, p + 2)[1] == d[p + 1]);
}

/// A name: the length of its UTF-8 encoding, and the encoding.
pub open spec fn name_bytes(s: Seq<char>) -> Seq<u8> {
    leb::unsigned_leb(utf8::encode_utf8(s).len()) + utf8::encode_utf8(s)
}

/// Whether the length of a name can be written down.
pub open spec fn name_fits(s: Seq<char>) -> bool {
    utf8::encode_utf8(s).len() <= u32::MAX
}

/// A name, encoded, is read back.
pub proof fn law_name(d: Seq<u8>, p: int, s: Seq<char>)
    requires
        leb::stands_at(d, p, name_bytes(s)),
        name_fits(s),
    ensures
        reader::name_at(d, p) == (Ok::<Seq<char>, WasmError>(s), p + name_bytes(s).len() as int),
{
    let b = utf8::encode_utf8(s);
    let n = leb::unsigned_leb(b.len());
    encode::lemma_stands_apart(d, p, n, b);
    leb::law_u32_round_trip(d, p, b.len() as u32);
    utf8::encode_utf8_valid_utf8(s);
    utf8::encode_utf8_decode_utf8(s);
}

// ---- Imports, exports and globals ----

/// What an import stands for.
pub open spec fn import_desc_bytes(x: ImportDesc) -> Seq<u8> {
    match x {
        ImportDesc::Func(i) => seq![0x00u8] + u32_bytes(i),
        ImportDesc::Table(t) => seq![0x01u8] + table_bytes(t),
        ImportDesc::Mem(m) => seq![0x02u8] + mem_bytes(m),
        ImportDesc::Global(g) => seq![0x03u8] + global_type_bytes(g),
    }
}

proof fn lemma_import_desc_at(d: Seq<u8>, p: int, x: ImportDesc)
    requires
        leb::stands_at(d, p, import_desc_bytes(x)),
    ensures
        decode::import_desc_at(d, p) == (
            Ok::<ImportDesc, WasmError>(x),
            p + import_desc_bytes(x).len() as int,
        ),
{
    match x {
        ImportDesc::Func(i) => {
            encode::lemma_starts_with(d, p, 0x00, u32_bytes(i));
            leb::law_u32_round_trip(d, p + 1, i);
        },
        ImportDesc::Table(t) => {
            encode::lemma_starts_with(d, p, 0x01, table_bytes(t));
            encode::lemma_starts_with(d, p + 1, 0x70, limits_bytes(t.limits));
            lemma_limits_at(d, p + 2, t.limits);
        },
        ImportDesc::Mem(m) => {
            encode::lemma_starts_with(d, p, 0x02, mem_bytes(m));
            lemma_limits_at(d, p + 1, m.0);
        },
        ImportDesc::Global(g) => {
            encode::lemma_starts_with(d, p, 0x03, global_type_bytes(g));
            lemma_global_type_at(d, p + 1, g);
        },
    }
}

/// An import: the name of the module, its own name, and what it stands for.
pub open spec fn import_bytes(x: ImportModel) -> Seq<u8> {
    name_bytes(x.module) + (name_bytes(x.name) + import_desc_bytes(x.desc))
}

proof fn lemma_import(x: ImportModel)
    requires
        name_fits(x.module),
        name_fits(x.name),
    ensures
        reads_back::<Import>(x, |x: ImportModel| import_bytes(x)),
{
    let enc = |x: ImportModel| import_bytes(x);
    assert forall|d: Seq<u8>, p: int| #[trigger]
        leb::stands_at(d, p, enc(x)) implies <Import as Item>::at(d, p) == (
        Ok::<ImportModel, WasmError>(x),
        p + enc(x).len() as int,
    ) by {
        let a = name_bytes(x.module);
        let b = name_bytes(x.name);
        let c = import_desc_bytes(x.desc);
        encode::lemma_stands_apart(d, p, a, b + c);
        encode::lemma_stands_apart(d, p + a.len(), b, c);
        law_name(d, p, x.module);
        law_name(d, p + a.len(), x.name);
        lemma_import_desc_at(d, p + a.len() + b.len(), x.desc);
    }
}

/// What an export stands for.
pub open spec fn export_desc_bytes(x: ExportDesc) -> Seq<u8> {
    match x {
        ExportDesc::Func(i) => seq![0x00u8] + u32_bytes(i),
        ExportDesc::Table(i) => seq![0x01u8] + u32_bytes(i),
        ExportDesc::Mem(i) => seq![0x02u8] + u32_bytes(i),
        ExportDesc::Global(i) => seq![0x03u8] + u32_bytes(i),
    }
}

proof fn lemma_export_desc_at(d: Seq<u8>, p: int, x: ExportDesc)
    requires
        leb::stands_at(d, p, export_desc_bytes(x)),
    ensures
        decode::export_desc_at(d, p) == (
            Ok::<ExportDesc, WasmError>(x),
            p + export_desc_bytes(x).len() as int,
        ),
{
    let (k, i) = match x {
        ExportDesc::Func(i) => (0x00u8, i),
        ExportDesc::Table(i) => (0x01u8, i),
        ExportDesc::Mem(i) => (0x02u8, i),
        ExportDesc::Global(i) => (0x03u8, i),
    };
    encode::lemma_starts_with(d, p, k, u32_bytes(i));
    leb::law_u32_round_trip(d, p + 1, i);
}

/// An export: its name, and what it stands for.
pub open spec fn export_bytes(x: ExportModel) -> Seq<u8> {
    name_bytes(x.name) + export_desc_bytes(x.desc)
}

proof fn lemma_export(x: ExportModel)
    requires
        name_fits(x.name),
    ensures
        reads_back::<Export>(x, |x: ExportModel| export_bytes(x)),
{
    let enc = |x: ExportModel| export_bytes(x);
    assert forall|d: Seq<u8>, p: int| #[trigger]
        leb::stands_at(d, p, enc(x)) implies <Export as Item>::at(d, p) == (
        Ok::<ExportModel, WasmError>(x),
        p + enc(x).len() as int,
    ) by {
        let a = name_bytes(x.name);
        encode::lemma_stands_apart(d, p, a, export_desc_bytes(x.desc));
        law_name(d, p, x.name);
        lemma_export_desc_at(d, p + a.len(), x.desc);
    }
}

/// Whether `x` is a constant expression: it ends with its only end opcode.
pub open spec fn is_expr(x: Seq<u8>) -> bool {
    &&& x.len() > 0
    &&& x.last() == 0x0B
    &&& forall|i: int| 0 <= i < x.len() - 1 ==> #[trigger] x[i] != 0x0B
}

proof fn lemma_expr_end(d: Seq<u8>, p: int, x: Seq<u8>, k: int)
    requires
        leb::stands_at(d, p, x),
        is_expr(x),
        0 <= k < x.len(),
    ensures
        decode::expr_end(d, p + k) == (true, p + x.len()),
    decreases x.len() - k,
{
    assert(d[p + k] == d.subrange(p, p + x.len())[k]);
    if k < x.len() - 1 {
        lemma_expr_end(d, p, x, k + 1);
    }
}

proof fn lemma_expr_at(d: Seq<u8>, p: int, x: Seq<u8>)
    requires
        leb::stands_at(d, p, x),
        is_expr(x),
    ensures
        decode::expr_at(d, p) == (Ok::<Seq<u8>, WasmError>(x), p + x.len() as int),
{
    lemma_expr_end(d, p, x, 0);
}

/// A global: its type and the expression of its initial value.
pub open spec fn global_bytes(x: (GlobalType, Seq<u8>)) -> Seq<u8> {
    global_type_bytes(x.0) + x.1
}

proof fn lemma_global(x: (GlobalType, Seq<u8>))
    requires
        is_expr(x.1),
    ensures
        reads_back::<(GlobalType, Vec<u8>)>(x, |x: (GlobalType, Seq<u8>)| global_bytes(x)),
{
    let enc = |x: (GlobalType, Seq<u8>)| global_bytes(x);
    assert forall|d: Seq<u8>, p: int| #[trigger]
        leb::stands_at(d, p, enc(x)) implies <(GlobalType, Vec<u8>) as Item>::at(d, p) == (
        Ok::<(GlobalType, Seq<u8>), WasmError>(x),
        p + enc(x).len() as int,
    ) by {
        encode::lemma_stands_apart(d, p, global_type_bytes(x.0), x.1);
        lemma_global_type_at(d, p, x.0);
        lemma_expr_at(d, p + 2, x.1);
    }
}

// ---- Segments and bodies ----

/// A list of indices.
pub open spec fn indices_bytes(xs: Seq<u32>) -> Seq<u8> {
    vec_bytes(xs, |x: u32| u32_bytes(x))
}

proof fn lemma_indices_at(d: Seq<u8>, p: int, xs: Seq<u32>)
    requires
        leb::stands_at(d, p, indices_bytes(xs)),
        xs.len() <= u32::MAX,
    ensures
        decode::vec_at::<u32>(d, p) == (
            Ok::<Seq<u32>, WasmError>(xs),
            p + indices_bytes(xs).len() as int,
        ),
{
    let enc = |x: u32| u32_bytes(x);
    assert forall|i: int| 0 <= i < xs.len() implies reads_back::<u32>(#[trigger] xs[i], enc) by {
        lemma_u32(xs[i]);
    }
    law_vector::<u32>(d, p, xs, enc);
}

/// An element segment: the table, the expression of the offset, and the
/// functions.
pub open spec fn elem_bytes(x: ElemSegmentModel) -> Seq<u8> {
    u32_bytes(x.table_idx) + (x.offset + indices_bytes(x.indices))
}

proof fn lemma_elem(x: ElemSegmentModel)
    requires
        is_expr(x.offset),
        x.indices.len() <= u32::MAX,
    ensures
        reads_back::<ElemSegment>(x, |x: ElemSegmentModel| elem_bytes(x)),
{
    let enc = |x: ElemSegmentModel| elem_bytes(x);
    assert forall|d: Seq<u8>, p: int| #[trigger]
        leb::stands_at(d, p, enc(x)) implies <ElemSegment as Item>::at(d, p) == (
        Ok::<ElemSegmentModel, WasmError>(x),
        p + enc(x).len() as int,
    ) by {
        let a = u32_bytes(x.table_idx);
        let c = indices_bytes(x.indices);
        encode::lemma_stands_apart(d, p, a, x.offset + c);
        encode::lemma_stands_apart(d, p + a.len(), x.offset, c);
        leb::law_u32_round_trip(d, p, x.table_idx);
        lemma_expr_at(d, p + a.len(), x.offset);
        lemma_indices_at(d, p + a.len() + x.offset.len(), x.indices);
    }
}

/// A data segment: the memory, the expression of the offset, and the bytes.
pub open spec fn data_bytes(x: DataSegmentModel) -> Seq<u8> {
    u32_bytes(x.mem_idx) + (x.offset + (leb::unsigned_leb(x.init.len()) + x.init))
}

proof fn lemma_data(x: DataSegmentModel)
    requires
        is_expr(x.offset),
        x.init.len() <= u32::MAX,
    ensures
        reads_back::<DataSegment>(x, |x: DataSegmentModel| data_bytes(x)),
{
    let enc = |x: DataSegmentModel| data_bytes(x);
    assert forall|d: Seq<u8>, p: int| #[trigger]
        leb::stands_at(d, p, enc(x)) implies <DataSegment as Item>::at(d, p) == (
        Ok::<DataSegmentModel, WasmError>(x),
        p + enc(x).len() as int,
    ) by {
        let a = u32_bytes(x.mem_idx);
        let n = leb::unsigned_leb(x.init.len());
        encode::lemma_stands_apart(d, p, a, x.offset + (n + x.init));
        encode::lemma_stands_apart(d, p + a.len(), x.offset, n + x.init);
        encode::lemma_stands_apart(d, p + a.len() + x.offset.len(), n, x.init);
        leb::law_u32_round_trip(d, p, x.mem_idx);
        lemma_expr_at(d, p + a.len(), x.offset);
        leb::law_u32_round_trip(d, p + a.len() + x.offset.len(), x.init.len() as u32);
    }
}

/// A group of locals: how many, and of which type.
pub open spec fn locals_bytes(x: LocalEntry) -> Seq<u8> {
    u32_bytes(x.count) + valtype_bytes(x.ty)
}

proof fn lemma_locals(x: LocalEntry)
    ensures
        reads_back::<LocalEntry>(x, |x: LocalEntry| locals_bytes(x)),
{
    let enc = |x: LocalEntry| locals_bytes(x);
    assert forall|d: Seq<u8>, p: int| #[trigger]
        leb::stands_at(d, p, enc(x)) implies <LocalEntry as Item>::at(d, p) == (
        Ok::<LocalEntry, WasmError>(x),
        p + enc(x).len() as int,
    ) by {
        let a = u32_bytes(x.count);
        encode::lemma_stands_apart(d, p, a, valtype_bytes(x.ty));
        leb::law_u32_round_trip(d, p, x.count);
        lemma_valtype_at(d, p + a.len(), x.ty);
    }
}

/// The inside of a function body: its locals, then its code.
pub open spec fn inner_bytes(x: FuncBodyModel) -> Seq<u8> {
    vec_bytes(x.locals, |e: LocalEntry| locals_bytes(e)) + x.code
}

/// A function body: its size, and its inside.
pub open spec fn body_bytes(x: FuncBodyModel) -> Seq<u8> {
    leb::unsigned_leb(inner_bytes(x).len()) + inner_bytes(x)
}

proof fn lemma_inner(x: FuncBodyModel)
    requires
        x.locals.len() <= u32::MAX,
    ensures
        decode::body_of(inner_bytes(x)) == Ok::<FuncBodyModel, WasmError>(x),
{
    let enc = |e: LocalEntry| locals_bytes(e);
    let a = vec_bytes(x.locals, enc);
    let d = inner_bytes(x);
    assert(d.subrange(0, d.len() as int) =~= a + x.code);
    encode::lemma_stands_apart(d, 0, a, x.code);
    assert forall|i: int| 0 <= i < x.locals.len() implies reads_back::<LocalEntry>(
        #[trigger] x.locals[i],
        enc,
    ) by {
        lemma_locals(x.locals[i]);
    }
    law_vector::<LocalEntry>(d, 0, x.locals, enc);
}

proof fn lemma_body(x: FuncBodyModel)
    requires
        x.locals.len() <= u32::MAX,
        inner_bytes(x).len() <= u32::MAX,
    ensures
        reads_back::<FuncBody>(x, |x: FuncBodyModel| body_bytes(x)),
{
    let enc = |x: FuncBodyModel| body_bytes(x);
    assert forall|d: Seq<u8>, p: int| #[trigger]
        leb::stands_at(d, p, enc(x)) implies <FuncBody as Item>::at(d, p) == (
        Ok::<FuncBodyModel, WasmError>(x),
        p + enc(x).len() as int,
    ) by {
        let n = leb::unsigned_leb(inner_bytes(x).len());
        encode::lemma_stands_apart(d, p, n, inner_bytes(x));
        leb::law_u32_round_trip(d, p, inner_bytes(x).len() as u32);
        lemma_inner(x);
    }
}

// ---- Sections ----

proof fn lemma_section<T: Item>(xs: Seq<T::V>, enc: spec_fn(T::V) -> Seq<u8>)
    requires
        xs.len() <= u32::MAX,
        forall|i: int| 0 <= i < xs.len() ==> reads_back::<T>(#[trigger] xs[i], enc),
    ensures
        decode::vec_at::<T>(vec_bytes(xs, enc), 0).0 == Ok::<Seq<T::V>, WasmError>(xs),
{
    let d = vec_bytes(xs, enc);
    assert(d.subrange(0, d.len() as int) =~= d);
    law_vector::<T>(d, 0, xs, enc);
}

/// The section of types adds them to the module, in order.
pub proof fn law_section_types(d: Seq<u8>, xs: Seq<FuncTypeModel>)
    requires
        decode::module_of(d) is Ok,
        xs.len() <= u32::MAX,
        vec_bytes(xs, |x: FuncTypeModel| func_type_bytes(x)).len() <= u32::MAX,
        forall|i: int|
            #![trigger xs[i]]
            0 <= i < xs.len() ==> xs[i].params.len() <= u32::MAX && xs[i].results.len() <= u32::MAX,
    ensures
        decode::module_of(
            d + decode::section_bytes(1, vec_bytes(xs, |x: FuncTypeModel| func_type_bytes(x))),
        ) == Ok::<ModuleModel, WasmError>(
            ModuleModel {
                types: decode::module_of(d)->Ok_0.types + xs,
                ..decode::module_of(d)->Ok_0
            },
        ),
{
    let enc = |x: FuncTypeModel| func_type_bytes(x);
    assert forall|i: int| 0 <= i < xs.len() implies reads_back::<FuncType>(#[trigger] xs[i], enc) by {
        lemma_func_type(xs[i]);
    }
    lemma_section::<FuncType>(xs, enc);
    decode::law_section_appended(d, 1, vec_bytes(xs, enc));
}

/// The section of imports adds them to the module, in order.
pub proof fn law_section_imports(d: Seq<u8>, xs: Seq<ImportModel>)
    requires
        decode::module_of(d) is Ok,
        xs.len() <= u32::MAX,
        vec_bytes(xs, |x: ImportModel| import_bytes(x)).len() <= u32::MAX,
        forall|i: int|
            #![trigger xs[i]]
            0 <= i < xs.len() ==> name_fits(xs[i].module) && name_fits(xs[i].name),
    ensures
        decode::module_of(
            d + decode::section_bytes(2, vec_bytes(xs, |x: ImportModel| import_bytes(x))),
        ) == Ok::<ModuleModel, WasmError>(
            ModuleModel {
                imports: decode::module_of(d)->Ok_0.imports + xs,
                ..decode::module_of(d)->Ok_0
            },
        ),
{
    let enc = |x: ImportModel| import_bytes(x);
    assert forall|i: int| 0 <= i < xs.len() implies reads_back::<Import>(#[trigger] xs[i], enc) by {
        lemma_import(xs[i]);
    }
    lemma_section::<Import>(xs, enc);
    decode::law_section_appended(d, 2, vec_bytes(xs, enc));
}

/// The section of the types of the functions adds them to the module, in order.
pub proof fn law_section_funcs(d: Seq<u8>, xs: Seq<u32>)
    requires
        decode::module_of(d) is Ok,
        xs.len() <= u32::MAX,
        vec_bytes(xs, |x: u32| u32_bytes(x)).len() <= u32::MAX,
    ensures
        decode::module_of(
            d + decode::section_bytes(3, vec_bytes(xs, |x: u32| u32_bytes(x))),
        ) == Ok::<ModuleModel, WasmError>(
            ModuleModel {
                funcs: decode::module_of(d)->Ok_0.funcs + xs,
                ..decode::module_of(d)->Ok_0
            },
        ),
{
    let enc = |x: u32| u32_bytes(x);
    assert forall|i: int| 0 <= i < xs.len() implies reads_back::<u32>(#[trigger] xs[i], enc) by {
        lemma_u32(xs[i]);
    }
    lemma_section::<u32>(xs, enc);
    decode::law_section_appended(d, 3, vec_bytes(xs, enc));
}

/// The section of tables adds them to the module, in order.
pub proof fn law_section_tables(d: Seq<u8>, xs: Seq<TableType>)
    requires
        decode::module_of(d) is Ok,
        xs.len() <= u32::MAX,
        vec_bytes(xs, |x: TableType| table_bytes(x)).len() <= u32::MAX,
    ensures
        decode::module_of(
            d + decode::section_bytes(4, vec_bytes(xs, |x: TableType| table_bytes(x))),
        ) == Ok::<ModuleModel, WasmError>(
            ModuleModel {
                tables: decode::module_of(d)->Ok_0.tables + xs,
                ..decode::module_of(d)->Ok_0
            },
        ),
{
    let enc = |x: TableType| table_bytes(x);
    assert forall|i: int| 0 <= i < xs.len() implies reads_back::<TableType>(#[trigger] xs[i], enc) by {
        lemma_table(xs[i]);
    }
    lemma_section::<TableType>(xs, enc);
    decode::law_section_appended(d, 4, vec_bytes(xs, enc));
}

/// The section of memories adds them to the module, in order.
pub proof fn law_section_mems(d: Seq<u8>, xs: Seq<MemType>)
    requires
        decode::module_of(d) is Ok,
        xs.len() <= u32::MAX,
        vec_bytes(xs, |x: MemType| mem_bytes(x)).len() <= u32::MAX,
    ensures
        decode::module_of(
            d + decode::section_bytes(5, vec_bytes(xs, |x: MemType| mem_bytes(x))),
        ) == Ok::<ModuleModel, WasmError>(
            ModuleModel {
                mems: decode::module_of(d)->Ok_0.mems + xs,
                ..decode::module_of(d)->Ok_0
            },
        ),
{
    let enc = |x: MemType| mem_bytes(x);
    assert forall|i: int| 0 <= i < xs.len() implies reads_back::<MemType>(#[trigger] xs[i], enc) by {
        lemma_mem(xs[i]);
    }
    lemma_section::<MemType>(xs, enc);
    decode::law_section_appended(d, 5, vec_bytes(xs, enc));
}

/// The section of globals adds them to the module, in order.
pub proof fn law_section_globals(d: Seq<u8>, xs: Seq<(GlobalType, Seq<u8>)>)
    requires
        decode::module_of(d) is Ok,
        xs.len() <= u32::MAX,
        vec_bytes(xs, |x: (GlobalType, Seq<u8>)| global_bytes(x)).len() <= u32::MAX,
        forall|i: int|
            #![trigger xs[i]]
            0 <= i < xs.len() ==> is_expr(xs[i].1),
    ensures
        decode::module_of(
            d + decode::section_bytes(6, vec_bytes(xs, |x: (GlobalType, Seq<u8>)| global_bytes(x))),
        ) == Ok::<ModuleModel, WasmError>(
            ModuleModel {
                globals: decode::module_of(d)->Ok_0.globals + xs,
                ..decode::module_of(d)->Ok_0
            },
        ),
{
    let enc = |x: (GlobalType, Seq<u8>)| global_bytes(x);
    assert forall|i: int| 0 <= i < xs.len() implies reads_back::<(GlobalType, Vec<u8>)>(#[trigger] xs[i], enc) by {
        lemma_global(xs[i]);
    }
    lemma_section::<(GlobalType, Vec<u8>)>(xs, enc);
    decode::law_section_appended(d, 6, vec_bytes(xs, enc));
}

/// The section of exports adds them to the module, in order.
pub proof fn law_section_exports(d: Seq<u8>, xs: Seq<ExportModel>)
    requires
        decode::module_of(d) is Ok,
        xs.len() <= u32::MAX,
        vec_bytes(xs, |x: ExportModel| export_bytes(x)).len() <= u32::MAX,
        forall|i: int|
            #![trigger xs[i]]
            0 <= i < xs.len() ==> name_fits(xs[i].name),
    ensures
        decode::module_of(
            d + decode::section_bytes(7, vec_bytes(xs, |x: ExportModel| export_bytes(x))),
        ) == Ok::<ModuleModel, WasmError>(
            ModuleModel {
                exports: decode::module_of(d)->Ok_0.exports + xs,
                ..decode::module_of(d)->Ok_0
            },
        ),
{
    let enc = |x: ExportModel| export_bytes(x);
    assert forall|i: int| 0 <= i < xs.len() implies reads_back::<Export>(#[trigger] xs[i], enc) by {
        lemma_export(xs[i]);
    }
    lemma_section::<Export>(xs, enc);
    decode::law_section_appended(d, 7, vec_bytes(xs, enc));
}

/// The section of element segments adds them to the module, in order.
pub proof fn law_section_elems(d: Seq<u8>, xs: Seq<ElemSegmentModel>)
    requires
        decode::module_of(d) is Ok,
        xs.len() <= u32::MAX,
        vec_bytes(xs, |x: ElemSegmentModel| elem_bytes(x)).len() <= u32::MAX,
        forall|i: int|
            #![trigger xs[i]]
            0 <= i < xs.len() ==> is_expr(xs[i].offset) && xs[i].indices.len() <= u32::MAX,
    ensures
        decode::module_of(
            d + decode::section_bytes(9, vec_bytes(xs, |x: ElemSegmentModel| elem_bytes(x))),
        ) == Ok::<ModuleModel, WasmError>(
            ModuleModel {
                elems: decode::module_of(d)->Ok_0.elems + xs,
                ..decode::module_of(d)->Ok_0
            },
        ),
{
    let enc = |x: ElemSegmentModel| elem_bytes(x);
    assert forall|i: int| 0 <= i < xs.len() implies reads_back::<ElemSegment>(#[trigger] xs[i], enc) by {
        lemma_elem(xs[i]);
    }
    lemma_section::<ElemSegment>(xs, enc);
    decode::law_section_appended(d, 9, vec_bytes(xs, enc));
}

/// The section of function bodies adds them to the module, in order.
pub proof fn law_section_codes(d: Seq<u8>, xs: Seq<FuncBodyModel>)
    requires
        decode::module_of(d) is Ok,
        xs.len() <= u32::MAX,
        vec_bytes(xs, |x: FuncBodyModel| body_bytes(x)).len() <= u32::MAX,
        forall|i: int|
            #![trigger xs[i]]
            0 <= i < xs.len() ==> xs[i].locals.len() <= u32::MAX && inner_bytes(xs[i]).len() <= u32::MAX,
    ensures
        decode::module_of(
            d + decode::section_bytes(10, vec_bytes(xs, |x: FuncBodyModel| body_bytes(x))),
        ) == Ok::<ModuleModel, WasmError>(
            ModuleModel {
                codes: decode::module_of(d)->Ok_0.codes + xs,
                ..decode::module_of(d)->Ok_0
            },
        ),
{
    let enc = |x: FuncBodyModel| body_bytes(x);
    assert forall|i: int| 0 <= i < xs.len() implies reads_back::<FuncBody>(#[trigger] xs[i], enc) by {
        lemma_body(xs[i]);
    }
    lemma_section::<FuncBody>(xs, enc);
    decode::law_section_appended(d, 10, vec_bytes(xs, enc));
}

/// The section of data segments adds them to the module, in order.
pub proof fn law_section_data(d: Seq<u8>, xs: Seq<DataSegmentModel>)
    requires
        decode::module_of(d) is Ok,
        xs.len() <= u32::MAX,
        vec_bytes(xs, |x: DataSegmentModel| data_bytes(x)).len() <= u32::MAX,
        forall|i: int|
            #![trigger xs[i]]
            0 <= i < xs.len() ==> is_expr(xs[i].offset) && xs[i].init.len() <= u32::MAX,
    ensures
        decode::module_of(
            d + decode::section_bytes(11, vec_bytes(xs, |x: DataSegmentModel| data_bytes(x))),
        ) == Ok::<ModuleModel, WasmError>(
            ModuleModel {
                data: decode::module_of(d)->Ok_0.data + xs,
                ..decode::module_of(d)->Ok_0
            },
        ),
{
    let enc = |x: DataSegmentModel| data_bytes(x);
    assert forall|i: int| 0 <= i < xs.len() implies reads_back::<DataSegment>(#[trigger] xs[i], enc) by {
        lemma_data(xs[i]);
    }
    lemma_section::<DataSegment>(xs, enc);
    decode::law_section_appended(d, 11, vec_bytes(xs, enc));
}

/// The start section names the function that runs first.
pub proof fn law_section_start(d: Seq<u8>, func: u32)
    requires
        decode::module_of(d) is Ok,
    ensures
        decode::module_of(d + decode::section_bytes(8, u32_bytes(func))) == Ok::<
            ModuleModel,
            WasmError,
        >(ModuleModel { start: Some(func), ..decode::module_of(d)->Ok_0 }),
{
    let b = u32_bytes(func);
    assert(b.subrange(0, b.len() as int) =~= b);
    leb::law_u32_round_trip(b, 0, func);
    reveal_with_fuel(leb::unsigned_leb, 6);
    decode::law_section_appended(d, 8, b);
}

/// The magic bytes and the version alone are the module without any section.
pub proof fn law_empty_module(d: Seq<u8>)
    requires
        d == seq![0x00u8, 0x61, 0x73, 0x6D, 0x01, 0x00, 0x00, 0x00],
    ensures
        decode::module_of(d) matches Ok(m) && m.types.len() == 0 && m.imports.len() == 0
            && m.funcs.len() == 0 && m.tables.len() == 0 && m.mems.len() == 0 && m.globals.len()
            == 0 && m.exports.len() == 0 && m.start is None && m.elems.len() == 0 && m.codes.len()
            == 0 && m.data.len() == 0,
{
    assert(d.subrange(0, 4) =~= decode::magic());
    assert(d.subrange(4, 8) =~= decode::version());
}

/// Other first bytes are no module: too few of them, the wrong magic bytes,
/// or another version.
pub proof fn law_no_module(d: Seq<u8>)
    ensures
        d.len() < 4 ==> decode::module_of(d) == Err::<ModuleModel, WasmError>(
            WasmError::UnexpectedEof,
        ),
        d.len() >= 4 && !(d[0] == 0x00 && d[1] == 0x61 && d[2] == 0x73 && d[3] == 0x6D)
            ==> decode::module_of(d) == Err::<ModuleModel, WasmError>(WasmError::InvalidMagic),
        d.len() >= 8 && d[0] == 0x00 && d[1] == 0x61 && d[2] == 0x73 && d[3] == 0x6D && !(d[4]
            == 0x01 && d[5] == 0x00 && d[6] == 0x00 && d[7] == 0x00) ==> decode::module_of(d)
            == Err::<ModuleModel, WasmError>(WasmError::InvalidVersion),
{
    if d.len() >= 4 {
        let a = d.subrange(0, 4);
        assert(a[0] == d[0] && a[1] == d[1] && a[2] == d[2] && a[3] == d[3]);
        assert((d[0] == 0x00 && d[1] == 0x61 && d[2] == 0x73 && d[3] == 0x6D) ==> a
            =~= decode::magic());
    }
    if d.len() >= 8 {
        let b = d.subrange(4, 8);
        assert(b[0] == d[4] && b[1] == d[5] && b[2] == d[6] && b[3] == d[7]);
    }
}

// ---- Malformed parts ----

/// A byte that stands for no value type, no kind of limits, no kind of import
/// or no kind of export is an error, and so is a function type that starts
/// with another byte than 0x60.
pub proof fn law_malformed(d: Seq<u8>, p: int)
    requires
        0 <= p < d.len(),
    ensures
        !(0x7C <= d[p] <= 0x7F) ==> <ValType as Item>::at(d, p).0 == Err::<ValType, WasmError>(
            WasmError::InvalidType,
        ),
        d[p] > 1 ==> decode::limits_at(d, p).0 == Err::<Limits, WasmError>(WasmError::InvalidType),
        d[p] > 3 ==> decode::import_desc_at(d, p).0 == Err::<ImportDesc, WasmError>(
            WasmError::InvalidType,
        ),
        d[p] > 3 ==> decode::export_desc_at(d, p).0 == Err::<ExportDesc, WasmError>(
            WasmError::InvalidType,
        ),
        d[p] != 0x60 ==> <FuncType as Item>::at(d, p).0 == Err::<FuncTypeModel, WasmError>(
            WasmError::InvalidType,
        ),
{
}

/// A part that starts behind the end of the data is an error.
pub proof fn law_missing(d: Seq<u8>, p: int)
    requires
        p >= d.len(),
    ensures
        <ValType as Item>::at(d, p).0 == Err::<ValType, WasmError>(WasmError::UnexpectedEof),
        decode::limits_at(d, p).0 == Err::<Limits, WasmError>(WasmError::UnexpectedEof),
        decode::import_desc_at(d, p).0 == Err::<ImportDesc, WasmError>(WasmError::UnexpectedEof),
        decode::export_desc_at(d, p).0 == Err::<ExportDesc, WasmError>(WasmError::UnexpectedEof),
        decode::expr_at(d, p).0 == Err::<Seq<u8>, WasmError>(WasmError::UnexpectedEof),
        <FuncType as Item>::at(d, p).0 == Err::<FuncTypeModel, WasmError>(WasmError::UnexpectedEof),
{
}

/// A global can change exactly if the byte behind its type is 1.
pub proof fn law_mutability(d: Seq<u8>, p: int, t: ValType)
    requires
        0 <= p,
        p + 1 < d.len(),
        d[p] == encode::type_byte(t),
    ensures
        decode::global_type_at(d, p) == (
            Ok::<GlobalType, WasmError>(GlobalType { ty: t, mutable: d[p + 1] == 1 }),
            p + 2,
        ),
{
}

/// A name that is not UTF-8 is an error.
pub proof fn law_name_not_utf8(d: Seq<u8>, p: int, b: Seq<u8>)
    requires
        leb::stands_at(d, p, leb::unsigned_leb(b.len()) + b),
        b.len() <= u32::MAX,
        !utf8::valid_utf8(b),
    ensures
        reader::name_at(d, p).0 == Err::<Seq<char>, WasmError>(WasmError::InvalidType),
{
    let n = leb::unsigned_leb(b.len());
    encode::lemma_stands_apart(d, p, n, b);
    leb::law_u32_round_trip(d, p, b.len() as u32);
}

} // verus!
