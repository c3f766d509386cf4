//! The binary format: sections to a [`WasmModule`].
use vstd::prelude::*;

use crate::leb;
use crate::reader;
use crate::reader::{Cursor, Reader};
use crate::types;
use crate::types::{
    DataSegment, DataSegmentModel, ElemSegment, ElemSegmentModel, Export, ExportDesc, ExportModel,
    FuncBody, FuncBodyModel, FuncType, FuncTypeModel, GlobalType, Import, ImportDesc, ImportModel,
    Limits, LocalEntry, MemType, TableType, ValType, Value, WasmError,
};

verus! {

/// A parsed module.
#[derive(Debug)]
pub struct WasmModule {
    pub types: Vec<FuncType>,
    pub imports: Vec<Import>,
    /// Type indices of the functions that the module defines.
    pub funcs: Vec<u32>,
    pub tables: Vec<TableType>,
    pub mems: Vec<MemType>,
    /// Type and initial value expression of each global.
    pub globals: Vec<(GlobalType, Vec<u8>)>,
    pub exports: Vec<Export>,
    pub start: Option<u32>,
    pub elems: Vec<ElemSegment>,
    pub codes: Vec<FuncBody>,
    pub data: Vec<DataSegment>,
}

/// Mathematical model of a [`WasmModule`].
#[verifier::ext_equal]
pub struct ModuleModel {
    pub types: Seq<FuncTypeModel>,
    pub imports: Seq<ImportModel>,
    pub funcs: Seq<u32>,
    pub tables: Seq<TableType>,
    pub mems: Seq<MemType>,
    pub globals: Seq<(GlobalType, Seq<u8>)>,
    pub exports: Seq<ExportModel>,
    pub start: Option<u32>,
    pub elems: Seq<ElemSegmentModel>,
    pub codes: Seq<FuncBodyModel>,
    pub data: Seq<DataSegmentModel>,
}

impl View for WasmModule {
    type V = ModuleModel;

    open spec fn view(&self) -> ModuleModel {
        ModuleModel {
            types: types::views(self.types@),
            imports: types::views(self.imports@),
            funcs: self.funcs@,
            tables: self.tables@,
            mems: self.mems@,
            globals: types::views(self.globals@),
            exports: types::views(self.exports@),
            start: self.start,
            elems: types::views(self.elems@),
            codes: types::views(self.codes@),
            data: types::views(self.data@),
        }
    }
}

/// The module without any section.
pub open spec fn empty_module() -> ModuleModel {
    ModuleModel {
        types: seq![],
        imports: seq![],
        funcs: seq![],
        tables: seq![],
        mems: seq![],
        globals: seq![],
        exports: seq![],
        start: None,
        elems: seq![],
        codes: seq![],
        data: seq![],
    }
}

impl Default for WasmModule {
    fn default() -> (r: Self)
        ensures
            r@ == empty_module(),
    {
        let r = WasmModule {
            types: Vec::new(),
            imports: Vec::new(),
            funcs: Vec::new(),
            tables: Vec::new(),
            mems: Vec::new(),
            globals: Vec::new(),
            exports: Vec::new(),
            start: None,
            elems: Vec::new(),
            codes: Vec::new(),
            data: Vec::new(),
        };
        assert(r@ =~= empty_module());
        r
    }
}

impl View for ValType {
    type V = ValType;

    open spec fn view(&self) -> ValType {
        *self
    }
}

impl View for TableType {
    type V = TableType;

    open spec fn view(&self) -> TableType {
        *self
    }
}

impl View for MemType {
    type V = MemType;

    open spec fn view(&self) -> MemType {
        *self
    }
}

impl View for GlobalType {
    type V = GlobalType;

    open spec fn view(&self) -> GlobalType {
        *self
    }
}

impl View for LocalEntry {
    type V = LocalEntry;

    open spec fn view(&self) -> LocalEntry {
        *self
    }
}

/// The outcome of a read, with the value replaced by its view.
pub open spec fn outcome<T: View>(r: Result<T, WasmError>, pos: int) -> Cursor<T::V> {
    match r {
        Ok(x) => (Ok(x.view()), pos),
        Err(e) => (Err(e), pos),
    }
}

/// What the vectors of the binary format are made of.
pub trait Item: Sized + View {
    /// The item at position `p`.
    spec fn at(d: Seq<u8>, p: int) -> Cursor<Self::V>;

    /// Reads one item.
    fn read(r: &mut Reader) -> (res: Result<Self, WasmError>)
        ensures
            final(r).data == old(r).data,
            outcome(res, final(r).pos as int) == Self::at(old(r).data@, old(r).pos as int),
            old(r).pos <= old(r).data.len() ==> final(r).pos <= final(r).data.len(),
    ;
}

/// `n` items from position `p` on.
pub open spec fn many<T: Item>(d: Seq<u8>, p: int, n: nat) -> Cursor<Seq<T::V>>
    decreases n,
{
    if n == 0 {
        (Ok(seq![]), p)
    } else {
        match many::<T>(d, p, (n - 1) as nat) {
            (Err(e), q) => (Err(e), q),
            (Ok(xs), q) => match T::at(d, q) {
                (Err(e), q2) => (Err(e), q2),
                (Ok(x), q2) => (Ok(xs.push(x)), q2),
            },
        }
    }
}

/// A vector at position `p`: a count and that many items.
pub open spec fn vec_at<T: Item>(d: Seq<u8>, p: int) -> Cursor<Seq<T::V>> {
    match reader::u32_at(d, p) {
        (Err(e), q) => (Err(e), q),
        (Ok(n), q) => many::<T>(d, q, n as nat),
    }
}

/// Once an item fails, further items change nothing.
proof fn lemma_many_err<T: Item>(d: Seq<u8>, p: int, k: nat, n: nat)
    requires
        k <= n,
    ensures
        many::<T>(d, p, k).0 is Err ==> many::<T>(d, p, n) == many::<T>(d, p, k),
    decreases n - k,
{
    if k < n {
        lemma_many_err::<T>(d, p, k, (n - 1) as nat);
    }
}

/// Reads `n` items.
fn read_many<T: Item>(r: &mut Reader, n: u32) -> (res: Result<Vec<T>, WasmError>)
    ensures
        final(r).data == old(r).data,
        match res {
            Ok(v) => (Ok(types::views(v@)), final(r).pos as int),
            Err(e) => (Err(e), final(r).pos as int),
        } == many::<T>(old(r).data@, old(r).pos as int, n as nat),
        old(r).pos <= old(r).data.len() ==> final(r).pos <= final(r).data.len(),
{
    let mut v: Vec<T> = Vec::new();
    let mut k: u32 = 0;
    let ghost d = r.data@;
    let ghost p = r.pos as int;
    proof {
        assert(types::views(v@) =~= Seq::<T::V>::empty());
    }
    while k < n
        invariant
            k <= n,
            r.data == old(r).data,
            r.data@ == d,
            p == old(r).pos,
            old(r).pos <= old(r).data.len() ==> r.pos <= r.data.len(),
            many::<T>(d, p, k as nat) == (Ok::<_, WasmError>(types::views(v@)), r.pos as int),
        decreases n - k,
    {
        proof {
            lemma_many_err::<T>(d, p, (k + 1) as nat, n as nat);
        }
        let x: T = T::read(r)?;
        proof {
            types::lemma_views_push(v@, x);
        }
        v.push(x);
        k = k + 1;
    }
    Ok(v)
}

/// Reads a count and that many items.
pub fn read_vec<T: Item>(r: &mut Reader) -> (res: Result<Vec<T>, WasmError>)
    ensures
        final(r).data == old(r).data,
        match res {
            Ok(v) => (Ok(types::views(v@)), final(r).pos as int),
            Err(e) => (Err(e), final(r).pos as int),
        } == vec_at::<T>(old(r).data@, old(r).pos as int),
        old(r).pos <= old(r).data.len() ==> final(r).pos <= final(r).data.len(),
{
    proof {
        reader::lemma_run_len(r.data@, r.pos as int);
    }
    let n: u32 = r.read_u32()?;
    read_many::<T>(r, n)
}

impl Item for u32 {
    open spec fn at(d: Seq<u8>, p: int) -> Cursor<u32> {
        reader::u32_at(d, p)
    }

    fn read(r: &mut Reader) -> (res: Result<u32, WasmError>) {
        proof {
            reader::lemma_run_len(r.data@, r.pos as int);
        }
        r.read_u32()
    }
}

/// The value type that a byte stands for.
pub open spec fn valtype_of(b: u8) -> Option<ValType> {
    match b {
        0x7F => Some(ValType::I32),
        0x7E => Some(ValType::I64),
        0x7D => Some(ValType::F32),
        0x7C => Some(ValType::F64),
        _ => None,
    }
}

impl Item for ValType {
    open spec fn at(d: Seq<u8>, p: int) -> Cursor<ValType> {
        match reader::byte_at(d, p) {
            (Err(e), q) => (Err(e), q),
            (Ok(b), q) => match valtype_of(b) {
                Some(t) => (Ok(t), q),
                None => (Err(WasmError::InvalidType), q),
            },
        }
    }

    fn read(r: &mut Reader) -> (res: Result<ValType, WasmError>) {
        match r.read_byte()? {
            0x7F => Ok(ValType::I32),
            0x7E => Ok(ValType::I64),
            0x7D => Ok(ValType::F32),
            0x7C => Ok(ValType::F64),
            _ => Err(WasmError::InvalidType),
        }
    }
}

/// Limits at position `p`: a flag, the minimum, and the maximum if flagged.
pub open spec fn limits_at(d: Seq<u8>, p: int) -> Cursor<Limits> {
    match reader::byte_at(d, p) {
        (Err(e), q) => (Err(e), q),
        (Ok(0u8), q) => match reader::u32_at(d, q) {
            (Err(e), q2) => (Err(e), q2),
            (Ok(min), q2) => (Ok(Limits { min, max: None }), q2),
        },
        (Ok(1u8), q) => match reader::u32_at(d, q) {
            (Err(e), q2) => (Err(e), q2),
            (Ok(min), q2) => match reader::u32_at(d, q2) {
                (Err(e), q3) => (Err(e), q3),
                (Ok(max), q3) => (Ok(Limits { min, max: Some(max) }), q3),
            },
        },
        (Ok(_), q) => (Err(WasmError::InvalidType), q),
    }
}

fn read_limits(r: &mut Reader) -> (res: Result<Limits, WasmError>)
    ensures
        final(r).data == old(r).data,
        (res, final(r).pos as int) == limits_at(old(r).data@, old(r).pos as int),
        old(r).pos <= old(r).data.len() ==> final(r).pos <= final(r).data.len(),
{
    match r.read_byte()? {
        0x00 => {
            let min: u32 = <u32 as Item>::read(r)?;
            Ok(Limits { min, max: None })
        },
        0x01 => {
            let min: u32 = <u32 as Item>::read(r)?;
            let max: u32 = <u32 as Item>::read(r)?;
            Ok(Limits { min, max: Some(max) })
        },
        _ => Err(WasmError::InvalidType),
    }
}

/// A global type at position `p`: the value type and the mutability flag.
pub open spec fn global_type_at(d: Seq<u8>, p: int) -> Cursor<GlobalType> {
    match ValType::at(d, p) {
        (Err(e), q) => (Err(e), q),
        (Ok(ty), q) => match reader::byte_at(d, q) {
            (Err(e), q2) => (Err(e), q2),
            (Ok(b), q2) => (Ok(GlobalType { ty, mutable: b == 1 }), q2),
        },
    }
}

fn read_global_type(r: &mut Reader) -> (res: Result<GlobalType, WasmError>)
    ensures
        final(r).data == old(r).data,
        (res, final(r).pos as int) == global_type_at(old(r).data@, old(r).pos as int),
        old(r).pos <= old(r).data.len() ==> final(r).pos <= final(r).data.len(),
{
    let ty: ValType = ValType::read(r)?;
    let mutable: bool = r.read_byte()? == 0x01;
    Ok(GlobalType { ty, mutable })
}

/// The position just after the first `end` opcode (0x0B) from `p` on, or the
/// position where the data ran out.
pub open spec fn expr_end(d: Seq<u8>, p: int) -> (bool, int)
    decreases d.len() - p,
{
    if p >= d.len() {
        (false, p)
    } else if d[p] == 0x0B {
        (true, p + 1)
    } else {
        expr_end(d, p + 1)
    }
}

/// The bytes of a constant expression at `p`, its `end` included.
pub open spec fn expr_at(d: Seq<u8>, p: int) -> Cursor<Seq<u8>> {
    match expr_end(d, p) {
        (true, q) => (Ok(d.subrange(p, q)), q),
        (false, q) => (Err(WasmError::UnexpectedEof), q),
    }
}

fn read_expr(r: &mut Reader) -> (res: Result<Vec<u8>, WasmError>)
    ensures
        final(r).data == old(r).data,
        outcome(res, final(r).pos as int) == expr_at(old(r).data@, old(r).pos as int),
        old(r).pos <= old(r).data.len() ==> final(r).pos <= final(r).data.len(),
{
    let start: usize = r.pos;
    let ghost d = r.data@;
    loop
        invariant
            r.data == old(r).data,
            r.data@ == d,
            start == old(r).pos,
            start <= r.pos,
            r.pos == start || r.pos <= d.len(),
            expr_end(d, start as int) == expr_end(d, r.pos as int),
        decreases d.len() - r.pos,
    {
        let b: u8 = r.read_byte()?;
        if b == 0x0B {
            let e = vstd::slice::slice_subrange(r.data, start, r.pos);
            return Ok(vstd::slice::slice_to_vec(e));
        }
    }
}

impl Item for FuncType {
    open spec fn at(d: Seq<u8>, p: int) -> Cursor<FuncTypeModel> {
        match reader::byte_at(d, p) {
            (Err(e), q) => (Err(e), q),
            (Ok(b), q) => if b != 0x60 {
                (Err(WasmError::InvalidType), q)
            } else {
                match vec_at::<ValType>(d, q) {
                    (Err(e), q2) => (Err(e), q2),
                    (Ok(params), q2) => match vec_at::<ValType>(d, q2) {
                        (Err(e), q3) => (Err(e), q3),
                        (Ok(results), q3) => (Ok(FuncTypeModel { params, results }), q3),
                    },
                }
            },
        }
    }

    fn read(r: &mut Reader) -> (res: Result<FuncType, WasmError>) {
        if r.read_byte()? != 0x60 {
            return Err(WasmError::InvalidType);
        }
        let params: Vec<ValType> = read_vec(r)?;
        let results: Vec<ValType> = read_vec(r)?;
        assert(types::views(params@) =~= params@);
        assert(types::views(results@) =~= results@);
        Ok(FuncType { params, results })
    }
}

impl Item for TableType {
    open spec fn at(d: Seq<u8>, p: int) -> Cursor<TableType> {
        match reader::byte_at(d, p) {
            (Err(e), q) => (Err(e), q),
            (Ok(_), q) => match limits_at(d, q) {
                (Err(e), q2) => (Err(e), q2),
                (Ok(limits), q2) => (Ok(TableType { limits }), q2),
            },
        }
    }

    fn read(r: &mut Reader) -> (res: Result<TableType, WasmError>) {
        // Only function references exist as an element type.
        let _elem: u8 = r.read_byte()?;
        Ok(TableType { limits: read_limits(r)? })
    }
}

impl Item for MemType {
    open spec fn at(d: Seq<u8>, p: int) -> Cursor<MemType> {
        match limits_at(d, p) {
            (Err(e), q) => (Err(e), q),
            (Ok(limits), q) => (Ok(MemType(limits)), q),
        }
    }

    fn read(r: &mut Reader) -> (res: Result<MemType, WasmError>) {
        Ok(MemType(read_limits(r)?))
    }
}

/// What an import stands for, at position `p`.
pub open spec fn import_desc_at(d: Seq<u8>, p: int) -> Cursor<ImportDesc> {
    match reader::byte_at(d, p) {
        (Err(e), q) => (Err(e), q),
        (Ok(0u8), q) => match reader::u32_at(d, q) {
            (Err(e), q2) => (Err(e), q2),
            (Ok(i), q2) => (Ok(ImportDesc::Func(i)), q2),
        },
        (Ok(1u8), q) => match TableType::at(d, q) {
            (Err(e), q2) => (Err(e), q2),
            (Ok(t), q2) => (Ok(ImportDesc::Table(t)), q2),
        },
        (Ok(2u8), q) => match MemType::at(d, q) {
            (Err(e), q2) => (Err(e), q2),
            (Ok(m), q2) => (Ok(ImportDesc::Mem(m)), q2),
        },
        (Ok(3u8), q) => match global_type_at(d, q) {
            (Err(e), q2) => (Err(e), q2),
            (Ok(g), q2) => (Ok(ImportDesc::Global(g)), q2),
        },
        (Ok(_), q) => (Err(WasmError::InvalidType), q),
    }
}

fn read_import_desc(r: &mut Reader) -> (res: Result<ImportDesc, WasmError>)
    ensures
        final(r).data == old(r).data,
        (res, final(r).pos as int) == import_desc_at(old(r).data@, old(r).pos as int),
        old(r).pos <= old(r).data.len() ==> final(r).pos <= final(r).data.len(),
{
    match r.read_byte()? {
        0x00 => Ok(ImportDesc::Func(<u32 as Item>::read(r)?)),
        0x01 => Ok(ImportDesc::Table(TableType::read(r)?)),
        0x02 => Ok(ImportDesc::Mem(MemType::read(r)?)),
        0x03 => Ok(ImportDesc::Global(read_global_type(r)?)),
        _ => Err(WasmError::InvalidType),
    }
}

fn read_name(r: &mut Reader) -> (res: Result<String, WasmError>)
    ensures
        final(r).data == old(r).data,
        outcome(res, final(r).pos as int) == reader::name_at(old(r).data@, old(r).pos as int),
        old(r).pos <= old(r).data.len() ==> final(r).pos <= final(r).data.len(),
{
    proof {
        reader::lemma_run_len(r.data@, r.pos as int);
    }
    r.read_name()
}

impl Item for Import {
    open spec fn at(d: Seq<u8>, p: int) -> Cursor<ImportModel> {
        match reader::name_at(d, p) {
            (Err(e), q) => (Err(e), q),
            (Ok(module), q) => match reader::name_at(d, q) {
                (Err(e), q2) => (Err(e), q2),
                (Ok(name), q2) => match import_desc_at(d, q2) {
                    (Err(e), q3) => (Err(e), q3),
                    (Ok(desc), q3) => (Ok(ImportModel { module, name, desc }), q3),
                },
            },
        }
    }

    fn read(r: &mut Reader) -> (res: Result<Import, WasmError>) {
        let module: String = read_name(r)?;
        let name: String = read_name(r)?;
        let desc: ImportDesc = read_import_desc(r)?;
        Ok(Import { module, name, desc })
    }
}

impl Item for (GlobalType, Vec<u8>) {
    open spec fn at(d: Seq<u8>, p: int) -> Cursor<(GlobalType, Seq<u8>)> {
        match global_type_at(d, p) {
            (Err(e), q) => (Err(e), q),
            (Ok(g), q) => match expr_at(d, q) {
                (Err(e), q2) => (Err(e), q2),
                (Ok(x), q2) => (Ok((g, x)), q2),
            },
        }
    }

    fn read(r: &mut Reader) -> (res: Result<(GlobalType, Vec<u8>), WasmError>) {
        let g: GlobalType = read_global_type(r)?;
        let x: Vec<u8> = read_expr(r)?;
        Ok((g, x))
    }
}

/// What an export stands for, at position `p`.
pub open spec fn export_desc_at(d: Seq<u8>, p: int) -> Cursor<ExportDesc> {
    match reader::byte_at(d, p) {
        (Err(e), q) => (Err(e), q),
        (Ok(k), q) => if k > 3 {
            (Err(WasmError::InvalidType), q)
        } else {
            match reader::u32_at(d, q) {
                (Err(e), q2) => (Err(e), q2),
                (Ok(i), q2) => (
                    Ok(
                        match k {
                            0u8 => ExportDesc::Func(i),
                            1u8 => ExportDesc::Table(i),
                            2u8 => ExportDesc::Mem(i),
                            _ => ExportDesc::Global(i),
                        },
                    ),
                    q2,
                ),
            }
        },
    }
}

fn read_export_desc(r: &mut Reader) -> (res: Result<ExportDesc, WasmError>)
    ensures
        final(r).data == old(r).data,
        (res, final(r).pos as int) == export_desc_at(old(r).data@, old(r).pos as int),
        old(r).pos <= old(r).data.len() ==> final(r).pos <= final(r).data.len(),
{
    match r.read_byte()? {
        0x00 => Ok(ExportDesc::Func(<u32 as Item>::read(r)?)),
        0x01 => Ok(ExportDesc::Table(<u32 as Item>::read(r)?)),
        0x02 => Ok(ExportDesc::Mem(<u32 as Item>::read(r)?)),
        0x03 => Ok(ExportDesc::Global(<u32 as Item>::read(r)?)),
        _ => Err(WasmError::InvalidType),
    }
}

impl Item for Export {
    open spec fn at(d: Seq<u8>, p: int) -> Cursor<ExportModel> {
        match reader::name_at(d, p) {
            (Err(e), q) => (Err(e), q),
            (Ok(name), q) => match export_desc_at(d, q) {
                (Err(e), q2) => (Err(e), q2),
                (Ok(desc), q2) => (Ok(ExportModel { name, desc }), q2),
            },
        }
    }

    fn read(r: &mut Reader) -> (res: Result<Export, WasmError>) {
        let name: String = read_name(r)?;
        let desc: ExportDesc = read_export_desc(r)?;
        Ok(Export { name, desc })
    }
}

impl Item for ElemSegment {
    open spec fn at(d: Seq<u8>, p: int) -> Cursor<ElemSegmentModel> {
        match reader::u32_at(d, p) {
            (Err(e), q) => (Err(e), q),
            (Ok(table_idx), q) => match expr_at(d, q) {
                (Err(e), q2) => (Err(e), q2),
                (Ok(offset), q2) => match vec_at::<u32>(d, q2) {
                    (Err(e), q3) => (Err(e), q3),
                    (Ok(indices), q3) => (
                        Ok(ElemSegmentModel { table_idx, offset, indices }),
                        q3,
                    ),
                },
            },
        }
    }

    fn read(r: &mut Reader) -> (res: Result<ElemSegment, WasmError>) {
        let table_idx: u32 = <u32 as Item>::read(r)?;
        let offset: Vec<u8> = read_expr(r)?;
        let indices: Vec<u32> = read_vec(r)?;
        assert(types::views(indices@) =~= indices@);
        Ok(ElemSegment { table_idx, offset, indices })
    }
}

impl Item for LocalEntry {
    open spec fn at(d: Seq<u8>, p: int) -> Cursor<LocalEntry> {
        match reader::u32_at(d, p) {
            (Err(e), q) => (Err(e), q),
            (Ok(count), q) => match ValType::at(d, q) {
                (Err(e), q2) => (Err(e), q2),
                (Ok(ty), q2) => (Ok(LocalEntry { count, ty }), q2),
            },
        }
    }

    fn read(r: &mut Reader) -> (res: Result<LocalEntry, WasmError>) {
        let count: u32 = <u32 as Item>::read(r)?;
        let ty: ValType = ValType::read(r)?;
        Ok(LocalEntry { count, ty })
    }
}

/// The function body that `b` holds: the local declarations, then code.
pub open spec fn body_of(b: Seq<u8>) -> Result<FuncBodyModel, WasmError> {
    match vec_at::<LocalEntry>(b, 0) {
        (Err(e), _) => Err(e),
        (Ok(locals), q) => Ok(FuncBodyModel { locals, code: b.subrange(q, b.len() as int) }),
    }
}

impl Item for FuncBody {
    open spec fn at(d: Seq<u8>, p: int) -> Cursor<FuncBodyModel> {
        match reader::u32_at(d, p) {
            (Err(e), q) => (Err(e), q),
            (Ok(n), q) => match reader::bytes_at(d, q, n as int) {
                (Err(e), q2) => (Err(e), q2),
                (Ok(b), q2) => (body_of(b), q2),
            },
        }
    }

    fn read(r: &mut Reader) -> (res: Result<FuncBody, WasmError>) {
        let size: u32 = <u32 as Item>::read(r)?;
        let mut body = r.sub(size as usize)?;
        let locals: Vec<LocalEntry> = read_vec(&mut body)?;
        assert(types::views(locals@) =~= locals@);
        let code = vstd::slice::slice_subrange(body.data, body.pos, body.data.len());
        Ok(FuncBody { locals, code: vstd::slice::slice_to_vec(code) })
    }
}

impl Item for DataSegment {
    open spec fn at(d: Seq<u8>, p: int) -> Cursor<DataSegmentModel> {
        match reader::u32_at(d, p) {
            (Err(e), q) => (Err(e), q),
            (Ok(mem_idx), q) => match expr_at(d, q) {
                (Err(e), q2) => (Err(e), q2),
                (Ok(offset), q2) => match reader::u32_at(d, q2) {
                    (Err(e), q3) => (Err(e), q3),
                    (Ok(n), q3) => match reader::bytes_at(d, q3, n as int) {
                        (Err(e), q4) => (Err(e), q4),
                        (Ok(init), q4) => (Ok(DataSegmentModel { mem_idx, offset, init }), q4),
                    },
                },
            },
        }
    }

    fn read(r: &mut Reader) -> (res: Result<DataSegment, WasmError>) {
        let mem_idx: u32 = <u32 as Item>::read(r)?;
        let offset: Vec<u8> = read_expr(r)?;
        let size: u32 = <u32 as Item>::read(r)?;
        let init = r.read_bytes(size as usize)?;
        Ok(DataSegment { mem_idx, offset, init: vstd::slice::slice_to_vec(init) })
    }
}

/// The module `m` extended by the section with number `id` and contents `s`.
/// Sections of other numbers, and custom ones (0), change nothing.
pub open spec fn with_section(id: u8, s: Seq<u8>, m: ModuleModel) -> Result<
    ModuleModel,
    WasmError,
> {
    match id {
        1u8 => match vec_at::<FuncType>(s, 0).0 {
            Err(e) => Err(e),
            Ok(v) => Ok(ModuleModel { types: m.types + v, ..m }),
        },
        2u8 => match vec_at::<Import>(s, 0).0 {
            Err(e) => Err(e),
            Ok(v) => Ok(ModuleModel { imports: m.imports + v, ..m }),
        },
        3u8 => match vec_at::<u32>(s, 0).0 {
            Err(e) => Err(e),
            Ok(v) => Ok(ModuleModel { funcs: m.funcs + v, ..m }),
        },
        4u8 => match vec_at::<TableType>(s, 0).0 {
            Err(e) => Err(e),
            Ok(v) => Ok(ModuleModel { tables: m.tables + v, ..m }),
        },
        5u8 => match vec_at::<MemType>(s, 0).0 {
            Err(e) => Err(e),
            Ok(v) => Ok(ModuleModel { mems: m.mems + v, ..m }),
        },
        6u8 => match vec_at::<(GlobalType, Vec<u8>)>(s, 0).0 {
            Err(e) => Err(e),
            Ok(v) => Ok(ModuleModel { globals: m.globals + v, ..m }),
        },
        7u8 => match vec_at::<Export>(s, 0).0 {
            Err(e) => Err(e),
            Ok(v) => Ok(ModuleModel { exports: m.exports + v, ..m }),
        },
        8u8 => match reader::u32_at(s, 0).0 {
            Err(e) => Err(e),
            Ok(i) => Ok(ModuleModel { start: Some(i), ..m }),
        },
        9u8 => match vec_at::<ElemSegment>(s, 0).0 {
            Err(e) => Err(e),
            Ok(v) => Ok(ModuleModel { elems: m.elems + v, ..m }),
        },
        10u8 => match vec_at::<FuncBody>(s, 0).0 {
            Err(e) => Err(e),
            Ok(v) => Ok(ModuleModel { codes: m.codes + v, ..m }),
        },
        11u8 => match vec_at::<DataSegment>(s, 0).0 {
            Err(e) => Err(e),
            Ok(v) => Ok(ModuleModel { data: m.data + v, ..m }),
        },
        _ => Ok(m),
    }
}

/// Appends the items of a vector section to the list that they belong to.
fn read_into<T: Item>(list: &mut Vec<T>, sec: &mut Reader) -> (res: Result<(), WasmError>)
    ensures
        final(sec).data == old(sec).data,
        match vec_at::<T>(old(sec).data@, old(sec).pos as int).0 {
            Ok(v) => res is Ok && types::views(final(list)@) == types::views(old(list)@) + v,
            Err(e) => res == Err::<(), WasmError>(e),
        },
{
    let mut v: Vec<T> = read_vec(sec)?;
    proof {
        types::lemma_views_add(list@, v@);
    }
    list.append(&mut v);
    Ok(())
}

/// Reads the section with number `id` into `module`.
fn read_section(id: u8, sec: &mut Reader, module: &mut WasmModule) -> (res: Result<(), WasmError>)
    requires
        old(sec).pos == 0,
    ensures
        match with_section(id, old(sec).data@, old(module)@) {
            Ok(m) => res is Ok && final(module)@ == m,
            Err(e) => res == Err::<(), WasmError>(e),
        },
{
    match id {
        1 => {
            read_into(&mut module.types, sec)?;
        },
        2 => {
            read_into(&mut module.imports, sec)?;
        },
        3 => {
            read_into(&mut module.funcs, sec)?;
            assert(types::views(module.funcs@) =~= module.funcs@);
            assert(types::views(old(module).funcs@) =~= old(module).funcs@);
        },
        4 => {
            read_into(&mut module.tables, sec)?;
            assert(types::views(module.tables@) =~= module.tables@);
            assert(types::views(old(module).tables@) =~= old(module).tables@);
        },
        5 => {
            read_into(&mut module.mems, sec)?;
            assert(types::views(module.mems@) =~= module.mems@);
            assert(types::views(old(module).mems@) =~= old(module).mems@);
        },
        6 => {
            read_into(&mut module.globals, sec)?;
        },
        7 => {
            read_into(&mut module.exports, sec)?;
        },
        8 => {
            module.start = Some(sec.read_u32()?);
        },
        9 => {
            read_into(&mut module.elems, sec)?;
        },
        10 => {
            read_into(&mut module.codes, sec)?;
        },
        11 => {
            read_into(&mut module.data, sec)?;
        },
        _ => {},
    }
    Ok(())
}

/// The module `m` extended by all sections from position `p` on.
pub open spec fn with_sections(d: Seq<u8>, p: int, m: ModuleModel) -> Result<ModuleModel, WasmError>
    decreases d.len() - p,
{
    if p >= d.len() {
        Ok(m)
    } else {
        match reader::u32_at(d, p + 1) {
            (Err(e), _) => Err(e),
            (Ok(n), q) => match reader::bytes_at(d, q, n as int) {
                (Err(e), _) => Err(e),
                (Ok(s), q2) => match with_section(d[p], s, m) {
                    Err(e) => Err(e),
                    Ok(m2) => with_sections(d, q2, m2),
                },
            },
        }
    }
}

/// The four bytes that every module starts with.
pub open spec fn magic() -> Seq<u8> {
    seq![0x00u8, 0x61, 0x73, 0x6D]
}

/// The four bytes of the version, which follow the magic bytes.
pub open spec fn version() -> Seq<u8> {
    seq![0x01u8, 0x00, 0x00, 0x00]
}

/// The module that a complete binary stands for.
pub open spec fn module_of(d: Seq<u8>) -> Result<ModuleModel, WasmError> {
    if d.len() < 4 {
        Err(WasmError::UnexpectedEof)
    } else if d.subrange(0, 4) != magic() {
        Err(WasmError::InvalidMagic)
    } else if d.len() < 8 {
        Err(WasmError::UnexpectedEof)
    } else if d.subrange(4, 8) != version() {
        Err(WasmError::InvalidVersion)
    } else {
        with_sections(d, 8, empty_module())
    }
}

/// Whether four bytes are the given ones.
fn is_four(s: &[u8], b: [u8; 4]) -> (r: bool)
    requires
        s.len() == 4,
    ensures
        r == (s@ == b@),
{
    let r: bool = s[0] == b[0] && s[1] == b[1] && s[2] == b[2] && s[3] == b[3];
    proof {
        if r {
            assert(s@ =~= b@);
        }
    }
    r
}

/// Parses a complete binary.
pub fn parse(bytes: &[u8]) -> (res: Result<WasmModule, WasmError>)
    ensures
        match module_of(bytes@) {
            Ok(m) => res matches Ok(x) && x@ == m,
            Err(e) => res == Err::<WasmModule, WasmError>(e),
        },
{
    let mut r = Reader::new(bytes);
    let four = r.read_bytes(4)?;
    let expected: [u8; 4] = [0x00, 0x61, 0x73, 0x6D];
    assert(expected@ =~= magic());
    if !is_four(four, expected) {
        return Err(WasmError::InvalidMagic);
    }
    let four = r.read_bytes(4)?;
    let expected: [u8; 4] = [0x01, 0x00, 0x00, 0x00];
    assert(expected@ =~= version());
    if !is_four(four, expected) {
        return Err(WasmError::InvalidVersion);
    }
    let mut module = WasmModule::default();
    while !r.is_empty()
        invariant
            r.data@ == bytes@,
            8 <= r.pos <= r.data.len(),
            bytes@.subrange(0, 4) == magic(),
            bytes@.subrange(4, 8) == version(),
            module_of(bytes@) == with_sections(bytes@, r.pos as int, module@),
        decreases bytes.len() - r.pos,
    {
        let id: u8 = r.read_byte()?;
        let len: u32 = r.read_u32()?;
        let mut sec = r.sub(len as usize)?;
        read_section(id, &mut sec, &mut module)?;
    }
    Ok(module)
}

/// The value of a constant expression: one constant instruction.
pub open spec fn const_expr(d: Seq<u8>) -> Result<Value, WasmError> {
    match reader::byte_at(d, 0) {
        (Err(e), _) => Err(e),
        (Ok(0x41u8), q) => match reader::i32_at(d, q).0 {
            Err(e) => Err(e),
            Ok(v) => Ok(Value::I32(v)),
        },
        (Ok(0x42u8), q) => match reader::i64_at(d, q).0 {
            Err(e) => Err(e),
            Ok(v) => Ok(Value::I64(v)),
        },
        (Ok(0x43u8), q) => match reader::f32_bits_at(d, q).0 {
            Err(e) => Err(e),
            Ok(v) => Ok(Value::F32(v)),
        },
        (Ok(0x44u8), q) => match reader::f64_bits_at(d, q).0 {
            Err(e) => Err(e),
            Ok(v) => Ok(Value::F64(v)),
        },
        (Ok(op), _) => Err(WasmError::InvalidOpcode(op)),
    }
}

/// Evaluates a constant expression (an initial value or an offset).
pub fn eval_const_expr(bytes: &[u8]) -> (r: Result<Value, WasmError>)
    ensures
        r == const_expr(bytes@),
{
    let mut r = Reader::new(bytes);
    let op: u8 = r.read_byte()?;
    match op {
        0x41 => Ok(Value::I32(r.read_i32()?)),
        0x42 => Ok(Value::I64(r.read_i64()?)),
        0x43 => Ok(Value::F32(r.read_f32()?)),
        0x44 => Ok(Value::F64(r.read_f64()?)),
        _ => Err(WasmError::InvalidOpcode(op)),
    }
}

// ---- Laws of the binary format ----

/// A section with its number, its length and its contents.
pub open spec fn section_bytes(id: u8, body: Seq<u8>) -> Seq<u8> {
    seq![id] + leb::unsigned_leb(body.len()) + body
}

proof fn lemma_run_prefix(d: Seq<u8>, t: Seq<u8>, p: int)
    requires
        0 <= p,
        p + reader::run_len(d, p) < d.len(),
    ensures
        reader::run_len(d + t, p) == reader::run_len(d, p),
    decreases d.len() - p,
{
    if d[p] & 0x80 != 0 {
        lemma_run_prefix(d, t, p + 1);
    }
}

/// A number that was read is read again when bytes follow.
proof fn lemma_u32_prefix(d: Seq<u8>, t: Seq<u8>, p: int)
    requires
        0 <= p,
        reader::u32_at(d, p).0 is Ok,
    ensures
        reader::u32_at(d + t, p) == reader::u32_at(d, p),
{
    let n = reader::run_len(d, p);
    lemma_run_prefix(d, t, p);
    assert((d + t).subrange(p, p + n + 1) =~= d.subrange(p, p + n + 1));
}

/// Sections that were read are read again when bytes follow.
proof fn lemma_sections_prefix(d: Seq<u8>, t: Seq<u8>, p: int, m: ModuleModel)
    requires
        0 <= p <= d.len(),
        with_sections(d, p, m) is Ok,
    ensures
        with_sections(d + t, p, m) == with_sections(
            d + t,
            d.len() as int,
            with_sections(d, p, m)->Ok_0,
        ),
    decreases d.len() - p,
{
    if p < d.len() {
        lemma_u32_prefix(d, t, p + 1);
        let (n, q) = (reader::u32_at(d, p + 1).0->Ok_0, reader::u32_at(d, p + 1).1);
        let body = d.subrange(q, q + n);
        assert((d + t).subrange(q, q + n) =~= body);
        lemma_sections_prefix(d, t, q + n, with_section(d[p], body, m)->Ok_0);
    }
}

/// A section that follows a complete binary extends the module that the
/// binary stands for.
pub proof fn law_section_appended(d: Seq<u8>, id: u8, body: Seq<u8>)
    requires
        module_of(d) is Ok,
        body.len() <= u32::MAX,
    ensures
        module_of(d + section_bytes(id, body)) == with_section(id, body, module_of(d)->Ok_0),
{
    let s = section_bytes(id, body);
    law_section_between(d, id, body, seq![]);
    assert(d + s + Seq::<u8>::empty() =~= d + s);
}

proof fn lemma_run_shift(a: Seq<u8>, t: Seq<u8>, k: int)
    requires
        0 <= k,
    ensures
        reader::run_len(a + t, a.len() + k) == reader::run_len(t, k),
    decreases t.len() - k,
{
    if k < t.len() {
        assert((a + t)[a.len() + k] == t[k]);
        if t[k] & 0x80 != 0 {
            lemma_run_shift(a, t, k + 1);
        }
    }
}

/// Sections are read alike whatever bytes stand before them.
proof fn lemma_sections_shift(a: Seq<u8>, t: Seq<u8>, k: int, m: ModuleModel)
    requires
        0 <= k,
    ensures
        with_sections(a + t, a.len() + k, m) == with_sections(t, k, m),
    decreases t.len() - k,
{
    if k < t.len() {
        let d = a + t;
        let p = a.len() + k;
        assert(d[p] == t[k]);
        lemma_run_shift(a, t, k + 1);
        let n = reader::run_len(t, k + 1);
        if k + 1 + n < t.len() {
            assert(d.subrange(p + 1, p + 1 + n + 1) =~= t.subrange(k + 1, k + 1 + n + 1));
            if let (Ok(size), q) = reader::u32_at(t, k + 1) {
                if q + size <= t.len() {
                    let body = t.subrange(q, q + size);
                    assert(d.subrange(a.len() + q, a.len() + q + size) =~= body);
                    if let Ok(m2) = with_section(t[k], body, m) {
                        lemma_sections_shift(a, t, q + size, m2);
                    }
                }
            }
        }
    }
}

/// Bytes that follow a complete binary are read as sections that extend the
/// module that the binary stands for.
pub proof fn law_sections_join(d: Seq<u8>, t: Seq<u8>)
    requires
        module_of(d) is Ok,
    ensures
        module_of(d + t) == with_sections(t, 0, module_of(d)->Ok_0),
{
    let e = d + t;
    assert(e.subrange(0, 4) =~= d.subrange(0, 4));
    assert(e.subrange(4, 8) =~= d.subrange(4, 8));
    lemma_sections_prefix(d, t, 8, empty_module());
    lemma_sections_shift(d, t, 0, module_of(d)->Ok_0);
}

/// A section at the start of some bytes is read as that section.
proof fn lemma_section_read(id: u8, body: Seq<u8>, t: Seq<u8>)
    requires
        body.len() <= u32::MAX,
    ensures
        ({
            let u = section_bytes(id, body) + t;
            let (n, q) = reader::u32_at(u, 1);
            &&& u.len() > 0
            &&& u[0] == id
            &&& n == Ok::<u32, WasmError>(body.len() as u32)
            &&& reader::bytes_at(u, q, body.len() as int) == (
                Ok::<Seq<u8>, WasmError>(body),
                section_bytes(id, body).len() as int,
            )
        }),
{
    let size = leb::unsigned_leb(body.len());
    let u = section_bytes(id, body) + t;
    let q: int = 1 + size.len() as int;
    assert(u.subrange(1, q) =~= size);
    leb::law_u32_round_trip(u, 1, body.len() as u32);
    assert(u.subrange(q, q + body.len()) =~= body);
}

/// A section at the start of some bytes is read first, and what follows it
/// next.
#[verifier::spinoff_prover]
#[verifier::rlimit(40)]
proof fn lemma_section_first(id: u8, body: Seq<u8>, t: Seq<u8>, m: ModuleModel)
    requires
        body.len() <= u32::MAX,
    ensures
        with_sections(section_bytes(id, body) + t, 0, m) == (match with_section(id, body, m) {
            Err(e) => Err(e),
            Ok(m2) => with_sections(t, 0, m2),
        }),
{
    let s = section_bytes(id, body);
    lemma_section_read(id, body, t);
    let r = with_section(id, body, m);
    if let Ok(m2) = r {
        lemma_sections_shift(s, t, 0, m2);
    }
}

/// A section between whole sections extends the module that the sections
/// before it stand for, and the sections behind it extend that.
pub proof fn law_section_between(d: Seq<u8>, id: u8, body: Seq<u8>, t: Seq<u8>)
    requires
        module_of(d) is Ok,
        body.len() <= u32::MAX,
    ensures
        module_of(d + section_bytes(id, body) + t) == (match with_section(
            id,
            body,
            module_of(d)->Ok_0,
        ) {
            Err(e) => Err(e),
            Ok(m) => with_sections(t, 0, m),
        }),
{
    let s = section_bytes(id, body);
    assert(d + s + t =~= d + (s + t));
    law_sections_join(d, s + t);
    lemma_section_first(id, body, t, module_of(d)->Ok_0);
}

/// A custom section, and one of an unknown number, changes nothing, wherever
/// it stands between whole sections.
pub proof fn law_other_sections_skipped(d: Seq<u8>, id: u8, body: Seq<u8>, t: Seq<u8>)
    requires
        module_of(d) is Ok,
        body.len() <= u32::MAX,
        id == 0 || id > 11,
    ensures
        module_of(d + section_bytes(id, body) + t) == module_of(d + t),
{
    law_section_between(d, id, body, t);
    law_sections_join(d, t);
}

} // verus!
