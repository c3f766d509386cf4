//! Value, module and error types of the WebAssembly runtime, and the
//! addresses and envelopes of the mail system that connects the cells.
use vstd::prelude::*;

verus! {

/// The views of all elements of a sequence, in order.
pub open spec fn views<T: View>(s: Seq<T>) -> Seq<T::V> {
    Seq::new(s.len(), |i: int| s[i].view())
}

/// Appending an element appends its view.
pub proof fn lemma_views_push<T: View>(s: Seq<T>, x: T)
    ensures
        views(s.push(x)) == views(s).push(x.view()),
{
    assert(views(s.push(x)) =~= views(s).push(x.view()));
}

/// The views of a concatenation are the concatenated views.
pub proof fn lemma_views_add<T: View>(a: Seq<T>, b: Seq<T>)
    ensures
        views(a + b) == views(a) + views(b),
{
    assert(views(a + b) =~= views(a) + views(b));
}

/// Replacing an element replaces its view.
pub proof fn lemma_views_update<T: View>(s: Seq<T>, i: int, x: T)
    requires
        0 <= i < s.len(),
    ensures
        views(s.update(i, x)) == views(s).update(i, x.view()),
{
    assert(views(s.update(i, x)) =~= views(s).update(i, x.view()));
}

/// A WebAssembly value type.
#[derive(Debug, Clone, Copy, PartialEq, Eq, Structural)]
pub enum ValType {
    I32,
    I64,
    F32,
    F64,
}

/// A runtime value. Floating-point values are kept as raw bit patterns.
#[derive(Debug, Clone, Copy, PartialEq, Eq, Structural)]
pub enum Value {
    I32(i32),
    I64(i64),
    F32(u32),
    F64(u64),
}

/// The all-zero value of a type.
pub open spec fn zero_of(ty: ValType) -> Value {
    match ty {
        ValType::I32 => Value::I32(0),
        ValType::I64 => Value::I64(0),
        ValType::F32 => Value::F32(0),
        ValType::F64 => Value::F64(0),
    }
}

/// The type of a value.
pub open spec fn type_of(v: Value) -> ValType {
    match v {
        Value::I32(_) => ValType::I32,
        Value::I64(_) => ValType::I64,
        Value::F32(_) => ValType::F32,
        Value::F64(_) => ValType::F64,
    }
}

impl Value {
    /// The all-zero value of type `ty`.
    pub fn default_for(ty: ValType) -> (r: Self)
        ensures
            r == zero_of(ty),
    {
        match ty {
            ValType::I32 => Value::I32(0),
            ValType::I64 => Value::I64(0),
            ValType::F32 => Value::F32(0),
            ValType::F64 => Value::F64(0),
        }
    }

    /// The number held, if this is an `i32`.
    pub fn as_i32(self) -> (r: Option<i32>)
        ensures
            r == (match self {
                Value::I32(v) => Some(v),
                _ => None::<i32>,
            }),
    {
        if let Value::I32(v) = self {
            Some(v)
        } else {
            None
        }
    }

    /// The number held, if this is an `i64`.
    pub fn as_i64(self) -> (r: Option<i64>)
        ensures
            r == (match self {
                Value::I64(v) => Some(v),
                _ => None::<i64>,
            }),
    {
        if let Value::I64(v) = self {
            Some(v)
        } else {
            None
        }
    }

    /// The bit pattern held, if this is a 32-bit float.
    pub fn as_f32b(self) -> (r: Option<u32>)
        ensures
            r == (match self {
                Value::F32(v) => Some(v),
                _ => None::<u32>,
            }),
    {
        if let Value::F32(v) = self {
            Some(v)
        } else {
            None
        }
    }

    /// The bit pattern held, if this is a 64-bit float.
    pub fn as_f64b(self) -> (r: Option<u64>)
        ensures
            r == (match self {
                Value::F64(v) => Some(v),
                _ => None::<u64>,
            }),
    {
        if let Value::F64(v) = self {
            Some(v)
        } else {
            None
        }
    }

    /// The type of the value.
    pub fn ty(self) -> (r: ValType)
        ensures
            r == type_of(self),
    {
        match self {
            Value::I32(_) => ValType::I32,
            Value::I64(_) => ValType::I64,
            Value::F32(_) => ValType::F32,
            Value::F64(_) => ValType::F64,
        }
    }

    /// Whether any bit of the value is set.
    pub fn is_true(self) -> (r: bool)
        ensures
            r == (self != zero_of(type_of(self))),
    {
        match self {
            Value::I32(v) => v != 0,
            Value::I64(v) => v != 0,
            Value::F32(v) => v != 0,
            Value::F64(v) => v != 0,
        }
    }
}

/// The signature of a function.
#[derive(Debug, PartialEq, Eq)]
pub struct FuncType {
    pub params: Vec<ValType>,
    pub results: Vec<ValType>,
}

/// Mathematical model of a [`FuncType`].
#[verifier::ext_equal]
pub struct FuncTypeModel {
    pub params: Seq<ValType>,
    pub results: Seq<ValType>,
}

impl View for FuncType {
    type V = FuncTypeModel;

    open spec fn view(&self) -> FuncTypeModel {
        FuncTypeModel { params: self.params@, results: self.results@ }
    }
}

impl Clone for FuncType {
    fn clone(&self) -> (r: Self)
        ensures
            r@ == self@,
    {
        FuncType { params: self.params.clone(), results: self.results.clone() }
    }
}

/// Whether two type lists are equal.
fn same_types(a: &Vec<ValType>, b: &Vec<ValType>) -> (r: bool)
    ensures
        r == (a@ == b@),
{
    if a.len() != b.len() {
        return false;
    }
    let mut i: usize = 0;
    while i < a.len()
        invariant
            i <= a.len(),
            a.len() == b.len(),
            forall|j: int| 0 <= j < i ==> a@[j] == b@[j],
        decreases a.len() - i,
    {
        if a[i] != b[i] {
            return false;
        }
        i = i + 1;
    }
    assert(a@ =~= b@);
    true
}

impl FuncType {
    /// Whether two signatures have the same parameters and results.
    pub fn same_as(&self, other: &FuncType) -> (r: bool)
        ensures
            r == (self@ == other@),
    {
        same_types(&self.params, &other.params) && same_types(&self.results, &other.results)
    }
}

/// A minimum size and an optional maximum.
#[derive(Debug, Clone, Copy, PartialEq, Eq, Structural)]
pub struct Limits {
    pub min: u32,
    pub max: Option<u32>,
}

/// The limits of a memory, in pages.
#[derive(Debug, Clone, Copy, PartialEq, Eq, Structural)]
pub struct MemType(pub Limits);

/// The limits of a table of function references.
#[derive(Debug, Clone, Copy, PartialEq, Eq, Structural)]
pub struct TableType {
    pub limits: Limits,
}

/// The type and mutability of a global.
#[derive(Debug, Clone, Copy, PartialEq, Eq, Structural)]
pub struct GlobalType {
    pub ty: ValType,
    pub mutable: bool,
}

/// A global of an instance, with its current value.
#[derive(Debug, Clone, Copy, PartialEq, Eq, Structural)]
pub struct GlobalInst {
    pub ty: GlobalType,
    pub value: Value,
}

/// What an import stands for.
#[derive(Debug, Clone, Copy, PartialEq, Eq, Structural)]
pub enum ImportDesc {
    /// A function, by type index.
    Func(u32),
    Table(TableType),
    Mem(MemType),
    Global(GlobalType),
}

/// An import of a module.
#[derive(Debug, Clone)]
pub struct Import {
    pub module: String,
    pub name: String,
    pub desc: ImportDesc,
}

/// Mathematical model of an [`Import`].
#[verifier::ext_equal]
pub struct ImportModel {
    pub module: Seq<char>,
    pub name: Seq<char>,
    pub desc: ImportDesc,
}

impl View for Import {
    type V = ImportModel;

    open spec fn view(&self) -> ImportModel {
        ImportModel { module: self.module@, name: self.name@, desc: self.desc }
    }
}

/// What an export stands for, by index.
#[derive(Debug, Clone, Copy, PartialEq, Eq, Structural)]
pub enum ExportDesc {
    Func(u32),
    Table(u32),
    Mem(u32),
    Global(u32),
}

/// An export of a module.
#[derive(Debug, Clone)]
pub struct Export {
    pub name: String,
    pub desc: ExportDesc,
}

/// Mathematical model of an [`Export`].
#[verifier::ext_equal]
pub struct ExportModel {
    pub name: Seq<char>,
    pub desc: ExportDesc,
}

impl View for Export {
    type V = ExportModel;

    open spec fn view(&self) -> ExportModel {
        ExportModel { name: self.name@, desc: self.desc }
    }
}

/// A run of locals of one type.
#[derive(Debug, Clone, Copy, PartialEq, Eq, Structural)]
pub struct LocalEntry {
    pub count: u32,
    pub ty: ValType,
}

/// The body of a function: its locals and its undecoded instructions.
#[derive(Debug, Clone)]
pub struct FuncBody {
    pub locals: Vec<LocalEntry>,
    pub code: Vec<u8>,
}

/// Mathematical model of a [`FuncBody`].
#[verifier::ext_equal]
pub struct FuncBodyModel {
    pub locals: Seq<LocalEntry>,
    pub code: Seq<u8>,
}

impl View for FuncBody {
    type V = FuncBodyModel;

    open spec fn view(&self) -> FuncBodyModel {
        FuncBodyModel { locals: self.locals@, code: self.code@ }
    }
}

/// Bytes to be placed in a memory at instantiation.
#[derive(Debug, Clone)]
pub struct DataSegment {
    pub mem_idx: u32,
    /// Constant expression for the offset.
    pub offset: Vec<u8>,
    pub init: Vec<u8>,
}

/// Mathematical model of a [`DataSegment`].
#[verifier::ext_equal]
pub struct DataSegmentModel {
    pub mem_idx: u32,
    pub offset: Seq<u8>,
    pub init: Seq<u8>,
}

impl View for DataSegment {
    type V = DataSegmentModel;

    open spec fn view(&self) -> DataSegmentModel {
        DataSegmentModel { mem_idx: self.mem_idx, offset: self.offset@, init: self.init@ }
    }
}

/// Function indices to be placed in a table at instantiation.
#[derive(Debug, Clone)]
pub struct ElemSegment {
    pub table_idx: u32,
    /// Constant expression for the offset.
    pub offset: Vec<u8>,
    pub indices: Vec<u32>,
}

/// Mathematical model of an [`ElemSegment`].
#[verifier::ext_equal]
pub struct ElemSegmentModel {
    pub table_idx: u32,
    pub offset: Seq<u8>,
    pub indices: Seq<u32>,
}

impl View for ElemSegment {
    type V = ElemSegmentModel;

    open spec fn view(&self) -> ElemSegmentModel {
        ElemSegmentModel {
            table_idx: self.table_idx,
            offset: self.offset@,
            indices: self.indices@,
        }
    }
}

/// The address of a cell, from 0 to [`CellId::MAX`].
#[derive(Debug, Clone, Copy, PartialEq, Eq, Structural)]
pub struct CellId(pub u8);

impl CellId {
    /// The highest cell address.
    pub const MAX: u8 = 6;

    /// The cell with address `id`, if there is one.
    pub fn new(id: u8) -> (r: Option<Self>)
        ensures
            r == (if id <= 6 {
                Some(CellId(id))
            } else {
                None
            }),
    {
        if id <= Self::MAX {
            Some(CellId(id))
        } else {
            None
        }
    }

    /// The address as an index.
    pub fn as_usize(self) -> (r: usize)
        ensures
            r == self.0,
    {
        self.0 as usize
    }
}

/// Direction of a message, seen from a cell.
#[derive(Debug, Clone, Copy, PartialEq, Eq, Structural)]
pub enum MailDirection {
    Inbound,
    Outbound,
}

/// The envelope that the system interface sends through the mail system.
#[derive(Debug, Clone)]
pub struct EmailMessage {
    pub from: CellId,
    pub to: CellId,
    /// Names the system call.
    pub subject: String,
    /// The payload.
    pub body: Vec<u8>,
    /// Filled in by the kernel when it answers.
    pub reply: Option<Vec<u8>>,
}

/// Mathematical model of an [`EmailMessage`].
#[verifier::ext_equal]
pub struct EmailModel {
    pub from: CellId,
    pub to: CellId,
    pub subject: Seq<char>,
    pub body: Seq<u8>,
    pub reply: Option<Seq<u8>>,
}

impl View for EmailMessage {
    type V = EmailModel;

    open spec fn view(&self) -> EmailModel {
        EmailModel {
            from: self.from,
            to: self.to,
            subject: self.subject@,
            body: self.body@,
            reply: match self.reply {
                Some(r) => Some(r@),
                None => None,
            },
        }
    }
}

/// What a system interface call comes back with.
#[derive(Debug, Clone)]
pub enum WasiResult {
    Values(Vec<Value>),
    Errno(WasiErrno),
    Exit(i32),
}

/// The error numbers of the system interface that are used here.
#[derive(Debug, Clone, Copy, PartialEq, Eq, Structural)]
pub enum WasiErrno {
    Success,
    Badf,
    Inval,
    Nosys,
    Io,
}

/// The numeric code of an error number.
pub open spec fn errno_code(e: WasiErrno) -> i32 {
    match e {
        WasiErrno::Success => 0,
        WasiErrno::Badf => 8,
        WasiErrno::Inval => 28,
        WasiErrno::Nosys => 52,
        WasiErrno::Io => 29,
    }
}

impl WasiErrno {
    /// The numeric code.
    pub fn code(self) -> (r: i32)
        ensures
            r == errno_code(self),
    {
        match self {
            WasiErrno::Success => 0,
            WasiErrno::Badf => 8,
            WasiErrno::Inval => 28,
            WasiErrno::Nosys => 52,
            WasiErrno::Io => 29,
        }
    }
}

/// Everything that can go wrong in decoding, loading and running a module.
#[derive(Debug, Clone, Copy, PartialEq, Eq, Structural)]
pub enum WasmError {
    InvalidMagic,
    InvalidVersion,
    UnexpectedEof,
    InvalidSection(u8),
    InvalidOpcode(u8),
    InvalidType,
    TypeMismatch,
    StackUnderflow,
    CallStackOverflow,
    UndefinedLocal(u32),
    UndefinedGlobal(u32),
    UndefinedFunc(u32),
    MemoryOutOfBounds,
    DivisionByZero,
    IntegerOverflow,
    UnreachableExecuted,
    ExportNotFound,
    NoFreeCell,
    CellOutOfRange(u8),
    WasiError(WasiErrno),
    Trap(TrapCode),
}

/// Why execution trapped.
#[derive(Debug, Clone, Copy, PartialEq, Eq, Structural)]
pub enum TrapCode {
    Unreachable,
    MemoryOutOfBounds,
    DivisionByZero,
    IntegerOverflow,
    InvalidConversionToInt,
    StackOverflow,
    IndirectCallTypeMismatch,
}

// ---- Laws ----

/// The numbers of the error codes.
pub proof fn law_error_codes()
    ensures
        errno_code(WasiErrno::Success) == 0,
        errno_code(WasiErrno::Badf) == 8,
        errno_code(WasiErrno::Inval) == 28,
        errno_code(WasiErrno::Io) == 29,
        errno_code(WasiErrno::Nosys) == 52,
{
}

/// The zero of each type has that type, and all its bits are zero.
pub proof fn law_zero(ty: ValType)
    ensures
        type_of(zero_of(ty)) == ty,
        match zero_of(ty) {
            Value::I32(v) => v == 0,
            Value::I64(v) => v == 0,
            Value::F32(v) => v == 0,
            Value::F64(v) => v == 0,
        },
{
}

} // verus!
