//! The system interface: every system call of a module becomes a message to
//! a kernel cell, and the reply is written back to the module's memory.
use std::sync::Arc;

use vstd::prelude::*;

use crate::bytes;
use crate::host;
use crate::host::{HostFunc, Outcome};
use crate::instance::{Func, FuncKind, FuncModel};
use crate::memory;
use crate::memory::{Memory, MemoryModel};
use crate::types;
use crate::types::{
    CellId, EmailMessage, EmailModel, FuncType, FuncTypeModel, ValType, Value, WasiErrno, WasmError,
};

verus! {

/// The address of the cell of the scheduler.
pub const CELL_SCHEDULER: u8 = 0;

/// The address of the cell of the file system.
pub const CELL_FS: u8 = 1;

/// The address of the cell of standard input.
pub const CELL_STDIN: u8 = 2;

/// The address of the cell of standard output.
pub const CELL_STDOUT: u8 = 3;

/// The address of the cell of standard error.
pub const CELL_STDERR: u8 = 4;

/// The address of the cell of the timer.
pub const CELL_TIMER: u8 = 5;

/// The address of the cell of the entropy source.
pub const CELL_ENTROPY: u8 = 6;

/// The kernel's mail system, as the system interface uses it.
pub trait Mailbox: Send + Sync {
    /// Whether `reply` can come back for `msg`. An implementation that says
    /// nothing else may reply anything.
    open spec fn replies(&self, msg: EmailModel, reply: Seq<u8>) -> bool {
        true
    }

    /// Whether `n` bytes from `from` can be waiting.
    open spec fn holds(&self, from: CellId, n: usize) -> bool {
        true
    }

    /// Whether the clock can show `t`.
    open spec fn shows(&self, t: u64) -> bool {
        true
    }

    /// Sends a message and waits for the reply.
    fn send_recv(&self, msg: EmailMessage) -> (reply: Vec<u8>)
        ensures
            self.replies(msg@, reply@),
    ;

    /// How many bytes from a cell are waiting.
    fn bytes_ready(&self, from: CellId) -> (n: usize)
        ensures
            self.holds(from, n),
    ;

    /// Nanoseconds since boot.
    fn now_ns(&self) -> (t: u64)
        ensures
            self.shows(t),
    ;
}

/// What the system interface knows of the process that it serves.
pub struct WasiCtx {
    pub cell: CellId,
    /// The arguments, each ending in a zero byte.
    pub args: Vec<Vec<u8>>,
    /// The environment, as `KEY=VALUE` with a zero byte at the end.
    pub env: Vec<Vec<u8>>,
    pub mailbox: Box<dyn Mailbox>,
}

impl WasiCtx {
    /// The context of one process.
    pub fn new(cell: CellId, args: Vec<Vec<u8>>, env: Vec<Vec<u8>>, mailbox: Box<dyn Mailbox>) -> (r:
        Self)
        ensures
            r == (WasiCtx { cell, args, env, mailbox }),
    {
        WasiCtx { cell, args, env, mailbox }
    }
}

/// The functions of the system interface.
#[derive(Debug, Clone, Copy, PartialEq, Eq, Structural)]
pub enum WasiFn {
    FdWrite,
    FdRead,
    FdClose,
    PathOpen,
    ProcExit,
    ArgsSizesGet,
    ArgsGet,
    EnvironSizesGet,
    EnvironGet,
    ClockTimeGet,
    RandomGet,
    PollOneoff,
    FdSeek,
}

/// The name under which a module imports the function.
pub open spec fn fn_name(w: WasiFn) -> Seq<char> {
    match w {
        WasiFn::FdWrite => "fd_write"@,
        WasiFn::FdRead => "fd_read"@,
        WasiFn::FdClose => "fd_close"@,
        WasiFn::PathOpen => "path_open"@,
        WasiFn::ProcExit => "proc_exit"@,
        WasiFn::ArgsSizesGet => "args_sizes_get"@,
        WasiFn::ArgsGet => "args_get"@,
        WasiFn::EnvironSizesGet => "environ_sizes_get"@,
        WasiFn::EnvironGet => "environ_get"@,
        WasiFn::ClockTimeGet => "clock_time_get"@,
        WasiFn::RandomGet => "random_get"@,
        WasiFn::PollOneoff => "poll_oneoff"@,
        WasiFn::FdSeek => "fd_seek"@,
    }
}

/// The name under which a module imports the function.
pub fn name_of(w: WasiFn) -> (r: &'static str)
    ensures
        r@ == fn_name(w),
{
    match w {
        WasiFn::FdWrite => "fd_write",
        WasiFn::FdRead => "fd_read",
        WasiFn::FdClose => "fd_close",
        WasiFn::PathOpen => "path_open",
        WasiFn::ProcExit => "proc_exit",
        WasiFn::ArgsSizesGet => "args_sizes_get",
        WasiFn::ArgsGet => "args_get",
        WasiFn::EnvironSizesGet => "environ_sizes_get",
        WasiFn::EnvironGet => "environ_get",
        WasiFn::ClockTimeGet => "clock_time_get",
        WasiFn::RandomGet => "random_get",
        WasiFn::PollOneoff => "poll_oneoff",
        WasiFn::FdSeek => "fd_seek",
    }
}

/// The signature of the function.
pub open spec fn fn_type(w: WasiFn) -> FuncTypeModel {
    FuncTypeModel {
        params: match w {
            WasiFn::FdWrite => seq![ValType::I32, ValType::I32, ValType::I32, ValType::I32],
            WasiFn::FdRead => seq![ValType::I32, ValType::I32, ValType::I32, ValType::I32],
            WasiFn::FdClose => seq![ValType::I32],
            WasiFn::PathOpen => seq![ValType::I32, ValType::I32, ValType::I32, ValType::I32, ValType::I32, ValType::I64, ValType::I64, ValType::I32, ValType::I32],
            WasiFn::ProcExit => seq![ValType::I32],
            WasiFn::ArgsSizesGet => seq![ValType::I32, ValType::I32],
            WasiFn::ArgsGet => seq![ValType::I32, ValType::I32],
            WasiFn::EnvironSizesGet => seq![ValType::I32, ValType::I32],
            WasiFn::EnvironGet => seq![ValType::I32, ValType::I32],
            WasiFn::ClockTimeGet => seq![ValType::I32, ValType::I64, ValType::I32],
            WasiFn::RandomGet => seq![ValType::I32, ValType::I32],
            WasiFn::PollOneoff => seq![ValType::I32, ValType::I32, ValType::I32, ValType::I32],
            WasiFn::FdSeek => seq![ValType::I32, ValType::I64, ValType::I32, ValType::I32],
        },
        results: if w == WasiFn::ProcExit {
            seq![]
        } else {
            seq![ValType::I32]
        },
    }
}

/// The signature of the function.
pub fn type_of(w: WasiFn) -> (r: FuncType)
    ensures
        r@ == fn_type(w),
{
    let params: Vec<ValType> = match w {
        WasiFn::FdWrite => vec![ValType::I32, ValType::I32, ValType::I32, ValType::I32],
        WasiFn::FdRead => vec![ValType::I32, ValType::I32, ValType::I32, ValType::I32],
        WasiFn::FdClose => vec![ValType::I32],
        WasiFn::PathOpen => vec![ValType::I32, ValType::I32, ValType::I32, ValType::I32, ValType::I32, ValType::I64, ValType::I64, ValType::I32, ValType::I32],
        WasiFn::ProcExit => vec![ValType::I32],
        WasiFn::ArgsSizesGet => vec![ValType::I32, ValType::I32],
        WasiFn::ArgsGet => vec![ValType::I32, ValType::I32],
        WasiFn::EnvironSizesGet => vec![ValType::I32, ValType::I32],
        WasiFn::EnvironGet => vec![ValType::I32, ValType::I32],
        WasiFn::ClockTimeGet => vec![ValType::I32, ValType::I64, ValType::I32],
        WasiFn::RandomGet => vec![ValType::I32, ValType::I32],
        WasiFn::PollOneoff => vec![ValType::I32, ValType::I32, ValType::I32, ValType::I32],
        WasiFn::FdSeek => vec![ValType::I32, ValType::I64, ValType::I32, ValType::I32],
    };
    let results: Vec<ValType> = if w == WasiFn::ProcExit {
        vec![]
    } else {
        vec![ValType::I32]
    };
    let r = FuncType { params, results };
    assert(r@.params =~= fn_type(w).params);
    assert(r@.results =~= fn_type(w).results);
    r
}

/// All functions, in the order in which they are offered.
pub open spec fn all_fns() -> Seq<WasiFn> {
    seq![
        WasiFn::FdWrite,
        WasiFn::FdRead,
        WasiFn::FdClose,
        WasiFn::PathOpen,
        WasiFn::ProcExit,
        WasiFn::ArgsSizesGet,
        WasiFn::ArgsGet,
        WasiFn::EnvironSizesGet,
        WasiFn::EnvironGet,
        WasiFn::ClockTimeGet,
        WasiFn::RandomGet,
        WasiFn::PollOneoff,
        WasiFn::FdSeek,
    ]
}

/// All functions, in the order in which they are offered.
pub fn every_fn() -> (r: Vec<WasiFn>)
    ensures
        r@ == all_fns(),
{
    let r = vec![
        WasiFn::FdWrite,
        WasiFn::FdRead,
        WasiFn::FdClose,
        WasiFn::PathOpen,
        WasiFn::ProcExit,
        WasiFn::ArgsSizesGet,
        WasiFn::ArgsGet,
        WasiFn::EnvironSizesGet,
        WasiFn::EnvironGet,
        WasiFn::ClockTimeGet,
        WasiFn::RandomGet,
        WasiFn::PollOneoff,
        WasiFn::FdSeek,
    ];
    assert(r@ =~= all_fns());
    r
}

// ---- Arguments ----

/// Argument `k` as an `i32`, or `default` if it is of another type.
pub open spec fn arg_i32(args: Seq<Value>, k: int, default: i32) -> i32 {
    match args[k] {
        Value::I32(v) => v,
        _ => default,
    }
}

/// Argument `k` as an address.
pub open spec fn arg_ptr(args: Seq<Value>, k: int) -> u32 {
    arg_i32(args, k, 0) as u32
}

/// Argument `k` as an `i64`, or zero if it is of another type.
pub open spec fn arg_i64(args: Seq<Value>, k: int) -> i64 {
    match args[k] {
        Value::I64(v) => v,
        _ => 0,
    }
}

fn get_i32(args: &[Value], k: usize, default: i32) -> (r: i32)
    requires
        k < args.len(),
    ensures
        r == arg_i32(args@, k as int, default),
{
    match args[k].as_i32() {
        Some(v) => v,
        None => default,
    }
}

fn get_ptr(args: &[Value], k: usize) -> (r: u32)
    requires
        k < args.len(),
    ensures
        r == arg_ptr(args@, k as int),
{
    get_i32(args, k, 0) as u32
}

fn get_i64(args: &[Value], k: usize) -> (r: i64)
    requires
        k < args.len(),
    ensures
        r == arg_i64(args@, k as int),
{
    match args[k].as_i64() {
        Some(v) => v,
        None => 0,
    }
}

/// The cell that serves a file descriptor: standard input, output and error
/// have their own, all others belong to the file system.
pub open spec fn cell_of_fd(fd: i32) -> CellId {
    if fd == 0 {
        CellId(CELL_STDIN)
    } else if fd == 1 {
        CellId(CELL_STDOUT)
    } else if fd == 2 {
        CellId(CELL_STDERR)
    } else {
        CellId(CELL_FS)
    }
}

fn fd_to_cell(fd: i32) -> (r: CellId)
    ensures
        r == cell_of_fd(fd),
{
    match fd {
        0 => CellId(CELL_STDIN),
        1 => CellId(CELL_STDOUT),
        2 => CellId(CELL_STDERR),
        _ => CellId(CELL_FS),
    }
}

// ---- Moving bytes between messages and memory ----

/// The memory so far, and whether every store succeeded.
pub type Stored = (MemoryModel, Result<(), WasmError>);

/// One more store, unless an earlier one failed.
pub open spec fn store_next(s: Stored, addr: u32, v: nat, n: nat) -> Stored {
    match s.1 {
        Err(_) => s,
        Ok(_) => match memory::stored(s.0, addr, v, n) {
            Ok(m) => (m, Ok(())),
            Err(e) => (s.0, Err(e)),
        },
    }
}

/// `b` written byte by byte from `ptr` on, up to the first byte that fails.
pub open spec fn store_bytes(m: MemoryModel, ptr: u32, b: Seq<u8>) -> Stored
    decreases b.len(),
{
    if b.len() == 0 {
        (m, Ok(()))
    } else {
        store_next(
            store_bytes(m, ptr, b.drop_last()),
            ptr.wrapping_add((b.len() - 1) as u32),
            b.last() as nat,
            1,
        )
    }
}

/// As [`store_bytes`], unless an earlier store failed.
pub open spec fn store_bytes_next(s: Stored, ptr: u32, b: Seq<u8>) -> Stored {
    match s.1 {
        Err(_) => s,
        Ok(_) => store_bytes(s.0, ptr, b),
    }
}

/// `n` bytes read one by one from `ptr` on.
pub open spec fn load_bytes(m: MemoryModel, ptr: u32, n: nat) -> Result<Seq<u8>, WasmError>
    decreases n,
{
    if n == 0 {
        Ok(seq![])
    } else {
        match load_bytes(m, ptr, (n - 1) as nat) {
            Err(e) => Err(e),
            Ok(b) => match memory::loaded(m, ptr.wrapping_add((n - 1) as u32), 1) {
                Err(e) => Err(e),
                Ok(v) => Ok(b.push(v as u8)),
            },
        }
    }
}

/// The address of entry `i` of a list of buffers; an entry is the address
/// and the length of a buffer.
pub open spec fn iov_addr(iov: u32, i: u32) -> u32 {
    iov.wrapping_add(i.wrapping_mul(8))
}

/// The contents of the first `n` buffers of a list, one after the other.
pub open spec fn gathered(m: MemoryModel, iov: u32, n: nat) -> Result<Seq<u8>, WasmError>
    decreases n,
{
    if n == 0 {
        Ok(seq![])
    } else {
        let at = iov_addr(iov, (n - 1) as u32);
        match gathered(m, iov, (n - 1) as nat) {
            Err(e) => Err(e),
            Ok(b) => match memory::loaded(m, at, 4) {
                Err(e) => Err(e),
                Ok(ptr) => match memory::loaded(m, at.wrapping_add(4), 4) {
                    Err(e) => Err(e),
                    Ok(len) => match load_bytes(m, ptr as u32, len) {
                        Err(e) => Err(e),
                        Ok(c) => Ok(b + c),
                    },
                },
            },
        }
    }
}

/// The total length of the first `n` buffers of a list, in 32 bits; a length
/// that cannot be read counts as zero.
pub open spec fn capacity(m: MemoryModel, iov: u32, n: nat) -> u32
    decreases n,
{
    if n == 0 {
        0
    } else {
        let at = iov_addr(iov, (n - 1) as u32);
        capacity(m, iov, (n - 1) as nat).wrapping_add(
            match memory::loaded(m, at.wrapping_add(4), 4) {
                Ok(len) => len as u32,
                Err(_) => 0,
            },
        )
    }
}

/// Where the part of `data` that goes to a buffer of `len` bytes ends, when
/// the first `src` bytes have been used.
pub open spec fn part_end(data: Seq<u8>, src: int, len: nat) -> int {
    if src + len < data.len() {
        src + len
    } else {
        data.len() as int
    }
}

/// `data`, from `src` on, distributed over the buffers from `i` to `n` of a
/// list, until it is used up.
pub open spec fn scattered(
    m: MemoryModel,
    iov: u32,
    i: nat,
    n: nat,
    data: Seq<u8>,
    src: int,
) -> Stored
    decreases n - i,
{
    if i >= n {
        (m, Ok(()))
    } else {
        let at = iov_addr(iov, i as u32);
        match memory::loaded(m, at, 4) {
            Err(e) => (m, Err(e)),
            Ok(ptr) => match memory::loaded(m, at.wrapping_add(4), 4) {
                Err(e) => (m, Err(e)),
                Ok(len) => {
                    let end = part_end(data, src, len);
                    let s = store_bytes(m, ptr as u32, data.subrange(src, end));
                    if s.1 is Err || end >= data.len() {
                        s
                    } else {
                        scattered(s.0, iov, i + 1, n, data, end)
                    }
                },
            },
        }
    }
}

/// The total length of a list of strings, in 32 bits.
pub open spec fn total_size(list: Seq<Seq<u8>>) -> u32
    decreases list.len(),
{
    if list.len() == 0 {
        0
    } else {
        total_size(list.drop_last()).wrapping_add(list.last().len() as u32)
    }
}

/// A list of strings placed one after the other from `buf` on, with their
/// addresses placed from `table` on.
pub open spec fn strings_placed(m: MemoryModel, table: u32, buf: u32, list: Seq<Seq<u8>>) -> Stored
    decreases list.len(),
{
    if list.len() == 0 {
        (m, Ok(()))
    } else {
        let rest = list.drop_last();
        let at = buf.wrapping_add(total_size(rest));
        store_bytes_next(
            store_next(
                strings_placed(m, table, buf, rest),
                table.wrapping_add((rest.len() as u32).wrapping_mul(4)),
                at as nat,
                4,
            ),
            at,
            list.last(),
        )
    }
}

/// A failed store is not followed by others.
proof fn lemma_store_bytes_err(m: MemoryModel, ptr: u32, b: Seq<u8>, k: int)
    requires
        0 <= k <= b.len(),
    ensures
        store_bytes(m, ptr, b.subrange(0, k)).1 is Err ==> store_bytes(m, ptr, b) == store_bytes(
            m,
            ptr,
            b.subrange(0, k),
        ),
    decreases b.len() - k,
{
    if k < b.len() {
        lemma_store_bytes_err(m, ptr, b, k + 1);
        assert(b.subrange(0, k + 1).drop_last() =~= b.subrange(0, k));
    } else {
        assert(b.subrange(0, k) =~= b);
    }
}

proof fn lemma_load_bytes_err(m: MemoryModel, ptr: u32, k: nat, n: nat)
    requires
        k <= n,
    ensures
        load_bytes(m, ptr, k) is Err ==> load_bytes(m, ptr, n) == load_bytes(m, ptr, k),
    decreases n - k,
{
    if k < n {
        lemma_load_bytes_err(m, ptr, k, (n - 1) as nat);
    }
}

proof fn lemma_gathered_err(m: MemoryModel, iov: u32, k: nat, n: nat)
    requires
        k <= n,
    ensures
        gathered(m, iov, k) is Err ==> gathered(m, iov, n) == gathered(m, iov, k),
    decreases n - k,
{
    if k < n {
        lemma_gathered_err(m, iov, k, (n - 1) as nat);
    }
}

proof fn lemma_strings_err(m: MemoryModel, table: u32, buf: u32, list: Seq<Seq<u8>>, k: int)
    requires
        0 <= k <= list.len(),
    ensures
        strings_placed(m, table, buf, list.subrange(0, k)).1 is Err ==> strings_placed(
            m,
            table,
            buf,
            list,
        ) == strings_placed(m, table, buf, list.subrange(0, k)),
    decreases list.len() - k,
{
    if k < list.len() {
        lemma_strings_err(m, table, buf, list, k + 1);
        assert(list.subrange(0, k + 1).drop_last() =~= list.subrange(0, k));
    } else {
        assert(list.subrange(0, k) =~= list);
    }
}

fn write_u32_le(mem: &mut Memory, addr: u32, v: u32) -> (r: Result<(), WasmError>)
    ensures
        (final(mem)@, r) == store_next((old(mem)@, Ok(())), addr, v as nat, 4),
{
    mem.store_u32(addr, v)?;
    Ok(())
}

fn write_bytes(mem: &mut Memory, ptr: u32, b: &[u8]) -> (r: Result<(), WasmError>)
    ensures
        (final(mem)@, r) == store_bytes(old(mem)@, ptr, b@),
{
    let mut k: usize = 0;
    let ghost m = mem@;
    while k < b.len()
        invariant
            k <= b.len(),
            m == old(mem)@,
            (mem@, Ok::<(), WasmError>(())) == store_bytes(m, ptr, b@.subrange(0, k as int)),
        decreases b.len() - k,
    {
        proof {
            let part = b@.subrange(0, k + 1);
            assert(part.drop_last() =~= b@.subrange(0, k as int));
            assert(part.last() == b@[k as int]);
            lemma_store_bytes_err(m, ptr, b@, k + 1);
        }
        mem.store_u8(ptr.wrapping_add(k as u32), b[k])?;
        k = k + 1;
    }
    assert(b@.subrange(0, k as int) =~= b@);
    Ok(())
}

fn read_bytes(mem: &Memory, ptr: u32, n: u32) -> (r: Result<Vec<u8>, WasmError>)
    ensures
        match load_bytes(mem@, ptr, n as nat) {
            Ok(b) => r matches Ok(v) && v@ == b,
            Err(e) => r == Err::<Vec<u8>, WasmError>(e),
        },
{
    let mut v: Vec<u8> = Vec::new();
    let mut k: u32 = 0;
    while k < n
        invariant
            k <= n,
            load_bytes(mem@, ptr, k as nat) == Ok::<_, WasmError>(v@),
        decreases n - k,
    {
        proof {
            lemma_load_bytes_err(mem@, ptr, (k + 1) as nat, n as nat);
        }
        let b: u8 = mem.load_u8(ptr.wrapping_add(k))?;
        v.push(b);
        k = k + 1;
    }
    Ok(v)
}

fn entry_addr(iov: u32, i: u32) -> (r: u32)
    ensures
        r == iov_addr(iov, i),
{
    iov.wrapping_add(i.wrapping_mul(8))
}

/// The contents of the buffers of a list, one after the other.
fn read_iovs(mem: &Memory, iov_ptr: u32, iov_cnt: u32) -> (r: Result<Vec<u8>, WasmError>)
    ensures
        match gathered(mem@, iov_ptr, iov_cnt as nat) {
            Ok(b) => r matches Ok(v) && v@ == b,
            Err(e) => r == Err::<Vec<u8>, WasmError>(e),
        },
{
    let mut out: Vec<u8> = Vec::new();
    let mut i: u32 = 0;
    while i < iov_cnt
        invariant
            i <= iov_cnt,
            gathered(mem@, iov_ptr, i as nat) == Ok::<_, WasmError>(out@),
        decreases iov_cnt - i,
    {
        proof {
            lemma_gathered_err(mem@, iov_ptr, (i + 1) as nat, iov_cnt as nat);
        }
        let base: u32 = entry_addr(iov_ptr, i);
        let ptr: u32 = mem.load_u32(base)?;
        let len: u32 = mem.load_u32(base.wrapping_add(4))?;
        let mut part: Vec<u8> = read_bytes(mem, ptr, len)?;
        out.append(&mut part);
        i = i + 1;
    }
    Ok(out)
}

fn total_capacity(mem: &Memory, iov_ptr: u32, iov_cnt: u32) -> (r: u32)
    ensures
        r == capacity(mem@, iov_ptr, iov_cnt as nat),
{
    let mut cap: u32 = 0;
    let mut i: u32 = 0;
    while i < iov_cnt
        invariant
            i <= iov_cnt,
            cap == capacity(mem@, iov_ptr, i as nat),
        decreases iov_cnt - i,
    {
        let len: u32 = match mem.load_u32(entry_addr(iov_ptr, i).wrapping_add(4)) {
            Ok(len) => len,
            Err(_) => 0,
        };
        cap = cap.wrapping_add(len);
        i = i + 1;
    }
    cap
}

/// Distributes `data` over the buffers of a list.
fn write_iovs(mem: &mut Memory, iov_ptr: u32, iov_cnt: u32, data: &[u8]) -> (r: Result<
    (),
    WasmError,
>)
    ensures
        (final(mem)@, r) == scattered(old(mem)@, iov_ptr, 0, iov_cnt as nat, data@, 0),
{
    let mut src: usize = 0;
    let mut i: u32 = 0;
    let ghost m = mem@;
    while i < iov_cnt
        invariant
            i <= iov_cnt,
            src <= data.len(),
            m == old(mem)@,
            scattered(m, iov_ptr, 0, iov_cnt as nat, data@, 0) == scattered(
                mem@,
                iov_ptr,
                i as nat,
                iov_cnt as nat,
                data@,
                src as int,
            ),
        decreases iov_cnt - i,
    {
        let base: u32 = entry_addr(iov_ptr, i);
        let ptr: u32 = mem.load_u32(base)?;
        let len: u32 = mem.load_u32(base.wrapping_add(4))?;
        let end: usize = if (len as usize) < data.len() - src {
            src + len as usize
        } else {
            data.len()
        };
        write_bytes(mem, ptr, vstd::slice::slice_subrange(data, src, end))?;
        if end >= data.len() {
            return Ok(());
        }
        src = end;
        i = i + 1;
    }
    Ok(())
}

fn sum_sizes(list: &Vec<Vec<u8>>) -> (r: u32)
    ensures
        r == total_size(types::views(list@)),
{
    let mut total: u32 = 0;
    let mut i: usize = 0;
    let ghost all = types::views(list@);
    assert(all.subrange(0, 0) =~= Seq::<Seq<u8>>::empty());
    while i < list.len()
        invariant
            i <= list.len(),
            all == types::views(list@),
            total == total_size(all.subrange(0, i as int)),
        decreases list.len() - i,
    {
        proof {
            let part = all.subrange(0, i + 1);
            assert(part.drop_last() =~= all.subrange(0, i as int));
            assert(part.last() == list@[i as int]@);
        }
        total = total.wrapping_add(list[i].len() as u32);
        i = i + 1;
    }
    assert(all.subrange(0, i as int) =~= all);
    total
}

fn write_strings(mem: &mut Memory, table: u32, buf: u32, list: &Vec<Vec<u8>>) -> (r: Result<
    (),
    WasmError,
>)
    ensures
        (final(mem)@, r) == strings_placed(old(mem)@, table, buf, types::views(list@)),
{
    let mut off: u32 = buf;
    let mut i: usize = 0;
    let ghost m = mem@;
    let ghost all = types::views(list@);
    assert(all.subrange(0, 0) =~= Seq::<Seq<u8>>::empty());
    while i < list.len()
        invariant
            i <= list.len(),
            m == old(mem)@,
            all == types::views(list@),
            off == buf.wrapping_add(total_size(all.subrange(0, i as int))),
            (mem@, Ok::<(), WasmError>(())) == strings_placed(
                m,
                table,
                buf,
                all.subrange(0, i as int),
            ),
        decreases list.len() - i,
    {
        proof {
            let part = all.subrange(0, i + 1);
            assert(part.drop_last() =~= all.subrange(0, i as int));
            assert(part.last() == list@[i as int]@);
            lemma_strings_err(m, table, buf, all, i + 1);
        }
        write_u32_le(mem, table.wrapping_add((i as u32).wrapping_mul(4)), off)?;
        write_bytes(mem, off, list[i].as_slice())?;
        off = off.wrapping_add(list[i].len() as u32);
        i = i + 1;
    }
    assert(all.subrange(0, i as int) =~= all);
    Ok(())
}

// ---- What each function asks of the kernel ----

/// A message from `from` to the cell `to`.
pub open spec fn message(from: CellId, to: CellId, subject: Seq<char>, body: Seq<u8>) -> EmailModel {
    EmailModel { from, to, subject, body, reply: None }
}

/// The low byte of a number, as one byte.
pub open spec fn low_byte(v: i32) -> Seq<u8> {
    seq![v as u8]
}

/// The message that a call sends: none for the functions that need nothing
/// of the kernel. An error if the memory that the message is made of cannot
/// be read.
pub open spec fn request(w: WasiFn, cell: CellId, args: Seq<Value>, m: MemoryModel) -> Result<
    Option<EmailModel>,
    WasmError,
> {
    match w {
        WasiFn::FdWrite => match gathered(m, arg_ptr(args, 1), arg_ptr(args, 2) as nat) {
            Err(e) => Err(e),
            Ok(data) => Ok(
                Some(
                    message(
                        cell,
                        cell_of_fd(arg_i32(args, 0, 1)),
                        "wasi::fd_write"@,
                        data,
                    ),
                ),
            ),
        },
        WasiFn::FdRead => Ok(
            Some(
                message(
                    cell,
                    cell_of_fd(arg_i32(args, 0, 0)),
                    "wasi::fd_read"@,
                    bytes::le_bytes(
                        capacity(m, arg_ptr(args, 1), arg_ptr(args, 2) as nat) as nat,
                        (usize::BITS / 8) as nat,
                    ),
                ),
            ),
        ),
        WasiFn::FdClose => Ok(
            Some(
                message(
                    cell,
                    cell_of_fd(arg_i32(args, 0, (-1) as i32)),
                    "wasi::fd_close"@,
                    bytes::le_bytes(arg_i32(args, 0, (-1) as i32) as u32 as nat, 4),
                ),
            ),
        ),
        WasiFn::PathOpen => match load_bytes(m, arg_ptr(args, 2), arg_ptr(args, 3) as nat) {
            Err(e) => Err(e),
            Ok(path) => Ok(Some(message(cell, CellId(CELL_FS), "wasi::path_open"@, path))),
        },
        WasiFn::ProcExit => Ok(
            Some(
                message(
                    cell,
                    CellId(CELL_SCHEDULER),
                    "wasi::proc_exit"@,
                    bytes::le_bytes(arg_ptr(args, 0) as nat, 4),
                ),
            ),
        ),
        WasiFn::ClockTimeGet => Ok(
            Some(message(cell, CellId(CELL_TIMER), "wasi::clock_time_get"@, seq![])),
        ),
        WasiFn::RandomGet => Ok(
            Some(
                message(
                    cell,
                    CellId(CELL_ENTROPY),
                    "wasi::random_get"@,
                    bytes::le_bytes(arg_ptr(args, 1) as nat, 4),
                ),
            ),
        ),
        WasiFn::FdSeek => Ok(
            Some(
                message(
                    cell,
                    CellId(CELL_FS),
                    "wasi::fd_seek"@,
                    bytes::le_bytes(arg_ptr(args, 0) as nat, 4) + bytes::le_bytes(
                        arg_i64(args, 1) as u64 as nat,
                        8,
                    ) + low_byte(arg_i32(args, 2, 0)),
                ),
            ),
        ),
        _ => Ok(None),
    }
}

// ---- What each function makes of the answer ----

/// The outcome of a call that reports `errno` if all stores succeeded.
pub open spec fn reported(s: Stored, errno: i32) -> (MemoryModel, Outcome) {
    match s.1 {
        Ok(_) => (s.0, Ok(seq![Value::I32(errno)])),
        Err(e) => (s.0, Err(e)),
    }
}

/// The number in bytes `from` to `to` of a reply, or `default` if the reply
/// is too short.
pub open spec fn reply_number(reply: Seq<u8>, from: int, to: int, default: nat) -> nat {
    if reply.len() >= to {
        bytes::le(reply.subrange(from, to))
    } else {
        default
    }
}

/// The memory and the outcome of a call, once the kernel has answered: `sent`
/// is the length of the message that was sent, `reply` the answer to it, and
/// `now` the time.
pub open spec fn finish(
    w: WasiFn,
    argv: Seq<Seq<u8>>,
    env: Seq<Seq<u8>>,
    args: Seq<Value>,
    m: MemoryModel,
    sent: nat,
    reply: Seq<u8>,
    now: u64,
) -> (MemoryModel, Outcome) {
    let start: Stored = (m, Ok(()));
    match w {
        WasiFn::FdWrite => reported(
            store_next(start, arg_ptr(args, 3), (sent as u32) as nat, 4),
            0,
        ),
        WasiFn::FdRead => reported(
            store_next(
                scattered(m, arg_ptr(args, 1), 0, arg_ptr(args, 2) as nat, reply, 0),
                arg_ptr(args, 3),
                (reply.len() as u32) as nat,
                4,
            ),
            0,
        ),
        WasiFn::FdClose => (m, Ok(seq![Value::I32(0)])),
        WasiFn::PathOpen => reported(
            store_next(start, arg_ptr(args, 8), reply_number(reply, 4, 8, 0), 4),
            reply_number(reply, 0, 4, types::errno_code(WasiErrno::Io) as nat) as u32 as i32,
        ),
        WasiFn::ProcExit => (m, Err(WasmError::WasiError(WasiErrno::Success))),
        WasiFn::ArgsSizesGet => reported(
            store_next(
                store_next(start, arg_ptr(args, 0), (argv.len() as u32) as nat, 4),
                arg_ptr(args, 1),
                total_size(argv) as nat,
                4,
            ),
            0,
        ),
        WasiFn::ArgsGet => reported(
            strings_placed(m, arg_ptr(args, 0), arg_ptr(args, 1), argv),
            0,
        ),
        WasiFn::EnvironSizesGet => reported(
            store_next(
                store_next(start, arg_ptr(args, 0), (env.len() as u32) as nat, 4),
                arg_ptr(args, 1),
                total_size(env) as nat,
                4,
            ),
            0,
        ),
        WasiFn::EnvironGet => reported(
            strings_placed(m, arg_ptr(args, 0), arg_ptr(args, 1), env),
            0,
        ),
        WasiFn::ClockTimeGet => reported(
            store_next(start, arg_ptr(args, 2), reply_number(reply, 0, 8, now as nat), 8),
            0,
        ),
        WasiFn::RandomGet => reported(
            store_bytes(
                m,
                arg_ptr(args, 0),
                if reply.len() <= arg_ptr(args, 1) {
                    reply
                } else {
                    reply.subrange(0, arg_ptr(args, 1) as int)
                },
            ),
            0,
        ),
        WasiFn::PollOneoff => reported(store_next(start, arg_ptr(args, 3), 0, 4), 0),
        WasiFn::FdSeek => reported(
            store_next(start, arg_ptr(args, 3), reply_number(reply, 0, 8, 0), 8),
            0,
        ),
    }
}

/// Whether a call for which `msg` was sent may end with memory `after` and
/// outcome `r`, when the mailbox answers `reply` and the clock shows `now`.
/// The clock is read where the timer's reply is too short to hold a time.
pub open spec fn answered(
    w: WasiFn,
    ctx: WasiCtx,
    args: Seq<Value>,
    before: MemoryModel,
    msg: EmailModel,
    reply: Seq<u8>,
    now: u64,
    after: MemoryModel,
    r: Outcome,
) -> bool {
    &&& ctx.mailbox.replies(msg, reply)
    &&& w == WasiFn::ClockTimeGet && reply.len() < 8 ==> ctx.mailbox.shows(now)
    &&& (after, r) == finish(
        w,
        types::views(ctx.args@),
        types::views(ctx.env@),
        args,
        before,
        msg.body.len(),
        reply,
        now,
    )
}

/// What a call may do, given what the mailbox may answer: a message that
/// cannot be made is the error of the call; otherwise the message is sent,
/// and [`finish`] says the rest.
pub open spec fn behaves(
    w: WasiFn,
    ctx: WasiCtx,
    args: Seq<Value>,
    before: MemoryModel,
    after: MemoryModel,
    r: Outcome,
) -> bool {
    match request(w, ctx.cell, args, before) {
        Err(e) => after == before && r == Err::<Seq<Value>, WasmError>(e),
        Ok(None) => (after, r) == finish(
            w,
            types::views(ctx.args@),
            types::views(ctx.env@),
            args,
            before,
            0,
            seq![],
            0,
        ),
        Ok(Some(msg)) => exists|reply: Seq<u8>, now: u64|
            answered(w, ctx, args, before, msg, reply, now, after, r),
    }
}

/// The `n` lowest bytes of `v`.
fn number_bytes(v: u64, n: usize) -> (r: Vec<u8>)
    requires
        n <= 8,
    ensures
        r@ == bytes::le_bytes(v as nat, n as nat),
{
    let mut r: Vec<u8> = vec![0u8; n];
    let ghost zeros = r@;
    bytes::put_le(&mut r, 0, v, n);
    proof {
        bytes::lemma_le_bytes_len(v as nat, n as nat);
        assert(r@ =~= bytes::le_bytes(v as nat, n as nat));
    }
    r
}

fn make_message(from: CellId, to: u8, subject: &str, body: Vec<u8>) -> (r: EmailMessage)
    ensures
        r@ == message(from, CellId(to), subject@, body@),
{
    EmailMessage { from, to: CellId(to), subject: subject.to_string(), body, reply: None }
}

/// Makes the message that a call sends, if it sends one.
pub fn make_request(w: WasiFn, cell: CellId, args: &[Value], mem: &Memory) -> (r: Result<
    Option<EmailMessage>,
    WasmError,
>)
    requires
        args.len() >= fn_type(w).params.len(),
    ensures
        match request(w, cell, args@, mem@) {
            Ok(Some(msg)) => r matches Ok(Some(x)) && x@ == msg,
            Ok(None) => r matches Ok(None),
            Err(e) => r == Err::<Option<EmailMessage>, WasmError>(e),
        },
        r matches Ok(Some(x)) ==> x@.from == cell && x@.reply is None,
        w is PathOpen || w is FdSeek ==> (r matches Ok(Some(x)) ==> x@.to == CellId(CELL_FS)),
        w is ProcExit ==> (r matches Ok(Some(x)) ==> x@.to == CellId(CELL_SCHEDULER)),
        w is ClockTimeGet ==> (r matches Ok(Some(x)) ==> x@.to == CellId(CELL_TIMER)),
        w is RandomGet ==> (r matches Ok(Some(x)) ==> x@.to == CellId(CELL_ENTROPY)),
{
    match w {
        WasiFn::FdWrite => {
            let to: CellId = fd_to_cell(get_i32(args, 0, 1));
            let data: Vec<u8> = read_iovs(mem, get_ptr(args, 1), get_ptr(args, 2))?;
            Ok(Some(make_message(cell, to.0, "wasi::fd_write", data)))
        },
        WasiFn::FdRead => {
            let to: CellId = fd_to_cell(get_i32(args, 0, 0));
            let cap: u32 = total_capacity(mem, get_ptr(args, 1), get_ptr(args, 2));
            let width: usize = (usize::BITS / 8) as usize;
            let body: Vec<u8> = number_bytes(cap as u64, width);
            Ok(Some(make_message(cell, to.0, "wasi::fd_read", body)))
        },
        WasiFn::FdClose => {
            let fd: i32 = get_i32(args, 0, -1);
            let body: Vec<u8> = number_bytes(fd as u32 as u64, 4);
            Ok(Some(make_message(cell, fd_to_cell(fd).0, "wasi::fd_close", body)))
        },
        WasiFn::PathOpen => {
            let path: Vec<u8> = read_bytes(mem, get_ptr(args, 2), get_ptr(args, 3))?;
            Ok(Some(make_message(cell, CELL_FS, "wasi::path_open", path)))
        },
        WasiFn::ProcExit => {
            let body: Vec<u8> = number_bytes(get_ptr(args, 0) as u64, 4);
            Ok(Some(make_message(cell, CELL_SCHEDULER, "wasi::proc_exit", body)))
        },
        WasiFn::ClockTimeGet => {
            let body: Vec<u8> = Vec::new();
            assert(body@ =~= Seq::<u8>::empty());
            Ok(Some(make_message(cell, CELL_TIMER, "wasi::clock_time_get", body)))
        },
        WasiFn::RandomGet => {
            let body: Vec<u8> = number_bytes(get_ptr(args, 1) as u64, 4);
            Ok(Some(make_message(cell, CELL_ENTROPY, "wasi::random_get", body)))
        },
        WasiFn::FdSeek => {
            let mut body: Vec<u8> = number_bytes(get_ptr(args, 0) as u64, 4);
            let mut offset: Vec<u8> = number_bytes(get_i64(args, 1) as u64, 8);
            body.append(&mut offset);
            let ghost before = body@;
            let whence: i32 = get_i32(args, 2, 0);
            body.push(whence as u8);
            assert(body@ =~= before + low_byte(whence));
            Ok(Some(make_message(cell, CELL_FS, "wasi::fd_seek", body)))
        },
        _ => Ok(None),
    }
}

fn number_in(reply: &[u8], from: usize, to: usize, default: u64) -> (r: u64)
    requires
        from <= to <= from + 8,
    ensures
        r == reply_number(reply@, from as int, to as int, default as nat),
        to == from + 4 && default <= u32::MAX ==> r <= u32::MAX,
{
    if reply.len() >= to {
        proof {
            bytes::lemma_pow256();
        }
        bytes::get_le(reply, from, to - from)
    } else {
        default
    }
}

fn report(errno: i32) -> (r: Vec<Value>)
    ensures
        r@ == seq![Value::I32(errno)],
{
    let r = vec![Value::I32(errno)];
    assert(r@ =~= seq![Value::I32(errno)]);
    r
}

/// Completes a call after the kernel has answered.
#[verifier::rlimit(50)]
pub fn finish_call(
    w: WasiFn,
    ctx: &WasiCtx,
    args: &[Value],
    mem: &mut Memory,
    sent: usize,
    reply: &[u8],
    now: u64,
) -> (r: Result<Vec<Value>, WasmError>)
    requires
        args.len() >= fn_type(w).params.len(),
    ensures
        (final(mem)@, host::outcome_of(r)) == finish(
            w,
            types::views(ctx.args@),
            types::views(ctx.env@),
            args@,
            old(mem)@,
            sent as nat,
            reply@,
            now,
        ),
{
    match w {
        WasiFn::FdWrite => {
            write_u32_le(mem, get_ptr(args, 3), sent as u32)?;
        },
        WasiFn::FdRead => {
            write_iovs(mem, get_ptr(args, 1), get_ptr(args, 2), reply)?;
            write_u32_le(mem, get_ptr(args, 3), reply.len() as u32)?;
        },
        WasiFn::FdClose => {},
        WasiFn::PathOpen => {
            let errno: u32 = number_in(reply, 0, 4, WasiErrno::Io.code() as u64) as u32;
            let fd: u32 = number_in(reply, 4, 8, 0) as u32;
            write_u32_le(mem, get_ptr(args, 8), fd)?;
            return Ok(report(errno as i32));
        },
        WasiFn::ProcExit => {
            return Err(WasmError::WasiError(WasiErrno::Success));
        },
        WasiFn::ArgsSizesGet => {
            write_u32_le(mem, get_ptr(args, 0), ctx.args.len() as u32)?;
            write_u32_le(mem, get_ptr(args, 1), sum_sizes(&ctx.args))?;
        },
        WasiFn::ArgsGet => {
            write_strings(mem, get_ptr(args, 0), get_ptr(args, 1), &ctx.args)?;
        },
        WasiFn::EnvironSizesGet => {
            write_u32_le(mem, get_ptr(args, 0), ctx.env.len() as u32)?;
            write_u32_le(mem, get_ptr(args, 1), sum_sizes(&ctx.env))?;
        },
        WasiFn::EnvironGet => {
            write_strings(mem, get_ptr(args, 0), get_ptr(args, 1), &ctx.env)?;
        },
        WasiFn::ClockTimeGet => {
            mem.store_u64(get_ptr(args, 2), number_in(reply, 0, 8, now))?;
        },
        WasiFn::RandomGet => {
            let room: usize = get_ptr(args, 1) as usize;
            if reply.len() <= room {
                write_bytes(mem, get_ptr(args, 0), reply)?;
            } else {
                write_bytes(
                    mem,
                    get_ptr(args, 0),
                    vstd::slice::slice_subrange(reply, 0, room),
                )?;
            }
        },
        WasiFn::PollOneoff => {
            write_u32_le(mem, get_ptr(args, 3), 0)?;
        },
        WasiFn::FdSeek => {
            mem.store_u64(get_ptr(args, 3), number_in(reply, 0, 8, 0))?;
        },
    }
    Ok(report(WasiErrno::Success.code()))
}

/// Performs a call: sends the message, waits for the reply, and completes.
pub fn call_wasi(w: WasiFn, ctx: &WasiCtx, args: &[Value], mem: &mut Memory) -> (r: Result<
    Vec<Value>,
    WasmError,
>)
    requires
        args.len() >= fn_type(w).params.len(),
    ensures
        behaves(w, *ctx, args@, old(mem)@, final(mem)@, host::outcome_of(r)),
{
    match make_request(w, ctx.cell, args, mem)? {
        None => {
            let reply: Vec<u8> = Vec::new();
            assert(reply@ =~= Seq::<u8>::empty());
            finish_call(w, ctx, args, mem, 0, reply.as_slice(), 0)
        },
        Some(msg) => {
            let sent: usize = msg.body.len();
            let ghost sent_msg = msg@;
            let reply: Vec<u8> = ctx.mailbox.send_recv(msg);
            let now: u64 = if w == WasiFn::ClockTimeGet && reply.len() < 8 {
                ctx.mailbox.now_ns()
            } else {
                0
            };
            let r = finish_call(w, ctx, args, mem, sent, reply.as_slice(), now);
            assert(answered(
                w,
                *ctx,
                args@,
                old(mem)@,
                sent_msg,
                reply@,
                now,
                mem@,
                host::outcome_of(r),
            ));
            r
        },
    }
}

/// The module name under which the functions are imported.
pub open spec fn module_name() -> Seq<char> {
    "wasi_snapshot_preview1"@
}

/// Whether `f` is function `w` of the system interface for context `ctx`.
pub open spec fn is_wasi_func(f: FuncModel, w: WasiFn, ctx: WasiCtx) -> bool {
    &&& f.ty == fn_type(w)
    &&& f.kind matches FuncKind::Host { func: HostFunc::Wasi { which, ctx: shared } }
    &&& which == w
    &&& *shared == ctx
}

/// Host functions with the module and function names to import them by.
pub type WasiFuncs = Vec<(&'static str, &'static str, Func)>;

/// The functions of the system interface for one process, all sharing its
/// context.
pub fn build_wasi_imports(ctx: WasiCtx) -> (r: WasiFuncs)
    ensures
        r@.len() == all_fns().len(),
        forall|i: int|
            0 <= i < r@.len() ==> {
                &&& (#[trigger] r@[i]).0@ == module_name()
                &&& r@[i].1@ == fn_name(all_fns()[i])
                &&& is_wasi_func(r@[i].2@, all_fns()[i], ctx)
            },
{
    let shared: Arc<WasiCtx> = Arc::new(ctx);
    let fns: Vec<WasiFn> = every_fn();
    let mut r: WasiFuncs = Vec::new();
    let mut i: usize = 0;
    while i < fns.len()
        invariant
            i <= fns.len(),
            fns@ == all_fns(),
            r@.len() == i,
            *shared == ctx,
            forall|j: int|
                0 <= j < i ==> {
                    &&& (#[trigger] r@[j]).0@ == module_name()
                    &&& r@[j].1@ == fn_name(all_fns()[j])
                    &&& is_wasi_func(r@[j].2@, all_fns()[j], ctx)
                },
        decreases fns.len() - i,
    {
        let w: WasiFn = fns[i];
        let func = HostFunc::Wasi { which: w, ctx: shared.clone() };
        let f = Func { ty: type_of(w), kind: FuncKind::Host { func } };
        r.push(("wasi_snapshot_preview1", name_of(w), f));
        i = i + 1;
    }
    r
}

// ---- Laws ----

/// Bytes read from within the memory are those of the memory.
pub proof fn law_load_bytes_inside(m: MemoryModel, ptr: u32, n: nat)
    requires
        ptr + n <= m.data.len(),
        ptr + n <= usize::MAX,
        ptr + n <= 0x1_0000_0000,
    ensures
        load_bytes(m, ptr, n) == Ok::<Seq<u8>, WasmError>(m.data.subrange(ptr as int, ptr + n)),
    decreases n,
{
    let all = m.data.subrange(ptr as int, ptr + n);
    if n == 0 {
        assert(all =~= seq![]);
    } else {
        law_load_bytes_inside(m, ptr, (n - 1) as nat);
        let at = ptr + (n - 1);
        assert(ptr.wrapping_add((n - 1) as u32) == at);
        let one = m.data.subrange(at, at + 1);
        reveal_with_fuel(bytes::le, 2);
        assert(bytes::le(one) == one[0] as nat);
        assert(m.data.subrange(ptr as int, ptr + (n - 1)).push(m.data[at]) =~= all);
    }
}

/// Bytes written within the memory replace what was there.
pub proof fn law_store_bytes_inside(m: MemoryModel, ptr: u32, b: Seq<u8>)
    requires
        ptr + b.len() <= m.data.len(),
        ptr + b.len() <= usize::MAX,
        ptr + b.len() <= 0x1_0000_0000,
    ensures
        store_bytes(m, ptr, b) == (
            MemoryModel { data: bytes::overwrite(m.data, ptr as int, b), ..m },
            Ok::<(), WasmError>(()),
        ),
    decreases b.len(),
{
    if b.len() == 0 {
        assert(bytes::overwrite(m.data, ptr as int, b) =~= m.data);
    } else {
        let init = b.drop_last();
        law_store_bytes_inside(m, ptr, init);
        let at = ptr + (b.len() - 1);
        assert(ptr.wrapping_add((b.len() - 1) as u32) == at);
        reveal_with_fuel(bytes::le_bytes, 2);
        let one = bytes::le_bytes(b.last() as nat, 1);
        assert(one =~= seq![b.last()]);
        let half = bytes::overwrite(m.data, ptr as int, init);
        assert(bytes::overwrite(half, at, one) =~= bytes::overwrite(m.data, ptr as int, b));
    }
}

/// Bytes written within the memory are read back.
pub proof fn law_bytes_round_trip(m: MemoryModel, ptr: u32, b: Seq<u8>)
    requires
        ptr + b.len() <= m.data.len(),
        ptr + b.len() <= usize::MAX,
        ptr + b.len() <= 0x1_0000_0000,
    ensures
        load_bytes(store_bytes(m, ptr, b).0, ptr, b.len()) == Ok::<Seq<u8>, WasmError>(b),
{
    law_store_bytes_inside(m, ptr, b);
    let m2 = store_bytes(m, ptr, b).0;
    law_load_bytes_inside(m2, ptr, b.len());
    assert(m2.data.subrange(ptr as int, ptr + b.len()) =~= b);
}

/// Whether entry `i` of the list at `iov` is the buffer `b`: an address and a
/// length.
pub open spec fn buffer_listed(m: MemoryModel, iov: u32, i: int, b: (u32, u32)) -> bool {
    let at = iov_addr(iov, i as u32);
    &&& memory::loaded(m, at, 4) == Ok::<nat, WasmError>(b.0 as nat)
    &&& memory::loaded(m, at.wrapping_add(4), 4) == Ok::<nat, WasmError>(b.1 as nat)
}

/// Whether the list at `iov` starts with the buffers `bufs`.
pub open spec fn buffers_listed(m: MemoryModel, iov: u32, bufs: Seq<(u32, u32)>) -> bool {
    forall|i: int| 0 <= i < bufs.len() ==> buffer_listed(m, iov, i, #[trigger] bufs[i])
}

/// Whether a buffer lies within the memory.
pub open spec fn buffer_inside(m: MemoryModel, b: (u32, u32)) -> bool {
    &&& b.0 + b.1 <= m.data.len()
    &&& b.0 + b.1 <= usize::MAX
    &&& b.0 + b.1 <= 0x1_0000_0000
}

/// The contents of buffers, one after the other.
pub open spec fn buffers_joined(m: MemoryModel, bufs: Seq<(u32, u32)>) -> Seq<u8>
    decreases bufs.len(),
{
    if bufs.len() == 0 {
        seq![]
    } else {
        let b = bufs.last();
        buffers_joined(m, bufs.drop_last()) + m.data.subrange(b.0 as int, b.0 + b.1)
    }
}

/// A message made of buffers within the memory holds the bytes of the
/// buffers, one after the other.
pub proof fn law_buffers_gathered(m: MemoryModel, iov: u32, bufs: Seq<(u32, u32)>)
    requires
        bufs.len() <= u32::MAX,
        buffers_listed(m, iov, bufs),
        forall|i: int| 0 <= i < bufs.len() ==> buffer_inside(m, #[trigger] bufs[i]),
    ensures
        gathered(m, iov, bufs.len()) == Ok::<Seq<u8>, WasmError>(buffers_joined(m, bufs)),
    decreases bufs.len(),
{
    if bufs.len() > 0 {
        let rest = bufs.drop_last();
        let b = bufs.last();
        assert forall|i: int| 0 <= i < rest.len() implies buffer_listed(
            m,
            iov,
            i,
            #[trigger] rest[i],
        ) && buffer_inside(m, rest[i]) by {
            assert(rest[i] == bufs[i]);
        }
        law_buffers_gathered(m, iov, rest);
        assert(buffer_listed(m, iov, bufs.len() - 1, bufs[bufs.len() - 1]));
        law_load_bytes_inside(m, b.0, b.1 as nat);
    }
}

/// Where in a message buffer `j` starts: behind the buffers before it.
pub open spec fn buffer_start(bufs: Seq<(u32, u32)>, j: int) -> nat
    decreases j,
{
    if j <= 0 {
        0
    } else {
        buffer_start(bufs, j - 1) + bufs[j - 1].1 as nat
    }
}

/// How much of a message of `n` bytes goes to buffer `j`: as much as it
/// holds of what the buffers before it leave.
pub open spec fn buffer_share(bufs: Seq<(u32, u32)>, j: int, n: nat) -> nat {
    if buffer_start(bufs, j) >= n {
        0
    } else if buffer_start(bufs, j) + bufs[j].1 < n {
        bufs[j].1 as nat
    } else {
        (n - buffer_start(bufs, j)) as nat
    }
}

/// Whether position `x` is in the part of buffer `j` that a message of `n`
/// bytes fills.
pub open spec fn in_share(bufs: Seq<(u32, u32)>, j: int, n: nat, x: int) -> bool {
    bufs[j].0 <= x < bufs[j].0 + buffer_share(bufs, j, n)
}

/// Whether the part of buffer `j` that a message of `n` bytes fills does not
/// touch entry `i` of the list at `iov`.
pub open spec fn share_off_list(bufs: Seq<(u32, u32)>, j: int, n: nat, iov: u32, i: int) -> bool {
    let at = iov_addr(iov, i as u32);
    let low = bufs[j].0;
    let high = bufs[j].0 + buffer_share(bufs, j, n);
    low == high || ((high <= at || at + 4 <= low) && (high <= at.wrapping_add(4)
        || at.wrapping_add(4) + 4 <= low))
}

/// Whether the parts of buffers `j` and `k` that a message of `n` bytes fills
/// have no byte in common.
pub open spec fn shares_apart(bufs: Seq<(u32, u32)>, j: int, k: int, n: nat) -> bool {
    let a = buffer_share(bufs, j, n);
    let b = buffer_share(bufs, k, n);
    a == 0 || b == 0 || bufs[j].0 + a <= bufs[k].0 || bufs[k].0 + b <= bufs[j].0
}

/// Whether a message of `n` bytes can be laid over buffers: what it fills
/// lies within the memory, does not touch the list at `iov`, and is filled
/// once.
pub open spec fn fillable(m: MemoryModel, iov: u32, bufs: Seq<(u32, u32)>, n: nat) -> bool {
    &&& forall|j: int|
        0 <= j < bufs.len() ==> buffer_inside(
            m,
            ((#[trigger] bufs[j]).0, buffer_share(bufs, j, n) as u32),
        )
    &&& forall|j: int, i: int|
        0 <= j < bufs.len() && 0 <= i < bufs.len() ==> #[trigger] share_off_list(bufs, j, n, iov, i)
    &&& forall|j: int, k: int| 0 <= j < k < bufs.len() ==> #[trigger] shares_apart(bufs, j, k, n)
}

/// Whether buffer `j` holds its part of `data`.
pub open spec fn share_filled(m: MemoryModel, bufs: Seq<(u32, u32)>, j: int, data: Seq<u8>) -> bool {
    forall|x: int|
        in_share(bufs, j, data.len(), x) ==> #[trigger] m.data[x] == data[buffer_start(bufs, j) + x
            - bufs[j].0]
}

/// Whether none of the buffers from `i` on is filled at position `x` by a
/// message of `n` bytes.
pub open spec fn unfilled(bufs: Seq<(u32, u32)>, i: int, n: nat, x: int) -> bool {
    forall|j: int| i <= j < bufs.len() ==> !#[trigger] in_share(bufs, j, n, x)
}

proof fn lemma_start_grows(bufs: Seq<(u32, u32)>, i: int, j: int)
    requires
        0 <= i <= j,
    ensures
        buffer_start(bufs, i) <= buffer_start(bufs, j),
    decreases j,
{
    if i < j {
        lemma_start_grows(bufs, i, j - 1);
    }
}

/// The list is read as before when bytes that are not in it have changed.
proof fn lemma_still_listed(
    m: MemoryModel,
    after: MemoryModel,
    iov: u32,
    i: int,
    b: (u32, u32),
    low: int,
    high: int,
)
    requires
        buffer_listed(m, iov, i, b),
        after.data.len() == m.data.len(),
        forall|x: int| 0 <= x < m.data.len() && !(low <= x < high) ==> after.data[x] == m.data[x],
        ({
            let at = iov_addr(iov, i as u32);
            low == high || ((high <= at || at + 4 <= low) && (high <= at.wrapping_add(4)
                || at.wrapping_add(4) + 4 <= low))
        }),
    ensures
        buffer_listed(after, iov, i, b),
{
    let at = iov_addr(iov, i as u32);
    let at2 = at.wrapping_add(4);
    assert(after.data.subrange(at as int, at + 4) =~= m.data.subrange(at as int, at + 4));
    assert(after.data.subrange(at2 as int, at2 + 4) =~= m.data.subrange(at2 as int, at2 + 4));
}

/// The memory with the part of `data` that goes to buffer `i` in it.
spec fn one_filled(m: MemoryModel, bufs: Seq<(u32, u32)>, i: int, data: Seq<u8>) -> MemoryModel {
    let start = buffer_start(bufs, i) as int;
    let part = data.subrange(start, start + buffer_share(bufs, i, data.len()));
    MemoryModel { data: bytes::overwrite(m.data, bufs[i].0 as int, part), ..m }
}

/// The first buffer is filled, and the others follow if there is more.
proof fn lemma_first_filled(m: MemoryModel, iov: u32, bufs: Seq<(u32, u32)>, i: int, data: Seq<u8>)
    requires
        0 <= i < bufs.len() <= u32::MAX,
        buffer_start(bufs, i) <= data.len(),
        buffer_listed(m, iov, i, bufs[i]),
        buffer_inside(m, (bufs[i].0, buffer_share(bufs, i, data.len()) as u32)),
    ensures
        ({
            let m1 = one_filled(m, bufs, i, data);
            let s = scattered(m, iov, i as nat, bufs.len(), data, buffer_start(bufs, i) as int);
            &&& m1.data.len() == m.data.len()
            &&& share_filled(m1, bufs, i, data)
            &&& forall|x: int|
                0 <= x < m.data.len() && !in_share(bufs, i, data.len(), x) ==> #[trigger] m1.data[x]
                    == m.data[x]
            &&& s == if buffer_start(bufs, i + 1) >= data.len() {
                (m1, Ok::<(), WasmError>(()))
            } else {
                scattered(
                    m1,
                    iov,
                    (i + 1) as nat,
                    bufs.len(),
                    data,
                    buffer_start(bufs, i + 1) as int,
                )
            }
        }),
{
    let b = bufs[i];
    let src = buffer_start(bufs, i) as int;
    let share = buffer_share(bufs, i, data.len());
    let part = data.subrange(src, src + share);
    assert(part_end(data, src, b.1 as nat) == src + share);
    law_store_bytes_inside(m, b.0, part);
    assert(buffer_start(bufs, i + 1) == src + b.1);
}

proof fn lemma_filled(m: MemoryModel, iov: u32, bufs: Seq<(u32, u32)>, i: int, data: Seq<u8>)
    requires
        0 <= i <= bufs.len() <= u32::MAX,
        buffer_start(bufs, i) <= data.len(),
        forall|j: int| i <= j < bufs.len() ==> buffer_listed(m, iov, j, #[trigger] bufs[j]),
        fillable(m, iov, bufs, data.len()),
    ensures
        ({
            let s = scattered(m, iov, i as nat, bufs.len(), data, buffer_start(bufs, i) as int);
            &&& s.1 == Ok::<(), WasmError>(())
            &&& s.0.max == m.max
            &&& s.0.data.len() == m.data.len()
            &&& forall|j: int| i <= j < bufs.len() ==> #[trigger] share_filled(s.0, bufs, j, data)
            &&& forall|x: int|
                0 <= x < m.data.len() && unfilled(bufs, i, data.len(), x) ==> #[trigger] s.0.data[x]
                    == m.data[x]
        }),
    decreases bufs.len() - i,
{
    if i < bufs.len() {
        let n = data.len();
        let s = scattered(m, iov, i as nat, bufs.len(), data, buffer_start(bufs, i) as int);
        let m1 = one_filled(m, bufs, i, data);
        assert(buffer_listed(m, iov, i, bufs[i]));
        lemma_first_filled(m, iov, bufs, i, data);
        if buffer_start(bufs, i + 1) >= n {
            assert forall|j: int| i <= j < bufs.len() implies #[trigger] share_filled(
                s.0,
                bufs,
                j,
                data,
            ) by {
                if j > i {
                    lemma_start_grows(bufs, i + 1, j);
                }
            }
            assert forall|x: int|
                0 <= x < m.data.len() && unfilled(bufs, i, n, x) implies #[trigger] s.0.data[x]
                == m.data[x] by {
                assert(!in_share(bufs, i, n, x));
            }
        } else {
            let low = bufs[i].0 as int;
            let high = bufs[i].0 + buffer_share(bufs, i, n);
            assert forall|j: int| i + 1 <= j < bufs.len() implies buffer_listed(
                m1,
                iov,
                j,
                #[trigger] bufs[j],
            ) by {
                assert(share_off_list(bufs, i, n, iov, j));
                lemma_still_listed(m, m1, iov, j, bufs[j], low, high);
            }
            assert(fillable(m1, iov, bufs, n)) by {
                assert forall|j: int| 0 <= j < bufs.len() implies buffer_inside(
                    m1,
                    ((#[trigger] bufs[j]).0, buffer_share(bufs, j, n) as u32),
                ) by {
                    assert(buffer_inside(m, (bufs[j].0, buffer_share(bufs, j, n) as u32)));
                }
            }
            lemma_filled(m1, iov, bufs, i + 1, data);
            lemma_first_kept(m1, s.0, bufs, i, data);
            assert forall|x: int|
                0 <= x < m.data.len() && unfilled(bufs, i, n, x) implies #[trigger] s.0.data[x]
                == m.data[x] by {
                assert(!in_share(bufs, i, n, x));
                assert(unfilled(bufs, i + 1, n, x));
                assert(m1.data[x] == m.data[x]);
            }
        }
    }
}

/// What has been filled stays when the buffers behind it are filled.
proof fn lemma_first_kept(
    m1: MemoryModel,
    after: MemoryModel,
    bufs: Seq<(u32, u32)>,
    i: int,
    data: Seq<u8>,
)
    requires
        0 <= i < bufs.len(),
        share_filled(m1, bufs, i, data),
        bufs[i].0 + buffer_share(bufs, i, data.len()) <= m1.data.len(),
        forall|k: int| i < k < bufs.len() ==> #[trigger] shares_apart(bufs, i, k, data.len()),
        forall|x: int|
            0 <= x < m1.data.len() && unfilled(bufs, i + 1, data.len(), x)
                ==> #[trigger] after.data[x] == m1.data[x],
    ensures
        share_filled(after, bufs, i, data),
{
    let n = data.len();
    assert forall|x: int| in_share(bufs, i, n, x) implies #[trigger] after.data[x]
        == data[buffer_start(bufs, i) + x - bufs[i].0] by {
        assert forall|j: int| i + 1 <= j < bufs.len() implies !#[trigger] in_share(
            bufs,
            j,
            n,
            x,
        ) by {
            assert(shares_apart(bufs, i, j, n));
        }
        assert(unfilled(bufs, i + 1, n, x));
        assert(m1.data[x] == data[buffer_start(bufs, i) + x - bufs[i].0]);
    }
}

/// A reply is laid over the buffers that it was asked for, in order: each
/// holds the bytes that the buffers before it leave, as many as it has room
/// for, and no other byte of the memory changes. What goes beyond the last
/// buffer is dropped.
pub proof fn law_buffers_filled(m: MemoryModel, iov: u32, bufs: Seq<(u32, u32)>, data: Seq<u8>)
    requires
        bufs.len() <= u32::MAX,
        buffers_listed(m, iov, bufs),
        fillable(m, iov, bufs, data.len()),
    ensures
        ({
            let s = scattered(m, iov, 0, bufs.len(), data, 0);
            &&& s.1 == Ok::<(), WasmError>(())
            &&& s.0.max == m.max
            &&& s.0.data.len() == m.data.len()
            &&& forall|j: int| 0 <= j < bufs.len() ==> #[trigger] share_filled(s.0, bufs, j, data)
            &&& forall|x: int|
                0 <= x < m.data.len() && unfilled(bufs, 0, data.len(), x) ==> #[trigger] s.0.data[x]
                    == m.data[x]
        }),
{
    lemma_filled(m, iov, bufs, 0, data);
}

pub proof fn lemma_store_bytes_size(m: MemoryModel, ptr: u32, b: Seq<u8>)
    ensures
        store_bytes(m, ptr, b).0.data.len() == m.data.len(),
        store_bytes(m, ptr, b).0.max == m.max,
    decreases b.len(),
{
    if b.len() > 0 {
        lemma_store_bytes_size(m, ptr, b.drop_last());
    }
}

proof fn lemma_strings_size(m: MemoryModel, table: u32, buf: u32, list: Seq<Seq<u8>>)
    ensures
        strings_placed(m, table, buf, list).0.data.len() == m.data.len(),
        strings_placed(m, table, buf, list).0.max == m.max,
    decreases list.len(),
{
    if list.len() > 0 {
        let rest = list.drop_last();
        lemma_strings_size(m, table, buf, rest);
        let at = buf.wrapping_add(total_size(rest));
        let s = store_next(
            strings_placed(m, table, buf, rest),
            table.wrapping_add((rest.len() as u32).wrapping_mul(4)),
            at as nat,
            4,
        );
        lemma_store_bytes_size(s.0, at, list.last());
    }
}

proof fn lemma_scattered_size(m: MemoryModel, iov: u32, i: nat, n: nat, data: Seq<u8>, src: int)
    ensures
        scattered(m, iov, i, n, data, src).0.data.len() == m.data.len(),
        scattered(m, iov, i, n, data, src).0.max == m.max,
    decreases n - i,
{
    if i < n {
        let at = iov_addr(iov, i as u32);
        if let Ok(ptr) = memory::loaded(m, at, 4) {
            if let Ok(len) = memory::loaded(m, at.wrapping_add(4), 4) {
                let end = part_end(data, src, len);
                let part = data.subrange(src, end);
                lemma_store_bytes_size(m, ptr as u32, part);
                lemma_scattered_size(
                    store_bytes(m, ptr as u32, part).0,
                    iov,
                    i + 1,
                    n,
                    data,
                    end,
                );
            }
        }
    }
}

/// No function of the system interface changes the size of the memory.
pub proof fn law_finish_keeps_size(
    w: WasiFn,
    argv: Seq<Seq<u8>>,
    env: Seq<Seq<u8>>,
    args: Seq<Value>,
    m: MemoryModel,
    sent: nat,
    reply: Seq<u8>,
    now: u64,
)
    ensures
        finish(w, argv, env, args, m, sent, reply, now).0.data.len() == m.data.len(),
        finish(w, argv, env, args, m, sent, reply, now).0.max == m.max,
{
    let p0 = arg_ptr(args, 0);
    let p1 = arg_ptr(args, 1);
    match w {
        WasiFn::ArgsGet => {
            lemma_strings_size(m, p0, p1, argv);
        },
        WasiFn::EnvironGet => {
            lemma_strings_size(m, p0, p1, env);
        },
        WasiFn::FdRead => {
            lemma_scattered_size(m, p1, 0, arg_ptr(args, 2) as nat, reply, 0);
        },
        WasiFn::RandomGet => {
            lemma_store_bytes_size(m, p0, reply);
            lemma_store_bytes_size(m, p0, reply.subrange(0, p1 as int));
        },
        _ => {},
    }
}

/// A call of the system interface never changes the size of the memory,
/// whatever the mailbox answers.
pub proof fn law_behaves_keeps_size(
    w: WasiFn,
    ctx: WasiCtx,
    args: Seq<Value>,
    before: MemoryModel,
    after: MemoryModel,
    r: Outcome,
)
    requires
        behaves(w, ctx, args, before, after, r),
    ensures
        after.data.len() == before.data.len(),
        after.max == before.max,
{
    let argv = types::views(ctx.args@);
    let env = types::views(ctx.env@);
    match request(w, ctx.cell, args, before) {
        Err(_) => {},
        Ok(None) => {
            law_finish_keeps_size(w, argv, env, args, before, 0, seq![], 0);
        },
        Ok(Some(msg)) => {
            let (reply, now) = choose|reply: Seq<u8>, now: u64|
                answered(w, ctx, args, before, msg, reply, now, after, r);
            law_finish_keeps_size(w, argv, env, args, before, msg.body.len(), reply, now);
        },
    }
}

/// An exit always ends the call with the same code and leaves the memory
/// alone, whatever the scheduler answers.
pub proof fn law_proc_exit(
    ctx: WasiCtx,
    args: Seq<Value>,
    before: MemoryModel,
    after: MemoryModel,
    r: Outcome,
)
    requires
        behaves(WasiFn::ProcExit, ctx, args, before, after, r),
    ensures
        after == before,
        r == Err::<Seq<Value>, WasmError>(WasmError::WasiError(WasiErrno::Success)),
{
}

/// The total length of a list of strings.
pub open spec fn total_len(list: Seq<Seq<u8>>) -> nat
    decreases list.len(),
{
    if list.len() == 0 {
        0
    } else {
        total_len(list.drop_last()) + list.last().len()
    }
}

/// The strings of a list, one after the other.
pub open spec fn strings_joined(list: Seq<Seq<u8>>) -> Seq<u8>
    decreases list.len(),
{
    if list.len() == 0 {
        seq![]
    } else {
        strings_joined(list.drop_last()) + list.last()
    }
}

proof fn lemma_low_word(n: u64)
    ensures
        n as u32 == n % 0x1_0000_0000,
{
    assert(n as u32 == n % 0x1_0000_0000) by (bit_vector);
}

proof fn lemma_total(list: Seq<Seq<u8>>)
    requires
        total_len(list) <= 0x1_0000_0000,
    ensures
        total_size(list) == total_len(list) % 0x1_0000_0000,
        strings_joined(list).len() == total_len(list),
    decreases list.len(),
{
    if list.len() > 0 {
        lemma_total(list.drop_last());
        lemma_low_word(list.last().len() as u64);
    }
}

/// Whether string `i` of a list is in place: its address, in 32 bits, in the
/// table, and its bytes at that address. (Only an empty string can have the
/// address 2^32, which is 0 in 32 bits.)
pub open spec fn string_in_place(
    m: MemoryModel,
    table: u32,
    buf: u32,
    list: Seq<Seq<u8>>,
    i: int,
) -> bool {
    let at = buf + total_len(list.subrange(0, i));
    &&& memory::loaded(m, (table + 4 * i) as u32, 4) == Ok::<nat, WasmError>(
        (at % 0x1_0000_0000) as nat,
    )
    &&& m.data.subrange(at as int, at + list[i].len()) == list[i]
}

proof fn lemma_total_prefix(list: Seq<Seq<u8>>, i: int)
    requires
        0 <= i < list.len(),
    ensures
        total_len(list.subrange(0, i)) + list[i].len() <= total_len(list),
    decreases list.len(),
{
    let rest = list.drop_last();
    if i == rest.len() {
        assert(list.subrange(0, i) =~= rest);
    } else {
        assert(rest.subrange(0, i) =~= list.subrange(0, i));
        lemma_total_prefix(rest, i);
    }
}

/// The memory with an address in the table and a string at that address.
spec fn string_added(m: MemoryModel, slot: int, at: int, b: Seq<u8>) -> MemoryModel {
    MemoryModel {
        data: bytes::overwrite(
            bytes::overwrite(m.data, slot, bytes::le_bytes((at % 0x1_0000_0000) as nat, 4)),
            at,
            b,
        ),
        ..m
    }
}

/// Whether `n` bytes at `at` lie within the memory and can be addressed.
pub open spec fn room_at(m: MemoryModel, at: int, n: int) -> bool {
    &&& 0 <= at
    &&& at + n <= m.data.len()
    &&& at + n <= usize::MAX
    &&& at + n <= 0x1_0000_0000
}

proof fn lemma_string_added(m: MemoryModel, slot: int, at: int, b: Seq<u8>)
    requires
        room_at(m, slot, 4),
        room_at(m, at, b.len() as int),
        slot + 4 <= at || at + b.len() <= slot,
    ensures
        store_bytes_next(
            store_next((m, Ok(())), slot as u32, (at % 0x1_0000_0000) as nat, 4),
            (at % 0x1_0000_0000) as u32,
            b,
        ) == (string_added(m, slot, at, b), Ok::<(), WasmError>(())),
        string_added(m, slot, at, b).data.len() == m.data.len(),
        memory::loaded(string_added(m, slot, at, b), slot as u32, 4) == Ok::<nat, WasmError>(
            (at % 0x1_0000_0000) as nat,
        ),
        string_added(m, slot, at, b).data.subrange(at, at + b.len()) == b,
{
    let v = (at % 0x1_0000_0000) as nat;
    let m2 = memory::stored(m, slot as u32, v, 4)->Ok_0;
    bytes::lemma_le_bytes_len(v, 4);
    if b.len() > 0 {
        law_store_bytes_inside(m2, at as u32, b);
    } else {
        assert(bytes::overwrite(m2.data, at, b) =~= m2.data);
    }
    memory::law_load_after_store(m, slot as u32, v, 4);
    bytes::lemma_pow256();
    let m3 = string_added(m, slot, at, b);
    assert(m3.data.subrange(slot, slot + 4) =~= m2.data.subrange(slot, slot + 4));
    assert(m3.data.subrange(at, at + b.len()) =~= b);
}

/// Bytes that neither the address nor the string touches are as before.
proof fn lemma_string_added_elsewhere(
    m: MemoryModel,
    slot: int,
    at: int,
    b: Seq<u8>,
    x: int,
    n: nat,
)
    requires
        0 <= x,
        x + n <= m.data.len(),
        x + n <= slot || slot + 4 <= x,
        x + n <= at || at + b.len() <= x,
    ensures
        string_added(m, slot, at, b).data.subrange(x, x + n) == m.data.subrange(x, x + n),
{
    bytes::lemma_le_bytes_len((at % 0x1_0000_0000) as nat, 4);
    assert(string_added(m, slot, at, b).data.subrange(x, x + n) =~= m.data.subrange(x, x + n));
}

/// Whether `after` is `before` but for `n` bytes at `table` and `k` bytes at
/// `buf`.
pub open spec fn same_elsewhere(
    before: MemoryModel,
    after: MemoryModel,
    table: int,
    n: int,
    buf: int,
    k: int,
) -> bool {
    &&& after.max == before.max
    &&& after.data.len() == before.data.len()
    &&& forall|x: int|
        0 <= x < before.data.len() && !(table <= x < table + n) && !(buf <= x < buf + k)
            ==> #[trigger] after.data[x] == before.data[x]
}

/// Strings that are given room for their addresses and for their bytes, apart
/// from each other, are all in place afterwards: their bytes stand one after
/// the other, and no byte outside of the two regions changes.
pub proof fn law_strings_in_place(m: MemoryModel, table: u32, buf: u32, list: Seq<Seq<u8>>)
    requires
        room_at(m, table as int, 4 * list.len() as int),
        room_at(m, buf as int, total_len(list) as int),
        table + 4 * list.len() <= buf || buf + total_len(list) <= table,
    ensures
        ({
            let s = strings_placed(m, table, buf, list);
            let total = total_len(list) as int;
            &&& s.1 == Ok::<(), WasmError>(())
            &&& same_elsewhere(
                m,
                s.0,
                table as int,
                4 * list.len() as int,
                buf as int,
                total,
            )
            &&& s.0.data.subrange(buf as int, buf + total) == strings_joined(list)
            &&& forall|i: int|
                0 <= i < list.len() ==> #[trigger] string_in_place(s.0, table, buf, list, i)
        }),
    decreases list.len(),
{
    let s = strings_placed(m, table, buf, list);
    if list.len() == 0 {
        assert(s.0.data.subrange(buf as int, buf as int) =~= strings_joined(list));
    } else {
        let rest = list.drop_last();
        law_strings_in_place(m, table, buf, rest);
        let m1 = strings_placed(m, table, buf, rest).0;
        lemma_last_placed(m, table, buf, list);
        assert forall|i: int| 0 <= i < list.len() implies #[trigger] string_in_place(
            s.0,
            table,
            buf,
            list,
            i,
        ) by {
            if i < rest.len() {
                assert(string_in_place(m1, table, buf, rest, i));
            }
            lemma_string_kept(m1, s.0, table, buf, list, i);
        }
        lemma_region_extended(m, m1, s.0, table, buf, list);
    }
}

/// The last string is added to a memory that holds the others.
proof fn lemma_last_placed(m: MemoryModel, table: u32, buf: u32, list: Seq<Seq<u8>>)
    requires
        list.len() > 0,
        room_at(m, table as int, 4 * list.len() as int),
        room_at(m, buf as int, total_len(list) as int),
        table + 4 * list.len() <= buf || buf + total_len(list) <= table,
        strings_placed(m, table, buf, list.drop_last()).1 is Ok,
        strings_placed(m, table, buf, list.drop_last()).0.data.len() == m.data.len(),
    ensures
        strings_placed(m, table, buf, list) == (
            string_added(
                strings_placed(m, table, buf, list.drop_last()).0,
                table + 4 * (list.len() - 1),
                buf + total_len(list.drop_last()),
                list.last(),
            ),
            Ok::<(), WasmError>(()),
        ),
{
    let rest = list.drop_last();
    let k = rest.len();
    let before = strings_placed(m, table, buf, rest);
    let at = buf + total_len(rest);
    let slot = table + 4 * k;
    lemma_total(rest);
    assert(buf.wrapping_add(total_size(rest)) == at % 0x1_0000_0000);
    assert(table.wrapping_add((k as u32).wrapping_mul(4)) == slot);
    assert(before == (before.0, Ok::<(), WasmError>(())));
    lemma_string_added(before.0, slot, at, list.last());
}

/// With the last string, the region of the strings holds all of them, and
/// still nothing else has changed.
proof fn lemma_region_extended(
    m: MemoryModel,
    m1: MemoryModel,
    m3: MemoryModel,
    table: u32,
    buf: u32,
    list: Seq<Seq<u8>>,
)
    requires
        list.len() > 0,
        room_at(m, table as int, 4 * list.len() as int),
        room_at(m, buf as int, total_len(list) as int),
        table + 4 * list.len() <= buf || buf + total_len(list) <= table,
        same_elsewhere(
            m,
            m1,
            table as int,
            4 * (list.len() - 1),
            buf as int,
            total_len(list.drop_last()) as int,
        ),
        m1.data.subrange(buf as int, buf + total_len(list.drop_last())) == strings_joined(
            list.drop_last(),
        ),
        m3 == string_added(
            m1,
            table + 4 * (list.len() - 1),
            buf + total_len(list.drop_last()),
            list.last(),
        ),
    ensures
        same_elsewhere(
            m,
            m3,
            table as int,
            4 * list.len() as int,
            buf as int,
            total_len(list) as int,
        ),
        m3.data.subrange(buf as int, buf + total_len(list)) == strings_joined(list),
{
    let rest = list.drop_last();
    let last = list.last();
    let at = buf + total_len(rest);
    let slot = table + 4 * rest.len();
    lemma_string_added(m1, slot, at, last);
    lemma_string_added_elsewhere(m1, slot, at, last, buf as int, total_len(rest));
    assert(m3.data.subrange(buf as int, at + last.len()) =~= m3.data.subrange(buf as int, at)
        + m3.data.subrange(at, at + last.len()));
    bytes::lemma_le_bytes_len((at % 0x1_0000_0000) as nat, 4);
}

/// Each string is in place after the last one has been added.
proof fn lemma_string_kept(
    m1: MemoryModel,
    m3: MemoryModel,
    table: u32,
    buf: u32,
    list: Seq<Seq<u8>>,
    i: int,
)
    requires
        0 <= i < list.len(),
        room_at(m1, table as int, 4 * list.len() as int),
        room_at(m1, buf as int, total_len(list) as int),
        table + 4 * list.len() <= buf || buf + total_len(list) <= table,
        i < list.len() - 1 ==> string_in_place(m1, table, buf, list.drop_last(), i),
        m3 == string_added(
            m1,
            table + 4 * (list.len() - 1),
            buf + total_len(list.drop_last()),
            list.last(),
        ),
    ensures
        string_in_place(m3, table, buf, list, i),
{
    let rest = list.drop_last();
    let k = rest.len();
    let at = buf + total_len(rest);
    let slot = table + 4 * k;
    lemma_string_added(m1, slot, at, list.last());
    if i < k {
        assert(rest.subrange(0, i) =~= list.subrange(0, i));
        lemma_total_prefix(rest, i);
        let b = buf + total_len(list.subrange(0, i));
        lemma_string_added_elsewhere(m1, slot, at, list.last(), b as int, list[i].len());
        lemma_string_added_elsewhere(m1, slot, at, list.last(), table + 4 * i, 4);
    } else {
        assert(list.subrange(0, i) =~= rest);
    }
}

} // verus!
