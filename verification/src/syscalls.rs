//! The calls of the system interface, one by one: which message each sends,
//! and what it makes of the answer.
use vstd::prelude::*;

use crate::bytes;
use crate::host::Outcome;
use crate::memory::MemoryModel;
use crate::semantics;
use crate::storage;
use crate::types;
use crate::types::{CellId, ValType, Value, WasmError};
use crate::wasi;
use crate::wasi::{WasiCtx, WasiFn};

verus! {

/// An `i32` argument as an unsigned number.
pub open spec fn unsigned(v: i32) -> int {
    semantics::unsigned32(v)
}

/// Whether the call sends a message from `cell` to the cell at address `to`,
/// with the given subject and body.
pub open spec fn sends(
    w: WasiFn,
    cell: CellId,
    args: Seq<Value>,
    m: MemoryModel,
    to: u8,
    subject: Seq<char>,
    body: Seq<u8>,
) -> bool {
    wasi::request(w, cell, args, m) matches Ok(Some(msg)) && msg.from == cell && msg.to == CellId(to)
        && msg.subject == subject && msg.body == body && msg.reply is None
}

/// Whether `b` is the number `v` in `w` bytes, least significant byte first.
pub open spec fn spells(b: Seq<u8>, v: int, w: nat) -> bool {
    b.len() == w && storage::number(b, 0, w) == v
}

proof fn lemma_spells(v: nat, w: nat)
    requires
        w == 1 || w == 2 || w == 4 || w == 8,
        v < storage::span(w),
    ensures
        spells(bytes::le_bytes(v, w), v as int, w),
{
    let b = bytes::le_bytes(v, w);
    bytes::law_le_round_trip(v, w);
    bytes::lemma_pow256();
    vstd::arithmetic::div_mod::lemma_small_mod(v, storage::span(w) as nat);
    storage::lemma_number(b, 0, w);
    assert(b.subrange(0, w as int) =~= b);
}

/// The cells of the kernel have addresses of their own.
pub proof fn law_kernel_cells()
    ensures
        wasi::CELL_SCHEDULER == 0,
        wasi::CELL_FS == 1,
        wasi::CELL_STDIN == 2,
        wasi::CELL_STDOUT == 3,
        wasi::CELL_STDERR == 4,
        wasi::CELL_TIMER == 5,
        wasi::CELL_ENTROPY == 6,
{
}

// ---- What each call asks ----

/// Whether the list of buffers at `iov` starts with `bufs`: the entries, an
/// address and a length each, stand one after the other.
pub open spec fn listed(m: MemoryModel, iov: i32, bufs: Seq<(u32, u32)>) -> bool {
    &&& unsigned(iov) + 8 * bufs.len() <= m.data.len()
    &&& unsigned(iov) + 8 * bufs.len() <= 0xffff_ffff
    &&& forall|i: int|
        0 <= i < bufs.len() ==> storage::number(m.data, unsigned(iov) + 8 * i, 4) == (
        #[trigger] bufs[i]).0 && storage::number(m.data, unsigned(iov) + 8 * i + 4, 4) == bufs[i].1
}

proof fn lemma_listed(m: MemoryModel, iov: i32, bufs: Seq<(u32, u32)>)
    requires
        listed(m, iov, bufs),
        m.data.len() <= usize::MAX,
    ensures
        wasi::buffers_listed(m, iov as u32, bufs),
{
    semantics::lemma_words32(iov, 0);
    assert forall|i: int| 0 <= i < bufs.len() implies wasi::buffer_listed(
        m,
        iov as u32,
        i,
        #[trigger] bufs[i],
    ) by {
        let at = unsigned(iov) + 8 * i;
        assert((i as u32).wrapping_mul(8) == 8 * i);
        assert(wasi::iov_addr(iov as u32, i as u32) == at);
        storage::lemma_number(m.data, at, 4);
        storage::lemma_number(m.data, at + 4, 4);
    }
}

/// The arguments of `fd_write` and `fd_read`.
pub open spec fn buffer_args(fd: i32, iov: i32, n: i32, out: i32) -> Seq<Value> {
    seq![Value::I32(fd), Value::I32(iov), Value::I32(n), Value::I32(out)]
}

/// The cell that serves a file descriptor.
pub open spec fn server(fd: i32) -> u8 {
    if fd == 0 {
        wasi::CELL_STDIN
    } else if fd == 1 {
        wasi::CELL_STDOUT
    } else if fd == 2 {
        wasi::CELL_STDERR
    } else {
        wasi::CELL_FS
    }
}

/// `fd_write` sends the contents of the buffers, one after the other, to the
/// cell that serves the descriptor.
pub proof fn law_fd_write_asks(
    cell: CellId,
    m: MemoryModel,
    fd: i32,
    iov: i32,
    n: i32,
    out: i32,
    bufs: Seq<(u32, u32)>,
)
    requires
        m.data.len() <= usize::MAX,
        listed(m, iov, bufs),
        bufs.len() == unsigned(n),
        forall|i: int| 0 <= i < bufs.len() ==> wasi::buffer_inside(m, #[trigger] bufs[i]),
    ensures
        sends(
            WasiFn::FdWrite,
            cell,
            buffer_args(fd, iov, n, out),
            m,
            server(fd),
            "wasi::fd_write"@,
            wasi::buffers_joined(m, bufs),
        ),
{
    semantics::lemma_words32(n, 0);
    lemma_listed(m, iov, bufs);
    wasi::law_buffers_gathered(m, iov as u32, bufs);
}

/// The room in buffers.
pub open spec fn room(bufs: Seq<(u32, u32)>) -> int
    decreases bufs.len(),
{
    if bufs.len() == 0 {
        0
    } else {
        room(bufs.drop_last()) + bufs.last().1
    }
}

proof fn lemma_capacity(m: MemoryModel, iov: u32, bufs: Seq<(u32, u32)>)
    requires
        bufs.len() <= u32::MAX,
        wasi::buffers_listed(m, iov, bufs),
    ensures
        0 <= room(bufs),
        room(bufs) <= u32::MAX ==> wasi::capacity(m, iov, bufs.len()) == room(bufs),
    decreases bufs.len(),
{
    if bufs.len() > 0 {
        let rest = bufs.drop_last();
        assert forall|i: int| 0 <= i < rest.len() implies wasi::buffer_listed(
            m,
            iov,
            i,
            #[trigger] rest[i],
        ) by {
            assert(rest[i] == bufs[i]);
        }
        lemma_capacity(m, iov, rest);
        assert(wasi::buffer_listed(m, iov, bufs.len() - 1, bufs[bufs.len() - 1]));
    }
}

/// `fd_read` asks the cell that serves the descriptor for as many bytes as
/// the buffers have room for.
pub proof fn law_fd_read_asks(
    cell: CellId,
    m: MemoryModel,
    fd: i32,
    iov: i32,
    n: i32,
    out: i32,
    bufs: Seq<(u32, u32)>,
)
    requires
        m.data.len() <= usize::MAX,
        listed(m, iov, bufs),
        bufs.len() == unsigned(n),
        room(bufs) <= u32::MAX,
    ensures
        wasi::request(
            WasiFn::FdRead,
            cell,
            buffer_args(fd, iov, n, out),
            m,
        ) matches Ok(Some(msg)) && msg.from == cell && msg.to == CellId(server(fd)) && msg.subject
            == "wasi::fd_read"@ && msg.reply is None && spells(
            msg.body,
            room(bufs),
            (usize::BITS / 8) as nat,
        ),
{
    semantics::lemma_words32(n, 0);
    lemma_listed(m, iov, bufs);
    lemma_capacity(m, iov as u32, bufs);
    lemma_spells(room(bufs) as nat, (usize::BITS / 8) as nat);
}

/// `fd_close` names the descriptor to the cell that serves it.
pub proof fn law_fd_close_asks(cell: CellId, m: MemoryModel, fd: i32)
    ensures
        wasi::request(WasiFn::FdClose, cell, seq![Value::I32(fd)], m) matches Ok(Some(msg))
            && msg.from == cell && msg.to == CellId(server(fd)) && msg.subject == "wasi::fd_close"@
            && msg.reply is None && spells(msg.body, unsigned(fd), 4),
{
    semantics::lemma_words32(fd, 0);
    lemma_spells(unsigned(fd) as nat, 4);
}

/// The arguments of `path_open`.
pub open spec fn path_open_args(
    dir: i32,
    dirflags: i32,
    path: i32,
    len: i32,
    oflags: i32,
    rights: i64,
    inheriting: i64,
    fdflags: i32,
    out: i32,
) -> Seq<Value> {
    seq![
        Value::I32(dir),
        Value::I32(dirflags),
        Value::I32(path),
        Value::I32(len),
        Value::I32(oflags),
        Value::I64(rights),
        Value::I64(inheriting),
        Value::I32(fdflags),
        Value::I32(out),
    ]
}

/// `path_open` sends the path, which is the `len` bytes of memory at `path`,
/// to the file system; a path that reaches over the end of the memory traps.
pub proof fn law_path_open_asks(
    cell: CellId,
    m: MemoryModel,
    dir: i32,
    dirflags: i32,
    path: i32,
    len: i32,
    oflags: i32,
    rights: i64,
    inheriting: i64,
    fdflags: i32,
    out: i32,
)
    requires
        m.data.len() <= usize::MAX,
        m.data.len() <= 0x1_0000_0000,
        unsigned(path) + unsigned(len) <= 0xffff_ffff,
    ensures
        ({
            let args = path_open_args(
                dir,
                dirflags,
                path,
                len,
                oflags,
                rights,
                inheriting,
                fdflags,
                out,
            );
            if unsigned(len) == 0 || unsigned(path) + unsigned(len) <= m.data.len() {
                wasi::request(WasiFn::PathOpen, cell, args, m) matches Ok(Some(msg)) && msg.from
                    == cell && msg.to == CellId(wasi::CELL_FS) && msg.subject == "wasi::path_open"@
                    && msg.reply is None && msg.body.len() == unsigned(len) && forall|i: int|
                    0 <= i < unsigned(len) ==> #[trigger] msg.body[i] == m.data[unsigned(path) + i]
            } else {
                wasi::request(WasiFn::PathOpen, cell, args, m) is Err
            }
        }),
{
    semantics::lemma_words32(path, 0);
    semantics::lemma_words32(len, 0);
    if unsigned(path) + unsigned(len) <= m.data.len() {
        wasi::law_load_bytes_inside(m, path as u32, unsigned(len) as nat);
    } else if unsigned(len) > 0 {
        lemma_load_bytes_outside(m, path as u32, unsigned(len) as nat);
    }
}

proof fn lemma_load_bytes_outside(m: MemoryModel, ptr: u32, n: nat)
    requires
        ptr + n > m.data.len(),
        n > 0,
        ptr + n <= 0x1_0000_0000,
    ensures
        wasi::load_bytes(m, ptr, n) is Err,
{
    assert(ptr.wrapping_add((n - 1) as u32) == ptr + n - 1);
}

/// `proc_exit` tells the scheduler the exit code.
pub proof fn law_proc_exit_asks(cell: CellId, m: MemoryModel, code: i32)
    ensures
        wasi::request(WasiFn::ProcExit, cell, seq![Value::I32(code)], m) matches Ok(Some(msg))
            && msg.from == cell && msg.to == CellId(wasi::CELL_SCHEDULER) && msg.subject
            == "wasi::proc_exit"@ && msg.reply is None && spells(msg.body, unsigned(code), 4),
{
    semantics::lemma_words32(code, 0);
    lemma_spells(unsigned(code) as nat, 4);
}

/// `clock_time_get` asks the timer, with an empty message.
pub proof fn law_clock_time_get_asks(
    cell: CellId,
    m: MemoryModel,
    id: i32,
    precision: i64,
    out: i32,
)
    ensures
        sends(
            WasiFn::ClockTimeGet,
            cell,
            seq![Value::I32(id), Value::I64(precision), Value::I32(out)],
            m,
            wasi::CELL_TIMER,
            "wasi::clock_time_get"@,
            seq![],
        ),
{
}

/// `random_get` asks the entropy source for as many bytes as the buffer has
/// room for.
pub proof fn law_random_get_asks(cell: CellId, m: MemoryModel, buf: i32, len: i32)
    ensures
        wasi::request(WasiFn::RandomGet, cell, seq![Value::I32(buf), Value::I32(len)], m) matches Ok(
            Some(msg),
        ) && msg.from == cell && msg.to == CellId(wasi::CELL_ENTROPY) && msg.subject
            == "wasi::random_get"@ && msg.reply is None && spells(msg.body, unsigned(len), 4),
{
    semantics::lemma_words32(len, 0);
    lemma_spells(unsigned(len) as nat, 4);
}

/// `fd_seek` sends the descriptor, the offset and where it counts from to the
/// file system, in this order.
pub proof fn law_fd_seek_asks(
    cell: CellId,
    m: MemoryModel,
    fd: i32,
    offset: i64,
    whence: i32,
    out: i32,
)
    requires
        0 <= whence < 256,
    ensures
        wasi::request(
            WasiFn::FdSeek,
            cell,
            seq![Value::I32(fd), Value::I64(offset), Value::I32(whence), Value::I32(out)],
            m,
        ) matches Ok(Some(msg)) && msg.from == cell && msg.to == CellId(wasi::CELL_FS)
            && msg.subject == "wasi::fd_seek"@ && msg.reply is None && msg.body.len() == 13
            && storage::number(msg.body, 0, 4) == unsigned(fd) && storage::number(msg.body, 4, 8)
            == semantics::unsigned64(offset) && msg.body[12] == whence,
{
    semantics::lemma_words32(fd, 0);
    semantics::lemma_words64(offset, 0);
    lemma_spells(unsigned(fd) as nat, 4);
    lemma_spells(semantics::unsigned64(offset) as nat, 8);
    let a = bytes::le_bytes(unsigned(fd) as nat, 4);
    let b = bytes::le_bytes(semantics::unsigned64(offset) as nat, 8);
    let body = a + b + wasi::low_byte(whence);
    storage::lemma_number(a, 0, 4);
    storage::lemma_number(b, 0, 8);
    storage::lemma_number(body, 0, 4);
    storage::lemma_number(body, 4, 8);
    assert(body.subrange(0, 4) =~= a.subrange(0, 4));
    assert(body.subrange(4, 12) =~= b.subrange(0, 8));
}

/// The calls on arguments and environment, and `poll_oneoff`, send nothing.
pub proof fn law_quiet_calls(w: WasiFn, cell: CellId, args: Seq<Value>, m: MemoryModel)
    requires
        w is ArgsSizesGet || w is ArgsGet || w is EnvironSizesGet || w is EnvironGet
            || w is PollOneoff,
    ensures
        wasi::request(w, cell, args, m) matches Ok(None),
{
}

// ---- What each call makes of the answer ----

/// Whether a call leaves `errno` as its result, and the memory with the
/// number `v` written to the `w` bytes at `out` and nothing else changed. A
/// number that does not fit in the memory traps and changes nothing.
pub open spec fn reports(
    r: (MemoryModel, Outcome),
    m: MemoryModel,
    out: i32,
    w: nat,
    v: int,
    errno: i32,
) -> bool {
    if unsigned(out) + w <= m.data.len() {
        r.1 == Ok::<Seq<Value>, WasmError>(seq![Value::I32(errno)]) && r.0.max == m.max
            && storage::written(m.data, r.0.data, unsigned(out), w, v)
    } else {
        r.0 == m && r.1 is Err
    }
}

proof fn lemma_reports(m: MemoryModel, out: i32, w: nat, v: nat, errno: i32)
    requires
        w == 4 || w == 8,
        m.data.len() <= usize::MAX,
    ensures
        reports(
            wasi::reported(wasi::store_next((m, Ok(())), out as u32, v, w), errno),
            m,
            out,
            w,
            v as int,
            errno,
        ),
{
    semantics::lemma_words32(out, 0);
    if unsigned(out) + w <= m.data.len() {
        storage::lemma_written(m.data, unsigned(out), v, w);
    }
}

/// `fd_write` reports how many bytes it sent.
pub proof fn law_fd_write_reports(
    argv: Seq<Seq<u8>>,
    env: Seq<Seq<u8>>,
    m: MemoryModel,
    fd: i32,
    iov: i32,
    n: i32,
    out: i32,
    sent: nat,
    reply: Seq<u8>,
    now: u64,
)
    requires
        m.data.len() <= usize::MAX,
        sent <= u32::MAX,
    ensures
        reports(
            wasi::finish(
                WasiFn::FdWrite,
                argv,
                env,
                buffer_args(fd, iov, n, out),
                m,
                sent,
                reply,
                now,
            ),
            m,
            out,
            4,
            sent as int,
            0,
        ),
{
    lemma_reports(m, out, 4, sent, 0);
}

/// `fd_read` lays the reply over the buffers and reports its length.
pub proof fn law_fd_read_reports(
    argv: Seq<Seq<u8>>,
    env: Seq<Seq<u8>>,
    m: MemoryModel,
    fd: i32,
    iov: i32,
    n: i32,
    out: i32,
    sent: nat,
    reply: Seq<u8>,
    now: u64,
    bufs: Seq<(u32, u32)>,
)
    requires
        m.data.len() <= usize::MAX,
        reply.len() <= u32::MAX,
        listed(m, iov, bufs),
        bufs.len() == unsigned(n),
        wasi::fillable(m, iov as u32, bufs, reply.len()),
    ensures
        exists|filled: MemoryModel|
            {
                &&& #[trigger] reports(
                    wasi::finish(
                        WasiFn::FdRead,
                        argv,
                        env,
                        buffer_args(fd, iov, n, out),
                        m,
                        sent,
                        reply,
                        now,
                    ),
                    filled,
                    out,
                    4,
                    reply.len() as int,
                    0,
                )
                &&& filled.max == m.max
                &&& filled.data.len() == m.data.len()
                &&& forall|j: int|
                    0 <= j < bufs.len() ==> #[trigger] wasi::share_filled(filled, bufs, j, reply)
                &&& forall|x: int|
                    0 <= x < m.data.len() && wasi::unfilled(bufs, 0, reply.len(), x)
                        ==> #[trigger] filled.data[x] == m.data[x]
            },
{
    semantics::lemma_words32(n, 0);
    lemma_listed(m, iov, bufs);
    wasi::law_buffers_filled(m, iov as u32, bufs, reply);
    let filled = wasi::scattered(m, iov as u32, 0, bufs.len(), reply, 0).0;
    lemma_reports(filled, out, 4, reply.len(), 0);
    let r = wasi::finish(
        WasiFn::FdRead,
        argv,
        env,
        buffer_args(fd, iov, n, out),
        m,
        sent,
        reply,
        now,
    );
    assert(reports(r, filled, out, 4, reply.len() as int, 0));
}

/// `fd_close` succeeds and leaves the memory alone.
pub proof fn law_fd_close_reports(
    argv: Seq<Seq<u8>>,
    env: Seq<Seq<u8>>,
    args: Seq<Value>,
    m: MemoryModel,
    sent: nat,
    reply: Seq<u8>,
    now: u64,
)
    ensures
        wasi::finish(WasiFn::FdClose, argv, env, args, m, sent, reply, now) == (
            m,
            Ok::<Seq<Value>, WasmError>(seq![Value::I32(0)]),
        ),
{
}

/// `path_open` answers with the error code in the first four bytes of the
/// reply and writes the descriptor in the next four. A reply without a code
/// is an I/O error, and one without a descriptor gives descriptor 0.
pub proof fn law_path_open_reports(
    argv: Seq<Seq<u8>>,
    env: Seq<Seq<u8>>,
    m: MemoryModel,
    args: Seq<Value>,
    out: i32,
    sent: nat,
    reply: Seq<u8>,
    now: u64,
)
    requires
        m.data.len() <= usize::MAX,
        args.len() == 9,
        args[8] == Value::I32(out),
    ensures
        reports(
            wasi::finish(WasiFn::PathOpen, argv, env, args, m, sent, reply, now),
            m,
            out,
            4,
            if reply.len() >= 8 {
                storage::number(reply, 4, 4)
            } else {
                0
            },
            if reply.len() >= 4 {
                semantics::wrap32(storage::number(reply, 0, 4))
            } else {
                29
            },
        ),
{
    if reply.len() >= 4 {
        storage::lemma_number(reply, 0, 4);
        storage::lemma_number_bound(reply, 0, 4);
        semantics::lemma_words32(0, storage::number(reply, 0, 4) as u32);
    }
    if reply.len() >= 8 {
        storage::lemma_number(reply, 4, 4);
    }
    lemma_reports(
        m,
        out,
        4,
        wasi::reply_number(reply, 4, 8, 0),
        wasi::reply_number(reply, 0, 4, 29) as u32 as i32,
    );
}

/// `clock_time_get` writes the time in the reply, or the time that the clock
/// shows if the reply is too short to hold one.
pub proof fn law_clock_time_get_reports(
    argv: Seq<Seq<u8>>,
    env: Seq<Seq<u8>>,
    m: MemoryModel,
    id: i32,
    precision: i64,
    out: i32,
    sent: nat,
    reply: Seq<u8>,
    now: u64,
)
    requires
        m.data.len() <= usize::MAX,
    ensures
        reports(
            wasi::finish(
                WasiFn::ClockTimeGet,
                argv,
                env,
                seq![Value::I32(id), Value::I64(precision), Value::I32(out)],
                m,
                sent,
                reply,
                now,
            ),
            m,
            out,
            8,
            if reply.len() >= 8 {
                storage::number(reply, 0, 8)
            } else {
                now as int
            },
            0,
        ),
{
    if reply.len() >= 8 {
        storage::lemma_number(reply, 0, 8);
    }
    lemma_reports(m, out, 8, wasi::reply_number(reply, 0, 8, now as nat), 0);
}

/// `fd_seek` writes the new position in the reply, or 0 if the reply is too
/// short to hold one.
pub proof fn law_fd_seek_reports(
    argv: Seq<Seq<u8>>,
    env: Seq<Seq<u8>>,
    m: MemoryModel,
    fd: i32,
    offset: i64,
    whence: i32,
    out: i32,
    sent: nat,
    reply: Seq<u8>,
    now: u64,
)
    requires
        m.data.len() <= usize::MAX,
    ensures
        reports(
            wasi::finish(
                WasiFn::FdSeek,
                argv,
                env,
                seq![Value::I32(fd), Value::I64(offset), Value::I32(whence), Value::I32(out)],
                m,
                sent,
                reply,
                now,
            ),
            m,
            out,
            8,
            if reply.len() >= 8 {
                storage::number(reply, 0, 8)
            } else {
                0
            },
            0,
        ),
{
    if reply.len() >= 8 {
        storage::lemma_number(reply, 0, 8);
    }
    lemma_reports(m, out, 8, wasi::reply_number(reply, 0, 8, 0), 0);
}

/// `poll_oneoff` reports that nothing happened.
pub proof fn law_poll_oneoff_reports(
    argv: Seq<Seq<u8>>,
    env: Seq<Seq<u8>>,
    m: MemoryModel,
    subscriptions: i32,
    events: i32,
    n: i32,
    out: i32,
)
    requires
        m.data.len() <= usize::MAX,
    ensures
        reports(
            wasi::finish(
                WasiFn::PollOneoff,
                argv,
                env,
                seq![
                    Value::I32(subscriptions),
                    Value::I32(events),
                    Value::I32(n),
                    Value::I32(out),
                ],
                m,
                0,
                seq![],
                0,
            ),
            m,
            out,
            4,
            0,
            0,
        ),
{
    lemma_reports(m, out, 4, 0, 0);
}

/// `random_get` fills the buffer with the reply, as far as both reach.
pub proof fn law_random_get_reports(
    argv: Seq<Seq<u8>>,
    env: Seq<Seq<u8>>,
    m: MemoryModel,
    buf: i32,
    len: i32,
    sent: nat,
    reply: Seq<u8>,
    now: u64,
    n: int,
)
    requires
        m.data.len() <= usize::MAX,
        n == if reply.len() <= unsigned(len) {
            reply.len() as int
        } else {
            unsigned(len)
        },
        unsigned(buf) + n <= m.data.len(),
        unsigned(buf) + n <= 0xffff_ffff,
    ensures
        ({
            let r = wasi::finish(
                WasiFn::RandomGet,
                argv,
                env,
                seq![Value::I32(buf), Value::I32(len)],
                m,
                sent,
                reply,
                now,
            );
            &&& r.1 == Ok::<Seq<Value>, WasmError>(seq![Value::I32(0)])
            &&& r.0.max == m.max
            &&& r.0.data.len() == m.data.len()
            &&& forall|k: int| 0 <= k < n ==> #[trigger] r.0.data[unsigned(buf) + k] == reply[k]
            &&& forall|k: int|
                0 <= k < m.data.len() && !(unsigned(buf) <= k < unsigned(buf) + n)
                    ==> #[trigger] r.0.data[k] == m.data[k]
        }),
{
    semantics::lemma_words32(buf, 0);
    semantics::lemma_words32(len, 0);
    let b = if reply.len() <= unsigned(len) {
        reply
    } else {
        reply.subrange(0, unsigned(len))
    };
    wasi::law_store_bytes_inside(m, buf as u32, b);
}

proof fn lemma_total_size(list: Seq<Seq<u8>>)
    ensures
        wasi::total_len(list) <= u32::MAX ==> wasi::total_size(list) == wasi::total_len(list),
    decreases list.len(),
{
    if list.len() > 0 {
        lemma_total_size(list.drop_last());
    }
}

/// Whether a call leaves 0 as its result, and the memory with the number `a`
/// written at `first`, the number `b` written at `second`, and nothing else
/// changed.
pub open spec fn reports_two(
    r: (MemoryModel, Outcome),
    m: MemoryModel,
    first: i32,
    a: int,
    second: i32,
    b: int,
) -> bool {
    exists|half: MemoryModel|
        half.max == m.max && #[trigger] storage::written(m.data, half.data, unsigned(first), 4, a)
            && reports(r, half, second, 4, b, 0)
}

proof fn lemma_reports_two(m: MemoryModel, first: i32, a: nat, second: i32, b: nat)
    requires
        m.data.len() <= usize::MAX,
        unsigned(first) + 4 <= m.data.len(),
    ensures
        reports_two(
            wasi::reported(
                wasi::store_next(
                    wasi::store_next((m, Ok(())), first as u32, a, 4),
                    second as u32,
                    b,
                    4,
                ),
                0,
            ),
            m,
            first,
            a as int,
            second,
            b as int,
        ),
{
    semantics::lemma_words32(first, 0);
    let half = wasi::store_next((m, Ok(())), first as u32, a, 4).0;
    storage::lemma_written(m.data, unsigned(first), a, 4);
    assert(storage::written(m.data, half.data, unsigned(first), 4, a as int));
    lemma_reports(half, second, 4, b, 0);
}

/// `args_sizes_get` reports how many arguments there are and how many bytes
/// they have together, and `environ_sizes_get` the same of the environment.
pub proof fn law_sizes_reported(
    argv: Seq<Seq<u8>>,
    env: Seq<Seq<u8>>,
    m: MemoryModel,
    count: i32,
    size: i32,
)
    requires
        m.data.len() <= usize::MAX,
        unsigned(count) + 4 <= m.data.len(),
    ensures
        argv.len() <= u32::MAX && wasi::total_len(argv) <= u32::MAX ==> reports_two(
            wasi::finish(
                WasiFn::ArgsSizesGet,
                argv,
                env,
                seq![Value::I32(count), Value::I32(size)],
                m,
                0,
                seq![],
                0,
            ),
            m,
            count,
            argv.len() as int,
            size,
            wasi::total_len(argv) as int,
        ),
        env.len() <= u32::MAX && wasi::total_len(env) <= u32::MAX ==> reports_two(
            wasi::finish(
                WasiFn::EnvironSizesGet,
                argv,
                env,
                seq![Value::I32(count), Value::I32(size)],
                m,
                0,
                seq![],
                0,
            ),
            m,
            count,
            env.len() as int,
            size,
            wasi::total_len(env) as int,
        ),
{
    lemma_total_size(argv);
    lemma_total_size(env);
    if argv.len() <= u32::MAX && wasi::total_len(argv) <= u32::MAX {
        lemma_reports_two(m, count, argv.len(), size, wasi::total_len(argv));
    }
    if env.len() <= u32::MAX && wasi::total_len(env) <= u32::MAX {
        lemma_reports_two(m, count, env.len(), size, wasi::total_len(env));
    }
}

/// Whether the address of string `i` of `list`, which starts behind the
/// strings before it, stands at its place in the table.
pub open spec fn address_at(d: Seq<u8>, table: int, buf: int, list: Seq<Seq<u8>>, i: int) -> bool {
    storage::number(d, table + 4 * i, 4) == (buf + wasi::total_len(list.subrange(0, i)))
        % 0x1_0000_0000
}

/// Whether `after` is `before` with the strings of `list` one after the other
/// at `buf`, and their addresses one after the other at `table`.
pub open spec fn strings_at(
    before: MemoryModel,
    after: MemoryModel,
    table: int,
    buf: int,
    list: Seq<Seq<u8>>,
) -> bool {
    let total = wasi::total_len(list) as int;
    &&& after.max == before.max
    &&& after.data.len() == before.data.len()
    &&& forall|x: int|
        0 <= x < before.data.len() && !(table <= x < table + 4 * list.len())
            && !(buf <= x < buf + total) ==> #[trigger] after.data[x]
            == before.data[x]
    &&& after.data.subrange(buf, buf + total) == wasi::strings_joined(list)
    &&& forall|i: int|
        0 <= i < list.len() ==> #[trigger] address_at(after.data, table, buf, list, i)
}

proof fn lemma_address_placed(m: MemoryModel, table: u32, buf: u32, list: Seq<Seq<u8>>, i: int)
    requires
        wasi::string_in_place(m, table, buf, list, i),
        0 <= i < list.len(),
        table + 4 * list.len() <= m.data.len(),
        table + 4 * list.len() <= 0x1_0000_0000,
    ensures
        address_at(m.data, table as int, buf as int, list, i),
{
    assert((table + 4 * i) as u32 == table + 4 * i);
    storage::lemma_number(m.data, table + 4 * i, 4);
}

#[verifier::spinoff_prover]
#[verifier::rlimit(30)]
proof fn lemma_strings_at(m: MemoryModel, table: u32, buf: u32, list: Seq<Seq<u8>>)
    requires
        wasi::room_at(m, table as int, 4 * list.len() as int),
        wasi::room_at(m, buf as int, wasi::total_len(list) as int),
        table + 4 * list.len() <= buf || buf + wasi::total_len(list) <= table,
    ensures
        ({
            let s = wasi::strings_placed(m, table, buf, list);
            s.1 == Ok::<(), WasmError>(()) && strings_at(m, s.0, table as int, buf as int, list)
        }),
{
    wasi::law_strings_in_place(m, table, buf, list);
    let s = wasi::strings_placed(m, table, buf, list);
    assert forall|i: int| 0 <= i < list.len() implies #[trigger] address_at(
        s.0.data,
        table as int,
        buf as int,
        list,
        i,
    ) by {
        assert(wasi::string_in_place(s.0, table, buf, list, i));
        lemma_address_placed(s.0, table, buf, list, i);
    }
}

/// `args_get` puts the arguments and their addresses into memory, and
/// `environ_get` does the same with the environment.
pub proof fn law_strings_reported(
    argv: Seq<Seq<u8>>,
    env: Seq<Seq<u8>>,
    m: MemoryModel,
    table: i32,
    buf: i32,
    w: WasiFn,
    list: Seq<Seq<u8>>,
)
    requires
        (w is ArgsGet && list == argv) || (w is EnvironGet && list == env),
        wasi::room_at(m, unsigned(table), 4 * list.len() as int),
        wasi::room_at(m, unsigned(buf), wasi::total_len(list) as int),
        unsigned(table) + 4 * list.len() <= unsigned(buf) || unsigned(buf) + wasi::total_len(list)
            <= unsigned(table),
    ensures
        ({
            let r = wasi::finish(
                w,
                argv,
                env,
                seq![Value::I32(table), Value::I32(buf)],
                m,
                0,
                seq![],
                0,
            );
            r.1 == Ok::<Seq<Value>, WasmError>(seq![Value::I32(0)]) && strings_at(
                m,
                r.0,
                unsigned(table),
                unsigned(buf),
                list,
            )
        }),
{
    semantics::lemma_words32(table, 0);
    semantics::lemma_words32(buf, 0);
    lemma_strings_at(m, table as u32, buf as u32, list);
}

// ---- Names and signatures ----

/// The names by which a module imports the calls.
pub proof fn law_names()
    ensures
        wasi::module_name() == "wasi_snapshot_preview1"@,
        wasi::fn_name(WasiFn::FdWrite) == "fd_write"@,
        wasi::fn_name(WasiFn::FdRead) == "fd_read"@,
        wasi::fn_name(WasiFn::FdClose) == "fd_close"@,
        wasi::fn_name(WasiFn::PathOpen) == "path_open"@,
        wasi::fn_name(WasiFn::ProcExit) == "proc_exit"@,
        wasi::fn_name(WasiFn::ArgsSizesGet) == "args_sizes_get"@,
        wasi::fn_name(WasiFn::ArgsGet) == "args_get"@,
        wasi::fn_name(WasiFn::EnvironSizesGet) == "environ_sizes_get"@,
        wasi::fn_name(WasiFn::EnvironGet) == "environ_get"@,
        wasi::fn_name(WasiFn::ClockTimeGet) == "clock_time_get"@,
        wasi::fn_name(WasiFn::RandomGet) == "random_get"@,
        wasi::fn_name(WasiFn::PollOneoff) == "poll_oneoff"@,
        wasi::fn_name(WasiFn::FdSeek) == "fd_seek"@,
{
}

/// How many arguments a call takes.
pub open spec fn argument_count(w: WasiFn) -> nat {
    match w {
        WasiFn::FdWrite => 4,
        WasiFn::FdRead => 4,
        WasiFn::FdClose => 1,
        WasiFn::PathOpen => 9,
        WasiFn::ProcExit => 1,
        WasiFn::ArgsSizesGet => 2,
        WasiFn::ArgsGet => 2,
        WasiFn::EnvironSizesGet => 2,
        WasiFn::EnvironGet => 2,
        WasiFn::ClockTimeGet => 3,
        WasiFn::RandomGet => 2,
        WasiFn::PollOneoff => 4,
        WasiFn::FdSeek => 4,
    }
}

/// Every argument of a call is an `i32`, but for the rights of `path_open`,
/// the precision of `clock_time_get` and the offset of `fd_seek`. Every call
/// has one `i32` as its result, but `proc_exit` has none.
pub proof fn law_signatures(w: WasiFn, k: int)
    requires
        0 <= k < argument_count(w),
    ensures
        wasi::fn_type(w).params.len() == argument_count(w),
        wasi::fn_type(w).params[k] == (if (w is PathOpen && (k == 5 || k == 6)) || (w is ClockTimeGet
            && k == 1) || (w is FdSeek && k == 1) {
            ValType::I64
        } else {
            ValType::I32
        }),
        w is ProcExit ==> wasi::fn_type(w).results.len() == 0,
        !(w is ProcExit) ==> wasi::fn_type(w).results =~= seq![ValType::I32],
{
}

/// Every call is offered, and each once.
pub proof fn law_all_offered(w: WasiFn)
    ensures
        wasi::all_fns().len() == 13,
        exists|i: int| 0 <= i < 13 && #[trigger] wasi::all_fns()[i] == w,
        forall|i: int, j: int|
            0 <= i < j < 13 ==> #[trigger] wasi::all_fns()[i] != #[trigger] wasi::all_fns()[j],
{
    let all = wasi::all_fns();
    assert(all[0] == WasiFn::FdWrite);
    assert(all[1] == WasiFn::FdRead);
    assert(all[2] == WasiFn::FdClose);
    assert(all[3] == WasiFn::PathOpen);
    assert(all[4] == WasiFn::ProcExit);
    assert(all[5] == WasiFn::ArgsSizesGet);
    assert(all[6] == WasiFn::ArgsGet);
    assert(all[7] == WasiFn::EnvironSizesGet);
    assert(all[8] == WasiFn::EnvironGet);
    assert(all[9] == WasiFn::ClockTimeGet);
    assert(all[10] == WasiFn::RandomGet);
    assert(all[11] == WasiFn::PollOneoff);
    assert(all[12] == WasiFn::FdSeek);
}

// ---- Whole calls ----

/// A call that sends a message ends as its answer says: there is an answer
/// that the mailbox may give to that very message, and the memory and the
/// outcome are what the call makes of it.
pub proof fn law_call_is_answered(
    w: WasiFn,
    ctx: WasiCtx,
    args: Seq<Value>,
    before: MemoryModel,
    after: MemoryModel,
    r: Outcome,
)
    requires
        wasi::behaves(w, ctx, args, before, after, r),
        wasi::request(w, ctx.cell, args, before) matches Ok(Some(_)),
    ensures
        ({
            let msg = wasi::request(w, ctx.cell, args, before)->Ok_0->Some_0;
            exists|reply: Seq<u8>, now: u64|
                #![trigger wasi::answered(w, ctx, args, before, msg, reply, now, after, r)]
                ctx.mailbox.replies(msg, reply) && (w is ClockTimeGet && reply.len() < 8
                    ==> ctx.mailbox.shows(now)) && (after, r) == wasi::finish(
                    w,
                    types::views(ctx.args@),
                    types::views(ctx.env@),
                    args,
                    before,
                    msg.body.len(),
                    reply,
                    now,
                )
        }),
{
    let msg = wasi::request(w, ctx.cell, args, before)->Ok_0->Some_0;
    let (reply, now) = choose|reply: Seq<u8>, now: u64|
        wasi::answered(w, ctx, args, before, msg, reply, now, after, r);
    assert(wasi::answered(w, ctx, args, before, msg, reply, now, after, r));
}

/// `fd_write` of buffers within the memory reports how many bytes the buffers
/// hold, whatever the answer is.
pub proof fn law_fd_write(
    ctx: WasiCtx,
    before: MemoryModel,
    after: MemoryModel,
    r: Outcome,
    fd: i32,
    iov: i32,
    n: i32,
    out: i32,
    bufs: Seq<(u32, u32)>,
)
    requires
        before.data.len() <= usize::MAX,
        listed(before, iov, bufs),
        bufs.len() == unsigned(n),
        forall|i: int| 0 <= i < bufs.len() ==> wasi::buffer_inside(before, #[trigger] bufs[i]),
        wasi::buffers_joined(before, bufs).len() <= u32::MAX,
        wasi::behaves(WasiFn::FdWrite, ctx, buffer_args(fd, iov, n, out), before, after, r),
    ensures
        reports(
            (after, r),
            before,
            out,
            4,
            wasi::buffers_joined(before, bufs).len() as int,
            0,
        ),
{
    let args = buffer_args(fd, iov, n, out);
    law_fd_write_asks(ctx.cell, before, fd, iov, n, out, bufs);
    law_call_is_answered(WasiFn::FdWrite, ctx, args, before, after, r);
    let msg = wasi::request(WasiFn::FdWrite, ctx.cell, args, before)->Ok_0->Some_0;
    let (reply, now) = choose|reply: Seq<u8>, now: u64|
        wasi::answered(WasiFn::FdWrite, ctx, args, before, msg, reply, now, after, r);
    law_fd_write_reports(
        types::views(ctx.args@),
        types::views(ctx.env@),
        before,
        fd,
        iov,
        n,
        out,
        msg.body.len(),
        reply,
        now,
    );
}

/// A call whose message cannot be made fails with that error and leaves the
/// memory alone.
pub proof fn law_call_fails(
    w: WasiFn,
    ctx: WasiCtx,
    args: Seq<Value>,
    before: MemoryModel,
    after: MemoryModel,
    r: Outcome,
)
    requires
        wasi::behaves(w, ctx, args, before, after, r),
        wasi::request(w, ctx.cell, args, before) is Err,
    ensures
        after == before,
        r == Err::<Seq<Value>, WasmError>(wasi::request(w, ctx.cell, args, before)->Err_0),
{
}

/// A descriptor that is not an `i32` counts as standard output for
/// `fd_write`, as standard input for `fd_read`, and as -1 for `fd_close`.
pub proof fn law_odd_descriptors(cell: CellId, args: Seq<Value>, m: MemoryModel)
    requires
        args.len() >= 1,
        !(args[0] is I32),
    ensures
        wasi::request(WasiFn::FdWrite, cell, args, m) matches Ok(Some(msg)) ==> msg.to == CellId(
            wasi::CELL_STDOUT,
        ),
        wasi::request(WasiFn::FdRead, cell, args, m) matches Ok(Some(msg)) ==> msg.to == CellId(
            wasi::CELL_STDIN,
        ),
        wasi::request(WasiFn::FdClose, cell, args, m) matches Ok(Some(msg)) && msg.to == CellId(
            wasi::CELL_FS,
        ) && spells(msg.body, 0xffff_ffff, 4),
{
    let fd: i32 = -1i32;
    semantics::lemma_words32(fd, 0);
    lemma_spells(0xffff_ffff, 4);
}

proof fn lemma_store_bytes_outside(m: MemoryModel, ptr: u32, b: Seq<u8>)
    requires
        b.len() > 0,
        ptr + b.len() > m.data.len(),
        ptr + b.len() <= 0x1_0000_0000,
    ensures
        wasi::store_bytes(m, ptr, b).1 is Err,
{
    wasi::lemma_store_bytes_size(m, ptr, b.drop_last());
    assert(ptr.wrapping_add((b.len() - 1) as u32) == ptr + b.len() - 1);
}

/// A buffer for random bytes that reaches over the end of the memory traps,
/// if there are enough bytes to reach it.
pub proof fn law_random_get_outside(
    argv: Seq<Seq<u8>>,
    env: Seq<Seq<u8>>,
    m: MemoryModel,
    buf: i32,
    len: i32,
    sent: nat,
    reply: Seq<u8>,
    now: u64,
    n: int,
)
    requires
        n == if reply.len() <= unsigned(len) {
            reply.len() as int
        } else {
            unsigned(len)
        },
        n > 0,
        unsigned(buf) + n > m.data.len(),
        unsigned(buf) + n <= 0xffff_ffff,
    ensures
        wasi::finish(
            WasiFn::RandomGet,
            argv,
            env,
            seq![Value::I32(buf), Value::I32(len)],
            m,
            sent,
            reply,
            now,
        ).1 is Err,
{
    semantics::lemma_words32(buf, 0);
    semantics::lemma_words32(len, 0);
    let b = if reply.len() <= unsigned(len) {
        reply
    } else {
        reply.subrange(0, unsigned(len))
    };
    lemma_store_bytes_outside(m, buf as u32, b);
}

/// `fd_write` of a buffer that reaches over the end of the memory fails.
pub proof fn law_fd_write_outside(
    cell: CellId,
    m: MemoryModel,
    fd: i32,
    iov: i32,
    n: i32,
    out: i32,
    bufs: Seq<(u32, u32)>,
)
    requires
        m.data.len() <= usize::MAX,
        listed(m, iov, bufs),
        bufs.len() == unsigned(n),
        bufs.len() > 0,
        bufs.last().1 > 0,
        bufs.last().0 + bufs.last().1 > m.data.len(),
        bufs.last().0 + bufs.last().1 <= 0x1_0000_0000,
    ensures
        wasi::request(WasiFn::FdWrite, cell, buffer_args(fd, iov, n, out), m) is Err,
{
    semantics::lemma_words32(n, 0);
    lemma_listed(m, iov, bufs);
    assert(wasi::buffer_listed(m, iov as u32, bufs.len() - 1, bufs[bufs.len() - 1]));
    lemma_load_bytes_outside(m, bufs.last().0, bufs.last().1 as nat);
}

} // verus!
