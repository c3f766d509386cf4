use scrappy::host::HostFunc;
use scrappy::instance::FuncKind;
use scrappy::memory::Memory;
use scrappy::types::Limits;
use scrappy::wasi::{
    build_wasi_imports, call_wasi, every_fn, finish_call, make_request, name_of, type_of, WasiFn,
};
use scrappy::{
    CellId, EmailMessage, Mailbox, TrapCode, ValType, Value, WasiCtx, WasiErrno, WasmError,
    CELL_ENTROPY, CELL_FS, CELL_SCHEDULER, CELL_STDERR, CELL_STDIN, CELL_STDOUT, CELL_TIMER,
};
use std::sync::{Arc, Mutex};

struct Recorder {
    seen: Arc<Mutex<Vec<EmailMessage>>>,
    reply: Vec<u8>,
}

impl Mailbox for Recorder {
    fn send_recv(&self, msg: EmailMessage) -> Vec<u8> {
        match self.seen.lock() {
            Ok(mut v) => v.push(msg),
            Err(_) => panic!("poisoned"),
        }
        self.reply.clone()
    }

    fn bytes_ready(&self, from: CellId) -> usize {
        from.as_usize()
    }

    fn now_ns(&self) -> u64 {
        123_456
    }
}

type Seen = Arc<Mutex<Vec<EmailMessage>>>;

fn ctx(reply: &[u8]) -> (WasiCtx, Seen) {
    let seen = Arc::new(Mutex::new(Vec::new()));
    let mailbox = Recorder { seen: seen.clone(), reply: reply.to_vec() };
    let c = WasiCtx::new(
        CellId(1),
        vec![b"prog\0".to_vec(), b"-x\0".to_vec()],
        vec![b"K=V\0".to_vec()],
        Box::new(mailbox),
    );
    (c, seen)
}

fn last(seen: &Seen) -> EmailMessage {
    match seen.lock() {
        Ok(v) => v[v.len() - 1].clone(),
        Err(_) => panic!("poisoned"),
    }
}

fn memory() -> Memory {
    Memory::new(&Limits { min: 1, max: None })
}

fn put(m: &mut Memory, at: u32, v: u32) {
    assert_eq!(m.store_u32(at, v), Ok(()));
}

fn i(v: i32) -> Value {
    Value::I32(v)
}

fn ok() -> Result<Vec<Value>, WasmError> {
    Ok(vec![i(0)])
}

#[test]
fn error_numbers_have_codes() {
    assert_eq!(WasiErrno::Success.code(), 0);
    assert_eq!(WasiErrno::Badf.code(), 8);
    assert_eq!(WasiErrno::Inval.code(), 28);
    assert_eq!(WasiErrno::Nosys.code(), 52);
    assert_eq!(WasiErrno::Io.code(), 29);
    assert_eq!(CellId::new(6), Some(CellId(6)));
    assert_eq!(CellId::new(7), None);
}

#[test]
fn fd_write_sends_the_buffers() {
    let (c, seen) = ctx(&[]);
    let mut m = memory();
    put(&mut m, 0, 100);
    put(&mut m, 4, 2);
    put(&mut m, 8, 200);
    put(&mut m, 12, 3);
    m.data[100] = b'a';
    m.data[101] = b'b';
    m.data[200] = b'c';
    m.data[201] = b'd';
    m.data[202] = b'e';
    let r = call_wasi(WasiFn::FdWrite, &c, &[i(1), i(0), i(2), i(40)], &mut m);
    assert_eq!(r, ok());
    assert_eq!(m.load_u32(40), Ok(5));
    let msg = last(&seen);
    assert_eq!(msg.from, CellId(1));
    assert_eq!(msg.to, CellId(CELL_STDOUT));
    assert_eq!(msg.subject, "wasi::fd_write");
    assert_eq!(msg.body, b"abcde".to_vec());
    assert!(msg.reply.is_none());
    let _ = call_wasi(WasiFn::FdWrite, &c, &[i(2), i(0), i(0), i(40)], &mut m);
    assert_eq!(last(&seen).to, CellId(CELL_STDERR));
    let _ = call_wasi(WasiFn::FdWrite, &c, &[i(9), i(0), i(0), i(40)], &mut m);
    assert_eq!(last(&seen).to, CellId(CELL_FS));
}

#[test]
fn fd_write_fails_before_sending() {
    let (c, seen) = ctx(&[]);
    let mut m = memory();
    let r = call_wasi(WasiFn::FdWrite, &c, &[i(1), i(-4), i(1), i(40)], &mut m);
    assert_eq!(r, Err(WasmError::Trap(TrapCode::MemoryOutOfBounds)));
    match seen.lock() {
        Ok(v) => assert!(v.is_empty()),
        Err(_) => panic!("poisoned"),
    };
}

#[test]
fn fd_read_fills_the_buffers() {
    let (c, seen) = ctx(b"hello");
    let mut m = memory();
    put(&mut m, 0, 100);
    put(&mut m, 4, 2);
    put(&mut m, 8, 200);
    put(&mut m, 12, 30);
    let r = call_wasi(WasiFn::FdRead, &c, &[i(0), i(0), i(2), i(40)], &mut m);
    assert_eq!(r, ok());
    assert_eq!(m.data[100..103], [b'h', b'e', 0]);
    assert_eq!(m.data[200..204], [b'l', b'l', b'o', 0]);
    assert_eq!(m.load_u32(40), Ok(5));
    let msg = last(&seen);
    assert_eq!(msg.to, CellId(CELL_STDIN));
    assert_eq!(msg.body, 32usize.to_le_bytes().to_vec());
}

#[test]
fn fd_read_stops_at_a_bad_buffer() {
    let (c, _) = ctx(b"hello");
    let mut m = memory();
    put(&mut m, 0, 65534);
    put(&mut m, 4, 9);
    let r = call_wasi(WasiFn::FdRead, &c, &[i(0), i(0), i(1), i(40)], &mut m);
    assert_eq!(r, Err(WasmError::Trap(TrapCode::MemoryOutOfBounds)));
    assert_eq!(m.data[65534..65536], [b'h', b'e']);
    assert_eq!(m.load_u32(40), Ok(0));
}

#[test]
fn fd_close_tells_the_owner() {
    let (c, seen) = ctx(&[]);
    let mut m = memory();
    assert_eq!(call_wasi(WasiFn::FdClose, &c, &[i(5)], &mut m), ok());
    assert_eq!(last(&seen).to, CellId(CELL_FS));
    assert_eq!(last(&seen).body, vec![5, 0, 0, 0]);
    assert_eq!(call_wasi(WasiFn::FdClose, &c, &[Value::I64(0)], &mut m), ok());
    assert_eq!(last(&seen).body, vec![255, 255, 255, 255]);
}

fn path_args(ptr: i32, len: i32, out: i32) -> [Value; 9] {
    [i(3), i(0), i(ptr), i(len), i(0), Value::I64(0), Value::I64(0), i(0), i(out)]
}

#[test]
fn path_open_gives_the_descriptor() {
    let (c, seen) = ctx(&[2, 0, 0, 0, 9, 1, 0, 0]);
    let mut m = memory();
    m.data[50] = b'/';
    m.data[51] = b'x';
    let r = call_wasi(WasiFn::PathOpen, &c, &path_args(50, 2, 60), &mut m);
    assert_eq!(r, Ok(vec![i(2)]));
    assert_eq!(m.load_u32(60), Ok(265));
    assert_eq!(last(&seen).subject, "wasi::path_open");
    assert_eq!(last(&seen).body, b"/x".to_vec());
    let (c, _) = ctx(&[]);
    let r = call_wasi(WasiFn::PathOpen, &c, &path_args(50, 2, 60), &mut m);
    assert_eq!(r, Ok(vec![i(29)]));
    assert_eq!(m.load_u32(60), Ok(0));
    let r = call_wasi(WasiFn::PathOpen, &c, &path_args(65535, 2, 60), &mut m);
    assert_eq!(r, Err(WasmError::Trap(TrapCode::MemoryOutOfBounds)));
}

#[test]
fn proc_exit_ends_the_call() {
    let (c, seen) = ctx(b"whatever");
    let mut m = memory();
    let r = call_wasi(WasiFn::ProcExit, &c, &[i(3)], &mut m);
    assert_eq!(r, Err(WasmError::WasiError(WasiErrno::Success)));
    assert_eq!(last(&seen).to, CellId(CELL_SCHEDULER));
    assert_eq!(last(&seen).body, vec![3, 0, 0, 0]);
}

#[test]
fn arguments_and_environment() {
    let (c, _) = ctx(&[]);
    let mut m = memory();
    assert_eq!(call_wasi(WasiFn::ArgsSizesGet, &c, &[i(0), i(4)], &mut m), ok());
    assert_eq!(m.load_u32(0), Ok(2));
    assert_eq!(m.load_u32(4), Ok(8));
    assert_eq!(call_wasi(WasiFn::ArgsGet, &c, &[i(16), i(100)], &mut m), ok());
    assert_eq!(m.load_u32(16), Ok(100));
    assert_eq!(m.load_u32(20), Ok(105));
    assert_eq!(m.data[100..108], *b"prog\0-x\0");
    assert_eq!(call_wasi(WasiFn::EnvironSizesGet, &c, &[i(0), i(4)], &mut m), ok());
    assert_eq!(m.load_u32(0), Ok(1));
    assert_eq!(m.load_u32(4), Ok(4));
    assert_eq!(call_wasi(WasiFn::EnvironGet, &c, &[i(16), i(300)], &mut m), ok());
    assert_eq!(m.load_u32(16), Ok(300));
    assert_eq!(m.data[300..304], *b"K=V\0");
    let r = call_wasi(WasiFn::ArgsGet, &c, &[i(16), i(65530)], &mut m);
    assert_eq!(r, Err(WasmError::Trap(TrapCode::MemoryOutOfBounds)));
    assert_eq!(m.data[65530..65536], *b"prog\0-");
}

#[test]
fn the_clock_is_asked() {
    let (c, seen) = ctx(&[1, 2, 0, 0, 0, 0, 0, 0, 99]);
    let mut m = memory();
    let args = [i(0), Value::I64(1), i(8)];
    assert_eq!(call_wasi(WasiFn::ClockTimeGet, &c, &args, &mut m), ok());
    assert_eq!(m.load_u64(8), Ok(513));
    assert_eq!(last(&seen).to, CellId(CELL_TIMER));
    let (c, _) = ctx(&[1, 2]);
    assert_eq!(call_wasi(WasiFn::ClockTimeGet, &c, &args, &mut m), ok());
    assert_eq!(m.load_u64(8), Ok(123_456));
    assert_eq!(c.mailbox.bytes_ready(CellId(4)), 4);
}

#[test]
fn random_bytes_fill_at_most_the_buffer() {
    let (c, seen) = ctx(&[1, 2, 3, 4]);
    let mut m = memory();
    assert_eq!(call_wasi(WasiFn::RandomGet, &c, &[i(10), i(3)], &mut m), ok());
    assert_eq!(m.data[10..15], [1, 2, 3, 0, 0]);
    assert_eq!(last(&seen).to, CellId(CELL_ENTROPY));
    assert_eq!(last(&seen).body, vec![3, 0, 0, 0]);
    assert_eq!(call_wasi(WasiFn::RandomGet, &c, &[i(20), i(9)], &mut m), ok());
    assert_eq!(m.data[20..26], [1, 2, 3, 4, 0, 0]);
}

#[test]
fn poll_reports_no_events() {
    let (c, seen) = ctx(&[]);
    let mut m = memory();
    put(&mut m, 12, 77);
    assert_eq!(call_wasi(WasiFn::PollOneoff, &c, &[i(0), i(0), i(1), i(12)], &mut m), ok());
    assert_eq!(m.load_u32(12), Ok(0));
    match seen.lock() {
        Ok(v) => assert!(v.is_empty()),
        Err(_) => panic!("poisoned"),
    };
}

#[test]
fn fd_seek_sends_the_position() {
    let (c, seen) = ctx(&[0, 1, 0, 0, 0, 0, 0, 0]);
    let mut m = memory();
    let args = [i(7), Value::I64(-2), i(1), i(24)];
    assert_eq!(call_wasi(WasiFn::FdSeek, &c, &args, &mut m), ok());
    assert_eq!(m.load_u64(24), Ok(256));
    let mut body = vec![7, 0, 0, 0];
    body.extend_from_slice(&(-2i64).to_le_bytes());
    body.push(1);
    assert_eq!(last(&seen).body, body);
}

#[test]
fn requests_and_answers_can_be_separated() {
    let (c, _) = ctx(&[]);
    let mut m = memory();
    match make_request(WasiFn::RandomGet, CellId(2), &[i(0), i(300)], &m) {
        Ok(Some(msg)) => {
            assert_eq!(msg.from, CellId(2));
            assert_eq!(msg.body, vec![44, 1, 0, 0]);
        }
        _ => panic!("no message"),
    }
    assert!(matches!(make_request(WasiFn::ArgsGet, CellId(2), &[i(0), i(0)], &m), Ok(None)));
    let r = finish_call(WasiFn::RandomGet, &c, &[i(5), i(2)], &mut m, 4, &[8, 9, 10], 0);
    assert_eq!(r, ok());
    assert_eq!(m.data[5..8], [8, 9, 0]);
}

#[test]
fn all_functions_are_offered() {
    let (c, _) = ctx(&[]);
    let funcs = build_wasi_imports(c);
    assert_eq!(funcs.len(), 13);
    let fns = every_fn();
    for k in 0..funcs.len() {
        let (module, name, f) = &funcs[k];
        assert_eq!(*module, "wasi_snapshot_preview1");
        assert_eq!(*name, name_of(fns[k]));
        assert_eq!(f.ty, type_of(fns[k]));
        match &f.kind {
            FuncKind::Host { func: HostFunc::Wasi { which, .. } } => assert_eq!(*which, fns[k]),
            _ => panic!("another kind"),
        }
    }
    assert_eq!(funcs[3].1, "path_open");
    assert_eq!(funcs[3].2.ty.params.len(), 9);
    assert_eq!(funcs[4].2.ty.results, Vec::<ValType>::new());
    assert_eq!(funcs[12].1, "fd_seek");
}

#[test]
fn stubs_answer_not_supported() {
    let mut m = memory();
    let f = HostFunc::Stub(2);
    assert_eq!(f.call(&[], &mut m), Ok(vec![i(52), i(52)]));
    let (c, _) = ctx(&[]);
    let w = HostFunc::Wasi { which: WasiFn::FdClose, ctx: Arc::new(c) };
    assert!(!w.takes(&[]));
    assert!(w.takes(&[i(1)]));
    assert_eq!(w.call(&[i(1)], &mut m), ok());
}
