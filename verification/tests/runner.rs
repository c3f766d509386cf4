use scrappy::executor::Signal;
use scrappy::host::{HostFunc, HostFunction};
use scrappy::instance::{Func, FuncKind};
use scrappy::memory::Memory;
use scrappy::runner::{delivery_answer, HostBuilder, Progress};
use scrappy::{
    CellId, CellStatus, EmailMessage, FuncType, HostImport, Mailbox, ScrappyWasmRunner, TrapCode,
    ValType, Value, WasiCtx, WasmError,
};

fn leb(v: u32) -> Vec<u8> {
    let mut v = v;
    let mut out = Vec::new();
    loop {
        let b = (v & 0x7F) as u8;
        v >>= 7;
        if v == 0 {
            out.push(b);
            return out;
        }
        out.push(b | 0x80);
    }
}

fn section(id: u8, body: &[u8]) -> Vec<u8> {
    let mut out = vec![id];
    out.extend(leb(body.len() as u32));
    out.extend_from_slice(body);
    out
}

fn name(s: &str) -> Vec<u8> {
    let mut out = leb(s.len() as u32);
    out.extend_from_slice(s.as_bytes());
    out
}

fn header() -> Vec<u8> {
    vec![0x00, 0x61, 0x73, 0x6D, 0x01, 0x00, 0x00, 0x00]
}

/// Exports `_start` (does nothing), `scrappy_recv` (gives the sum of its
/// arguments), `bad` (traps) and the global `g` (7).
fn program() -> Vec<u8> {
    let mut out = header();
    out.extend(section(1, &[2, 0x60, 0, 0, 0x60, 2, 0x7F, 0x7F, 1, 0x7F]));
    out.extend(section(3, &[3, 0, 1, 0]));
    out.extend(section(5, &[1, 0x00, 1]));
    out.extend(section(6, &[1, 0x7F, 0x00, 0x41, 7, 0x0B]));
    let mut exports = vec![4];
    exports.extend(name("_start"));
    exports.extend([0x00, 0]);
    exports.extend(name("scrappy_recv"));
    exports.extend([0x00, 1]);
    exports.extend(name("bad"));
    exports.extend([0x00, 2]);
    exports.extend(name("g"));
    exports.extend([0x03, 0]);
    out.extend(section(7, &exports));
    out.extend(section(
        10,
        &[3, 2, 0, 0x0B, 7, 0, 0x20, 0, 0x20, 1, 0x6A, 0x0B, 2, 0, 0x00],
    ));
    out
}

fn ended(
    r: &mut ScrappyWasmRunner,
    cell: CellId,
    s: Result<Signal, WasmError>,
) -> Result<Vec<Value>, WasmError> {
    let mut s = s?;
    loop {
        match r.proceed(cell, s, 50) {
            Progress::Finished(x) => return x,
            Progress::Paused(Signal::Ready(e)) => s = Signal::Ready(e),
            Progress::Paused(_) => panic!("waits"),
        }
    }
}

fn loaded(cell: CellId) -> ScrappyWasmRunner {
    let mut r = ScrappyWasmRunner::new();
    assert!(matches!(r.load(&program(), cell, None, vec![]), Ok(None)));
    r
}

#[test]
fn a_new_runner_is_empty() {
    let r = ScrappyWasmRunner::new();
    for c in 0..7u8 {
        assert!(r.is_cell_free(CellId(c)));
        assert_eq!(r.cell_status(CellId(c)), None);
    }
    assert_eq!(r.first_free_cell(), Some(CellId(0)));
    assert_eq!(ScrappyWasmRunner::NUM_CELLS, 7);
}

#[test]
fn a_module_is_loaded_once() {
    let cell = CellId(2);
    let mut r = loaded(cell);
    assert_eq!(r.cell_status(cell), Some(CellStatus::Idle));
    assert!(matches!(
        r.load(&program(), cell, None, vec![]),
        Err(WasmError::CellOutOfRange(2))
    ));
    assert!(matches!(r.load(b"nonsense", CellId(3), None, vec![]), Err(WasmError::InvalidMagic)));
    assert!(r.is_cell_free(CellId(3)));
    assert_eq!(r.unload(cell), Ok(()));
    assert!(r.is_cell_free(cell));
    assert_eq!(r.unload(cell), Err(WasmError::CellOutOfRange(2)));
}

#[test]
fn the_first_free_cell_is_found() {
    let mut r = ScrappyWasmRunner::new();
    for c in 0..7u8 {
        assert_eq!(r.first_free_cell(), Some(CellId(c)));
        assert!(matches!(r.load(&program(), CellId(c), None, vec![]), Ok(None)));
    }
    assert_eq!(r.first_free_cell(), None);
    assert_eq!(r.unload(CellId(4)), Ok(()));
    assert_eq!(r.first_free_cell(), Some(CellId(4)));
}

#[test]
fn calls_change_the_status() {
    let cell = CellId(0);
    let mut r = loaded(cell);
    let s = r.start(cell);
    assert_eq!(r.cell_status(cell), Some(CellStatus::Running));
    assert_eq!(ended(&mut r, cell, s), Ok(vec![]));
    assert_eq!(r.cell_status(cell), Some(CellStatus::Idle));
    let s = r.call(cell, "bad", &[]);
    assert_eq!(ended(&mut r, cell, s), Err(WasmError::Trap(TrapCode::Unreachable)));
    assert_eq!(r.cell_status(cell), Some(CellStatus::Faulted));
    let s = r.call(cell, "missing", &[]);
    assert_eq!(ended(&mut r, cell, s), Err(WasmError::ExportNotFound));
    assert_eq!(r.cell_status(cell), Some(CellStatus::Faulted));
    assert!(matches!(r.start(CellId(5)), Err(WasmError::CellOutOfRange(5))));
}

#[test]
fn memory_is_read_and_written() {
    let cell = CellId(1);
    let mut r = loaded(cell);
    assert_eq!(r.write_mem(cell, 500, b"abc"), Ok(()));
    assert_eq!(r.read_mem(cell, 500, 3), Ok(b"abc".to_vec()));
    assert_eq!(r.read_mem(cell, 499, 5), Ok(b"\0abc\0".to_vec()));
    assert_eq!(r.write_mem(cell, 65534, b"abc"), Err(WasmError::MemoryOutOfBounds));
    assert_eq!(r.read_mem(cell, 65534, 2), Ok(vec![0, 0]));
    assert_eq!(r.read_mem(cell, 65534, 3), Err(WasmError::MemoryOutOfBounds));
    assert_eq!(r.read_mem(cell, 1, usize::MAX), Err(WasmError::MemoryOutOfBounds));
    assert_eq!(r.read_mem(CellId(2), 0, 1), Err(WasmError::CellOutOfRange(2)));
    assert_eq!(r.write_mem(CellId(2), 0, b"x"), Err(WasmError::CellOutOfRange(2)));
    let mut r = ScrappyWasmRunner::new();
    assert!(matches!(r.load(&header(), cell, None, vec![]), Ok(None)));
    assert_eq!(r.read_mem(cell, 0, 0), Err(WasmError::MemoryOutOfBounds));
}

#[test]
fn globals_are_read() {
    let cell = CellId(1);
    let r = loaded(cell);
    assert!(r.has_global(cell, "g"));
    assert_eq!(r.get_global(cell, "g"), Ok(Value::I32(7)));
    assert_eq!(r.get_global(cell, "bad"), Err(WasmError::ExportNotFound));
    assert_eq!(r.get_global(CellId(0), "g"), Err(WasmError::CellOutOfRange(0)));
    let mut bytes = header();
    bytes.extend(section(7, &[1, 1, b'x', 0x03, 9]));
    let mut r = ScrappyWasmRunner::new();
    assert!(matches!(r.load(&bytes, cell, None, vec![]), Ok(None)));
    assert!(!r.has_global(cell, "x"));
}

#[test]
fn mail_is_delivered() {
    let cell = CellId(6);
    let mut r = loaded(cell);
    let s = match r.deliver_email(cell, CellId(3), b"hello") {
        Ok(Some(s)) => Ok(s),
        Ok(None) => panic!("nothing is called"),
        Err(e) => Err(e),
    };
    assert_eq!(r.cell_status(cell), Some(CellStatus::Running));
    assert_eq!(r.read_mem(cell, 0x1000, 5), Ok(b"hello".to_vec()));
    match ended(&mut r, cell, s) {
        Ok(v) => assert_eq!(delivery_answer(&v), 8),
        Err(e) => panic!("{:?}", e),
    }
    assert_eq!(delivery_answer(&vec![]), 0);
    assert_eq!(delivery_answer(&vec![Value::I64(5)]), 0);
    assert!(matches!(
        r.deliver_email(CellId(0), CellId(3), b"x"),
        Err(WasmError::CellOutOfRange(0))
    ));
    assert!(matches!(
        r.deliver_email(cell, CellId(3), &[0; 0xF001]),
        Err(WasmError::MemoryOutOfBounds)
    ));
}

#[test]
fn mail_to_a_cell_that_takes_none_is_only_written() {
    let cell = CellId(2);
    let mut bytes = header();
    bytes.extend(section(5, &[1, 0x00, 1]));
    let mut r = ScrappyWasmRunner::new();
    assert!(matches!(r.load(&bytes, cell, None, vec![]), Ok(None)));
    assert!(matches!(r.deliver_email(cell, CellId(3), b"hello"), Ok(None)));
    assert_eq!(r.read_mem(cell, 0x1000, 5), Ok(b"hello".to_vec()));
    assert_eq!(r.cell_status(cell), Some(CellStatus::Idle));
}

#[test]
fn a_cell_that_was_taken_meanwhile_is_kept() {
    let cell = CellId(5);
    let mut r = ScrappyWasmRunner::new();
    let pending = match r.load(&starter(&[0x0B]), cell, None, vec![]) {
        Ok(Some(p)) => p,
        _ => panic!("not pending"),
    };
    assert!(matches!(r.load(&program(), cell, None, vec![]), Ok(None)));
    assert!(matches!(r.resume_load(pending, 50), Err(WasmError::CellOutOfRange(5))));
    assert_eq!(r.get_global(cell, "g"), Ok(Value::I32(7)));
}

struct Silent;

impl Mailbox for Silent {
    fn send_recv(&self, _msg: EmailMessage) -> Vec<u8> {
        Vec::new()
    }

    fn bytes_ready(&self, _from: CellId) -> usize {
        0
    }

    fn now_ns(&self) -> u64 {
        0
    }
}

/// Imports `proc_exit` twice, `env.triple` and `env.nothing`; exports each of
/// them through a function of its own.
fn importer() -> Vec<u8> {
    let mut out = header();
    out.extend(section(1, &[2, 0x60, 1, 0x7F, 0, 0x60, 1, 0x7F, 1, 0x7F]));
    let mut imports = vec![4];
    for _ in 0..2 {
        imports.extend(name("wasi_snapshot_preview1"));
        imports.extend(name("proc_exit"));
        imports.extend([0x00, 0]);
    }
    imports.extend(name("env"));
    imports.extend(name("triple"));
    imports.extend([0x00, 1]);
    imports.extend(name("env"));
    imports.extend(name("nothing"));
    imports.extend([0x00, 1]);
    out.extend(section(2, &imports));
    out.extend(section(3, &[4, 0, 0, 1, 1]));
    let mut exports = vec![4];
    for (k, n) in ["exit", "exit2", "triple", "nothing"].iter().enumerate() {
        exports.extend(name(n));
        exports.extend([0x00, 4 + k as u8]);
    }
    out.extend(section(7, &exports));
    let mut codes = vec![4];
    for k in 0..4u8 {
        codes.extend([6, 0, 0x20, 0, 0x10, k, 0x0B]);
    }
    out.extend(section(10, &codes));
    out
}

struct Triple;

impl HostFunction for Triple {
    fn call(&self, args: &[Value], _mem: &mut Memory) -> Result<Vec<Value>, WasmError> {
        match args[0] {
            Value::I32(v) => Ok(vec![Value::I32(3 * v)]),
            _ => Err(WasmError::TypeMismatch),
        }
    }
}

struct Stubs;

impl HostBuilder for Stubs {
    fn build(&self, ty: FuncType) -> Func {
        let n = ty.results.len() + 1;
        Func { ty, kind: FuncKind::Host { func: HostFunc::Stub(n) } }
    }
}

fn triple() -> HostImport {
    HostImport::simple(
        "env",
        "triple",
        vec![ValType::I32],
        vec![ValType::I32],
        Box::new(Triple),
    )
}

#[test]
fn imports_are_resolved() {
    let cell = CellId(0);
    let ctx = WasiCtx::new(cell, vec![], vec![], Box::new(Silent));
    let mut r = ScrappyWasmRunner::new();
    assert!(matches!(r.load(&importer(), cell, Some(ctx), vec![triple()]), Ok(None)));
    let s = r.call(cell, "triple", &[Value::I32(5)]);
    assert_eq!(ended(&mut r, cell, s), Ok(vec![Value::I32(15)]));
    let s = r.call(cell, "nothing", &[Value::I32(5)]);
    assert_eq!(ended(&mut r, cell, s), Ok(vec![Value::I32(52)]));
    let s = r.call(cell, "exit2", &[Value::I32(5)]);
    assert_eq!(ended(&mut r, cell, s), Ok(vec![]));
    assert_eq!(r.cell_status(cell), Some(CellStatus::Idle));
    let s = r.call(cell, "exit", &[Value::I32(5)]);
    assert_eq!(ended(&mut r, cell, s), Ok(vec![]));
    assert_eq!(r.cell_status(cell), Some(CellStatus::Exited(0)));
}

#[test]
fn builders_see_the_signature() {
    let import = HostImport::new("env", "triple", Box::new(Stubs));
    assert_eq!(import.module, "env");
    assert_eq!(import.name, "triple");
    let f = import.build_func(FuncType { params: vec![], results: vec![ValType::I64] });
    assert!(matches!(f.kind, FuncKind::Host { func: HostFunc::Stub(2) }));
    let g = triple().build_func(FuncType { params: vec![], results: vec![] });
    assert_eq!(g.ty.params, vec![ValType::I32]);
    let cell = CellId(0);
    let mut r = ScrappyWasmRunner::new();
    assert!(matches!(r.load(&importer(), cell, None, vec![import]), Ok(None)));
    let s = r.call(cell, "triple", &[Value::I32(5)]);
    assert_eq!(ended(&mut r, cell, s), Ok(vec![Value::I32(52)]));
}

#[test]
fn an_import_needs_its_type() {
    let mut bytes = header();
    let mut imports = vec![1];
    imports.extend(name("env"));
    imports.extend(name("f"));
    imports.extend([0x00, 3]);
    bytes.extend(section(2, &imports));
    let mut r = ScrappyWasmRunner::new();
    assert!(matches!(r.load(&bytes, CellId(0), None, vec![]), Err(WasmError::InvalidType)));
}

fn starter(code: &[u8]) -> Vec<u8> {
    let mut out = header();
    out.extend(section(1, &[1, 0x60, 0, 0]));
    out.extend(section(3, &[1, 0]));
    out.extend(section(5, &[1, 0x00, 1]));
    out.extend(section(8, &[0]));
    let mut codes = vec![1, 1 + code.len() as u8, 0];
    codes.extend_from_slice(code);
    out.extend(section(10, &codes));
    out
}

#[test]
fn a_start_function_delays_the_load() {
    let cell = CellId(3);
    let mut r = ScrappyWasmRunner::new();
    let code = [0x41, 8, 0x41, 42, 0x3A, 0, 0, 0x0B];
    let pending = match r.load(&starter(&code), cell, None, vec![]) {
        Ok(Some(p)) => p,
        _ => panic!("not pending"),
    };
    assert!(r.is_cell_free(cell));
    let pending = match r.resume_load(pending, 2) {
        Ok(Some(p)) => p,
        _ => panic!("not pending"),
    };
    assert!(matches!(r.resume_load(pending, 50), Ok(None)));
    assert_eq!(r.cell_status(cell), Some(CellStatus::Idle));
    assert_eq!(r.read_mem(cell, 8, 1), Ok(vec![42]));
    let other = CellId(4);
    let pending = match r.load(&starter(&[0x00]), other, None, vec![]) {
        Ok(Some(p)) => p,
        _ => panic!("not pending"),
    };
    assert!(matches!(
        r.resume_load(pending, 50),
        Err(WasmError::Trap(TrapCode::Unreachable))
    ));
    assert!(r.is_cell_free(other));
}
