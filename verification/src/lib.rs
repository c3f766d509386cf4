//! A WebAssembly runtime for a system of seven cells that talk to each other
//! and to the kernel by mail, and the boot and rescue logic of that system.
//!
//! - [`types`], [`decode`], [`instr`]: values, modules, the binary format;
//! - [`memory`], [`instance`], [`frame`], [`executor`]: memories, instances,
//!   and the machine that runs them;
//! - [`host`], [`wasi`], [`runner`]: functions of the embedder, the system
//!   interface, and the cells;
//! - [`semantics`], [`flow`], [`storage`], [`encode`], [`layout`], [`loading`],
//!   [`syscalls`]: what instructions, calls, memory, the binary format,
//!   instances and the system interface come to, stated as laws;
//! - [`scrapboot`], [`scrappy_os`]: booting, snapshots, crash reports and the
//!   watchdog.
//!
//! Floating-point instructions are not computed here: an invocation hands
//! them out with their operands and goes on with the result.
pub mod access;
pub mod bytes;
pub mod decode;
pub mod encode;
pub mod executor;
pub mod flow;
pub mod frame;
pub mod host;
pub mod instance;
pub mod instr;
pub mod invariants;
pub mod layout;
pub mod leb;
pub mod loading;
pub mod memory;
pub mod numeric;
pub mod reader;
pub mod runner;
pub mod scan;
pub mod scrapboot;
pub mod scrappy_os;
pub mod semantics;
pub mod storage;
pub mod syscalls;
pub mod text;
pub mod types;
pub mod wasi;

pub use decode::parse as parse_wasm;
pub use instance::ModuleInstance;
pub use runner::{CellStatus, HostImport, ScrappyWasmRunner};
pub use types::{
    CellId, EmailMessage, FuncType, GlobalType, MemType, TrapCode, ValType, Value, WasiErrno,
    WasmError,
};
pub use wasi::{
    Mailbox, WasiCtx, CELL_ENTROPY, CELL_FS, CELL_SCHEDULER, CELL_STDERR, CELL_STDIN, CELL_STDOUT,
    CELL_TIMER,
};
