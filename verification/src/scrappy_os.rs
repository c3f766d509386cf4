//! The small operating system: cells, kernel mail, snapshots, and a watchdog
//! that brings silent cells back.
use vstd::prelude::*;
use vstd::string::StringExecFns;

use crate::text;
use crate::types;

verus! {

/// The address of a cell.
#[derive(Debug, Clone, Copy, PartialEq, Eq, Structural)]
pub struct CellId(pub u8);

impl CellId {
    /// The address of the emergency core.
    pub const EMERGENCY: u8 = 6;

    /// The address of the main shell.
    pub const MAIN: u8 = 0;
}

/// What a cell is doing.
#[derive(Debug, Clone, Copy, PartialEq, Eq, Structural)]
pub enum CellStatus {
    Uninitialized,
    Loading,
    Running,
    Crashed,
    Stopped,
    Restoring,
}

/// Why a cell failed.
#[derive(Debug, Clone)]
pub enum WasmError {
    LoadError(String),
    RuntimeError(String),
    Timeout,
    MemoryError,
}

/// Mathematical model of a [`WasmError`].
#[verifier::ext_equal]
pub enum ErrorModel {
    LoadError(Seq<char>),
    RuntimeError(Seq<char>),
    Timeout,
    MemoryError,
}

impl View for WasmError {
    type V = ErrorModel;

    open spec fn view(&self) -> ErrorModel {
        match *self {
            WasmError::LoadError(s) => ErrorModel::LoadError(s@),
            WasmError::RuntimeError(s) => ErrorModel::RuntimeError(s@),
            WasmError::Timeout => ErrorModel::Timeout,
            WasmError::MemoryError => ErrorModel::MemoryError,
        }
    }
}

/// Success, or the model of an error.
pub type Verdict = Result<(), ErrorModel>;

/// The view of a result.
pub open spec fn verdict(r: Result<(), WasmError>) -> Verdict {
    match r {
        Ok(_) => Ok(()),
        Err(e) => Err(e@),
    }
}

/// How an error is shown.
pub open spec fn error_text(e: ErrorModel) -> Seq<char> {
    match e {
        ErrorModel::LoadError(s) => "LoadError: "@ + s,
        ErrorModel::RuntimeError(s) => "RuntimeError: "@ + s,
        ErrorModel::Timeout => "Timeout"@,
        ErrorModel::MemoryError => "MemoryError"@,
    }
}

impl WasmError {
    /// How the error is shown.
    pub fn text(&self) -> (r: String)
        ensures
            r@ == error_text(self@),
    {
        match self {
            WasmError::LoadError(s) => "LoadError: ".to_string().concat(s.as_str()),
            WasmError::RuntimeError(s) => "RuntimeError: ".to_string().concat(s.as_str()),
            WasmError::Timeout => "Timeout".to_string(),
            WasmError::MemoryError => "MemoryError".to_string(),
        }
    }
}

/// A message between cells.
#[derive(Debug, Clone)]
pub struct EmailMessage {
    pub from: CellId,
    pub to: CellId,
    pub subject: String,
    pub body: String,
}

/// Mathematical model of an [`EmailMessage`].
#[verifier::ext_equal]
pub struct MailModel {
    pub from: CellId,
    pub to: CellId,
    pub subject: Seq<char>,
    pub body: Seq<char>,
}

impl View for EmailMessage {
    type V = MailModel;

    open spec fn view(&self) -> MailModel {
        MailModel { from: self.from, to: self.to, subject: self.subject@, body: self.body@ }
    }
}

impl EmailMessage {
    /// A message from `from` to `to`.
    pub fn new(from: CellId, to: CellId, subject: &str, body: &str) -> (r: Self)
        ensures
            r@ == (MailModel { from, to, subject: subject@, body: body@ }),
    {
        EmailMessage { from, to, subject: subject.to_string(), body: body.to_string() }
    }
}

/// A module in a cell.
pub struct ModuleInstance {
    pub memory: Vec<u8>,
    pub globals: Vec<i64>,
    pub status: CellStatus,
}

/// Mathematical model of a [`ModuleInstance`].
#[verifier::ext_equal]
pub struct CellModel {
    pub memory: Seq<u8>,
    pub globals: Seq<i64>,
    pub status: CellStatus,
}

impl View for ModuleInstance {
    type V = CellModel;

    open spec fn view(&self) -> CellModel {
        CellModel { memory: self.memory@, globals: self.globals@, status: self.status }
    }
}

/// A cell of 1024 zero bytes and 16 zero globals.
pub open spec fn fresh_cell() -> CellModel {
    CellModel {
        memory: Seq::new(1024, |i: int| 0u8),
        globals: Seq::new(16, |i: int| 0i64),
        status: CellStatus::Uninitialized,
    }
}

impl ModuleInstance {
    /// A cell of zeros.
    pub fn new() -> (r: Self)
        ensures
            r@ == fresh_cell(),
    {
        let r = ModuleInstance {
            memory: vec![0u8; 1024],
            globals: vec![0i64; 16],
            status: CellStatus::Uninitialized,
        };
        assert(r@ =~= fresh_cell());
        r
    }
}

// ---- Cells ----

/// The cells, each empty or loaded.
pub type Cells = Seq<Option<CellModel>>;

/// A cell with a binary at the start of its memory, as far as it fits.
pub open spec fn loading_cell(bytes: Seq<u8>) -> CellModel {
    CellModel {
        memory: Seq::new(
            1024,
            |i: int|
                if i < bytes.len() {
                    bytes[i]
                } else {
                    0u8
                },
        ),
        status: CellStatus::Loading,
        ..fresh_cell()
    }
}

/// The cells after loading a binary, which must not be empty.
pub open spec fn cell_loaded(cells: Cells, bytes: Seq<u8>, id: CellId) -> (Cells, Verdict) {
    if bytes.len() == 0 {
        (cells, Err(ErrorModel::LoadError("Empty WASM"@)))
    } else {
        (cells.update(id.0 as int, Some(loading_cell(bytes))), Ok(()))
    }
}

/// The cells with the status of a loaded one changed.
pub open spec fn with_status(cells: Cells, id: CellId, status: CellStatus) -> Cells {
    match cells[id.0 as int] {
        None => cells,
        Some(c) => cells.update(id.0 as int, Some(CellModel { status, ..c })),
    }
}

/// The cells after starting one, which must be loaded.
pub open spec fn cell_started(cells: Cells, id: CellId) -> (Cells, Verdict) {
    if cells[id.0 as int] is Some {
        (with_status(cells, id, CellStatus::Running), Ok(()))
    } else {
        (cells, Err(ErrorModel::RuntimeError("Cell not loaded"@)))
    }
}

/// The status of a cell; an empty one is uninitialized.
pub open spec fn status_of(cells: Cells, id: CellId) -> CellStatus {
    match cells[id.0 as int] {
        Some(c) => c.status,
        None => CellStatus::Uninitialized,
    }
}

/// The outcome of running a cell for a while: it must be running.
pub open spec fn quantum_outcome(cells: Cells, id: CellId) -> Verdict {
    match cells[id.0 as int] {
        None => Err(ErrorModel::RuntimeError("Cell not found"@)),
        Some(c) => if c.status == CellStatus::Running {
            Ok(())
        } else {
            Err(ErrorModel::RuntimeError("Cell not running"@))
        },
    }
}

/// The seven cells, and the kernel's mail.
pub struct ScrappyWasmRunner {
    cells: [Option<ModuleInstance>; 7],
    pub mailbox: KernelMailbox,
}

/// The view of a cell.
pub open spec fn cell_view(c: Option<ModuleInstance>) -> Option<CellModel> {
    match c {
        None => None,
        Some(i) => Some(i@),
    }
}

impl View for ScrappyWasmRunner {
    type V = Cells;

    closed spec fn view(&self) -> Cells {
        Seq::new(7, |i: int| cell_view(self.cells[i]))
    }
}

impl ScrappyWasmRunner {
    /// The messages in the runner's own mailbox.
    pub closed spec fn mail(&self) -> Seq<MailModel> {
        self.mailbox@
    }

    /// There are always seven cells.
    pub proof fn law_seven_cells(&self)
        ensures
            self@.len() == 7,
    {
    }

    /// A runner with all cells empty and no mail.
    pub fn new() -> (r: Self)
        ensures
            r@ == Seq::new(7, |i: int| None::<CellModel>),
            r.mail() == Seq::<MailModel>::empty(),
    {
        let r = ScrappyWasmRunner {
            cells: [None, None, None, None, None, None, None],
            mailbox: KernelMailbox::new(),
        };
        assert(r@ =~= Seq::new(7, |i: int| None::<CellModel>));
        r
    }

    /// Loads a binary into a cell, replacing what is there.
    pub fn load(&mut self, wasm_bytes: &[u8], cell_id: CellId, _wasi_ctx: ()) -> (r: Result<
        (),
        WasmError,
    >)
        requires
            cell_id.0 <= 6,
        ensures
            (final(self)@, verdict(r)) == cell_loaded(old(self)@, wasm_bytes@, cell_id),
            final(self).mail() == old(self).mail(),
    {
        if wasm_bytes.len() == 0 {
            return Err(WasmError::LoadError("Empty WASM".to_string()));
        }
        let mut instance = ModuleInstance::new();
        let mut i: usize = 0;
        while i < wasm_bytes.len() && i < instance.memory.len()
            invariant
                i <= wasm_bytes.len(),
                instance.memory.len() == 1024,
                instance.globals@ == fresh_cell().globals,
                forall|j: int|
                    0 <= j < 1024 ==> #[trigger] instance.memory@[j] == (if j < i {
                        wasm_bytes@[j]
                    } else {
                        0u8
                    }),
            decreases wasm_bytes.len() - i,
        {
            instance.memory.set(i, wasm_bytes[i]);
            i = i + 1;
        }
        instance.status = CellStatus::Loading;
        assert(instance@ =~= loading_cell(wasm_bytes@));
        self.cells[cell_id.0 as usize] = Some(instance);
        assert(self@ =~= cell_loaded(old(self)@, wasm_bytes@, cell_id).0);
        Ok(())
    }

    /// Starts a loaded cell.
    pub fn start(&mut self, cell_id: CellId) -> (r: Result<(), WasmError>)
        requires
            cell_id.0 <= 6,
        ensures
            (final(self)@, verdict(r)) == cell_started(old(self)@, cell_id),
            final(self).mail() == old(self).mail(),
    {
        if let Some(cell) = &mut self.cells[cell_id.0 as usize] {
            cell.status = CellStatus::Running;
            assert(self@ =~= cell_started(old(self)@, cell_id).0);
            Ok(())
        } else {
            Err(WasmError::RuntimeError("Cell not loaded".to_string()))
        }
    }

    /// The status of a cell.
    pub fn get_status(&self, cell_id: CellId) -> (r: CellStatus)
        requires
            cell_id.0 <= 6,
        ensures
            r == status_of(self@, cell_id),
    {
        match &self.cells[cell_id.0 as usize] {
            Some(c) => c.status,
            None => CellStatus::Uninitialized,
        }
    }

    /// Runs a cell for a number of instructions.
    pub fn execute_quantum(&mut self, cell_id: CellId, _instructions: u64) -> (r: Result<
        (),
        WasmError,
    >)
        requires
            cell_id.0 <= 6,
        ensures
            *final(self) == *old(self),
            verdict(r) == quantum_outcome(old(self)@, cell_id),
    {
        match &self.cells[cell_id.0 as usize] {
            Some(cell) => {
                if cell.status != CellStatus::Running {
                    return Err(WasmError::RuntimeError("Cell not running".to_string()));
                }
                Ok(())
            },
            None => Err(WasmError::RuntimeError("Cell not found".to_string())),
        }
    }

    /// Stops a cell, if it is loaded.
    pub fn stop_cell(&mut self, cell_id: CellId)
        requires
            cell_id.0 <= 6,
        ensures
            final(self)@ == with_status(old(self)@, cell_id, CellStatus::Stopped),
            final(self).mail() == old(self).mail(),
    {
        if let Some(cell) = &mut self.cells[cell_id.0 as usize] {
            cell.status = CellStatus::Stopped;
        }
        assert(self@ =~= with_status(old(self)@, cell_id, CellStatus::Stopped));
    }

    /// The module in a cell, to be changed in place.
    pub fn get_instance(&mut self, cell_id: CellId) -> (r: Option<&mut ModuleInstance>)
        requires
            cell_id.0 <= 6,
        ensures
            match r {
                None => {
                    &&& old(self)@[cell_id.0 as int] is None
                    &&& final(self)@ == old(self)@
                    &&& final(self).mail() == old(self).mail()
                },
                Some(i) => {
                    &&& old(self)@[cell_id.0 as int] == Some(i@)
                    &&& final(self)@ == old(self)@.update(cell_id.0 as int, Some(final(i)@))
                    &&& final(self).mail() == old(self).mail()
                },
            },
    {
        self.cells[cell_id.0 as usize].as_mut()
    }

    /// Puts a module in a cell, replacing what is there.
    pub fn set_instance(&mut self, cell_id: CellId, instance: ModuleInstance)
        requires
            cell_id.0 <= 6,
        ensures
            final(self)@ == old(self)@.update(cell_id.0 as int, Some(instance@)),
            final(self).mail() == old(self).mail(),
    {
        self.cells[cell_id.0 as usize] = Some(instance);
        assert(self@ =~= old(self)@.update(cell_id.0 as int, Some(instance@)));
    }
}

impl Default for ScrappyWasmRunner {
    fn default() -> (r: Self)
        ensures
            r@ == Seq::new(7, |i: int| None::<CellModel>),
            r.mail() == Seq::<MailModel>::empty(),
    {
        ScrappyWasmRunner::new()
    }
}

// ---- Mail ----

/// The messages to a cell, in order.
pub open spec fn addressed_to(mail: Seq<MailModel>, id: CellId) -> Seq<MailModel>
    decreases mail.len(),
{
    if mail.len() == 0 {
        seq![]
    } else if mail.last().to == id {
        addressed_to(mail.drop_last(), id).push(mail.last())
    } else {
        addressed_to(mail.drop_last(), id)
    }
}

/// The messages to all other cells, in order.
pub open spec fn not_addressed_to(mail: Seq<MailModel>, id: CellId) -> Seq<MailModel>
    decreases mail.len(),
{
    if mail.len() == 0 {
        seq![]
    } else if mail.last().to == id {
        not_addressed_to(mail.drop_last(), id)
    } else {
        not_addressed_to(mail.drop_last(), id).push(mail.last())
    }
}

/// The messages that the kernel has not delivered yet.
pub struct KernelMailbox {
    messages: Vec<EmailMessage>,
}

impl View for KernelMailbox {
    type V = Seq<MailModel>;

    closed spec fn view(&self) -> Seq<MailModel> {
        types::views(self.messages@)
    }
}

impl KernelMailbox {
    /// A mailbox without messages.
    pub fn new() -> (r: Self)
        ensures
            r@ == Seq::<MailModel>::empty(),
    {
        let r = KernelMailbox { messages: Vec::new() };
        assert(r@ =~= Seq::<MailModel>::empty());
        r
    }

    /// Accepts a message.
    pub fn send(&mut self, msg: EmailMessage)
        ensures
            final(self)@ == old(self)@.push(msg@),
    {
        proof {
            types::lemma_views_push(self.messages@, msg);
        }
        self.messages.push(msg);
    }

    /// Takes out the messages to a cell.
    pub fn receive_for(&mut self, cell_id: CellId) -> (r: Vec<EmailMessage>)
        ensures
            types::views(r@) == addressed_to(old(self)@, cell_id),
            final(self)@ == not_addressed_to(old(self)@, cell_id),
    {
        let mut result: Vec<EmailMessage> = Vec::new();
        let mut i: usize = 0;
        let ghost all = self.messages@;
        let ghost mut k: int = 0;
        proof {
            assert(types::views(all) == old(self)@);
            assert(all.subrange(0, 0) =~= Seq::<EmailMessage>::empty());
            assert(types::views(all.subrange(0, 0)) =~= Seq::<MailModel>::empty());
            assert(types::views(result@) =~= Seq::<MailModel>::empty());
            assert(types::views(self.messages@.subrange(0, 0)) =~= Seq::<MailModel>::empty());
            assert(all.subrange(0, all.len() as int) =~= all);
        }
        while i < self.messages.len()
            invariant
                0 <= k <= all.len(),
                i <= self.messages.len(),
                self.messages@.subrange(i as int, self.messages@.len() as int) == all.subrange(
                    k,
                    all.len() as int,
                ),
                types::views(result@) == addressed_to(types::views(all.subrange(0, k)), cell_id),
                types::views(self.messages@.subrange(0, i as int)) == not_addressed_to(
                    types::views(all.subrange(0, k)),
                    cell_id,
                ),
            decreases self.messages.len() - i,
        {
            let ghost msgs = self.messages@;
            let ghost part = types::views(all.subrange(0, k + 1));
            proof {
                let rest = msgs.subrange(i as int, msgs.len() as int);
                assert(rest[0] == msgs[i as int]);
                assert(rest.len() == all.len() - k);
                assert(all.subrange(k, all.len() as int)[0] == all[k]);
                assert(part.drop_last() =~= types::views(all.subrange(0, k)));
                assert(part.last() == all[k]@);
            }
            if self.messages[i].to == cell_id {
                let m: EmailMessage = self.messages.remove(i);
                proof {
                    types::lemma_views_push(result@, m);
                    assert(self.messages@.subrange(0, i as int) =~= msgs.subrange(0, i as int));
                    assert(self.messages@.subrange(i as int, self.messages@.len() as int)
                        =~= msgs.subrange(i as int, msgs.len() as int).drop_first());
                }
                result.push(m);
            } else {
                proof {
                    types::lemma_views_push(msgs.subrange(0, i as int), msgs[i as int]);
                    assert(msgs.subrange(0, i + 1) =~= msgs.subrange(0, i as int).push(
                        msgs[i as int],
                    ));
                    assert(msgs.subrange(i + 1, msgs.len() as int) =~= msgs.subrange(
                        i as int,
                        msgs.len() as int,
                    ).drop_first());
                }
                i = i + 1;
            }
            proof {
                assert(all.subrange(k + 1, all.len() as int) =~= all.subrange(
                    k,
                    all.len() as int,
                ).drop_first());
                k = k + 1;
            }
        }
        proof {
            let rest = self.messages@.subrange(i as int, self.messages@.len() as int);
            assert(rest.len() == 0);
            assert(all.subrange(k, all.len() as int).len() == 0);
            assert(all.subrange(0, k) =~= all);
            assert(self.messages@.subrange(0, i as int) =~= self.messages@);
        }
        result
    }

    /// Takes the messages to the emergency core off the queue. The cells stay
    /// as they are.
    pub fn process_pending_commands(&mut self, runner: &mut ScrappyWasmRunner)
        ensures
            final(self)@ == not_addressed_to(old(self)@, CellId(6)),
            *final(runner) == *old(runner),
    {
        let _commands: Vec<EmailMessage> = self.receive_for(CellId(CellId::EMERGENCY));
    }
}

impl Default for KernelMailbox {
    fn default() -> (r: Self)
        ensures
            r@ == Seq::<MailModel>::empty(),
    {
        KernelMailbox::new()
    }
}

// ---- Snapshots ----

/// The state of a cell, kept to bring it back.
#[derive(Debug, Clone)]
pub struct CellSnapshot {
    pub cell_id: CellId,
    pub memory_state: Vec<u8>,
    pub global_state: Vec<i64>,
    pub last_status: CellStatus,
    pub timestamp: u64,
}

/// Mathematical model of a [`CellSnapshot`].
#[verifier::ext_equal]
pub struct SnapshotModel {
    pub cell_id: CellId,
    pub memory_state: Seq<u8>,
    pub global_state: Seq<i64>,
    pub last_status: CellStatus,
    pub timestamp: u64,
}

impl View for CellSnapshot {
    type V = SnapshotModel;

    open spec fn view(&self) -> SnapshotModel {
        SnapshotModel {
            cell_id: self.cell_id,
            memory_state: self.memory_state@,
            global_state: self.global_state@,
            last_status: self.last_status,
            timestamp: self.timestamp,
        }
    }
}

/// The snapshot of a cell.
pub open spec fn snapshot_of(id: CellId, c: CellModel) -> SnapshotModel {
    SnapshotModel {
        cell_id: id,
        memory_state: c.memory,
        global_state: c.globals,
        last_status: c.status,
        timestamp: 0,
    }
}

/// A cell brought back from a snapshot, and running.
pub open spec fn restored_cell(s: SnapshotModel) -> CellModel {
    CellModel {
        memory: s.memory_state,
        globals: s.global_state,
        status: CellStatus::Running,
    }
}

impl CellSnapshot {
    /// The snapshot of a cell.
    pub fn take(cell_id: CellId, instance: &ModuleInstance) -> (r: Self)
        ensures
            r@ == snapshot_of(cell_id, instance@),
    {
        CellSnapshot {
            cell_id,
            memory_state: instance.memory.clone(),
            global_state: instance.globals.clone(),
            last_status: instance.status,
            timestamp: 0,
        }
    }

    /// Brings a cell back, and sets it running.
    pub fn restore(&self, instance: &mut ModuleInstance) -> (r: Result<(), WasmError>)
        ensures
            r is Ok,
            final(instance)@ == restored_cell(self@),
    {
        instance.memory = self.memory_state.clone();
        instance.globals = self.global_state.clone();
        instance.status = CellStatus::Running;
        Ok(())
    }
}

/// The outcome of taking a snapshot: the cell must be loaded.
pub open spec fn snapshot_taken(cells: Cells, id: CellId) -> Result<SnapshotModel, ErrorModel> {
    match cells[id.0 as int] {
        Some(c) => Ok(snapshot_of(id, c)),
        None => Err(ErrorModel::MemoryError),
    }
}

/// Takes a snapshot of a cell.
pub fn snapshot_take(cell_id: CellId, runner: &mut ScrappyWasmRunner) -> (r: Result<
    CellSnapshot,
    WasmError,
>)
    requires
        cell_id.0 <= 6,
    ensures
        final(runner)@ == old(runner)@,
        final(runner).mail() == old(runner).mail(),
        match snapshot_taken(old(runner)@, cell_id) {
            Ok(s) => r matches Ok(x) && x@ == s,
            Err(e) => r matches Err(x) && x@ == e,
        },
{
    if let Some(instance) = runner.get_instance(cell_id) {
        let s = CellSnapshot::take(cell_id, instance);
        assert(runner@ =~= old(runner)@);
        Ok(s)
    } else {
        Err(WasmError::MemoryError)
    }
}

/// Brings a cell back from a snapshot; an empty cell is filled.
pub fn snapshot_restore(cell_id: CellId, snapshot: &CellSnapshot, runner: &mut ScrappyWasmRunner) -> (r:
    Result<(), WasmError>)
    requires
        cell_id.0 <= 6,
    ensures
        r is Ok,
        final(runner)@ == old(runner)@.update(
            cell_id.0 as int,
            Some(restored_cell(snapshot@)),
        ),
        final(runner).mail() == old(runner).mail(),
{
    if let Some(instance) = runner.get_instance(cell_id) {
        snapshot.restore(instance)?;
        Ok(())
    } else {
        let mut instance = ModuleInstance::new();
        snapshot.restore(&mut instance)?;
        runner.set_instance(cell_id, instance);
        Ok(())
    }
}

// ---- Booting ----

/// Booting: the emergency core is loaded and started, and then the main
/// shell. A binary that is empty stops the boot where it is needed.
pub open spec fn booted(cells: Cells, init: Seq<u8>, emergency: Seq<u8>) -> (Cells, Verdict) {
    match cell_loaded(cells, emergency, CellId(6)) {
        (c, Err(e)) => (c, Err(e)),
        (c, Ok(_)) => {
            let running = cell_started(c, CellId(6)).0;
            match cell_loaded(running, init, CellId(0)) {
                (d, Err(e)) => (d, Err(e)),
                (d, Ok(_)) => cell_started(d, CellId(0)),
            }
        },
    }
}

/// Boots the system from the binaries of the main shell and of the emergency
/// core: the emergency core first, and the main shell only when that is
/// running.
pub fn bootstrap(
    runner: &mut ScrappyWasmRunner,
    mailbox: &mut KernelMailbox,
    init_wasm: &[u8],
    emergency_wasm: &[u8],
) -> (r: Result<(), WasmError>)
    ensures
        (final(runner)@, verdict(r)) == booted(old(runner)@, init_wasm@, emergency_wasm@),
        final(runner).mail() == old(runner).mail(),
        final(mailbox)@ == old(mailbox)@,
{
    let emergency = CellId(CellId::EMERGENCY);
    let main = CellId(CellId::MAIN);
    runner.load(emergency_wasm, emergency, ())?;
    runner.start(emergency)?;
    if runner.get_status(emergency) != CellStatus::Running {
        return Err(WasmError::RuntimeError("Emergency Core failed to start".to_string()));
    }
    runner.load(init_wasm, main, ())?;
    runner.start(main)?;
    if runner.get_status(main) != CellStatus::Running {
        mailbox.send(
            EmailMessage::new(
                CellId(255),
                emergency,
                "BOOT_FAILURE",
                "Main Shell failed to start",
            ),
        );
        return Err(WasmError::RuntimeError("Main Shell failed to start".to_string()));
    }
    Ok(())
}

// ---- Failures ----

/// How an error is named in a report.
pub open spec fn error_code(e: ErrorModel) -> Seq<char> {
    match e {
        ErrorModel::LoadError(s) => "LOAD_ERR: "@ + s,
        ErrorModel::RuntimeError(s) => "RUN_ERR: "@ + s,
        ErrorModel::Timeout => "TIMEOUT"@,
        ErrorModel::MemoryError => "MEM_ERR"@,
    }
}

fn error_code_text(e: &WasmError) -> (r: String)
    ensures
        r@ == error_code(e@),
{
    match e {
        WasmError::LoadError(s) => "LOAD_ERR: ".to_string().concat(s.as_str()),
        WasmError::RuntimeError(s) => "RUN_ERR: ".to_string().concat(s.as_str()),
        WasmError::Timeout => "TIMEOUT".to_string(),
        WasmError::MemoryError => "MEM_ERR".to_string(),
    }
}

/// The body of the report of a failed cell.
pub open spec fn report_body(id: CellId, e: ErrorModel, saved: bool) -> Seq<char> {
    "CRASH_REPORT\nCell: "@ + text::decimal(id.0 as nat) + "\nError: "@ + error_code(e)
        + "\nSnapshot: "@ + (if saved {
        "SAVED"@
    } else {
        "FAILED"@
    })
}

/// The report of a failed cell to the emergency core.
pub open spec fn crash_report(id: CellId, e: ErrorModel, saved: bool) -> MailModel {
    MailModel {
        from: id,
        to: CellId(6),
        subject: "SYSTEM_CRASH"@,
        body: report_body(id, e, saved),
    }
}

/// Handles the failure of a cell: the emergency core gets a report, and the
/// cell is stopped.
pub fn handle_cell_error(
    cell_id: CellId,
    error: &WasmError,
    runner: &mut ScrappyWasmRunner,
    mailbox: &mut KernelMailbox,
)
    requires
        cell_id.0 <= 6,
    ensures
        final(runner)@ == with_status(old(runner)@, cell_id, CellStatus::Stopped),
        final(runner).mail() == old(runner).mail(),
        final(mailbox)@ == old(mailbox)@.push(
            crash_report(cell_id, error@, old(runner)@[cell_id.0 as int] is Some),
        ),
{
    let saved: bool = snapshot_take(cell_id, runner).is_ok();
    let body: String = "CRASH_REPORT\nCell: ".to_string().concat(
        text::decimal_text(cell_id.0).as_str(),
    ).concat("\nError: ").concat(error_code_text(error).as_str()).concat("\nSnapshot: ").concat(
        if saved {
            "SAVED"
        } else {
            "FAILED"
        },
    );
    mailbox.send(
        EmailMessage::new(
            cell_id,
            CellId(CellId::EMERGENCY),
            "SYSTEM_CRASH",
            body.as_str(),
        ),
    );
    runner.stop_cell(cell_id);
}

// ---- The watchdog ----

/// How long a running cell may be silent, in milliseconds.
pub const CELL_TIMEOUT_MS: u64 = 5000;

/// When each cell was last heard of, and snapshots to bring them back from.
pub struct HealthMonitor {
    last_heartbeat: [u64; 7],
    snapshots: [Option<CellSnapshot>; 7],
}

/// Mathematical model of a [`HealthMonitor`].
#[verifier::ext_equal]
pub struct MonitorModel {
    pub heartbeats: Seq<u64>,
    pub snapshots: Seq<Option<SnapshotModel>>,
}

/// The view of a snapshot that may be absent.
pub open spec fn snapshot_view(s: Option<CellSnapshot>) -> Option<SnapshotModel> {
    match s {
        Some(x) => Some(x@),
        None => None,
    }
}

impl View for HealthMonitor {
    type V = MonitorModel;

    closed spec fn view(&self) -> MonitorModel {
        MonitorModel {
            heartbeats: Seq::new(7, |i: int| self.last_heartbeat[i]),
            snapshots: Seq::new(7, |i: int| snapshot_view(self.snapshots[i])),
        }
    }
}

/// A monitor that has heard of no cell.
pub open spec fn fresh_monitor() -> MonitorModel {
    MonitorModel {
        heartbeats: Seq::new(7, |i: int| 0u64),
        snapshots: Seq::new(7, |i: int| None),
    }
}

/// The whole system.
#[verifier::ext_equal]
pub struct OsModel {
    pub cells: Cells,
    pub mail: Seq<MailModel>,
    pub monitor: MonitorModel,
}

/// The monitor after a sign of life of a cell.
pub open spec fn heard(m: MonitorModel, id: int, now: u64) -> MonitorModel {
    MonitorModel { heartbeats: m.heartbeats.update(id, now), ..m }
}

/// Whether a cell is running and has been silent for too long.
pub open spec fn overdue(s: OsModel, id: int, now: u64) -> bool {
    &&& status_of(s.cells, CellId(id as u8)) == CellStatus::Running
    &&& now - s.monitor.heartbeats[id] > CELL_TIMEOUT_MS
}

/// The alert for a silent cell.
pub open spec fn watchdog_alert(id: int) -> MailModel {
    MailModel {
        from: CellId(id as u8),
        to: CellId(6),
        subject: "WATCHDOG_ALERT"@,
        body: "CRASH_REPORT\nCell: "@ + text::decimal(id as nat) + "\nReason: WATCHDOG_TIMEOUT"@,
    }
}

/// The snapshot that a silent cell is brought back from: the one that is
/// kept, or one of the cell as it is.
pub open spec fn rescue_snapshot(s: OsModel, id: int) -> SnapshotModel {
    match s.monitor.snapshots[id] {
        Some(x) => x,
        None => snapshot_of(CellId(id as u8), s.cells[id]->0),
    }
}

/// The system after the watchdog has looked at one cell: a silent one is
/// reported, brought back, and counts as heard of.
pub open spec fn watched(s: OsModel, id: int, now: u64) -> OsModel {
    if overdue(s, id, now) {
        let snap = rescue_snapshot(s, id);
        OsModel {
            cells: s.cells.update(id, Some(restored_cell(snap))),
            mail: s.mail.push(watchdog_alert(id)),
            monitor: MonitorModel {
                heartbeats: s.monitor.heartbeats.update(id, now),
                snapshots: s.monitor.snapshots.update(id, Some(snap)),
            },
        }
    } else {
        s
    }
}

/// The system after the watchdog has looked at the first `k` cells.
pub open spec fn all_watched(s: OsModel, k: nat, now: u64) -> OsModel
    decreases k,
{
    if k == 0 {
        s
    } else {
        watched(all_watched(s, (k - 1) as nat, now), k - 1, now)
    }
}

/// The cells, the mail and the monitor as one system.
pub open spec fn system(
    runner: &ScrappyWasmRunner,
    mailbox: &KernelMailbox,
    monitor: &HealthMonitor,
) -> OsModel {
    OsModel { cells: runner@, mail: mailbox@, monitor: monitor@ }
}

impl HealthMonitor {
    /// The monitor has a time, and room for a snapshot, for each of the seven
    /// cells.
    pub proof fn law_seven_cells(&self)
        ensures
            self@.heartbeats.len() == 7,
            self@.snapshots.len() == 7,
    {
    }

    /// A monitor that has heard of no cell.
    pub fn new() -> (r: Self)
        ensures
            r@ == fresh_monitor(),
    {
        let r = HealthMonitor {
            last_heartbeat: [0, 0, 0, 0, 0, 0, 0],
            snapshots: [None, None, None, None, None, None, None],
        };
        assert(r@ =~= fresh_monitor());
        r
    }

    /// Notes a sign of life of a cell.
    pub fn record_heartbeat(&mut self, cell_id: u8, current_time: u64)
        ensures
            final(self)@ == (if cell_id <= 6 {
                heard(old(self)@, cell_id as int, current_time)
            } else {
                old(self)@
            }),
    {
        if cell_id <= 6 {
            self.last_heartbeat[cell_id as usize] = current_time;
            assert(self@ =~= heard(old(self)@, cell_id as int, current_time));
        }
    }

    /// Looks at one cell.
    fn watch(
        &mut self,
        runner: &mut ScrappyWasmRunner,
        id: u8,
        now: u64,
        mailbox: &mut KernelMailbox,
    )
        requires
            id < 6,
        ensures
            system(final(runner), final(mailbox), final(self)) == watched(
                system(old(runner), old(mailbox), old(self)),
                id as int,
                now,
            ),
            final(runner).mail() == old(runner).mail(),
    {
        let cell_id = CellId(id);
        let i: usize = id as usize;
        if runner.get_status(cell_id) != CellStatus::Running {
            return ;
        }
        if now.saturating_sub(self.last_heartbeat[i]) <= CELL_TIMEOUT_MS {
            return ;
        }
        let ghost s = system(old(runner), old(mailbox), old(self));
        assert(overdue(s, id as int, now));
        if self.snapshots[i].is_none() {
            if let Ok(snapshot) = snapshot_take(cell_id, runner) {
                self.snapshots[i] = Some(snapshot);
            }
        }
        assert(self@.snapshots =~= s.monitor.snapshots.update(
            id as int,
            Some(rescue_snapshot(s, id as int)),
        ));
        let body: String = "CRASH_REPORT\nCell: ".to_string().concat(
            text::decimal_text(id).as_str(),
        ).concat("\nReason: WATCHDOG_TIMEOUT");
        mailbox.send(
            EmailMessage::new(
                cell_id,
                CellId(CellId::EMERGENCY),
                "WATCHDOG_ALERT",
                body.as_str(),
            ),
        );
        if let Some(snapshot) = &self.snapshots[i] {
            match snapshot_restore(cell_id, snapshot, runner) {
                Ok(_) => {
                    self.last_heartbeat[i] = now;
                },
                Err(_) => {
                    runner.stop_cell(cell_id);
                },
            }
        } else {
            runner.stop_cell(cell_id);
        }
        assert(system(runner, mailbox, self) =~= watched(s, id as int, now));
    }

    /// Looks at all cells but the emergency core.
    pub fn tick(
        &mut self,
        runner: &mut ScrappyWasmRunner,
        current_time_ms: u64,
        mailbox: &mut KernelMailbox,
    )
        ensures
            system(final(runner), final(mailbox), final(self)) == all_watched(
                system(old(runner), old(mailbox), old(self)),
                6,
                current_time_ms,
            ),
            final(runner).mail() == old(runner).mail(),
    {
        let mut id: u8 = 0;
        let ghost s = system(old(runner), old(mailbox), old(self));
        while id < 6
            invariant
                id <= 6,
                s == system(old(runner), old(mailbox), old(self)),
                system(runner, mailbox, self) == all_watched(s, id as nat, current_time_ms),
                runner.mail() == old(runner).mail(),
            decreases 6 - id,
        {
            self.watch(runner, id, current_time_ms, mailbox);
            id = id + 1;
        }
    }
}

impl Default for HealthMonitor {
    fn default() -> (r: Self)
        ensures
            r@ == fresh_monitor(),
    {
        HealthMonitor::new()
    }
}

// ---- The main loop ----

/// The system after one cell has had its turn: a running cell is heard of.
pub open spec fn turn_taken(s: OsModel, id: int, now: u64) -> OsModel {
    if status_of(s.cells, CellId(id as u8)) == CellStatus::Running {
        OsModel { monitor: heard(s.monitor, id, now), ..s }
    } else {
        s
    }
}

/// The system after the first `k` cells have had their turns.
pub open spec fn turns_taken(s: OsModel, k: nat, now: u64) -> OsModel
    decreases k,
{
    if k == 0 {
        s
    } else {
        turn_taken(turns_taken(s, (k - 1) as nat, now), k - 1, now)
    }
}

/// The system after one round of the main loop: every cell has its turn, the
/// watchdog looks at them, and the messages to the emergency core are taken.
pub open spec fn round(s: OsModel, now: u64) -> OsModel {
    let t = all_watched(turns_taken(s, 7, now), 6, now);
    OsModel { mail: not_addressed_to(t.mail, CellId(6)), ..t }
}

/// One round of the main loop at time `system_time`.
pub fn run_round(
    runner: &mut ScrappyWasmRunner,
    mailbox: &mut KernelMailbox,
    monitor: &mut HealthMonitor,
    system_time: u64,
)
    ensures
        system(final(runner), final(mailbox), final(monitor)) == round(
            system(old(runner), old(mailbox), old(monitor)),
            system_time,
        ),
        final(runner).mail() == old(runner).mail(),
{
    let mut id: u8 = 0;
    let ghost s = system(old(runner), old(mailbox), old(monitor));
    while id < 7
        invariant
            id <= 7,
            s == system(old(runner), old(mailbox), old(monitor)),
            system(runner, mailbox, monitor) == turns_taken(s, id as nat, system_time),
            runner.mail() == old(runner).mail(),
        decreases 7 - id,
    {
        let cell_id = CellId(id);
        if runner.get_status(cell_id) == CellStatus::Running {
            match runner.execute_quantum(cell_id, 1000) {
                Ok(_) => {
                    monitor.record_heartbeat(id, system_time);
                },
                Err(e) => {
                    handle_cell_error(cell_id, &e, runner, mailbox);
                },
            }
        }
        id = id + 1;
    }
    monitor.tick(runner, system_time, mailbox);
    mailbox.process_pending_commands(runner);
}

// ---- Laws ----

/// A cell that is brought back from its snapshot has its memory and globals
/// again, and runs, whatever happened to it in between.
pub proof fn law_snapshot_round_trip(cells: Cells, id: CellId, changed: Cells)
    requires
        cells.len() == 7,
        changed.len() == 7,
        id.0 <= 6,
        cells[id.0 as int] is Some,
    ensures
        ({
            let c = cells[id.0 as int]->0;
            let back = changed.update(
                id.0 as int,
                Some(restored_cell(snapshot_taken(cells, id)->Ok_0)),
            );
            back[id.0 as int] == Some(CellModel { status: CellStatus::Running, ..c })
        }),
{
}

/// After a boot that succeeds, the emergency core and the main shell are
/// running, and the other cells are as before. It succeeds if and only if
/// neither binary is empty.
pub proof fn law_booted(cells: Cells, init: Seq<u8>, emergency: Seq<u8>)
    requires
        cells.len() == 7,
    ensures
        booted(cells, init, emergency).1 is Ok <==> init.len() > 0 && emergency.len() > 0,
        booted(cells, init, emergency).1 is Ok ==> ({
            let b = booted(cells, init, emergency).0;
            &&& status_of(b, CellId(6)) == CellStatus::Running
            &&& status_of(b, CellId(0)) == CellStatus::Running
            &&& forall|i: int| 1 <= i < 6 ==> #[trigger] b[i] == cells[i]
        }),
{
}

/// The main shell is never loaded unless the emergency core is running.
pub proof fn law_emergency_first(cells: Cells, init: Seq<u8>, emergency: Seq<u8>)
    requires
        cells.len() == 7,
    ensures
        booted(cells, init, emergency).0[0] != cells[0] ==> status_of(
            booted(cells, init, emergency).0,
            CellId(6),
        ) == CellStatus::Running,
{
}

/// Messages that are taken out are all to the cell, and none of those that
/// stay are; no message is lost.
pub proof fn law_mail_is_sorted(mail: Seq<MailModel>, id: CellId)
    ensures
        forall|i: int|
            0 <= i < addressed_to(mail, id).len() ==> (#[trigger] addressed_to(mail, id)[i]).to
                == id,
        forall|i: int|
            0 <= i < not_addressed_to(mail, id).len() ==> (#[trigger] not_addressed_to(
                mail,
                id,
            )[i]).to != id,
        addressed_to(mail, id).to_multiset().add(not_addressed_to(mail, id).to_multiset())
            =~= mail.to_multiset(),
    decreases mail.len(),
{
    broadcast use vstd::seq_lib::group_to_multiset_ensures;

    if mail.len() > 0 {
        let rest = mail.drop_last();
        law_mail_is_sorted(rest, id);
        assert(mail =~= rest.push(mail.last()));
    }
}

/// After the messages to a cell have been taken out, there are none left.
pub proof fn law_receive_twice(mail: Seq<MailModel>, id: CellId)
    ensures
        addressed_to(not_addressed_to(mail, id), id) == Seq::<MailModel>::empty(),
        not_addressed_to(not_addressed_to(mail, id), id) == not_addressed_to(mail, id),
    decreases mail.len(),
{
    if mail.len() > 0 {
        let rest = mail.drop_last();
        law_receive_twice(rest, id);
        if mail.last().to != id {
            let left = not_addressed_to(rest, id);
            assert(left.push(mail.last()).drop_last() =~= left);
        }
    }
}

/// A message that is sent to a cell is the last that the cell receives.
pub proof fn law_send_then_receive(mail: Seq<MailModel>, msg: MailModel)
    ensures
        addressed_to(mail.push(msg), msg.to) == addressed_to(mail, msg.to).push(msg),
{
    assert(mail.push(msg).drop_last() =~= mail);
}

proof fn lemma_watched_frame(s: OsModel, k: nat, now: u64, j: int)
    requires
        s.cells.len() == 7,
        s.monitor.heartbeats.len() == 7,
        s.monitor.snapshots.len() == 7,
        k <= 6,
        k <= j < 7,
    ensures
        all_watched(s, k, now).cells.len() == 7,
        all_watched(s, k, now).monitor.heartbeats.len() == 7,
        all_watched(s, k, now).monitor.snapshots.len() == 7,
        all_watched(s, k, now).cells[j] == s.cells[j],
        all_watched(s, k, now).monitor.heartbeats[j] == s.monitor.heartbeats[j],
        all_watched(s, k, now).monitor.snapshots[j] == s.monitor.snapshots[j],
    decreases k,
{
    if k > 0 {
        lemma_watched_frame(s, (k - 1) as nat, now, j);
    }
}

/// The watchdog never touches the emergency core.
pub proof fn law_emergency_untouched(s: OsModel, now: u64)
    requires
        s.cells.len() == 7,
        s.monitor.heartbeats.len() == 7,
        s.monitor.snapshots.len() == 7,
    ensures
        all_watched(s, 6, now).cells[6] == s.cells[6],
        all_watched(s, 6, now).monitor.heartbeats[6] == s.monitor.heartbeats[6],
{
    lemma_watched_frame(s, 6, now, 6);
}

proof fn lemma_watched_result(s: OsModel, k: nat, now: u64, i: int)
    requires
        s.cells.len() == 7,
        s.monitor.heartbeats.len() == 7,
        s.monitor.snapshots.len() == 7,
        0 <= i < k <= 6,
    ensures
        !overdue(all_watched(s, k, now), i, now),
        !overdue(s, i, now) ==> all_watched(s, k, now).cells[i] == s.cells[i],
        overdue(s, i, now) ==> all_watched(s, k, now).cells[i] == Some(
            restored_cell(rescue_snapshot(s, i)),
        ),
        all_watched(s, k, now).cells.len() == 7,
        all_watched(s, k, now).monitor.heartbeats.len() == 7,
        all_watched(s, k, now).monitor.snapshots.len() == 7,
    decreases k,
{
    lemma_watched_frame(s, (k - 1) as nat, now, k - 1);
    if i < k - 1 {
        lemma_watched_result(s, (k - 1) as nat, now, i);
    }
}

/// After the watchdog has looked, no cell but the emergency core is running
/// and overdue; a cell that was not overdue is as before, and one that was is
/// brought back from its snapshot.
pub proof fn law_watchdog(s: OsModel, now: u64, i: int)
    requires
        s.cells.len() == 7,
        s.monitor.heartbeats.len() == 7,
        s.monitor.snapshots.len() == 7,
        0 <= i < 6,
    ensures
        !overdue(all_watched(s, 6, now), i, now),
        !overdue(s, i, now) ==> all_watched(s, 6, now).cells[i] == s.cells[i],
        overdue(s, i, now) ==> all_watched(s, 6, now).cells[i] == Some(
            restored_cell(rescue_snapshot(s, i)),
        ),
{
    lemma_watched_result(s, 6, now, i);
}

proof fn lemma_watched_quiet(s: OsModel, k: nat, now: u64)
    requires
        k <= 6,
        forall|i: int| 0 <= i < 6 ==> !overdue(s, i, now),
    ensures
        all_watched(s, k, now) == s,
    decreases k,
{
    if k > 0 {
        lemma_watched_quiet(s, (k - 1) as nat, now);
    }
}

/// Where no cell is overdue, the watchdog changes nothing and sends nothing.
pub proof fn law_watchdog_quiet(s: OsModel, now: u64)
    requires
        forall|i: int| 0 <= i < 6 ==> !overdue(s, i, now),
    ensures
        all_watched(s, 6, now) == s,
{
    lemma_watched_quiet(s, 6, now);
}

proof fn lemma_turns(s: OsModel, k: nat, now: u64)
    requires
        s.monitor.heartbeats.len() == 7,
        k <= 7,
    ensures
        turns_taken(s, k, now).cells == s.cells,
        turns_taken(s, k, now).mail == s.mail,
        turns_taken(s, k, now).monitor.snapshots == s.monitor.snapshots,
        turns_taken(s, k, now).monitor.heartbeats.len() == 7,
        forall|i: int|
            0 <= i < k && status_of(s.cells, CellId(i as u8)) == CellStatus::Running
                ==> #[trigger] turns_taken(s, k, now).monitor.heartbeats[i] == now,
    decreases k,
{
    if k > 0 {
        lemma_turns(s, (k - 1) as nat, now);
    }
}

/// In the main loop every running cell is heard of before the watchdog looks,
/// so a round changes no cell and raises no alert.
pub proof fn law_round_is_quiet(s: OsModel, now: u64)
    requires
        s.monitor.heartbeats.len() == 7,
    ensures
        round(s, now).cells == s.cells,
        round(s, now).mail == not_addressed_to(s.mail, CellId(6)),
        round(s, now).monitor.snapshots == s.monitor.snapshots,
{
    let t = turns_taken(s, 7, now);
    lemma_turns(s, 7, now);
    assert forall|i: int| 0 <= i < 6 implies !overdue(t, i, now) by {
        if status_of(s.cells, CellId(i as u8)) == CellStatus::Running {
            assert(t.monitor.heartbeats[i] == now);
        }
    }
    law_watchdog_quiet(t, now);
}

/// The main shell is in the first cell and the emergency core in the last.
pub proof fn law_roles()
    ensures
        CellId::MAIN == 0,
        CellId::EMERGENCY == 6,
        CELL_TIMEOUT_MS == 5000,
{
}

/// Loading puts the start of the binary into a memory of 1024 bytes that is
/// zero behind it, with sixteen zero globals, and leaves the other cells as
/// they are. An empty binary is an error.
pub proof fn law_load(cells: Cells, bytes: Seq<u8>, id: CellId, k: int, g: int)
    requires
        cells.len() == 7,
        id.0 <= 6,
        0 <= k < 1024,
        0 <= g < 16,
    ensures
        bytes.len() == 0 ==> cell_loaded(cells, bytes, id) == (
            cells,
            Err::<(), ErrorModel>(ErrorModel::LoadError("Empty WASM"@)),
        ),
        bytes.len() > 0 ==> {
            let (after, v) = cell_loaded(cells, bytes, id);
            &&& v == Ok::<(), ErrorModel>(())
            &&& after.len() == 7
            &&& forall|j: int| 0 <= j < 7 && j != id.0 ==> #[trigger] after[j] == cells[j]
            &&& after[id.0 as int] matches Some(c)
            &&& c.status == CellStatus::Loading
            &&& c.memory.len() == 1024
            &&& c.memory[k] == (if k < bytes.len() {
                bytes[k]
            } else {
                0u8
            })
            &&& c.globals.len() == 16
            &&& c.globals[g] == 0
        },
{
}

/// Starting a loaded cell leaves it running, and stopping it leaves it
/// stopped, with everything else as before. A cell that is not loaded cannot
/// be started.
pub proof fn law_start_and_stop(cells: Cells, id: CellId)
    requires
        cells.len() == 7,
        id.0 <= 6,
    ensures
        match cells[id.0 as int] {
            None => {
                &&& cell_started(cells, id) == (
                    cells,
                    Err::<(), ErrorModel>(ErrorModel::RuntimeError("Cell not loaded"@)),
                )
                &&& with_status(cells, id, CellStatus::Stopped) == cells
            },
            Some(c) => {
                let (after, v) = cell_started(cells, id);
                let stopped = with_status(cells, id, CellStatus::Stopped);
                &&& v == Ok::<(), ErrorModel>(())
                &&& after[id.0 as int] matches Some(d)
                &&& d.status == CellStatus::Running
                &&& d.memory == c.memory
                &&& d.globals == c.globals
                &&& stopped[id.0 as int] matches Some(e)
                &&& e.status == CellStatus::Stopped
                &&& e.memory == c.memory
                &&& e.globals == c.globals
                &&& forall|j: int|
                    0 <= j < 7 && j != id.0 ==> #[trigger] after[j] == cells[j] && stopped[j]
                        == cells[j]
            },
        },
{
}

/// A cell can use its time only while it is running; a cell that is not
/// loaded counts as uninitialized.
pub proof fn law_quantum(cells: Cells, id: CellId)
    requires
        cells.len() == 7,
        id.0 <= 6,
    ensures
        match cells[id.0 as int] {
            None => status_of(cells, id) == CellStatus::Uninitialized && quantum_outcome(cells, id)
                == Err::<(), ErrorModel>(ErrorModel::RuntimeError("Cell not found"@)),
            Some(c) => status_of(cells, id) == c.status && quantum_outcome(cells, id) == (
            if c.status == CellStatus::Running {
                Ok::<(), ErrorModel>(())
            } else {
                Err::<(), ErrorModel>(ErrorModel::RuntimeError("Cell not running"@))
            }),
        },
{
}

/// Messages are taken out, and stay, in the order in which they were sent:
/// the messages in two queues, one behind the other, are those of the first
/// queue and then those of the second.
pub proof fn law_mail_in_order(a: Seq<MailModel>, b: Seq<MailModel>, id: CellId)
    ensures
        addressed_to(a + b, id) == addressed_to(a, id) + addressed_to(b, id),
        not_addressed_to(a + b, id) == not_addressed_to(a, id) + not_addressed_to(b, id),
    decreases b.len(),
{
    if b.len() == 0 {
        assert(a + b =~= a);
        assert(addressed_to(a, id) + addressed_to(b, id) =~= addressed_to(a, id));
        assert(not_addressed_to(a, id) + not_addressed_to(b, id) =~= not_addressed_to(a, id));
    } else {
        let rest = b.drop_last();
        law_mail_in_order(a, rest, id);
        assert((a + b).drop_last() =~= a + rest);
        assert(addressed_to(a + b, id) =~= addressed_to(a, id) + addressed_to(b, id));
        assert(not_addressed_to(a + b, id) =~= not_addressed_to(a, id) + not_addressed_to(b, id));
    }
}

/// A message is taken out by the cell that it is addressed to, and stays
/// when any other cell takes its mail.
pub proof fn law_mail_of_one(mail: Seq<MailModel>, msg: MailModel, id: CellId)
    ensures
        msg.to == id ==> addressed_to(mail.push(msg), id) == addressed_to(mail, id).push(msg)
            && not_addressed_to(mail.push(msg), id) == not_addressed_to(mail, id),
        msg.to != id ==> addressed_to(mail.push(msg), id) == addressed_to(mail, id)
            && not_addressed_to(mail.push(msg), id) == not_addressed_to(mail, id).push(msg),
        addressed_to(Seq::empty(), id).len() == 0,
        not_addressed_to(Seq::empty(), id).len() == 0,
{
    assert(mail.push(msg).drop_last() =~= mail);
}

/// The report of a failed cell comes from that cell and goes to the emergency
/// core. It names the cell, the error, and whether a snapshot was saved.
pub proof fn law_report(id: CellId, e: ErrorModel, saved: bool)
    ensures
        ({
            let r = crash_report(id, e, saved);
            let code = match e {
                ErrorModel::LoadError(s) => "LOAD_ERR: "@ + s,
                ErrorModel::RuntimeError(s) => "RUN_ERR: "@ + s,
                ErrorModel::Timeout => "TIMEOUT"@,
                ErrorModel::MemoryError => "MEM_ERR"@,
            };
            let cell = text::decimal(id.0 as nat);
            &&& r.from == id
            &&& r.to == CellId(6)
            &&& r.subject == "SYSTEM_CRASH"@
            &&& text::value_of(cell) == id.0
            &&& saved ==> r.body == "CRASH_REPORT\nCell: "@ + cell + "\nError: "@ + code
                + "\nSnapshot: "@ + "SAVED"@
            &&& !saved ==> r.body == "CRASH_REPORT\nCell: "@ + cell + "\nError: "@ + code
                + "\nSnapshot: "@ + "FAILED"@
        }),
{
    text::law_decimal(id.0 as nat);
}

/// A snapshot holds the memory, the globals and the status of its cell; of a
/// cell that is not loaded there is none.
pub proof fn law_snapshot(cells: Cells, id: CellId)
    requires
        cells.len() == 7,
        id.0 <= 6,
    ensures
        match cells[id.0 as int] {
            None => snapshot_taken(cells, id) == Err::<SnapshotModel, ErrorModel>(
                ErrorModel::MemoryError,
            ),
            Some(c) => snapshot_taken(cells, id) matches Ok(s) && s.cell_id == id && s.memory_state
                == c.memory && s.global_state == c.globals && s.last_status == c.status
                && s.timestamp == 0,
        },
{
}

/// A running cell that has been silent for more than five seconds is
/// reported to the emergency core and brought back: from the snapshot that is
/// kept, or else as it is, and that is then kept as its snapshot. It counts
/// as heard of. Everything else stays as it is.
pub proof fn law_silent_cell(s: OsModel, id: int, now: u64)
    requires
        s.cells.len() == 7,
        s.monitor.heartbeats.len() == 7,
        s.monitor.snapshots.len() == 7,
        0 <= id < 7,
    ensures
        ({
            let after = watched(s, id, now);
            if (s.cells[id] matches Some(c) && c.status == CellStatus::Running) && now
                - s.monitor.heartbeats[id] > 5000 {
                let old_cell = s.cells[id]->0;
                let msg = after.mail.last();
                &&& after.mail.len() == s.mail.len() + 1
                &&& after.mail.drop_last() == s.mail
                &&& msg.from == CellId(id as u8)
                &&& msg.to == CellId(6)
                &&& msg.subject == "WATCHDOG_ALERT"@
                &&& msg.body == "CRASH_REPORT\nCell: "@ + text::decimal(id as nat)
                    + "\nReason: WATCHDOG_TIMEOUT"@
                &&& after.cells[id] matches Some(c)
                &&& c.status == CellStatus::Running
                &&& after.monitor.snapshots[id] matches Some(x)
                &&& c.memory == x.memory_state
                &&& c.globals == x.global_state
                &&& match s.monitor.snapshots[id] {
                    Some(kept) => x == kept,
                    None => x.memory_state == old_cell.memory && x.global_state == old_cell.globals
                        && x.last_status == CellStatus::Running && x.cell_id == CellId(id as u8),
                }
                &&& after.monitor.heartbeats == s.monitor.heartbeats.update(id, now)
                &&& forall|j: int|
                    0 <= j < 7 && j != id ==> #[trigger] after.cells[j] == s.cells[j]
                        && after.monitor.snapshots[j] == s.monitor.snapshots[j]
            } else {
                after == s
            }
        }),
{
    assert(watched(s, id, now).mail.drop_last() =~= s.mail || watched(s, id, now) == s);
}

/// A sign of life of a cell sets its time and no other.
pub proof fn law_heard(m: MonitorModel, id: int, now: u64, j: int)
    requires
        m.heartbeats.len() == 7,
        0 <= id < 7,
        0 <= j < 7,
    ensures
        heard(m, id, now).heartbeats.len() == 7,
        heard(m, id, now).heartbeats[j] == (if j == id {
            now
        } else {
            m.heartbeats[j]
        }),
        heard(m, id, now).snapshots == m.snapshots,
{
}

/// In one round every running cell is heard of, and no other.
pub proof fn law_round_hears(s: OsModel, now: u64, i: int)
    requires
        s.monitor.heartbeats.len() == 7,
        0 <= i < 7,
    ensures
        round(s, now).monitor.heartbeats[i] == (if status_of(s.cells, CellId(i as u8))
            == CellStatus::Running {
            now
        } else {
            s.monitor.heartbeats[i]
        }),
{
    let t = turns_taken(s, 7, now);
    lemma_turns(s, 7, now);
    lemma_turns_exact(s, 7, now, i);
    assert forall|j: int| 0 <= j < 6 implies !overdue(t, j, now) by {
        if status_of(s.cells, CellId(j as u8)) == CellStatus::Running {
            assert(t.monitor.heartbeats[j] == now);
        }
    }
    law_watchdog_quiet(t, now);
}

proof fn lemma_turns_exact(s: OsModel, k: nat, now: u64, i: int)
    requires
        s.monitor.heartbeats.len() == 7,
        k <= 7,
        0 <= i < 7,
    ensures
        turns_taken(s, k, now).monitor.heartbeats[i] == (if i < k && status_of(
            s.cells,
            CellId(i as u8),
        ) == CellStatus::Running {
            now
        } else {
            s.monitor.heartbeats[i]
        }),
    decreases k,
{
    if k > 0 {
        lemma_turns_exact(s, (k - 1) as nat, now, i);
        lemma_turns(s, (k - 1) as nat, now);
    }
}

/// An error is told by its kind, and by its message if it has one.
pub proof fn law_error_text(s: Seq<char>)
    ensures
        error_text(ErrorModel::LoadError(s)) == "LoadError: "@ + s,
        error_text(ErrorModel::RuntimeError(s)) == "RuntimeError: "@ + s,
        error_text(ErrorModel::Timeout) == "Timeout"@,
        error_text(ErrorModel::MemoryError) == "MemoryError"@,
{
}

/// After a boot that succeeds, the binaries stand in the memories of their
/// cells. A boot without an emergency core changes nothing, and one without a
/// main shell leaves the emergency core running; both are load errors.
pub proof fn law_boot_contents(cells: Cells, init: Seq<u8>, emergency: Seq<u8>, k: int)
    requires
        cells.len() == 7,
        0 <= k < 1024,
    ensures
        ({
            let (b, v) = booted(cells, init, emergency);
            &&& init.len() > 0 && emergency.len() > 0 ==> (b[6] matches Some(c) && (k
                < emergency.len() ==> c.memory[k] == emergency[k])) && (b[0] matches Some(c) && (k
                < init.len() ==> c.memory[k] == init[k]))
            &&& emergency.len() == 0 ==> b == cells && v == Err::<(), ErrorModel>(
                ErrorModel::LoadError("Empty WASM"@),
            )
            &&& emergency.len() > 0 && init.len() == 0 ==> v == Err::<(), ErrorModel>(
                ErrorModel::LoadError("Empty WASM"@),
            ) && b[0] == cells[0] && (b[6] matches Some(c) && c.status == CellStatus::Running)
        }),
{
}

/// The watchdog looks at the cells one after the other, from the first on.
pub proof fn law_watch_order(s: OsModel, k: nat, now: u64)
    ensures
        all_watched(s, 0, now) == s,
        all_watched(s, k + 1, now) == watched(all_watched(s, k, now), k as int, now),
{
}

} // verus!
