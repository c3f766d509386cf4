//! Booting and rescuing the seven cells: the rescue cell comes up first, a
//! crash of the main cell is reported to it by mail, and its commands bring
//! the main cell back.
use std::collections::BTreeMap;

use vstd::prelude::*;
use vstd::string::StringExecFns;
use vstd::utf8;

use crate::text;
use crate::types;

verus! {

/// How many cells there are.
pub const CELL_COUNT: usize = 7;

/// The rescue cell, which is started first.
pub const RESCUE_CELL_ID: usize = 6;

/// The main cell.
pub const MAIN_CELL_ID: usize = 0;

/// What a cell is doing.
#[derive(Debug, Clone, Copy, PartialEq, Eq, Structural)]
pub enum CellStatus {
    Uninitialized,
    Loading,
    Running,
    Crashed,
    Stopped,
}

/// Why a module failed.
#[derive(Debug, PartialEq, Eq)]
pub enum WasmError {
    CompileError(String),
    InstantiationError(String),
    Trap(String),
    HostError(String),
}

/// Mathematical model of a [`WasmError`].
#[verifier::ext_equal]
pub enum ErrorModel {
    CompileError(Seq<char>),
    InstantiationError(Seq<char>),
    Trap(Seq<char>),
    HostError(Seq<char>),
}

impl View for WasmError {
    type V = ErrorModel;

    open spec fn view(&self) -> ErrorModel {
        match *self {
            WasmError::CompileError(s) => ErrorModel::CompileError(s@),
            WasmError::InstantiationError(s) => ErrorModel::InstantiationError(s@),
            WasmError::Trap(s) => ErrorModel::Trap(s@),
            WasmError::HostError(s) => ErrorModel::HostError(s@),
        }
    }
}

impl Clone for WasmError {
    fn clone(&self) -> (r: Self)
        ensures
            r@ == self@,
    {
        match self {
            WasmError::CompileError(s) => WasmError::CompileError(s.clone()),
            WasmError::InstantiationError(s) => WasmError::InstantiationError(s.clone()),
            WasmError::Trap(s) => WasmError::Trap(s.clone()),
            WasmError::HostError(s) => WasmError::HostError(s.clone()),
        }
    }
}

/// Success, or the model of an error.
pub type Verdict = Result<(), ErrorModel>;

/// The view of a result.
pub open spec fn verdict(r: Result<(), WasmError>) -> Verdict {
    match r {
        Ok(_) => Ok(()),
        Err(e) => Err(e@),
    }
}

/// What an error says.
pub open spec fn error_message(e: ErrorModel) -> Seq<char> {
    match e {
        ErrorModel::CompileError(s) => s,
        ErrorModel::InstantiationError(s) => s,
        ErrorModel::Trap(s) => s,
        ErrorModel::HostError(s) => s,
    }
}

/// The `Debug` form of an error, given the quoted form of what it says.
pub open spec fn error_form(e: ErrorModel, quoted: Seq<char>) -> Seq<char> {
    match e {
        ErrorModel::CompileError(_) => "CompileError("@ + quoted + ")"@,
        ErrorModel::InstantiationError(_) => "InstantiationError("@ + quoted + ")"@,
        ErrorModel::Trap(_) => "Trap("@ + quoted + ")"@,
        ErrorModel::HostError(_) => "HostError("@ + quoted + ")"@,
    }
}

/// What a crash leaves in the memory of a cell, given the quoted form of what
/// the error says.
pub open spec fn crash_form(e: ErrorModel, quoted: Seq<char>) -> Seq<char> {
    "CRASH: "@ + error_form(e, quoted)
}

/// What a crash leaves in the memory of a cell.
pub open spec fn crash_text(e: ErrorModel) -> Seq<char> {
    crash_form(e, text::str_debug(error_message(e)))
}

/// The text of a crash, given the quoted form of what the error says.
pub fn crash_message(error: &WasmError, quoted: &str) -> (r: String)
    ensures
        r@ == crash_form(error@, quoted@),
{
    let name: &str = match error {
        WasmError::CompileError(_) => "CompileError(",
        WasmError::InstantiationError(_) => "InstantiationError(",
        WasmError::Trap(_) => "Trap(",
        WasmError::HostError(_) => "HostError(",
    };
    let form: String = name.to_string().concat(quoted).concat(")");
    "CRASH: ".to_string().concat(form.as_str())
}

impl WasmError {
    /// What the error says.
    pub fn message(&self) -> (r: &str)
        ensures
            r@ == error_message(self@),
    {
        match self {
            WasmError::CompileError(s) => s.as_str(),
            WasmError::InstantiationError(s) => s.as_str(),
            WasmError::Trap(s) => s.as_str(),
            WasmError::HostError(s) => s.as_str(),
        }
    }
}

/// A message between cells.
#[derive(Debug, Clone)]
pub struct EmailMessage {
    pub from: usize,
    pub to: usize,
    pub subject: String,
    pub body: String,
    pub high_priority: bool,
}

/// Mathematical model of an [`EmailMessage`].
#[verifier::ext_equal]
pub struct MailModel {
    pub from: usize,
    pub to: usize,
    pub subject: Seq<char>,
    pub body: Seq<char>,
    pub high_priority: bool,
}

impl View for EmailMessage {
    type V = MailModel;

    open spec fn view(&self) -> MailModel {
        MailModel {
            from: self.from,
            to: self.to,
            subject: self.subject@,
            body: self.body@,
            high_priority: self.high_priority,
        }
    }
}

impl EmailMessage {
    /// A message of normal priority.
    pub fn new(from: usize, to: usize, subject: &str, body: &str) -> (r: Self)
        ensures
            r@ == (MailModel { from, to, subject: subject@, body: body@, high_priority: false }),
    {
        EmailMessage {
            from,
            to,
            subject: subject.to_string(),
            body: body.to_string(),
            high_priority: false,
        }
    }

    /// The same message with high priority.
    pub fn high_priority(self) -> (r: Self)
        ensures
            r@ == (MailModel { high_priority: true, ..self@ }),
    {
        EmailMessage {
            from: self.from,
            to: self.to,
            subject: self.subject,
            body: self.body,
            high_priority: true,
        }
    }
}

/// The state of a crashed cell, kept to bring it back.
#[derive(Debug)]
pub struct CellSnapshot {
    pub cell_id: usize,
    pub memory_state: Vec<u8>,
    /// The state of the module.
    pub register_state: Vec<u8>,
    pub last_status: CellStatus,
    /// What is known of the error.
    pub error_info: Option<String>,
}

/// Mathematical model of a [`CellSnapshot`].
#[verifier::ext_equal]
pub struct SnapshotModel {
    pub cell_id: usize,
    pub memory_state: Seq<u8>,
    pub register_state: Seq<u8>,
    pub last_status: CellStatus,
    pub error_info: Option<Seq<char>>,
}

impl View for CellSnapshot {
    type V = SnapshotModel;

    open spec fn view(&self) -> SnapshotModel {
        SnapshotModel {
            cell_id: self.cell_id,
            memory_state: self.memory_state@,
            register_state: self.register_state@,
            last_status: self.last_status,
            error_info: match self.error_info {
                Some(s) => Some(s@),
                None => None,
            },
        }
    }
}

impl Clone for CellSnapshot {
    fn clone(&self) -> (r: Self)
        ensures
            r@ == self@,
    {
        CellSnapshot {
            cell_id: self.cell_id,
            memory_state: self.memory_state.clone(),
            register_state: self.register_state.clone(),
            last_status: self.last_status,
            error_info: match &self.error_info {
                Some(s) => Some(s.clone()),
                None => None,
            },
        }
    }
}

/// A module that a cell can run. Each operation is described by a relation
/// between the module before and after, and the outcome; an implementation
/// that says nothing else may do anything.
pub trait WasmModule: Send + Sync + Sized {
    open spec fn inits(&self, data: Seq<u8>, after: Self, r: Verdict) -> bool {
        true
    }

    open spec fn runs(&self, after: Self, r: Verdict) -> bool {
        true
    }

    open spec fn captures(&self, state: Seq<u8>) -> bool {
        true
    }

    open spec fn restores(&self, state: Seq<u8>, after: Self, r: Verdict) -> bool {
        true
    }

    /// Sets the module up from a binary.
    fn init(&mut self, wasm_data: &[u8]) -> (r: Result<(), WasmError>)
        ensures
            old(self).inits(wasm_data@, *final(self), verdict(r)),
    ;

    /// Runs the entry point.
    fn run(&mut self) -> (r: Result<(), WasmError>)
        ensures
            old(self).runs(*final(self), verdict(r)),
    ;

    /// The state of the module.
    fn take_snapshot(&self) -> (state: Vec<u8>)
        ensures
            self.captures(state@),
    ;

    /// Puts the module back in a state.
    fn restore_from_snapshot(&mut self, snapshot: &[u8]) -> (r: Result<(), WasmError>)
        ensures
            old(self).restores(snapshot@, *final(self), verdict(r)),
    ;
}

/// A module that keeps its binary and does nothing with it.
pub struct SimpleWasmModule {
    pub data: Vec<u8>,
    pub is_initialized: bool,
}

impl SimpleWasmModule {
    /// A module that has not been set up.
    pub fn new() -> (r: Self)
        ensures
            r.data@ == Seq::<u8>::empty(),
            !r.is_initialized,
    {
        SimpleWasmModule { data: Vec::new(), is_initialized: false }
    }
}

impl WasmModule for SimpleWasmModule {
    open spec fn inits(&self, data: Seq<u8>, after: Self, r: Verdict) -> bool {
        after.data@ == data && after.is_initialized && r == Ok::<(), ErrorModel>(())
    }

    open spec fn runs(&self, after: Self, r: Verdict) -> bool {
        &&& after == *self
        &&& r == (if self.is_initialized {
            Ok(())
        } else {
            Err(ErrorModel::InstantiationError("Module not initialized"@))
        })
    }

    open spec fn captures(&self, state: Seq<u8>) -> bool {
        state == self.data@
    }

    open spec fn restores(&self, state: Seq<u8>, after: Self, r: Verdict) -> bool {
        &&& after.data@ == state
        &&& after.is_initialized == (state.len() > 0)
        &&& r == Ok::<(), ErrorModel>(())
    }

    fn init(&mut self, wasm_data: &[u8]) -> (r: Result<(), WasmError>) {
        self.data = vstd::slice::slice_to_vec(wasm_data);
        self.is_initialized = true;
        Ok(())
    }

    fn run(&mut self) -> (r: Result<(), WasmError>) {
        if !self.is_initialized {
            return Err(WasmError::InstantiationError("Module not initialized".to_string()));
        }
        Ok(())
    }

    fn take_snapshot(&self) -> (state: Vec<u8>) {
        self.data.clone()
    }

    fn restore_from_snapshot(&mut self, snapshot: &[u8]) -> (r: Result<(), WasmError>) {
        self.data = vstd::slice::slice_to_vec(snapshot);
        self.is_initialized = self.data.len() > 0;
        Ok(())
    }
}

/// A module in a cell.
pub struct ModuleInstance<M: WasmModule> {
    pub cell_id: usize,
    pub status: CellStatus,
    pub module: M,
    pub memory: Vec<u8>,
}

impl<M: WasmModule> ModuleInstance<M> {
    /// A cell with a module that has not been set up.
    pub fn new(cell_id: usize, module: M) -> (r: Self)
        ensures
            r.cell_id == cell_id,
            r.status == CellStatus::Uninitialized,
            r.module == module,
            r.memory@ == Seq::<u8>::empty(),
    {
        ModuleInstance { cell_id, status: CellStatus::Uninitialized, module, memory: Vec::new() }
    }

    /// Sets the module up: the cell is running, or still loading if that
    /// fails.
    pub fn initialize(&mut self, wasm_data: &[u8]) -> (r: Result<(), WasmError>)
        ensures
            old(self).module.inits(wasm_data@, final(self).module, verdict(r)),
            final(self).status == (if r is Ok {
                CellStatus::Running
            } else {
                CellStatus::Loading
            }),
            final(self).cell_id == old(self).cell_id,
            final(self).memory == old(self).memory,
    {
        self.status = CellStatus::Loading;
        self.module.init(wasm_data)?;
        self.status = CellStatus::Running;
        Ok(())
    }

    /// Runs the module, if the cell is running.
    pub fn execute(&mut self) -> (r: Result<(), WasmError>)
        ensures
            if old(self).status == CellStatus::Running {
                old(self).module.runs(final(self).module, verdict(r))
            } else {
                &&& final(self).module == old(self).module
                &&& verdict(r) == Err::<(), ErrorModel>(
                    ErrorModel::InstantiationError("Cell not in Running state"@),
                )
            },
            final(self).cell_id == old(self).cell_id,
            final(self).status == old(self).status,
            final(self).memory == old(self).memory,
    {
        if self.status != CellStatus::Running {
            return Err(
                WasmError::InstantiationError("Cell not in Running state".to_string()),
            );
        }
        self.module.run()
    }

    /// Marks the cell as crashed and leaves the error in its memory.
    pub fn crash(&mut self, error: WasmError)
        ensures
            final(self).status == CellStatus::Crashed,
            final(self).memory@ == utf8::encode_utf8(crash_text(error@)),
            final(self).cell_id == old(self).cell_id,
            final(self).module == old(self).module,
    {
        self.status = CellStatus::Crashed;
        let quoted: String = text::debug_text(error.message());
        let msg: String = crash_message(&error, quoted.as_str());
        self.memory = vstd::slice::slice_to_vec(msg.as_str().as_bytes());
    }
}

/// Mathematical model of a cell with a simple module.
#[verifier::ext_equal]
pub struct CellModel {
    pub cell_id: usize,
    pub status: CellStatus,
    /// The binary that the module keeps.
    pub data: Seq<u8>,
    pub initialized: bool,
    pub memory: Seq<u8>,
}

/// Mathematical model of a [`ScrapBootManager`].
#[verifier::ext_equal]
pub struct ManagerModel {
    pub cells: Seq<Option<CellModel>>,
    pub mail: Seq<MailModel>,
    pub snapshots: Map<usize, SnapshotModel>,
}

/// The view of a cell.
pub open spec fn cell_view(c: Option<ModuleInstance<SimpleWasmModule>>) -> Option<CellModel> {
    match c {
        None => None,
        Some(i) => Some(
            CellModel {
                cell_id: i.cell_id,
                status: i.status,
                data: i.module.data@,
                initialized: i.module.is_initialized,
                memory: i.memory@,
            },
        ),
    }
}

/// The manager's cells, mail queue and snapshots.
pub struct ScrapBootManager {
    cells: [Option<ModuleInstance<SimpleWasmModule>>; 7],
    mail_queue: Vec<EmailMessage>,
    snapshots: BTreeMap<usize, CellSnapshot>,
}

impl View for ScrapBootManager {
    type V = ManagerModel;

    closed spec fn view(&self) -> ManagerModel {
        ManagerModel {
            cells: Seq::new(7, |i: int| cell_view(self.cells[i])),
            mail: types::views(self.mail_queue@),
            snapshots: self.snapshots@.map_values(|s: CellSnapshot| s@),
        }
    }
}

/// Commands of the rescue cell.
#[derive(Debug, Clone, Copy, PartialEq, Eq, Structural)]
pub enum RecoveryCommand {
    RestoreFromSnapshot,
    FullRestart,
    Halt,
}

/// Why booting failed.
#[derive(Debug, Clone, PartialEq, Eq)]
pub enum BootError {
    CellInitError(usize, WasmError),
    RescueCellNotRunning,
    InvalidConfig,
}

// ---- The operations on the model ----

/// No cell is loaded, no mail is waiting, nothing is kept.
pub open spec fn empty_manager() -> ManagerModel {
    ManagerModel {
        cells: Seq::new(7, |i: int| None),
        mail: seq![],
        snapshots: Map::empty(),
    }
}

/// The snapshot of a crashed cell.
pub open spec fn snapshot_of(id: usize, c: CellModel) -> SnapshotModel {
    SnapshotModel {
        cell_id: id,
        memory_state: c.memory,
        register_state: c.data,
        last_status: c.status,
        error_info: Some(text::lossy(c.memory)),
    }
}

/// Whether cell `id` exists and has crashed.
pub open spec fn is_crashed(m: ManagerModel, id: usize) -> bool {
    id < 7 && (m.cells[id as int] matches Some(c) && c.status == CellStatus::Crashed)
}

/// Keeping the state of cell `id`, if it has crashed.
pub open spec fn snapshot_taken(m: ManagerModel, id: usize) -> (ManagerModel, Option<SnapshotModel>) {
    if is_crashed(m, id) {
        let s = snapshot_of(id, m.cells[id as int]->0);
        (ManagerModel { snapshots: m.snapshots.insert(id, s), ..m }, Some(s))
    } else {
        (m, None)
    }
}

/// A cell brought back from a snapshot, ready to be started again.
pub open spec fn restored_cell(c: CellModel, s: SnapshotModel) -> CellModel {
    CellModel {
        status: CellStatus::Stopped,
        data: s.register_state,
        initialized: s.register_state.len() > 0,
        memory: s.memory_state,
        ..c
    }
}

/// The manager without the snapshot of cell `id`, which is brought back from
/// it. A snapshot is used up even if the cell is gone.
pub open spec fn snapshot_restored(m: ManagerModel, id: usize) -> (ManagerModel, Verdict) {
    let rest = ManagerModel { snapshots: m.snapshots.remove(id), ..m };
    if m.snapshots.contains_key(id) && m.cells[id as int] is Some {
        let c = restored_cell(m.cells[id as int]->0, m.snapshots[id]);
        (ManagerModel { cells: m.cells.update(id as int, Some(c)), ..rest }, Ok(()))
    } else {
        (rest, Err(ErrorModel::InstantiationError("No snapshot found"@)))
    }
}

/// A running cell with the given binary.
pub open spec fn loaded_cell(id: usize, data: Seq<u8>) -> CellModel {
    CellModel {
        cell_id: id,
        status: CellStatus::Running,
        data,
        initialized: true,
        memory: seq![],
    }
}

/// The manager with cell `id` loaded, replacing what was there.
pub open spec fn cell_loaded(m: ManagerModel, id: usize, data: Seq<u8>) -> (ManagerModel, Verdict) {
    if id >= 7 {
        (m, Err(ErrorModel::InstantiationError("Invalid cell ID"@)))
    } else {
        (
            ManagerModel {
                cells: m.cells.update(id as int, Some(loaded_cell(id, data))),
                ..m
            },
            Ok(()),
        )
    }
}

/// The manager after booting: the rescue cell, then the main cell.
pub open spec fn booted(m: ManagerModel, init: Seq<u8>, emergency: Seq<u8>) -> ManagerModel {
    cell_loaded(cell_loaded(m, RESCUE_CELL_ID, emergency).0, MAIN_CELL_ID, init).0
}

/// The report of a crash of the main cell.
pub open spec fn crash_report() -> MailModel {
    MailModel {
        from: MAIN_CELL_ID,
        to: RESCUE_CELL_ID,
        subject: "SYSTEM_CRASH"@,
        body: "CRASH_REPORT"@,
        high_priority: true,
    }
}

/// The manager with cell `id` marked as crashed, if it is loaded.
pub open spec fn crashed(m: ManagerModel, id: usize, e: ErrorModel) -> ManagerModel {
    match m.cells[id as int] {
        None => m,
        Some(c) => ManagerModel {
            cells: m.cells.update(
                id as int,
                Some(
                    CellModel {
                        status: CellStatus::Crashed,
                        memory: utf8::encode_utf8(crash_text(e)),
                        ..c
                    },
                ),
            ),
            ..m
        },
    }
}

/// The manager after a cell failed: the cell has crashed, its state is kept,
/// and a crash of the main cell is reported to the rescue cell.
pub open spec fn error_handled(m: ManagerModel, id: usize, e: ErrorModel) -> ManagerModel {
    let kept = snapshot_taken(crashed(m, id, e), id).0;
    if id == MAIN_CELL_ID {
        ManagerModel { mail: kept.mail.push(crash_report()), ..kept }
    } else {
        kept
    }
}

/// The command that a message holds: one from the rescue cell to the main
/// cell with a keyword in it.
pub open spec fn command_in(msg: MailModel) -> Option<RecoveryCommand> {
    if msg.from != RESCUE_CELL_ID || msg.to != MAIN_CELL_ID {
        None
    } else if text::occurs_in(msg.body, "RECOVER"@) {
        Some(RecoveryCommand::RestoreFromSnapshot)
    } else if text::occurs_in(msg.body, "RESTART"@) {
        Some(RecoveryCommand::FullRestart)
    } else if text::occurs_in(msg.body, "HALT"@) {
        Some(RecoveryCommand::Halt)
    } else {
        None
    }
}

/// The command of the first message that holds one.
pub open spec fn first_command(mail: Seq<MailModel>) -> Option<RecoveryCommand>
    decreases mail.len(),
{
    if mail.len() == 0 {
        None
    } else if command_in(mail[0]) is Some {
        command_in(mail[0])
    } else {
        first_command(mail.drop_first())
    }
}

/// The manager with the status of the main cell changed, if it is loaded.
pub open spec fn main_status(m: ManagerModel, status: CellStatus) -> ManagerModel {
    match m.cells[0] {
        None => m,
        Some(c) => ManagerModel {
            cells: m.cells.update(0, Some(CellModel { status, ..c })),
            ..m
        },
    }
}

/// The manager after a command of the rescue cell.
pub open spec fn recovered(m: ManagerModel, c: RecoveryCommand, init: Seq<u8>) -> (
    ManagerModel,
    Verdict,
) {
    match c {
        RecoveryCommand::RestoreFromSnapshot => {
            let (m2, r) = snapshot_restored(m, MAIN_CELL_ID);
            if r is Ok {
                (main_status(m2, CellStatus::Running), r)
            } else {
                (m2, r)
            }
        },
        RecoveryCommand::FullRestart => cell_loaded(m, MAIN_CELL_ID, init),
        RecoveryCommand::Halt => (main_status(m, CellStatus::Stopped), Ok(())),
    }
}

impl ScrapBootManager {
    /// Snapshots are kept of existing cells only.
    pub closed spec fn wf(&self) -> bool {
        forall|k: usize| #[trigger] self.snapshots@.contains_key(k) ==> k < 7
    }

    /// There are always seven cells.
    pub proof fn law_seven_cells(&self)
        ensures
            self@.cells.len() == 7,
    {
    }

    /// A manager without cells, mail or snapshots.
    pub fn new() -> (r: Self)
        ensures
            r.wf(),
            r@ == empty_manager(),
    {
        let r = ScrapBootManager {
            cells: [None, None, None, None, None, None, None],
            mail_queue: Vec::new(),
            snapshots: BTreeMap::new(),
        };
        assert(r@ =~= empty_manager());
        r
    }

    /// Empties all cells.
    pub fn init(&mut self)
        requires
            old(self).wf(),
        ensures
            final(self).wf(),
            final(self)@ == (ManagerModel { cells: empty_manager().cells, ..old(self)@ }),
    {
        self.cells = [None, None, None, None, None, None, None];
        assert(self@ =~= (ManagerModel { cells: empty_manager().cells, ..old(self)@ }));
    }

    /// Keeps the state of a crashed cell.
    pub fn snapshot_take(&mut self, cell_id: usize) -> (r: Option<CellSnapshot>)
        requires
            old(self).wf(),
        ensures
            final(self).wf(),
            final(self)@ == snapshot_taken(old(self)@, cell_id).0,
            match snapshot_taken(old(self)@, cell_id).1 {
                Some(s) => r matches Some(x) && x@ == s,
                None => r is None,
            },
            r matches Some(x) ==> (utf8::valid_utf8(x@.memory_state) ==> x@.error_info == Some(
                utf8::decode_utf8(x@.memory_state),
            )),
    {
        if cell_id >= CELL_COUNT {
            return None;
        }
        match &self.cells[cell_id] {
            None => None,
            Some(cell) => {
                if cell.status != CellStatus::Crashed {
                    return None;
                }
                let snapshot = CellSnapshot {
                    cell_id,
                    memory_state: cell.memory.clone(),
                    register_state: cell.module.take_snapshot(),
                    last_status: cell.status,
                    error_info: Some(text::lossy_text(cell.memory.as_slice())),
                };
                let ghost before = self.snapshots@;
                let kept = snapshot.clone();
                let ghost s = kept;
                self.snapshots.insert(cell_id, kept);
                proof {
                    assert(self.snapshots@ == before.insert(cell_id, s));
                    assert(self@ =~= snapshot_taken(old(self)@, cell_id).0);
                }
                Some(snapshot)
            },
        }
    }

    /// Brings a cell back from its snapshot.
    pub fn snapshot_restore(&mut self, cell_id: usize) -> (r: Result<(), WasmError>)
        requires
            old(self).wf(),
        ensures
            final(self).wf(),
            (final(self)@, verdict(r)) == snapshot_restored(old(self)@, cell_id),
    {
        if let Some(snapshot) = self.snapshots.remove(&cell_id) {
            if let Some(cell) = &mut self.cells[cell_id] {
                cell.module.restore_from_snapshot(snapshot.register_state.as_slice())?;
                cell.memory = snapshot.memory_state;
                cell.status = CellStatus::Stopped;
                assert(self@ =~= snapshot_restored(old(self)@, cell_id).0);
                return Ok(());
            }
        }
        assert(self@ =~= snapshot_restored(old(self)@, cell_id).0);
        Err(WasmError::InstantiationError("No snapshot found".to_string()))
    }

    /// Puts a message in the queue.
    pub fn send_email(&mut self, message: EmailMessage)
        requires
            old(self).wf(),
        ensures
            final(self).wf(),
            final(self)@ == (ManagerModel { mail: old(self)@.mail.push(message@), ..old(self)@ }),
    {
        proof {
            types::lemma_views_push(self.mail_queue@, message);
        }
        self.mail_queue.push(message);
        assert(self@ =~= (ManagerModel { mail: old(self)@.mail.push(message@), ..old(self)@ }));
    }

    /// The messages in the queue.
    pub fn get_mail_queue(&self) -> (r: &[EmailMessage])
        ensures
            types::views(r@) == self@.mail,
    {
        self.mail_queue.as_slice()
    }

    /// Removes the first `count` messages, if there are that many.
    pub fn clear_processed_mail(&mut self, count: usize)
        requires
            old(self).wf(),
        ensures
            final(self).wf(),
            final(self)@ == (if count <= old(self)@.mail.len() {
                ManagerModel {
                    mail: old(self)@.mail.subrange(count as int, old(self)@.mail.len() as int),
                    ..old(self)@
                }
            } else {
                old(self)@
            }),
    {
        if count <= self.mail_queue.len() {
            let ghost all = self.mail_queue@;
            let mut i: usize = 0;
            assert(all.subrange(0, all.len() as int) =~= all);
            while i < count
                invariant
                    i <= count <= all.len(),
                    self.mail_queue@ == all.subrange(i as int, all.len() as int),
                    self.cells == old(self).cells,
                    self.snapshots == old(self).snapshots,
                decreases count - i,
            {
                self.mail_queue.remove(0);
                i = i + 1;
                assert(self.mail_queue@ =~= all.subrange(i as int, all.len() as int));
            }
            assert(self@.mail =~= old(self)@.mail.subrange(
                count as int,
                old(self)@.mail.len() as int,
            ));
        }
    }

    /// The status of a cell, if it is loaded.
    pub fn get_cell_status(&self, cell_id: usize) -> (r: Option<CellStatus>)
        ensures
            r == (if cell_id < 7 {
                match self@.cells[cell_id as int] {
                    Some(c) => Some(c.status),
                    None => None,
                }
            } else {
                None
            }),
    {
        if cell_id >= CELL_COUNT {
            return None;
        }
        match &self.cells[cell_id] {
            Some(c) => Some(c.status),
            None => None,
        }
    }

    /// Whether a snapshot of a cell is kept.
    pub fn has_snapshot(&self, cell_id: usize) -> (r: bool)
        ensures
            r == self@.snapshots.contains_key(cell_id),
    {
        self.snapshots.contains_key(&cell_id)
    }

    /// Loads a binary into a cell.
    pub fn load_cell(&mut self, cell_id: usize, wasm_data: &[u8]) -> (r: Result<(), WasmError>)
        requires
            old(self).wf(),
        ensures
            final(self).wf(),
            (final(self)@, verdict(r)) == cell_loaded(old(self)@, cell_id, wasm_data@),
    {
        if cell_id >= CELL_COUNT {
            return Err(WasmError::InstantiationError("Invalid cell ID".to_string()));
        }
        let mut instance = ModuleInstance::new(cell_id, SimpleWasmModule::new());
        instance.initialize(wasm_data)?;
        self.cells[cell_id] = Some(instance);
        assert(self@ =~= cell_loaded(old(self)@, cell_id, wasm_data@).0);
        Ok(())
    }

    /// Boots the system from the binaries of the main and of the rescue cell:
    /// the rescue cell first, and the main cell only when that is running.
    pub fn bootstrap(&mut self, init_wasm: &[u8], emergency_wasm: &[u8]) -> (r: Result<
        (),
        BootError,
    >)
        requires
            old(self).wf(),
        ensures
            final(self).wf(),
            r is Ok,
            final(self)@ == booted(old(self)@, init_wasm@, emergency_wasm@),
    {
        if let Err(e) = self.load_cell(RESCUE_CELL_ID, emergency_wasm) {
            return Err(BootError::CellInitError(RESCUE_CELL_ID, e));
        }
        match self.get_cell_status(RESCUE_CELL_ID) {
            Some(CellStatus::Running) => {},
            _ => return Err(BootError::RescueCellNotRunning),
        }
        if let Err(e) = self.load_cell(MAIN_CELL_ID, init_wasm) {
            return Err(BootError::CellInitError(MAIN_CELL_ID, e));
        }
        Ok(())
    }

    /// Handles the failure of a cell.
    pub fn handle_cell_error(&mut self, cell_id: usize, error: WasmError)
        requires
            old(self).wf(),
            cell_id < 7,
        ensures
            final(self).wf(),
            final(self)@ == error_handled(old(self)@, cell_id, error@),
            old(self)@.cells[cell_id as int] is Some
                ==> final(self)@.snapshots[cell_id].error_info == Some(crash_text(error@)),
    {
        let ghost e = error@;
        if let Some(cell) = &mut self.cells[cell_id] {
            cell.crash(error);
        }
        assert(self@ =~= crashed(old(self)@, cell_id, e));
        proof {
            utf8::encode_utf8_valid_utf8(crash_text(e));
            utf8::encode_utf8_decode_utf8(crash_text(e));
        }
        let _kept: Option<CellSnapshot> = self.snapshot_take(cell_id);
        if cell_id == MAIN_CELL_ID {
            let report = EmailMessage::new(
                MAIN_CELL_ID,
                RESCUE_CELL_ID,
                "SYSTEM_CRASH",
                "CRASH_REPORT",
            ).high_priority();
            self.send_email(report);
        }
    }

    /// The command of the rescue cell that is waiting in the queue.
    pub fn check_recovery_command(&self) -> (r: Option<RecoveryCommand>)
        ensures
            r == first_command(self@.mail),
    {
        let mut i: usize = 0;
        let ghost all = self@.mail;
        assert(all.subrange(0, all.len() as int) =~= all);
        while i < self.mail_queue.len()
            invariant
                i <= self.mail_queue.len(),
                all == self@.mail,
                first_command(all) == first_command(all.subrange(i as int, all.len() as int)),
            decreases self.mail_queue.len() - i,
        {
            let msg = &self.mail_queue[i];
            proof {
                let rest = all.subrange(i as int, all.len() as int);
                assert(rest[0] == msg@);
                assert(rest.drop_first() =~= all.subrange(i + 1, all.len() as int));
            }
            if msg.from == RESCUE_CELL_ID && msg.to == MAIN_CELL_ID {
                if text::contains_text(msg.body.as_str(), "RECOVER") {
                    return Some(RecoveryCommand::RestoreFromSnapshot);
                } else if text::contains_text(msg.body.as_str(), "RESTART") {
                    return Some(RecoveryCommand::FullRestart);
                } else if text::contains_text(msg.body.as_str(), "HALT") {
                    return Some(RecoveryCommand::Halt);
                }
            }
            i = i + 1;
        }
        None
    }

    /// Carries out a command of the rescue cell; `init_wasm` is the binary of
    /// the main cell, for a full restart.
    pub fn execute_recovery(&mut self, command: RecoveryCommand, init_wasm: &[u8]) -> (r: Result<
        (),
        WasmError,
    >)
        requires
            old(self).wf(),
        ensures
            final(self).wf(),
            (final(self)@, verdict(r)) == recovered(old(self)@, command, init_wasm@),
    {
        match command {
            RecoveryCommand::RestoreFromSnapshot => {
                self.snapshot_restore(MAIN_CELL_ID)?;
                let ghost m = self@;
                if let Some(cell) = &mut self.cells[MAIN_CELL_ID] {
                    cell.status = CellStatus::Running;
                }
                assert(self@ =~= main_status(m, CellStatus::Running));
                Ok(())
            },
            RecoveryCommand::FullRestart => self.load_cell(MAIN_CELL_ID, init_wasm),
            RecoveryCommand::Halt => {
                if let Some(cell) = &mut self.cells[MAIN_CELL_ID] {
                    cell.status = CellStatus::Stopped;
                }
                assert(self@ =~= main_status(old(self)@, CellStatus::Stopped));
                Ok(())
            },
        }
    }
}

/// Puts a fresh manager in the slot that holds the manager of a thread.
pub fn global_init(slot: &mut Option<ScrapBootManager>)
    ensures
        *final(slot) matches Some(m) && m.wf() && m@ == empty_manager(),
{
    let mut manager = ScrapBootManager::new();
    manager.init();
    assert(manager@ =~= empty_manager());
    *slot = Some(manager);
}

/// The manager in a slot; an empty slot gets a fresh one first.
pub fn with_manager(slot: &mut Option<ScrapBootManager>) -> (r: &mut ScrapBootManager)
    ensures
        match *old(slot) {
            Some(m) => *r == m,
            None => r.wf() && r@ == empty_manager(),
        },
        *final(slot) == Some(*final(r)),
{
    if slot.is_none() {
        global_init(slot);
    }
    slot.as_mut().unwrap()
}

// ---- Laws ----

/// After booting, the rescue cell and the main cell are running with their
/// binaries; the other cells, the mail and the snapshots are as before.
pub proof fn law_booted(m: ManagerModel, init: Seq<u8>, emergency: Seq<u8>)
    requires
        m.cells.len() == 7,
    ensures
        ({
            let b = booted(m, init, emergency);
            &&& b.cells[RESCUE_CELL_ID as int] == Some(loaded_cell(RESCUE_CELL_ID, emergency))
            &&& b.cells[MAIN_CELL_ID as int] == Some(loaded_cell(MAIN_CELL_ID, init))
            &&& forall|i: int| 1 <= i < 6 ==> #[trigger] b.cells[i] == m.cells[i]
            &&& b.mail == m.mail
            &&& b.snapshots == m.snapshots
        }),
{
}

/// A loaded cell that fails has crashed, and a snapshot of it is kept; the
/// other cells and snapshots are as before.
pub proof fn law_crash_is_kept(m: ManagerModel, id: usize, e: ErrorModel)
    requires
        m.cells.len() == 7,
        id < 7,
        m.cells[id as int] is Some,
    ensures
        ({
            let h = error_handled(m, id, e);
            &&& h.cells[id as int] is Some
            &&& h.cells[id as int]->0.status == CellStatus::Crashed
            &&& h.snapshots.contains_key(id)
            &&& h.snapshots[id].register_state == m.cells[id as int]->0.data
            &&& h.snapshots[id].last_status == CellStatus::Crashed
            &&& forall|i: int| 0 <= i < 7 && i != id ==> #[trigger] h.cells[i] == m.cells[i]
            &&& h.snapshots.remove(id) == m.snapshots.remove(id)
        }),
{
    let h = error_handled(m, id, e);
    assert(h.snapshots.remove(id) =~= m.snapshots.remove(id));
}

/// A failure of the main cell, and of no other, is reported to the rescue
/// cell: by one more message at the end of the queue.
pub proof fn law_crash_report(m: ManagerModel, id: usize, e: ErrorModel)
    requires
        m.cells.len() == 7,
        id < 7,
    ensures
        error_handled(m, id, e).mail == (if id == MAIN_CELL_ID {
            m.mail.push(crash_report())
        } else {
            m.mail
        }),
{
}

/// A main cell that has failed is brought back by the rescue cell's command:
/// it runs again, with its binary, and its memory tells of the crash. The
/// snapshot is used up.
pub proof fn law_crash_then_restore(m: ManagerModel, e: ErrorModel, init: Seq<u8>)
    requires
        m.cells.len() == 7,
        m.cells[0] is Some,
    ensures
        ({
            let (r, v) = recovered(
                error_handled(m, MAIN_CELL_ID, e),
                RecoveryCommand::RestoreFromSnapshot,
                init,
            );
            let before = m.cells[0]->0;
            &&& v == Ok::<(), ErrorModel>(())
            &&& r.cells[0] == Some(
                CellModel {
                    status: CellStatus::Running,
                    initialized: before.data.len() > 0,
                    memory: utf8::encode_utf8(crash_text(e)),
                    ..before
                },
            )
            &&& !r.snapshots.contains_key(MAIN_CELL_ID)
        }),
{
}

/// Without a snapshot there is nothing to restore: the command fails and
/// changes nothing.
pub proof fn law_restore_needs_snapshot(m: ManagerModel, init: Seq<u8>)
    requires
        m.cells.len() == 7,
        !m.snapshots.contains_key(MAIN_CELL_ID),
    ensures
        recovered(m, RecoveryCommand::RestoreFromSnapshot, init) == (
            m,
            Err::<(), ErrorModel>(ErrorModel::InstantiationError("No snapshot found"@)),
        ),
{
    assert(m.snapshots.remove(MAIN_CELL_ID) =~= m.snapshots);
}

/// A full restart puts the main cell back to where booting leaves it, and a
/// halt stops it.
pub proof fn law_restart_and_halt(m: ManagerModel, init: Seq<u8>)
    requires
        m.cells.len() == 7,
    ensures
        recovered(m, RecoveryCommand::FullRestart, init).0.cells[0] == Some(
            loaded_cell(MAIN_CELL_ID, init),
        ),
        recovered(m, RecoveryCommand::Halt, init).0.cells[0] matches Some(c) ==> c.status
            == CellStatus::Stopped,
{
}

/// There are seven cells; the first is the main cell and the last the rescue
/// cell.
pub proof fn law_roles()
    ensures
        CELL_COUNT == 7,
        MAIN_CELL_ID == 0,
        RESCUE_CELL_ID == 6,
{
}

/// Loading leaves the cell running and initialized, with the binary and an
/// empty memory, and changes nothing else. There is no cell with a number
/// over six.
pub proof fn law_load_cell(m: ManagerModel, id: usize, data: Seq<u8>)
    requires
        m.cells.len() == 7,
    ensures
        id < 7 ==> {
            let (after, v) = cell_loaded(m, id, data);
            &&& v == Ok::<(), ErrorModel>(())
            &&& after.mail == m.mail
            &&& after.snapshots == m.snapshots
            &&& after.cells.len() == 7
            &&& forall|i: int| 0 <= i < 7 && i != id ==> #[trigger] after.cells[i] == m.cells[i]
            &&& after.cells[id as int] matches Some(c)
            &&& c.cell_id == id
            &&& c.status == CellStatus::Running
            &&& c.data == data
            &&& c.initialized
            &&& c.memory.len() == 0
        },
        id >= 7 ==> cell_loaded(m, id, data) == (
            m,
            Err::<(), ErrorModel>(ErrorModel::InstantiationError("Invalid cell ID"@)),
        ),
{
}

/// The message that a failure of the main cell sends comes from the main
/// cell, goes to the rescue cell, and is urgent.
pub proof fn law_crash_mail(m: ManagerModel, e: ErrorModel)
    requires
        m.cells.len() == 7,
    ensures
        ({
            let mail = error_handled(m, 0, e).mail;
            &&& mail.len() == m.mail.len() + 1
            &&& mail.drop_last() == m.mail
            &&& mail.last().from == 0
            &&& mail.last().to == 6
            &&& mail.last().subject == "SYSTEM_CRASH"@
            &&& mail.last().body == "CRASH_REPORT"@
            &&& mail.last().high_priority
        }),
{
    assert(error_handled(m, 0, e).mail.drop_last() =~= m.mail);
}

/// Whether `text` names the kind of the error and quotes its message.
pub open spec fn tells(text: Seq<char>, e: ErrorModel) -> bool {
    match e {
        ErrorModel::CompileError(s) => text == "CRASH: "@ + ("CompileError("@ + text::str_debug(s)
            + ")"@),
        ErrorModel::InstantiationError(s) => text == "CRASH: "@ + ("InstantiationError("@
            + text::str_debug(s) + ")"@),
        ErrorModel::Trap(s) => text == "CRASH: "@ + ("Trap("@ + text::str_debug(s) + ")"@),
        ErrorModel::HostError(s) => text == "CRASH: "@ + ("HostError("@ + text::str_debug(s)
            + ")"@),
    }
}

/// A cell that fails keeps its number and its binary, and its memory tells
/// of the error. The snapshot holds the memory, the binary and the number.
pub proof fn law_crash_recorded(m: ManagerModel, id: usize, e: ErrorModel)
    requires
        m.cells.len() == 7,
        id < 7,
        m.cells[id as int] is Some,
    ensures
        ({
            let before = m.cells[id as int]->0;
            let h = error_handled(m, id, e);
            let c = h.cells[id as int]->0;
            let s = h.snapshots[id];
            &&& c.cell_id == before.cell_id
            &&& c.data == before.data
            &&& c.initialized == before.initialized
            &&& c.status == CellStatus::Crashed
            &&& tells(utf8::decode_utf8(c.memory), e)
            &&& s.cell_id == id
            &&& s.memory_state == c.memory
            &&& s.register_state == before.data
            &&& s.last_status == CellStatus::Crashed
            &&& s.error_info == Some(text::lossy(c.memory))
        }),
{
    utf8::encode_utf8_decode_utf8(crash_text(e));
}

/// An error in a cell that is not loaded leaves the cells and the snapshots
/// as they are.
pub proof fn law_crash_of_nothing(m: ManagerModel, id: usize, e: ErrorModel)
    requires
        m.cells.len() == 7,
        id < 7,
        m.cells[id as int] is None,
    ensures
        error_handled(m, id, e).cells == m.cells,
        error_handled(m, id, e).snapshots == m.snapshots,
{
}

/// A snapshot is taken of a crashed cell and of no other.
pub proof fn law_snapshot(m: ManagerModel, id: usize)
    requires
        m.cells.len() == 7,
    ensures
        id < 7 && (m.cells[id as int] matches Some(c) && c.status == CellStatus::Crashed) ==> {
            let c = m.cells[id as int]->0;
            let (after, r) = snapshot_taken(m, id);
            &&& after.cells == m.cells
            &&& after.mail == m.mail
            &&& r is Some
            &&& after.snapshots == m.snapshots.insert(id, r->0)
            &&& r->0.cell_id == id
            &&& r->0.memory_state == c.memory
            &&& r->0.register_state == c.data
            &&& r->0.last_status == CellStatus::Crashed
        },
        id >= 7 || m.cells[id as int] is None || m.cells[id as int]->0.status
            != CellStatus::Crashed ==> snapshot_taken(m, id) == (m, None::<SnapshotModel>),
{
}

/// Restoring puts the binary and the memory of the snapshot back into the
/// cell and leaves it stopped. The snapshot is used up, whether or not there
/// is a cell for it.
pub proof fn law_restore(m: ManagerModel, id: usize)
    requires
        m.cells.len() == 7,
        id < 7,
    ensures
        ({
            let (after, v) = snapshot_restored(m, id);
            &&& after.mail == m.mail
            &&& after.snapshots == m.snapshots.remove(id)
            &&& forall|i: int| 0 <= i < 7 && i != id ==> #[trigger] after.cells[i] == m.cells[i]
            &&& if m.snapshots.contains_key(id) && m.cells[id as int] is Some {
                let s = m.snapshots[id];
                v == Ok::<(), ErrorModel>(()) && (after.cells[id as int] matches Some(c)
                    && c.cell_id == m.cells[id as int]->0.cell_id && c.status == CellStatus::Stopped
                    && c.data == s.register_state && c.memory == s.memory_state && c.initialized
                    == (s.register_state.len() > 0))
            } else {
                after.cells == m.cells && v == Err::<(), ErrorModel>(
                    ErrorModel::InstantiationError("No snapshot found"@),
                )
            }
        }),
{
}

/// Only mail from the rescue cell to the main cell is a command. The words
/// are looked for in the order RECOVER, RESTART, HALT.
pub proof fn law_command(msg: MailModel)
    ensures
        !(msg.from == 6 && msg.to == 0) ==> command_in(msg) is None,
        msg.from == 6 && msg.to == 0 && text::occurs_in(msg.body, "RECOVER"@) ==> command_in(msg)
            == Some(RecoveryCommand::RestoreFromSnapshot),
        msg.from == 6 && msg.to == 0 && !text::occurs_in(msg.body, "RECOVER"@) && text::occurs_in(
            msg.body,
            "RESTART"@,
        ) ==> command_in(msg) == Some(RecoveryCommand::FullRestart),
        msg.from == 6 && msg.to == 0 && !text::occurs_in(msg.body, "RECOVER"@) && !text::occurs_in(
            msg.body,
            "RESTART"@,
        ) && text::occurs_in(msg.body, "HALT"@) ==> command_in(msg) == Some(RecoveryCommand::Halt),
        !text::occurs_in(msg.body, "RECOVER"@) && !text::occurs_in(msg.body, "RESTART"@)
            && !text::occurs_in(msg.body, "HALT"@) ==> command_in(msg) is None,
{
}

/// The command in the queue is that of the first message that is one.
pub proof fn law_first_command(mail: Seq<MailModel>)
    ensures
        match first_command(mail) {
            Some(c) => exists|i: int|
                0 <= i < mail.len() && command_in(#[trigger] mail[i]) == Some(c) && forall|j: int|
                    0 <= j < i ==> command_in(#[trigger] mail[j]) is None,
            None => forall|i: int| 0 <= i < mail.len() ==> command_in(#[trigger] mail[i]) is None,
        },
    decreases mail.len(),
{
    if mail.len() > 0 && command_in(mail[0]) is None {
        let rest = mail.drop_first();
        law_first_command(rest);
        assert(forall|j: int| 0 <= j < rest.len() ==> rest[j] == mail[j + 1]);
        assert(forall|j: int| 0 < j < mail.len() ==> mail[j] == rest[j - 1]);
        if let Some(c) = first_command(rest) {
            let i = choose|i: int|
                0 <= i < rest.len() && command_in(#[trigger] rest[i]) == Some(c) && forall|j: int|
                    0 <= j < i ==> command_in(#[trigger] rest[j]) is None;
            assert(command_in(mail[i + 1]) == Some(c));
        }
    }
}

/// A halt stops the main cell and changes nothing else of it, and a restored
/// main cell runs; both leave the other cells and the mail as they are.
pub proof fn law_recovery(m: ManagerModel, init: Seq<u8>)
    requires
        m.cells.len() == 7,
    ensures
        ({
            let (after, v) = recovered(m, RecoveryCommand::Halt, init);
            &&& v == Ok::<(), ErrorModel>(())
            &&& after.mail == m.mail
            &&& after.snapshots == m.snapshots
            &&& forall|i: int| 1 <= i < 7 ==> #[trigger] after.cells[i] == m.cells[i]
            &&& match m.cells[0] {
                None => after.cells[0] is None,
                Some(b) => after.cells[0] == Some(CellModel { status: CellStatus::Stopped, ..b }),
            }
        }),
        ({
            let (after, v) = recovered(m, RecoveryCommand::RestoreFromSnapshot, init);
            &&& after.mail == m.mail
            &&& forall|i: int| 1 <= i < 7 ==> #[trigger] after.cells[i] == m.cells[i]
            &&& v is Ok ==> m.snapshots.contains_key(0) && (after.cells[0] matches Some(c)
                && c.status == CellStatus::Running && c.data == m.snapshots[0].register_state
                && c.memory == m.snapshots[0].memory_state)
        }),
        recovered(m, RecoveryCommand::FullRestart, init) == cell_loaded(m, 0, init),
{
}

/// A simple module that is set up keeps its binary and can run. The state
/// that it gives brings any module back to the same binary; one that was
/// never set up, or has nothing to keep, cannot run.
pub proof fn law_simple_module(
    a: SimpleWasmModule,
    b: SimpleWasmModule,
    c: SimpleWasmModule,
    data: Seq<u8>,
    state: Seq<u8>,
    r: Verdict,
)
    ensures
        a.inits(data, b, r) ==> r == Ok::<(), ErrorModel>(()) && b.is_initialized && b.data@ == data,
        a.captures(state) && b.restores(state, c, r) ==> r == Ok::<(), ErrorModel>(()) && c.data@
            == a.data@ && c.is_initialized == (a.data@.len() > 0),
        a.runs(b, r) ==> b == a && (a.is_initialized ==> r == Ok::<(), ErrorModel>(())) && (
        !a.is_initialized ==> r == Err::<(), ErrorModel>(
            ErrorModel::InstantiationError("Module not initialized"@),
        )),
{
}

} // verus!
