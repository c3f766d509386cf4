use scrappy::scrapboot::{
    crash_message, global_init, with_manager, CellStatus, EmailMessage, ModuleInstance, RecoveryCommand,
    ScrapBootManager, SimpleWasmModule, WasmError, WasmModule, CELL_COUNT, MAIN_CELL_ID,
    RESCUE_CELL_ID,
};

const INIT_WASM: [u8; 8] = [0x00, 0x61, 0x73, 0x6D, 0x01, 0x00, 0x00, 0x00];
const EMERGENCY_WASM: [u8; 8] = [0x00, 0x61, 0x73, 0x6D, 0x01, 0x00, 0x00, 0x00];

#[test]
fn test_bootstrap_sequence() {
    let mut manager = ScrapBootManager::new();
    manager.init();

    let result = manager.bootstrap(&INIT_WASM, &EMERGENCY_WASM);
    assert!(result.is_ok());

    assert_eq!(manager.get_cell_status(RESCUE_CELL_ID), Some(CellStatus::Running));
    assert_eq!(manager.get_cell_status(MAIN_CELL_ID), Some(CellStatus::Running));
}

#[test]
fn test_snapshot_system() {
    let mut manager = ScrapBootManager::new();
    manager.init();

    let test_wasm = b"test_wasm_data";
    manager.load_cell(1, test_wasm).unwrap();

    manager.handle_cell_error(1, WasmError::Trap(String::from("Test trap")));

    assert!(manager.has_snapshot(1));
}

#[test]
fn test_email_on_crash() {
    let mut manager = ScrapBootManager::new();
    manager.init();
    manager.bootstrap(&INIT_WASM, &EMERGENCY_WASM).unwrap();

    manager.handle_cell_error(MAIN_CELL_ID, WasmError::Trap(String::from("Critical error")));

    let mail_queue = manager.get_mail_queue();
    assert!(!mail_queue.is_empty());

    let crash_email = &mail_queue[0];
    assert_eq!(crash_email.from, MAIN_CELL_ID);
    assert_eq!(crash_email.to, RESCUE_CELL_ID);
    assert_eq!(crash_email.body, "CRASH_REPORT");
    assert!(crash_email.high_priority);
}

fn booted() -> ScrapBootManager {
    let mut manager = ScrapBootManager::new();
    manager.init();
    assert!(manager.bootstrap(&INIT_WASM, &EMERGENCY_WASM).is_ok());
    manager
}

fn command(body: &str) -> EmailMessage {
    EmailMessage::new(RESCUE_CELL_ID, MAIN_CELL_ID, "COMMAND", body)
}

#[test]
fn a_crash_is_kept_with_its_message() {
    let mut manager = booted();
    manager.handle_cell_error(1, WasmError::HostError(String::from("gone")));
    assert!(!manager.has_snapshot(1));
    assert!(manager.get_mail_queue().is_empty());
    assert!(manager.load_cell(1, b"abc").is_ok());
    manager.handle_cell_error(1, WasmError::Trap(String::from("a\"b\n")));
    assert_eq!(manager.get_cell_status(1), Some(CellStatus::Crashed));
    let s = match manager.snapshot_take(1) {
        Some(s) => s,
        None => panic!("no snapshot"),
    };
    assert_eq!(s.cell_id, 1);
    assert_eq!(s.register_state, b"abc".to_vec());
    assert_eq!(s.last_status, CellStatus::Crashed);
    assert_eq!(s.memory_state, b"CRASH: Trap(\"a\\\"b\\n\")".to_vec());
    assert_eq!(s.error_info, Some(String::from("CRASH: Trap(\"a\\\"b\\n\")")));
    assert!(manager.get_mail_queue().is_empty());
}

#[test]
fn every_error_is_named_in_the_memory() {
    let cases = [
        (WasmError::CompileError(String::from("x")), "CRASH: CompileError(\"x\")"),
        (WasmError::InstantiationError(String::from("x")), "CRASH: InstantiationError(\"x\")"),
        (WasmError::HostError(String::from("\u{44F}")), "CRASH: HostError(\"\u{44F}\")"),
    ];
    for (e, text) in cases {
        let mut i = ModuleInstance::new(4, SimpleWasmModule::new());
        i.crash(e);
        assert_eq!(i.status, CellStatus::Crashed);
        assert_eq!(i.memory, text.as_bytes().to_vec());
    }
}

#[test]
fn crash_messages_quote_the_error() {
    let e = WasmError::Trap(String::from("t"));
    assert_eq!(e.message(), "t");
    assert_eq!(crash_message(&e, "\"t\""), "CRASH: Trap(\"t\")");
    let e = WasmError::HostError(String::from("t"));
    assert_eq!(crash_message(&e, "?"), "CRASH: HostError(?)");
}

#[test]
fn only_crashed_cells_are_kept() {
    let mut manager = booted();
    assert!(manager.snapshot_take(MAIN_CELL_ID).is_none());
    assert!(manager.snapshot_take(CELL_COUNT).is_none());
    assert!(manager.snapshot_take(3).is_none());
}

#[test]
fn the_rescue_cell_restores_the_main_cell() {
    let mut manager = booted();
    manager.handle_cell_error(MAIN_CELL_ID, WasmError::Trap(String::from("t")));
    assert_eq!(manager.check_recovery_command(), None);
    manager.send_email(command("please RECOVER or RESTART"));
    assert_eq!(manager.check_recovery_command(), Some(RecoveryCommand::RestoreFromSnapshot));
    assert!(manager.execute_recovery(RecoveryCommand::RestoreFromSnapshot, &INIT_WASM).is_ok());
    assert_eq!(manager.get_cell_status(MAIN_CELL_ID), Some(CellStatus::Running));
    assert!(!manager.has_snapshot(MAIN_CELL_ID));
    assert_eq!(
        manager.execute_recovery(RecoveryCommand::RestoreFromSnapshot, &INIT_WASM),
        Err(WasmError::InstantiationError(String::from("No snapshot found")))
    );
    manager.clear_processed_mail(5);
    assert_eq!(manager.get_mail_queue().len(), 2);
    manager.clear_processed_mail(1);
    assert_eq!(manager.get_mail_queue()[0].body, "please RECOVER or RESTART");
    manager.clear_processed_mail(1);
    assert!(manager.get_mail_queue().is_empty());
}

#[test]
fn a_snapshot_restores_a_stopped_cell() {
    let mut manager = booted();
    assert!(manager.load_cell(2, b"xyz").is_ok());
    manager.handle_cell_error(2, WasmError::Trap(String::from("t")));
    assert!(manager.snapshot_restore(2).is_ok());
    assert_eq!(manager.get_cell_status(2), Some(CellStatus::Stopped));
    assert!(manager.snapshot_restore(2).is_err());
    assert!(manager.snapshot_restore(100).is_err());
}

#[test]
fn commands_are_found_by_keyword() {
    let mut manager = booted();
    manager.send_email(EmailMessage::new(1, MAIN_CELL_ID, "COMMAND", "HALT"));
    manager.send_email(EmailMessage::new(RESCUE_CELL_ID, 1, "COMMAND", "HALT"));
    manager.send_email(command("wait"));
    manager.send_email(command("RESTAR"));
    assert_eq!(manager.check_recovery_command(), None);
    manager.send_email(command("now RESTART, not HALT"));
    manager.send_email(command("HALT"));
    assert_eq!(manager.check_recovery_command(), Some(RecoveryCommand::FullRestart));
    manager.clear_processed_mail(5);
    assert_eq!(manager.check_recovery_command(), Some(RecoveryCommand::Halt));
}

#[test]
fn restart_and_halt() {
    let mut manager = booted();
    assert!(manager.execute_recovery(RecoveryCommand::Halt, &INIT_WASM).is_ok());
    assert_eq!(manager.get_cell_status(MAIN_CELL_ID), Some(CellStatus::Stopped));
    assert!(manager.execute_recovery(RecoveryCommand::FullRestart, &INIT_WASM).is_ok());
    assert_eq!(manager.get_cell_status(MAIN_CELL_ID), Some(CellStatus::Running));
    manager.init();
    assert_eq!(manager.get_cell_status(MAIN_CELL_ID), None);
    assert_eq!(manager.get_cell_status(CELL_COUNT), None);
    assert!(manager.execute_recovery(RecoveryCommand::Halt, &INIT_WASM).is_ok());
    assert_eq!(manager.get_cell_status(MAIN_CELL_ID), None);
    assert_eq!(
        manager.load_cell(7, b"x"),
        Err(WasmError::InstantiationError(String::from("Invalid cell ID")))
    );
}

#[test]
fn modules_must_be_set_up() {
    let mut m = SimpleWasmModule::new();
    assert_eq!(
        m.run(),
        Err(WasmError::InstantiationError(String::from("Module not initialized")))
    );
    assert!(m.init(b"ab").is_ok());
    assert!(m.run().is_ok());
    assert_eq!(m.take_snapshot(), b"ab".to_vec());
    assert!(m.restore_from_snapshot(b"").is_ok());
    assert!(m.run().is_err());
    let mut i = ModuleInstance::new(3, m);
    assert_eq!(i.status, CellStatus::Uninitialized);
    assert_eq!(
        i.execute(),
        Err(WasmError::InstantiationError(String::from("Cell not in Running state")))
    );
    assert!(i.initialize(b"cd").is_ok());
    assert_eq!(i.status, CellStatus::Running);
    assert!(i.execute().is_ok());
}

struct Broken;

impl WasmModule for Broken {
    fn init(&mut self, _wasm_data: &[u8]) -> Result<(), WasmError> {
        Err(WasmError::CompileError(String::from("no")))
    }

    fn run(&mut self) -> Result<(), WasmError> {
        Ok(())
    }

    fn take_snapshot(&self) -> Vec<u8> {
        Vec::new()
    }

    fn restore_from_snapshot(&mut self, _snapshot: &[u8]) -> Result<(), WasmError> {
        Ok(())
    }
}

#[test]
fn a_module_that_fails_stays_loading() {
    let mut i = ModuleInstance::new(0, Broken);
    assert_eq!(i.initialize(b""), Err(WasmError::CompileError(String::from("no"))));
    assert_eq!(i.status, CellStatus::Loading);
}

#[test]
fn the_shared_manager_is_created_on_demand() {
    let mut slot = None;
    assert!(with_manager(&mut slot).load_cell(1, b"x").is_ok());
    assert_eq!(with_manager(&mut slot).get_cell_status(1), Some(CellStatus::Running));
    global_init(&mut slot);
    assert_eq!(with_manager(&mut slot).get_cell_status(1), None);
}

#[test]
fn priority_is_kept() {
    let m = EmailMessage::new(1, 2, "s", "b");
    assert!(!m.high_priority);
    let m = m.high_priority();
    assert!(m.high_priority);
    assert_eq!((m.from, m.to, m.subject.as_str(), m.body.as_str()), (1, 2, "s", "b"));
}
