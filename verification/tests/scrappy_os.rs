use scrappy::scrappy_os::{
    bootstrap, handle_cell_error, run_round, snapshot_restore, snapshot_take, CellId, CellSnapshot,
    CellStatus, EmailMessage, HealthMonitor, KernelMailbox, ModuleInstance, ScrappyWasmRunner,
    WasmError, CELL_TIMEOUT_MS,
};

const INIT_WASM: [u8; 8] = [0x00, 0x61, 0x73, 0x6D, 0x01, 0x00, 0x00, 0x00];
const EMERGENCY_WASM: [u8; 8] = [0x00, 0x61, 0x73, 0x6D, 0x01, 0x00, 0x00, 0x00];
const EMERGENCY: CellId = CellId(CellId::EMERGENCY);
const MAIN: CellId = CellId(CellId::MAIN);

#[test]
fn lib_test_bootstrap_sequence() {
    let mut runner = ScrappyWasmRunner::new();
    let mut mailbox = KernelMailbox::new();

    assert!(bootstrap(&mut runner, &mut mailbox, &INIT_WASM, &EMERGENCY_WASM).is_ok());
    assert_eq!(runner.get_status(EMERGENCY), CellStatus::Running);
    assert_eq!(runner.get_status(MAIN), CellStatus::Running);
}

#[test]
fn lib_test_snapshot_system() {
    let mut runner = ScrappyWasmRunner::new();
    let mut mailbox = KernelMailbox::new();

    bootstrap(&mut runner, &mut mailbox, &INIT_WASM, &EMERGENCY_WASM).unwrap();

    let snapshot = snapshot_take(MAIN, &mut runner).unwrap();
    assert_eq!(snapshot.cell_id, MAIN);

    if let Some(instance) = runner.get_instance(MAIN) {
        instance.memory[0] = 0x42;
        instance.globals[0] = 12345;
    }

    snapshot_restore(MAIN, &snapshot, &mut runner).unwrap();

    if let Some(instance) = runner.get_instance(MAIN) {
        assert_eq!(instance.memory[0], 0);
        assert_eq!(instance.globals[0], 0);
    }
}

#[test]
fn test_error_handling() {
    let mut runner = ScrappyWasmRunner::new();
    let mut mailbox = KernelMailbox::new();

    bootstrap(&mut runner, &mut mailbox, &INIT_WASM, &EMERGENCY_WASM).unwrap();

    let error = WasmError::RuntimeError("Test error".to_string());
    handle_cell_error(MAIN, &error, &mut runner, &mut mailbox);

    assert_eq!(runner.get_status(MAIN), CellStatus::Stopped);

    let messages = mailbox.receive_for(EMERGENCY);
    assert!(!messages.is_empty());
    assert!(messages[0].body.contains("CRASH_REPORT"));
}

fn booted() -> (ScrappyWasmRunner, KernelMailbox) {
    let mut runner = ScrappyWasmRunner::new();
    let mut mailbox = KernelMailbox::new();
    assert!(bootstrap(&mut runner, &mut mailbox, &INIT_WASM, &EMERGENCY_WASM).is_ok());
    (runner, mailbox)
}

#[test]
fn boot_needs_both_binaries() {
    let mut runner = ScrappyWasmRunner::default();
    let mut mailbox = KernelMailbox::default();
    let r = bootstrap(&mut runner, &mut mailbox, &INIT_WASM, &[]);
    assert!(matches!(r, Err(WasmError::LoadError(ref s)) if s == "Empty WASM"));
    assert_eq!(runner.get_status(EMERGENCY), CellStatus::Uninitialized);
    let r = bootstrap(&mut runner, &mut mailbox, &[], &EMERGENCY_WASM);
    assert!(matches!(r, Err(WasmError::LoadError(_))));
    assert_eq!(runner.get_status(EMERGENCY), CellStatus::Running);
    assert_eq!(runner.get_status(MAIN), CellStatus::Uninitialized);
}

#[test]
fn cells_are_loaded_started_and_stopped() {
    let mut runner = ScrappyWasmRunner::new();
    let c = CellId(2);
    assert!(matches!(
        runner.start(c),
        Err(WasmError::RuntimeError(ref s)) if s == "Cell not loaded"
    ));
    assert!(matches!(
        runner.execute_quantum(c, 5),
        Err(WasmError::RuntimeError(ref s)) if s == "Cell not found"
    ));
    let long = vec![7u8; 2000];
    assert!(runner.load(&long, c, ()).is_ok());
    assert_eq!(runner.get_status(c), CellStatus::Loading);
    assert!(matches!(
        runner.execute_quantum(c, 5),
        Err(WasmError::RuntimeError(ref s)) if s == "Cell not running"
    ));
    match runner.get_instance(c) {
        Some(i) => {
            assert_eq!(i.memory, vec![7u8; 1024]);
            assert_eq!(i.globals, vec![0i64; 16]);
        }
        None => panic!("empty"),
    }
    assert!(runner.start(c).is_ok());
    assert!(runner.execute_quantum(c, 5).is_ok());
    runner.stop_cell(c);
    assert_eq!(runner.get_status(c), CellStatus::Stopped);
    runner.stop_cell(CellId(3));
    assert_eq!(runner.get_status(CellId(3)), CellStatus::Uninitialized);
    runner.set_instance(CellId(3), ModuleInstance::new());
    assert!(runner.get_instance(CellId(3)).is_some());
    assert!(runner.get_instance(CellId(4)).is_none());
}

#[test]
fn errors_are_shown() {
    assert_eq!(WasmError::LoadError("a".to_string()).text(), "LoadError: a");
    assert_eq!(WasmError::RuntimeError("b".to_string()).text(), "RuntimeError: b");
    assert_eq!(WasmError::Timeout.text(), "Timeout");
    assert_eq!(WasmError::MemoryError.text(), "MemoryError");
}

#[test]
fn reports_name_the_error() {
    let cases = [
        (WasmError::LoadError("a".to_string()), "LOAD_ERR: a"),
        (WasmError::RuntimeError("b".to_string()), "RUN_ERR: b"),
        (WasmError::Timeout, "TIMEOUT"),
        (WasmError::MemoryError, "MEM_ERR"),
    ];
    for (e, code) in cases {
        let (mut runner, mut mailbox) = booted();
        handle_cell_error(MAIN, &e, &mut runner, &mut mailbox);
        handle_cell_error(CellId(5), &e, &mut runner, &mut mailbox);
        let m = mailbox.receive_for(EMERGENCY);
        assert_eq!(m.len(), 2);
        assert_eq!(m[0].from, MAIN);
        assert_eq!(m[0].subject, "SYSTEM_CRASH");
        assert_eq!(
            m[0].body,
            format!("CRASH_REPORT\nCell: 0\nError: {}\nSnapshot: SAVED", code)
        );
        assert_eq!(
            m[1].body,
            format!("CRASH_REPORT\nCell: 5\nError: {}\nSnapshot: FAILED", code)
        );
    }
}

#[test]
fn mail_is_received_in_order_and_once() {
    let mut mailbox = KernelMailbox::new();
    for (to, body) in [(1, "a"), (2, "b"), (1, "c"), (3, "d"), (1, "e")] {
        mailbox.send(EmailMessage::new(CellId(0), CellId(to), "s", body));
    }
    let got: Vec<String> =
        mailbox.receive_for(CellId(1)).into_iter().map(|m| m.body).collect();
    assert_eq!(got, vec!["a", "c", "e"]);
    assert!(mailbox.receive_for(CellId(1)).is_empty());
    assert_eq!(mailbox.receive_for(CellId(2))[0].body, "b");
    mailbox.send(EmailMessage::new(CellId(0), EMERGENCY, "s", "x"));
    let mut runner = ScrappyWasmRunner::new();
    mailbox.process_pending_commands(&mut runner);
    assert!(mailbox.receive_for(EMERGENCY).is_empty());
    assert_eq!(mailbox.receive_for(CellId(3))[0].body, "d");
}

#[test]
fn snapshots_fill_empty_cells() {
    let mut runner = ScrappyWasmRunner::new();
    assert!(matches!(snapshot_take(MAIN, &mut runner), Err(WasmError::MemoryError)));
    let mut i = ModuleInstance::new();
    i.memory[3] = 9;
    i.globals[1] = -4;
    i.status = CellStatus::Crashed;
    let s = CellSnapshot::take(CellId(1), &i);
    assert_eq!(s.last_status, CellStatus::Crashed);
    assert_eq!(s.timestamp, 0);
    assert!(snapshot_restore(CellId(4), &s, &mut runner).is_ok());
    assert_eq!(runner.get_status(CellId(4)), CellStatus::Running);
    match runner.get_instance(CellId(4)) {
        Some(i) => assert_eq!((i.memory[3], i.globals[1]), (9, -4)),
        None => panic!("empty"),
    }
}

#[test]
fn the_watchdog_restores_silent_cells() {
    let (mut runner, mut mailbox) = booted();
    let mut monitor = HealthMonitor::default();
    monitor.tick(&mut runner, CELL_TIMEOUT_MS, &mut mailbox);
    assert!(mailbox.receive_for(EMERGENCY).is_empty());
    let late = CELL_TIMEOUT_MS + 1;
    monitor.tick(&mut runner, late, &mut mailbox);
    let m = mailbox.receive_for(EMERGENCY);
    assert_eq!(m.len(), 1);
    assert_eq!(m[0].from, MAIN);
    assert_eq!(m[0].subject, "WATCHDOG_ALERT");
    assert_eq!(m[0].body, "CRASH_REPORT\nCell: 0\nReason: WATCHDOG_TIMEOUT");
    if let Some(i) = runner.get_instance(MAIN) {
        i.memory[0] = 0x55;
    }
    monitor.tick(&mut runner, late + CELL_TIMEOUT_MS, &mut mailbox);
    assert!(mailbox.receive_for(EMERGENCY).is_empty());
    monitor.tick(&mut runner, late + CELL_TIMEOUT_MS + 1, &mut mailbox);
    assert_eq!(mailbox.receive_for(EMERGENCY).len(), 1);
    match runner.get_instance(MAIN) {
        Some(i) => assert_eq!(i.memory[0], 0),
        None => panic!("empty"),
    }
    assert_eq!(runner.get_status(MAIN), CellStatus::Running);
}

#[test]
fn heartbeats_keep_the_watchdog_quiet() {
    let (mut runner, mut mailbox) = booted();
    let mut monitor = HealthMonitor::new();
    monitor.record_heartbeat(0, 9000);
    monitor.record_heartbeat(9, 9000);
    monitor.tick(&mut runner, 10_000, &mut mailbox);
    assert!(mailbox.receive_for(EMERGENCY).is_empty());
}

#[test]
fn a_round_hears_of_every_cell() {
    let (mut runner, mut mailbox) = booted();
    let mut monitor = HealthMonitor::new();
    mailbox.send(EmailMessage::new(MAIN, EMERGENCY, "s", "x"));
    mailbox.send(EmailMessage::new(MAIN, CellId(1), "s", "y"));
    run_round(&mut runner, &mut mailbox, &mut monitor, 1_000_000);
    assert_eq!(runner.get_status(MAIN), CellStatus::Running);
    assert!(mailbox.receive_for(EMERGENCY).is_empty());
    assert_eq!(mailbox.receive_for(CellId(1)).len(), 1);
    monitor.tick(&mut runner, 1_005_000, &mut mailbox);
    assert!(mailbox.receive_for(EMERGENCY).is_empty());
}
