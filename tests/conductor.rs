use c_transpile_kernel::conductor::{record_outcome, should_dispatch, TaskBoard, TaskState, UnitOutcome};
use c_transpile_kernel::oracle::{LlmClient, MockLlmClient, Verifier};
use c_transpile_kernel::unit::AtomicUnit;

fn s(x: &str) -> String {
    x.to_string()
}

#[test]
fn conductor_failure_path() {
    let mut board = TaskBoard::new();
    let id = s("f");
    assert!(board.begin_unit(&id, false));
    assert_eq!(board.get_task_state(&id), Some(TaskState::InProgress));
    let stderr = s("error[E0425]: cannot find value `y`");
    board.finish_unit(&id, UnitOutcome::VerifyFailed(s("fn f() { y }"), Verifier::failure_message(&stderr)));
    let row = board.row(&id).unwrap();
    assert_eq!(row.state, TaskState::Failed);
    assert_eq!(row.state.as_db_str(), "FAILED");
    assert_eq!(row.code_rust.as_deref(), Some("fn f() { y }"));
    assert_eq!(row.error_log.as_deref(), Some("Compilation failed:\nerror[E0425]: cannot find value `y`"));
}

#[test]
fn transpile_failure_keeps_no_code() {
    let r = record_outcome(UnitOutcome::TranspileFailed(s("oracle down")));
    assert_eq!(r.state, TaskState::Failed);
    assert!(r.code.is_none());
    assert_eq!(r.error.as_deref(), Some("oracle down"));
    let ok = record_outcome(UnitOutcome::Verified(s("fn g() {}")));
    assert_eq!(ok.state, TaskState::Completed);
    assert_eq!(ok.code.as_deref(), Some("fn g() {}"));
    assert!(ok.error.is_none());
}

#[test]
fn create_task_twice_gives_one_row() {
    let mut board = TaskBoard::new();
    board.create_task(&s("a"), &s("a"));
    board.create_task(&s("a"), &s("a"));
    assert_eq!(board.len(), 1);
    board.create_task(&s("b"), &s("b"));
    assert_eq!(board.len(), 2);
    assert_eq!(board.get_task_state(&s("a")), Some(TaskState::Pending));
}

#[test]
fn terminal_task_kept_on_rerun() {
    let mut board = TaskBoard::new();
    let id = s("a");
    board.begin_unit(&id, false);
    board.finish_unit(&id, UnitOutcome::Verified(s("fn a() {}")));
    assert!(!board.begin_unit(&id, false));
    let row = board.row(&id).unwrap();
    assert_eq!(row.state, TaskState::Completed);
    assert_eq!(row.code_rust.as_deref(), Some("fn a() {}"));
    assert!(board.begin_unit(&id, true));
    assert_eq!(board.get_task_state(&id), Some(TaskState::InProgress));
}

#[test]
fn dispatch_policy() {
    assert!(should_dispatch(None, false));
    assert!(should_dispatch(Some(TaskState::Pending), false));
    assert!(should_dispatch(Some(TaskState::InProgress), false));
    assert!(!should_dispatch(Some(TaskState::Completed), false));
    assert!(!should_dispatch(Some(TaskState::Failed), false));
    assert!(should_dispatch(Some(TaskState::Failed), true));
}

#[test]
fn state_texts_round_trip() {
    for st in [TaskState::Pending, TaskState::InProgress, TaskState::Completed, TaskState::Failed] {
        assert_eq!(TaskState::from_db_str(&st.as_db_str()), Some(st));
    }
    assert_eq!(TaskState::InProgress.as_db_str(), "IN_PROGRESS");
    assert_eq!(TaskState::from_db_str(&s("DONE")), None);
}

#[test]
fn update_of_missing_task_changes_nothing() {
    let mut board = TaskBoard::new();
    board.update_task_state(&s("x"), TaskState::Failed, None, Some(s("e")));
    assert_eq!(board.len(), 0);
    assert_eq!(board.get_task_state(&s("x")), None);
}

#[test]
fn mock_oracle_placeholder() {
    let u = AtomicUnit::new(s("f"), s("void f() { g(); h(); }"), vec![s("g"), s("h")], Vec::new());
    let out = MockLlmClient.transpile(&u).unwrap();
    assert_eq!(
        out,
        "// Transpiled from C function: f\n// Dependencies: [\"g\", \"h\"]\n\nfn f() {\n    println!(\"Simulated Rust version of f\");\n}"
    );
}

#[test]
fn finished_row_keeps_code_and_log() {
    let mut board = TaskBoard::new();
    let id = s("k");
    board.begin_unit(&id, false);
    board.finish_unit(&id, UnitOutcome::VerifyFailed(s("fn k() {"), s("unclosed delimiter")));
    assert!(board.begin_unit(&id, true));
    let row = board.row(&id).unwrap();
    assert_eq!(row.state, TaskState::InProgress);
    assert_eq!(row.code_rust.as_deref(), Some("fn k() {"));
    assert_eq!(row.error_log.as_deref(), Some("unclosed delimiter"));
    board.finish_unit(&id, UnitOutcome::Verified(s("fn k() {}")));
    let row = board.row(&id).unwrap();
    assert_eq!(row.state, TaskState::Completed);
    assert_eq!(row.code_rust.as_deref(), Some("fn k() {}"));
    assert!(row.error_log.is_none());
    board.update_task_state(&id, TaskState::Failed, None, Some(s("later")));
    let row = board.row(&id).unwrap();
    assert_eq!(row.code_rust.as_deref(), Some("fn k() {}"));
    assert_eq!(row.error_log.as_deref(), Some("later"));
}

#[test]
fn unfinished_row_update_clears_code() {
    let mut board = TaskBoard::new();
    let id = s("u");
    board.create_task(&id, &id);
    board.update_task_state(&id, TaskState::InProgress, Some(s("draft")), None);
    board.update_task_state(&id, TaskState::InProgress, None, None);
    assert!(board.row(&id).unwrap().code_rust.is_none());
}
