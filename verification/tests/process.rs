//! Launching and owning child processes.

use std::path::PathBuf;

use agentharbor::{
    Cancellation, EntityId, ExecutionEnvironment, OrchestratorError, ProcessSpec,
    ProcessSupervisor, PtySize, Variable,
};

fn variable(name: &str, value: &str) -> Variable {
    Variable { name: name.to_owned(), value: value.to_owned() }
}

fn spec(executable: &str, environment: ExecutionEnvironment) -> ProcessSpec {
    ProcessSpec {
        executable: executable.to_owned(),
        arguments: vec!["--flag".to_owned(), "two words".to_owned(), "; rm".to_owned()],
        working_directory: PathBuf::from("/work"),
        environment,
        environment_overrides: vec![variable("LANG", "C")],
    }
}

#[test]
fn native_processes_are_launched_directly() {
    let supervisor = ProcessSupervisor::<u32>::default();
    let wanted = spec("agent", ExecutionEnvironment::Windows);
    let plan = supervisor.spawn(&wanted, &vec![]).unwrap();
    assert_eq!(plan.program, "agent");
    assert_eq!(plan.arguments, vec!["--flag", "two words", "; rm"]);
    assert_eq!(plan.working_directory, &PathBuf::from("/work"));
    assert_eq!(plan.environment, vec![variable("LANG", "C")]);
}

#[test]
fn distributions_run_the_executable() {
    let supervisor = ProcessSupervisor::<u32>::default();
    let wanted =
        spec("agent", ExecutionEnvironment::Wsl2 { distribution: "Ubuntu".to_owned() });
    let plan = supervisor.spawn(&wanted, &vec![]).unwrap();
    assert_eq!(plan.program, "wsl.exe");
    assert_eq!(
        plan.arguments,
        vec!["--distribution", "Ubuntu", "--exec", "agent", "--flag", "two words", "; rm"]
    );
}

#[test]
fn an_executable_of_white_space_is_refused() {
    let supervisor = ProcessSupervisor::<u32>::default();
    for empty in ["", "  ", "\t\n"] {
        match supervisor.spawn(&spec(empty, ExecutionEnvironment::Windows), &vec![]) {
            Err(OrchestratorError::InvalidInput(message)) => assert_eq!(message, "empty executable"),
            other => panic!("{other:?}"),
        }
    }
    let padded = spec(" agent ", ExecutionEnvironment::Windows);
    assert_eq!(supervisor.spawn(&padded, &vec![]).unwrap().program, " agent ");
}

#[test]
fn the_allowlist_of_the_host_is_inherited_and_overridden() {
    let supervisor = ProcessSupervisor::<u32>::default();
    let wanted = spec("agent", ExecutionEnvironment::Windows);
    let host = vec![
        variable("Path", "/bin"),
        variable("LANG", "de_DE"),
        variable("AWS_SECRET", "x"),
        variable("https_proxy", "p:1"),
    ];
    let plan = supervisor.spawn(&wanted, &host).unwrap();
    assert_eq!(
        plan.environment,
        vec![
            variable("Path", "/bin"),
            variable("LANG", "de_DE"),
            variable("https_proxy", "p:1"),
            variable("LANG", "C"),
        ]
    );
}

#[test]
fn children_are_found_by_their_sessions() {
    let mut supervisor = ProcessSupervisor::default();
    let first = supervisor.adopt(10u32);
    let second = supervisor.adopt(20u32);
    assert_ne!(first, second);
    assert_eq!(first.text().chars().nth(14), Some('4'));
    *supervisor.child(first).unwrap() += 1;
    assert_eq!(*supervisor.child(first).unwrap(), 11);
    assert_eq!(*supervisor.child(second).unwrap(), 20);
    supervisor.adopt_as(first, 5);
    assert_eq!(*supervisor.child(first).unwrap(), 5);
    assert!(supervisor.child(EntityId { value: 8 }).is_none());
}

#[test]
fn only_known_sessions_can_be_cancelled() {
    let mut supervisor = ProcessSupervisor::<u32>::default();
    let session = EntityId { value: 7 };
    match supervisor.cancel(session, 10) {
        Cancellation::Finished(Err(error)) => {
            assert_eq!(error.message(), "invalid input: unknown session")
        }
        other => panic!("{other:?}"),
    }
    supervisor.adopt_as(session, 1);
    assert!(matches!(
        supervisor.cancel(session, 10),
        Cancellation::Asking { session: s, grace_ms: 10 } if s == session
    ));
}

#[test]
fn terminal_sizes_are_plain_values() {
    let size = PtySize { columns: 80, rows: 24 };
    let copy = size;
    assert_eq!((copy.columns, copy.rows), (size.columns, size.rows));
}
