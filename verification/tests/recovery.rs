//! Startup recovery.

use std::cell::RefCell;
use std::path::PathBuf;

use agentharbor::{
    AgentRunAttempt, AttemptStatus, EntityId, OrchestratorError, RecoveredPayload,
    RecoveryCandidate, RecoveryReply, RecoveryRequest, RecoveryRun, RecoveryRuntime,
    StartupRecovery, StartupRecoveryReport,
};

fn id(value: u128) -> EntityId {
    EntityId { value }
}

fn candidate(n: u128, checkpoint: Option<&str>) -> RecoveryCandidate {
    RecoveryCandidate {
        agent_run_id: id(100 + n),
        interrupted_attempt_id: id(200 + n),
        workspace_id: id(300 + n),
        worktree_path: PathBuf::from(format!("/trees/{n}")),
        checkpoint_context: checkpoint.map(str::to_owned),
    }
}

/// Writes down what it is asked to do, and fails at the launch of one run.
struct Runtime {
    log: RefCell<Vec<String>>,
    refuses: Option<EntityId>,
}

impl RecoveryRuntime for Runtime {
    fn is_process_alive(&self, _pid: u32) -> bool {
        false
    }

    fn remount_worktree(&self, path: &PathBuf) -> Result<(), OrchestratorError> {
        self.log.borrow_mut().push(format!("remount {}", path.display()));
        Ok(())
    }

    fn rebuild_context(&self, candidate: &RecoveryCandidate) -> Result<(), OrchestratorError> {
        self.log.borrow_mut().push(format!("rebuild {}", candidate.agent_run_id.value));
        Ok(())
    }

    fn launch(&self, candidate: &RecoveryCandidate) -> Result<u32, OrchestratorError> {
        self.log.borrow_mut().push(format!("launch {}", candidate.agent_run_id.value));
        if self.refuses == Some(candidate.agent_run_id) {
            Err(OrchestratorError::invalid_input("no such adapter"))
        } else {
            Ok(candidate.agent_run_id.value as u32 + 1000)
        }
    }
}

/// Runs a recovery of the candidates, with a store that writes down what it is asked for.
fn recover(
    runtime: &Runtime,
    candidates: Vec<RecoveryCandidate>,
    events: &mut Vec<(String, EntityId, String, RecoveredPayload)>,
) -> Result<StartupRecoveryReport, OrchestratorError> {
    let store = ();
    let mut waiting = Some(candidates);
    let mut run = StartupRecovery::new(&store).run();
    loop {
        let reply = match run.request() {
            None => break,
            Some(request) => match request.perform(runtime) {
                Some(reply) => reply,
                None => match request {
                    RecoveryRequest::Reconcile => {
                        runtime.log.borrow_mut().push("reconcile".to_owned());
                        RecoveryReply::Candidates(waiting.take().unwrap())
                    }
                    RecoveryRequest::StartAttempt { agent_run_id, pid } => {
                        runtime.log.borrow_mut().push(format!("start {}", agent_run_id.value));
                        RecoveryReply::Started(AgentRunAttempt {
                            id: id(agent_run_id.value + 400),
                            agent_run_id,
                            attempt_number: 2,
                            pid: Some(pid),
                            status: AttemptStatus::Running,
                        })
                    }
                    RecoveryRequest::RecordEvent { entity_type, entity_id, event_type, payload } => {
                        runtime.log.borrow_mut().push(format!("record {}", entity_id.value));
                        events.push((entity_type.to_owned(), entity_id, event_type.to_owned(), payload));
                        RecoveryReply::Done
                    }
                    _ => unreachable!(),
                },
            },
        };
        run = run.advance(reply);
    }
    match run {
        RecoveryRun::Finished(result) => result,
        _ => unreachable!(),
    }
}

#[test]
fn nothing_interrupted_is_nothing_resumed() {
    let runtime = Runtime { log: RefCell::new(vec![]), refuses: None };
    let report = recover(&runtime, vec![], &mut vec![]).unwrap();
    assert_eq!(report.interrupted, 0);
    assert!(report.resumed.is_empty());
    assert_eq!(*runtime.log.borrow(), vec!["reconcile"]);
}

#[test]
fn each_candidate_is_restored_before_it_is_launched() {
    let runtime = Runtime { log: RefCell::new(vec![]), refuses: None };
    let mut events = vec![];
    let report = recover(
        &runtime,
        vec![candidate(1, Some("context")), candidate(2, None)],
        &mut events,
    )
    .unwrap();
    assert_eq!(
        *runtime.log.borrow(),
        vec![
            "reconcile",
            "remount /trees/1",
            "rebuild 101",
            "launch 101",
            "start 101",
            "record 101",
            "remount /trees/2",
            "rebuild 102",
            "launch 102",
            "start 102",
            "record 102",
        ]
    );
    assert_eq!(report.interrupted, 2);
    let resumed: Vec<(EntityId, EntityId, Option<u32>)> =
        report.resumed.iter().map(|a| (a.id, a.agent_run_id, a.pid)).collect();
    assert_eq!(
        resumed,
        vec![(id(501), id(101), Some(1101)), (id(502), id(102), Some(1102))]
    );
    assert_eq!(
        events,
        vec![
            (
                "agent_run".to_owned(),
                id(101),
                "agent_run.recovered".to_owned(),
                RecoveredPayload {
                    from_attempt_id: id(201),
                    to_attempt_id: id(501),
                    workspace_id: id(301),
                    checkpoint_restored: true,
                },
            ),
            (
                "agent_run".to_owned(),
                id(102),
                "agent_run.recovered".to_owned(),
                RecoveredPayload {
                    from_attempt_id: id(202),
                    to_attempt_id: id(502),
                    workspace_id: id(302),
                    checkpoint_restored: false,
                },
            ),
        ]
    );
}

#[test]
fn a_failure_ends_the_recovery() {
    let runtime = Runtime { log: RefCell::new(vec![]), refuses: Some(id(101)) };
    let mut events = vec![];
    let error = recover(&runtime, vec![candidate(1, None), candidate(2, None)], &mut events)
        .unwrap_err();
    assert_eq!(error.message(), "invalid input: no such adapter");
    assert_eq!(
        *runtime.log.borrow(),
        vec!["reconcile", "remount /trees/1", "rebuild 101", "launch 101"]
    );
    assert!(events.is_empty());
}

#[test]
fn a_failed_reconciliation_is_reported() {
    let store = ();
    let run = StartupRecovery::new(&store).run();
    assert!(matches!(run.request(), Some(RecoveryRequest::Reconcile)));
    let run = run.advance(RecoveryReply::Failed(OrchestratorError::from(
        rusqlite::Error::QueryReturnedNoRows,
    )));
    assert!(run.request().is_none());
    assert!(matches!(run, RecoveryRun::Finished(Err(OrchestratorError::Database(_)))));
}

#[test]
fn a_fresh_report_is_empty() {
    let report = StartupRecoveryReport::default();
    assert_eq!(report.interrupted, 0);
    assert!(report.resumed.is_empty());
}
