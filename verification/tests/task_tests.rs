use duxnet::tasks::TaskEngine;
use duxnet::types::TaskStatus;
use duxnet::types::{Task, TaskId, TaskRequirements, TaskResult};

fn task(id: &str) -> Task {
    Task {
        id: TaskId(id.to_string()),
        escrow_id: "".to_string(),
        service_id: duxnet::types::ServiceId("svc".to_string()),
        payload: vec![1, 2, 3],
        requirements: TaskRequirements { cpu_cores: 1, memory_mb: 64, timeout_seconds: 30 },
        created_at: 10,
    }
}

fn result_for(id: &str) -> TaskResult {
    TaskResult {
        task_id: TaskId(id.to_string()),
        processor_did: "did:duxnet:p1".to_string(),
        result: vec![9],
        proof_bytes: vec![0; 32],
        completed_at: 20,
    }
}

#[test]
fn lifecycle_pending_processing_completed() {
    let mut engine = TaskEngine::new();
    engine.submit_task(task("T1"));
    assert_eq!(engine.get_task_status(&TaskId("T1".to_string())), TaskStatus::Pending);

    let accepted = engine.accept_task(&TaskId("T1".to_string()), "P1".to_string());
    assert!(accepted.is_some());
    assert_eq!(accepted.unwrap().id.0, "T1");
    assert_eq!(engine.get_task_status(&TaskId("T1".to_string())), TaskStatus::Processing);

    // acceptance is at most once per task
    let second = engine.accept_task(&TaskId("T1".to_string()), "P2".to_string());
    assert!(second.is_none());

    engine.complete_task(result_for("T1"));
    assert_eq!(engine.get_task_status(&TaskId("T1".to_string())), TaskStatus::Completed);

    assert_eq!(engine.get_task_status(&TaskId("unknown".to_string())), TaskStatus::NotFound);
}

#[test]
fn processing_records_the_processor() {
    let mut engine = TaskEngine::new();
    engine.submit_task(task("T1"));
    engine.accept_task(&TaskId("T1".to_string()), "P1".to_string());
    let processing = engine.get_processing_tasks();
    assert_eq!(processing.len(), 1);
    assert_eq!(processing[0].0.0, "T1");
    assert_eq!(processing[0].1, "P1");
}

#[test]
fn out_of_order_completion_is_accepted() {
    let mut engine = TaskEngine::new();
    // no submit, no accept: completion still records the result
    engine.complete_task(result_for("ghost"));
    assert_eq!(engine.get_task_status(&TaskId("ghost".to_string())), TaskStatus::Completed);
}

#[test]
fn submit_overwrites_on_duplicate_identifier() {
    let mut engine = TaskEngine::new();
    engine.submit_task(task("T1"));
    let mut replacement = task("T1");
    replacement.payload = vec![7];
    engine.submit_task(replacement);
    let pending = engine.get_pending_tasks();
    assert_eq!(pending.len(), 1);
    assert_eq!(pending[0].payload, vec![7]);
}

#[test]
fn process_task_binds_payload_and_result() {
    let engine = TaskEngine::new();
    let result = engine.process_task(task("T1"), "did:duxnet:p1".to_string(), 55);
    assert_eq!(result.task_id.0, "T1");
    assert_eq!(result.processor_did, "did:duxnet:p1");
    assert_eq!(result.result, b"Processed task T1 by did:duxnet:p1".to_vec());
    // the proof is a 32-byte digest, not the inputs handed back
    assert_eq!(result.proof_bytes.len(), 32);
    assert_ne!(result.proof_bytes, result.result);
    assert_eq!(result.completed_at, 55);
    // the digest is a function of payload and result bytes alone
    let again = engine.process_task(task("T1"), "did:duxnet:p1".to_string(), 56);
    assert_eq!(again.proof_bytes, result.proof_bytes);
    let mut other = task("T1");
    other.payload = vec![4, 5];
    let different = engine.process_task(other, "did:duxnet:p1".to_string(), 55);
    assert_ne!(different.proof_bytes, result.proof_bytes);
}

#[test]
fn drive_once_completes_every_pending_task() {
    let mut engine = TaskEngine::new();
    engine.submit_task(task("T1"));
    engine.submit_task(task("T2"));
    engine.process_pending_tasks(99);
    assert_eq!(engine.get_pending_tasks().len(), 0);
    assert_eq!(engine.get_task_status(&TaskId("T1".to_string())), TaskStatus::Completed);
    assert_eq!(engine.get_task_status(&TaskId("T2".to_string())), TaskStatus::Completed);
    let completed = engine.get_completed_tasks();
    assert_eq!(completed.len(), 2);
    assert_eq!(completed[0].processor_did, "did:duxnet:processor");
}

#[test]
fn stats_count_every_set() {
    let mut engine = TaskEngine::new();
    engine.submit_task(task("T1"));
    engine.submit_task(task("T2"));
    engine.accept_task(&TaskId("T1".to_string()), "P1".to_string());
    engine.complete_task(result_for("T3"));
    let stats = engine.get_stats();
    assert_eq!(stats.pending_count, 1);
    assert_eq!(stats.processing_count, 1);
    assert_eq!(stats.completed_count, 1);
    assert_eq!(stats.total_tasks, 3);
}
