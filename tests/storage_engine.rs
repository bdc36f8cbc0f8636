use restate_partition::partition::{ConsensusCommand, PartitionProcessor, ProcessorError};
use restate_partition::rocksdb::{CfPattern, RocksDb, RocksDbManager, RocksError};
use restate_partition::state_machine::{Command, Effect, ServiceInvocation};
use restate_partition::types::{InvocationId, InvocationTarget};
use restate_partition::wipe::WipeMode;

fn db() -> RocksDb {
    RocksDb::new(
        "partition-store".to_string(),
        "db".to_string(),
        "/tmp/db".to_string(),
        vec![CfPattern::Prefix("data-".to_string()), CfPattern::Exact("meta".to_string())],
        vec![CfPattern::Prefix("data-".to_string())],
        vec!["meta".to_string(), "data-1".to_string(), "junk".to_string()],
    )
}

#[test]
fn existing_families_matching_a_pattern_are_opened() {
    assert_eq!(db().cfs(), vec!["meta".to_string(), "data-1".to_string()]);
}

#[test]
fn open_cf_checks_patterns() {
    let mut db = db();
    assert!(db.open_cf("data-2".to_string()).is_ok());
    assert!(db.open_cf("data-2".to_string()).is_ok());
    assert_eq!(db.open_cf("other".to_string()), Err(RocksError::UnknownColumnFamily("other".to_string())));
    assert_eq!(db.cfs(), vec!["meta".to_string(), "data-1".to_string(), "data-2".to_string()]);
}

#[test]
fn shutdown_flushes_declared_families() {
    let mut db = db();
    db.open_cf("data-7".to_string()).unwrap();
    let plan = db.shutdown_plan();
    assert!(plan.flush_wal);
    assert!(plan.cancel_background_work);
    assert_eq!(plan.cfs_to_flush, vec!["data-1".to_string(), "data-7".to_string()]);
}

#[test]
fn prefix_pattern_matches_prefixes_only() {
    let p = CfPattern::Prefix("data-".to_string());
    assert!(p.cf_matches(&"data-x".to_string()));
    assert!(p.cf_matches(&"data-".to_string()));
    assert!(!p.cf_matches(&"data".to_string()));
    assert!(!CfPattern::Exact("meta".to_string()).cf_matches(&"metadata".to_string()));
}

#[test]
fn wipe_directories() {
    assert_eq!(WipeMode::wipe(Some(WipeMode::LocalMetadataStore)), Some("local-metadata-store".to_string()));
    assert_eq!(WipeMode::wipe(Some(WipeMode::LocalLoglet)), Some("local-loglet".to_string()));
    assert_eq!(WipeMode::wipe(Some(WipeMode::Worker)), Some("partition-store".to_string()));
    assert_eq!(WipeMode::wipe(Some(WipeMode::All)), Some(String::new()));
    assert_eq!(WipeMode::wipe(None), None);
}

fn invoke(n: u128) -> Command {
    Command::Invoke(ServiceInvocation {
        invocation_id: InvocationId { partition_key: 1, invocation_uuid: n },
        invocation_target: InvocationTarget::Service { name: "s".to_string(), handler: "h".to_string() },
        response_sink: None,
        idempotency_key: None,
        execution_time: None,
        creation_time: 0,
        completion_retention_duration: 0,
        argument: vec![],
        source: restate_partition::types::Source::Internal,
        span_context: restate_partition::types::SpanContext { trace_id: 1, span_id: 2, trace_flags: 0, is_remote: false },
        headers: vec![],
    })
}

#[test]
fn processor_dispatches_only_while_leading() {
    let mut p = PartitionProcessor::build(3);
    assert_eq!(p.on_command(ConsensusCommand::Commit { lsn: 1, timestamp: 10, command: invoke(1) }), Ok(vec![]));
    p.on_command(ConsensusCommand::Leader).unwrap();
    assert_eq!(
        p.on_command(ConsensusCommand::Commit { lsn: 2, timestamp: 20, command: invoke(2) }),
        Ok(vec![Effect::InvokerDispatch(InvocationId { partition_key: 1, invocation_uuid: 2 })])
    );
    assert!(p.status().is_leader);
    assert_eq!(p.status().last_applied_lsn, Some(2));
    p.on_command(ConsensusCommand::Follower).unwrap();
    assert!(!p.status().is_leader);
}

#[test]
fn snapshots_are_unsupported() {
    let mut p = PartitionProcessor::build(0);
    assert_eq!(p.on_command(ConsensusCommand::ApplySnapshot), Err(ProcessorError::Unsupported));
    assert_eq!(p.on_command(ConsensusCommand::CreateSnapshot), Err(ProcessorError::Unsupported));
    assert_eq!(p.status().last_applied_lsn, None);
}

fn db_at(path: &str) -> RocksDb {
    RocksDb::new("owner".to_string(), "db".to_string(), path.to_string(), vec![], vec![], vec![])
}

#[test]
fn one_database_per_path() {
    let mut manager = RocksDbManager::new();
    assert!(manager.reset().is_ok());
    assert!(manager.open(db_at("/a")).is_ok());
    assert_eq!(manager.open(db_at("/a")), Err(RocksError::AlreadyOpen("/a".to_string())));
    assert!(manager.open(db_at("/b")).is_ok());
    assert_eq!(manager.reset(), Err(RocksError::DatabasesOpen));
    assert_eq!(manager.close(&"/a".to_string()).map(|d| d.path), Some("/a".to_string()));
    assert!(manager.close(&"/a".to_string()).is_none());
    assert!(manager.open(db_at("/a")).is_ok());
    manager.close(&"/a".to_string());
    manager.close(&"/b".to_string());
    assert!(manager.reset().is_ok());
}
