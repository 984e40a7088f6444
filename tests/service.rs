use ssh_pool::poll::{error_event, MetricClass, PollTimers};
use ssh_pool::pool::Pool;
use ssh_pool::router::{plan, ApiResponse, Plan, ServiceError, SshCommand};
use ssh_pool::session::{
    authentication_outcome, transport_error, ChannelEvent, CommandError, ConnectError,
    OutputCollector,
};
use ssh_pool::store::{
    current_timestamp, newest_first, record_key, DbOperation, SshConnection, StoreError,
};

fn pool_with(ids: &[usize]) -> Pool<String, u32> {
    let mut pool = Pool::new();
    for &id in ids {
        pool.insert(id, format!("session {}", id)).unwrap();
    }
    pool
}

#[test]
fn baseinfo_on_unknown_id_is_not_found() {
    let pool = pool_with(&[1]);
    let cmd = SshCommand::ExecuteQuery { id: 4, query: "baseinfo".to_string() };
    match plan(&pool, &cmd) {
        Err(ServiceError::NotFound(id)) => assert_eq!(id, 4),
        other => panic!("unexpected {:?}", other),
    }
    let msg = plan(&pool, &cmd).unwrap_err().message();
    assert_eq!(msg, "no connection with id 4");
}

#[test]
fn baseinfo_on_open_id_asks_for_a_snapshot() {
    let pool = pool_with(&[1, 2]);
    let cmd = SshCommand::ExecuteQuery { id: 2, query: "baseinfo".to_string() };
    assert!(matches!(plan(&pool, &cmd), Ok(Plan::Snapshot(2))));
    let cmd = SshCommand::ExecuteQuery { id: 2, query: "ls -la".to_string() };
    match plan(&pool, &cmd) {
        Ok(Plan::Execute { id, command }) => {
            assert_eq!(id, 2);
            assert_eq!(command, "ls -la");
        }
        other => panic!("unexpected {:?}", other),
    }
}

#[test]
fn open_request_is_checked_before_any_connection() {
    let pool = pool_with(&[3]);
    let open = |id: usize, url: &str| plan(&pool, &SshCommand::OpenConnection { id, url: url.to_string() });
    assert!(matches!(open(1, "bad url"), Err(ServiceError::MalformedUrl)));
    assert!(matches!(open(1, "u:p@h:70000"), Err(ServiceError::InvalidPort)));
    assert!(matches!(open(3, "u:p@h:22"), Err(ServiceError::AlreadyOpen(3))));
    match open(1, "admin:pw@10.0.0.5:2222") {
        Ok(Plan::Open { id, address }) => {
            assert_eq!(id, 1);
            assert_eq!(address.username, "admin");
            assert_eq!(address.password, "pw");
            assert_eq!(address.host, "10.0.0.5");
            assert_eq!(address.port, 2222);
        }
        other => panic!("unexpected {:?}", other),
    }
}

#[test]
fn close_retry_and_close_all_plans() {
    let pool = pool_with(&[5]);
    assert!(matches!(plan(&pool, &SshCommand::CloseConnection(5)), Ok(Plan::Close(5))));
    assert!(matches!(plan(&pool, &SshCommand::CloseConnection(6)), Err(ServiceError::NotFound(6))));
    assert!(matches!(plan(&pool, &SshCommand::RetryInfoQuery(5)), Ok(Plan::Restart(5))));
    assert!(matches!(plan(&pool, &SshCommand::RetryInfoQuery(0)), Err(ServiceError::NotFound(0))));
    assert!(matches!(plan(&pool, &SshCommand::CloseAllConnections), Ok(Plan::CloseAll)));
}

#[test]
fn error_messages() {
    assert_eq!(ServiceError::MalformedUrl.message(), "invalid URL format");
    assert_eq!(ServiceError::InvalidPort.message(), "invalid port number");
    assert_eq!(ServiceError::AlreadyOpen(12).message(), "connection already open, id 12");
    assert_eq!(ServiceError::NotFound(0).message(), "no connection with id 0");
    assert_eq!(
        ServiceError::Connect(ConnectError::Transport("timeout".to_string())).message(),
        "connection failed: timeout"
    );
    assert_eq!(ServiceError::Connect(ConnectError::AuthFailed).message(), "authentication failed");
    assert_eq!(
        ServiceError::Command(CommandError::NonZeroExit(127)).message(),
        "command exited with status 127"
    );
    assert_eq!(
        ServiceError::Command(CommandError::Transport("channel closed".to_string())).message(),
        "channel closed"
    );
}

#[test]
fn success_envelope() {
    let r = ApiResponse::success("done".to_string());
    assert_eq!(r.code, 200);
    assert_eq!(r.data.as_deref(), Some("done"));
    assert!(r.message.is_none());
}

#[test]
fn collector_decodes_chunks_lossily() {
    let mut c = OutputCollector::new();
    assert!(c.on_event(ChannelEvent::Data(b"he".to_vec())).is_none());
    assert!(c.on_event(ChannelEvent::Other).is_none());
    assert!(c.on_event(ChannelEvent::Data(vec![b'l', 0xff, b'o'])).is_none());
    assert!(c.on_event(ChannelEvent::ExitStatus(0)).is_none());
    assert_eq!(c.finish(), "hel\u{fffd}o");
}

#[test]
fn collector_splits_multibyte_chars_per_chunk() {
    let mut c = OutputCollector::new();
    let bytes = "é".as_bytes();
    c.on_event(ChannelEvent::Data(bytes[..1].to_vec()));
    c.on_event(ChannelEvent::Data(bytes[1..].to_vec()));
    assert_eq!(c.finish(), "\u{fffd}\u{fffd}");
}

#[test]
fn collector_fails_on_nonzero_exit() {
    let mut c = OutputCollector::new();
    c.on_event(ChannelEvent::Data(b"partial".to_vec()));
    match c.on_event(ChannelEvent::ExitStatus(2)) {
        Some(CommandError::NonZeroExit(code)) => assert_eq!(code, 2),
        other => panic!("unexpected {:?}", other),
    }
}

#[test]
fn connect_outcomes() {
    assert!(authentication_outcome(true).is_ok());
    assert!(matches!(authentication_outcome(false), Err(ConnectError::AuthFailed)));
    match transport_error("Connection refused (os error 111)") {
        ConnectError::Transport(d) => assert_eq!(d, "Connection"),
        other => panic!("unexpected {:?}", other),
    }
    match transport_error("   ") {
        ConnectError::Transport(d) => assert_eq!(d, ""),
        other => panic!("unexpected {:?}", other),
    }
}

#[test]
fn metric_classes_commands_and_events() {
    assert_eq!(MetricClass::Memory.command(), "free -m");
    assert_eq!(MetricClass::Network.command(), "cat /proc/net/dev");
    assert_eq!(MetricClass::Cpu.period_secs(), 2);
    assert_eq!(MetricClass::Uptime.period_secs(), 60);
    assert_eq!(MetricClass::Memory.update_event(3), "server-memory-update-3");
    assert_eq!(MetricClass::Disk.update_event(120), "server-disk-update-120");
    assert_eq!(error_event(45), "server-status-error-45");
}

#[test]
fn timers_fire_in_period_order() {
    let mut t = PollTimers::new();
    let mut fired = Vec::new();
    loop {
        let (class, at) = t.next();
        if at > 5 {
            break;
        }
        fired.push((class, at));
        t.fire(class);
    }
    let network: Vec<u64> = fired.iter().filter(|f| f.0 == MetricClass::Network).map(|f| f.1).collect();
    let cpu: Vec<u64> = fired.iter().filter(|f| f.0 == MetricClass::Cpu).map(|f| f.1).collect();
    let memory: Vec<u64> = fired.iter().filter(|f| f.0 == MetricClass::Memory).map(|f| f.1).collect();
    assert_eq!(network, vec![0, 1, 2, 3, 4, 5]);
    assert_eq!(cpu, vec![0, 2, 4]);
    assert_eq!(memory, vec![0, 5]);
    assert_eq!(&fired[..5], &[
        (MetricClass::Uptime, 0),
        (MetricClass::Memory, 0),
        (MetricClass::Cpu, 0),
        (MetricClass::Network, 0),
        (MetricClass::Disk, 0),
    ]);
    assert_eq!(t.due(MetricClass::Disk), 30);
}

fn profile(name: &str, created_at: Option<u64>) -> SshConnection {
    SshConnection {
        id: None,
        name: name.to_string(),
        host: "h".to_string(),
        port: 22,
        username: None,
        password: None,
        created_at,
        updated_at: None,
    }
}

#[test]
fn profiles_list_newest_first() {
    let v = vec![
        profile("a", Some(5)),
        profile("b", None),
        profile("c", Some(9)),
        profile("d", Some(1)),
    ];
    let names: Vec<String> = newest_first(v).into_iter().map(|p| p.name).collect();
    assert_eq!(names, vec!["c", "a", "d", "b"]);
    assert!(newest_first(Vec::new()).is_empty());
}

#[test]
fn profiles_created_together_keep_their_order() {
    let v = vec![
        profile("p", Some(3)),
        profile("q", None),
        profile("r", Some(3)),
        profile("s", Some(8)),
        profile("t", None),
        profile("u", Some(3)),
    ];
    let names: Vec<String> = newest_first(v).into_iter().map(|p| p.name).collect();
    assert_eq!(names, vec!["s", "p", "r", "u", "q", "t"]);
}

#[test]
fn profile_stamping() {
    let p = profile("x", None).stamped_for_insert(17, 1_700_000_000);
    assert_eq!((p.id, p.created_at, p.updated_at), (Some(17), Some(1_700_000_000), Some(1_700_000_000)));
    assert_eq!(p.name, "x");
    let q = p.stamped_for_update(1_700_000_100).unwrap();
    assert_eq!((q.id, q.created_at, q.updated_at), (Some(17), Some(1_700_000_000), Some(1_700_000_100)));
    assert_eq!(profile("y", None).stamped_for_update(1).unwrap_err(), StoreError::MissingId);
    assert_eq!(record_key(17), "17");
    assert_eq!(record_key(0), "0");
    assert_eq!(record_key(u64::MAX), "18446744073709551615");
}

#[test]
fn db_operation_and_clock() {
    let op = DbOperation::Delete(4);
    assert!(matches!(op, DbOperation::Delete(4)));
    assert!(current_timestamp().unwrap() > 1_600_000_000);
}
