use pyroscope::agent::PyroscopeAgent;
use pyroscope::config::{endpoint, Compression, PyroscopeConfig};
use pyroscope::error::{ConfigField, ConfigReason, PyroscopeError};
use pyroscope::manager::{SessionManager, WorkerStep, SESSION_QUEUE_CAPACITY};
use pyroscope::report::{Report, ReportEncoding};
use pyroscope::session::{IngestRequest, Session, SessionSignal};
use pyroscope::stack::ReportMetadata;
use pyroscope::tags::Tag;

fn metadata(tags: &[(&str, &str)]) -> ReportMetadata {
    ReportMetadata {
        tags: tags.iter().map(|(k, v)| Tag::new(k, v)).collect(),
        sample_rate: 100,
        spy_name: "void".to_string(),
        application_name: "t1".to_string(),
    }
}

fn report(lines: &[(&str, u64)], tags: &[(&str, &str)]) -> Report {
    let mut report = Report::new(metadata(tags));
    for (stack, count) in lines {
        report.record_with_count(stack.to_string(), *count).unwrap();
    }
    report
}

fn config() -> PyroscopeConfig {
    PyroscopeConfig::new("http://h:4040", "t1").spy_name("void")
}

fn pairs(tags: &[Tag]) -> Vec<(String, String)> {
    tags.iter().map(|t| (t.key.clone(), t.value.clone())).collect()
}

fn owned(pairs: &[(&str, &str)]) -> Vec<(String, String)> {
    pairs.iter().map(|(k, v)| (k.to_string(), v.to_string())).collect()
}

fn invalid(field: ConfigField, reason: ConfigReason) -> PyroscopeError {
    PyroscopeError::InvalidConfig { field, reason }
}

fn send_folded(session: Session) -> Vec<Result<IngestRequest, PyroscopeError>> {
    session.send(&Vec::new())
}

fn requests(session: Session) -> Vec<IngestRequest> {
    send_folded(session).into_iter().map(|outcome| outcome.unwrap()).collect()
}

#[test]
fn session_window_ends_at_the_tick() {
    let session = Session::new(130, 10, config(), vec![]).unwrap();
    assert_eq!(session.until, 130);
    assert_eq!(session.from, 120);
    let session = Session::new(1_700_000_040, 20, config(), vec![]).unwrap();
    assert_eq!(session.until, 1_700_000_040);
    assert_eq!(session.from, 1_700_000_020);
}

#[test]
fn session_window_of_a_time_inside_a_cycle_ends_at_the_last_boundary() {
    let session = Session::new(133, 10, config(), vec![]).unwrap();
    assert_eq!(session.until, 130);
    assert_eq!(session.from, 120);
    assert_eq!(session.until - session.from, 10);
}

#[test]
fn session_rejects_a_window_before_the_epoch_and_bad_cycles() {
    assert_eq!(
        Session::new(9, 10, config(), vec![]).err(),
        Some(invalid(ConfigField::Timestamp, ConfigReason::OutOfRange))
    );
    assert!(Session::new(10, 10, config(), vec![]).is_ok());
    assert_eq!(
        Session::new(130, 0, config(), vec![]).err(),
        Some(invalid(ConfigField::Cycle, ConfigReason::Zero))
    );
    assert_eq!(
        Session::new(130, 7, config(), vec![]).err(),
        Some(invalid(ConfigField::Cycle, ConfigReason::NotADivisorOfMinute))
    );
}

#[test]
fn single_tick_single_trace() {
    let session = Session::new(130, 10, config(), vec![report(&[("a;b;c", 5)], &[])]).unwrap();
    let requests = requests(session);
    assert_eq!(requests.len(), 1);
    let request = &requests[0];
    assert_eq!(request.url, "http://h:4040/ingest");
    assert_eq!(request.body, b"a;b;c 5\n".to_vec());
    assert_eq!(
        pairs(&request.query),
        owned(&[
            ("name", "t1"),
            ("from", "120"),
            ("until", "130"),
            ("format", "folded"),
            ("sampleRate", "100"),
            ("spyName", "void"),
        ])
    );
    assert_eq!(pairs(&request.headers), owned(&[("Content-Type", "binary/octet-stream")]));
    assert_eq!(request.timeout_secs, 10);
}

#[test]
fn tag_encoding_in_the_name_parameter() {
    let agent_config =
        PyroscopeConfig::new("http://h:4040", "svc").tag("region", "eu").tag("env", "prod");
    let session = Session::new(130, 10, agent_config, vec![report(&[("a", 1)], &[])]).unwrap();
    let requests = requests(session);
    assert_eq!(requests[0].query[0].key, "name");
    assert_eq!(requests[0].query[0].value, "svc{env=prod,region=eu}");
}

#[test]
fn report_tags_join_the_agent_tags() {
    let agent_config = PyroscopeConfig::new("http://h:4040", "svc").tag("env", "prod");
    let reports = vec![
        report(&[("a", 1)], &[("thread", "main")]),
        report(&[("b", 2)], &[("env", "test")]),
    ];
    let requests = requests(Session::new(130, 10, agent_config, reports).unwrap());
    assert_eq!(requests.len(), 2);
    assert_eq!(requests[0].query[0].value, "svc{env=prod,thread=main}");
    assert_eq!(requests[1].query[0].value, "svc{env=test}");
    assert_eq!(requests[1].body, b"b 2\n".to_vec());
}

#[test]
fn the_endpoint_is_ingest_below_the_server_url() {
    for (server, expected) in [
        ("http://h:4040", "http://h:4040/ingest"),
        ("http://h:4040/", "http://h:4040/ingest"),
        ("https://example.com/pyroscope/", "https://example.com/pyroscope/ingest"),
        ("https://example.com/pyroscope", "https://example.com/pyroscope/ingest"),
        ("https://example.com/a/b", "https://example.com/a/b/ingest"),
        ("HTTP://Example.COM:80", "http://example.com/ingest"),
    ] {
        assert_eq!(endpoint(server), Some(expected.to_string()));
        let agent_config = PyroscopeConfig::new(server, "t1");
        let session = Session::new(130, 10, agent_config, vec![report(&[("a", 1)], &[])]).unwrap();
        assert_eq!(requests(session)[0].url, expected);
    }
}

#[test]
fn a_server_url_that_does_not_parse_is_an_error() {
    for server in ["", "/relative", "http://", "h:4040 with space", "://h"] {
        assert_eq!(endpoint(server), None);
        let agent_config = PyroscopeConfig::new(server, "t1");
        let session = Session::new(130, 10, agent_config, vec![report(&[("a", 1)], &[])]).unwrap();
        let outcomes = send_folded(session);
        assert_eq!(outcomes.len(), 1);
        assert_eq!(
            outcomes[0].as_ref().err(),
            Some(&invalid(ConfigField::ServerUrl, ConfigReason::Malformed))
        );
    }
}

#[test]
fn empty_reports_are_skipped_before_anything_is_checked() {
    let agent_config = PyroscopeConfig::new("not a url", "t1");
    let session = Session::new(130, 10, agent_config, vec![report(&[], &[])]).unwrap();
    assert!(session.process(&report(&[], &[("__name__", "x")]), &[]).unwrap().is_none());
    assert_eq!(send_folded(session).len(), 0);
    let session = Session::new(130, 10, config(), vec![]).unwrap();
    assert_eq!(send_folded(session).len(), 0);
}

#[test]
fn a_session_with_nothing_to_send_never_asks_the_compressor() {
    let agent_config = config().compression(Compression::Gzip);
    let session = Session::new(130, 10, agent_config, vec![]).unwrap();
    assert!(send_folded(session).is_empty());
    let agent_config = config().compression(Compression::Gzip);
    let session =
        Session::new(130, 10, agent_config, vec![report(&[], &[]), report(&[], &[])]).unwrap();
    assert!(send_folded(session).is_empty());
}

#[test]
fn requests_keep_the_order_of_the_reports() {
    let reports = vec![
        report(&[("a", 1)], &[("n", "1")]),
        report(&[], &[("n", "2")]),
        report(&[("c", 3)], &[("n", "3")]),
    ];
    let requests = requests(Session::new(130, 10, config(), reports).unwrap());
    assert_eq!(requests.len(), 2);
    assert_eq!(requests[0].body, b"a 1\n".to_vec());
    assert_eq!(requests[0].query[0].value, "t1{n=1}");
    assert_eq!(requests[1].body, b"c 3\n".to_vec());
    assert_eq!(requests[1].query[0].value, "t1{n=3}");
}

#[test]
fn a_fault_on_one_report_does_not_keep_the_others_back() {
    let reports = vec![
        report(&[("a", 1)], &[]),
        report(&[("b", 1)], &[("__name__", "x")]),
        report(&[], &[("__other__", "x")]),
        report(&[("c", 1)], &[]),
    ];
    let outcomes = send_folded(Session::new(130, 10, config(), reports).unwrap());
    assert_eq!(outcomes.len(), 3);
    assert_eq!(outcomes[0].as_ref().unwrap().body, b"a 1\n".to_vec());
    assert_eq!(
        outcomes[1].as_ref().err(),
        Some(&invalid(ConfigField::Tags, ConfigReason::ReservedTagKey))
    );
    assert_eq!(outcomes[2].as_ref().unwrap().body, b"c 1\n".to_vec());
}

#[test]
fn the_profile_format_ships_the_bytes_of_its_encoder() {
    let agent_config = config().report_encoding(ReportEncoding::Pprof);
    let reports = vec![report(&[("a", 1)], &[("n", "1")]), report(&[("b", 2)], &[("n", "2")])];
    let profiles = vec![vec![10u8, 3, 1, 2, 3], vec![18u8, 0]];
    let session = Session::new(130, 10, agent_config, reports).unwrap();
    let outcomes = session.send(&profiles);
    assert_eq!(outcomes.len(), 2);
    let first = outcomes[0].as_ref().unwrap();
    assert_eq!(first.body, vec![10u8, 3, 1, 2, 3]);
    assert_eq!(
        pairs(&first.query),
        owned(&[
            ("name", "t1{n=1}"),
            ("from", "120"),
            ("until", "130"),
            ("format", "pprof"),
            ("sampleRate", "100"),
            ("spyName", "void"),
        ])
    );
    let second = outcomes[1].as_ref().unwrap();
    assert_eq!(second.body, vec![18u8, 0]);
    assert_eq!(second.query[0].value, "t1{n=2}");
    assert_eq!(second.query[3].value, "pprof");
}

#[test]
fn a_report_without_profile_bytes_has_nothing_to_send_in_the_profile_format() {
    let agent_config = config().report_encoding(ReportEncoding::Pprof);
    let reports = vec![report(&[("a", 1)], &[]), report(&[("b", 2)], &[])];
    let session = Session::new(130, 10, agent_config, reports).unwrap();
    let outcomes = session.send(&vec![vec![7u8]]);
    assert_eq!(outcomes.len(), 1);
    assert_eq!(outcomes[0].as_ref().unwrap().body, vec![7u8]);
}

#[test]
fn the_folded_format_does_not_look_at_profile_bytes() {
    let session = Session::new(130, 10, config(), vec![report(&[("a", 1)], &[])]).unwrap();
    let request = session.process(&report(&[("x", 9)], &[]), &[1, 2, 3]).unwrap().unwrap();
    assert_eq!(request.body, b"x 9\n".to_vec());
    assert_eq!(request.query[3].value, "folded");
}

#[test]
fn bearer_token_and_extra_headers() {
    let agent_config =
        config().auth_token("secret").http_headers(vec![Tag::new("X-Scope-OrgID", "tenant")]);
    let session = Session::new(130, 10, agent_config, vec![report(&[("a", 1)], &[])]).unwrap();
    let requests = requests(session);
    assert_eq!(
        pairs(&requests[0].headers),
        owned(&[
            ("Content-Type", "binary/octet-stream"),
            ("Authorization", "Bearer secret"),
            ("X-Scope-OrgID", "tenant"),
        ])
    );
}

#[test]
fn compressed_bodies_are_gzip_streams() {
    let agent_config = config().compression(Compression::Gzip).auth_token("secret");
    let plain = b"a;b;c 5\n".to_vec();
    let session = Session::new(130, 10, agent_config, vec![report(&[("a;b;c", 5)], &[])]).unwrap();
    let requests = requests(session);
    assert_eq!(requests.len(), 1);
    let body = &requests[0].body;
    assert_ne!(body, &plain);
    assert!(body.len() >= 18);
    assert_eq!(&body[..3], &[31, 139, 8]);
    let mut decoder = libflate::gzip::Decoder::new(&body[..]).unwrap();
    let mut unpacked = Vec::new();
    std::io::Read::read_to_end(&mut decoder, &mut unpacked).unwrap();
    assert_eq!(unpacked, plain);
    assert_eq!(
        pairs(&requests[0].headers),
        owned(&[
            ("Content-Type", "binary/octet-stream"),
            ("Authorization", "Bearer secret"),
            ("Content-Encoding", "gzip"),
        ])
    );
    assert_eq!(requests[0].query[3].value, "folded");
}

#[test]
fn compressed_profile_bytes_unpack_to_what_the_encoder_made() {
    let agent_config =
        config().compression(Compression::Gzip).report_encoding(ReportEncoding::Pprof);
    let profile: Vec<u8> = (0u8..=255).collect();
    let session = Session::new(130, 10, agent_config, vec![report(&[("a", 1)], &[])]).unwrap();
    let outcomes = session.send(&vec![profile.clone()]);
    let body = &outcomes[0].as_ref().unwrap().body;
    assert_eq!(&body[..3], &[31, 139, 8]);
    let mut decoder = libflate::gzip::Decoder::new(&body[..]).unwrap();
    let mut unpacked = Vec::new();
    std::io::Read::read_to_end(&mut decoder, &mut unpacked).unwrap();
    assert_eq!(unpacked, profile);
}

#[test]
fn assembling_a_request_from_its_parts() {
    let agent_config = config().report_encoding(ReportEncoding::Pprof).sample_rate(250);
    let request = IngestRequest::assemble(
        &agent_config,
        60,
        120,
        "svc{a=b}".to_string(),
        "http://h/ingest".to_string(),
        vec![1, 2, 3],
        true,
    );
    assert_eq!(request.url, "http://h/ingest");
    assert_eq!(request.body, vec![1, 2, 3]);
    assert_eq!(
        pairs(&request.query),
        owned(&[
            ("name", "svc{a=b}"),
            ("from", "60"),
            ("until", "120"),
            ("format", "pprof"),
            ("sampleRate", "250"),
            ("spyName", "void"),
        ])
    );
    assert_eq!(
        pairs(&request.headers),
        owned(&[("Content-Type", "binary/octet-stream"), ("Content-Encoding", "gzip")])
    );
    assert_eq!(request.timeout_secs, 10);
}

fn session_until(until: u64) -> SessionSignal {
    SessionSignal::Session(Session::new(until, 10, config(), vec![report(&[("a", 1)], &[])]).unwrap())
}

fn shipped_until(step: WorkerStep) -> u64 {
    match step {
        WorkerStep::Ship(session) => session.until,
        other => panic!("expected a session, got {:?}", other),
    }
}

#[test]
fn sessions_leave_the_queue_in_the_order_they_came() {
    let mut manager = SessionManager::new();
    assert!(matches!(manager.next(), WorkerStep::Wait));
    for until in [130, 140, 150] {
        assert_eq!(manager.push(session_until(until)), Ok(()));
    }
    assert_eq!(manager.len(), 3);
    assert_eq!(shipped_until(manager.next()), 130);
    assert_eq!(shipped_until(manager.next()), 140);
    assert_eq!(shipped_until(manager.next()), 150);
    assert!(matches!(manager.next(), WorkerStep::Wait));
    assert_eq!(manager.len(), 0);
}

#[test]
fn a_full_queue_drops_the_session() {
    let mut manager = SessionManager::new();
    assert_eq!(SESSION_QUEUE_CAPACITY, 10);
    for i in 0..10u64 {
        assert_eq!(manager.push(session_until(130 + 10 * i)), Ok(()));
    }
    assert_eq!(manager.push(session_until(500)), Err(PyroscopeError::QueueFull));
    assert_eq!(manager.len(), 10);
    assert_eq!(shipped_until(manager.next()), 130);
    assert_eq!(manager.push(session_until(500)), Ok(()));
    assert_eq!(manager.len(), 10);
}

#[test]
fn a_full_queue_still_takes_the_kill_signal() {
    let mut manager = SessionManager::new();
    for i in 0..10u64 {
        manager.push(session_until(130 + 10 * i)).unwrap();
    }
    assert_eq!(manager.push(SessionSignal::Kill), Ok(()));
    assert_eq!(manager.len(), 10);
    for i in 0..10u64 {
        assert_eq!(shipped_until(manager.next()), 130 + 10 * i);
    }
    assert!(matches!(manager.next(), WorkerStep::Exit));
}

#[test]
fn shutdown_ships_what_is_queued_then_exits() {
    let mut manager = SessionManager::new();
    for until in [130, 140, 150] {
        manager.push(session_until(until)).unwrap();
    }
    manager.push(SessionSignal::Kill).unwrap();
    assert_eq!(shipped_until(manager.next()), 130);
    assert_eq!(shipped_until(manager.next()), 140);
    assert_eq!(shipped_until(manager.next()), 150);
    assert!(matches!(manager.next(), WorkerStep::Exit));
    assert!(matches!(manager.next(), WorkerStep::Exit));
    let gone = PyroscopeError::InvalidState {
        expected: pyroscope::state::AgentState::Running,
        actual: pyroscope::state::AgentState::Stopped,
    };
    assert_eq!(manager.push(session_until(160)), Err(gone));
    assert_eq!(manager.push(SessionSignal::Kill), Err(gone));
}

#[test]
fn a_kill_signal_on_an_empty_queue_ends_the_worker_at_once() {
    let mut manager = SessionManager::new();
    manager.push(SessionSignal::Kill).unwrap();
    assert!(matches!(manager.next(), WorkerStep::Exit));
}

#[test]
fn sessions_queued_behind_the_kill_signal_are_still_shipped() {
    let mut manager = SessionManager::new();
    manager.push(SessionSignal::Kill).unwrap();
    manager.push(session_until(130)).unwrap();
    manager.push(SessionSignal::Kill).unwrap();
    manager.push(session_until(140)).unwrap();
    assert_eq!(shipped_until(manager.next()), 130);
    assert_eq!(shipped_until(manager.next()), 140);
    assert!(matches!(manager.next(), WorkerStep::Exit));
}

#[test]
fn a_drain_without_reports_makes_no_session() {
    let mut agent = PyroscopeAgent::builder("http://h:4040", "t1");
    agent.build().unwrap();
    agent.start().unwrap();
    assert!(agent.snapshot(130, vec![]).unwrap().is_none());
    let session = agent.snapshot(130, vec![report(&[("a", 1)], &[])]).unwrap().unwrap();
    assert_eq!((session.from, session.until), (120, 130));
    assert!(agent.snapshot(5, vec![report(&[("a", 1)], &[])]).is_err());
}

#[test]
fn stop_drains_the_cycle_of_the_last_boundary() {
    let mut agent = PyroscopeAgent::builder("http://h:4040", "t1");
    agent.build().unwrap();
    agent.start().unwrap();
    agent.stop().unwrap();
    let session = agent.snapshot(133, vec![report(&[("a", 10)], &[])]).unwrap().unwrap();
    assert_eq!((session.from, session.until), (120, 130));
    assert_eq!(requests(session)[0].body, b"a 10\n".to_vec());
}

#[test]
fn reconfigure_tag_mid_flight() {
    let mut agent = PyroscopeAgent::builder("http://h:4040", "svc");
    assert_eq!(
        agent.add_global_tag("user", "alice"),
        Err(PyroscopeError::InvalidState {
            expected: pyroscope::state::AgentState::Running,
            actual: pyroscope::state::AgentState::Uninitialized
        })
    );
    agent.build().unwrap();
    agent.start().unwrap();
    agent.add_global_tag("env", "prod").unwrap();
    let cycle_k = agent.snapshot(130, vec![report(&[("a", 1)], &[])]).unwrap().unwrap();
    agent.add_global_tag("user", "alice").unwrap();
    let cycle_k1 = agent.snapshot(140, vec![report(&[("a", 1)], &[])]).unwrap().unwrap();
    agent.remove_global_tag("env", "prod").unwrap();
    let cycle_k2 = agent.snapshot(150, vec![report(&[("a", 1)], &[])]).unwrap().unwrap();
    assert_eq!(requests(cycle_k)[0].query[0].value, "svc{env=prod}");
    assert_eq!(requests(cycle_k1)[0].query[0].value, "svc{env=prod,user=alice}");
    assert_eq!(requests(cycle_k2)[0].query[0].value, "svc{user=alice}");
    assert_eq!(agent.config_snapshot().tags.len(), 1);
}
