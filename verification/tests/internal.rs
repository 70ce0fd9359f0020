use inmemory_cluster::clock::Instant;
use inmemory_cluster::internal::{
    apply_internal, parse_internal, read_message, record_latency, Fault, InternalOutcome,
    InternalRequest,
};
use inmemory_cluster::messages::{disconnect_message, identification_message};
use inmemory_cluster::store::{Database, PeerList};
use inmemory_cluster::{
    generate_command_add, generate_command_flush_all, generate_commmand_copy,
    identification_answer, TimingStats,
};

const SENT: &str = "2023-11-14T22:13:20+00:00";

fn now() -> Instant {
    Instant { secs: 1_700_000_001, nanos: 500 }
}

fn run(
    input: &str,
    db: &mut Database,
    peers: &mut PeerList,
    timing: &mut TimingStats,
) -> InternalOutcome {
    let req = parse_internal(input).expect("a cluster message");
    apply_internal(req, db, peers, timing, "me", "me:8000", now())
}

fn reply_text(outcome: &InternalOutcome) -> String {
    match outcome {
        InternalOutcome::Reply { bytes, .. } => String::from_utf8(bytes.clone()).unwrap(),
        _ => panic!("expected a reply"),
    }
}

#[test]
fn read_message_accepts_utf8_only() {
    assert_eq!(read_message("STATS|".as_bytes()), Some("STATS|".to_string()));
    assert_eq!(read_message(&[0xff, 0xfe]), None);
}

#[test]
fn parse_internal_without_bar_is_none() {
    assert!(parse_internal("*1\r\n$4\r\nPING\r\n").is_none());
}

#[test]
fn parse_internal_leaves_redis_arrays_alone() {
    assert!(parse_internal("*3\r\n$3\r\nSET\r\n$1\r\nk\r\n$3\r\na|b\r\n").is_none());
    assert!(parse_internal("*|").is_none());
}

#[test]
fn parse_internal_reads_add() {
    let input = format!("ADD|key=a,value=b,date={}", SENT);
    match parse_internal(&input) {
        Some(InternalRequest::Add { key, value, date }) => {
            assert_eq!(key, "a");
            assert_eq!(value, "b");
            assert_eq!(date, Some(SENT.to_string()));
        }
        _ => panic!("expected ADD"),
    }
}

#[test]
fn parse_internal_reads_add_without_date_value() {
    match parse_internal("ADD|key=a,value=b,nodate") {
        Some(InternalRequest::Add { date, .. }) => assert_eq!(date, None),
        _ => panic!("expected ADD"),
    }
}

#[test]
fn parse_internal_add_with_missing_fields_is_malformed() {
    assert!(matches!(parse_internal("ADD|key=a"), Some(InternalRequest::Malformed)));
    assert!(matches!(parse_internal("ADD|key,value=b,date=x"), Some(InternalRequest::Malformed)));
}

#[test]
fn parse_internal_reads_identification() {
    match parse_internal("IDENTIFICATION|hostname=n1,addr=10.0.0.1:8000") {
        Some(InternalRequest::Identification { name, addr }) => {
            assert_eq!(name, "n1");
            assert_eq!(addr, "10.0.0.1:8000");
        }
        _ => panic!("expected IDENTIFICATION"),
    }
}

#[test]
fn parse_internal_reads_stats_disconnect_flushall() {
    assert!(matches!(parse_internal("STATS|"), Some(InternalRequest::Stats)));
    match parse_internal("DISCONNECT|hostname=n1") {
        Some(InternalRequest::Disconnect { name }) => assert_eq!(name, "n1"),
        _ => panic!("expected DISCONNECT"),
    }
    assert!(matches!(parse_internal("FLUSHALL|"), Some(InternalRequest::FlushAll)));
}

#[test]
fn parse_internal_reads_copy_pairs() {
    match parse_internal("COPY|k=toto,v=tata\nCOPY|k=toto2,v=tata2") {
        Some(InternalRequest::Copy { pairs, complete }) => {
            assert!(complete);
            assert_eq!(
                pairs,
                vec![
                    ("toto".to_string(), "tata".to_string()),
                    ("toto2".to_string(), "tata2".to_string())
                ]
            );
        }
        _ => panic!("expected COPY"),
    }
}

#[test]
fn parse_internal_copy_stops_at_a_malformed_line() {
    match parse_internal("COPY|k=a,v=1\nCOPY|broken") {
        Some(InternalRequest::Copy { pairs, complete }) => {
            assert!(!complete);
            assert_eq!(pairs, vec![("a".to_string(), "1".to_string())]);
        }
        _ => panic!("expected COPY"),
    }
}

#[test]
fn parse_internal_names_an_unknown_command() {
    match parse_internal("HELLO|x") {
        Some(InternalRequest::Unimplemented { command }) => assert_eq!(command, "HELLO"),
        _ => panic!("expected an unknown command"),
    }
}

#[test]
fn apply_add_stores_and_records_latency() {
    let mut db = Database::new();
    let mut peers = PeerList::new();
    let mut timing = TimingStats::new();
    let out = run(&format!("ADD|key=a,value=b,date={}", SENT), &mut db, &mut peers, &mut timing);
    match &out {
        InternalOutcome::Reply { copy_to, latency_micros, .. } => {
            assert!(copy_to.is_none());
            assert_eq!(*latency_micros, Some(1_000_000));
        }
        _ => panic!("expected a reply"),
    }
    assert_eq!(reply_text(&out), "OK");
    assert_eq!(db.get("a"), Some("b".to_string()));
    assert_eq!(timing.total_time_micros(), 1_000_000);
    assert_eq!(timing.count(), 1);
}

#[test]
fn apply_add_with_bad_date_stores_then_fails() {
    let mut db = Database::new();
    let mut peers = PeerList::new();
    let mut timing = TimingStats::new();
    let out = run("ADD|key=a,value=b,date=yesterday", &mut db, &mut peers, &mut timing);
    assert!(matches!(out, InternalOutcome::Failed { fault: Fault::BadDate }));
    assert_eq!(db.get("a"), Some("b".to_string()));
    assert_eq!(timing.count(), 0);
}

#[test]
fn apply_add_without_date_value_stores_then_fails() {
    let mut db = Database::new();
    let mut peers = PeerList::new();
    let mut timing = TimingStats::new();
    let out = run("ADD|key=a,value=b,date", &mut db, &mut peers, &mut timing);
    assert!(matches!(out, InternalOutcome::Failed { fault: Fault::MissingDate }));
    assert_eq!(db.get("a"), Some("b".to_string()));
}

#[test]
fn apply_add_from_the_future_is_negative_latency() {
    let mut db = Database::new();
    let mut peers = PeerList::new();
    let mut timing = TimingStats::new();
    let out = run("ADD|key=a,value=b,date=2030-01-01T00:00:00+00:00", &mut db, &mut peers, &mut timing);
    assert!(matches!(out, InternalOutcome::Failed { fault: Fault::NegativeLatency }));
    assert_eq!(timing.count(), 0);
}

#[test]
fn apply_malformed_changes_nothing() {
    let mut db = Database::new();
    let mut peers = PeerList::new();
    let mut timing = TimingStats::new();
    let out = run("ADD|key=a", &mut db, &mut peers, &mut timing);
    assert!(matches!(out, InternalOutcome::Failed { fault: Fault::Malformed }));
    assert_eq!(db.len(), 0);
}

#[test]
fn apply_unknown_command_fails_with_its_name() {
    let mut db = Database::new();
    let mut peers = PeerList::new();
    let mut timing = TimingStats::new();
    match run("HELLO|x", &mut db, &mut peers, &mut timing) {
        InternalOutcome::Failed { fault: Fault::Unimplemented { command } } => {
            assert_eq!(command, "HELLO")
        }
        _ => panic!("expected a failure"),
    }
}

#[test]
fn apply_identification_records_peer_and_answers_with_list() {
    let mut db = Database::new();
    let mut peers = PeerList::new();
    peers.insert("b".to_string(), "b:1".to_string());
    let mut timing = TimingStats::new();
    let out = run("IDENTIFICATION|hostname=a,addr=a:1", &mut db, &mut peers, &mut timing);
    match &out {
        InternalOutcome::Reply { copy_to, latency_micros, .. } => {
            assert_eq!(copy_to.as_deref(), Some("a:1"));
            assert!(latency_micros.is_none());
        }
        _ => panic!("expected a reply"),
    }
    assert_eq!(
        reply_text(&out),
        "ME|hostname=me,addr=me:8000\nPEER|hostname=a,addr=a:1\nPEER|hostname=b,addr=b:1"
    );
    assert_eq!(peers.len(), 2);
}

#[test]
fn identification_answer_inserts_then_lists() {
    let mut peers = PeerList::new();
    let bytes = identification_answer(
        &mut peers,
        "peer1".to_string(),
        "1.2.3.4".to_string(),
        "me".to_string(),
        "me:1".to_string(),
    );
    assert_eq!(
        String::from_utf8(bytes).unwrap(),
        "ME|hostname=me,addr=me:1\nPEER|hostname=peer1,addr=1.2.3.4"
    );
}

#[test]
fn apply_stats_asks_for_statistics() {
    let mut db = Database::new();
    let mut peers = PeerList::new();
    let mut timing = TimingStats::new();
    assert!(matches!(run("STATS|", &mut db, &mut peers, &mut timing), InternalOutcome::StatsRequested));
}

#[test]
fn apply_disconnect_forgets_the_peer() {
    let mut db = Database::new();
    let mut peers = PeerList::new();
    peers.insert("a".to_string(), "a:1".to_string());
    peers.insert("b".to_string(), "b:1".to_string());
    let mut timing = TimingStats::new();
    let out = run(&disconnect_message("a"), &mut db, &mut peers, &mut timing);
    assert_eq!(reply_text(&out), "OK");
    assert_eq!(peers.len(), 1);
    let names: Vec<String> =
        peers.entries().into_iter().map(|(n, _)| n.into_iter().collect()).collect();
    assert_eq!(names, vec!["b".to_string()]);
}

#[test]
fn apply_flush_all_clears_the_database() {
    let mut db = Database::new();
    db.insert("a".to_string(), "1".to_string());
    let mut peers = PeerList::new();
    let mut timing = TimingStats::new();
    let out = run(&generate_command_flush_all(), &mut db, &mut peers, &mut timing);
    assert_eq!(reply_text(&out), "OK");
    assert_eq!(db.len(), 0);
}

#[test]
fn apply_copy_stores_the_pairs() {
    let mut db = Database::new();
    let mut peers = PeerList::new();
    let mut timing = TimingStats::new();
    let out = run("COPY|k=toto,v=tata\nCOPY|k=toto2,v=tata2", &mut db, &mut peers, &mut timing);
    assert_eq!(reply_text(&out), "OK");
    assert_eq!(db.get("toto"), Some("tata".to_string()));
    assert_eq!(db.get("toto2"), Some("tata2".to_string()));
}

#[test]
fn apply_incomplete_copy_stores_the_lines_before_the_fault() {
    let mut db = Database::new();
    let mut peers = PeerList::new();
    let mut timing = TimingStats::new();
    let out = run("COPY|k=a,v=1\nCOPY|broken", &mut db, &mut peers, &mut timing);
    assert!(matches!(out, InternalOutcome::Failed { fault: Fault::Malformed }));
    assert_eq!(db.get("a"), Some("1".to_string()));
}

#[test]
fn record_latency_refuses_missing_measure() {
    let mut timing = TimingStats::new();
    assert!(matches!(record_latency(&mut timing, None), Err(Fault::NegativeLatency)));
    assert!(matches!(record_latency(&mut timing, Some(-5)), Err(Fault::NegativeLatency)));
    assert!(matches!(record_latency(&mut timing, Some(7)), Ok(7)));
    assert_eq!(timing.total_time_micros(), 7);
    assert_eq!(timing.count(), 1);
}

#[test]
fn add_command_reads_back_at_the_peer() {
    let instant = Instant { secs: 1_700_000_000, nanos: 0 };
    let command = generate_command_add("key1".to_string(), "value1".to_string(), instant).unwrap();
    match parse_internal(&command) {
        Some(InternalRequest::Add { key, value, date }) => {
            assert_eq!(key, "key1");
            assert_eq!(value, "value1");
            assert_eq!(date, Some(SENT.to_string()));
        }
        _ => panic!("expected ADD"),
    }
}

#[test]
fn identification_reads_back_at_the_peer() {
    match parse_internal(&identification_message("n7", "n7.ns")) {
        Some(InternalRequest::Identification { name, addr }) => {
            assert_eq!(name, "n7");
            assert_eq!(addr, "n7.ns");
        }
        _ => panic!("expected IDENTIFICATION"),
    }
}

#[test]
fn disconnect_and_flush_all_read_back_at_the_peer() {
    match parse_internal(&disconnect_message("n7")) {
        Some(InternalRequest::Disconnect { name }) => assert_eq!(name, "n7"),
        _ => panic!("expected DISCONNECT"),
    }
    assert!(matches!(parse_internal(&generate_command_flush_all()), Some(InternalRequest::FlushAll)));
}

#[test]
fn copy_reads_back_as_the_pairs() {
    let mut db = Database::new();
    db.insert("x".to_string(), "10".to_string());
    db.insert("y".to_string(), "20".to_string());
    let text = String::from_utf8(generate_commmand_copy(&db)).unwrap();
    match parse_internal(&text) {
        Some(InternalRequest::Copy { pairs, complete }) => {
            assert!(complete);
            assert_eq!(
                pairs,
                vec![("x".to_string(), "10".to_string()), ("y".to_string(), "20".to_string())]
            );
        }
        _ => panic!("expected COPY"),
    }
}

#[test]
fn sent_add_records_the_elapsed_time() {
    let sent = Instant { secs: 1_700_000_000, nanos: 250_000_000 };
    let command = generate_command_add("k".to_string(), "v".to_string(), sent).unwrap();
    let mut db = Database::new();
    let mut peers = PeerList::new();
    let mut timing = TimingStats::new();
    let later = Instant { secs: 1_700_000_002, nanos: 750_000_000 };
    let req = parse_internal(&command).unwrap();
    match apply_internal(req, &mut db, &mut peers, &mut timing, "me", "me:1", later) {
        InternalOutcome::Reply { latency_micros, copy_to, .. } => {
            assert_eq!(latency_micros, Some(2_500_000));
            assert!(copy_to.is_none());
        }
        _ => panic!("expected a reply"),
    }
    assert_eq!(db.get("k"), Some("v".to_string()));
    assert_eq!(timing.total_time_micros(), 2_500_000);
    assert_eq!(timing.count(), 1);
}

#[test]
fn identification_exchange_between_two_nodes() {
    // The answering node "n" at "n:1" already knows "a" (the asker) and "p".
    let mut server_db = Database::new();
    let mut server_peers = PeerList::new();
    server_peers.insert("p".to_string(), "p:1".to_string());
    let mut timing = TimingStats::new();
    let hello = identification_message("a", "a:1");
    let req = parse_internal(&hello).unwrap();
    let out = apply_internal(req, &mut server_db, &mut server_peers, &mut timing, "n", "n:1", now());
    let bytes = match out {
        InternalOutcome::Reply { bytes, copy_to, .. } => {
            assert_eq!(copy_to.as_deref(), Some("a:1"));
            bytes
        }
        _ => panic!("expected a reply"),
    };
    assert_eq!(server_peers.len(), 2);
    let mut local = PeerList::new();
    assert!(inmemory_cluster::peer_answer::apply_peer_answer(&mut local, &bytes, "a:1"));
    let names: Vec<(String, String)> = local
        .entries()
        .into_iter()
        .map(|(n, a)| (n.into_iter().collect(), a.into_iter().collect()))
        .collect();
    assert_eq!(
        names,
        vec![("n".to_string(), "n:1".to_string()), ("p".to_string(), "p:1".to_string())]
    );
}

#[test]
fn copy_line_without_value_is_malformed() {
    match parse_internal("COPY|k=a,v") {
        Some(InternalRequest::Copy { pairs, complete }) => {
            assert!(!complete);
            assert!(pairs.is_empty());
        }
        _ => panic!("expected COPY"),
    }
}
