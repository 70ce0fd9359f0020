use inmemory_cluster::resp::{
    client_ack, execute_resp, read_resp, scan_chunks, Broadcast, ChunkKind, RespReply, RespRequest,
};
use inmemory_cluster::dispatch::plan_message;
use inmemory_cluster::store::Database;

fn exec(input: &str, db: &mut Database) -> RespReply {
    let req = read_resp(input).expect("a command");
    execute_resp(req, db)
}

fn text(reply: &RespReply) -> String {
    String::from_utf8(reply.bytes.clone()).unwrap()
}

#[test]
fn scan_chunks_finds_client_chunks() {
    let input = "*4\r\n$6\r\nCLIENT\r\n$7\r\nSETINFO\r\n$8\r\nLIB-NAME\r\n$8\r\nredis-py\r\n*4\r\n$6\r\nCLIENT\r\n$7\r\nSETINFO\r\n$7\r\nLIB-VER\r\n$5\r\n5.0.1\r\n";
    assert_eq!(scan_chunks(input), vec![ChunkKind::Client, ChunkKind::Client]);
}

#[test]
fn scan_chunks_other_and_malformed() {
    assert_eq!(
        scan_chunks("*4\r\n$6\r\nCLIENT\r\n$7\r\nSETINFO\r\n*4\r\n$3\r\nSET\r\n"),
        vec![ChunkKind::Client, ChunkKind::Other]
    );
    assert_eq!(
        scan_chunks("*4\r\n$6\r\nCLIENT\r\n*4x"),
        vec![ChunkKind::Client, ChunkKind::Malformed]
    );
    assert_eq!(scan_chunks(""), Vec::<ChunkKind>::new());
}

#[test]
fn scan_chunks_cuts_every_message() {
    assert_eq!(scan_chunks("*4\r\n$3\r\nSET\r\n"), vec![ChunkKind::Other]);
    assert_eq!(scan_chunks("*4\r\nPING"), vec![ChunkKind::Malformed]);
    assert_eq!(scan_chunks("*1\r\n$4\r\nPING\r\n"), vec![ChunkKind::Other]);
    assert_eq!(
        scan_chunks("*3\r\n$3\r\nSET\r\n$1\r\nk\r\n$4\r\na*4b\r\n"),
        vec![ChunkKind::Other, ChunkKind::Malformed]
    );
}

fn planned_set(input: &str) -> (String, String) {
    let plan = plan_message(input);
    assert!(plan.internal.is_none());
    assert_eq!(plan.client_acks, 0);
    match plan.redis {
        Some(RespRequest::SetValue { key, value }) => (key, value),
        _ => panic!("expected SET"),
    }
}

#[test]
fn set_with_bar_in_value_is_stored() {
    let input = "*3\r\n$3\r\nSET\r\n$1\r\nk\r\n$3\r\na|b\r\n";
    assert_eq!(planned_set(input), ("k".to_string(), "a|b".to_string()));
    let mut db = Database::new();
    let r = exec(input, &mut db);
    assert_eq!(text(&r), "+OK\r\n");
    assert_eq!(db.get("k"), Some("a|b".to_string()));
}

#[test]
fn set_with_star_four_in_value_is_stored() {
    let input = "*3\r\n$3\r\nSET\r\n$1\r\nk\r\n$4\r\na*4b\r\n";
    assert_eq!(planned_set(input), ("k".to_string(), "a*4b".to_string()));
    let mut db = Database::new();
    let r = exec(input, &mut db);
    assert_eq!(text(&r), "+OK\r\n");
    assert_eq!(db.get("k"), Some("a*4b".to_string()));
}

#[test]
fn lower_case_set_and_mixed_case_get() {
    let input = "*3\r\n$3\r\nset\r\n$1\r\nk\r\n$1\r\nv\r\n";
    assert_eq!(planned_set(input), ("k".to_string(), "v".to_string()));
    let mut db = Database::new();
    assert_eq!(text(&exec(input, &mut db)), "+OK\r\n");
    assert_eq!(db.get("k"), Some("v".to_string()));
    assert_eq!(text(&exec("*2\r\n$3\r\ngEt\r\n$1\r\nk\r\n", &mut db)), "$1\r\nv\r\n");
}

#[test]
fn plan_answers_client_chunks_only() {
    let input = "*4\r\n$6\r\nCLIENT\r\n$7\r\nSETINFO\r\n$8\r\nLIB-NAME\r\n$8\r\nredis-py\r\n*4\r\n$6\r\nCLIENT\r\n$7\r\nSETINFO\r\n$7\r\nLIB-VER\r\n$5\r\n5.0.1\r\n";
    let plan = plan_message(input);
    assert!(plan.internal.is_none());
    assert_eq!(plan.client_acks, 2);
    assert!(plan.redis.is_none());
}

#[test]
fn plan_of_a_cluster_message() {
    let plan = plan_message("STATS|");
    assert!(matches!(plan.internal, Some(inmemory_cluster::internal::InternalRequest::Stats)));
    assert_eq!(plan.client_acks, 0);
    assert!(plan.redis.is_none());
}

#[test]
fn client_ack_is_ok() {
    assert_eq!(client_ack(), b"+OK\r\n".to_vec());
}

#[test]
fn read_resp_needs_three_lines() {
    assert!(read_resp("PING").is_none());
    assert!(read_resp("*1\r\n$4").is_none());
}

#[test]
fn read_resp_upper_cases_the_command() {
    assert!(matches!(read_resp("*1\r\n$4\r\nping\r\n"), Some(RespRequest::Ping)));
    match read_resp("*2\r\n$4\r\necho\r\n$5\r\nhello\r\n") {
        Some(RespRequest::Echo { text }) => assert_eq!(text, "hello"),
        _ => panic!("expected ECHO"),
    }
}

#[test]
fn ping_answers_pong() {
    let mut db = Database::new();
    let r = exec("*1\r\n$4\r\nPING\r\n", &mut db);
    assert_eq!(text(&r), "+PONG\r\n");
    assert!(matches!(r.broadcast, Broadcast::Nothing));
}

#[test]
fn echo_answers_its_argument() {
    let mut db = Database::new();
    let r = exec("*2\r\n$4\r\nECHO\r\n$5\r\nhello\r\n", &mut db);
    assert_eq!(text(&r), "+hello\r\n");
}

#[test]
fn client_setup_commands_answer_two_oks() {
    let mut db = Database::new();
    let r = exec("*4\r\n$6\r\nCLIENT\r\n$7\r\nSETINFO\r\n", &mut db);
    assert_eq!(text(&r), "+OK\r\n+OK\r\n");
    let r = exec("*2\r\n$7\r\nLIB-VER\r\n$1\r\n1\r\n", &mut db);
    assert_eq!(text(&r), "+OK\r\n+OK\r\n");
}

#[test]
fn set_stores_and_broadcasts() {
    let mut db = Database::new();
    let r = exec("*3\r\n$3\r\nSET\r\n$3\r\nkey\r\n$5\r\nvalue\r\n", &mut db);
    assert_eq!(text(&r), "+OK\r\n");
    match r.broadcast {
        Broadcast::Add { key, value } => {
            assert_eq!(key, "key");
            assert_eq!(value, "value");
        }
        _ => panic!("expected an ADD broadcast"),
    }
    assert_eq!(db.get("key"), Some("value".to_string()));
}

#[test]
fn get_after_set_gives_bulk_string() {
    let mut db = Database::new();
    exec("*3\r\n$3\r\nSET\r\n$3\r\nkey\r\n$5\r\nvalue\r\n", &mut db);
    let r = exec("*2\r\n$3\r\nGET\r\n$3\r\nkey\r\n", &mut db);
    assert_eq!(text(&r), "$5\r\nvalue\r\n");
    assert!(matches!(r.broadcast, Broadcast::Nothing));
}

#[test]
fn get_counts_bytes_not_characters() {
    let mut db = Database::new();
    db.insert("k".to_string(), "é".to_string());
    let r = exec("*2\r\n$3\r\nGET\r\n$1\r\nk\r\n", &mut db);
    assert_eq!(text(&r), "$2\r\né\r\n");
}

#[test]
fn get_of_missing_key_is_nil() {
    let mut db = Database::new();
    let r = exec("*2\r\n$3\r\nGET\r\n$3\r\nkey\r\n", &mut db);
    assert_eq!(text(&r), "$-1\r\n");
}

#[test]
fn flush_all_empties_and_broadcasts() {
    let mut db = Database::new();
    db.insert("a".to_string(), "1".to_string());
    let r = exec("*1\r\n$8\r\nFLUSHALL\r\n", &mut db);
    assert_eq!(text(&r), "+OK\r\n");
    assert!(matches!(r.broadcast, Broadcast::FlushAll));
    assert_eq!(db.len(), 0);
    let r = exec("*2\r\n$3\r\nGET\r\n$1\r\na\r\n", &mut db);
    assert_eq!(text(&r), "$-1\r\n");
}

#[test]
fn missing_arguments_are_reported() {
    let mut db = Database::new();
    assert_eq!(
        text(&exec("*1\r\n$3\r\nGET\r\n", &mut db)),
        "-ERR wrong number of arguments for 'get'\r\n"
    );
    assert_eq!(
        text(&exec("*2\r\n$3\r\nSET\r\n$1\r\nk\r\n", &mut db)),
        "-ERR wrong number of arguments for 'set'\r\n"
    );
    assert_eq!(
        text(&exec("*1\r\n$4\r\nECHO\r\n", &mut db)),
        "-ERR wrong number of arguments for 'echo'\r\n"
    );
    assert_eq!(db.len(), 0);
}

#[test]
fn unknown_command_is_reported() {
    let mut db = Database::new();
    let r = exec("*1\r\n$4\r\nQUIT\r\n", &mut db);
    assert_eq!(text(&r), "-ERR unknown command\r\n");
}
