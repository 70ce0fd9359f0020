use inmemory_cluster::env::{own_url, parse_port};
use inmemory_cluster::html::{peers_table_rows, values_table_rows};
use inmemory_cluster::peer_answer::apply_peer_answer;
use inmemory_cluster::store::{Database, PeerList};
use inmemory_cluster::{expose_known_peers, Environment, State, TimingStats};

fn names_and_addrs(peers: &PeerList) -> Vec<(String, String)> {
    peers
        .entries()
        .into_iter()
        .map(|(n, a)| (n.into_iter().collect(), a.into_iter().collect()))
        .collect()
}

fn pair(a: &str, b: &str) -> (String, String) {
    (a.to_string(), b.to_string())
}

#[test]
fn peer_list_is_sorted_and_replaces() {
    let mut peers = PeerList::new();
    peers.insert("b".to_string(), "2".to_string());
    peers.insert("a".to_string(), "1".to_string());
    peers.insert("c".to_string(), "3".to_string());
    peers.insert("b".to_string(), "22".to_string());
    assert_eq!(names_and_addrs(&peers), vec![pair("a", "1"), pair("b", "22"), pair("c", "3")]);
    assert_eq!(peers.len(), 3);
}

#[test]
fn peer_list_remove() {
    let mut peers = PeerList::new();
    peers.insert("a".to_string(), "1".to_string());
    peers.insert("b".to_string(), "2".to_string());
    peers.remove("a");
    peers.remove("zz");
    assert_eq!(names_and_addrs(&peers), vec![pair("b", "2")]);
}

#[test]
fn database_insert_get_clear() {
    let mut db = Database::new();
    db.insert("k".to_string(), "v".to_string());
    db.insert("k2".to_string(), "v2".to_string());
    db.insert("k".to_string(), "w".to_string());
    assert_eq!(db.get("k"), Some("w".to_string()));
    assert_eq!(db.get("k2"), Some("v2".to_string()));
    assert_eq!(db.get("x"), None);
    assert_eq!(db.len(), 2);
    db.clear();
    assert_eq!(db.len(), 0);
    assert_eq!(db.get("k"), None);
}

#[test]
fn exposure_is_recorded_by_the_peer() {
    let mut theirs = PeerList::new();
    theirs.insert("a".to_string(), "a:1".to_string());
    theirs.insert("c".to_string(), "c:1".to_string());
    let answer = expose_known_peers(&theirs, "b".to_string(), "b:1".to_string());
    let mut mine = PeerList::new();
    assert!(apply_peer_answer(&mut mine, &answer, "a:1"));
    assert_eq!(names_and_addrs(&mine), vec![pair("b", "b:1"), pair("c", "c:1")]);
}

#[test]
fn peer_answer_stops_at_an_unreadable_line() {
    let mut mine = PeerList::new();
    let answer = b"ME|hostname=x,addr=y\nJUNK|z\nPEER|hostname=q,addr=r";
    assert!(!apply_peer_answer(&mut mine, answer, "me"));
    assert_eq!(names_and_addrs(&mine), vec![pair("x", "y")]);
}

#[test]
fn peer_answer_without_bar_changes_nothing() {
    let mut mine = PeerList::new();
    assert!(apply_peer_answer(&mut mine, b"OK", "me"));
    assert_eq!(mine.len(), 0);
}

#[test]
fn peer_answer_with_missing_address_records_empty_address() {
    let mut mine = PeerList::new();
    assert!(apply_peer_answer(&mut mine, b"ME|hostname=x", "me"));
    assert_eq!(names_and_addrs(&mine), vec![pair("x", "")]);
}

#[test]
fn peer_answer_replaces_invalid_utf8() {
    let mut mine = PeerList::new();
    assert!(apply_peer_answer(&mut mine, b"ME|hostname=x\xff,addr=y", "me"));
    assert_eq!(names_and_addrs(&mine), vec![pair("x\u{FFFD}", "y")]);
}

#[test]
fn peers_table_lists_this_node_first() {
    let state = State { hostname: "me".to_string(), reacheable_url: "me:1".to_string() };
    let mut peers = PeerList::new();
    peers.insert("p".to_string(), "p:1".to_string());
    assert_eq!(
        peers_table_rows(&state, &peers),
        format!(
            "{}{}",
            r#"<tr class="border-b"><td class="p-2 font-mono">me</td><td class="p-2 font-mono text-gray-600">me:1</td></tr>"#,
            r#"<tr class="border-b"><td class="p-2 font-mono">p</td><td class="p-2 font-mono text-gray-600">p:1</td></tr>"#
        )
    );
}

#[test]
fn values_table_lists_entries() {
    let mut db = Database::new();
    db.insert("k".to_string(), "v".to_string());
    assert_eq!(
        values_table_rows(&db),
        r#"<tr class="border-b"><td class="p-2 font-mono">k</td><td class="p-2 font-mono text-gray-600">v</td></tr>"#
    );
    assert_eq!(values_table_rows(&Database::new()), "");
}

#[test]
fn environment_names() {
    assert_eq!(Environment::from_name("production"), Some(Environment::Prod));
    assert_eq!(Environment::from_name("development"), Some(Environment::Dev));
    assert_eq!(Environment::from_name("Production"), None);
    assert_eq!(Environment::Prod.name(), "production");
    assert_eq!(Environment::Dev.name(), "development");
}

#[test]
fn own_url_per_environment() {
    assert_eq!(own_url(Environment::Prod, "node-0", "cluster", 8000), "node-0.cluster");
    assert_eq!(own_url(Environment::Dev, "node-0", "cluster", 8007), "0.0.0.0:8007");
}

#[test]
fn timing_stats_count_samples() {
    let mut t = TimingStats::new();
    assert_eq!(t.average_parts(), None);
    t.add_sample(10);
    t.add_sample(30);
    assert_eq!(t.total_time_micros(), 40);
    assert_eq!(t.count(), 2);
    assert_eq!(t.average_parts(), Some((40, 2)));
    assert!(t.can_add(u128::MAX - 40));
    assert!(!t.can_add(u128::MAX - 39));
}

#[test]
fn answer_text_skips_own_address() {
    let mut mine = PeerList::new();
    let ok = inmemory_cluster::peer_answer::apply_answer_text(
        &mut mine,
        "ME|hostname=b,addr=b:1\nPEER|hostname=a,addr=a:1\nPEER|hostname=c,addr=c:1",
        "a:1",
    );
    assert!(ok);
    assert_eq!(names_and_addrs(&mine), vec![pair("b", "b:1"), pair("c", "c:1")]);
}

#[test]
fn peer_order_depends_on_peers_alone() {
    let mut a = PeerList::new();
    a.insert("y".to_string(), "2".to_string());
    a.insert("x".to_string(), "1".to_string());
    let mut b = PeerList::new();
    b.insert("x".to_string(), "1".to_string());
    b.insert("y".to_string(), "2".to_string());
    assert_eq!(names_and_addrs(&a), names_and_addrs(&b));
}

#[test]
fn parse_port_reads_like_std() {
    assert_eq!(parse_port("8080"), Some(8080));
    assert_eq!(parse_port("+80"), Some(80));
    assert_eq!(parse_port("0080"), Some(80));
    assert_eq!(parse_port("65535"), Some(65535));
    assert_eq!(parse_port("65536"), None);
    assert_eq!(parse_port(""), None);
    assert_eq!(parse_port("+"), None);
    assert_eq!(parse_port("-1"), None);
    assert_eq!(parse_port(" 80"), None);
    assert_eq!(parse_port("99999999999999999999"), None);
    for text in ["0", "1", "9", "+0", "++1", "12a", "٣", "000000065535", "70000", "8O", "+65536"] {
        assert_eq!(parse_port(text), text.parse::<u16>().ok(), "{}", text);
    }
}
