use inmemory_cluster::clock::Instant;
use inmemory_cluster::messages::{
    dev_peer_ports, disconnect_message, identification_message, peer_address, stats_request,
};
use inmemory_cluster::store::{Database, PeerList};
use inmemory_cluster::{
    expose_known_peers, generate_command_add, generate_command_flush_all, generate_commmand_copy,
};

fn peers_of(pairs: &[(&str, &str)]) -> PeerList {
    let mut peers = PeerList::new();
    for (name, addr) in pairs {
        peers.insert(name.to_string(), addr.to_string());
    }
    peers
}

#[test]
fn expose_known_peers_without_peers() {
    let peers = PeerList::new();
    assert_eq!(
        expose_known_peers(&peers, "myName".to_string(), "address:8888".to_string()),
        "ME|hostname=myName,addr=address:8888".as_bytes().to_vec()
    );
}

#[test]
fn expose_known_peers_with_one_peer() {
    let peers = peers_of(&[("1", "11")]);
    assert_eq!(
        expose_known_peers(&peers, "myName".to_string(), "address:8888".to_string()),
        "ME|hostname=myName,addr=address:8888\nPEER|hostname=1,addr=11"
            .as_bytes()
            .to_vec()
    );
}

#[test]
fn expose_known_peers_with_three_peers() {
    let peers = peers_of(&[("1", "11"), ("2", "22"), ("3", "33")]);
    assert_eq!(
        expose_known_peers(&peers, "myName".to_string(), "address:8888".to_string()),
        "ME|hostname=myName,addr=address:8888\nPEER|hostname=1,addr=11\nPEER|hostname=2,addr=22\nPEER|hostname=3,addr=33"
            .as_bytes()
            .to_vec()
    );
}

#[test]
fn expose_known_peers_lists_peers_sorted_by_name() {
    let peers = peers_of(&[("c", "3"), ("a", "1"), ("b", "2")]);
    assert_eq!(
        expose_known_peers(&peers, "me".to_string(), "x".to_string()),
        "ME|hostname=me,addr=x\nPEER|hostname=a,addr=1\nPEER|hostname=b,addr=2\nPEER|hostname=c,addr=3"
            .as_bytes()
            .to_vec()
    );
}

#[test]
fn generate_commmand_copy_with_two_pairs() {
    let mut db = Database::new();
    db.insert("toto".to_string(), "tata".to_string());
    db.insert("toto2".to_string(), "tata2".to_string());
    assert_eq!(
        String::from_utf8(generate_commmand_copy(&db)).unwrap(),
        "COPY|k=toto,v=tata\nCOPY|k=toto2,v=tata2"
    );
}

#[test]
fn generate_commmand_copy_of_empty_database_is_empty() {
    let db = Database::new();
    assert!(generate_commmand_copy(&db).is_empty());
}

#[test]
fn generate_commmand_copy_keeps_a_replaced_value_in_place() {
    let mut db = Database::new();
    db.insert("a".to_string(), "1".to_string());
    db.insert("b".to_string(), "2".to_string());
    db.insert("a".to_string(), "3".to_string());
    assert_eq!(
        String::from_utf8(generate_commmand_copy(&db)).unwrap(),
        "COPY|k=a,v=3\nCOPY|k=b,v=2"
    );
}

#[test]
fn generate_command_flush_all_is_formatted() {
    assert_eq!(generate_command_flush_all(), "FLUSHALL|".to_string());
}

#[test]
fn generate_command_add_with_one_key_and_one_value() {
    let date = chrono::Utc::now();
    let instant = Instant { secs: date.timestamp(), nanos: date.timestamp_subsec_nanos() };
    assert_eq!(
        generate_command_add("a".to_string(), "b".to_string(), instant),
        Some(format!("ADD|key=a,value=b,date={}", date.to_rfc3339()))
    );
}

#[test]
fn generate_command_add_at_a_fixed_instant() {
    let instant = Instant { secs: 1_700_000_000, nanos: 0 };
    assert_eq!(
        generate_command_add("k".to_string(), "v".to_string(), instant),
        Some("ADD|key=k,value=v,date=2023-11-14T22:13:20+00:00".to_string())
    );
}

#[test]
fn generate_command_add_out_of_range_instant() {
    let instant = Instant { secs: i64::MAX, nanos: 0 };
    assert_eq!(generate_command_add("k".to_string(), "v".to_string(), instant), None);
}

#[test]
fn identification_message_is_formatted() {
    assert_eq!(
        identification_message("node-1", "node-1.cluster"),
        "IDENTIFICATION|hostname=node-1,addr=node-1.cluster"
    );
}

#[test]
fn disconnect_message_is_formatted() {
    assert_eq!(disconnect_message("node-1"), "DISCONNECT|hostname=node-1");
}

#[test]
fn stats_request_is_formatted() {
    assert_eq!(stats_request(), "STATS|");
}

#[test]
fn peer_address_joins_ip_and_port() {
    assert_eq!(peer_address("10.0.0.7", 9000), "10.0.0.7:9000");
    assert_eq!(peer_address("0.0.0.0", 0), "0.0.0.0:0");
    assert_eq!(peer_address("h", 65535), "h:65535");
}

#[test]
fn dev_peer_ports_leave_out_own_port() {
    let ports = dev_peer_ports(8003);
    assert_eq!(ports.len(), 49);
    assert_eq!(ports[0], 8000);
    assert_eq!(ports[3], 8004);
    assert_eq!(*ports.last().unwrap(), 8049);
    assert!(!ports.contains(&8003));
}

#[test]
fn dev_peer_ports_for_a_port_outside_the_range() {
    let ports = dev_peer_ports(9000);
    assert_eq!(ports, (8000u16..8050).collect::<Vec<u16>>());
}

#[test]
fn add_command_joins_the_fields() {
    assert_eq!(
        inmemory_cluster::messages::add_command("a", "b", "2023-11-14T22:13:20+00:00"),
        "ADD|key=a,value=b,date=2023-11-14T22:13:20+00:00"
    );
}
