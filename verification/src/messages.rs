//! The messages that a node sends to its peers, and the text of the ones
//! it answers with.

use vstd::prelude::*;
use vstd::utf8::encode_utf8;
use crate::clock::{format_rfc3339, rfc3339_of, Instant};
use crate::store::{Database, Pairs, PeerList};
use crate::text::{chars_of, decimal, push_chars, push_decimal, push_str, string_of};

verus! {

broadcast use vstd::string::group_string_axioms;

/// The bytes of `s` (UTF-8).
pub fn text_bytes(s: &str) -> (b: Vec<u8>)
    ensures
        b@ == encode_utf8(s@),
{
    vstd::slice::slice_to_vec(s.as_bytes())
}

/// The bytes of the characters `v` (UTF-8).
pub fn chars_bytes(v: &Vec<char>) -> (b: Vec<u8>)
    ensures
        b@ == encode_utf8(v@),
{
    let s = string_of(v);
    text_bytes(s.as_str())
}

/// Text that holds none of the protocol's separators `|`, `,`, `=` and new
/// line.
pub open spec fn plain(s: Seq<char>) -> bool {
    &&& !s.contains('|')
    &&& !s.contains(',')
    &&& !s.contains('=')
    &&& !s.contains('\n')
}

/// `ADD|key=<key>,value=<value>,date=<date>`.
pub open spec fn add_command_text(key: Seq<char>, value: Seq<char>, date: Seq<char>) -> Seq<char> {
    "ADD|key="@ + key + ",value="@ + value + ",date="@ + date
}

/// The ADD command that replicates `key` and `value` to a peer, stamped with
/// the date text `date`.
pub fn add_command(key: &str, value: &str, date: &str) -> (s: String)
    ensures
        s@ == add_command_text(key@, value@, date@),
{
    let mut out: Vec<char> = Vec::new();
    push_str(&mut out, "ADD|key=");
    push_str(&mut out, key);
    push_str(&mut out, ",value=");
    push_str(&mut out, value);
    push_str(&mut out, ",date=");
    push_str(&mut out, date);
    assert(out@ =~= add_command_text(key@, value@, date@));
    string_of(&out)
}

/// The ADD command that replicates `key` and `value` to a peer, stamped with
/// the RFC 3339 text of `date`; `None` where `chrono` has no date for the
/// instant.
pub fn generate_command_add(key: String, value: String, date: Instant) -> (r: Option<String>)
    ensures
        match rfc3339_of(date.secs, date.nanos) {
            Some(d) => r is Some && r->0@ == add_command_text(key@, value@, d) && plain(d),
            None => r is None,
        },
{
    match format_rfc3339(date.secs, date.nanos) {
        Some(d) => Some(add_command(key.as_str(), value.as_str(), d.as_str())),
        None => None,
    }
}

/// `COPY|k=<key>,v=<value>`.
pub open spec fn copy_line(k: Seq<char>, v: Seq<char>) -> Seq<char> {
    "COPY|k="@ + k + ",v="@ + v
}

/// One COPY line per pair, in order, separated by new lines.
pub open spec fn copy_text(pairs: Pairs) -> Seq<char>
    decreases pairs.len(),
{
    if pairs.len() == 0 {
        Seq::empty()
    } else if pairs.len() == 1 {
        copy_line(pairs[0].0, pairs[0].1)
    } else {
        copy_text(pairs.drop_last()) + "\n"@ + copy_line(pairs.last().0, pairs.last().1)
    }
}

/// The COPY message that hands the whole database to a peer: one line per
/// entry, in the database's order (empty for an empty database).
pub fn generate_commmand_copy(database: &Database) -> (b: Vec<u8>)
    ensures
        b@ == encode_utf8(copy_text(database.pairs())),
{
    let entries = database.entries();
    let ghost pairs = database.pairs();
    let mut out: Vec<char> = Vec::new();
    for i in 0..entries.len()
        invariant
            pairs.len() == entries@.len(),
            forall|j: int| 0 <= j < entries@.len() ==> #[trigger] pairs[j] == (entries@[j].0@, entries@[j].1@),
            out@ == copy_text(pairs.take(i as int)),
    {
        let ghost before = out@;
        if i > 0 {
            push_str(&mut out, "\n");
        }
        push_str(&mut out, "COPY|k=");
        push_chars(&mut out, &entries[i].0);
        push_str(&mut out, ",v=");
        push_chars(&mut out, &entries[i].1);
        let ghost t = pairs.take(i + 1);
        assert(t.drop_last() =~= pairs.take(i as int));
        assert(t.last() == pairs[i as int]);
        if i > 0 {
            assert(out@ =~= before + "\n"@ + copy_line(pairs[i as int].0, pairs[i as int].1));
        } else {
            assert(out@ =~= copy_line(pairs[i as int].0, pairs[i as int].1));
        }
    }
    assert(pairs.take(entries@.len() as int) =~= pairs);
    chars_bytes(&out)
}

/// The FLUSHALL command that empties a peer's database.
pub fn generate_command_flush_all() -> (s: String)
    ensures
        s@ == "FLUSHALL|"@,
{
    string_of(&chars_of("FLUSHALL|"))
}

/// `ME|hostname=<name>,addr=<addr>`.
pub open spec fn me_line(name: Seq<char>, addr: Seq<char>) -> Seq<char> {
    "ME|hostname="@ + name + ",addr="@ + addr
}

/// `PEER|hostname=<name>,addr=<addr>`.
pub open spec fn peer_line(name: Seq<char>, addr: Seq<char>) -> Seq<char> {
    "PEER|hostname="@ + name + ",addr="@ + addr
}

/// A new line and a PEER line for each pair, in order.
pub open spec fn peer_lines(pairs: Pairs) -> Seq<char>
    decreases pairs.len(),
{
    if pairs.len() == 0 {
        Seq::empty()
    } else {
        peer_lines(pairs.drop_last()) + "\n"@ + peer_line(pairs.last().0, pairs.last().1)
    }
}

/// The ME line of this node followed by one PEER line per known peer.
pub open spec fn expose_text(my_name: Seq<char>, my_address: Seq<char>, pairs: Pairs) -> Seq<char> {
    me_line(my_name, my_address) + peer_lines(pairs)
}

/// The answer to an IDENTIFICATION: this node, then every peer it knows,
/// sorted by name.
pub fn expose_known_peers(peers: &PeerList, my_name: String, my_address: String) -> (b: Vec<u8>)
    ensures
        b@ == encode_utf8(expose_text(my_name@, my_address@, peers.pairs())),
{
    let entries = peers.entries();
    let ghost pairs = peers.pairs();
    let mut out: Vec<char> = Vec::new();
    push_str(&mut out, "ME|hostname=");
    push_str(&mut out, my_name.as_str());
    push_str(&mut out, ",addr=");
    push_str(&mut out, my_address.as_str());
    let ghost me = out@;
    assert(me =~= me_line(my_name@, my_address@));
    assert(pairs.take(0) =~= Pairs::empty());
    for i in 0..entries.len()
        invariant
            pairs.len() == entries@.len(),
            forall|j: int| 0 <= j < entries@.len() ==> #[trigger] pairs[j] == (entries@[j].0@, entries@[j].1@),
            out@ == me + peer_lines(pairs.take(i as int)),
    {
        let ghost before = out@;
        push_str(&mut out, "\n");
        push_str(&mut out, "PEER|hostname=");
        push_chars(&mut out, &entries[i].0);
        push_str(&mut out, ",addr=");
        push_chars(&mut out, &entries[i].1);
        let ghost t = pairs.take(i + 1);
        assert(t.drop_last() =~= pairs.take(i as int));
        assert(t.last() == pairs[i as int]);
        assert(out@ =~= before + "\n"@ + peer_line(pairs[i as int].0, pairs[i as int].1));
    }
    assert(pairs.take(entries@.len() as int) =~= pairs);
    chars_bytes(&out)
}

/// `IDENTIFICATION|hostname=<hostname>,addr=<url>`.
pub open spec fn identification_text(hostname: Seq<char>, url: Seq<char>) -> Seq<char> {
    "IDENTIFICATION|hostname="@ + hostname + ",addr="@ + url
}

/// The message by which a node introduces itself to a peer.
pub fn identification_message(hostname: &str, url: &str) -> (s: String)
    ensures
        s@ == identification_text(hostname@, url@),
{
    let mut out: Vec<char> = Vec::new();
    push_str(&mut out, "IDENTIFICATION|hostname=");
    push_str(&mut out, hostname);
    push_str(&mut out, ",addr=");
    push_str(&mut out, url);
    assert(out@ =~= identification_text(hostname@, url@));
    string_of(&out)
}

/// `DISCONNECT|hostname=<hostname>`.
pub open spec fn disconnect_text(hostname: Seq<char>) -> Seq<char> {
    "DISCONNECT|hostname="@ + hostname
}

/// The message by which a node leaving the cluster tells a peer to forget it.
pub fn disconnect_message(hostname: &str) -> (s: String)
    ensures
        s@ == disconnect_text(hostname@),
{
    let mut out: Vec<char> = Vec::new();
    push_str(&mut out, "DISCONNECT|hostname=");
    push_str(&mut out, hostname);
    string_of(&out)
}

/// The message that asks a peer for its statistics.
pub fn stats_request() -> (s: String)
    ensures
        s@ == "STATS|"@,
{
    string_of(&chars_of("STATS|"))
}

/// `<ip>:<port>`.
pub fn peer_address(ip: &str, port: u16) -> (s: String)
    ensures
        s@ == ip@ + ":"@ + decimal(port as nat),
{
    let mut out: Vec<char> = Vec::new();
    push_str(&mut out, ip);
    push_str(&mut out, ":");
    push_decimal(&mut out, port as u64);
    assert(out@ =~= ip@ + ":"@ + decimal(port as nat));
    string_of(&out)
}

/// The ports from `lo` up to (not including) `hi`, leaving out `skip`.
pub open spec fn ports_between(lo: nat, hi: nat, skip: nat) -> Seq<u16>
    decreases hi,
{
    if hi <= lo {
        Seq::empty()
    } else if (hi - 1) as nat == skip {
        ports_between(lo, (hi - 1) as nat, skip)
    } else {
        ports_between(lo, (hi - 1) as nat, skip).push((hi - 1) as u16)
    }
}

/// The ports that development nodes listen on (8000 to 8049), but this
/// node's own, in increasing order.
pub fn dev_peer_ports(my_port: u16) -> (ports: Vec<u16>)
    ensures
        ports@ == ports_between(8000, 8050, my_port as nat),
{
    let mut ports: Vec<u16> = Vec::new();
    let mut p: u16 = 8000;
    while p < 8050
        invariant
            8000 <= p <= 8050,
            ports@ == ports_between(8000, p as nat, my_port as nat),
        decreases 8050 - p,
    {
        if p != my_port {
            ports.push(p);
        }
        p = p + 1;
    }
    ports
}

} // verus!
