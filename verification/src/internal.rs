//! The commands that nodes of the cluster send one another: how a node
//! reads them and what it does with them.

use vstd::prelude::*;
use vstd::utf8::{decode_utf8, encode_utf8, valid_utf8};
use crate::clock::{
    elapsed_micros, micros_between, parse_rfc3339, rfc3339_instant, rfc3339_of, rfc3339_range,
    whole_micros, Instant,
};
use crate::messages::{expose_known_peers, expose_text, text_bytes};
use crate::store::{Database, Pairs, PeerList};
use crate::text::{chars_of, has_char, one_char, same_text, split, split_text, string_of, texts};
use crate::timing::TimingStats;

verus! {

/// `std::str::from_utf8`: the text of the bytes where they are valid UTF-8.
#[verifier::external_body]
pub(crate) fn utf8_text(bytes: &[u8]) -> (r: Option<String>)
    ensures
        r is Some <==> valid_utf8(bytes@),
        r matches Some(s) ==> s@ == decode_utf8(bytes@),
{
    match std::str::from_utf8(bytes) {
        Ok(s) => Some(s.to_owned()),
        Err(_) => None,
    }
}

/// The text of a message that a node receives: `None` where the bytes are
/// not UTF-8 (the node then waits for the next message).
pub fn read_message(data: &[u8]) -> (r: Option<String>)
    ensures
        r is Some <==> valid_utf8(data@),
        r matches Some(s) ==> s@ == decode_utf8(data@),
{
    utf8_text(data)
}

/// A command of the cluster protocol, as a node reads it.
pub enum InternalMsg {
    Add { key: Seq<char>, value: Seq<char>, date: Option<Seq<char>> },
    Identification { name: Seq<char>, addr: Seq<char> },
    Stats,
    Disconnect { name: Seq<char> },
    Copy { pairs: Pairs, complete: bool },
    FlushAll,
    Malformed,
    Unimplemented { command: Seq<char> },
}

/// A command of the cluster protocol, read from a message.
/// `Add::date` is absent where the date field has no `=`; `Copy::complete`
/// is false where a line of the message is malformed (the pairs are those
/// before it); `Malformed` is a message that misses a field that its
/// command needs; `Unimplemented` names a command that no node knows.
pub enum InternalRequest {
    Add { key: String, value: String, date: Option<String> },
    Identification { name: String, addr: String },
    Stats,
    Disconnect { name: String },
    Copy { pairs: Vec<(String, String)>, complete: bool },
    FlushAll,
    Malformed,
    Unimplemented { command: String },
}

/// The views of pairs of strings.
pub open spec fn string_pairs(v: Seq<(String, String)>) -> Pairs {
    v.map_values(|p: (String, String)| (p.0@, p.1@))
}

impl View for InternalRequest {
    type V = InternalMsg;

    open spec fn view(&self) -> InternalMsg {
        match self {
            InternalRequest::Add { key, value, date } => InternalMsg::Add {
                key: key@,
                value: value@,
                date: match date {
                    Some(d) => Some(d@),
                    None => None,
                },
            },
            InternalRequest::Identification { name, addr } => InternalMsg::Identification {
                name: name@,
                addr: addr@,
            },
            InternalRequest::Stats => InternalMsg::Stats,
            InternalRequest::Disconnect { name } => InternalMsg::Disconnect { name: name@ },
            InternalRequest::Copy { pairs, complete } => InternalMsg::Copy {
                pairs: string_pairs(pairs@),
                complete: *complete,
            },
            InternalRequest::FlushAll => InternalMsg::FlushAll,
            InternalRequest::Malformed => InternalMsg::Malformed,
            InternalRequest::Unimplemented { command } => InternalMsg::Unimplemented {
                command: command@,
            },
        }
    }
}

/// The text after the first `=` of a property, up to the next `=`.
pub open spec fn field_value(prop: Seq<char>) -> Option<Seq<char>> {
    let f = split_text(prop, seq!['=']);
    if f.len() >= 2 {
        Some(f[1])
    } else {
        None
    }
}

/// The properties of a COPY line, `k=<key>,v=<value>`: the key and the
/// value, each the text after the first `=` of its property (up to the next
/// `=`).
pub open spec fn copy_item(part: Seq<char>) -> Option<(Seq<char>, Seq<char>)> {
    let props = split_text(part, seq![',']);
    if props.len() < 2 {
        None
    } else {
        let k = split_text(props[0], seq!['=']);
        let v = split_text(props[1], seq!['=']);
        if k.len() < 2 || v.len() < 2 {
            None
        } else {
            Some((k[1], v[1]))
        }
    }
}

/// One line of a COPY message, `COPY|k=<key>,v=<value>`: its pair, or
/// `None` where it is malformed.
pub open spec fn copy_line_item(line: Seq<char>) -> Option<(Seq<char>, Seq<char>)> {
    let parts = split_text(line, seq!['|']);
    if parts.len() >= 2 && parts[0] == "COPY"@ {
        copy_item(parts[1])
    } else {
        None
    }
}

/// The pairs of the lines of a COPY message, in order, up to the first
/// malformed line; the flag tells whether every line was well formed.
pub open spec fn copy_scan(lines: Seq<Seq<char>>) -> (Pairs, bool)
    decreases lines.len(),
{
    if lines.len() == 0 {
        (Pairs::empty(), true)
    } else {
        let (done, ok) = copy_scan(lines.drop_last());
        if !ok {
            (done, false)
        } else {
            match copy_line_item(lines.last()) {
                Some(p) => (done.push(p), true),
                None => (done, false),
            }
        }
    }
}

/// How a node reads a message of the cluster protocol (one that holds `|`).
pub open spec fn internal_msg(t: Seq<char>) -> InternalMsg {
    let parts = split_text(t, seq!['|']);
    let cmd = parts[0];
    if cmd == "ADD"@ {
        if parts.len() < 2 {
            InternalMsg::Malformed
        } else {
            let props = split_text(parts[1], seq![',']);
            if props.len() < 3 {
                InternalMsg::Malformed
            } else {
                match (field_value(props[0]), field_value(props[1])) {
                    (Some(k), Some(v)) => InternalMsg::Add {
                        key: k,
                        value: v,
                        date: field_value(props[2]),
                    },
                    _ => InternalMsg::Malformed,
                }
            }
        }
    } else if cmd == "IDENTIFICATION"@ {
        if parts.len() < 2 {
            InternalMsg::Malformed
        } else {
            let props = split_text(parts[1], seq![',']);
            if props.len() < 2 {
                InternalMsg::Malformed
            } else {
                match (field_value(props[0]), field_value(props[1])) {
                    (Some(n), Some(a)) => InternalMsg::Identification { name: n, addr: a },
                    _ => InternalMsg::Malformed,
                }
            }
        }
    } else if cmd == "STATS"@ {
        InternalMsg::Stats
    } else if cmd == "DISCONNECT"@ {
        if parts.len() < 2 {
            InternalMsg::Malformed
        } else {
            let props = split_text(parts[1], seq![',']);
            match field_value(props[0]) {
                Some(n) => InternalMsg::Disconnect { name: n },
                None => InternalMsg::Malformed,
            }
        }
    } else if cmd == "COPY"@ {
        let (pairs, complete) = copy_scan(split_text(t, seq!['\n']));
        InternalMsg::Copy { pairs, complete }
    } else if cmd == "FLUSHALL"@ {
        InternalMsg::FlushAll
    } else {
        InternalMsg::Unimplemented { command: cmd }
    }
}

/// The field value of a property.
fn field(prop: &Vec<char>) -> (r: Option<Vec<char>>)
    ensures
        match r {
            Some(v) => field_value(prop@) == Some(v@),
            None => field_value(prop@) is None,
        },
{
    let f = split(prop, &one_char('='));
    if f.len() >= 2 {
        let ghost fv = texts(f@);
        assert(fv[1] == f@[1]@);
        let mut f = f;
        Some(f.swap_remove(1))
    } else {
        None
    }
}

/// One COPY line.
fn copy_entry(line: &Vec<char>) -> (r: Option<(String, String)>)
    ensures
        match r {
            Some(p) => copy_line_item(line@) == Some((p.0@, p.1@)),
            None => copy_line_item(line@) is None,
        },
{
    let parts = split(line, &one_char('|'));
    if parts.len() < 2 {
        return None;
    }
    assert(texts(parts@)[0] == parts@[0]@);
    assert(texts(parts@)[1] == parts@[1]@);
    if !same_text(&parts[0], &chars_of("COPY")) {
        return None;
    }
    let props = split(&parts[1], &one_char(','));
    if props.len() < 2 {
        return None;
    }
    let k = split(&props[0], &one_char('='));
    let v = split(&props[1], &one_char('='));
    assert(texts(props@)[0] == props@[0]@);
    assert(texts(props@)[1] == props@[1]@);
    if k.len() < 2 || v.len() < 2 {
        return None;
    }
    assert(texts(k@)[1] == k@[1]@);
    assert(texts(v@)[1] == v@[1]@);
    Some((string_of(&k[1]), string_of(&v[1])))
}

/// A message of the cluster protocol: it holds `|` and, unlike a Redis
/// array, does not begin with `*`.
pub open spec fn cluster_message(t: Seq<char>) -> bool {
    t.contains('|') && !(t.len() > 0 && t[0] == '*')
}

/// How a node reads a message: `None` where it is no message of the cluster
/// protocol (it holds no `|`, or it is a Redis array), the command otherwise.
pub fn parse_internal(input: &str) -> (r: Option<InternalRequest>)
    ensures
        match r {
            Some(q) => cluster_message(input@) && q@ == internal_msg(input@),
            None => !cluster_message(input@),
        },
{
    let t = chars_of(input);
    if !has_char(&t, '|') {
        return None;
    }
    if t[0] == '*' {
        return None;
    }
    let parts = split(&t, &one_char('|'));
    let ghost pv = texts(parts@);
    assert(pv[0] == parts@[0]@);
    let cmd = &parts[0];
    if same_text(cmd, &chars_of("ADD")) {
        if parts.len() < 2 {
            return Some(InternalRequest::Malformed);
        }
        assert(pv[1] == parts@[1]@);
        let props = split(&parts[1], &one_char(','));
        if props.len() < 3 {
            return Some(InternalRequest::Malformed);
        }
        assert(texts(props@)[0] == props@[0]@);
        assert(texts(props@)[1] == props@[1]@);
        assert(texts(props@)[2] == props@[2]@);
        match (field(&props[0]), field(&props[1])) {
            (Some(k), Some(v)) => {
                let date = match field(&props[2]) {
                    Some(d) => Some(string_of(&d)),
                    None => None,
                };
                Some(InternalRequest::Add { key: string_of(&k), value: string_of(&v), date })
            },
            _ => Some(InternalRequest::Malformed),
        }
    } else if same_text(cmd, &chars_of("IDENTIFICATION")) {
        if parts.len() < 2 {
            return Some(InternalRequest::Malformed);
        }
        assert(pv[1] == parts@[1]@);
        let props = split(&parts[1], &one_char(','));
        if props.len() < 2 {
            return Some(InternalRequest::Malformed);
        }
        assert(texts(props@)[0] == props@[0]@);
        assert(texts(props@)[1] == props@[1]@);
        match (field(&props[0]), field(&props[1])) {
            (Some(n), Some(a)) => Some(
                InternalRequest::Identification { name: string_of(&n), addr: string_of(&a) },
            ),
            _ => Some(InternalRequest::Malformed),
        }
    } else if same_text(cmd, &chars_of("STATS")) {
        Some(InternalRequest::Stats)
    } else if same_text(cmd, &chars_of("DISCONNECT")) {
        if parts.len() < 2 {
            return Some(InternalRequest::Malformed);
        }
        assert(pv[1] == parts@[1]@);
        let props = split(&parts[1], &one_char(','));
        assert(texts(props@)[0] == props@[0]@);
        match field(&props[0]) {
            Some(n) => Some(InternalRequest::Disconnect { name: string_of(&n) }),
            None => Some(InternalRequest::Malformed),
        }
    } else if same_text(cmd, &chars_of("COPY")) {
        let lines = split(&t, &one_char('\n'));
        let ghost lv = texts(lines@);
        let mut pairs: Vec<(String, String)> = Vec::new();
        let mut complete = true;
        assert(lv.take(0) =~= Seq::<Seq<char>>::empty());
        for i in 0..lines.len()
            invariant
                lv == texts(lines@),
                copy_scan(lv.take(i as int)) == (string_pairs(pairs@), complete),
        {
            assert(lv.take(i + 1).drop_last() =~= lv.take(i as int));
            assert(lv.take(i + 1).last() == lines@[i as int]@);
            if complete {
                match copy_entry(&lines[i]) {
                    Some(p) => {
                        let ghost before = string_pairs(pairs@);
                        let ghost pvw = (p.0@, p.1@);
                        pairs.push(p);
                        assert(string_pairs(pairs@) =~= before.push(pvw));
                    },
                    None => {
                        complete = false;
                    },
                }
            }
        }
        assert(lv.take(lines.len() as int) =~= lv);
        Some(InternalRequest::Copy { pairs, complete })
    } else if same_text(cmd, &chars_of("FLUSHALL")) {
        Some(InternalRequest::FlushAll)
    } else {
        Some(InternalRequest::Unimplemented { command: string_of(cmd) })
    }
}

/// Why a node gives up on a message of the cluster protocol.
pub enum Fault {
    /// A field that the command needs is missing.
    Malformed,
    /// The date of an ADD has no `=`.
    MissingDate,
    /// The date of an ADD is not RFC 3339.
    BadDate,
    /// The latency of an ADD is negative, or too large to count.
    NegativeLatency,
    /// A latency counter would overflow.
    CounterOverflow,
    /// No node knows the command.
    Unimplemented { command: String },
}

/// What a node does after a message of the cluster protocol.
pub enum InternalOutcome {
    /// Answer with `bytes`; hand the database to the peer at `copy_to`, if
    /// any; `latency_micros` is the latency recorded for an ADD.
    Reply { bytes: Vec<u8>, copy_to: Option<String>, latency_micros: Option<i64> },
    /// Answer with the node's statistics.
    StatsRequested,
    /// Give up on the connection.
    Failed { fault: Fault },
}

/// The latency sample of an ADD: the measured microseconds, or -1 where
/// none could be measured.
pub open spec fn sample_of(elapsed: Option<i64>) -> int {
    match elapsed {
        Some(m) => m as int,
        None => -1,
    }
}

/// The answer `OK` and nothing else to do.
pub open spec fn is_ok_reply(r: InternalOutcome) -> bool {
    &&& r matches InternalOutcome::Reply { bytes, copy_to, latency_micros }
    &&& bytes@ == encode_utf8("OK"@)
    &&& copy_to is None
    &&& latency_micros is None
}

/// A latency sample is recorded, or the node gives up.
pub open spec fn latency_recorded(
    elapsed: Option<i64>,
    before: TimingStats,
    after: TimingStats,
    r: Result<i64, Fault>,
) -> bool {
    let x = sample_of(elapsed);
    if x < 0 {
        r matches Err(Fault::NegativeLatency) && after == before
    } else if before.total() + x <= u128::MAX && before.samples() < u64::MAX {
        &&& r == Ok::<i64, Fault>(x as i64)
        &&& after.total() == before.total() + x
        &&& after.samples() == before.samples() + 1
    } else {
        r matches Err(Fault::CounterOverflow) && after == before
    }
}

/// Records the latency of an ADD: a missing or negative measure makes the
/// node give up, as does a counter that would overflow.
pub fn record_latency(timing: &mut TimingStats, elapsed: Option<i64>) -> (r: Result<i64, Fault>)
    ensures
        latency_recorded(elapsed, *old(timing), *final(timing), r),
{
    let sample: i64 = match elapsed {
        Some(m) => m,
        None => -1,
    };
    if sample < 0 {
        return Err(Fault::NegativeLatency);
    }
    let s = sample as u128;
    if !timing.can_add(s) {
        return Err(Fault::CounterOverflow);
    }
    timing.add_sample(s);
    Ok(sample)
}

/// The date text, where it is chrono's text of an instant in range, reads
/// back as that instant.
pub open spec fn rfc3339_reads_back(d: Seq<char>) -> bool {
    forall|secs: i64, nanos: u32|
        #![trigger rfc3339_of(secs, nanos)]
        rfc3339_range(secs, nanos) && rfc3339_of(secs, nanos) == Some(d) ==> rfc3339_instant(d)
            == Some((secs, nanos))
}

/// What an ADD does after the pair is stored: the date is read and the
/// latency from it to `now` recorded.
pub open spec fn add_outcome(
    date: Option<Seq<char>>,
    now: Instant,
    before: TimingStats,
    after: TimingStats,
    r: InternalOutcome,
) -> bool {
    match date {
        None => r matches InternalOutcome::Failed { fault: Fault::MissingDate } && after == before,
        Some(d) => rfc3339_reads_back(d) && match rfc3339_instant(d) {
            None => r matches InternalOutcome::Failed { fault: Fault::BadDate } && after == before,
            Some(sent) => {
                let elapsed = micros_between(sent.0, sent.1, now.secs, now.nanos);
                &&& rfc3339_range(sent.0, sent.1) && rfc3339_range(now.secs, now.nanos)
                    ==> elapsed == Some(whole_micros(sent.0, sent.1, now.secs, now.nanos) as i64)
                &&& exists|res: Result<i64, Fault>|
                    {
                        &&& #[trigger] latency_recorded(elapsed, before, after, res)
                        &&& match res {
                            Ok(m) => {
                                &&& r matches InternalOutcome::Reply { bytes, copy_to, latency_micros }
                                &&& bytes@ == encode_utf8("OK"@)
                                &&& copy_to is None
                                &&& latency_micros == Some(m)
                            },
                            Err(f) => r == InternalOutcome::Failed { fault: f },
                        }
                    }
            },
        },
    }
}

/// The pairs stored one after the other.
pub open spec fn apply_pairs(m: Map<Seq<char>, Seq<char>>, pairs: Pairs) -> Map<Seq<char>, Seq<char>>
    decreases pairs.len(),
{
    if pairs.len() == 0 {
        m
    } else {
        apply_pairs(m, pairs.drop_last()).insert(pairs.last().0, pairs.last().1)
    }
}

/// What a node does with a command of the cluster protocol: the database,
/// peer list and statistics after it, and the outcome.
pub open spec fn internal_effect(
    msg: InternalMsg,
    db0: Database,
    db1: Database,
    peers0: PeerList,
    peers1: PeerList,
    t0: TimingStats,
    t1: TimingStats,
    my_name: Seq<char>,
    my_address: Seq<char>,
    now: Instant,
    r: InternalOutcome,
) -> bool {
    match msg {
        InternalMsg::Add { key, value, date } => {
            &&& db1@ == db0@.insert(key, value)
            &&& peers1@ == peers0@
            &&& add_outcome(date, now, t0, t1, r)
        },
        InternalMsg::Identification { name, addr } => {
            &&& db1@ == db0@
            &&& peers1@ == peers0@.insert(name, addr)
            &&& t1 == t0
            &&& r matches InternalOutcome::Reply { bytes, copy_to, latency_micros }
            &&& bytes@ == encode_utf8(expose_text(my_name, my_address, peers1.pairs()))
            &&& copy_to matches Some(a) && a@ == addr
            &&& latency_micros is None
        },
        InternalMsg::Stats => {
            &&& db1@ == db0@
            &&& peers1@ == peers0@
            &&& t1 == t0
            &&& r is StatsRequested
        },
        InternalMsg::Disconnect { name } => {
            &&& db1@ == db0@
            &&& peers1@ == peers0@.remove(name)
            &&& t1 == t0
            &&& is_ok_reply(r)
        },
        InternalMsg::Copy { pairs, complete } => {
            &&& db1@ == apply_pairs(db0@, pairs)
            &&& peers1@ == peers0@
            &&& t1 == t0
            &&& if complete {
                is_ok_reply(r)
            } else {
                r matches InternalOutcome::Failed { fault: Fault::Malformed }
            }
        },
        InternalMsg::FlushAll => {
            &&& db1@ == Map::<Seq<char>, Seq<char>>::empty()
            &&& peers1@ == peers0@
            &&& t1 == t0
            &&& is_ok_reply(r)
        },
        InternalMsg::Malformed => {
            &&& db1@ == db0@
            &&& peers1@ == peers0@
            &&& t1 == t0
            &&& r matches InternalOutcome::Failed { fault: Fault::Malformed }
        },
        InternalMsg::Unimplemented { command } => {
            &&& db1@ == db0@
            &&& peers1@ == peers0@
            &&& t1 == t0
            &&& r matches InternalOutcome::Failed { fault: Fault::Unimplemented { command: c } }
            &&& c@ == command
        },
    }
}

/// The answer to an IDENTIFICATION from peer `name` at `addr`: the peer is
/// remembered, and the answer lists this node and every peer it knows.
pub fn identification_answer(
    peers: &mut PeerList,
    name: String,
    addr: String,
    my_name: String,
    my_address: String,
) -> (b: Vec<u8>)
    requires
        old(peers).wf(),
    ensures
        final(peers).wf(),
        final(peers)@ == old(peers)@.insert(name@, addr@),
        b@ == encode_utf8(expose_text(my_name@, my_address@, final(peers).pairs())),
{
    peers.insert(name, addr);
    expose_known_peers(peers, my_name, my_address)
}

/// Carries out a command of the cluster protocol.
pub fn apply_internal(
    req: InternalRequest,
    db: &mut Database,
    peers: &mut PeerList,
    timing: &mut TimingStats,
    my_name: &str,
    my_address: &str,
    now: Instant,
) -> (r: InternalOutcome)
    requires
        old(db).wf(),
        old(peers).wf(),
    ensures
        final(db).wf(),
        final(peers).wf(),
        internal_effect(
            req@,
            *old(db),
            *final(db),
            *old(peers),
            *final(peers),
            *old(timing),
            *final(timing),
            my_name@,
            my_address@,
            now,
            r,
        ),
{
    match req {
        InternalRequest::Add { key, value, date } => {
            db.insert(key, value);
            match date {
                None => InternalOutcome::Failed { fault: Fault::MissingDate },
                Some(d) => {
                    let parsed = parse_rfc3339(d.as_str());
                    assert(rfc3339_reads_back(d@)) by {
                        assert forall|secs: i64, nanos: u32|
                            rfc3339_range(secs, nanos) && #[trigger] rfc3339_of(secs, nanos) == Some(
                                d@,
                            ) implies rfc3339_instant(d@) == Some((secs, nanos)) by {
                            assert(parsed == Some(Instant { secs, nanos }));
                        }
                    }
                    match parsed {
                    None => InternalOutcome::Failed { fault: Fault::BadDate },
                    Some(sent) => {
                        let elapsed = elapsed_micros(sent, now);
                        let res = record_latency(timing, elapsed);
                        assert(latency_recorded(elapsed, *old(timing), *timing, res));
                        match res {
                            Ok(m) => InternalOutcome::Reply {
                                bytes: text_bytes("OK"),
                                copy_to: None,
                                latency_micros: Some(m),
                            },
                            Err(f) => InternalOutcome::Failed { fault: f },
                        }
                    },
                    }
                },
            }
        },
        InternalRequest::Identification { name, addr } => {
            let a = string_of(&chars_of(addr.as_str()));
            let bytes = identification_answer(
                peers,
                name,
                addr,
                string_of(&chars_of(my_name)),
                string_of(&chars_of(my_address)),
            );
            InternalOutcome::Reply { bytes, copy_to: Some(a), latency_micros: None }
        },
        InternalRequest::Stats => InternalOutcome::StatsRequested,
        InternalRequest::Disconnect { name } => {
            peers.remove(name.as_str());
            InternalOutcome::Reply { bytes: text_bytes("OK"), copy_to: None, latency_micros: None }
        },
        InternalRequest::Copy { pairs, complete } => {
            let ghost ps = string_pairs(pairs@);
            let ghost m0 = db@;
            let n = pairs.len();
            let mut rest = pairs;
            let mut i: usize = 0;
            assert(ps.take(0) =~= Pairs::empty());
            while i < n
                invariant
                    n == ps.len(),
                    i <= n,
                    rest@.len() == n,
                    forall|j: int| i <= j < n ==> (#[trigger] rest@[j]).0@ == ps[j].0 && rest@[j].1@ == ps[j].1,
                    db.wf(),
                    db@ == apply_pairs(m0, ps.take(i as int)),
                decreases n - i,
            {
                let k = string_of(&chars_of(rest[i].0.as_str()));
                let v = string_of(&chars_of(rest[i].1.as_str()));
                db.insert(k, v);
                assert(ps.take(i + 1).drop_last() =~= ps.take(i as int));
                i = i + 1;
            }
            assert(ps.take(n as int) =~= ps);
            if complete {
                InternalOutcome::Reply { bytes: text_bytes("OK"), copy_to: None, latency_micros: None }
            } else {
                InternalOutcome::Failed { fault: Fault::Malformed }
            }
        },
        InternalRequest::FlushAll => {
            db.clear();
            InternalOutcome::Reply { bytes: text_bytes("OK"), copy_to: None, latency_micros: None }
        },
        InternalRequest::Malformed => InternalOutcome::Failed { fault: Fault::Malformed },
        InternalRequest::Unimplemented { command } => InternalOutcome::Failed {
            fault: Fault::Unimplemented { command },
        },
    }
}

} // verus!
