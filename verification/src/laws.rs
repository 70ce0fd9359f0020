//! What holds of the library as a whole: what a node reads back of the
//! messages that another node writes, and what its tables keep.

use vstd::prelude::*;
use vstd::utf8::{decode_utf8, encode_utf8};
use crate::clock::{micros_between, rfc3339_of, rfc3339_range, whole_micros, Instant};
use crate::internal::{
    add_outcome, apply_pairs, cluster_message, copy_line_item, copy_scan, field_value,
    internal_effect, internal_msg, latency_recorded, rfc3339_reads_back, Fault, InternalMsg,
    InternalOutcome,
};
use crate::messages::{
    plain,
    add_command_text, copy_line, copy_text, disconnect_text, expose_text, identification_text, me_line, peer_line,
    peer_lines,
};
use crate::peer_answer::{answer_item, answer_items, apply_answer, up_to_fault, AnswerItem};
use crate::resp::{
    ascii_text, ascii_upper, ascii_upper_text, bulk_text, chunk_kind, resp_answer, resp_chunks,
    resp_database, resp_lines, resp_msg, set_request_text, ChunkKind, RespMsg,
};
use crate::store::{
    keys_unique, lemma_map_of, lemma_sorted_pairs_determined, lemma_sorted_unique, to_map, Database,
    Pairs, PeerList,
};
use crate::timing::TimingStats;
use crate::order::{lemma_less_irreflexive, less_from, text_lt};
use crate::html::{table_row, table_rows};
use crate::env::{all_digits, digits_value, port_of};
use crate::text::{
    digit_char,
    decimal, is_blank, is_white_space, lemma_crlf_step, lemma_decimal_digits, lemma_non_blank_concat,
    lemma_split_absent, lemma_split_extend, lemma_split_join, lemma_split_plain, non_blank,
    occurs_at, split_text,
};

verus! {

/// Every key and value is plain.
pub open spec fn all_plain(pairs: Pairs) -> bool {
    forall|i: int| 0 <= i < pairs.len() ==> plain(#[trigger] pairs[i].0) && plain(pairs[i].1)
}

/// A character in a concatenation is in one of its parts.
pub proof fn lemma_contains_concat(x: Seq<char>, y: Seq<char>, c: char)
    ensures
        (x + y).contains(c) == (x.contains(c) || y.contains(c)),
{
    let s = x + y;
    if s.contains(c) {
        let i = choose|i: int| 0 <= i < s.len() && s[i] == c;
        if i < x.len() {
            assert(x[i] == c);
        } else {
            assert(y[i - x.len()] == c);
        }
    }
    if x.contains(c) {
        let i = choose|i: int| 0 <= i < x.len() && x[i] == c;
        assert(s[i] == c);
    }
    if y.contains(c) {
        let i = choose|i: int| 0 <= i < y.len() && y[i] == c;
        assert(s[i + x.len()] == c);
    }
}

/// `key=value` splits at `=` into the key and the value.
pub proof fn lemma_key_value(key: Seq<char>, v: Seq<char>)
    requires
        !key.contains('='),
        !v.contains('='),
    ensures
        split_text(key + seq!['='] + v, seq!['=']) == seq![key, v],
{
    lemma_split_join(key, v, '=');
    lemma_split_plain(key, '=');
    lemma_split_plain(v, '=');
    assert(seq![key] + seq![v] =~= seq![key, v]);
}

/// The line `<tag>|hostname=<name>,addr=<addr>` splits into the tag and the
/// two properties.
pub proof fn lemma_line_fields(tag: Seq<char>, name: Seq<char>, addr: Seq<char>)
    requires
        !tag.contains('|'),
        plain(name),
        plain(addr),
    ensures
        split_text(tag + "|hostname="@ + name + ",addr="@ + addr, seq!['|']) == seq![
            tag,
            "hostname="@ + name + ",addr="@ + addr,
        ],
        split_text("hostname="@ + name + ",addr="@ + addr, seq![',']) == seq![
            "hostname="@ + name,
            "addr="@ + addr,
        ],
        split_text("hostname="@ + name, seq!['=']) == seq!["hostname"@, name],
        split_text("addr="@ + addr, seq!['=']) == seq!["addr"@, addr],
{
    reveal_strlit("|hostname=");
    reveal_strlit("hostname=");
    reveal_strlit(",addr=");
    reveal_strlit("addr=");
    reveal_strlit("hostname");
    reveal_strlit("addr");
    let h = "hostname="@ + name;
    let a = "addr="@ + addr;
    let rest = h + ",addr="@ + addr;
    assert(tag + "|hostname="@ + name + ",addr="@ + addr =~= tag + seq!['|'] + rest);
    assert(!"hostname="@.contains('|')) by {
        assert forall|i: int| 0 <= i < "hostname="@.len() implies "hostname="@[i] != '|' by {}
    }
    assert(!",addr="@.contains('|')) by {
        assert forall|i: int| 0 <= i < ",addr="@.len() implies ",addr="@[i] != '|' by {}
    }
    lemma_contains_concat("hostname="@, name, '|');
    lemma_contains_concat(h, ",addr="@, '|');
    lemma_contains_concat(h + ",addr="@, addr, '|');
    lemma_split_join(tag, rest, '|');
    lemma_split_plain(tag, '|');
    lemma_split_plain(rest, '|');
    assert(seq![tag] + seq![rest] =~= seq![tag, rest]);
    assert(rest =~= h + seq![','] + a);
    assert(!"hostname="@.contains(',')) by {
        assert forall|i: int| 0 <= i < "hostname="@.len() implies "hostname="@[i] != ',' by {}
    }
    assert(!"addr="@.contains(',')) by {
        assert forall|i: int| 0 <= i < "addr="@.len() implies "addr="@[i] != ',' by {}
    }
    lemma_contains_concat("hostname="@, name, ',');
    lemma_contains_concat("addr="@, addr, ',');
    lemma_split_join(h, a, ',');
    lemma_split_plain(h, ',');
    lemma_split_plain(a, ',');
    assert(seq![h] + seq![a] =~= seq![h, a]);
    assert(h =~= "hostname"@ + seq!['='] + name);
    assert(a =~= "addr"@ + seq!['='] + addr);
    assert(!"hostname"@.contains('=')) by {
        assert forall|i: int| 0 <= i < "hostname"@.len() implies "hostname"@[i] != '=' by {}
    }
    assert(!"addr"@.contains('=')) by {
        assert forall|i: int| 0 <= i < "addr"@.len() implies "addr"@[i] != '=' by {}
    }
    lemma_key_value("hostname"@, name);
    lemma_key_value("addr"@, addr);
}

/// A plain pair reads back from its ME or PEER line.
pub proof fn lemma_read_line(name: Seq<char>, addr: Seq<char>)
    requires
        plain(name),
        plain(addr),
    ensures
        answer_item(me_line(name, addr)) == (AnswerItem::Me { name, addr }),
        answer_item(peer_line(name, addr)) == (AnswerItem::Peer { name, addr }),
        !me_line(name, addr).contains('\n'),
        !peer_line(name, addr).contains('\n'),
        me_line(name, addr).contains('|'),
{
    reveal_strlit("ME|hostname=");
    reveal_strlit("PEER|hostname=");
    reveal_strlit("|hostname=");
    reveal_strlit("ME");
    reveal_strlit("PEER");
    reveal_strlit(",addr=");
    assert("ME|hostname="@ =~= "ME"@ + "|hostname="@);
    assert("PEER|hostname="@ =~= "PEER"@ + "|hostname="@);
    assert(me_line(name, addr) =~= "ME"@ + "|hostname="@ + name + ",addr="@ + addr);
    assert(peer_line(name, addr) =~= "PEER"@ + "|hostname="@ + name + ",addr="@ + addr);
    assert(!"ME"@.contains('|')) by {
        assert forall|i: int| 0 <= i < "ME"@.len() implies "ME"@[i] != '|' by {}
    }
    assert(!"PEER"@.contains('|')) by {
        assert forall|i: int| 0 <= i < "PEER"@.len() implies "PEER"@[i] != '|' by {}
    }
    lemma_line_fields("ME"@, name, addr);
    lemma_line_fields("PEER"@, name, addr);
    assert(!"ME|hostname="@.contains('\n')) by {
        assert forall|i: int| 0 <= i < "ME|hostname="@.len() implies "ME|hostname="@[i] != '\n' by {}
    }
    assert(!"PEER|hostname="@.contains('\n')) by {
        assert forall|i: int| 0 <= i < "PEER|hostname="@.len() implies "PEER|hostname="@[i]
            != '\n' by {}
    }
    assert(!",addr="@.contains('\n')) by {
        assert forall|i: int| 0 <= i < ",addr="@.len() implies ",addr="@[i] != '\n' by {}
    }
    lemma_contains_concat("ME|hostname="@, name, '\n');
    lemma_contains_concat("ME|hostname="@ + name, ",addr="@, '\n');
    lemma_contains_concat("ME|hostname="@ + name + ",addr="@, addr, '\n');
    lemma_contains_concat("PEER|hostname="@, name, '\n');
    lemma_contains_concat("PEER|hostname="@ + name, ",addr="@, '\n');
    lemma_contains_concat("PEER|hostname="@ + name + ",addr="@, addr, '\n');
    assert(me_line(name, addr)[2] == '|');
}

/// The lines of an exposure text.
pub proof fn lemma_exposure_lines(my_name: Seq<char>, my_address: Seq<char>, pairs: Pairs)
    requires
        plain(my_name),
        plain(my_address),
        all_plain(pairs),
    ensures
        split_text(expose_text(my_name, my_address, pairs), seq!['\n']) == seq![
            me_line(my_name, my_address),
        ] + pairs.map_values(|p: (Seq<char>, Seq<char>)| peer_line(p.0, p.1)),
    decreases pairs.len(),
{
    lemma_read_line(my_name, my_address);
    if pairs.len() == 0 {
        lemma_split_plain(me_line(my_name, my_address), '\n');
        assert(expose_text(my_name, my_address, pairs) =~= me_line(my_name, my_address));
        assert(pairs.map_values(|p: (Seq<char>, Seq<char>)| peer_line(p.0, p.1)) =~= Seq::<
            Seq<char>,
        >::empty());
    } else {
        let init = pairs.drop_last();
        let last = pairs.last();
        assert(all_plain(init)) by {
            assert forall|i: int| 0 <= i < init.len() implies plain(#[trigger] init[i].0) && plain(
                init[i].1,
            ) by {
                assert(init[i] == pairs[i]);
            }
        }
        assert(plain(pairs[pairs.len() - 1].0));
        lemma_exposure_lines(my_name, my_address, init);
        lemma_read_line(last.0, last.1);
        let x = expose_text(my_name, my_address, init);
        let y = peer_line(last.0, last.1);
        reveal_strlit("\n");
        assert(expose_text(my_name, my_address, pairs) =~= x + seq!['\n'] + y);
        lemma_split_join(x, y, '\n');
        lemma_split_plain(y, '\n');
        assert(pairs.map_values(|p: (Seq<char>, Seq<char>)| peer_line(p.0, p.1)) =~= init.map_values(
            |p: (Seq<char>, Seq<char>)| peer_line(p.0, p.1),
        ).push(y));
    }
}

/// Items without a fault are all read.
pub proof fn lemma_no_fault(items: Seq<AnswerItem>)
    requires
        forall|i: int| 0 <= i < items.len() ==> !(#[trigger] items[i] is Fault),
    ensures
        up_to_fault(items) == items,
    decreases items.len(),
{
    if items.len() > 0 {
        lemma_no_fault(items.drop_last());
        assert(items.drop_last().push(items.last()) =~= items);
        if items.drop_last().len() > 0 {
            assert(items.drop_last().last() == items[items.len() - 2]);
        }
    }
}

/// What a node sends in answer to an IDENTIFICATION reads back, at the
/// node that asked, as the answering node itself (`ME`) followed by every
/// peer it knows (`PEER`) in its order, provided no name or address holds a
/// separator of the protocol.
pub proof fn law_exposure_reads_back(my_name: Seq<char>, my_address: Seq<char>, pairs: Pairs)
    requires
        plain(my_name),
        plain(my_address),
        all_plain(pairs),
    ensures
        answer_items(decode_utf8(encode_utf8(expose_text(my_name, my_address, pairs)))) == seq![
            AnswerItem::Me { name: my_name, addr: my_address },
        ] + pairs.map_values(
            |p: (Seq<char>, Seq<char>)| AnswerItem::Peer { name: p.0, addr: p.1 },
        ),
{
    broadcast use vstd::utf8::encode_utf8_decode_utf8;

    let t = expose_text(my_name, my_address, pairs);
    lemma_exposure_lines(my_name, my_address, pairs);
    lemma_read_line(my_name, my_address);
    lemma_contains_concat(me_line(my_name, my_address), peer_lines(pairs), '|');
    let lines = split_text(t, seq!['\n']);
    let items = lines.map_values(|l: Seq<char>| answer_item(l));
    let expected = seq![AnswerItem::Me { name: my_name, addr: my_address }] + pairs.map_values(
        |p: (Seq<char>, Seq<char>)| AnswerItem::Peer { name: p.0, addr: p.1 },
    );
    assert forall|i: int| 0 <= i < items.len() implies #[trigger] items[i] == expected[i] by {
        if i > 0 {
            let p = pairs[i - 1];
            assert(plain(pairs[i - 1].0));
            lemma_read_line(p.0, p.1);
        }
    }
    assert(items =~= expected);
    lemma_no_fault(items);
}

/// The peers that a node reads in an answer to its IDENTIFICATION are all
/// recorded: the answering node first, then each peer it knows, provided
/// none of them has this node's own address.
pub proof fn law_exposure_recorded(
    peers: Map<Seq<char>, Seq<char>>,
    my_own_url: Seq<char>,
    name: Seq<char>,
    addr: Seq<char>,
    pairs: Pairs,
)
    requires
        forall|i: int| 0 <= i < pairs.len() ==> (#[trigger] pairs[i]).1 != my_own_url,
    ensures
        apply_answer(
            peers,
            seq![AnswerItem::Me { name, addr }] + pairs.map_values(
                |p: (Seq<char>, Seq<char>)| AnswerItem::Peer { name: p.0, addr: p.1 },
            ),
            my_own_url,
        ) == apply_pairs(peers.insert(name, addr), pairs),
    decreases pairs.len(),
{
    let items = seq![AnswerItem::Me { name, addr }] + pairs.map_values(
        |p: (Seq<char>, Seq<char>)| AnswerItem::Peer { name: p.0, addr: p.1 },
    );
    if pairs.len() == 0 {
        assert(items.drop_last() =~= Seq::<AnswerItem>::empty());
        assert(apply_answer(peers, items.drop_last(), my_own_url) == peers);
        assert(items.last() == AnswerItem::Me { name, addr });
    } else {
        let init = pairs.drop_last();
        assert forall|i: int| 0 <= i < init.len() implies (#[trigger] init[i]).1 != my_own_url by {
            assert(init[i] == pairs[i]);
        }
        law_exposure_recorded(peers, my_own_url, name, addr, init);
        assert(items.drop_last() =~= seq![AnswerItem::Me { name, addr }] + init.map_values(
            |p: (Seq<char>, Seq<char>)| AnswerItem::Peer { name: p.0, addr: p.1 },
        ));
        assert(pairs[pairs.len() - 1].1 != my_own_url);
        assert(items.last() == AnswerItem::Peer { name: pairs.last().0, addr: pairs.last().1 });
    }
}

/// `<tag>|<rest>` splits at `|` into the tag and the rest.
proof fn lemma_tagged(tag: Seq<char>, rest: Seq<char>)
    requires
        !tag.contains('|'),
        !rest.contains('|'),
    ensures
        split_text(tag + seq!['|'] + rest, seq!['|']) == seq![tag, rest],
{
    lemma_split_join(tag, rest, '|');
    lemma_split_plain(tag, '|');
    lemma_split_plain(rest, '|');
    assert(seq![tag] + seq![rest] =~= seq![tag, rest]);
}

/// An ADD with plain key, value and date reads back as that key, value and
/// date.
pub proof fn law_add_reads_back(key: Seq<char>, value: Seq<char>, date: Seq<char>)
    requires
        plain(key),
        plain(value),
        plain(date),
    ensures
        internal_msg(add_command_text(key, value, date)) == (InternalMsg::Add {
            key,
            value,
            date: Some(date),
        }),
{
    reveal_strlit("ADD|key=");
    reveal_strlit(",value=");
    reveal_strlit(",date=");
    reveal_strlit("ADD");
    reveal_strlit("key");
    reveal_strlit("value");
    reveal_strlit("date");
    let pk = "key"@ + seq!['='] + key;
    let pv = "value"@ + seq!['='] + value;
    let pd = "date"@ + seq!['='] + date;
    let rest = pk + seq![','] + (pv + seq![','] + pd);
    assert(add_command_text(key, value, date) =~= "ADD"@ + seq!['|'] + rest);
    assert(!"ADD"@.contains('|')) by {
        assert forall|i: int| 0 <= i < "ADD"@.len() implies "ADD"@[i] != '|' by {}
    }
    assert(!"key"@.contains('|') && !"key"@.contains(',') && !"key"@.contains('=')) by {
        assert forall|i: int| 0 <= i < "key"@.len() implies "key"@[i] != '|' && "key"@[i] != ','
            && "key"@[i] != '=' by {}
    }
    assert(!"value"@.contains('|') && !"value"@.contains(',') && !"value"@.contains('=')) by {
        assert forall|i: int| 0 <= i < "value"@.len() implies "value"@[i] != '|' && "value"@[i]
            != ',' && "value"@[i] != '=' by {}
    }
    assert(!"date"@.contains('|') && !"date"@.contains(',') && !"date"@.contains('=')) by {
        assert forall|i: int| 0 <= i < "date"@.len() implies "date"@[i] != '|' && "date"@[i] != ','
            && "date"@[i] != '=' by {}
    }
    assert(!seq!['='].contains('|') && !seq!['='].contains(',')) by {
        assert(seq!['='][0] == '=');
    }
    assert(!seq![','].contains('|')) by {
        assert(seq![','][0] == ',');
    }
    lemma_contains_concat("key"@, seq!['='], '|');
    lemma_contains_concat("key"@ + seq!['='], key, '|');
    lemma_contains_concat("key"@, seq!['='], ',');
    lemma_contains_concat("key"@ + seq!['='], key, ',');
    lemma_contains_concat("value"@, seq!['='], '|');
    lemma_contains_concat("value"@ + seq!['='], value, '|');
    lemma_contains_concat("value"@, seq!['='], ',');
    lemma_contains_concat("value"@ + seq!['='], value, ',');
    lemma_contains_concat("date"@, seq!['='], '|');
    lemma_contains_concat("date"@ + seq!['='], date, '|');
    lemma_contains_concat("date"@, seq!['='], ',');
    lemma_contains_concat("date"@ + seq!['='], date, ',');
    lemma_contains_concat(pv, seq![','], '|');
    lemma_contains_concat(pv + seq![','], pd, '|');
    lemma_contains_concat(pk, seq![','], '|');
    lemma_contains_concat(pk + seq![','], pv + seq![','] + pd, '|');
    lemma_tagged("ADD"@, rest);
    lemma_split_join(pk, pv + seq![','] + pd, ',');
    lemma_split_join(pv, pd, ',');
    lemma_split_plain(pk, ',');
    lemma_split_plain(pv, ',');
    lemma_split_plain(pd, ',');
    let props = split_text(rest, seq![',']);
    assert(props =~= seq![pk, pv, pd]);
    lemma_key_value("key"@, key);
    lemma_key_value("value"@, value);
    lemma_key_value("date"@, date);
    assert(field_value(pk) == Some(key));
    assert(field_value(pv) == Some(value));
    assert(field_value(pd) == Some(date));
    assert(split_text(add_command_text(key, value, date), seq!['|'])[0] == "ADD"@);
}

/// The IDENTIFICATION of a node with a plain name and address reads back,
/// at the peer, as that name and address.
pub proof fn law_identification_reads_back(hostname: Seq<char>, url: Seq<char>)
    requires
        plain(hostname),
        plain(url),
    ensures
        internal_msg(identification_text(hostname, url)) == (InternalMsg::Identification {
            name: hostname,
            addr: url,
        }),
{
    reveal_strlit("IDENTIFICATION|hostname=");
    reveal_strlit("IDENTIFICATION");
    reveal_strlit("|hostname=");
    assert("IDENTIFICATION|hostname="@ =~= "IDENTIFICATION"@ + "|hostname="@);
    assert(identification_text(hostname, url) =~= "IDENTIFICATION"@ + "|hostname="@ + hostname
        + ",addr="@ + url);
    assert(!"IDENTIFICATION"@.contains('|')) by {
        assert forall|i: int| 0 <= i < "IDENTIFICATION"@.len() implies "IDENTIFICATION"@[i]
            != '|' by {}
    }
    lemma_line_fields("IDENTIFICATION"@, hostname, url);
    reveal_strlit("ADD");
    assert("IDENTIFICATION"@ != "ADD"@) by {
        assert("IDENTIFICATION"@.len() != "ADD"@.len());
    }
}

/// The DISCONNECT of a node with a plain name reads back, at the peer, as
/// that name.
pub proof fn law_disconnect_reads_back(hostname: Seq<char>)
    requires
        plain(hostname),
    ensures
        internal_msg(disconnect_text(hostname)) == (InternalMsg::Disconnect { name: hostname }),
{
    reveal_strlit("DISCONNECT|hostname=");
    reveal_strlit("DISCONNECT");
    reveal_strlit("hostname");
    reveal_strlit("ADD");
    reveal_strlit("IDENTIFICATION");
    reveal_strlit("STATS");
    let rest = "hostname"@ + seq!['='] + hostname;
    assert(disconnect_text(hostname) =~= "DISCONNECT"@ + seq!['|'] + rest);
    assert(!"DISCONNECT"@.contains('|')) by {
        assert forall|i: int| 0 <= i < "DISCONNECT"@.len() implies "DISCONNECT"@[i] != '|' by {}
    }
    assert(!"hostname"@.contains('|') && !"hostname"@.contains(',') && !"hostname"@.contains('='))
        by {
        assert forall|i: int| 0 <= i < "hostname"@.len() implies "hostname"@[i] != '|'
            && "hostname"@[i] != ',' && "hostname"@[i] != '=' by {}
    }
    assert(!seq!['='].contains('|') && !seq!['='].contains(',')) by {
        assert(seq!['='][0] == '=');
    }
    lemma_contains_concat("hostname"@, seq!['='], '|');
    lemma_contains_concat("hostname"@ + seq!['='], hostname, '|');
    lemma_contains_concat("hostname"@, seq!['='], ',');
    lemma_contains_concat("hostname"@ + seq!['='], hostname, ',');
    lemma_tagged("DISCONNECT"@, rest);
    lemma_split_plain(rest, ',');
    lemma_key_value("hostname"@, hostname);
    assert("DISCONNECT"@ != "ADD"@) by {
        assert("DISCONNECT"@.len() != "ADD"@.len());
    }
    assert("DISCONNECT"@ != "IDENTIFICATION"@) by {
        assert("DISCONNECT"@.len() != "IDENTIFICATION"@.len());
    }
    assert("DISCONNECT"@ != "STATS"@) by {
        assert("DISCONNECT"@.len() != "STATS"@.len());
    }
}

/// The FLUSHALL command reads back as FLUSHALL.
pub proof fn law_flush_all_reads_back()
    ensures
        internal_msg("FLUSHALL|"@) == InternalMsg::FlushAll,
{
    reveal_strlit("FLUSHALL|");
    reveal_strlit("FLUSHALL");
    reveal_strlit("ADD");
    reveal_strlit("IDENTIFICATION");
    reveal_strlit("STATS");
    reveal_strlit("DISCONNECT");
    reveal_strlit("COPY");
    assert("FLUSHALL|"@ =~= "FLUSHALL"@ + seq!['|'] + Seq::<char>::empty());
    assert(!"FLUSHALL"@.contains('|')) by {
        assert forall|i: int| 0 <= i < "FLUSHALL"@.len() implies "FLUSHALL"@[i] != '|' by {}
    }
    lemma_tagged("FLUSHALL"@, Seq::<char>::empty());
    assert("FLUSHALL"@ != "ADD"@) by {
        assert("FLUSHALL"@.len() != "ADD"@.len());
    }
    assert("FLUSHALL"@ != "IDENTIFICATION"@) by {
        assert("FLUSHALL"@.len() != "IDENTIFICATION"@.len());
    }
    assert("FLUSHALL"@ != "STATS"@) by {
        assert("FLUSHALL"@.len() != "STATS"@.len());
    }
    assert("FLUSHALL"@ != "DISCONNECT"@) by {
        assert("FLUSHALL"@[0] != "DISCONNECT"@[0]);
    }
    assert("FLUSHALL"@ != "COPY"@) by {
        assert("FLUSHALL"@.len() != "COPY"@.len());
    }
}

/// A Redis GET after a SET of the same key answers the value that was set;
/// after a FLUSHALL it answers that there is no value.
pub proof fn law_get_after_set(db: Map<Seq<char>, Seq<char>>, key: Seq<char>, value: Seq<char>)
    ensures
        resp_answer(
            RespMsg::Get { key },
            resp_database(RespMsg::SetValue { key, value }, db),
        ) == bulk_text(value),
        resp_answer(RespMsg::Get { key }, resp_database(RespMsg::FlushAll, db)) == "$-1\r\n"@,
{
}

/// A read of a key after a write of it gives back what was written, and a
/// write leaves every other key as it was.
pub proof fn law_read_your_write(
    db: Map<Seq<char>, Seq<char>>,
    key: Seq<char>,
    value: Seq<char>,
    other: Seq<char>,
)
    requires
        other != key,
    ensures
        db.insert(key, value).contains_key(key),
        db.insert(key, value)[key] == value,
        db.insert(key, value).contains_key(other) == db.contains_key(other),
        db.contains_key(other) ==> db.insert(key, value)[other] == db[other],
{
}

/// Facts about the literals of a COPY line.
proof fn lemma_copy_literals()
    ensures
        "COPY|k="@ == "COPY"@ + seq!['|'] + "k="@,
        "k="@ == seq!['k'] + seq!['='],
        ",v="@ == seq![','] + "v="@,
        "v="@ == seq!['v'] + seq!['='],
        !"COPY"@.contains('|'),
        !"COPY"@.contains('\n'),
        !"k="@.contains('|') && !"k="@.contains(',') && !"k="@.contains('\n'),
        !",v="@.contains('|') && !",v="@.contains('\n'),
        !"v="@.contains(','),
        !seq!['k'].contains('='),
        !seq!['v'].contains('='),
        "\n"@ == seq!['\n'],
{
    reveal_strlit("COPY|k=");
    reveal_strlit("COPY");
    reveal_strlit("k=");
    reveal_strlit(",v=");
    reveal_strlit("v=");
    reveal_strlit("\n");
    assert("COPY|k="@ =~= "COPY"@ + seq!['|'] + "k="@);
    assert("k="@ =~= seq!['k'] + seq!['=']);
    assert(",v="@ =~= seq![','] + "v="@);
    assert("v="@ =~= seq!['v'] + seq!['=']);
    assert("\n"@ =~= seq!['\n']);
    assert forall|i: int| 0 <= i < "COPY"@.len() implies "COPY"@[i] != '|' && "COPY"@[i] != '\n' by {}
    assert forall|i: int| 0 <= i < "k="@.len() implies "k="@[i] != '|' && "k="@[i] != ',' && "k="@[i]
        != '\n' by {}
    assert forall|i: int| 0 <= i < ",v="@.len() implies ",v="@[i] != '|' && ",v="@[i] != '\n' by {}
    assert forall|i: int| 0 <= i < "v="@.len() implies "v="@[i] != ',' by {}
    assert(seq!['k'][0] == 'k');
    assert(seq!['v'][0] == 'v');
}

/// A COPY line of a plain pair reads back as that pair, and is one line.
pub proof fn lemma_copy_line_item(k: Seq<char>, v: Seq<char>)
    requires
        plain(k),
        plain(v),
    ensures
        copy_line_item(copy_line(k, v)) == Some((k, v)),
        !copy_line(k, v).contains('\n'),
{
    lemma_copy_literals();
    let pk = "k="@ + k;
    let pv = "v="@ + v;
    let rest = pk + seq![','] + pv;
    assert(",v="@ + v =~= seq![','] + pv);
    assert(copy_line(k, v) =~= "COPY"@ + seq!['|'] + rest);
    lemma_contains_concat("k="@, k, '|');
    lemma_contains_concat(pk, seq![','], '|');
    lemma_contains_concat("v="@, v, '|');
    lemma_contains_concat(pk + seq![','], pv, '|');
    assert(!",v="@.contains('|'));
    assert(!seq![','].contains('|')) by {
        assert(seq![','][0] == ',');
    }
    assert(!"v="@.contains('|')) by {
        reveal_strlit("v=");
        assert forall|i: int| 0 <= i < "v="@.len() implies "v="@[i] != '|' by {}
    }
    lemma_tagged("COPY"@, rest);
    lemma_contains_concat("k="@, k, ',');
    lemma_contains_concat("v="@, v, ',');
    lemma_split_join(pk, pv, ',');
    lemma_split_plain(pk, ',');
    lemma_split_plain(pv, ',');
    assert(split_text(rest, seq![',']) =~= seq![pk, pv]);
    assert(pk =~= seq!['k'] + seq!['='] + k);
    lemma_key_value(seq!['k'], k);
    assert(pv =~= seq!['v'] + seq!['='] + v);
    lemma_key_value(seq!['v'], v);
    lemma_contains_concat("COPY"@ + seq!['|'], rest, '\n');
    lemma_contains_concat("COPY"@, seq!['|'], '\n');
    assert(!seq!['|'].contains('\n')) by {
        assert(seq!['|'][0] == '|');
    }
    lemma_contains_concat(pk, seq![','], '\n');
    lemma_contains_concat(pk + seq![','], pv, '\n');
    lemma_contains_concat("k="@, k, '\n');
    lemma_contains_concat("v="@, v, '\n');
    assert(!seq![','].contains('\n')) by {
        assert(seq![','][0] == ',');
    }
    assert(!"v="@.contains('\n')) by {
        reveal_strlit("v=");
        assert forall|i: int| 0 <= i < "v="@.len() implies "v="@[i] != '\n' by {}
    }
}

/// The lines of the COPY text of plain pairs are their COPY lines.
pub proof fn lemma_copy_lines(pairs: Pairs)
    requires
        pairs.len() > 0,
        all_plain(pairs),
    ensures
        split_text(copy_text(pairs), seq!['\n']) == pairs.map_values(
            |p: (Seq<char>, Seq<char>)| copy_line(p.0, p.1),
        ),
    decreases pairs.len(),
{
    lemma_copy_literals();
    let last = pairs.last();
    assert(plain(pairs[pairs.len() - 1].0));
    lemma_copy_line_item(last.0, last.1);
    let y = copy_line(last.0, last.1);
    if pairs.len() == 1 {
        lemma_split_plain(y, '\n');
        assert(pairs.map_values(|p: (Seq<char>, Seq<char>)| copy_line(p.0, p.1)) =~= seq![y]);
    } else {
        let init = pairs.drop_last();
        assert(all_plain(init)) by {
            assert forall|i: int| 0 <= i < init.len() implies plain(#[trigger] init[i].0) && plain(
                init[i].1,
            ) by {
                assert(init[i] == pairs[i]);
            }
        }
        lemma_copy_lines(init);
        let x = copy_text(init);
        assert(copy_text(pairs) =~= x + seq!['\n'] + y);
        lemma_split_join(x, y, '\n');
        lemma_split_plain(y, '\n');
        assert(pairs.map_values(|p: (Seq<char>, Seq<char>)| copy_line(p.0, p.1)) =~= init.map_values(
            |p: (Seq<char>, Seq<char>)| copy_line(p.0, p.1),
        ).push(y));
    }
}

/// The COPY text of some pairs begins with `COPY|`.
proof fn copy_rest(pairs: Pairs) -> (rest: Seq<char>)
    requires
        pairs.len() > 0,
    ensures
        copy_text(pairs) == "COPY"@ + seq!['|'] + rest,
    decreases pairs.len(),
{
    lemma_copy_literals();
    if pairs.len() == 1 {
        let rest = "k="@ + pairs[0].0 + ",v="@ + pairs[0].1;
        assert(copy_text(pairs) =~= "COPY"@ + seq!['|'] + rest);
        rest
    } else {
        let r0 = copy_rest(pairs.drop_last());
        let rest = r0 + "\n"@ + copy_line(pairs.last().0, pairs.last().1);
        assert(copy_text(pairs) =~= "COPY"@ + seq!['|'] + rest);
        rest
    }
}

/// COPY lines that all read well give their pairs, in order.
pub proof fn lemma_copy_scan_reads(lines: Seq<Seq<char>>, pairs: Pairs)
    requires
        lines.len() == pairs.len(),
        forall|i: int| 0 <= i < lines.len() ==> #[trigger] copy_line_item(lines[i]) == Some(pairs[i]),
    ensures
        copy_scan(lines) == (pairs, true),
    decreases lines.len(),
{
    if lines.len() == 0 {
        assert(pairs =~= Pairs::empty());
    } else {
        let init = lines.drop_last();
        assert forall|i: int| 0 <= i < init.len() implies #[trigger] copy_line_item(init[i]) == Some(
            pairs.drop_last()[i],
        ) by {
            assert(init[i] == lines[i]);
        }
        lemma_copy_scan_reads(init, pairs.drop_last());
        assert(copy_line_item(lines[lines.len() - 1]) == Some(pairs[pairs.len() - 1]));
        assert(lines.last() == lines[lines.len() - 1]);
        assert(pairs.drop_last().push(pairs.last()) =~= pairs);
    }
}

/// The COPY that a node sends to a new peer reads back, at the peer, as the
/// sender's pairs in the sender's order, values included. This holds for
/// plain keys and values.
pub proof fn law_copy_reads_back(pairs: Pairs)
    requires
        pairs.len() > 0,
        all_plain(pairs),
    ensures
        internal_msg(copy_text(pairs)) == (InternalMsg::Copy { pairs, complete: true }),
{
    lemma_copy_literals();
    let t = copy_text(pairs);
    let rest = copy_rest(pairs);
    lemma_split_join("COPY"@, rest, '|');
    lemma_split_plain("COPY"@, '|');
    assert(split_text(t, seq!['|'])[0] == "COPY"@);
    lemma_copy_lines(pairs);
    let lines = split_text(t, seq!['\n']);
    assert forall|i: int| 0 <= i < lines.len() implies #[trigger] copy_line_item(lines[i]) == Some(
        pairs[i],
    ) by {
        assert(plain(pairs[i].0));
        lemma_copy_line_item(pairs[i].0, pairs[i].1);
    }
    lemma_copy_scan_reads(lines, pairs);
    reveal_strlit("COPY");
    reveal_strlit("ADD");
    reveal_strlit("IDENTIFICATION");
    reveal_strlit("STATS");
    reveal_strlit("DISCONNECT");
    assert("COPY"@ != "ADD"@) by {
        assert("COPY"@.len() != "ADD"@.len());
    }
    assert("COPY"@ != "IDENTIFICATION"@) by {
        assert("COPY"@.len() != "IDENTIFICATION"@.len());
    }
    assert("COPY"@ != "STATS"@) by {
        assert("COPY"@.len() != "STATS"@.len());
    }
    assert("COPY"@ != "DISCONNECT"@) by {
        assert("COPY"@.len() != "DISCONNECT"@.len());
    }
}

/// A node that carries out the ADD that another node sent for a plain key,
/// value and date stores that pair and leaves its peer list as it was.
pub proof fn law_add_replicates(
    key: Seq<char>,
    value: Seq<char>,
    date: Seq<char>,
    db0: Database,
    db1: Database,
    peers0: PeerList,
    peers1: PeerList,
    t0: TimingStats,
    t1: TimingStats,
    my_name: Seq<char>,
    my_address: Seq<char>,
    now: Instant,
    r: InternalOutcome,
)
    requires
        plain(key),
        plain(value),
        plain(date),
        internal_effect(
            internal_msg(add_command_text(key, value, date)),
            db0,
            db1,
            peers0,
            peers1,
            t0,
            t1,
            my_name,
            my_address,
            now,
            r,
        ),
    ensures
        db1@ == db0@.insert(key, value),
        peers1@ == peers0@,
{
    law_add_reads_back(key, value, date);
}

/// A node that carries out a FLUSHALL empties its database and answers OK.
pub proof fn law_flush_all_replicates(
    db0: Database,
    db1: Database,
    peers0: PeerList,
    peers1: PeerList,
    t0: TimingStats,
    t1: TimingStats,
    my_name: Seq<char>,
    my_address: Seq<char>,
    now: Instant,
    r: InternalOutcome,
)
    requires
        internal_effect(
            internal_msg("FLUSHALL|"@),
            db0,
            db1,
            peers0,
            peers1,
            t0,
            t1,
            my_name,
            my_address,
            now,
            r,
        ),
    ensures
        db1@ == Map::<Seq<char>, Seq<char>>::empty(),
        peers1@ == peers0@,
        r matches InternalOutcome::Reply { bytes, .. } && bytes@ == encode_utf8("OK"@),
{
    law_flush_all_reads_back();
}

/// A node that carries out the DISCONNECT of a plain host name forgets that
/// peer and keeps its database.
pub proof fn law_disconnect_forgets(
    hostname: Seq<char>,
    db0: Database,
    db1: Database,
    peers0: PeerList,
    peers1: PeerList,
    t0: TimingStats,
    t1: TimingStats,
    my_name: Seq<char>,
    my_address: Seq<char>,
    now: Instant,
    r: InternalOutcome,
)
    requires
        plain(hostname),
        internal_effect(
            internal_msg(disconnect_text(hostname)),
            db0,
            db1,
            peers0,
            peers1,
            t0,
            t1,
            my_name,
            my_address,
            now,
            r,
        ),
    ensures
        peers1@ == peers0@.remove(hostname),
        !peers1@.contains_key(hostname),
        db1@ == db0@,
{
    law_disconnect_reads_back(hostname);
}

/// A node that carries out the IDENTIFICATION of a plain host name and
/// address records that peer, sends it a copy of its database, and answers
/// with itself and every peer it now knows.
pub proof fn law_identification_recorded(
    hostname: Seq<char>,
    url: Seq<char>,
    db0: Database,
    db1: Database,
    peers0: PeerList,
    peers1: PeerList,
    t0: TimingStats,
    t1: TimingStats,
    my_name: Seq<char>,
    my_address: Seq<char>,
    now: Instant,
    r: InternalOutcome,
)
    requires
        plain(hostname),
        plain(url),
        internal_effect(
            internal_msg(identification_text(hostname, url)),
            db0,
            db1,
            peers0,
            peers1,
            t0,
            t1,
            my_name,
            my_address,
            now,
            r,
        ),
    ensures
        peers1@ == peers0@.insert(hostname, url),
        db1@ == db0@,
        r matches InternalOutcome::Reply { bytes, copy_to, .. } && copy_to matches Some(a) && a@
            == url && bytes@ == encode_utf8(expose_text(my_name, my_address, peers1.pairs())),
{
    law_identification_reads_back(hostname, url);
}

/// A node that carries out the COPY of another node's plain pairs stores
/// them, in order: each key of the sender (whose keys are distinct) then
/// holds the sender's value.
pub proof fn law_copy_replicates(
    pairs: Pairs,
    db0: Database,
    db1: Database,
    peers0: PeerList,
    peers1: PeerList,
    t0: TimingStats,
    t1: TimingStats,
    my_name: Seq<char>,
    my_address: Seq<char>,
    now: Instant,
    r: InternalOutcome,
)
    requires
        pairs.len() > 0,
        all_plain(pairs),
        internal_effect(
            internal_msg(copy_text(pairs)),
            db0,
            db1,
            peers0,
            peers1,
            t0,
            t1,
            my_name,
            my_address,
            now,
            r,
        ),
    ensures
        db1@ == apply_pairs(db0@, pairs),
        keys_unique(pairs) ==> forall|i: int|
            0 <= i < pairs.len() ==> db1@.contains_key(#[trigger] pairs[i].0) && db1@[pairs[i].0]
                == pairs[i].1,
        peers1@ == peers0@,
        r matches InternalOutcome::Reply { bytes, .. } && bytes@ == encode_utf8("OK"@),
{
    law_copy_reads_back(pairs);
    if keys_unique(pairs) {
        lemma_apply_unique(db0@, pairs);
    }
}

/// After pairs with distinct keys are stored one after the other, each key
/// holds its own value.
pub proof fn lemma_apply_unique(m: Map<Seq<char>, Seq<char>>, pairs: Pairs)
    requires
        keys_unique(pairs),
    ensures
        forall|i: int|
            0 <= i < pairs.len() ==> apply_pairs(m, pairs).contains_key(#[trigger] pairs[i].0)
                && apply_pairs(m, pairs)[pairs[i].0] == pairs[i].1,
    decreases pairs.len(),
{
    if pairs.len() > 0 {
        let init = pairs.drop_last();
        assert forall|i: int, j: int| 0 <= i < j < init.len() implies init[i].0 != init[j].0 by {
            assert(init[i] == pairs[i] && init[j] == pairs[j]);
        }
        lemma_apply_unique(m, init);
        assert forall|i: int| 0 <= i < pairs.len() implies apply_pairs(m, pairs).contains_key(
            #[trigger] pairs[i].0,
        ) && apply_pairs(m, pairs)[pairs[i].0] == pairs[i].1 by {
            if i < pairs.len() - 1 {
                assert(init[i] == pairs[i]);
                assert(pairs[i].0 != pairs[pairs.len() - 1].0);
            }
        }
    }
}

/// The order in which a node lists its peers (in the answer to an
/// IDENTIFICATION, in the peers table) depends on the peers alone: two peer
/// lists that map the same names to the same addresses hold them in the same
/// order, sorted by name.
pub proof fn law_peer_order_determined(a: PeerList, b: PeerList)
    requires
        a.wf(),
        b.wf(),
        a@ == b@,
    ensures
        a.pairs() == b.pairs(),
{
    lemma_sorted_pairs_determined(a.pairs(), b.pairs());
}

/// `$` and a decimal numeral hold no `\r`.
proof fn lemma_length_line(n: nat)
    ensures
        !("$"@ + decimal(n)).contains('\r'),
{
    reveal_strlit("$");
    lemma_decimal_digits(n);
    let x = "$"@ + decimal(n);
    assert forall|i: int| 0 <= i < x.len() implies x[i] != '\r' by {
        if i > 0 {
            assert(x[i] == decimal(n)[i - 1]);
        }
    }
}

/// The text holds `*4` somewhere.
pub open spec fn holds_star4(s: Seq<char>) -> bool {
    exists|j: int| 0 <= j && j + 1 < s.len() && #[trigger] s[j] == '*' && s[j + 1] == '4'
}

/// Two texts without `*4`, joined where no `*` meets a `4`, hold none.
proof fn lemma_star4_concat(x: Seq<char>, y: Seq<char>)
    requires
        !holds_star4(x),
        !holds_star4(y),
        !(x.len() > 0 && y.len() > 0 && x.last() == '*' && y[0] == '4'),
    ensures
        !holds_star4(x + y),
{
    let s = x + y;
    if holds_star4(s) {
        let j = choose|j: int| 0 <= j && j + 1 < s.len() && #[trigger] s[j] == '*' && s[j + 1] == '4';
        if j + 1 < x.len() {
            assert(x[j] == '*' && x[j + 1] == '4');
        } else if j >= x.len() {
            assert(y[j - x.len()] == '*' && y[j - x.len() + 1] == '4');
        } else {
            assert(x.last() == '*' && y[0] == '4');
        }
    }
}

/// A text whose characters are none of `*` holds no `*4`.
proof fn lemma_no_star(x: Seq<char>)
    requires
        forall|i: int| 0 <= i < x.len() ==> #[trigger] x[i] != '*',
    ensures
        !holds_star4(x),
{
}

/// The first pass finds one chunk, no `CLIENT` command, in a `SET` whose
/// arguments hold no `*4`.
proof fn lemma_set_one_chunk(
    command: Seq<char>,
    key: Seq<char>,
    value: Seq<char>,
    lines: Seq<Seq<char>>,
)
    requires
        command.len() == 3,
        forall|i: int| 0 <= i < 3 ==> 'A' <= #[trigger] command[i] <= 'z',
        !holds_star4(key),
        !holds_star4(value),
        resp_lines(set_request_text(command, key, value)) == lines,
        lines.len() == 8,
        lines[0] == "*3"@,
        lines[1] == "$3"@,
    ensures
        resp_chunks(set_request_text(command, key, value)).map_values(
            |c: Seq<char>| chunk_kind(c),
        ) == seq![ChunkKind::Other],
{
    reveal_strlit("*3\r\n$3\r\n");
    reveal_strlit("\r\n$");
    reveal_strlit("\r\n");
    reveal_strlit("*3");
    reveal_strlit("$3");
    reveal_strlit("*4");
    reveal_strlit("CLIENT");
    let crlf = "\r\n"@;
    let dk = decimal(encode_utf8(key).len());
    let dv = decimal(encode_utf8(value).len());
    let t = set_request_text(command, key, value);
    let a = "*3\r\n$3\r\n"@;
    let b = "\r\n$"@;
    lemma_decimal_digits(encode_utf8(key).len());
    lemma_decimal_digits(encode_utf8(value).len());
    assert forall|i: int| 0 <= i < a.len() implies #[trigger] a[i] != '*' || i == 0 by {}
    assert(!holds_star4(a)) by {
        if holds_star4(a) {
            let j = choose|j: int| 0 <= j && j + 1 < a.len() && #[trigger] a[j] == '*' && a[j + 1]
                == '4';
            assert(j == 0);
        }
    }
    lemma_no_star(command);
    assert forall|i: int| 0 <= i < b.len() implies #[trigger] b[i] != '*' by {}
    lemma_no_star(b);
    lemma_no_star(crlf);
    lemma_no_star(dk);
    lemma_no_star(dv);
    let x1 = a + command;
    lemma_star4_concat(a, command);
    let x2 = x1 + b;
    lemma_star4_concat(x1, b);
    let x3 = x2 + dk;
    lemma_star4_concat(x2, dk);
    let x4 = x3 + crlf;
    lemma_star4_concat(x3, crlf);
    let x5 = x4 + key;
    lemma_star4_concat(x4, key);
    let x6 = x5 + b;
    lemma_star4_concat(x5, b);
    let x7 = x6 + dv;
    lemma_star4_concat(x6, dv);
    let x8 = x7 + crlf;
    lemma_star4_concat(x7, crlf);
    let x9 = x8 + value;
    lemma_star4_concat(x8, value);
    let x10 = x9 + crlf;
    lemma_star4_concat(x9, crlf);
    assert(t =~= x10);
    assert forall|j: int| 0 <= j implies !occurs_at(t, "*4"@, j) by {
        if occurs_at(t, "*4"@, j) {
            assert(t.subrange(j, j + 2)[0] == t[j]);
            assert(t.subrange(j, j + 2)[1] == t[j + 1]);
            assert(t[j] == '*' && t[j + 1] == '4');
            assert(holds_star4(t));
        }
    }
    lemma_split_absent(t, "*4"@, 0);
    assert(!is_white_space('*'));
    assert(!is_blank(t)) by {
        assert(t[0] == '*');
    }
    assert(non_blank(seq![t]) == seq![t]) by {
        assert(seq![t].drop_last() =~= Seq::<Seq<char>>::empty());
        assert(non_blank(Seq::<Seq<char>>::empty()) == Seq::<Seq<char>>::empty());
        assert(seq![t].last() == t);
        assert(Seq::<Seq<char>>::empty().push(t) =~= seq![t]);
    }
    let first = seq!["*3"@, "$3"@];
    let rest = lines.skip(2);
    assert(lines =~= first + rest);
    lemma_non_blank_concat(first, rest);
    assert(!is_blank("*3"@)) by {
        assert("*3"@[0] == '*');
    }
    assert(!is_blank("$3"@)) by {
        assert("$3"@[0] == '$');
        assert(!is_white_space('$'));
    }
    assert(non_blank(first) == first) by {
        let one = seq!["*3"@];
        assert(one.drop_last() =~= Seq::<Seq<char>>::empty());
        assert(non_blank(Seq::<Seq<char>>::empty()) == Seq::<Seq<char>>::empty());
        assert(one.last() == "*3"@);
        assert(non_blank(one) =~= one);
        assert(first.drop_last() =~= one);
        assert(first.last() == "$3"@);
        assert(one.push("$3"@) =~= first);
    }
    assert(non_blank(lines)[1] == "$3"@);
    assert("$3"@ != "CLIENT"@) by {
        assert("$3"@.len() != "CLIENT"@.len());
    }
    assert(chunk_kind(t) == ChunkKind::Other);
    assert(resp_chunks(t) == seq![t]);
    assert(resp_chunks(t).map_values(|c: Seq<char>| chunk_kind(c)) =~= seq![ChunkKind::Other]);
}

/// A `SET` command word in any ASCII case (`SET`, `set`, `Set`, ...) is
/// three letters.
proof fn lemma_set_word(command: Seq<char>)
    requires
        ascii_text(command),
        ascii_upper_text(command) == "SET"@,
    ensures
        command.len() == 3,
        forall|i: int| 0 <= i < 3 ==> 'A' <= #[trigger] command[i] <= 'z',
{
    reveal_strlit("SET");
    assert(ascii_upper_text(command).len() == command.len());
    assert forall|i: int| 0 <= i < 3 implies 'A' <= #[trigger] command[i] <= 'z' by {
        assert(ascii_upper_text(command)[i] == ascii_upper(command[i]));
        assert("SET"@[i] == 'S' || "SET"@[i] == 'E' || "SET"@[i] == 'T');
    }
}

/// A Redis `SET`, its command word in any ASCII case, whose key and value
/// hold no `\r` and no `*4` (they may hold `|` or any other character), is
/// read as that `SET`: it is no message of the cluster protocol, its one
/// `*4` chunk is no `CLIENT` command, and its lines give the key and the
/// value.
pub proof fn law_set_reads_back(command: Seq<char>, key: Seq<char>, value: Seq<char>)
    requires
        ascii_text(command),
        ascii_upper_text(command) == "SET"@,
        !key.contains('\r'),
        !value.contains('\r'),
        !holds_star4(key),
        !holds_star4(value),
    ensures
        !cluster_message(set_request_text(command, key, value)),
        resp_chunks(set_request_text(command, key, value)).map_values(
            |c: Seq<char>| chunk_kind(c),
        ) == seq![ChunkKind::Other],
        resp_lines(set_request_text(command, key, value)).len() >= 3,
        ascii_text(resp_lines(set_request_text(command, key, value))[2]),
        resp_msg(
            resp_lines(set_request_text(command, key, value)),
            ascii_upper_text(resp_lines(set_request_text(command, key, value))[2]),
        ) == (RespMsg::SetValue { key, value }),
{
    reveal_strlit("SET");
    reveal_strlit("CLIENT");
    reveal_strlit("SETINFO");
    reveal_strlit("LIB-VER");
    reveal_strlit("LIB-NAME");
    reveal_strlit("PING");
    reveal_strlit("ECHO");
    lemma_set_word(command);
    let lines = lemma_set_lines(command, key, value);
    let t = set_request_text(command, key, value);
    assert(t[0] == '*') by {
        reveal_strlit("*3\r\n$3\r\n");
        assert(t[0] == "*3\r\n$3\r\n"@[0]);
    }
    assert("SET"@ != "CLIENT"@) by {
        assert("SET"@.len() != "CLIENT"@.len());
    }
    assert("SET"@ != "SETINFO"@) by {
        assert("SET"@.len() != "SETINFO"@.len());
    }
    assert("SET"@ != "LIB-VER"@) by {
        assert("SET"@.len() != "LIB-VER"@.len());
    }
    assert("SET"@ != "LIB-NAME"@) by {
        assert("SET"@.len() != "LIB-NAME"@.len());
    }
    assert("SET"@ != "PING"@) by {
        assert("SET"@.len() != "PING"@.len());
    }
    assert("SET"@ != "ECHO"@) by {
        assert("SET"@.len() != "ECHO"@.len());
    }
    lemma_set_one_chunk(command, key, value, lines);
}

/// The lines of a `SET` whose arguments hold no `\r`.
proof fn lemma_set_lines(command: Seq<char>, key: Seq<char>, value: Seq<char>) -> (lines: Seq<
    Seq<char>,
>)
    requires
        command.len() == 3,
        forall|i: int| 0 <= i < 3 ==> 'A' <= #[trigger] command[i] <= 'z',
        !key.contains('\r'),
        !value.contains('\r'),
    ensures
        lines == resp_lines(set_request_text(command, key, value)),
        lines.len() == 8,
        lines[0] == "*3"@,
        lines[1] == "$3"@,
        lines[2] == command,
        lines[4] == key,
        lines[6] == value,
{
    reveal_strlit("*3\r\n$3\r\n");
    reveal_strlit("\r\n$");
    reveal_strlit("\r\n");
    reveal_strlit("*3");
    reveal_strlit("$3");
    reveal_strlit("$");
    let crlf = "\r\n"@;
    let lk = "$"@ + decimal(encode_utf8(key).len());
    let lv = "$"@ + decimal(encode_utf8(value).len());
    let t = set_request_text(command, key, value);
    let r6 = value + crlf + Seq::<char>::empty();
    let r5 = lv + crlf + r6;
    let r4 = key + crlf + r5;
    let r3 = lk + crlf + r4;
    let r2 = command + crlf + r3;
    let r1 = "$3"@ + crlf + r2;
    let r0 = "*3"@ + crlf + r1;
    assert(t =~= r0);
    lemma_length_line(encode_utf8(key).len());
    lemma_length_line(encode_utf8(value).len());
    assert(!"*3"@.contains('\r')) by {
        assert forall|i: int| 0 <= i < 2 implies "*3"@[i] != '\r' by {}
    }
    assert(!"$3"@.contains('\r')) by {
        assert forall|i: int| 0 <= i < 2 implies "$3"@[i] != '\r' by {}
    }
    assert(!command.contains('\r'));
    lemma_crlf_step("*3"@, r1);
    lemma_crlf_step("$3"@, r2);
    lemma_crlf_step(command, r3);
    lemma_crlf_step(lk, r4);
    lemma_crlf_step(key, r5);
    lemma_crlf_step(lv, r6);
    lemma_crlf_step(value, Seq::<char>::empty());
    let lines = seq!["*3"@, "$3"@, command, lk, key, lv, value, Seq::<char>::empty()];
    assert(split_text(Seq::<char>::empty(), crlf) == seq![Seq::<char>::empty()]);
    assert(resp_lines(t) =~= lines);
    lines
}

/// A node that carries out an ADD as `generate_command_add` writes it (its
/// date is chrono's RFC 3339 text, which holds no separator) for a plain key
/// and value stores that pair, leaves its peer list as it was, and hands
/// nothing on to other peers.
pub proof fn law_sent_add_replicates(
    key: Seq<char>,
    value: Seq<char>,
    command: Seq<char>,
    db0: Database,
    db1: Database,
    peers0: PeerList,
    peers1: PeerList,
    t0: TimingStats,
    t1: TimingStats,
    my_name: Seq<char>,
    my_address: Seq<char>,
    now: Instant,
    r: InternalOutcome,
)
    requires
        plain(key),
        plain(value),
        exists|d: Seq<char>| plain(d) && command == #[trigger] add_command_text(key, value, d),
        internal_effect(
            internal_msg(command),
            db0,
            db1,
            peers0,
            peers1,
            t0,
            t1,
            my_name,
            my_address,
            now,
            r,
        ),
    ensures
        db1@ == db0@.insert(key, value),
        peers1@ == peers0@,
        r matches InternalOutcome::Reply { copy_to, .. } ==> copy_to is None,
{
    let d = choose|d: Seq<char>| plain(d) && command == #[trigger] add_command_text(key, value, d);
    law_add_reads_back(key, value, d);
}

/// A node that carries out the ADD that another node sent at instant `sent`
/// (as `generate_command_add` writes it, for a plain key and value) stores
/// the pair and records one latency sample: the microseconds from `sent` to
/// its own `now`. Where that measure is negative, missing, or would make a
/// counter overflow, it records nothing and gives up.
pub proof fn law_sent_add_records_latency(
    key: Seq<char>,
    value: Seq<char>,
    sent: Instant,
    db0: Database,
    db1: Database,
    peers0: PeerList,
    peers1: PeerList,
    t0: TimingStats,
    t1: TimingStats,
    my_name: Seq<char>,
    my_address: Seq<char>,
    now: Instant,
    r: InternalOutcome,
)
    requires
        plain(key),
        plain(value),
        rfc3339_range(sent.secs, sent.nanos),
        rfc3339_of(sent.secs, sent.nanos) matches Some(d) && plain(d) && internal_effect(
            internal_msg(add_command_text(key, value, d)),
            db0,
            db1,
            peers0,
            peers1,
            t0,
            t1,
            my_name,
            my_address,
            now,
            r,
        ),
    ensures
        db1@ == db0@.insert(key, value),
        micros_between(sent.secs, sent.nanos, now.secs, now.nanos) matches Some(m) ==> (m >= 0
            && t0.total() + m <= u128::MAX && t0.samples() < u64::MAX ==> (r matches InternalOutcome::Reply {
            latency_micros,
            copy_to,
            ..
        } && latency_micros == Some(m) && copy_to is None && t1.total() == t0.total() + m
            && t1.samples() == t0.samples() + 1)),
        !(micros_between(sent.secs, sent.nanos, now.secs, now.nanos) matches Some(m) && m >= 0
            && t0.total() + m <= u128::MAX && t0.samples() < u64::MAX) ==> (r is Failed && t1
            == t0),
        rfc3339_range(now.secs, now.nanos) ==> micros_between(
            sent.secs,
            sent.nanos,
            now.secs,
            now.nanos,
        ) == Some(whole_micros(sent.secs, sent.nanos, now.secs, now.nanos) as i64),
        rfc3339_range(now.secs, now.nanos) ==> (whole_micros(sent.secs, sent.nanos, now.secs, now.nanos)
            as i64) as int == whole_micros(sent.secs, sent.nanos, now.secs, now.nanos),
{
    let d = rfc3339_of(sent.secs, sent.nanos)->0;
    law_add_reads_back(key, value, d);
    assert(add_outcome(Some(d), now, t0, t1, r));
    assert(rfc3339_reads_back(d));
    assert(rfc3339_of(sent.secs, sent.nanos) == Some(d));
    let elapsed = micros_between(sent.secs, sent.nanos, now.secs, now.nanos);
    let wm = whole_micros(sent.secs, sent.nanos, now.secs, now.nanos);
    if rfc3339_range(now.secs, now.nanos) {
        let d = (now.secs - sent.secs) * 1000000000 + now.nanos - sent.nanos;
        assert(-400000000000000000000 <= d <= 400000000000000000000);
        assert(-400000000000000000 <= wm <= 400000000000000000);
    }
    let res = choose|res: Result<i64, Fault>|
        {
            &&& #[trigger] latency_recorded(elapsed, t0, t1, res)
            &&& match res {
                Ok(m) => {
                    &&& r matches InternalOutcome::Reply { bytes, copy_to, latency_micros }
                    &&& bytes@ == encode_utf8("OK"@)
                    &&& copy_to is None
                    &&& latency_micros == Some(m)
                },
                Err(f) => r == InternalOutcome::Failed { fault: f },
            }
        };
    assert(latency_recorded(elapsed, t0, t1, res));
}

/// The pairs whose address is not `url`, in order.
pub open spec fn kept_peers(pairs: Pairs, url: Seq<char>) -> Pairs
    decreases pairs.len(),
{
    if pairs.len() == 0 {
        Pairs::empty()
    } else if pairs.last().1 != url {
        kept_peers(pairs.drop_last(), url).push(pairs.last())
    } else {
        kept_peers(pairs.drop_last(), url)
    }
}

/// Each kept pair is one of the pairs, and not at the address `url`.
proof fn lemma_kept_from(pairs: Pairs, url: Seq<char>)
    ensures
        forall|j: int|
            0 <= j < kept_peers(pairs, url).len() ==> (#[trigger] kept_peers(pairs, url)[j]).1
                != url && exists|i: int| 0 <= i < pairs.len() && pairs[i] == kept_peers(pairs, url)[j],
    decreases pairs.len(),
{
    if pairs.len() > 0 {
        let init = pairs.drop_last();
        lemma_kept_from(init, url);
        let ki = kept_peers(init, url);
        let k = kept_peers(pairs, url);
        assert forall|j: int| 0 <= j < k.len() implies (#[trigger] k[j]).1 != url && exists|i: int|
            0 <= i < pairs.len() && pairs[i] == k[j] by {
            if j < ki.len() {
                assert(k[j] == ki[j]);
                let i = choose|i: int| 0 <= i < init.len() && init[i] == ki[j];
                assert(pairs[i] == k[j]);
            } else {
                assert(pairs[pairs.len() - 1] == k[j]);
            }
        }
    }
}

/// Each pair not at the address `url` is kept.
proof fn lemma_kept_all(pairs: Pairs, url: Seq<char>)
    ensures
        forall|i: int|
            0 <= i < pairs.len() && (#[trigger] pairs[i]).1 != url ==> exists|j: int|
                0 <= j < kept_peers(pairs, url).len() && kept_peers(pairs, url)[j] == pairs[i],
    decreases pairs.len(),
{
    if pairs.len() > 0 {
        let init = pairs.drop_last();
        lemma_kept_all(init, url);
        let ki = kept_peers(init, url);
        let k = kept_peers(pairs, url);
        assert forall|i: int| 0 <= i < pairs.len() && (#[trigger] pairs[i]).1 != url implies exists|
            j: int,
        | 0 <= j < k.len() && k[j] == pairs[i] by {
            if i < pairs.len() - 1 {
                assert(init[i] == pairs[i]);
                let j = choose|j: int| 0 <= j < ki.len() && ki[j] == init[i];
                assert(k[j] == ki[j]);
            } else {
                assert(k[ki.len() as int] == pairs[i]);
            }
        }
    }
}

/// The kept pairs of pairs with distinct keys have distinct keys.
proof fn lemma_kept_unique(pairs: Pairs, url: Seq<char>)
    requires
        keys_unique(pairs),
    ensures
        keys_unique(kept_peers(pairs, url)),
    decreases pairs.len(),
{
    if pairs.len() > 0 {
        let init = pairs.drop_last();
        assert forall|a: int, b: int| 0 <= a < b < init.len() implies init[a].0 != init[b].0 by {
            assert(init[a] == pairs[a] && init[b] == pairs[b]);
        }
        lemma_kept_unique(init, url);
        lemma_kept_from(init, url);
        let ki = kept_peers(init, url);
        let k = kept_peers(pairs, url);
        if pairs.last().1 != url {
            assert forall|a: int, b: int| 0 <= a < b < k.len() implies k[a].0 != k[b].0 by {
                assert(k[a] == ki[a]);
                if b < ki.len() {
                    assert(k[b] == ki[b]);
                } else {
                    assert(ki[a] == ki[a]);
                    let i = choose|i: int| 0 <= i < init.len() && init[i] == ki[a];
                    assert(pairs[i] == ki[a]);
                    assert(k[b] == pairs[pairs.len() - 1]);
                }
            }
        }
    }
}

/// Storing pairs none of which has key `k` leaves `k` as it was.
proof fn lemma_apply_other_key(m: Map<Seq<char>, Seq<char>>, pairs: Pairs, k: Seq<char>)
    requires
        forall|i: int| 0 <= i < pairs.len() ==> (#[trigger] pairs[i]).0 != k,
    ensures
        apply_pairs(m, pairs).contains_key(k) == m.contains_key(k),
        m.contains_key(k) ==> apply_pairs(m, pairs)[k] == m[k],
    decreases pairs.len(),
{
    if pairs.len() > 0 {
        let init = pairs.drop_last();
        assert forall|i: int| 0 <= i < init.len() implies (#[trigger] init[i]).0 != k by {
            assert(init[i] == pairs[i]);
        }
        lemma_apply_other_key(m, init, k);
        assert(pairs[pairs.len() - 1].0 != k);
    }
}

/// Storing pairs none of which has address `u` gives no key the address
/// `u` that it did not have.
proof fn lemma_apply_no_value(m: Map<Seq<char>, Seq<char>>, pairs: Pairs, u: Seq<char>, k: Seq<char>)
    requires
        forall|i: int| 0 <= i < pairs.len() ==> (#[trigger] pairs[i]).1 != u,
        apply_pairs(m, pairs).contains_key(k),
        apply_pairs(m, pairs)[k] == u,
    ensures
        m.contains_key(k),
        m[k] == u,
    decreases pairs.len(),
{
    if pairs.len() > 0 {
        let init = pairs.drop_last();
        assert forall|i: int| 0 <= i < init.len() implies (#[trigger] init[i]).1 != u by {
            assert(init[i] == pairs[i]);
        }
        assert(pairs[pairs.len() - 1].1 != u);
        lemma_apply_no_value(m, init, u, k);
    }
}

/// The answer `ME` then `PEER` lines is recorded as the answering node, then
/// each of its peers but those at this node's own address.
proof fn lemma_exposure_kept(
    peers: Map<Seq<char>, Seq<char>>,
    my_own_url: Seq<char>,
    name: Seq<char>,
    addr: Seq<char>,
    pairs: Pairs,
)
    ensures
        apply_answer(
            peers,
            seq![AnswerItem::Me { name, addr }] + pairs.map_values(
                |p: (Seq<char>, Seq<char>)| AnswerItem::Peer { name: p.0, addr: p.1 },
            ),
            my_own_url,
        ) == apply_pairs(peers.insert(name, addr), kept_peers(pairs, my_own_url)),
    decreases pairs.len(),
{
    let items = seq![AnswerItem::Me { name, addr }] + pairs.map_values(
        |p: (Seq<char>, Seq<char>)| AnswerItem::Peer { name: p.0, addr: p.1 },
    );
    if pairs.len() == 0 {
        assert(items.drop_last() =~= Seq::<AnswerItem>::empty());
        assert(apply_answer(peers, items.drop_last(), my_own_url) == peers);
        assert(items.last() == AnswerItem::Me { name, addr });
        assert(kept_peers(pairs, my_own_url) == Pairs::empty());
        assert(apply_pairs(peers.insert(name, addr), Pairs::empty()) == peers.insert(name, addr));
    } else {
        let init = pairs.drop_last();
        lemma_exposure_kept(peers, my_own_url, name, addr, init);
        assert(items.drop_last() =~= seq![AnswerItem::Me { name, addr }] + init.map_values(
            |p: (Seq<char>, Seq<char>)| AnswerItem::Peer { name: p.0, addr: p.1 },
        ));
        assert(items.last() == AnswerItem::Peer { name: pairs.last().0, addr: pairs.last().1 });
        let ki = kept_peers(init, my_own_url);
        if pairs.last().1 != my_own_url {
            assert(kept_peers(pairs, my_own_url) == ki.push(pairs.last()));
            assert(ki.push(pairs.last()).drop_last() =~= ki);
        } else {
            assert(kept_peers(pairs, my_own_url) == ki);
        }
    }
}

/// The pairs of a peer list whose map is another's with one plain pair put
/// in are plain where the other's are.
proof fn lemma_inserted_plain(p0: PeerList, p1: PeerList, h: Seq<char>, u: Seq<char>)
    requires
        p0.wf(),
        p1.wf(),
        all_plain(p0.pairs()),
        plain(h),
        plain(u),
        p1@ == p0@.insert(h, u),
    ensures
        all_plain(p1.pairs()),
{
    lemma_sorted_unique(p0.pairs());
    lemma_sorted_unique(p1.pairs());
    lemma_map_of(p0.pairs());
    lemma_map_of(p1.pairs());
    let a = p1.pairs();
    let b = p0.pairs();
    assert forall|i: int| 0 <= i < a.len() implies plain(#[trigger] a[i].0) && plain(a[i].1) by {
        assert(to_map(a).contains_key(a[i].0));
        if a[i].0 != h {
            assert(to_map(b).contains_key(a[i].0));
            let j = choose|j: int| 0 <= j < b.len() && b[j].0 == a[i].0;
            assert(to_map(b).contains_key(b[j].0));
            assert(plain(b[j].0) && plain(b[j].1));
        }
    }
}

/// Two nodes meet: the asking node (`hostname` at `my_own_url`) sends its
/// IDENTIFICATION, the answering node (`name` at `addr`) carries it out, and
/// the asking node records the answer. The answering node then knows the
/// asking one; the asking node's peers become its old peers with the
/// answering node put in, then every peer of the answering node but those
/// at the asking node's own address (so it never records itself): each such
/// peer with its address, the answering node with its own where no peer
/// bears its name, and no new entry at the asking node's own address.
pub proof fn law_identification_exchange(
    hostname: Seq<char>,
    my_own_url: Seq<char>,
    local: Map<Seq<char>, Seq<char>>,
    name: Seq<char>,
    addr: Seq<char>,
    db0: Database,
    db1: Database,
    peers0: PeerList,
    peers1: PeerList,
    t0: TimingStats,
    t1: TimingStats,
    now: Instant,
    r: InternalOutcome,
)
    requires
        plain(hostname),
        plain(my_own_url),
        plain(name),
        plain(addr),
        addr != my_own_url,
        peers0.wf(),
        peers1.wf(),
        all_plain(peers0.pairs()),
        internal_effect(
            internal_msg(identification_text(hostname, my_own_url)),
            db0,
            db1,
            peers0,
            peers1,
            t0,
            t1,
            name,
            addr,
            now,
            r,
        ),
    ensures
        peers1@ == peers0@.insert(hostname, my_own_url),
        r matches InternalOutcome::Reply { bytes, .. } && {
            let after = apply_answer(local, answer_items(decode_utf8(bytes@)), my_own_url);
            &&& after == apply_pairs(
                local.insert(name, addr),
                kept_peers(peers1.pairs(), my_own_url),
            )
            &&& forall|i: int|
                0 <= i < peers1.pairs().len() && (#[trigger] peers1.pairs()[i]).1 != my_own_url
                    ==> after.contains_key(peers1.pairs()[i].0) && after[peers1.pairs()[i].0]
                    == peers1.pairs()[i].1
            &&& !peers1@.contains_key(name) ==> after.contains_key(name) && after[name] == addr
            &&& forall|k: Seq<char>|
                after.contains_key(k) && #[trigger] after[k] == my_own_url ==> local.contains_key(k)
                    && local[k] == my_own_url
        },
{
    law_identification_reads_back(hostname, my_own_url);
    lemma_inserted_plain(peers0, peers1, hostname, my_own_url);
    let pairs = peers1.pairs();
    law_exposure_reads_back(name, addr, pairs);
    lemma_exposure_kept(local, my_own_url, name, addr, pairs);
    let kept = kept_peers(pairs, my_own_url);
    let after = apply_pairs(local.insert(name, addr), kept);
    lemma_sorted_unique(pairs);
    lemma_map_of(pairs);
    lemma_kept_from(pairs, my_own_url);
    lemma_kept_all(pairs, my_own_url);
    lemma_kept_unique(pairs, my_own_url);
    lemma_apply_unique(local.insert(name, addr), kept);
    assert forall|i: int|
        0 <= i < pairs.len() && (#[trigger] pairs[i]).1 != my_own_url implies after.contains_key(
        pairs[i].0,
    ) && after[pairs[i].0] == pairs[i].1 by {
        let j = choose|j: int| 0 <= j < kept.len() && kept[j] == pairs[i];
        assert(after.contains_key(kept[j].0));
    }
    if !peers1@.contains_key(name) {
        assert forall|j: int| 0 <= j < kept.len() implies (#[trigger] kept[j]).0 != name by {
            let i = choose|i: int| 0 <= i < pairs.len() && pairs[i] == kept[j];
            assert(to_map(pairs).contains_key(pairs[i].0));
        }
        lemma_apply_other_key(local.insert(name, addr), kept, name);
    }
    assert forall|k: Seq<char>|
        after.contains_key(k) && #[trigger] after[k] == my_own_url implies local.contains_key(k)
            && local[k] == my_own_url by {
        lemma_apply_no_value(local.insert(name, addr), kept, my_own_url, k);
    }
}

/// A Redis SET changes its own key alone: afterwards the key holds the
/// value and every other key holds exactly what it held before (none is
/// added or lost); GET, PING and ECHO leave the database as it was; FLUSHALL
/// empties it.
pub proof fn law_redis_database(
    db: Map<Seq<char>, Seq<char>>,
    key: Seq<char>,
    value: Seq<char>,
    other: Seq<char>,
    text: Seq<char>,
)
    ensures
        resp_database(RespMsg::SetValue { key, value }, db).contains_key(key),
        resp_database(RespMsg::SetValue { key, value }, db)[key] == value,
        other != key ==> (resp_database(RespMsg::SetValue { key, value }, db).contains_key(other)
            <==> db.contains_key(other)),
        other != key && db.contains_key(other) ==> resp_database(
            RespMsg::SetValue { key, value },
            db,
        )[other] == db[other],
        resp_database(RespMsg::SetValue { key, value }, db) == db.insert(key, value),
        resp_database(RespMsg::Get { key }, db) == db,
        resp_database(RespMsg::Ping, db) == db,
        resp_database(RespMsg::Echo { text }, db) == db,
        resp_database(RespMsg::FlushAll, db).dom() == Set::<Seq<char>>::empty(),
{
    assert(resp_database(RespMsg::FlushAll, db).dom() =~= Set::<Seq<char>>::empty());
}

/// A Redis GET of a key that the database does not hold answers nil
/// (`$-1`), whatever other keys it holds; of a key it holds, it answers the
/// value as a bulk string: `$`, the value's length in UTF-8 bytes, the
/// value.
pub proof fn law_redis_get(db: Map<Seq<char>, Seq<char>>, key: Seq<char>)
    ensures
        !db.contains_key(key) ==> resp_answer(RespMsg::Get { key }, db) == "$-1\r\n"@,
        db.contains_key(key) && encode_utf8(db[key]).len() <= usize::MAX ==> resp_answer(
            RespMsg::Get { key },
            db,
        ) == "$"@ + decimal(encode_utf8(db[key]).len()) + "\r\n"@ + db[key] + "\r\n"@,
{
}

/// PING answers `+PONG`; ECHO answers its whole argument, unchanged; SET,
/// FLUSHALL and the CLIENT setup commands answer OK.
pub proof fn law_redis_answers(
    db: Map<Seq<char>, Seq<char>>,
    text: Seq<char>,
    key: Seq<char>,
    value: Seq<char>,
)
    ensures
        resp_answer(RespMsg::Ping, db) == "+PONG\r\n"@,
        resp_answer(RespMsg::Echo { text }, db) == "+"@ + text + "\r\n"@,
        resp_answer(RespMsg::Echo { text }, db).len() == text.len() + 3,
        resp_answer(RespMsg::Echo { text }, db).subrange(1, text.len() + 1int) == text,
        resp_answer(RespMsg::SetValue { key, value }, db) == "+OK\r\n"@,
        resp_answer(RespMsg::FlushAll, db) == "+OK\r\n"@,
        resp_answer(RespMsg::AckSetup, db) == "+OK\r\n+OK\r\n"@,
{
    reveal_strlit("+");
    reveal_strlit("\r\n");
    let a = resp_answer(RespMsg::Echo { text }, db);
    assert(a.subrange(1, text.len() + 1int) =~= text);
}

/// The HTML rows list every pair, in order, one row each: no pairs give no
/// rows, and one more pair adds its row at the end; a row holds the two
/// cells.
pub proof fn law_table_rows(pairs: Pairs, a: Seq<char>, b: Seq<char>)
    ensures
        table_rows(Pairs::empty()) == Seq::<char>::empty(),
        table_rows(pairs.push((a, b))) == table_rows(pairs) + table_row(a, b),
        table_row(a, b) == "<tr class=\"border-b\"><td class=\"p-2 font-mono\">"@ + a
            + "</td><td class=\"p-2 font-mono text-gray-600\">"@ + b + "</td></tr>"@,
{
    assert(pairs.push((a, b)).drop_last() =~= pairs);
}

/// Texts that agree before position `i` compare from `i` as from the start.
proof fn lemma_less_from_agree(a: Seq<char>, b: Seq<char>, k: nat, i: nat)
    requires
        k <= i,
        i <= a.len(),
        i <= b.len(),
        forall|j: int| 0 <= j < i ==> a[j] == b[j],
    ensures
        less_from(a, b, k) == less_from(a, b, i),
    decreases i - k,
{
    if k < i {
        assert(a[k as int] == b[k as int]);
        lemma_less_from_agree(a, b, k + 1, i);
    }
}

/// Peer names sort as `String` does: by the first character where they
/// differ, compared by code, whatever their lengths; a proper prefix sorts
/// before the longer text; no text sorts before an equal one.
pub proof fn law_text_order_lexicographic(a: Seq<char>, b: Seq<char>, i: int)
    ensures
        0 <= i < a.len() && i < b.len() && a[i] != b[i] && (forall|j: int|
            0 <= j < i ==> a[j] == b[j]) ==> text_lt(a, b) == ((a[i] as int) < (b[i] as int)),
        a.len() < b.len() && a == b.take(a.len() as int) ==> text_lt(a, b) && !text_lt(b, a),
        !text_lt(a, a),
{
    if 0 <= i < a.len() && i < b.len() && a[i] != b[i] && (forall|j: int|
        0 <= j < i ==> a[j] == b[j]) {
        lemma_less_from_agree(a, b, 0, i as nat);
    }
    if a.len() < b.len() && a == b.take(a.len() as int) {
        assert forall|j: int| 0 <= j < a.len() implies a[j] == b[j] by {
            assert(b.take(a.len() as int)[j] == b[j]);
        }
        lemma_less_from_agree(a, b, 0, a.len());
        assert forall|j: int| 0 <= j < a.len() implies b[j] == a[j] by {
            assert(b.take(a.len() as int)[j] == b[j]);
        }
        lemma_less_from_agree(b, a, 0, a.len());
    }
    lemma_less_irreflexive(a, 0);
}

/// The decimal numeral of `n` is made of digits, is worth `n`, and has no
/// leading zero; the numeral of a port reads back as that port.
#[verifier::spinoff_prover]
pub proof fn law_decimal_reads_back(n: nat)
    ensures
        decimal(n).len() > 0,
        all_digits(decimal(n)),
        digits_value(decimal(n)) == n,
        decimal(n)[0] != '0' || n == 0,
        n <= 65535 ==> port_of(decimal(n)) == Some(n as u16),
    decreases n,
{
    lemma_decimal_digits(n);
    let d = decimal(n);
    let c = digit_char(n % 10);
    assert((c as int) - ('0' as int) == n % 10) by {
        let x = (n % 10) % 10 + 48;
        assert((n % 10) % 10 == n % 10);
        assert(x as char as int == x);
    }
    if n >= 10 {
        law_decimal_reads_back(n / 10);
        assert(d.drop_last() == decimal(n / 10));
        assert(d.last() == c);
        assert(d[0] == decimal(n / 10)[0]);
        assert(n == (n / 10) * 10 + n % 10);
        assert(digits_value(d) == digits_value(d.drop_last()) * 10 + ((d.last() as int) - (
        '0' as int)) as nat);
        assert(digits_value(d) == n);
    } else {
        assert(d.drop_last() =~= Seq::<char>::empty());
        assert(digits_value(Seq::<char>::empty()) == 0);
        assert(d[0] == c);
        assert(d.last() == c);
        assert(n % 10 == n);
        assert(digits_value(d) == digits_value(d.drop_last()) * 10 + ((d.last() as int) - (
        '0' as int)) as nat);
        assert(digits_value(d) == n);
    }
    if n <= 65535 {
        assert('0' <= d[0] <= '9');
        assert(d[0] != '+');
        assert(!(d.len() > 0 && d[0] == '+'));
        assert(port_of(d) == Some(digits_value(d) as u16));
    }
}

} // verus!
