//! How a node reads the answer of a peer to its IDENTIFICATION: the peer
//! itself (`ME`) and the peers it knows (`PEER`), one per line.

use vstd::prelude::*;
use vstd::utf8::{decode_utf8, valid_utf8};
use crate::store::PeerList;
use crate::text::{chars_of, has_char, one_char, same_text, split, split_text, string_of, texts};

verus! {

/// The text of bytes, each invalid UTF-8 sequence replaced by U+FFFD, as
/// `String::from_utf8_lossy` gives it.
pub uninterp spec fn lossy_text(bytes: Seq<u8>) -> Seq<char>;

/// `String::from_utf8_lossy`; the contract names the result
/// `lossy_text(bytes)` and, as its documentation says, valid UTF-8 is
/// decoded unchanged.
#[verifier::external_body]
pub(crate) fn decode_lossy(bytes: &[u8]) -> (s: String)
    ensures
        s@ == lossy_text(bytes@),
        valid_utf8(bytes@) ==> s@ == decode_utf8(bytes@),
{
    String::from_utf8_lossy(bytes).into_owned()
}

/// One line of an answer.
pub enum AnswerItem {
    /// A peer that the answering node knows.
    Peer { name: Seq<char>, addr: Seq<char> },
    /// The answering node itself.
    Me { name: Seq<char>, addr: Seq<char> },
    /// A line that the node cannot read: it gives up on the connection.
    Fault,
}

/// The value of the property at position `i`, empty where there is none.
pub open spec fn property_value(props: Seq<Seq<char>>, i: int) -> Seq<char> {
    if 0 <= i < props.len() {
        let f = split_text(props[i], seq!['=']);
        if f.len() >= 2 {
            f[1]
        } else {
            Seq::empty()
        }
    } else {
        Seq::empty()
    }
}

/// How a node reads one line of an answer.
pub open spec fn answer_item(line: Seq<char>) -> AnswerItem {
    let parts = split_text(line, seq!['|']);
    if parts[0] == "PEER"@ || parts[0] == "ME"@ {
        if parts.len() < 2 {
            AnswerItem::Fault
        } else {
            let props = split_text(parts[1], seq![',']);
            let name = property_value(props, 0);
            let addr = property_value(props, 1);
            if parts[0] == "PEER"@ {
                AnswerItem::Peer { name, addr }
            } else {
                AnswerItem::Me { name, addr }
            }
        }
    } else {
        AnswerItem::Fault
    }
}

/// The items up to and including the first fault.
pub open spec fn up_to_fault(items: Seq<AnswerItem>) -> Seq<AnswerItem>
    decreases items.len(),
{
    if items.len() == 0 {
        Seq::empty()
    } else {
        let done = up_to_fault(items.drop_last());
        if done.len() > 0 && done.last() is Fault {
            done
        } else {
            done.push(items.last())
        }
    }
}

/// The lines of an answer that the node reads, in order: none where the
/// answer holds no `|`.
pub open spec fn answer_items(answer: Seq<char>) -> Seq<AnswerItem> {
    if !answer.contains('|') {
        Seq::empty()
    } else {
        up_to_fault(split_text(answer, seq!['\n']).map_values(|l: Seq<char>| answer_item(l)))
    }
}

/// The peer list after one item: `ME` is always recorded, `PEER` unless its
/// address is this node's own.
pub open spec fn apply_item(
    peers: Map<Seq<char>, Seq<char>>,
    item: AnswerItem,
    my_own_url: Seq<char>,
) -> Map<Seq<char>, Seq<char>> {
    match item {
        AnswerItem::Peer { name, addr } => if addr != my_own_url {
            peers.insert(name, addr)
        } else {
            peers
        },
        AnswerItem::Me { name, addr } => peers.insert(name, addr),
        AnswerItem::Fault => peers,
    }
}

/// The peer list after the items, one after the other.
pub open spec fn apply_answer(
    peers: Map<Seq<char>, Seq<char>>,
    items: Seq<AnswerItem>,
    my_own_url: Seq<char>,
) -> Map<Seq<char>, Seq<char>>
    decreases items.len(),
{
    if items.len() == 0 {
        peers
    } else {
        apply_item(apply_answer(peers, items.drop_last(), my_own_url), items.last(), my_own_url)
    }
}

/// The value of the property at position `i`.
fn property(props: &Vec<Vec<char>>, i: usize) -> (v: Vec<char>)
    ensures
        v@ == property_value(texts(props@), i as int),
{
    if i < props.len() {
        let f = split(&props[i], &one_char('='));
        assert(texts(props@)[i as int] == props@[i as int]@);
        if f.len() >= 2 {
            assert(texts(f@)[1] == f@[1]@);
            let mut f = f;
            f.swap_remove(1)
        } else {
            Vec::new()
        }
    } else {
        Vec::new()
    }
}

/// The peers named by one line, and whether the line is readable.
fn read_item(
    line: &Vec<char>,
    peers: &mut PeerList,
    my_own_url: &Vec<char>,
) -> (ok: bool)
    requires
        old(peers).wf(),
    ensures
        final(peers).wf(),
        ok == !(answer_item(line@) is Fault),
        final(peers)@ == apply_item(old(peers)@, answer_item(line@), my_own_url@),
{
    let parts = split(line, &one_char('|'));
    let ghost pv = texts(parts@);
    assert(pv[0] == parts@[0]@);
    let is_peer = same_text(&parts[0], &chars_of("PEER"));
    let is_me = same_text(&parts[0], &chars_of("ME"));
    if !(is_peer || is_me) || parts.len() < 2 {
        return false;
    }
    assert(pv[1] == parts@[1]@);
    let props = split(&parts[1], &one_char(','));
    let name = property(&props, 0);
    let addr = property(&props, 1);
    if is_peer {
        if !same_text(&addr, my_own_url) {
            peers.insert_chars(name, addr);
        }
    } else {
        peers.insert_chars(name, addr);
    }
    true
}

/// Reads the text of an answer and records the peers it names: returns
/// false where a line cannot be read (the node then gives up on the
/// connection, the lines before it recorded).
pub fn apply_answer_text(peers: &mut PeerList, answer: &str, my_own_url: &str) -> (ok: bool)
    requires
        old(peers).wf(),
    ensures
        final(peers).wf(),
        final(peers)@ == apply_answer(old(peers)@, answer_items(answer@), my_own_url@),
        ok == !(answer_items(answer@).len() > 0 && answer_items(answer@).last() is Fault),
{
    let t = chars_of(answer);
    let url = chars_of(my_own_url);
    let ghost p0 = peers@;
    if !has_char(&t, '|') {
        return true;
    }
    let lines = split(&t, &one_char('\n'));
    let ghost items = texts(lines@).map_values(|l: Seq<char>| answer_item(l));
    let mut ok = true;
    assert(items.take(0) =~= Seq::<AnswerItem>::empty());
    for i in 0..lines.len()
        invariant
            items == texts(lines@).map_values(|l: Seq<char>| answer_item(l)),
            url@ == my_own_url@,
            peers.wf(),
            peers@ == apply_answer(p0, up_to_fault(items.take(i as int)), url@),
            ok == !(up_to_fault(items.take(i as int)).len() > 0 && up_to_fault(
                items.take(i as int),
            ).last() is Fault),
    {
        let ghost done = up_to_fault(items.take(i as int));
        let ghost before = peers@;
        assert(items.take(i + 1).drop_last() =~= items.take(i as int));
        assert(items.take(i + 1).last() == answer_item(lines@[i as int]@));
        if ok {
            let line_ok = read_item(&lines[i], peers, &url);
            let ghost item = answer_item(lines@[i as int]@);
            assert(up_to_fault(items.take(i + 1)) =~= done.push(item));
            assert(done.push(item).drop_last() =~= done);
            ok = line_ok;
        }
    }
    assert(items.take(lines@.len() as int) =~= items);
    ok
}

/// Reads an answer (a chunk of bytes, each invalid UTF-8 sequence taken as
/// U+FFFD) and records the peers it names: returns false where a line
/// cannot be read.
pub fn apply_peer_answer(peers: &mut PeerList, data: &[u8], my_own_url: &str) -> (ok: bool)
    requires
        old(peers).wf(),
    ensures
        final(peers).wf(),
        final(peers)@ == apply_answer(
            old(peers)@,
            answer_items(lossy_text(data@)),
            my_own_url@,
        ),
        ok == !(answer_items(lossy_text(data@)).len() > 0 && answer_items(
            lossy_text(data@),
        ).last() is Fault),
        valid_utf8(data@) ==> final(peers)@ == apply_answer(
            old(peers)@,
            answer_items(decode_utf8(data@)),
            my_own_url@,
        ),
{
    let answer = decode_lossy(data);
    apply_answer_text(peers, answer.as_str(), my_own_url)
}

} // verus!
