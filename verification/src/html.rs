//! The rows of the HTML tables that list the peers and the values.

use vstd::prelude::*;
use crate::env::State;
use crate::store::{Database, Pairs, PeerList};
use crate::text::{push_chars, push_str, string_of};

verus! {

/// One table row with two cells.
pub open spec fn table_row(a: Seq<char>, b: Seq<char>) -> Seq<char> {
    "<tr class=\"border-b\"><td class=\"p-2 font-mono\">"@ + a
        + "</td><td class=\"p-2 font-mono text-gray-600\">"@ + b + "</td></tr>"@
}

/// One row per pair, in order.
pub open spec fn table_rows(pairs: Pairs) -> Seq<char>
    decreases pairs.len(),
{
    if pairs.len() == 0 {
        Seq::empty()
    } else {
        table_rows(pairs.drop_last()) + table_row(pairs.last().0, pairs.last().1)
    }
}

/// Appends a row.
fn push_row(out: &mut Vec<char>, a: &Vec<char>, b: &Vec<char>)
    ensures
        final(out)@ == old(out)@ + table_row(a@, b@),
{
    let ghost start = out@;
    push_str(out, "<tr class=\"border-b\"><td class=\"p-2 font-mono\">");
    push_chars(out, a);
    push_str(out, "</td><td class=\"p-2 font-mono text-gray-600\">");
    push_chars(out, b);
    push_str(out, "</td></tr>");
    assert(out@ =~= start + table_row(a@, b@));
}

/// Appends one row per entry, in order.
fn push_rows(out: &mut Vec<char>, entries: &Vec<(Vec<char>, Vec<char>)>, pairs: Ghost<Pairs>)
    requires
        pairs@.len() == entries@.len(),
        forall|j: int| 0 <= j < entries@.len() ==> #[trigger] pairs@[j] == (entries@[j].0@, entries@[j].1@),
    ensures
        final(out)@ == old(out)@ + table_rows(pairs@),
{
    let ghost start = out@;
    assert(pairs@.take(0) =~= Pairs::empty());
    assert(out@ =~= start + table_rows(pairs@.take(0)));
    for i in 0..entries.len()
        invariant
            pairs@.len() == entries@.len(),
            forall|j: int| 0 <= j < entries@.len() ==> #[trigger] pairs@[j] == (entries@[j].0@, entries@[j].1@),
            out@ == start + table_rows(pairs@.take(i as int)),
    {
        push_row(out, &entries[i].0, &entries[i].1);
        assert(pairs@.take(i + 1).drop_last() =~= pairs@.take(i as int));
        assert(pairs@.take(i + 1).last() == pairs@[i as int]);
    }
    assert(pairs@.take(entries@.len() as int) =~= pairs@);
}

/// The rows of the peers table: this node first, then every known peer,
/// sorted by name.
pub fn peers_table_rows(state: &State, peers: &PeerList) -> (html: String)
    ensures
        html@ == table_row(state.hostname@, state.reacheable_url@) + table_rows(peers.pairs()),
{
    let mut out: Vec<char> = Vec::new();
    push_str(&mut out, "<tr class=\"border-b\"><td class=\"p-2 font-mono\">");
    push_str(&mut out, state.hostname.as_str());
    push_str(&mut out, "</td><td class=\"p-2 font-mono text-gray-600\">");
    push_str(&mut out, state.reacheable_url.as_str());
    push_str(&mut out, "</td></tr>");
    assert(out@ =~= table_row(state.hostname@, state.reacheable_url@));
    let entries = peers.entries();
    push_rows(&mut out, &entries, Ghost(peers.pairs()));
    string_of(&out)
}

/// The rows of the values table: one per entry of the database, in its
/// order.
pub fn values_table_rows(db: &Database) -> (html: String)
    ensures
        html@ == table_rows(db.pairs()),
{
    let mut out: Vec<char> = Vec::new();
    let entries = db.entries();
    push_rows(&mut out, &entries, Ghost(db.pairs()));
    assert(out@ =~= table_rows(db.pairs()));
    string_of(&out)
}

} // verus!
