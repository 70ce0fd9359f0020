//! The order of `String`: lexicographic by character code. UTF-8 keeps the
//! order of code points, so this is the byte order by which `String`
//! compares and a `BTreeMap` keyed by `String` sorts.

use vstd::prelude::*;

verus! {

/// `a` sorts before `b`, comparing from position `i` on.
pub open spec fn less_from(a: Seq<char>, b: Seq<char>, i: nat) -> bool
    decreases a.len() - i,
{
    if i >= a.len() {
        i < b.len()
    } else if i >= b.len() {
        false
    } else if a[i as int] != b[i as int] {
        (a[i as int] as int) < (b[i as int] as int)
    } else {
        less_from(a, b, i + 1)
    }
}

/// `a` sorts strictly before `b`.
pub open spec fn text_lt(a: Seq<char>, b: Seq<char>) -> bool {
    less_from(a, b, 0)
}

/// Whether `a` sorts strictly before `b`.
pub fn text_less(a: &Vec<char>, b: &Vec<char>) -> (r: bool)
    ensures
        r == text_lt(a@, b@),
{
    let mut i: usize = 0;
    while i < a.len() && i < b.len()
        invariant
            i <= a@.len(),
            i <= b@.len(),
            text_lt(a@, b@) == less_from(a@, b@, i as nat),
        decreases a@.len() - i,
    {
        let x: char = a[i];
        let y: char = b[i];
        if x != y {
            assert(less_from(a@, b@, i as nat) == ((x as int) < (y as int)));
            return x < y;
        }
        i = i + 1;
    }
    a.len() < b.len()
}

/// No text sorts before itself.
pub proof fn lemma_less_irreflexive(a: Seq<char>, i: nat)
    ensures
        !less_from(a, a, i),
    decreases a.len() - i,
{
    if i < a.len() {
        lemma_less_irreflexive(a, i + 1);
    }
}

/// The order is transitive.
pub proof fn lemma_less_transitive(a: Seq<char>, b: Seq<char>, c: Seq<char>, i: nat)
    requires
        less_from(a, b, i),
        less_from(b, c, i),
    ensures
        less_from(a, c, i),
    decreases a.len() - i,
{
    if i < a.len() && i < b.len() && i < c.len() && a[i as int] == b[i as int] && b[i as int]
        == c[i as int] {
        lemma_less_transitive(a, b, c, i + 1);
    }
}

/// Two texts that agree before position `i` are equal or one sorts before
/// the other.
pub proof fn lemma_less_total(a: Seq<char>, b: Seq<char>, i: nat)
    requires
        i <= a.len(),
        i <= b.len(),
        forall|j: int| 0 <= j < i ==> a[j] == b[j],
    ensures
        less_from(a, b, i) || less_from(b, a, i) || a == b,
    decreases a.len() - i,
{
    if i < a.len() && i < b.len() {
        if a[i as int] == b[i as int] {
            lemma_less_total(a, b, i + 1);
        } else {
            assert((a[i as int] as int) != (b[i as int] as int));
        }
    } else if i == a.len() && i == b.len() {
        assert(a =~= b);
    }
}

/// `text_lt` is a strict total order.
pub proof fn lemma_text_order(a: Seq<char>, b: Seq<char>, c: Seq<char>)
    ensures
        !text_lt(a, a),
        text_lt(a, b) && text_lt(b, c) ==> text_lt(a, c),
        text_lt(a, b) || text_lt(b, a) || a == b,
        text_lt(a, b) ==> !text_lt(b, a),
{
    lemma_less_irreflexive(a, 0);
    if text_lt(a, b) && text_lt(b, c) {
        lemma_less_transitive(a, b, c, 0);
    }
    lemma_less_total(a, b, 0);
    if text_lt(a, b) && text_lt(b, a) {
        lemma_less_transitive(a, b, a, 0);
    }
}

} // verus!
