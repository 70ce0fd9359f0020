//! The node's two tables: the key-value database and the list of known
//! peers. Both map text to text; the database keeps its entries in the order
//! in which their keys first came, the peer list keeps them sorted by name.

use vstd::prelude::*;
use crate::order::{text_less, text_lt, lemma_text_order};
use crate::text::{chars_of, copy_chars, same_text, string_of};

verus! {

/// A sequence of (key, value) pairs.
pub type Pairs = Seq<(Seq<char>, Seq<char>)>;

/// The views of stored pairs.
pub open spec fn pair_views(e: Seq<(Vec<char>, Vec<char>)>) -> Pairs {
    e.map_values(|p: (Vec<char>, Vec<char>)| (p.0@, p.1@))
}

/// The map that the pairs describe (a later pair wins for a repeated key).
pub open spec fn to_map(pairs: Pairs) -> Map<Seq<char>, Seq<char>>
    decreases pairs.len(),
{
    if pairs.len() == 0 {
        Map::empty()
    } else {
        to_map(pairs.drop_last()).insert(pairs.last().0, pairs.last().1)
    }
}

/// No key occurs twice.
pub open spec fn keys_unique(pairs: Pairs) -> bool {
    forall|i: int, j: int| 0 <= i < j < pairs.len() ==> pairs[i].0 != pairs[j].0
}

/// Some pair has key `k`.
pub open spec fn has_key(pairs: Pairs, k: Seq<char>) -> bool {
    exists|i: int| 0 <= i < pairs.len() && pairs[i].0 == k
}

/// The pairs after `k` is set to `v`: in place if `k` is present, at the
/// end otherwise.
pub open spec fn set_pair(pairs: Pairs, k: Seq<char>, v: Seq<char>) -> Pairs {
    if has_key(pairs, k) {
        pairs.map_values(|p: (Seq<char>, Seq<char>)| if p.0 == k { (k, v) } else { p })
    } else {
        pairs.push((k, v))
    }
}

/// What the map of unique pairs holds.
pub proof fn lemma_map_of(pairs: Pairs)
    requires
        keys_unique(pairs),
    ensures
        forall|i: int|
            0 <= i < pairs.len() ==> #[trigger] to_map(pairs).contains_key(pairs[i].0)
                && to_map(pairs)[pairs[i].0] == pairs[i].1,
        forall|k: Seq<char>| #[trigger]
            to_map(pairs).contains_key(k) ==> has_key(pairs, k),
        to_map(pairs).dom().finite(),
        to_map(pairs).dom().len() == pairs.len(),
    decreases pairs.len(),
{
    if pairs.len() > 0 {
        let init = pairs.drop_last();
        lemma_map_of(init);
        assert forall|i: int| 0 <= i < pairs.len() implies #[trigger] to_map(pairs).contains_key(
            pairs[i].0,
        ) && to_map(pairs)[pairs[i].0] == pairs[i].1 by {
            if i < pairs.len() - 1 {
                assert(init[i] == pairs[i]);
                assert(to_map(init).contains_key(init[i].0));
                assert(pairs[i].0 != pairs[pairs.len() - 1].0);
            }
        }
        assert forall|k: Seq<char>| #[trigger] to_map(pairs).contains_key(k) implies has_key(
            pairs,
            k,
        ) by {
            if k != pairs.last().0 {
                assert(has_key(init, k));
                let i = choose|i: int| 0 <= i < init.len() && init[i].0 == k;
                assert(pairs[i].0 == k);
            } else {
                assert(pairs[pairs.len() - 1].0 == k);
            }
        }
        assert(!to_map(init).contains_key(pairs.last().0)) by {
            if to_map(init).contains_key(pairs.last().0) {
                let i = choose|i: int| 0 <= i < init.len() && init[i].0 == pairs.last().0;
                assert(pairs[i].0 == pairs[pairs.len() - 1].0);
            }
        }
    }
}

/// The map of the pairs after `set_pair`.
pub proof fn lemma_set_pair(pairs: Pairs, k: Seq<char>, v: Seq<char>)
    requires
        keys_unique(pairs),
    ensures
        keys_unique(set_pair(pairs, k, v)),
        to_map(set_pair(pairs, k, v)) == to_map(pairs).insert(k, v),
{
    let n = set_pair(pairs, k, v);
    assert(keys_unique(n));
    lemma_map_of(pairs);
    lemma_map_of(n);
    assert forall|key: Seq<char>| #[trigger] to_map(n).contains_key(key) implies to_map(
        pairs,
    ).insert(k, v).contains_key(key) by {
        let i = choose|i: int| 0 <= i < n.len() && n[i].0 == key;
        if key != k {
            assert(pairs[i].0 == key);
            assert(to_map(pairs).contains_key(pairs[i].0));
        }
    }
    assert forall|key: Seq<char>| #[trigger]
        to_map(pairs).insert(k, v).contains_key(key) implies to_map(n).contains_key(key) by {
        if key == k {
            if has_key(pairs, k) {
                let i = choose|i: int| 0 <= i < pairs.len() && pairs[i].0 == k;
                assert(n[i].0 == k);
                assert(to_map(n).contains_key(n[i].0));
            } else {
                assert(n[n.len() - 1].0 == k);
                assert(to_map(n).contains_key(n[n.len() - 1].0));
            }
        } else {
            assert(to_map(pairs).contains_key(key));
            let i = choose|i: int| 0 <= i < pairs.len() && pairs[i].0 == key;
            assert(n[i].0 == key);
            assert(to_map(n).contains_key(n[i].0));
        }
    }
    assert forall|key: Seq<char>| #[trigger]
        to_map(n).contains_key(key) implies to_map(n)[key] == to_map(pairs).insert(k, v)[key] by {
        let i = choose|i: int| 0 <= i < n.len() && n[i].0 == key;
        assert(to_map(n)[n[i].0] == n[i].1);
        if key != k {
            assert(pairs[i].0 == key);
            assert(to_map(pairs)[pairs[i].0] == pairs[i].1);
        }
    }
    assert(to_map(n) =~= to_map(pairs).insert(k, v));
}

/// The position of key `k` among the stored pairs, if it is there.
fn find_key(entries: &Vec<(Vec<char>, Vec<char>)>, k: &Vec<char>) -> (r: Option<usize>)
    ensures
        match r {
            Some(i) => i < entries@.len() && pair_views(entries@)[i as int].0 == k@,
            None => !has_key(pair_views(entries@), k@),
        },
{
    for i in 0..entries.len()
        invariant
            forall|j: int| 0 <= j < i ==> pair_views(entries@)[j].0 != k@,
    {
        if same_text(&entries[i].0, k) {
            return Some(i);
        }
    }
    None
}

/// A copy of a stored pair.
fn copy_pair(p: &(Vec<char>, Vec<char>)) -> (c: (Vec<char>, Vec<char>))
    ensures
        c.0@ == p.0@,
        c.1@ == p.1@,
{
    (copy_chars(&p.0), copy_chars(&p.1))
}

/// The key-value database of a node: text keys mapped to text values.
pub struct Database {
    entries: Vec<(Vec<char>, Vec<char>)>,
}

impl View for Database {
    type V = Map<Seq<char>, Seq<char>>;

    open spec fn view(&self) -> Map<Seq<char>, Seq<char>> {
        to_map(self.pairs())
    }
}

impl Database {
    /// The stored pairs, in the order in which their keys first came.
    pub closed spec fn pairs(&self) -> Pairs {
        pair_views(self.entries@)
    }

    /// No key is stored twice.
    pub open spec fn wf(&self) -> bool {
        keys_unique(self.pairs())
    }

    /// An empty database.
    pub fn new() -> (db: Database)
        ensures
            db.wf(),
            db.pairs() == Pairs::empty(),
            db@ == Map::<Seq<char>, Seq<char>>::empty(),
    {
        let db = Database { entries: Vec::new() };
        assert(db.pairs() =~= Pairs::empty());
        db
    }

    /// Sets `key` to `value`: the value of a present key is replaced where
    /// it stands, a new key comes last.
    pub fn insert(&mut self, key: String, value: String)
        requires
            old(self).wf(),
        ensures
            final(self).wf(),
            final(self).pairs() == set_pair(old(self).pairs(), key@, value@),
            final(self)@ == old(self)@.insert(key@, value@),
    {
        let k = chars_of(key.as_str());
        let v = chars_of(value.as_str());
        self.insert_chars(k, v);
    }

    /// `insert` on character vectors.
    pub fn insert_chars(&mut self, k: Vec<char>, v: Vec<char>)
        requires
            old(self).wf(),
        ensures
            final(self).wf(),
            final(self).pairs() == set_pair(old(self).pairs(), k@, v@),
            final(self)@ == old(self)@.insert(k@, v@),
    {
        let ghost old_pairs = self.pairs();
        match find_key(&self.entries, &k) {
            Some(i) => {
                let ghost kv = k@;
                self.entries.set(i, (k, v));
                assert(self.pairs() =~= set_pair(old_pairs, kv, v@)) by {
                    assert forall|j: int| 0 <= j < old_pairs.len() && j != i implies old_pairs[j].0
                        != kv by {
                        if j < i {
                            assert(old_pairs[j].0 != old_pairs[i as int].0);
                        } else {
                            assert(old_pairs[i as int].0 != old_pairs[j].0);
                        }
                    }
                }
            },
            None => {
                let ghost kv = k@;
                self.entries.push((k, v));
                assert(self.pairs() =~= old_pairs.push((kv, v@)));
            },
        }
        proof {
            lemma_set_pair(old_pairs, k@, v@);
        }
    }

    /// The value of `key`, if it is present.
    pub fn get(&self, key: &str) -> (r: Option<String>)
        requires
            self.wf(),
        ensures
            match r {
                Some(v) => self@.contains_key(key@) && self@[key@] == v@,
                None => !self@.contains_key(key@),
            },
    {
        let k = chars_of(key);
        proof {
            lemma_map_of(self.pairs());
        }
        match find_key(&self.entries, &k) {
            Some(i) => {
                assert(to_map(self.pairs()).contains_key(self.pairs()[i as int].0));
                Some(string_of(&self.entries[i].1))
            },
            None => None,
        }
    }

    /// Removes every entry.
    pub fn clear(&mut self)
        ensures
            final(self).wf(),
            final(self).pairs() == Pairs::empty(),
            final(self)@ == Map::<Seq<char>, Seq<char>>::empty(),
    {
        self.entries.clear();
        assert(self.pairs() =~= Pairs::empty());
    }

    /// The number of keys.
    pub fn len(&self) -> (n: usize)
        requires
            self.wf(),
        ensures
            n == self@.len(),
            n == self.pairs().len(),
    {
        proof {
            lemma_map_of(self.pairs());
        }
        self.entries.len()
    }

    /// The stored pairs, in order.
    pub fn entries(&self) -> (r: Vec<(Vec<char>, Vec<char>)>)
        ensures
            pair_views(r@) == self.pairs(),
    {
        let mut r: Vec<(Vec<char>, Vec<char>)> = Vec::new();
        for i in 0..self.entries.len()
            invariant
                pair_views(r@) == self.pairs().take(i as int),
        {
            let p = copy_pair(&self.entries[i]);
            let ghost before = pair_views(r@);
            let ghost pv = (p.0@, p.1@);
            r.push(p);
            assert(pair_views(r@) =~= before.push(pv));
            assert(self.pairs().take(i + 1) =~= self.pairs().take(i as int).push(self.pairs()[i as int]));
        }
        assert(self.pairs().take(self.entries@.len() as int) =~= self.pairs());
        r
    }
}

/// The keys are in strictly increasing order.
pub open spec fn sorted_keys(pairs: Pairs) -> bool {
    forall|i: int, j: int| 0 <= i < j < pairs.len() ==> text_lt(pairs[i].0, pairs[j].0)
}

/// Sorted keys are unique.
pub proof fn lemma_sorted_unique(pairs: Pairs)
    requires
        sorted_keys(pairs),
    ensures
        keys_unique(pairs),
{
    assert forall|i: int, j: int| 0 <= i < j < pairs.len() implies pairs[i].0 != pairs[j].0 by {
        lemma_text_order(pairs[i].0, pairs[j].0, pairs[j].0);
    }
}

/// The map of unique pairs after a new key is put at position `p`.
pub proof fn lemma_insert_at(pairs: Pairs, p: int, k: Seq<char>, v: Seq<char>)
    requires
        keys_unique(pairs),
        keys_unique(pairs.insert(p, (k, v))),
        0 <= p <= pairs.len(),
        !has_key(pairs, k),
    ensures
        to_map(pairs.insert(p, (k, v))) == to_map(pairs).insert(k, v),
{
    let n = pairs.insert(p, (k, v));
    lemma_map_of(pairs);
    lemma_map_of(n);
    assert forall|key: Seq<char>| #[trigger] to_map(n).contains_key(key) implies to_map(
        pairs,
    ).insert(k, v).contains_key(key) && to_map(n)[key] == to_map(pairs).insert(k, v)[key] by {
        let i = choose|i: int| 0 <= i < n.len() && n[i].0 == key;
        assert(to_map(n)[n[i].0] == n[i].1);
        if i < p {
            assert(n[i] == pairs[i]);
            assert(to_map(pairs).contains_key(pairs[i].0));
        } else if i > p {
            assert(n[i] == pairs[i - 1]);
            assert(to_map(pairs).contains_key(pairs[i - 1].0));
        }
    }
    assert forall|key: Seq<char>| #[trigger]
        to_map(pairs).insert(k, v).contains_key(key) implies to_map(n).contains_key(key) by {
        if key == k {
            assert(n[p].0 == k);
            assert(to_map(n).contains_key(n[p].0));
        } else {
            let i = choose|i: int| 0 <= i < pairs.len() && pairs[i].0 == key;
            if i < p {
                assert(n[i] == pairs[i]);
                assert(to_map(n).contains_key(n[i].0));
            } else {
                assert(n[i + 1] == pairs[i]);
                assert(to_map(n).contains_key(n[i + 1].0));
            }
        }
    }
    assert(to_map(n) =~= to_map(pairs).insert(k, v));
}

/// The map of unique pairs after the pair at position `p` is taken out.
pub proof fn lemma_remove_at(pairs: Pairs, p: int)
    requires
        keys_unique(pairs),
        0 <= p < pairs.len(),
    ensures
        keys_unique(pairs.remove(p)),
        to_map(pairs.remove(p)) == to_map(pairs).remove(pairs[p].0),
{
    let n = pairs.remove(p);
    let k = pairs[p].0;
    assert(keys_unique(n)) by {
        assert forall|i: int, j: int| 0 <= i < j < n.len() implies n[i].0 != n[j].0 by {
            let a = if i < p { i } else { i + 1 };
            let b = if j < p { j } else { j + 1 };
            assert(n[i] == pairs[a]);
            assert(n[j] == pairs[b]);
        }
    }
    lemma_map_of(pairs);
    lemma_map_of(n);
    assert forall|key: Seq<char>| #[trigger] to_map(n).contains_key(key) implies to_map(
        pairs,
    ).remove(k).contains_key(key) && to_map(n)[key] == to_map(pairs).remove(k)[key] by {
        let i = choose|i: int| 0 <= i < n.len() && n[i].0 == key;
        assert(to_map(n)[n[i].0] == n[i].1);
        let a = if i < p { i } else { i + 1 };
        assert(n[i] == pairs[a]);
        assert(to_map(pairs).contains_key(pairs[a].0));
    }
    assert forall|key: Seq<char>| #[trigger]
        to_map(pairs).remove(k).contains_key(key) implies to_map(n).contains_key(key) by {
        let a = choose|a: int| 0 <= a < pairs.len() && pairs[a].0 == key;
        let i = if a < p { a } else { a - 1 };
        assert(n[i] == pairs[a]);
        assert(to_map(n).contains_key(n[i].0));
    }
    assert(to_map(n) =~= to_map(pairs).remove(k));
}

/// The peers that a node knows: each peer's name mapped to its address,
/// kept sorted by name.
pub struct PeerList {
    entries: Vec<(Vec<char>, Vec<char>)>,
}

impl View for PeerList {
    type V = Map<Seq<char>, Seq<char>>;

    open spec fn view(&self) -> Map<Seq<char>, Seq<char>> {
        to_map(self.pairs())
    }
}

impl PeerList {
    /// The (name, address) pairs, sorted by name.
    pub closed spec fn pairs(&self) -> Pairs {
        pair_views(self.entries@)
    }

    /// The names are in strictly increasing order.
    pub open spec fn wf(&self) -> bool {
        sorted_keys(self.pairs())
    }

    /// An empty list.
    pub fn new() -> (peers: PeerList)
        ensures
            peers.wf(),
            peers.pairs() == Pairs::empty(),
            peers@ == Map::<Seq<char>, Seq<char>>::empty(),
    {
        let peers = PeerList { entries: Vec::new() };
        assert(peers.pairs() =~= Pairs::empty());
        peers
    }

    /// The first position whose name does not sort before `k`.
    fn position(&self, k: &Vec<char>) -> (p: usize)
        requires
            self.wf(),
        ensures
            p <= self.pairs().len(),
            forall|i: int| 0 <= i < p ==> text_lt(#[trigger] self.pairs()[i].0, k@),
            p < self.pairs().len() ==> !text_lt(self.pairs()[p as int].0, k@),
    {
        let mut p: usize = 0;
        while p < self.entries.len()
            invariant
                p <= self.entries@.len(),
                forall|i: int| 0 <= i < p ==> text_lt(#[trigger] self.pairs()[i].0, k@),
            decreases self.entries@.len() - p,
        {
            if !text_less(&self.entries[p].0, k) {
                return p;
            }
            p = p + 1;
        }
        p
    }

    /// Sets the address of peer `name`; a new name goes where its order puts it.
    pub fn insert(&mut self, name: String, addr: String)
        requires
            old(self).wf(),
        ensures
            final(self).wf(),
            final(self)@ == old(self)@.insert(name@, addr@),
    {
        let k = chars_of(name.as_str());
        let v = chars_of(addr.as_str());
        self.insert_chars(k, v);
    }

    /// `insert` on character vectors.
    pub fn insert_chars(&mut self, k: Vec<char>, v: Vec<char>)
        requires
            old(self).wf(),
        ensures
            final(self).wf(),
            final(self)@ == old(self)@.insert(k@, v@),
    {
        let ghost old_pairs = self.pairs();
        let ghost kv = k@;
        let ghost vv = v@;
        proof {
            lemma_sorted_unique(old_pairs);
        }
        let p = self.position(&k);
        if p < self.entries.len() && same_text(&self.entries[p].0, &k) {
            self.entries.set(p, (k, v));
            assert(self.pairs() =~= old_pairs.update(p as int, (kv, vv)));
            assert(self.pairs() =~= set_pair(old_pairs, kv, vv)) by {
                assert forall|j: int| 0 <= j < old_pairs.len() && j != p implies old_pairs[j].0
                    != kv by {
                    if j < p {
                        assert(old_pairs[j].0 != old_pairs[p as int].0);
                    } else {
                        assert(old_pairs[p as int].0 != old_pairs[j].0);
                    }
                }
            }
            proof {
                lemma_set_pair(old_pairs, kv, vv);
            }
        } else {
            proof {
                if p < old_pairs.len() {
                    lemma_text_order(old_pairs[p as int].0, kv, kv);
                    assert(text_lt(kv, old_pairs[p as int].0));
                }
            }
            assert(!has_key(old_pairs, kv)) by {
                if has_key(old_pairs, kv) {
                    let i = choose|i: int| 0 <= i < old_pairs.len() && old_pairs[i].0 == kv;
                    lemma_text_order(kv, kv, kv);
                    if i > p {
                        lemma_text_order(kv, old_pairs[p as int].0, old_pairs[i].0);
                    }
                }
            }
            self.entries.insert(p, (k, v));
            let ghost n = old_pairs.insert(p as int, (kv, vv));
            assert(self.pairs() =~= n);
            assert(sorted_keys(n)) by {
                assert forall|i: int, j: int| 0 <= i < j < n.len() implies text_lt(
                    n[i].0,
                    n[j].0,
                ) by {
                    if j < p {
                    } else if j == p {
                    } else if i < p {
                        lemma_text_order(n[i].0, kv, n[j].0);
                        if j > p + 1 {
                            lemma_text_order(kv, old_pairs[p as int].0, n[j].0);
                        }
                    } else if i == p {
                        if j > p + 1 {
                            lemma_text_order(kv, old_pairs[p as int].0, n[j].0);
                        }
                    } else {
                        assert(n[i] == old_pairs[i - 1]);
                        assert(n[j] == old_pairs[j - 1]);
                    }
                }
            }
            proof {
                lemma_sorted_unique(n);
                lemma_insert_at(old_pairs, p as int, kv, vv);
            }
        }
    }

    /// Forgets peer `name`.
    pub fn remove(&mut self, name: &str)
        requires
            old(self).wf(),
        ensures
            final(self).wf(),
            final(self)@ == old(self)@.remove(name@),
    {
        let k = chars_of(name);
        let ghost old_pairs = self.pairs();
        proof {
            lemma_sorted_unique(old_pairs);
            lemma_map_of(old_pairs);
        }
        match find_key(&self.entries, &k) {
            Some(i) => {
                self.entries.remove(i);
                assert(self.pairs() =~= old_pairs.remove(i as int));
                proof {
                    lemma_remove_at(old_pairs, i as int);
                }
                assert(sorted_keys(self.pairs())) by {
                    let n = self.pairs();
                    assert forall|a: int, b: int| 0 <= a < b < n.len() implies text_lt(
                        n[a].0,
                        n[b].0,
                    ) by {
                        let x = if a < i { a } else { a + 1 };
                        let y = if b < i { b } else { b + 1 };
                        assert(n[a] == old_pairs[x]);
                        assert(n[b] == old_pairs[y]);
                    }
                }
            },
            None => {
                assert(to_map(old_pairs).remove(k@) =~= to_map(old_pairs));
            },
        }
    }

    /// The (name, address) pairs, sorted by name.
    pub fn entries(&self) -> (r: Vec<(Vec<char>, Vec<char>)>)
        ensures
            pair_views(r@) == self.pairs(),
    {
        let mut r: Vec<(Vec<char>, Vec<char>)> = Vec::new();
        for i in 0..self.entries.len()
            invariant
                pair_views(r@) == self.pairs().take(i as int),
        {
            let p = copy_pair(&self.entries[i]);
            let ghost before = pair_views(r@);
            let ghost pv = (p.0@, p.1@);
            r.push(p);
            assert(pair_views(r@) =~= before.push(pv));
            assert(self.pairs().take(i + 1) =~= self.pairs().take(i as int).push(self.pairs()[i as int]));
        }
        assert(self.pairs().take(self.entries@.len() as int) =~= self.pairs());
        r
    }

    /// The number of peers.
    pub fn len(&self) -> (n: usize)
        requires
            self.wf(),
        ensures
            n == self@.len(),
            n == self.pairs().len(),
    {
        proof {
            lemma_sorted_unique(self.pairs());
            lemma_map_of(self.pairs());
        }
        self.entries.len()
    }
}

/// Two sorted lists of pairs with the same map are the same list: the
/// order of a peer list follows from its map alone.
pub proof fn lemma_sorted_pairs_determined(a: Pairs, b: Pairs)
    requires
        sorted_keys(a),
        sorted_keys(b),
        to_map(a) == to_map(b),
    ensures
        a == b,
    decreases a.len(),
{
    lemma_sorted_unique(a);
    lemma_sorted_unique(b);
    lemma_map_of(a);
    lemma_map_of(b);
    if a.len() > 0 && b.len() > 0 {
        let ka = a.last().0;
        let kb = b.last().0;
        assert(to_map(a).contains_key(a[a.len() - 1].0));
        assert(to_map(b).contains_key(b[b.len() - 1].0));
        let i = choose|i: int| 0 <= i < b.len() && b[i].0 == ka;
        let j = choose|j: int| 0 <= j < a.len() && a[j].0 == kb;
        if ka != kb {
            assert(i < b.len() - 1);
            assert(j < a.len() - 1);
            lemma_text_order(ka, kb, ka);
        }
        assert(ka == kb);
        assert(to_map(a)[a[a.len() - 1].0] == a.last().1);
        assert(to_map(b)[b[b.len() - 1].0] == b.last().1);
        let ai = a.drop_last();
        let bi = b.drop_last();
        lemma_map_of(ai);
        lemma_map_of(bi);
        assert(!to_map(ai).contains_key(ka)) by {
            if to_map(ai).contains_key(ka) {
                let x = choose|x: int| 0 <= x < ai.len() && ai[x].0 == ka;
                assert(a[x].0 == a[a.len() - 1].0);
            }
        }
        assert(!to_map(bi).contains_key(kb)) by {
            if to_map(bi).contains_key(kb) {
                let x = choose|x: int| 0 <= x < bi.len() && bi[x].0 == kb;
                assert(b[x].0 == b[b.len() - 1].0);
            }
        }
        assert(to_map(ai) =~= to_map(a).remove(ka));
        assert(to_map(bi) =~= to_map(b).remove(kb));
        lemma_sorted_pairs_determined(ai, bi);
        assert(a =~= ai.push(a.last()));
        assert(b =~= bi.push(b.last()));
    } else if a.len() > 0 {
        assert(to_map(a).contains_key(a[0].0));
    } else if b.len() > 0 {
        assert(to_map(b).contains_key(b[0].0));
    } else {
        assert(a =~= b);
    }
}

} // verus!
