//! A small map from text keys to values, kept as a vector of entries with
//! distinct keys. Indexes, packet parameters and action plans are all of
//! this shape.
use vstd::prelude::*;
use vstd::utf8::*;

verus! {

broadcast use vstd::utf8::encode_utf8_decode_utf8;

/// No key occurs twice.
pub open spec fn keys_unique<W>(s: Seq<(Seq<char>, W)>) -> bool {
    forall|i: int, j: int| 0 <= i < j < s.len() ==> s[i].0 != s[j].0
}

/// The map that a sequence of entries denotes; a later entry wins.
pub open spec fn pairs_to_map<W>(s: Seq<(Seq<char>, W)>) -> Map<Seq<char>, W>
    decreases s.len(),
{
    if s.len() == 0 {
        Map::empty()
    } else {
        pairs_to_map(s.drop_last()).insert(s.last().0, s.last().1)
    }
}

/// The position of `k` among the keys of `s`, if it is there.
pub open spec fn key_pos<W>(s: Seq<(Seq<char>, W)>, k: Seq<char>) -> Option<int>
    decreases s.len(),
{
    if s.len() == 0 {
        None
    } else if s.last().0 == k {
        Some(s.len() - 1)
    } else {
        key_pos(s.drop_last(), k)
    }
}

pub proof fn lemma_pairs_to_map_dom<W>(s: Seq<(Seq<char>, W)>, k: Seq<char>)
    ensures
        pairs_to_map(s).contains_key(k) <==> (exists|i: int| 0 <= i < s.len() && s[i].0 == k),
    decreases s.len(),
{
    if s.len() > 0 {
        lemma_pairs_to_map_dom(s.drop_last(), k);
        if pairs_to_map(s.drop_last()).contains_key(k) {
            let i = choose|i: int| 0 <= i < s.drop_last().len() && s.drop_last()[i].0 == k;
            assert(s[i].0 == k);
        }
        if exists|i: int| 0 <= i < s.len() && s[i].0 == k {
            let i = choose|i: int| 0 <= i < s.len() && s[i].0 == k;
            if i < s.len() - 1 {
                assert(s.drop_last()[i].0 == k);
            }
        }
    }
}

pub proof fn lemma_pairs_to_map_index<W>(s: Seq<(Seq<char>, W)>, i: int)
    requires
        keys_unique(s),
        0 <= i < s.len(),
    ensures
        pairs_to_map(s).contains_key(s[i].0),
        pairs_to_map(s)[s[i].0] == s[i].1,
    decreases s.len(),
{
    if i < s.len() - 1 {
        assert(s.drop_last()[i] == s[i]);
        lemma_pairs_to_map_index(s.drop_last(), i);
    }
}

pub proof fn lemma_pairs_to_map_len<W>(s: Seq<(Seq<char>, W)>)
    requires
        keys_unique(s),
    ensures
        pairs_to_map(s).dom().finite(),
        pairs_to_map(s).dom().len() == s.len(),
    decreases s.len(),
{
    if s.len() > 0 {
        let t = s.drop_last();
        lemma_pairs_to_map_len(t);
        lemma_pairs_to_map_dom(t, s.last().0);
        assert(!pairs_to_map(t).contains_key(s.last().0));
    }
}

pub proof fn lemma_pairs_to_map_push<W>(s: Seq<(Seq<char>, W)>, k: Seq<char>, v: W)
    ensures
        pairs_to_map(s.push((k, v))) == pairs_to_map(s).insert(k, v),
{
    assert(s.push((k, v)).drop_last() =~= s);
}

pub proof fn lemma_pairs_to_map_update<W>(s: Seq<(Seq<char>, W)>, i: int, v: W)
    requires
        keys_unique(s),
        0 <= i < s.len(),
    ensures
        keys_unique(s.update(i, (s[i].0, v))),
        pairs_to_map(s.update(i, (s[i].0, v))) == pairs_to_map(s).insert(s[i].0, v),
{
    let t = s.update(i, (s[i].0, v));
    assert forall|k: Seq<char>| #[trigger] pairs_to_map(t).contains_key(k) == pairs_to_map(s).insert(s[i].0, v).contains_key(k) by {
        lemma_pairs_to_map_dom(t, k);
        lemma_pairs_to_map_dom(s, k);
        if exists|j: int| 0 <= j < s.len() && s[j].0 == k {
            let j = choose|j: int| 0 <= j < s.len() && s[j].0 == k;
            assert(t[j].0 == k);
        }
        if exists|j: int| 0 <= j < t.len() && t[j].0 == k {
            let j = choose|j: int| 0 <= j < t.len() && t[j].0 == k;
            assert(s[j].0 == k);
        }
    }
    assert forall|k: Seq<char>| #[trigger] pairs_to_map(t).contains_key(k) implies pairs_to_map(t)[k] == pairs_to_map(s).insert(s[i].0, v)[k] by {
        lemma_pairs_to_map_dom(t, k);
        let j = choose|j: int| 0 <= j < t.len() && t[j].0 == k;
        lemma_pairs_to_map_index(t, j);
        if j != i {
            lemma_pairs_to_map_index(s, j);
        }
    }
    assert(pairs_to_map(t) =~= pairs_to_map(s).insert(s[i].0, v));
}

pub proof fn lemma_pairs_to_map_remove<W>(s: Seq<(Seq<char>, W)>, i: int)
    requires
        keys_unique(s),
        0 <= i < s.len(),
    ensures
        keys_unique(s.remove(i)),
        pairs_to_map(s.remove(i)) == pairs_to_map(s).remove(s[i].0),
{
    let t = s.remove(i);
    assert forall|a: int, b: int| 0 <= a < b < t.len() implies t[a].0 != t[b].0 by {
        let a2 = if a < i { a } else { a + 1 };
        let b2 = if b < i { b } else { b + 1 };
        assert(t[a] == s[a2] && t[b] == s[b2]);
    }
    assert forall|k: Seq<char>| #[trigger] pairs_to_map(t).contains_key(k) == pairs_to_map(s).remove(s[i].0).contains_key(k) by {
        lemma_pairs_to_map_dom(t, k);
        lemma_pairs_to_map_dom(s, k);
        if exists|j: int| 0 <= j < s.len() && s[j].0 == k && j != i {
            let j = choose|j: int| 0 <= j < s.len() && s[j].0 == k && j != i;
            if j < i { assert(t[j] == s[j]); } else { assert(t[j - 1] == s[j]); }
        }
        if exists|j: int| 0 <= j < t.len() && t[j].0 == k {
            let j = choose|j: int| 0 <= j < t.len() && t[j].0 == k;
            if j < i { assert(t[j] == s[j]); } else { assert(t[j] == s[j + 1]); }
        }
    }
    assert forall|k: Seq<char>| #[trigger] pairs_to_map(t).contains_key(k) implies pairs_to_map(t)[k] == pairs_to_map(s)[k] by {
        lemma_pairs_to_map_dom(t, k);
        let j = choose|j: int| 0 <= j < t.len() && t[j].0 == k;
        lemma_pairs_to_map_index(t, j);
        if j < i {
            assert(t[j] == s[j]);
            lemma_pairs_to_map_index(s, j);
        } else {
            assert(t[j] == s[j + 1]);
            lemma_pairs_to_map_index(s, j + 1);
        }
    }
    assert(pairs_to_map(t) =~= pairs_to_map(s).remove(s[i].0));
}

/// Whether two strings hold the same characters, compared through their
/// UTF-8 bytes.
pub fn text_eq(a: &str, b: &str) -> (r: bool)
    ensures
        r == (a@ == b@),
{
    let x = a.as_bytes();
    let y = b.as_bytes();
    if x.len() != y.len() {
        return false;
    }
    let mut i: usize = 0;
    while i < x.len()
        invariant
            x.len() == y.len(),
            x@ == encode_utf8(a@),
            y@ == encode_utf8(b@),
            0 <= i <= x.len(),
            forall|j: int| 0 <= j < i ==> x@[j] == y@[j],
        decreases x.len() - i,
    {
        if x[i] != y[i] {
            return false;
        }
        i = i + 1;
    }
    assert(x@ =~= y@);
    assert(decode_utf8(encode_utf8(a@)) == a@);
    assert(decode_utf8(encode_utf8(b@)) == b@);
    true
}

/// A map from text keys to values, with distinct keys.
pub struct StrMap<V> {
    pub entries: Vec<(String, V)>,
}

impl<V: View> StrMap<V> {
    /// The entries, each key and value by its view.
    pub open spec fn pairs(&self) -> Seq<(Seq<char>, V::V)> {
        self.entries@.map_values(|e: (String, V)| (e.0@, e.1@))
    }

    pub open spec fn wf(&self) -> bool {
        keys_unique(self.pairs())
    }

    pub open spec fn map(&self) -> Map<Seq<char>, V::V> {
        pairs_to_map(self.pairs())
    }

    pub fn new() -> (r: Self)
        ensures
            r.wf(),
            r.pairs().len() == 0,
            r.map() == Map::<Seq<char>, V::V>::empty(),
    {
        let r = StrMap { entries: Vec::new() };
        assert(r.pairs() =~= Seq::empty());
        r
    }

    pub fn len(&self) -> (r: usize)
        requires
            self.wf(),
        ensures
            r == self.map().dom().len(),
            self.map().dom().finite(),
    {
        proof {
            lemma_pairs_to_map_len(self.pairs());
        }
        self.entries.len()
    }

    /// The position of `key` among the entries.
    pub fn position(&self, key: &str) -> (r: Option<usize>)
        requires
            self.wf(),
        ensures
            r is None <==> !self.map().contains_key(key@),
            r matches Some(i) ==> i < self.entries.len() && self.pairs()[i as int].0 == key@
                && self.map()[key@] == self.pairs()[i as int].1,
    {
        let n = self.entries.len();
        let mut i: usize = n;
        assert(self.pairs().subrange(0, n as int) =~= self.pairs());
        while i > 0
            invariant
                0 <= i <= n,
                n == self.entries.len(),
                self.wf(),
                key_pos(self.pairs(), key@) == key_pos(self.pairs().subrange(0, i as int), key@),
            decreases i,
        {
            let ghost s = self.pairs().subrange(0, i as int);
            assert(s.drop_last() =~= self.pairs().subrange(0, i - 1));
            if text_eq(self.entries[i - 1].0.as_str(), key) {
                proof {
                    lemma_pairs_to_map_index(self.pairs(), i - 1);
                }
                return Some(i - 1);
            }
            i = i - 1;
        }
        assert(self.pairs().subrange(0, 0).len() == 0);
        proof {
            lemma_key_pos_none(self.pairs(), key@);
        }
        None
    }

    pub fn contains_key(&self, key: &str) -> (r: bool)
        requires
            self.wf(),
        ensures
            r == self.map().contains_key(key@),
    {
        self.position(key).is_some()
    }

    pub fn get(&self, key: &str) -> (r: Option<&V>)
        requires
            self.wf(),
        ensures
            r is Some <==> self.map().contains_key(key@),
            r matches Some(v) ==> v@ == self.map()[key@],
    {
        match self.position(key) {
            Some(i) => Some(&self.entries[i].1),
            None => None,
        }
    }

    /// Sets the value of `key`, keeping the place of an entry that was there.
    pub fn insert(&mut self, key: String, value: V)
        requires
            old(self).wf(),
        ensures
            final(self).wf(),
            final(self).map() == old(self).map().insert(key@, value@),
    {
        match self.position(key.as_str()) {
            Some(i) => {
                proof {
                    lemma_pairs_to_map_update(self.pairs(), i as int, value@);
                }
                let ghost before = self.pairs();
                self.entries.set(i, (key, value));
                assert(self.pairs() =~= before.update(i as int, (before[i as int].0, value@)));
            },
            None => {
                let ghost before = self.pairs();
                proof {
                    lemma_pairs_to_map_push(before, key@, value@);
                    lemma_pairs_to_map_dom(before, key@);
                }
                self.entries.push((key, value));
                assert(self.pairs() =~= before.push((key@, value@)));
            },
        }
    }

    /// Takes `key` out of the map.
    pub fn remove(&mut self, key: &str)
        requires
            old(self).wf(),
        ensures
            final(self).wf(),
            final(self).map() == old(self).map().remove(key@),
    {
        match self.position(key) {
            Some(i) => {
                let ghost before = self.pairs();
                proof {
                    lemma_pairs_to_map_remove(before, i as int);
                }
                self.entries.remove(i);
                assert(self.pairs() =~= before.remove(i as int));
            },
            None => {
                assert(self.map() =~= self.map().remove(key@));
            },
        }
    }
}

pub proof fn lemma_key_pos_none<W>(s: Seq<(Seq<char>, W)>, k: Seq<char>)
    ensures
        key_pos(s, k) is None <==> !pairs_to_map(s).contains_key(k),
        key_pos(s, k) matches Some(i) ==> 0 <= i < s.len() && s[i].0 == k,
    decreases s.len(),
{
    lemma_pairs_to_map_dom(s, k);
    if s.len() > 0 {
        lemma_key_pos_none(s.drop_last(), k);
        lemma_pairs_to_map_dom(s.drop_last(), k);
        if s.last().0 != k {
            if exists|i: int| 0 <= i < s.len() && s[i].0 == k {
                let i = choose|i: int| 0 <= i < s.len() && s[i].0 == k;
                assert(s.drop_last()[i].0 == k);
            }
        }
    }
}

} // verus!
