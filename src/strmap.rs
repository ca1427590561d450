//! A map from text keys to text values, kept as a list of entries with
//! distinct keys.

use vstd::prelude::*;

verus! {

/// The map that a list of entries describes: a later entry for a key
/// replaces an earlier one.
pub open spec fn map_of(s: Seq<(Seq<char>, Seq<char>)>) -> Map<Seq<char>, Seq<char>>
    decreases s.len(),
{
    if s.len() == 0 {
        Map::empty()
    } else {
        map_of(s.drop_last()).insert(s.last().0, s.last().1)
    }
}

/// No two entries share a key.
pub open spec fn distinct_keys(s: Seq<(Seq<char>, Seq<char>)>) -> bool {
    forall|i: int, j: int| 0 <= i < j < s.len() ==> #[trigger] s[i].0 != #[trigger] s[j].0
}

/// What `map_of` holds: exactly the keys of the entries; with distinct keys,
/// each entry's value, and as many keys as entries.
pub proof fn lemma_map_of(s: Seq<(Seq<char>, Seq<char>)>)
    ensures
        map_of(s).dom().finite(),
        forall|k: Seq<char>|
            #![trigger map_of(s).contains_key(k)]
            map_of(s).contains_key(k) <==> exists|i: int| 0 <= i < s.len() && s[i].0 == k,
        distinct_keys(s) ==> forall|i: int|
            0 <= i < s.len() ==> map_of(s)[#[trigger] s[i].0] == s[i].1,
        distinct_keys(s) ==> map_of(s).dom().len() == s.len(),
    decreases s.len(),
{
    if s.len() > 0 {
        let rest = s.drop_last();
        lemma_map_of(rest);
        assert forall|k: Seq<char>|
            #![trigger map_of(s).contains_key(k)]
            map_of(s).contains_key(k) <==> exists|i: int| 0 <= i < s.len() && s[i].0 == k by {
            if map_of(s).contains_key(k) && k != s.last().0 {
                let i = choose|i: int| 0 <= i < rest.len() && rest[i].0 == k;
                assert(s[i].0 == k);
            }
            if exists|i: int| 0 <= i < s.len() && s[i].0 == k {
                let i = choose|i: int| 0 <= i < s.len() && s[i].0 == k;
                if i < s.len() - 1 {
                    assert(rest[i].0 == k);
                }
            }
        }
        if distinct_keys(s) {
            assert(distinct_keys(rest)) by {
                assert forall|i: int, j: int| 0 <= i < j < rest.len() implies rest[i].0 != rest[j].0 by {
                    assert(rest[i] == s[i] && rest[j] == s[j]);
                }
            }
            assert(!map_of(rest).contains_key(s.last().0)) by {
                if map_of(rest).contains_key(s.last().0) {
                    let i = choose|i: int| 0 <= i < rest.len() && rest[i].0 == s.last().0;
                    assert(s[i].0 == s[s.len() - 1].0);
                }
            }
            assert forall|i: int| 0 <= i < s.len() implies map_of(s)[#[trigger] s[i].0] == s[i].1 by {
                if i < s.len() - 1 {
                    assert(rest[i] == s[i]);
                    assert(s[i].0 != s[s.len() - 1].0);
                }
            }
        }
    }
}

/// Replacing the value of the entry at `i` gives the map with that key
/// bound to the new value.
pub proof fn lemma_map_of_update(s: Seq<(Seq<char>, Seq<char>)>, i: int, v: Seq<char>)
    requires
        distinct_keys(s),
        0 <= i < s.len(),
    ensures
        map_of(s.update(i, (s[i].0, v))) == map_of(s).insert(s[i].0, v),
        distinct_keys(s.update(i, (s[i].0, v))),
    decreases s.len(),
{
    let t = s.update(i, (s[i].0, v));
    assert(distinct_keys(t)) by {
        assert forall|a: int, b: int| 0 <= a < b < t.len() implies t[a].0 != t[b].0 by {
            assert(t[a].0 == s[a].0 && t[b].0 == s[b].0);
        }
    }
    if i == s.len() - 1 {
        assert(t.drop_last() =~= s.drop_last());
        assert(map_of(t) =~= map_of(s).insert(s[i].0, v));
    } else {
        let rest = s.drop_last();
        assert(distinct_keys(rest)) by {
            assert forall|a: int, b: int| 0 <= a < b < rest.len() implies rest[a].0 != rest[b].0 by {
                assert(rest[a] == s[a] && rest[b] == s[b]);
            }
        }
        lemma_map_of_update(rest, i, v);
        assert(t.drop_last() =~= rest.update(i, (rest[i].0, v)));
        assert(s[i].0 != s.last().0);
        assert(map_of(t) =~= map_of(s).insert(s[i].0, v));
    }
}

/// A map from text to text.
pub struct StrMap {
    entries: Vec<(String, String)>,
}

/// The entries of a list of string pairs, as text.
pub open spec fn pair_views(v: Seq<(String, String)>) -> Seq<(Seq<char>, Seq<char>)> {
    v.map_values(|e: (String, String)| (e.0@, e.1@))
}

impl View for StrMap {
    type V = Map<Seq<char>, Seq<char>>;

    closed spec fn view(&self) -> Map<Seq<char>, Seq<char>> {
        map_of(pair_views(self.entries@))
    }
}

impl StrMap {
    /// The entries have distinct keys.
    pub closed spec fn wf(&self) -> bool {
        distinct_keys(pair_views(self.entries@))
    }

    /// The empty map.
    pub fn new() -> (r: Self)
        ensures
            r.wf(),
            r@ == Map::<Seq<char>, Seq<char>>::empty(),
    {
        let r = StrMap { entries: Vec::new() };
        assert(pair_views(r.entries@) =~= seq![]);
        r
    }

    /// Binds `key` to `value`, replacing an earlier value of `key`.
    pub fn insert(&mut self, key: String, value: String)
        requires
            old(self).wf(),
        ensures
            final(self).wf(),
            final(self)@ == old(self)@.insert(key@, value@),
    {
        let ghost s = pair_views(self.entries@);
        let mut i: usize = 0;
        while i < self.entries.len()
            invariant
                s == pair_views(self.entries@),
                s == pair_views(old(self).entries@),
                distinct_keys(s),
                i <= self.entries@.len(),
                forall|j: int| 0 <= j < i ==> (#[trigger] s[j]).0 != key@,
            decreases self.entries@.len() - i,
        {
            assert(s[i as int] == (self.entries@[i as int].0@, self.entries@[i as int].1@));
            if self.entries[i].0 == key {
                assert(s[i as int].0 == key@);
                let k = self.entries[i].0.clone();
                self.entries.set(i, (k, value));
                proof {
                    lemma_map_of_update(s, i as int, value@);
                    assert(pair_views(self.entries@) =~= s.update(i as int, (s[i as int].0, value@)));
                }
                return;
            }
            i = i + 1;
        }
        self.entries.push((key, value));
        proof {
            let t = pair_views(self.entries@);
            assert(t =~= s.push((key@, value@)));
            assert(t.drop_last() =~= s);
            assert forall|a: int, b: int| 0 <= a < b < t.len() implies #[trigger] t[a].0 != #[trigger] t[b].0 by {
                if b < s.len() {
                    assert(t[a] == s[a] && t[b] == s[b]);
                } else {
                    assert(t[a] == s[a]);
                }
            }
        }
    }

    /// The value bound to `key`, if any.
    pub fn get(&self, key: &str) -> (r: Option<String>)
        requires
            self.wf(),
        ensures
            r is Some <==> self@.contains_key(key@),
            r matches Some(v) ==> v@ == self@[key@],
    {
        let ghost s = pair_views(self.entries@);
        proof {
            lemma_map_of(s);
        }
        let wanted = key.to_owned();
        let mut i: usize = 0;
        while i < self.entries.len()
            invariant
                s == pair_views(self.entries@),
                distinct_keys(s),
                wanted@ == key@,
                i <= self.entries@.len(),
                forall|j: int| 0 <= j < i ==> (#[trigger] s[j]).0 != key@,
            decreases self.entries@.len() - i,
        {
            assert(s[i as int] == (self.entries@[i as int].0@, self.entries@[i as int].1@));
            if self.entries[i].0 == wanted {
                proof {
                    lemma_map_of(s);
                }
                assert(s[i as int].0 == key@);
                assert(map_of(s)[s[i as int].0] == s[i as int].1);
                assert(map_of(s).contains_key(key@));
                return Some(self.entries[i].1.clone());
            }
            i = i + 1;
        }
        assert(!map_of(s).contains_key(key@));
        None
    }

    /// The number of keys.
    pub fn len(&self) -> (r: usize)
        requires
            self.wf(),
        ensures
            r == self@.dom().len(),
    {
        proof {
            lemma_map_of(pair_views(self.entries@));
        }
        self.entries.len()
    }

    /// The entries as pairs, one for each key, in no particular order.
    pub fn to_pairs(&self) -> (r: Vec<(String, String)>)
        requires
            self.wf(),
        ensures
            distinct_keys(pair_views(r@)),
            map_of(pair_views(r@)) == self@,
    {
        let mut out: Vec<(String, String)> = Vec::new();
        let mut i: usize = 0;
        while i < self.entries.len()
            invariant
                i <= self.entries@.len(),
                pair_views(out@) == pair_views(self.entries@).take(i as int),
            decreases self.entries@.len() - i,
        {
            let ghost before = pair_views(out@);
            let k = self.entries[i].0.clone();
            let v = self.entries[i].1.clone();
            out.push((k, v));
            assert(pair_views(out@) =~= before.push(pair_views(self.entries@)[i as int]));
            assert(pair_views(self.entries@).take(i as int + 1) =~= pair_views(self.entries@).take(
                i as int,
            ).push(pair_views(self.entries@)[i as int]));
            i = i + 1;
        }
        assert(pair_views(out@) =~= pair_views(self.entries@));
        out
    }
}

} // verus!
