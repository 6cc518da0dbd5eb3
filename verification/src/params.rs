//! A string-to-string map of command parameters: insertion with
//! replacement, lookup, size and equality as a map.

use vstd::prelude::*;

verus! {

/// The map that inserting the pairs in order builds (a later pair replaces
/// an earlier one with the same key).
pub open spec fn pairs_map(ps: Seq<(Seq<char>, Seq<char>)>) -> Map<Seq<char>, Seq<char>>
    decreases ps.len(),
{
    if ps.len() == 0 {
        Map::empty()
    } else {
        pairs_map(ps.drop_last()).insert(ps.last().0, ps.last().1)
    }
}

/// No key occurs twice.
pub open spec fn distinct_keys(ps: Seq<(Seq<char>, Seq<char>)>) -> bool {
    forall|i: int, j: int| 0 <= i < j < ps.len() ==> #[trigger] ps[i].0 != #[trigger] ps[j].0
}

pub open spec fn string_pairs(v: Seq<(String, String)>) -> Seq<(Seq<char>, Seq<char>)> {
    v.map_values(|p: (String, String)| (p.0@, p.1@))
}

pub proof fn lemma_pairs_map_dom(ps: Seq<(Seq<char>, Seq<char>)>)
    ensures
        pairs_map(ps).dom().finite(),
        forall|k: Seq<char>| #[trigger]
            pairs_map(ps).contains_key(k) <==> exists|i: int| 0 <= i < ps.len() && ps[i].0 == k,
    decreases ps.len(),
{
    if ps.len() > 0 {
        let pre = ps.drop_last();
        lemma_pairs_map_dom(pre);
        assert forall|k: Seq<char>| #[trigger]
            pairs_map(ps).contains_key(k) <==> exists|i: int| 0 <= i < ps.len() && ps[i].0 == k by {
            if pairs_map(ps).contains_key(k) {
                if k == ps.last().0 {
                    assert(ps[ps.len() - 1].0 == k);
                } else {
                    let i = choose|i: int| 0 <= i < pre.len() && pre[i].0 == k;
                    assert(ps[i].0 == k);
                }
            }
            if exists|i: int| 0 <= i < ps.len() && ps[i].0 == k {
                let i = choose|i: int| 0 <= i < ps.len() && ps[i].0 == k;
                if i < ps.len() - 1 {
                    assert(pre[i].0 == k);
                }
            }
        }
    }
}

pub proof fn lemma_pairs_map_value(ps: Seq<(Seq<char>, Seq<char>)>, i: int)
    requires
        distinct_keys(ps),
        0 <= i < ps.len(),
    ensures
        pairs_map(ps).contains_key(ps[i].0),
        pairs_map(ps)[ps[i].0] == ps[i].1,
    decreases ps.len(),
{
    let pre = ps.drop_last();
    if i < ps.len() - 1 {
        assert(distinct_keys(pre));
        lemma_pairs_map_value(pre, i);
        assert(ps[i].0 != ps[ps.len() - 1].0);
    }
}

pub proof fn lemma_pairs_map_len(ps: Seq<(Seq<char>, Seq<char>)>)
    requires
        distinct_keys(ps),
    ensures
        pairs_map(ps).dom().len() == ps.len(),
    decreases ps.len(),
{
    if ps.len() > 0 {
        let pre = ps.drop_last();
        assert(distinct_keys(pre));
        lemma_pairs_map_len(pre);
        lemma_pairs_map_dom(pre);
        if pairs_map(pre).contains_key(ps.last().0) {
            let i = choose|i: int| 0 <= i < pre.len() && pre[i].0 == ps.last().0;
            assert(ps[i].0 == ps[ps.len() - 1].0);
        }
    }
}

/// Replacing the value of an existing key is inserting it.
pub proof fn lemma_pairs_map_update(ps: Seq<(Seq<char>, Seq<char>)>, i: int, v: Seq<char>)
    requires
        distinct_keys(ps),
        0 <= i < ps.len(),
    ensures
        distinct_keys(ps.update(i, (ps[i].0, v))),
        pairs_map(ps.update(i, (ps[i].0, v))) == pairs_map(ps).insert(ps[i].0, v),
{
    let qs = ps.update(i, (ps[i].0, v));
    assert(distinct_keys(qs)) by {
        assert forall|a: int, b: int| 0 <= a < b < qs.len() implies #[trigger] qs[a].0
            != #[trigger] qs[b].0 by {
            assert(qs[a].0 == ps[a].0);
            assert(qs[b].0 == ps[b].0);
        }
    }
    lemma_pairs_map_dom(ps);
    lemma_pairs_map_dom(qs);
    let m1 = pairs_map(qs);
    let m2 = pairs_map(ps).insert(ps[i].0, v);
    assert forall|k: Seq<char>| m1.contains_key(k) <==> m2.contains_key(k) by {
        if m1.contains_key(k) {
            let j = choose|j: int| 0 <= j < qs.len() && qs[j].0 == k;
            assert(ps[j].0 == k);
        }
        if m2.contains_key(k) && k != ps[i].0 {
            let j = choose|j: int| 0 <= j < ps.len() && ps[j].0 == k;
            assert(qs[j].0 == k);
        }
        if k == ps[i].0 {
            assert(qs[i].0 == k);
        }
    }
    assert forall|k: Seq<char>| m1.contains_key(k) implies m1[k] == m2[k] by {
        let j = choose|j: int| 0 <= j < qs.len() && qs[j].0 == k;
        lemma_pairs_map_value(qs, j);
        if j != i {
            lemma_pairs_map_value(ps, j);
        }
    }
    assert(m1 =~= m2);
}

/// Command parameters: each key at most once.
#[derive(Debug)]
pub struct ParamMap {
    entries: Vec<(String, String)>,
}

impl View for ParamMap {
    type V = Map<Seq<char>, Seq<char>>;

    closed spec fn view(&self) -> Map<Seq<char>, Seq<char>> {
        pairs_map(string_pairs(self.entries@))
    }
}

impl ParamMap {
    #[verifier::type_invariant]
    spec fn well_formed(self) -> bool {
        distinct_keys(string_pairs(self.entries@))
    }

    /// A map without entries.
    pub fn new() -> (r: ParamMap)
        ensures
            r@ == Map::<Seq<char>, Seq<char>>::empty(),
    {
        let r = ParamMap { entries: Vec::new() };
        assert(string_pairs(r.entries@) =~= Seq::<(Seq<char>, Seq<char>)>::empty());
        r
    }

    /// Position of `key` among the entries.
    fn position(&self, key: &[char]) -> (r: Option<usize>)
        ensures
            match r {
                Some(i) => i < self.entries@.len() && self.entries@[i as int].0@ == key@,
                None => forall|i: int|
                    0 <= i < self.entries@.len() ==> self.entries@[i].0@ != key@,
            },
    {
        let mut i: usize = 0;
        while i < self.entries.len()
            invariant
                i <= self.entries@.len(),
                forall|j: int| 0 <= j < i ==> self.entries@[j].0@ != key@,
            decreases self.entries@.len() - i,
        {
            let k = crate::text::chars_of(self.entries[i].0.as_str());
            if crate::text::eq_chars(&k, key) {
                return Some(i);
            }
            i += 1;
        }
        None
    }

    /// Sets `key` to `value`, replacing an earlier value of `key`.
    pub fn insert(&mut self, key: String, value: String)
        ensures
            final(self)@ == old(self)@.insert(key@, value@),
    {
        proof {
            use_type_invariant(&*self);
        }
        let kc = crate::text::chars_of(key.as_str());
        let ghost ps = string_pairs(self.entries@);
        match self.position(&kc) {
            Some(i) => {
                proof {
                    lemma_pairs_map_update(ps, i as int, value@);
                }
                let ghost vv = value@;
                let mut entries: Vec<(String, String)> = Vec::new();
                std::mem::swap(&mut entries, &mut self.entries);
                let k = entries[i].0.clone();
                entries.set(i, (k, value));
                assert(string_pairs(entries@) =~= ps.update(i as int, (ps[i as int].0, vv)));
                self.entries = entries;
            },
            None => {
                let ghost kv = (key@, value@);
                let ghost old_entries = self.entries@;
                let mut entries: Vec<(String, String)> = Vec::new();
                std::mem::swap(&mut entries, &mut self.entries);
                entries.push((key, value));
                assert(string_pairs(entries@) =~= ps.push(kv));
                assert(string_pairs(entries@).drop_last() =~= ps);
                assert(distinct_keys(string_pairs(entries@))) by {
                    let qs = string_pairs(entries@);
                    assert forall|a: int, b: int| 0 <= a < b < qs.len() implies #[trigger] qs[a].0
                        != #[trigger] qs[b].0 by {
                        if b == qs.len() - 1 {
                            assert(ps[a].0 == old_entries[a].0@);
                        } else {
                            assert(qs[a] == ps[a] && qs[b] == ps[b]);
                        }
                    }
                }
                self.entries = entries;
            },
        }
    }

    /// The value of `key`, if set.
    pub fn get(&self, key: &str) -> (r: Option<&String>)
        ensures
            r is Some <==> self@.contains_key(key@),
            r matches Some(v) ==> v@ == self@[key@],
    {
        proof {
            use_type_invariant(self);
            lemma_pairs_map_dom(string_pairs(self.entries@));
        }
        let kc = crate::text::chars_of(key);
        match self.position(&kc) {
            Some(i) => {
                proof {
                    lemma_pairs_map_value(string_pairs(self.entries@), i as int);
                }
                Some(&self.entries[i].1)
            },
            None => {
                proof {
                    let ps = string_pairs(self.entries@);
                    assert forall|j: int| 0 <= j < ps.len() implies ps[j].0 != key@ by {
                        assert(ps[j].0 == self.entries@[j].0@);
                    }
                }
                None
            },
        }
    }

    /// Number of keys.
    pub fn len(&self) -> (r: usize)
        ensures
            r == self@.len(),
    {
        proof {
            use_type_invariant(self);
            lemma_pairs_map_len(string_pairs(self.entries@));
        }
        self.entries.len()
    }

    /// Whether no key is set.
    pub fn is_empty(&self) -> (r: bool)
        ensures
            r == (self@.len() == 0),
    {
        self.len() == 0
    }

    /// The map that inserting the pairs in order builds.
    pub fn from_pairs(pairs: Vec<(String, String)>) -> (r: ParamMap)
        ensures
            r@ == pairs_map(string_pairs(pairs@)),
    {
        let mut m = ParamMap::new();
        let ghost ps = string_pairs(pairs@);
        let mut i: usize = 0;
        assert(ps.take(0) =~= Seq::<(Seq<char>, Seq<char>)>::empty());
        while i < pairs.len()
            invariant
                i <= pairs@.len(),
                ps == string_pairs(pairs@),
                m@ == pairs_map(ps.take(i as int)),
            decreases pairs@.len() - i,
        {
            m.insert(pairs[i].0.clone(), pairs[i].1.clone());
            assert(ps.take(i + 1).drop_last() =~= ps.take(i as int));
            i += 1;
        }
        assert(ps.take(i as int) =~= ps);
        m
    }
}

impl ParamMap {
    /// Whether the two maps have the same keys with the same values.
    pub fn same_as(&self, other: &ParamMap) -> (r: bool)
        ensures
            r == (self@ == other@),
    {
        proof {
            use_type_invariant(self);
            use_type_invariant(other);
            lemma_pairs_map_len(string_pairs(self.entries@));
            lemma_pairs_map_len(string_pairs(other.entries@));
            lemma_pairs_map_dom(string_pairs(self.entries@));
            lemma_pairs_map_dom(string_pairs(other.entries@));
        }
        if self.entries.len() != other.entries.len() {
            return false;
        }
        let ghost ps = string_pairs(self.entries@);
        let mut i: usize = 0;
        while i < self.entries.len()
            invariant
                i <= self.entries@.len(),
                ps == string_pairs(self.entries@),
                distinct_keys(ps),
                forall|j: int|
                    0 <= j < i ==> other@.contains_key(#[trigger] ps[j].0) && other@[ps[j].0]
                        == ps[j].1,
            decreases self.entries@.len() - i,
        {
            let (k, v) = (&self.entries[i].0, &self.entries[i].1);
            proof {
                lemma_pairs_map_value(ps, i as int);
            }
            match other.get(k.as_str()) {
                Some(w) => {
                    let wc = crate::text::chars_of(w.as_str());
                    let vc = crate::text::chars_of(v.as_str());
                    if !crate::text::eq_chars(&wc, &vc) {
                        return false;
                    }
                },
                None => {
                    return false;
                },
            }
            i += 1;
        }
        proof {
            let m1 = self@;
            let m2 = other@;
            assert forall|key: Seq<char>| m1.contains_key(key) implies m2.contains_key(key)
                && m1[key] == m2[key] by {
                let j = choose|j: int| 0 <= j < ps.len() && ps[j].0 == key;
                lemma_pairs_map_value(ps, j);
            }
            vstd::set_lib::lemma_subset_equality(m1.dom(), m2.dom());
            assert(m1 =~= m2);
        }
        true
    }
}

impl PartialEq for ParamMap {
    fn eq(&self, other: &Self) -> (r: bool) {
        self.same_as(other)
    }
}

impl vstd::std_specs::cmp::PartialEqSpecImpl for ParamMap {
    open spec fn obeys_eq_spec() -> bool {
        true
    }

    open spec fn eq_spec(&self, other: &ParamMap) -> bool {
        self@ == other@
    }
}

} // verus!
