//! A map from text to text, kept as a list that holds each key once.
use vstd::prelude::*;
use vstd::string::*;

verus! {

/// A key with its value, as character sequences.
pub type Pair = (Seq<char>, Seq<char>);

/// Whether one of `pairs` has the key `key`.
pub open spec fn holds_key(pairs: Seq<Pair>, key: Seq<char>) -> bool {
    exists|i: int| 0 <= i < pairs.len() && (#[trigger] pairs[i]).0 == key
}

/// A position at which `pairs` has the key `key`, if it has it at all.
pub open spec fn position_of(pairs: Seq<Pair>, key: Seq<char>) -> int {
    choose|i: int| 0 <= i < pairs.len() && (#[trigger] pairs[i]).0 == key
}

/// Whether no key stands twice in `pairs`.
pub open spec fn distinct_keys(pairs: Seq<Pair>) -> bool {
    forall|i: int, j: int|
        0 <= i < j < pairs.len() ==> (#[trigger] pairs[i]).0 != (#[trigger] pairs[j]).0
}

/// The map that a list of pairs with distinct keys stands for.
pub open spec fn map_of(pairs: Seq<Pair>) -> Map<Seq<char>, Seq<char>> {
    Map::new(|key: Seq<char>| holds_key(pairs, key), |key: Seq<char>| pairs[position_of(pairs, key)].1)
}

/// Each pair of a list with distinct keys is an entry of its map.
pub proof fn lemma_map_of_entry(pairs: Seq<Pair>, i: int)
    requires
        distinct_keys(pairs),
        0 <= i < pairs.len(),
    ensures
        map_of(pairs).contains_key(pairs[i].0),
        map_of(pairs)[pairs[i].0] == pairs[i].1,
        position_of(pairs, pairs[i].0) == i,
{
    let key = pairs[i].0;
    assert(holds_key(pairs, key));
    let p = position_of(pairs, key);
    assert(0 <= p < pairs.len() && pairs[p].0 == key);
    if p < i {
        assert(pairs[p].0 != pairs[i].0);
    } else if i < p {
        assert(pairs[i].0 != pairs[p].0);
    }
}

/// Adding a pair with a new key adds one entry to the map.
pub proof fn lemma_map_of_push(pairs: Seq<Pair>, key: Seq<char>, value: Seq<char>)
    requires
        distinct_keys(pairs),
        !holds_key(pairs, key),
    ensures
        distinct_keys(pairs.push((key, value))),
        map_of(pairs.push((key, value))) == map_of(pairs).insert(key, value),
{
    let longer = pairs.push((key, value));
    assert forall|i: int, j: int| 0 <= i < j < longer.len() implies (#[trigger] longer[i]).0 != (
    #[trigger] longer[j]).0 by {
        assert(longer[i] == pairs[i]);
        if j < pairs.len() {
            assert(longer[j] == pairs[j]);
        }
    }
    assert forall|k: Seq<char>| #[trigger]
        map_of(longer).contains_key(k) <==> map_of(pairs).insert(key, value).contains_key(k) by {
        if holds_key(longer, k) {
            let p = position_of(longer, k);
            if p < pairs.len() {
                assert(pairs[p] == longer[p]);
            }
        }
        if holds_key(pairs, k) {
            let p = position_of(pairs, k);
            assert(longer[p] == pairs[p]);
        }
        if k == key {
            assert(longer[pairs.len() as int].0 == k);
        }
    }
    assert forall|k: Seq<char>| #[trigger] map_of(longer).contains_key(k) implies map_of(longer)[k]
        == map_of(pairs).insert(key, value)[k] by {
        let p = position_of(longer, k);
        lemma_map_of_entry(longer, p);
        if p < pairs.len() {
            assert(pairs[p] == longer[p]);
            lemma_map_of_entry(pairs, p);
        }
    }
    assert(map_of(longer) =~= map_of(pairs).insert(key, value));
}

/// Giving the key at position `i` a new value changes that entry of the map.
pub proof fn lemma_map_of_update(pairs: Seq<Pair>, i: int, value: Seq<char>)
    requires
        distinct_keys(pairs),
        0 <= i < pairs.len(),
    ensures
        distinct_keys(pairs.update(i, (pairs[i].0, value))),
        map_of(pairs.update(i, (pairs[i].0, value))) == map_of(pairs).insert(pairs[i].0, value),
{
    let key = pairs[i].0;
    let changed = pairs.update(i, (key, value));
    assert forall|a: int| 0 <= a < pairs.len() implies (#[trigger] changed[a]).0 == pairs[a].0 by {}
    assert forall|a: int, b: int| 0 <= a < b < changed.len() implies (#[trigger] changed[a]).0 != (
    #[trigger] changed[b]).0 by {
        assert(pairs[a].0 != pairs[b].0);
    }
    assert forall|k: Seq<char>| #[trigger]
        map_of(changed).contains_key(k) <==> map_of(pairs).insert(key, value).contains_key(k) by {
        if holds_key(changed, k) {
            let p = position_of(changed, k);
            assert(pairs[p].0 == k);
        }
        if holds_key(pairs, k) {
            let p = position_of(pairs, k);
            assert(changed[p].0 == k);
        }
    }
    assert forall|k: Seq<char>| #[trigger] map_of(changed).contains_key(k) implies map_of(changed)[k]
        == map_of(pairs).insert(key, value)[k] by {
        let p = position_of(changed, k);
        lemma_map_of_entry(changed, p);
        lemma_map_of_entry(pairs, p);
    }
    assert(map_of(changed) =~= map_of(pairs).insert(key, value));
}

/// Whether `key` is one of `keys`.
pub fn is_listed(keys: &[String], key: &String) -> (listed: bool)
    ensures
        listed == keys.deep_view().contains(key@),
{
    let mut i: usize = 0;
    while i < keys.len()
        invariant
            i <= keys@.len(),
            forall|j: int| 0 <= j < i ==> (#[trigger] keys@[j])@ != key@,
        decreases keys@.len() - i,
    {
        if keys[i] == *key {
            assert(keys.deep_view()[i as int] == key@);
            return true;
        }
        i = i + 1;
    }
    assert forall|j: int| 0 <= j < keys.deep_view().len() implies #[trigger] keys.deep_view()[j]
        != key@ by {
        assert(keys@[j]@ != key@);
    }
    false
}

/// A map from text to text. No key is held twice. Two maps are equal when
/// they hold the same values for the same keys.
#[derive(Debug)]
pub struct StringMap {
    entries: Vec<(String, String)>,
}

impl View for StringMap {
    type V = Map<Seq<char>, Seq<char>>;

    closed spec fn view(&self) -> Map<Seq<char>, Seq<char>> {
        map_of(self.entries.deep_view())
    }
}

impl StringMap {
    #[verifier::type_invariant]
    spec fn well_formed(self) -> bool {
        distinct_keys(self.entries.deep_view())
    }

    /// A map without entries.
    pub fn new() -> (map: Self)
        ensures
            map@ == Map::<Seq<char>, Seq<char>>::empty(),
    {
        let map = StringMap { entries: Vec::new() };
        assert(map@ =~= Map::<Seq<char>, Seq<char>>::empty());
        map
    }

    /// The position of `key` among the entries, if it is held.
    fn find(&self, key: &String) -> (found: Option<usize>)
        ensures
            match found {
                Some(i) => i < self.entries@.len() && self.entries@[i as int].0@ == key@,
                None => !holds_key(self.entries.deep_view(), key@),
            },
    {
        let mut i: usize = 0;
        while i < self.entries.len()
            invariant
                i <= self.entries@.len(),
                forall|j: int| 0 <= j < i ==> (#[trigger] self.entries@[j]).0@ != key@,
            decreases self.entries@.len() - i,
        {
            if self.entries[i].0 == *key {
                return Some(i);
            }
            i = i + 1;
        }
        assert forall|j: int| 0 <= j < self.entries.deep_view().len() implies (
        #[trigger] self.entries.deep_view()[j]).0 != key@ by {
            assert(self.entries@[j].0@ != key@);
        }
        None
    }

    /// The value held for `key`, if any.
    pub fn get(&self, key: &String) -> (value: Option<&String>)
        ensures
            match value {
                Some(v) => self@.contains_key(key@) && self@[key@] == v@,
                None => !self@.contains_key(key@),
            },
    {
        proof {
            use_type_invariant(self);
        }
        match self.find(key) {
            Some(i) => {
                proof {
                    lemma_map_of_entry(self.entries.deep_view(), i as int);
                }
                Some(&self.entries[i].1)
            },
            None => None,
        }
    }

    /// Sets the value held for `key`, whether or not one was held before.
    pub fn insert(&mut self, key: String, value: String)
        ensures
            final(self)@ == old(self)@.insert(key@, value@),
    {
        proof {
            use_type_invariant(&*self);
        }
        let found = self.find(&key);
        let mut entries: Vec<(String, String)> = Vec::new();
        std::mem::swap(&mut entries, &mut self.entries);
        let ghost before = entries.deep_view();
        match found {
            Some(i) => {
                proof {
                    lemma_map_of_update(before, i as int, value@);
                }
                entries.set(i, (key, value));
                assert(entries.deep_view() =~= before.update(i as int, (before[i as int].0, value@)));
            },
            None => {
                proof {
                    lemma_map_of_push(before, key@, value@);
                }
                entries.push((key, value));
                assert(entries.deep_view() =~= before.push((key@, value@)));
            },
        }
        self.entries = entries;
    }

    /// Drops every entry whose key is not one of `allowed`.
    pub fn retain_keys(&mut self, allowed: &[String])
        ensures
            final(self)@ == old(self)@.restrict(allowed.deep_view().to_set()),
    {
        proof {
            use_type_invariant(&*self);
        }
        let mut entries: Vec<(String, String)> = Vec::new();
        std::mem::swap(&mut entries, &mut self.entries);
        let ghost before = entries.deep_view();
        let ghost permitted = allowed.deep_view().to_set();
        let mut kept: Vec<(String, String)> = Vec::new();
        let ghost mut origin: Seq<int> = Seq::empty();
        let mut i: usize = 0;
        while i < entries.len()
            invariant
                i <= entries@.len(),
                before == entries.deep_view(),
                distinct_keys(before),
                permitted == allowed.deep_view().to_set(),
                origin.len() == kept@.len(),
                forall|a: int|
                    0 <= a < origin.len() ==> 0 <= #[trigger] origin[a] < i && kept.deep_view()[a]
                        == before[origin[a]] && permitted.contains(before[origin[a]].0),
                forall|a: int, b: int|
                    0 <= a < b < origin.len() ==> #[trigger] origin[a] < #[trigger] origin[b],
                forall|j: int|
                    0 <= j < i && permitted.contains((#[trigger] before[j]).0) ==> holds_key(
                        kept.deep_view(),
                        before[j].0,
                    ),
            decreases entries@.len() - i,
        {
            let ghost kept_before = kept.deep_view();
            assert(before[i as int].0 == entries@[i as int].0@);
            if is_listed(allowed, &entries[i].0) {
                kept.push((entries[i].0.clone(), entries[i].1.clone()));
                proof {
                    origin = origin.push(i as int);
                    assert(kept.deep_view() =~= kept_before.push(before[i as int]));
                    assert forall|j: int|
                        0 <= j < i + 1 && permitted.contains((#[trigger] before[j]).0) implies holds_key(
                        kept.deep_view(),
                        before[j].0,
                    ) by {
                        if j < i {
                            let p = position_of(kept_before, before[j].0);
                            assert(kept.deep_view()[p] == kept_before[p]);
                        } else {
                            assert(kept.deep_view()[kept_before.len() as int] == before[j]);
                        }
                    }
                }
            }
            i = i + 1;
        }
        proof {
            let after = kept.deep_view();
            assert forall|a: int, b: int| 0 <= a < b < after.len() implies (#[trigger] after[a]).0 != (
            #[trigger] after[b]).0 by {
                assert(origin[a] < origin[b]);
                assert(before[origin[a]].0 != before[origin[b]].0);
            }
            let goal = map_of(before).restrict(permitted);
            assert forall|k: Seq<char>| #[trigger] map_of(after).contains_key(k) <==> goal.contains_key(
                k,
            ) by {
                if holds_key(after, k) {
                    let p = position_of(after, k);
                    assert(before[origin[p]].0 == k);
                }
                if holds_key(before, k) && permitted.contains(k) {
                    let j = position_of(before, k);
                    assert(holds_key(after, before[j].0));
                }
            }
            assert forall|k: Seq<char>| #[trigger] map_of(after).contains_key(k) implies map_of(
                after,
            )[k] == goal[k] by {
                let p = position_of(after, k);
                lemma_map_of_entry(after, p);
                lemma_map_of_entry(before, origin[p]);
            }
            assert(map_of(after) =~= goal);
        }
        self.entries = kept;
    }

    /// The entries as a list of keys with their values, each key once.
    pub fn entries(&self) -> (pairs: Vec<(String, String)>)
        ensures
            distinct_keys(pairs.deep_view()),
            map_of(pairs.deep_view()) == self@,
    {
        proof {
            use_type_invariant(self);
        }
        let mut pairs: Vec<(String, String)> = Vec::new();
        let mut i: usize = 0;
        while i < self.entries.len()
            invariant
                i <= self.entries@.len(),
                pairs@.len() == i,
                forall|j: int|
                    0 <= j < i ==> #[trigger] pairs.deep_view()[j] == self.entries.deep_view()[j],
            decreases self.entries@.len() - i,
        {
            let ghost earlier = pairs.deep_view();
            pairs.push((self.entries[i].0.clone(), self.entries[i].1.clone()));
            assert forall|j: int| 0 <= j < i + 1 implies #[trigger] pairs.deep_view()[j]
                == self.entries.deep_view()[j] by {
                if j < i {
                    assert(pairs.deep_view()[j] == earlier[j]);
                }
            }
            i = i + 1;
        }
        assert(pairs.deep_view() =~= self.entries.deep_view());
        pairs
    }
}

impl StringMap {
    /// Whether `other` holds every entry of this map.
    fn is_within(&self, other: &Self) -> (within: bool)
        ensures
            within == self@.submap_of(other@),
    {
        proof {
            use_type_invariant(self);
        }
        let ghost pairs = self.entries.deep_view();
        let mut i: usize = 0;
        while i < self.entries.len()
            invariant
                i <= self.entries@.len(),
                pairs == self.entries.deep_view(),
                distinct_keys(pairs),
                forall|j: int|
                    0 <= j < i ==> other@.contains_key((#[trigger] pairs[j]).0) && other@[pairs[j].0]
                        == pairs[j].1,
            decreases self.entries@.len() - i,
        {
            proof {
                lemma_map_of_entry(pairs, i as int);
            }
            assert(pairs[i as int] == (self.entries@[i as int].0@, self.entries@[i as int].1@));
            match other.get(&self.entries[i].0) {
                Some(value) => {
                    if *value != self.entries[i].1 {
                        return false;
                    }
                },
                None => {
                    return false;
                },
            }
            i = i + 1;
        }
        assert forall|key: Seq<char>| #[trigger] self@.contains_key(key) implies other@.contains_key(
            key,
        ) && self@[key] == other@[key] by {
            let p = position_of(pairs, key);
            lemma_map_of_entry(pairs, p);
        }
        true
    }
}

impl PartialEq for StringMap {
    fn eq(&self, other: &Self) -> (equal: bool) {
        let equal = self.is_within(other) && other.is_within(self);
        proof {
            if equal {
                assert(self@ =~= other@);
            }
        }
        equal
    }
}

impl Eq for StringMap {

}

impl vstd::std_specs::cmp::PartialEqSpecImpl for StringMap {
    open spec fn obeys_eq_spec() -> bool {
        true
    }

    open spec fn eq_spec(&self, other: &Self) -> bool {
        self@ == other@
    }
}

impl Clone for StringMap {
    fn clone(&self) -> (copy: Self)
        ensures
            copy@ == self@,
    {
        let entries = self.entries();
        StringMap { entries }
    }
}

} // verus!
