//! A map with text keys, kept in the order of its keys.
use crate::text::is_less;
use crate::text::same_text;
use vstd::prelude::*;

verus! {

/// A map from texts to values. Its keys stand in ascending order, each once.
#[derive(Debug)]
pub struct StringMap<V> {
    entries: Vec<(String, V)>,
}

/// The keys of `entries`, in order.
pub closed spec fn keys_of<V>(entries: Seq<(String, V)>) -> Seq<Seq<char>> {
    entries.map_values(|e: (String, V)| e.0@)
}

/// The keys ascend.
pub open spec fn ascending(keys: Seq<Seq<char>>) -> bool {
    forall|i: int, j: int|
        0 <= i < j < keys.len() ==> crate::text::text_less(#[trigger] keys[i], #[trigger] keys[j])
}

/// The map that `entries` stand for, where no key occurs twice.
pub closed spec fn map_of<V>(entries: Seq<(String, V)>) -> Map<Seq<char>, V> {
    Map::new(
        |k: Seq<char>| keys_of(entries).contains(k),
        |k: Seq<char>| entries[keys_of(entries).index_of(k)].1,
    )
}

/// Ascending keys are distinct.
pub proof fn ascending_distinct(keys: Seq<Seq<char>>)
    requires
        ascending(keys),
    ensures
        keys.no_duplicates(),
{
    assert forall|i: int, j: int| 0 <= i < keys.len() && 0 <= j < keys.len() && i != j implies keys[i]
        != keys[j] by {
        crate::text::text_less_irreflexive(keys[i]);
        if i < j {
            assert(crate::text::text_less(keys[i], keys[j]));
        } else {
            assert(crate::text::text_less(keys[j], keys[i]));
        }
    }
}

proof fn lemma_entry<V>(entries: Seq<(String, V)>, i: int)
    requires
        ascending(keys_of(entries)),
        0 <= i < entries.len(),
    ensures
        map_of(entries).contains_key(entries[i].0@),
        map_of(entries)[entries[i].0@] == entries[i].1,
{
    let keys = keys_of(entries);
    ascending_distinct(keys);
    assert(keys[i] == entries[i].0@);
    assert(keys.contains(keys[i]));
}

impl<V> View for StringMap<V> {
    type V = Map<Seq<char>, V>;

    closed spec fn view(&self) -> Map<Seq<char>, V> {
        map_of(self.entries@)
    }
}

impl<V> StringMap<V> {
    #[verifier::type_invariant]
    spec fn sorted(self) -> bool {
        ascending(keys_of(self.entries@))
    }

    /// The keys in ascending order.
    pub closed spec fn keys(self) -> Seq<Seq<char>> {
        keys_of(self.entries@)
    }

    /// `keys` holds each key of the map once, in ascending order.
    pub open spec fn listed(self) -> bool {
        &&& ascending(self.keys())
        &&& self.keys().no_duplicates()
        &&& forall|k: Seq<char>| #[trigger] self@.contains_key(k) <==> self.keys().contains(k)
        &&& forall|i: int|
            0 <= i < self.keys().len() ==> self@.contains_key(#[trigger] self.keys()[i])
        &&& self@.dom() == self.keys().to_set()
    }

    /// The empty map.
    pub fn new() -> (m: StringMap<V>)
        ensures
            m@ == Map::<Seq<char>, V>::empty(),
            m.keys().len() == 0,
    {
        let m = StringMap { entries: Vec::new() };
        proof {
            assert(m@ =~= Map::<Seq<char>, V>::empty());
        }
        m
    }

    /// How many keys there are.
    pub fn len(&self) -> (n: usize)
        ensures
            n == self.keys().len(),
            self.listed(),
    {
        proof {
            use_type_invariant(self);
            ascending_distinct(self.keys());
            assert forall|i: int| 0 <= i < self.keys().len() implies self@.contains_key(
                #[trigger] self.keys()[i],
            ) by {
                assert(self.keys().contains(self.keys()[i]));
            }
            assert(self@.dom() =~= self.keys().to_set());
        }
        self.entries.len()
    }

    /// Whether the map has no key.
    pub fn is_empty(&self) -> (r: bool)
        ensures
            r == (self.keys().len() == 0),
            r == (self@ == Map::<Seq<char>, V>::empty()),
    {
        let n: usize = self.len();
        proof {
            if n == 0 {
                assert(self@ =~= Map::<Seq<char>, V>::empty());
            } else {
                assert(self@.contains_key(self.keys()[0]));
            }
        }
        n == 0
    }

    /// The key at position `i` of the ascending order.
    pub fn key_at(&self, i: usize) -> (k: &String)
        requires
            i < self.keys().len(),
        ensures
            k@ == self.keys()[i as int],
            self@.contains_key(k@),
    {
        proof {
            use_type_invariant(self);
            lemma_entry(self.entries@, i as int);
        }
        &self.entries[i].0
    }

    /// The value of the key at position `i` of the ascending order.
    pub fn value_at(&self, i: usize) -> (v: &V)
        requires
            i < self.keys().len(),
        ensures
            *v == self@[self.keys()[i as int]],
            self@.contains_key(self.keys()[i as int]),
    {
        proof {
            use_type_invariant(self);
            lemma_entry(self.entries@, i as int);
        }
        &self.entries[i].1
    }

    /// The first position whose key is not below `key`.
    fn position(&self, key: &str) -> (p: usize)
        ensures
            p <= self.entries@.len(),
            forall|j: int| 0 <= j < p ==> crate::text::text_less(keys_of(self.entries@)[j], key@),
            p < self.entries@.len() ==> !crate::text::text_less(
                keys_of(self.entries@)[p as int],
                key@,
            ),
            self@.contains_key(key@) <==> p < self.entries@.len() && self.entries@[p as int].0@
                == key@,
    {
        proof {
            use_type_invariant(self);
        }
        let ghost keys = keys_of(self.entries@);
        let mut p: usize = 0;
        while p < self.entries.len() && is_less(self.entries[p].0.as_str(), key)
            invariant
                p <= self.entries@.len(),
                keys == keys_of(self.entries@),
                forall|j: int| 0 <= j < p ==> crate::text::text_less(keys[j], key@),
            decreases self.entries@.len() - p,
        {
            p = p + 1;
        }
        proof {
            if p < keys.len() && keys[p as int] == key@ {
                assert(keys.contains(key@));
            }
            if keys.contains(key@) {
                let i = keys.index_of(key@);
                crate::text::text_less_irreflexive(key@);
                if p < i {
                    assert(crate::text::text_less(keys[p as int], keys[i]));
                }
                assert(i == p);
            }
        }
        p
    }

    /// Whether `key` has a value.
    pub fn contains(&self, key: &str) -> (r: bool)
        ensures
            r == self@.contains_key(key@),
    {
        let p: usize = self.position(key);
        p < self.entries.len() && same_text(self.entries[p].0.as_str(), key)
    }

    /// The value of `key`.
    pub fn get(&self, key: &str) -> (r: Option<&V>)
        ensures
            r is Some <==> self@.contains_key(key@),
            r matches Some(v) ==> *v == self@[key@],
    {
        let p: usize = self.position(key);
        if p < self.entries.len() && same_text(self.entries[p].0.as_str(), key) {
            proof {
                use_type_invariant(self);
                lemma_entry(self.entries@, p as int);
            }
            Some(&self.entries[p].1)
        } else {
            None
        }
    }

    /// Gives `key` the value `value`, in place of an earlier one.
    pub fn insert(&mut self, key: String, value: V)
        ensures
            final(self)@ == old(self)@.insert(key@, value),
    {
        proof {
            use_type_invariant(&*self);
        }
        let p: usize = self.position(key.as_str());
        let ghost before = self.entries@;
        let ghost map = self@;
        let mut entries: Vec<(String, V)> = Vec::new();
        std::mem::swap(&mut entries, &mut self.entries);
        let found = p < entries.len() && same_text(entries[p].0.as_str(), key.as_str());
        let ghost k = key@;
        if found {
            entries.set(p, (key, value));
        } else {
            entries.insert(p, (key, value));
        }
        proof {
            let keys = keys_of(before);
            let keys2 = keys_of(entries@);
            if found {
                assert(keys2 =~= keys);
            } else {
                assert(keys2 =~= keys.insert(p as int, k));
                if p < keys.len() {
                    crate::text::text_less_total(k, keys[p as int]);
                }
                assert forall|i: int, j: int| 0 <= i < j < keys2.len() implies crate::text::text_less(
                    #[trigger] keys2[i],
                    #[trigger] keys2[j],
                ) by {
                    if i == p {
                        assert(keys2[j] == keys[j - 1]);
                        if j - 1 > p {
                            assert(crate::text::text_less(keys[p as int], keys[j - 1]));
                            crate::text::text_less_transitive(k, keys[p as int], keys[j - 1]);
                        }
                    } else if j == p {
                        assert(keys2[i] == keys[i]);
                    } else {
                        let i0 = if i < p { i } else { i - 1 };
                        let j0 = if j < p { j } else { j - 1 };
                        assert(keys2[i] == keys[i0]);
                        assert(keys2[j] == keys[j0]);
                    }
                }
            }
            lemma_changed(before, entries@, map.insert(k, value), p as int, found);
        }
        self.entries = entries;
    }

    /// Takes `key` out of the map and hands back its value.
    pub fn take(&mut self, key: &str) -> (r: Option<V>)
        ensures
            final(self)@ == old(self)@.remove(key@),
            r is Some <==> old(self)@.contains_key(key@),
            r matches Some(v) ==> v == old(self)@[key@],
    {
        proof {
            use_type_invariant(&*self);
        }
        let p: usize = self.position(key);
        let ghost before = self.entries@;
        let ghost map = self@;
        if !(p < self.entries.len() && same_text(self.entries[p].0.as_str(), key)) {
            proof {
                assert(self@ =~= old(self)@.remove(key@));
            }
            return None;
        }
        let mut entries: Vec<(String, V)> = Vec::new();
        std::mem::swap(&mut entries, &mut self.entries);
        let (_, value) = entries.remove(p);
        proof {
            let keys = keys_of(before);
            let keys2 = keys_of(entries@);
            assert(keys2 =~= keys.remove(p as int));
            assert forall|i: int, j: int| 0 <= i < j < keys2.len() implies crate::text::text_less(
                #[trigger] keys2[i],
                #[trigger] keys2[j],
            ) by {
                let i0 = if i < p { i } else { i + 1 };
                let j0 = if j < p { j } else { j + 1 };
                assert(keys2[i] == keys[i0]);
                assert(keys2[j] == keys[j0]);
            }
            lemma_entry(before, p as int);
            lemma_removed(before, entries@, p as int);
        }
        self.entries = entries;
        Some(value)
    }

    /// Takes `key` out of the map. Says whether it was there.
    pub fn remove(&mut self, key: &str) -> (r: bool)
        ensures
            final(self)@ == old(self)@.remove(key@),
            r == old(self)@.contains_key(key@),
    {
        match self.take(key) {
            Some(_) => true,
            None => false,
        }
    }
}

proof fn lemma_changed<V>(
    before: Seq<(String, V)>,
    after: Seq<(String, V)>,
    expect: Map<Seq<char>, V>,
    p: int,
    found: bool,
)
    requires
        ascending(keys_of(before)),
        ascending(keys_of(after)),
        0 <= p < after.len(),
        found ==> after.len() == before.len() && after == before.update(p, after[p])
            && before[p].0@ == after[p].0@,
        !found ==> p <= before.len() && after == before.insert(p, after[p]),
        expect == map_of(before).insert(after[p].0@, after[p].1),
    ensures
        map_of(after) == expect,
{
    let m = map_of(after);
    assert forall|k: Seq<char>| m.contains_key(k) <==> expect.contains_key(k) by {
        if m.contains_key(k) {
            let i = keys_of(after).index_of(k);
            assert(after[i].0@ == k);
            if i != p {
                let i0 = if found || i < p { i } else { i - 1 };
                assert(before[i0] == after[i]);
                lemma_entry(before, i0);
            }
        }
        if expect.contains_key(k) {
            if k == after[p].0@ {
                lemma_entry(after, p);
            } else {
                let i = keys_of(before).index_of(k);
                assert(before[i].0@ == k);
                let i1 = if found || i < p { i } else { i + 1 };
                assert(after[i1] == before[i]);
                lemma_entry(after, i1);
            }
        }
    }
    assert forall|k: Seq<char>| m.contains_key(k) implies m[k] == expect[k] by {
        let i = keys_of(after).index_of(k);
        assert(after[i].0@ == k);
        lemma_entry(after, i);
        if i != p {
            let i0 = if found || i < p { i } else { i - 1 };
            assert(before[i0] == after[i]);
            lemma_entry(before, i0);
            ascending_distinct(keys_of(after));
            assert(keys_of(after)[i] != keys_of(after)[p]);
        }
    }
    assert(m =~= expect);
}

proof fn lemma_removed<V>(before: Seq<(String, V)>, after: Seq<(String, V)>, p: int)
    requires
        ascending(keys_of(before)),
        ascending(keys_of(after)),
        0 <= p < before.len(),
        after == before.remove(p),
    ensures
        map_of(after) == map_of(before).remove(before[p].0@),
{
    let m = map_of(after);
    let expect = map_of(before).remove(before[p].0@);
    ascending_distinct(keys_of(before));
    assert forall|k: Seq<char>| m.contains_key(k) <==> expect.contains_key(k) by {
        if m.contains_key(k) {
            let i = keys_of(after).index_of(k);
            let i0 = if i < p { i } else { i + 1 };
            assert(after[i].0@ == k);
            assert(before[i0] == after[i]);
            lemma_entry(before, i0);
            assert(keys_of(before)[i0] != keys_of(before)[p]);
        }
        if expect.contains_key(k) {
            let i = keys_of(before).index_of(k);
            assert(before[i].0@ == k);
            let i1 = if i < p { i } else { i - 1 };
            assert(after[i1] == before[i]);
            lemma_entry(after, i1);
        }
    }
    assert forall|k: Seq<char>| m.contains_key(k) implies m[k] == expect[k] by {
        let i = keys_of(after).index_of(k);
        assert(after[i].0@ == k);
        lemma_entry(after, i);
        let i0 = if i < p { i } else { i + 1 };
        assert(before[i0] == after[i]);
        lemma_entry(before, i0);
    }
    assert(m =~= expect);
}

// ── Text to text ──────────────────────────────────────────────────────────────

/// The texts that a map of strings holds.
pub open spec fn text_map(m: Map<Seq<char>, String>) -> Map<Seq<char>, Seq<char>> {
    m.map_values(|s: String| s@)
}

/// A copy of a map of strings.
pub fn copy_strings(m: &StringMap<String>) -> (r: StringMap<String>)
    ensures
        r@ == m@,
{
    let mut r: StringMap<String> = StringMap::new();
    let n: usize = m.len();
    let mut i: usize = 0;
    proof {
        assert(m@.restrict(m.keys().take(0).to_set()) =~= Map::<Seq<char>, String>::empty());
    }
    while i < n
        invariant
            n == m.keys().len(),
            m.listed(),
            i <= n,
            r@ == m@.restrict(m.keys().take(i as int).to_set()),
        decreases n - i,
    {
        r.insert(m.key_at(i).clone(), m.value_at(i).clone());
        proof {
            lemma_restrict_step(m@, m.keys(), i as int);
        }
        i = i + 1;
    }
    proof {
        assert(m.keys().take(n as int) =~= m.keys());
        assert(m@.restrict(m.keys().to_set()) =~= m@);
    }
    r
}

/// Taking in the next key of a list extends the restriction by that key.
pub proof fn lemma_restrict_step<V>(m: Map<Seq<char>, V>, keys: Seq<Seq<char>>, i: int)
    requires
        0 <= i < keys.len(),
        m.contains_key(keys[i]),
    ensures
        m.restrict(keys.take(i + 1).to_set()) == m.restrict(keys.take(i).to_set()).insert(
            keys[i],
            m[keys[i]],
        ),
{
    assert forall|k: Seq<char>|
        keys.take(i + 1).to_set().contains(k) <==> #[trigger] keys.take(i).to_set().insert(
            keys[i],
        ).contains(k) by {
        if keys.take(i + 1).contains(k) {
            let j = keys.take(i + 1).index_of(k);
            if j < i {
                assert(keys.take(i)[j] == k);
            }
        }
        if keys.take(i).contains(k) {
            let j = keys.take(i).index_of(k);
            assert(keys.take(i + 1)[j] == k);
        }
        assert(keys.take(i + 1)[i] == keys[i]);
    }
    assert(keys.take(i + 1).to_set() =~= keys.take(i).to_set().insert(keys[i]));
    assert(m.restrict(keys.take(i + 1).to_set()) =~= m.restrict(keys.take(i).to_set()).insert(
        keys[i],
        m[keys[i]],
    ));
}

/// The texts of a map of strings are those of its values, under the same keys.
pub proof fn texts_stand_under_their_keys(m: Map<Seq<char>, String>, k: Seq<char>)
    ensures
        text_map(m).contains_key(k) <==> m.contains_key(k),
        m.contains_key(k) ==> text_map(m)[k] == m[k]@,
{
}

} // verus!
