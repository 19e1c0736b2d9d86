//! A map keyed by text, kept as a list of entries in insertion order with no
//! key twice. Its view is a `Map` from key views to value deep views.

use vstd::prelude::*;

verus! {

/// No two entries of `s` carry the same key.
pub open spec fn keys_distinct<V>(s: Seq<(String, V)>) -> bool {
    forall|i: int, j: int| 0 <= i < j < s.len() ==> #[trigger] s[i].0@ != #[trigger] s[j].0@
}

/// The map that a list of entries denotes: later entries win.
pub open spec fn assoc_view<V: DeepView>(s: Seq<(String, V)>) -> Map<Seq<char>, V::V>
    decreases s.len(),
{
    if s.len() == 0 {
        Map::empty()
    } else {
        assoc_view(s.drop_last()).insert(s.last().0@, s.last().1.deep_view())
    }
}

/// The key `k` occurs in some entry of `s`.
pub open spec fn has_key<V>(s: Seq<(String, V)>, k: Seq<char>) -> bool {
    exists|i: int| 0 <= i < s.len() && #[trigger] s[i].0@ == k
}

/// With distinct keys, the map holds exactly the keys of the entries, each with
/// the value of its entry.
pub proof fn lemma_assoc_view<V: DeepView>(s: Seq<(String, V)>)
    requires
        keys_distinct(s),
    ensures
        forall|k: Seq<char>| #[trigger] assoc_view(s).contains_key(k) <==> has_key(s, k),
        forall|i: int|
            0 <= i < s.len() ==> #[trigger] assoc_view(s)[s[i].0@] == s[i].1.deep_view(),
        assoc_view(s).dom().finite(),
    decreases s.len(),
{
    if s.len() > 0 {
        let t = s.drop_last();
        assert(keys_distinct(t)) by {
            assert forall|i: int, j: int| 0 <= i < j < t.len() implies #[trigger] t[i].0@
                != #[trigger] t[j].0@ by {
                assert(t[i] == s[i] && t[j] == s[j]);
            }
        }
        lemma_assoc_view(t);
        let last = s.last();
        assert forall|k: Seq<char>| #[trigger] assoc_view(s).contains_key(k) <==> has_key(
            s,
            k,
        ) by {
            if has_key(s, k) {
                let i = choose|i: int| 0 <= i < s.len() && #[trigger] s[i].0@ == k;
                if i < s.len() - 1 {
                    assert(t[i] == s[i]);
                    assert(has_key(t, k));
                }
            }
            if assoc_view(s).contains_key(k) && k != last.0@ {
                assert(has_key(t, k));
                let i = choose|i: int| 0 <= i < t.len() && #[trigger] t[i].0@ == k;
                assert(s[i] == t[i]);
            }
            if k == last.0@ {
                assert(s[s.len() - 1].0@ == k);
            }
        }
        assert forall|i: int| 0 <= i < s.len() implies #[trigger] assoc_view(s)[s[i].0@]
            == s[i].1.deep_view() by {
            if i < s.len() - 1 {
                assert(t[i] == s[i]);
                assert(s[i].0@ != s[s.len() - 1].0@);
            }
        }
    }
}

/// Replacing the value of an existing entry updates the map at that key.
pub proof fn lemma_assoc_update<V: DeepView>(s: Seq<(String, V)>, i: int, e: (String, V))
    requires
        keys_distinct(s),
        0 <= i < s.len(),
        e.0@ == s[i].0@,
    ensures
        keys_distinct(s.update(i, e)),
        assoc_view(s.update(i, e)) == assoc_view(s).insert(e.0@, e.1.deep_view()),
{
    let u = s.update(i, e);
    assert(keys_distinct(u)) by {
        assert forall|a: int, b: int| 0 <= a < b < u.len() implies #[trigger] u[a].0@
            != #[trigger] u[b].0@ by {
            assert(u[a].0@ == s[a].0@);
            assert(u[b].0@ == s[b].0@);
        }
    }
    lemma_assoc_view(s);
    lemma_assoc_view(u);
    let m1 = assoc_view(u);
    let m2 = assoc_view(s).insert(e.0@, e.1.deep_view());
    assert forall|k: Seq<char>| #[trigger] m1.contains_key(k) <==> m2.contains_key(k) by {
        if has_key(u, k) {
            let j = choose|j: int| 0 <= j < u.len() && #[trigger] u[j].0@ == k;
            assert(s[j].0@ == k);
        }
        if has_key(s, k) {
            let j = choose|j: int| 0 <= j < s.len() && #[trigger] s[j].0@ == k;
            assert(u[j].0@ == k);
        }
        if k == e.0@ {
            assert(u[i].0@ == k);
        }
    }
    assert forall|k: Seq<char>| m1.contains_key(k) implies #[trigger] m1[k] == m2[k] by {
        let j = choose|j: int| 0 <= j < u.len() && #[trigger] u[j].0@ == k;
        if j == i {
        } else {
            assert(u[j] == s[j]);
        }
    }
    assert(m1 =~= m2);
}

/// Appending an entry with a new key adds that key to the map.
pub proof fn lemma_assoc_push<V: DeepView>(s: Seq<(String, V)>, e: (String, V))
    requires
        keys_distinct(s),
        !has_key(s, e.0@),
    ensures
        keys_distinct(s.push(e)),
        assoc_view(s.push(e)) == assoc_view(s).insert(e.0@, e.1.deep_view()),
{
    let u = s.push(e);
    assert(u.drop_last() =~= s);
    assert forall|a: int, b: int| 0 <= a < b < u.len() implies #[trigger] u[a].0@
        != #[trigger] u[b].0@ by {
        if b == s.len() {
            assert(u[a] == s[a]);
        } else {
            assert(u[a] == s[a] && u[b] == s[b]);
        }
    }
}

/// A map from text keys to values, with no key twice; entries keep the order in
/// which their keys were first inserted.
#[derive(Debug)]
pub struct StrMap<V> {
    entries: Vec<(String, V)>,
}

impl<V> StrMap<V> {
    #[verifier::type_invariant]
    spec fn wf(self) -> bool {
        keys_distinct(self.entries@)
    }

    /// The entries, in order.
    pub closed spec fn spec_entries(self) -> Seq<(String, V)> {
        self.entries@
    }
}

impl<V: DeepView> View for StrMap<V> {
    type V = Map<Seq<char>, V::V>;

    closed spec fn view(&self) -> Map<Seq<char>, V::V> {
        assoc_view(self.entries@)
    }
}

impl<V: DeepView> StrMap<V> {
    /// An empty map.
    pub fn new() -> (m: Self)
        ensures
            m@ == Map::<Seq<char>, V::V>::empty(),
            m.spec_entries().len() == 0,
    {
        let m = StrMap { entries: Vec::new() };
        assert(m@ =~= Map::<Seq<char>, V::V>::empty());
        m
    }

    /// The number of keys.
    pub fn len(&self) -> (n: usize)
        ensures
            n == self.spec_entries().len(),
            n == self@.len(),
    {
        proof {
            use_type_invariant(self);
            lemma_entries_len(self.entries@);
        }
        self.entries.len()
    }

    /// The entries, in order of first insertion.
    pub fn entries(&self) -> (r: &Vec<(String, V)>)
        ensures
            r@ == self.spec_entries(),
            keys_distinct(r@),
            assoc_view(r@) == self@,
    {
        proof {
            use_type_invariant(self);
        }
        &self.entries
    }

    /// The position of key `k` among the entries, if it is there.
    fn find(&self, k: &String) -> (r: Option<usize>)
        ensures
            match r {
                Some(i) => i < self.entries@.len() && self.entries@[i as int].0@ == k@,
                None => !has_key(self.entries@, k@),
            },
    {
        let mut i: usize = 0;
        while i < self.entries.len()
            invariant
                i <= self.entries@.len(),
                forall|j: int| 0 <= j < i ==> #[trigger] self.entries@[j].0@ != k@,
            decreases self.entries@.len() - i,
        {
            if self.entries[i].0 == *k {
                return Some(i);
            }
            i = i + 1;
        }
        None
    }

    /// Whether `k` is a key.
    pub fn contains_key(&self, k: &String) -> (b: bool)
        ensures
            b == self@.contains_key(k@),
    {
        proof {
            use_type_invariant(self);
            lemma_assoc_view(self.entries@);
        }
        self.find(k).is_some()
    }

    /// The value at `k`, if `k` is a key.
    pub fn get(&self, k: &String) -> (r: Option<&V>)
        ensures
            match r {
                Some(v) => self@.contains_key(k@) && v.deep_view() == self@[k@],
                None => !self@.contains_key(k@),
            },
    {
        proof {
            use_type_invariant(self);
            lemma_assoc_view(self.entries@);
        }
        match self.find(k) {
            Some(i) => Some(&self.entries[i].1),
            None => None,
        }
    }

    /// Sets the value at `k`: an existing entry keeps its place, a new key goes last.
    pub fn insert(&mut self, k: String, v: V)
        ensures
            final(self)@ == old(self)@.insert(k@, v.deep_view()),
    {
        proof {
            use_type_invariant(&*self);
        }
        let found = self.find(&k);
        let mut entries: Vec<(String, V)> = Vec::new();
        std::mem::swap(&mut entries, &mut self.entries);
        let ghost s = entries@;
        match found {
            Some(i) => {
                proof {
                    lemma_assoc_update(s, i as int, (k, v));
                }
                entries.set(i, (k, v));
            },
            None => {
                proof {
                    lemma_assoc_push(s, (k, v));
                }
                entries.push((k, v));
            },
        }
        self.entries = entries;
    }
}

proof fn lemma_entries_len<V: DeepView>(s: Seq<(String, V)>)
    requires
        keys_distinct(s),
    ensures
        assoc_view(s).len() == s.len(),
    decreases s.len(),
{
    if s.len() > 0 {
        let t = s.drop_last();
        assert(keys_distinct(t)) by {
            assert forall|i: int, j: int| 0 <= i < j < t.len() implies #[trigger] t[i].0@
                != #[trigger] t[j].0@ by {
                assert(t[i] == s[i] && t[j] == s[j]);
            }
        }
        lemma_entries_len(t);
        lemma_assoc_view(t);
        if has_key(t, s.last().0@) {
            let i = choose|i: int| 0 <= i < t.len() && #[trigger] t[i].0@ == s.last().0@;
            assert(s[i] == t[i]);
        }
    }
}

} // verus!
