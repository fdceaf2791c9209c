use vstd::prelude::*;

verus! {

/// Equality of two string slices, character by character.
pub fn str_equal(a: &str, b: &str) -> (r: bool)
    ensures
        r == (a@ == b@),
{
    let x = crate::text::chars_of(a);
    let y = crate::text::chars_of(b);
    if x.len() != y.len() {
        return false;
    }
    let mut i: usize = 0;
    while i < x.len()
        invariant
            x@ == a@,
            y@ == b@,
            x@.len() == y@.len(),
            i <= x@.len(),
            forall|k: int| 0 <= k < i ==> x@[k] == y@[k],
        decreases x@.len() - i,
    {
        if x[i] != y[i] {
            return false;
        }
        i = i + 1;
    }
    assert(x@ =~= y@);
    true
}

/// A map from names to values, kept as a list of entries in insertion order
/// with no name twice.
pub struct NameMap<T> {
    pub entries: Vec<(String, T)>,
}

pub open spec fn seq_has_key<T>(s: Seq<(String, T)>, k: Seq<char>) -> bool {
    exists|i: int| 0 <= i < s.len() && (#[trigger] s[i]).0@ == k
}

pub open spec fn seq_key_index<T>(s: Seq<(String, T)>, k: Seq<char>) -> int {
    choose|i: int| 0 <= i < s.len() && (#[trigger] s[i]).0@ == k
}

pub open spec fn seq_keys_distinct<T>(s: Seq<(String, T)>) -> bool {
    forall|i: int, j: int| 0 <= i < s.len() && 0 <= j < s.len() && i != j ==> (#[trigger] s[i]).0@ != (#[trigger] s[j]).0@
}

pub open spec fn seq_to_map<T>(s: Seq<(String, T)>) -> Map<Seq<char>, T> {
    Map::new(|k: Seq<char>| seq_has_key(s, k), |k: Seq<char>| s[seq_key_index(s, k)].1)
}

impl<T> View for NameMap<T> {
    type V = Map<Seq<char>, T>;

    open spec fn view(&self) -> Map<Seq<char>, T> {
        seq_to_map(self.entries@)
    }
}

/// With distinct keys, the entry at `i` gives the map's value at its key.
pub proof fn lemma_entry_in_map<T>(s: Seq<(String, T)>, i: int)
    requires
        seq_keys_distinct(s),
        0 <= i < s.len(),
    ensures
        seq_to_map(s).dom().contains(s[i].0@),
        seq_to_map(s)[s[i].0@] == s[i].1,
        seq_key_index(s, s[i].0@) == i,
{
    assert(seq_has_key(s, s[i].0@));
}

impl<T: Copy> NameMap<T> {
    pub open spec fn wf(&self) -> bool {
        seq_keys_distinct(self.entries@)
    }

    pub fn new() -> (r: Self)
        ensures
            r.wf(),
            r@ == Map::<Seq<char>, T>::empty(),
            r.entries@.len() == 0,
    {
        let r = NameMap { entries: Vec::new() };
        assert(r@ =~= Map::<Seq<char>, T>::empty());
        r
    }

    pub fn len(&self) -> (n: usize)
        requires
            self.wf(),
        ensures
            n == self.entries@.len(),
            n == self@.dom().len(),
    {
        proof {
            self.lemma_dom_len();
        }
        self.entries.len()
    }

    /// The number of keys equals the number of entries.
    pub proof fn lemma_dom_len(&self)
        requires
            self.wf(),
        ensures
            self@.dom().finite(),
            self@.dom().len() == self.entries@.len(),
    {
        lemma_seq_dom_len(self.entries@);
    }

    /// Position of the entry named `key`, if there is one.
    pub fn find(&self, key: &str) -> (r: Option<usize>)
        requires
            self.wf(),
        ensures
            match r {
                Some(i) => i < self.entries@.len() && self.entries@[i as int].0@ == key@,
                None => !self@.dom().contains(key@),
            },
            r is Some <==> self@.dom().contains(key@),
    {
        let mut i: usize = 0;
        while i < self.entries.len()
            invariant
                i <= self.entries@.len(),
                forall|j: int| 0 <= j < i ==> (#[trigger] self.entries@[j]).0@ != key@,
            decreases self.entries@.len() - i,
        {
            if str_equal(self.entries[i].0.as_str(), key) {
                return Some(i);
            }
            i = i + 1;
        }
        None
    }

    pub fn contains_key(&self, key: &str) -> (b: bool)
        requires
            self.wf(),
        ensures
            b == self@.dom().contains(key@),
    {
        self.find(key).is_some()
    }

    pub fn get(&self, key: &str) -> (r: Option<&T>)
        requires
            self.wf(),
        ensures
            match r {
                Some(v) => self@.dom().contains(key@) && *v == self@[key@],
                None => !self@.dom().contains(key@),
            },
    {
        match self.find(key) {
            Some(i) => {
                proof {
                    lemma_entry_in_map(self.entries@, i as int);
                }
                Some(&self.entries[i].1)
            },
            None => None,
        }
    }

    /// Binds `key` to `value`; a new key is appended after the others.
    pub fn insert(&mut self, key: String, value: T)
        requires
            old(self).wf(),
        ensures
            final(self).wf(),
            final(self)@ == old(self)@.insert(key@, value),
            old(self)@.dom().contains(key@) ==> final(self).entries@.len() == old(self).entries@.len(),
            !old(self)@.dom().contains(key@) ==> final(self).entries@ == old(self).entries@.push(
                (key, value),
            ),
    {
        let ghost old_s = self.entries@;
        match self.find(key.as_str()) {
            Some(i) => {
                self.entries.set(i, (key, value));
                proof {
                    let s = self.entries@;
                    assert(seq_keys_distinct(s));
                    assert forall|k: Seq<char>| #[trigger] seq_to_map(s).dom().contains(k) <==> seq_to_map(old_s).insert(key@, value).dom().contains(k) by {
                        if seq_has_key(old_s, k) {
                            let j = seq_key_index(old_s, k);
                            assert(s[j].0@ == k);
                        }
                        if seq_has_key(s, k) {
                            let j = seq_key_index(s, k);
                            if j != i {
                                assert(old_s[j].0@ == k);
                            }
                        }
                    }
                    assert forall|k: Seq<char>| #[trigger] seq_to_map(s).dom().contains(k) implies seq_to_map(s)[k] == seq_to_map(old_s).insert(key@, value)[k] by {
                        let j = seq_key_index(s, k);
                        lemma_entry_in_map(s, j);
                        if j != i {
                            lemma_entry_in_map(old_s, j);
                        }
                    }
                    assert(seq_to_map(s) =~= seq_to_map(old_s).insert(key@, value));
                }
            },
            None => {
                self.entries.push((key, value));
                proof {
                    let s = self.entries@;
                    assert(seq_keys_distinct(s));
                    assert forall|k: Seq<char>| #[trigger] seq_to_map(s).dom().contains(k) <==> seq_to_map(old_s).insert(key@, value).dom().contains(k) by {
                        if seq_has_key(old_s, k) {
                            let j = seq_key_index(old_s, k);
                            assert(s[j].0@ == k);
                        }
                        if k == key@ {
                            assert(s[old_s.len() as int].0@ == k);
                        }
                        if seq_has_key(s, k) {
                            let j = seq_key_index(s, k);
                            if j < old_s.len() {
                                assert(old_s[j].0@ == k);
                            }
                        }
                    }
                    assert forall|k: Seq<char>| #[trigger] seq_to_map(s).dom().contains(k) implies seq_to_map(s)[k] == seq_to_map(old_s).insert(key@, value)[k] by {
                        let j = seq_key_index(s, k);
                        lemma_entry_in_map(s, j);
                        if j < old_s.len() {
                            lemma_entry_in_map(old_s, j);
                        }
                    }
                    assert(seq_to_map(s) =~= seq_to_map(old_s).insert(key@, value));
                }
            },
        }
    }

    /// Removes `key`, returning the value it had.
    pub fn remove(&mut self, key: &str) -> (r: Option<T>)
        requires
            old(self).wf(),
        ensures
            final(self).wf(),
            final(self)@ == old(self)@.remove(key@),
            match r {
                Some(v) => old(self)@.dom().contains(key@) && v == old(self)@[key@],
                None => !old(self)@.dom().contains(key@),
            },
    {
        let ghost old_s = self.entries@;
        match self.find(key) {
            Some(i) => {
                proof {
                    lemma_entry_in_map(old_s, i as int);
                }
                let e = self.entries.remove(i);
                proof {
                    let s = self.entries@;
                    assert(s =~= old_s.remove(i as int));
                    assert(seq_keys_distinct(s)) by {
                        assert forall|a: int, b: int| 0 <= a < s.len() && 0 <= b < s.len() && a != b implies (#[trigger] s[a]).0@ != (#[trigger] s[b]).0@ by {
                            let a2 = if a < i { a } else { a + 1 };
                            let b2 = if b < i { b } else { b + 1 };
                            assert(s[a] == old_s[a2]);
                            assert(s[b] == old_s[b2]);
                        }
                    }
                    assert forall|k: Seq<char>| #[trigger] seq_to_map(s).dom().contains(k) <==> seq_to_map(old_s).remove(key@).dom().contains(k) by {
                        if seq_has_key(old_s, k) && k != key@ {
                            let j = seq_key_index(old_s, k);
                            let j2 = if j < i { j } else { j - 1 };
                            assert(s[j2].0@ == k);
                        }
                        if seq_has_key(s, k) {
                            let j = seq_key_index(s, k);
                            let j2 = if j < i { j } else { j + 1 };
                            assert(old_s[j2].0@ == k);
                            assert(k != key@);
                        }
                    }
                    assert forall|k: Seq<char>| #[trigger] seq_to_map(s).dom().contains(k) implies seq_to_map(s)[k] == seq_to_map(old_s).remove(key@)[k] by {
                        let j = seq_key_index(s, k);
                        lemma_entry_in_map(s, j);
                        let j2 = if j < i { j } else { j + 1 };
                        assert(s[j] == old_s[j2]);
                        lemma_entry_in_map(old_s, j2);
                    }
                    assert(seq_to_map(s) =~= seq_to_map(old_s).remove(key@));
                }
                Some(e.1)
            },
            None => {
                assert(seq_to_map(old_s) =~= seq_to_map(old_s).remove(key@));
                None
            },
        }
    }

    /// The names, in entry order.
    pub fn keys(&self) -> (r: Vec<String>)
        requires
            self.wf(),
        ensures
            r@.len() == self.entries@.len(),
            forall|i: int| 0 <= i < r@.len() ==> (#[trigger] r@[i])@ == self.entries@[i].0@,
    {
        let mut r: Vec<String> = Vec::new();
        let mut i: usize = 0;
        while i < self.entries.len()
            invariant
                i <= self.entries@.len(),
                r@.len() == i,
                forall|j: int| 0 <= j < i ==> (#[trigger] r@[j])@ == self.entries@[j].0@,
            decreases self.entries@.len() - i,
        {
            r.push(self.entries[i].0.clone());
            i = i + 1;
        }
        r
    }

    /// The values, in entry order.
    pub fn values(&self) -> (r: Vec<T>)
        requires
            self.wf(),
        ensures
            r@ == self.entries@.map_values(|e: (String, T)| e.1),
    {
        let mut r: Vec<T> = Vec::new();
        let mut i: usize = 0;
        while i < self.entries.len()
            invariant
                i <= self.entries@.len(),
                r@ == self.entries@.subrange(0, i as int).map_values(|e: (String, T)| e.1),
            decreases self.entries@.len() - i,
        {
            r.push(self.entries[i].1);
            i = i + 1;
            assert(self.entries@.subrange(0, i as int).map_values(|e: (String, T)| e.1) =~= self.entries@.subrange(0, i - 1).map_values(|e: (String, T)| e.1).push(self.entries@[i - 1].1));
        }
        assert(self.entries@.subrange(0, i as int) =~= self.entries@);
        r
    }

    /// An entry-for-entry copy.
    pub fn copy(&self) -> (r: Self)
        ensures
            r.entries@ == self.entries@,
            r@ == self@,
    {
        let mut v: Vec<(String, T)> = Vec::new();
        let mut i: usize = 0;
        while i < self.entries.len()
            invariant
                i <= self.entries@.len(),
                v@ == self.entries@.subrange(0, i as int),
            decreases self.entries@.len() - i,
        {
            let k = self.entries[i].0.clone();
            v.push((k, self.entries[i].1));
            i = i + 1;
            assert(v@ =~= self.entries@.subrange(0, i as int));
        }
        assert(self.entries@.subrange(0, i as int) =~= self.entries@);
        NameMap { entries: v }
    }
}

/// With distinct keys, the number of keys is the number of entries.
pub proof fn lemma_seq_dom_len<T>(s: Seq<(String, T)>)
    requires
        seq_keys_distinct(s),
    ensures
        seq_to_map(s).dom().finite(),
        seq_to_map(s).dom().len() == s.len(),
    decreases s.len(),
{
    if s.len() == 0 {
        assert(seq_to_map(s).dom() =~= Set::<Seq<char>>::empty());
    } else {
        let t = s.drop_last();
        assert(seq_keys_distinct(t)) by {
            assert forall|a: int, b: int| 0 <= a < t.len() && 0 <= b < t.len() && a != b implies (#[trigger] t[a]).0@ != (#[trigger] t[b]).0@ by {
                assert(t[a] == s[a]);
                assert(t[b] == s[b]);
            }
        }
        lemma_seq_dom_len(t);
        let k = s.last().0@;
        assert(seq_to_map(s).dom() =~= seq_to_map(t).dom().insert(k)) by {
            assert forall|x: Seq<char>| #[trigger] seq_to_map(s).dom().contains(x) <==> seq_to_map(t).dom().insert(k).contains(x) by {
                if seq_has_key(s, x) && x != k {
                    let j = seq_key_index(s, x);
                    assert(j != s.len() - 1);
                    assert(t[j].0@ == x);
                }
                if seq_has_key(t, x) {
                    let j = seq_key_index(t, x);
                    assert(s[j].0@ == x);
                }
                if x == k {
                    assert(s[s.len() - 1].0@ == x);
                }
            }
        }
        assert(!seq_to_map(t).dom().contains(k)) by {
            if seq_has_key(t, k) {
                let j = seq_key_index(t, k);
                assert(s[j].0@ == k);
                assert(s[s.len() - 1].0@ == k);
            }
        }
    }
}

} // verus!
