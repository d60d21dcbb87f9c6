use vstd::prelude::*;

verus! {

/// The slots of one value type: a mapping from key to value in which each
/// key occurs at most once.
pub struct TypeBucket<V> {
    slots: Vec<(String, V)>,
}

/// No key occurs twice in a slot list.
pub open spec fn keys_unique<V>(s: Seq<(String, V)>) -> bool {
    forall|i: int, j: int| 0 <= i < s.len() && 0 <= j < s.len() && i != j ==> s[i].0@ != s[j].0@
}

/// The mapping that a slot list with unique keys stands for.
pub open spec fn map_of<V>(s: Seq<(String, V)>) -> Map<Seq<char>, V>
    decreases s.len(),
{
    if s.len() == 0 {
        Map::empty()
    } else {
        map_of(s.drop_last()).insert(s.last().0@, s.last().1)
    }
}

proof fn lemma_map_of_dom<V>(s: Seq<(String, V)>, k: Seq<char>)
    ensures
        map_of(s).contains_key(k) <==> exists|i: int| 0 <= i < s.len() && s[i].0@ == k,
    decreases s.len(),
{
    if s.len() > 0 {
        lemma_map_of_dom(s.drop_last(), k);
        if map_of(s.drop_last()).contains_key(k) {
            let i = choose|i: int| 0 <= i < s.drop_last().len() && s.drop_last()[i].0@ == k;
            assert(s[i].0@ == k);
        }
        if exists|i: int| 0 <= i < s.len() && s[i].0@ == k {
            let i = choose|i: int| 0 <= i < s.len() && s[i].0@ == k;
            if i < s.len() - 1 {
                assert(s.drop_last()[i].0@ == k);
            }
        }
    }
}

proof fn lemma_map_of_at<V>(s: Seq<(String, V)>, i: int)
    requires
        keys_unique(s),
        0 <= i < s.len(),
    ensures
        map_of(s).contains_key(s[i].0@),
        map_of(s)[s[i].0@] == s[i].1,
    decreases s.len(),
{
    lemma_map_of_dom(s, s[i].0@);
    if i < s.len() - 1 {
        assert(keys_unique(s.drop_last()));
        assert(s.drop_last()[i] == s[i]);
        lemma_map_of_at(s.drop_last(), i);
    }
}

proof fn lemma_map_of_push<V>(s: Seq<(String, V)>, e: (String, V))
    ensures
        map_of(s.push(e)) == map_of(s).insert(e.0@, e.1),
{
    assert(s.push(e).drop_last() =~= s);
}

proof fn lemma_map_of_remove<V>(s: Seq<(String, V)>, i: int)
    requires
        keys_unique(s),
        0 <= i < s.len(),
    ensures
        keys_unique(s.remove(i)),
        map_of(s.remove(i)) == map_of(s).remove(s[i].0@),
    decreases s.len(),
{
    let t = s.remove(i);
    assert forall|a: int, b: int| 0 <= a < t.len() && 0 <= b < t.len() && a != b implies t[a].0@
        != t[b].0@ by {
        let a2 = if a < i { a } else { a + 1 };
        let b2 = if b < i { b } else { b + 1 };
        assert(t[a] == s[a2]);
        assert(t[b] == s[b2]);
    }
    if i == s.len() - 1 {
        assert(t =~= s.drop_last());
        lemma_map_of_dom(t, s[i].0@);
        assert(!map_of(t).contains_key(s[i].0@));
        assert(map_of(s) == map_of(t).insert(s[i].0@, s[i].1));
        assert(map_of(t) =~= map_of(s).remove(s[i].0@));
    } else {
        let d = s.drop_last();
        assert(keys_unique(d));
        lemma_map_of_remove(d, i);
        assert(t =~= d.remove(i).push(s.last()));
        lemma_map_of_push(d.remove(i), s.last());
        assert(d[i] == s[i]);
        assert(s.last().0@ != s[i].0@);
        assert(map_of(t) =~= map_of(s).remove(s[i].0@));
    }
}

proof fn lemma_map_of_update<V>(s: Seq<(String, V)>, i: int, v: V)
    requires
        keys_unique(s),
        0 <= i < s.len(),
    ensures
        keys_unique(s.update(i, (s[i].0, v))),
        map_of(s.update(i, (s[i].0, v))) == map_of(s).insert(s[i].0@, v),
{
    let t = s.update(i, (s[i].0, v));
    assert(t.remove(i) =~= s.remove(i));
    lemma_map_of_remove(s, i);
    assert forall|a: int, b: int| 0 <= a < t.len() && 0 <= b < t.len() && a != b implies t[a].0@
        != t[b].0@ by {
        assert(t[a].0@ == s[a].0@);
        assert(t[b].0@ == s[b].0@);
    }
    lemma_map_of_remove(t, i);
    lemma_map_of_at(t, i);
    lemma_map_of_dom(t, s[i].0@);
    lemma_map_of_dom(s, s[i].0@);
    assert(map_of(t) =~= map_of(s).insert(s[i].0@, v)) by {
        assert(map_of(t).remove(s[i].0@) == map_of(s).remove(s[i].0@));
        assert forall|k: Seq<char>| #[trigger] map_of(t).contains_key(k) <==> map_of(s).insert(
            s[i].0@,
            v,
        ).contains_key(k) by {
            if k != s[i].0@ {
                assert(map_of(t).remove(s[i].0@).contains_key(k) == map_of(t).contains_key(k));
                assert(map_of(s).remove(s[i].0@).contains_key(k) == map_of(s).contains_key(k));
            }
        }
        assert forall|k: Seq<char>| #[trigger] map_of(t).contains_key(k) implies map_of(t)[k]
            == map_of(s).insert(s[i].0@, v)[k] by {
            if k != s[i].0@ {
                assert(map_of(t).remove(s[i].0@)[k] == map_of(t)[k]);
                assert(map_of(s).remove(s[i].0@)[k] == map_of(s)[k]);
            }
        }
    }
}

impl<V> TypeBucket<V> {
    /// The key-to-value mapping this bucket holds.
    pub closed spec fn view(&self) -> Map<Seq<char>, V> {
        map_of(self.slots@)
    }

    /// Each key occurs in at most one slot.
    pub closed spec fn wf(&self) -> bool {
        keys_unique(self.slots@)
    }

    /// An empty bucket.
    pub fn new() -> (r: Self)
        ensures
            r.wf(),
            r@ == Map::<Seq<char>, V>::empty(),
    {
        TypeBucket { slots: Vec::new() }
    }

    /// The position of the slot for `name`, if there is one.
    fn position(&self, name: &str) -> (r: Option<usize>)
        requires
            self.wf(),
        ensures
            r.is_none() ==> !self@.contains_key(name@),
            r.is_some() ==> r.unwrap() < self.slots.len() && self.slots@[r.unwrap() as int].0@
                == name@,
    {
        let mut i: usize = 0;
        while i < self.slots.len()
            invariant
                i <= self.slots.len(),
                forall|j: int| 0 <= j < i ==> self.slots@[j].0@ != name@,
            decreases self.slots.len() - i,
        {
            if str_eq(self.slots[i].0.as_str(), name) {
                return Some(i);
            }
            i = i + 1;
        }
        proof {
            lemma_map_of_dom(self.slots@, name@);
        }
        None
    }

    /// Whether a slot exists for `name`.
    pub fn contains(&self, name: &str) -> (r: bool)
        requires
            self.wf(),
        ensures
            r == self@.contains_key(name@),
    {
        match self.position(name) {
            Some(i) => {
                proof {
                    lemma_map_of_at(self.slots@, i as int);
                }
                true
            },
            None => false,
        }
    }

    /// The value stored under `name`, if any.
    pub fn get(&self, name: &str) -> (r: Option<&V>)
        requires
            self.wf(),
        ensures
            r.is_some() == self@.contains_key(name@),
            r.is_some() ==> *r.unwrap() == self@[name@],
    {
        match self.position(name) {
            Some(i) => {
                proof {
                    lemma_map_of_at(self.slots@, i as int);
                }
                Some(&self.slots[i].1)
            },
            None => None,
        }
    }

    /// Stores `value` under `name`, handing back the value it displaces.
    pub fn insert(&mut self, name: &str, value: V) -> (r: Option<V>)
        requires
            old(self).wf(),
        ensures
            final(self).wf(),
            final(self)@ == old(self)@.insert(name@, value),
            r.is_some() == old(self)@.contains_key(name@),
            r.is_some() ==> r.unwrap() == old(self)@[name@],
    {
        match self.position(name) {
            Some(i) => {
                proof {
                    lemma_map_of_at(self.slots@, i as int);
                    lemma_map_of_update(self.slots@, i as int, value);
                }
                let ghost before = self.slots@;
                let prev = self.slots.remove(i);
                self.slots.insert(i, (prev.0, value));
                proof {
                    assert(self.slots@ =~= before.update(i as int, (before[i as int].0, value)));
                }
                Some(prev.1)
            },
            None => {
                let key = name.to_string();
                proof {
                    lemma_map_of_push(self.slots@, (key, value));
                    lemma_map_of_dom(self.slots@, name@);
                }
                self.slots.push((key, value));
                None
            },
        }
    }

    /// Detaches the slot for `name` and hands back its value.
    pub fn remove(&mut self, name: &str) -> (r: Option<V>)
        requires
            old(self).wf(),
        ensures
            final(self).wf(),
            final(self)@ == old(self)@.remove(name@),
            r.is_some() == old(self)@.contains_key(name@),
            r.is_some() ==> r.unwrap() == old(self)@[name@],
    {
        match self.position(name) {
            Some(i) => {
                proof {
                    lemma_map_of_at(self.slots@, i as int);
                    lemma_map_of_remove(self.slots@, i as int);
                }
                let e = self.slots.remove(i);
                Some(e.1)
            },
            None => {
                proof {
                    assert(self@.remove(name@) =~= self@);
                }
                None
            },
        }
    }

    /// Swaps `value` in for the value under `name` when that key is present;
    /// when it is absent nothing is stored and `value` is dropped.
    pub fn replace(&mut self, name: &str, value: V) -> (r: Option<V>)
        requires
            old(self).wf(),
        ensures
            final(self).wf(),
            r.is_some() == old(self)@.contains_key(name@),
            r.is_some() ==> r.unwrap() == old(self)@[name@] && final(self)@ == old(self)@.insert(
                name@,
                value,
            ),
            r.is_none() ==> final(self)@ == old(self)@,
    {
        match self.position(name) {
            Some(i) => {
                proof {
                    lemma_map_of_at(self.slots@, i as int);
                    lemma_map_of_update(self.slots@, i as int, value);
                }
                let ghost before = self.slots@;
                let prev = self.slots.remove(i);
                self.slots.insert(i, (prev.0, value));
                proof {
                    assert(self.slots@ =~= before.update(i as int, (before[i as int].0, value)));
                }
                Some(prev.1)
            },
            None => None,
        }
    }
}

/// Character-wise equality of two strings.
pub(crate) fn str_eq(a: &str, b: &str) -> (r: bool)
    ensures
        r == (a@ == b@),
{
    let n = a.unicode_len();
    if n != b.unicode_len() {
        return false;
    }
    let mut i: usize = 0;
    while i < n
        invariant
            n == a@.len(),
            n == b@.len(),
            i <= n,
            forall|j: int| 0 <= j < i ==> a@[j] == b@[j],
        decreases n - i,
    {
        if a.get_char(i) != b.get_char(i) {
            return false;
        }
        i = i + 1;
    }
    assert(a@ =~= b@);
    true
}

} // verus!
