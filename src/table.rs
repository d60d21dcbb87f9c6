use core::any::TypeId;
use vstd::prelude::*;

verus! {

/// The mapping that a list of (identity, bucket) entries stands for.
pub open spec fn table_of<B>(s: Seq<(TypeId, B)>) -> Map<TypeId, B>
    decreases s.len(),
{
    if s.len() == 0 {
        Map::empty()
    } else {
        table_of(s.drop_last()).insert(s.last().0, s.last().1)
    }
}

/// No identity occurs twice in an entry list.
pub open spec fn ids_unique<B>(s: Seq<(TypeId, B)>) -> bool {
    forall|i: int, j: int| 0 <= i < s.len() && 0 <= j < s.len() && i != j ==> s[i].0 != s[j].0
}

proof fn lemma_table_dom<B>(s: Seq<(TypeId, B)>, id: TypeId)
    ensures
        table_of(s).contains_key(id) <==> exists|i: int| 0 <= i < s.len() && s[i].0 == id,
    decreases s.len(),
{
    if s.len() > 0 {
        lemma_table_dom(s.drop_last(), id);
        if table_of(s.drop_last()).contains_key(id) {
            let i = choose|i: int| 0 <= i < s.drop_last().len() && s.drop_last()[i].0 == id;
            assert(s[i].0 == id);
        }
        if exists|i: int| 0 <= i < s.len() && s[i].0 == id {
            let i = choose|i: int| 0 <= i < s.len() && s[i].0 == id;
            if i < s.len() - 1 {
                assert(s.drop_last()[i].0 == id);
            }
        }
    }
}

proof fn lemma_table_at<B>(s: Seq<(TypeId, B)>, i: int)
    requires
        ids_unique(s),
        0 <= i < s.len(),
    ensures
        table_of(s).contains_key(s[i].0),
        table_of(s)[s[i].0] == s[i].1,
    decreases s.len(),
{
    lemma_table_dom(s, s[i].0);
    if i < s.len() - 1 {
        assert(ids_unique(s.drop_last()));
        assert(s.drop_last()[i] == s[i]);
        lemma_table_at(s.drop_last(), i);
    }
}

/// The root of the store: one bucket per type identity. A bucket is added
/// the first time its type is stored and is kept from then on.
pub struct TypeTable<B> {
    entries: Vec<(TypeId, B)>,
}

impl<B> TypeTable<B> {
    /// The identity-to-bucket mapping this table holds.
    pub closed spec fn view(&self) -> Map<TypeId, B> {
        table_of(self.entries@)
    }

    /// Each identity has at most one bucket.
    pub closed spec fn wf(&self) -> bool {
        ids_unique(self.entries@)
    }

    /// A table with no bucket.
    pub fn new() -> (r: Self)
        ensures
            r.wf(),
            r@ == Map::<TypeId, B>::empty(),
    {
        TypeTable { entries: Vec::new() }
    }

    fn position(&self, id: &TypeId) -> (r: Option<usize>)
        requires
            self.wf(),
        ensures
            r.is_none() ==> !self@.contains_key(*id),
            r.is_some() ==> r.unwrap() < self.entries.len() && self.entries@[r.unwrap() as int].0
                == *id,
    {
        let mut i: usize = 0;
        while i < self.entries.len()
            invariant
                i <= self.entries.len(),
                forall|j: int| 0 <= j < i ==> self.entries@[j].0 != *id,
            decreases self.entries.len() - i,
        {
            if self.entries[i].0.eq(id) {
                return Some(i);
            }
            i = i + 1;
        }
        proof {
            lemma_table_dom(self.entries@, *id);
        }
        None
    }

    /// Whether the type `id` has a bucket.
    pub fn contains(&self, id: &TypeId) -> (r: bool)
        requires
            self.wf(),
        ensures
            r == self@.contains_key(*id),
    {
        match self.position(id) {
            Some(i) => {
                proof {
                    lemma_table_at(self.entries@, i as int);
                }
                true
            },
            None => false,
        }
    }

    /// The bucket of the type `id`, if it has one.
    pub fn get(&self, id: &TypeId) -> (r: Option<&B>)
        requires
            self.wf(),
        ensures
            r.is_some() == self@.contains_key(*id),
            r.is_some() ==> *r.unwrap() == self@[*id],
    {
        match self.position(id) {
            Some(i) => {
                proof {
                    lemma_table_at(self.entries@, i as int);
                }
                Some(&self.entries[i].1)
            },
            None => None,
        }
    }

    /// Adds `bucket` as the bucket of `id` unless `id` has one already, in
    /// which case the table is left as it is and `bucket` is dropped. Returns
    /// whether it was added. Checking again here, rather than trusting an
    /// earlier lookup, keeps two racing first uses of a type from each
    /// adding a bucket.
    pub fn insert_if_absent(&mut self, id: TypeId, bucket: B) -> (r: bool)
        requires
            old(self).wf(),
        ensures
            final(self).wf(),
            r == !old(self)@.contains_key(id),
            r ==> final(self)@ == old(self)@.insert(id, bucket),
            !r ==> final(self)@ == old(self)@,
    {
        match self.position(&id) {
            Some(i) => {
                proof {
                    lemma_table_at(self.entries@, i as int);
                }
                false
            },
            None => {
                proof {
                    lemma_table_dom(self.entries@, id);
                    assert(self.entries@.push((id, bucket)).drop_last() =~= self.entries@);
                }
                self.entries.push((id, bucket));
                true
            },
        }
    }
}

} // verus!
