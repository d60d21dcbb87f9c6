use vstd::prelude::*;
use crate::bucket::TypeBucket;
use crate::registry::{call_with_mut, read_result, registered, removed, replaced};

verus! {

/// The values of one type `T` that a single thread owns, under their keys.
/// Nothing is shared, so no lock is taken and no scope is recorded.
pub struct LocalRegistry<T> {
    slots: TypeBucket<T>,
}

impl<T> LocalRegistry<T> {
    /// The key-to-value mapping this store holds.
    pub closed spec fn view(&self) -> Map<Seq<char>, T> {
        self.slots@
    }

    pub closed spec fn wf(&self) -> bool {
        self.slots.wf()
    }

    /// An empty store.
    pub fn new() -> (r: Self)
        ensures
            r.wf(),
            r@ == Map::<Seq<char>, T>::empty(),
    {
        LocalRegistry { slots: TypeBucket::new() }
    }

    /// Stores `value` under `name`, replacing any value already there.
    pub fn register(&mut self, name: &str, value: T)
        requires
            old(self).wf(),
        ensures
            final(self).wf(),
            final(self)@ == registered(old(self)@, name@, value),
    {
        let _ = self.slots.insert(name, value);
    }

    /// Removes the value under `name` and hands it back; `None` when `name`
    /// holds nothing.
    pub fn remove(&mut self, name: &str) -> (r: Option<T>)
        requires
            old(self).wf(),
        ensures
            final(self).wf(),
            final(self)@ == removed(old(self)@, name@),
            r.is_some() == old(self)@.contains_key(name@),
            r.is_some() ==> r.unwrap() == old(self)@[name@],
    {
        self.slots.remove(name)
    }

    /// Whether `name` holds a value.
    pub fn contains(&self, name: &str) -> (r: bool)
        requires
            self.wf(),
        ensures
            r == self@.contains_key(name@),
    {
        self.slots.contains(name)
    }

    /// Runs `func` on the value under `name` with write access, and hands
    /// back its result; `None`, without calling `func`, when `name` holds
    /// nothing.
    pub fn apply<R, F: FnOnce(&mut T) -> R>(&mut self, name: &str, func: F) -> (r: Option<R>)
        requires
            old(self).wf(),
            old(self)@.contains_key(name@) ==> forall|a: &mut T|
                *a == old(self)@[name@] ==> func.requires((a,)),
        ensures
            final(self).wf(),
            r.is_some() == old(self)@.contains_key(name@),
            r.is_none() ==> final(self)@ == old(self)@,
            r.is_some() ==> exists|a: &mut T|
                *a == old(self)@[name@] && func.ensures((a,), r.unwrap()) && final(self)@
                    == registered(old(self)@, name@, *final(a)),
    {
        match self.slots.remove(name) {
            Some(value) => {
                let mut value = value;
                let ghost before = value;
                let ret = call_with_mut(&mut value, func);
                let _ = self.slots.insert(name, value);
                proof {
                    let a = choose|a: &mut T|
                        *a == before && *final(a) == value && func.ensures((a,), ret);
                    assert(self@ =~= registered(old(self)@, name@, *final(a)));
                }
                Some(ret)
            },
            None => None,
        }
    }

    /// Runs `func` on the value under `name` with read access, and hands
    /// back its result; `None`, without calling `func`, when `name` holds
    /// nothing.
    pub fn with<R, F: FnOnce(&T) -> R>(&self, name: &str, func: F) -> (r: Option<R>)
        requires
            self.wf(),
            self@.contains_key(name@) ==> func.requires((&self@[name@],)),
        ensures
            read_result(self@, name@, func, r),
    {
        match self.slots.get(name) {
            Some(value) => Some(func(value)),
            None => None,
        }
    }

    /// Swaps `value` in for the value under `name` and hands back the old
    /// one; when `name` holds nothing, returns `None` and stores nothing.
    pub fn replace(&mut self, name: &str, value: T) -> (r: Option<T>)
        requires
            old(self).wf(),
        ensures
            final(self).wf(),
            final(self)@ == replaced(old(self)@, name@, value),
            r.is_some() == old(self)@.contains_key(name@),
            r.is_some() ==> r.unwrap() == old(self)@[name@],
    {
        self.slots.replace(name, value)
    }
}

} // verus!
