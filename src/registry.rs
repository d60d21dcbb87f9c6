use core::any::TypeId;
use vstd::prelude::*;
use crate::bucket::TypeBucket;
use crate::context::{write_forbidden, ContextOperator, Lock};

verus! {

/// Relies on `TypeId::of`: it gives the identity of the type `T`; nothing
/// more is assumed of it.
pub assume_specification<T: ?Sized + 'static>[ core::any::TypeId::of::<T> ]() -> TypeId;

/// The store after `register(k, v)`: `k` now holds `v`, whether or not it
/// held a value before.
pub open spec fn registered<T>(m: Map<Seq<char>, T>, k: Seq<char>, v: T) -> Map<Seq<char>, T> {
    m.insert(k, v)
}

/// The store after `remove(k)`: `k` holds nothing.
pub open spec fn removed<T>(m: Map<Seq<char>, T>, k: Seq<char>) -> Map<Seq<char>, T> {
    m.remove(k)
}

/// The store after `replace(k, v)`: `k` holds `v` if it held a value before;
/// otherwise the store is as it was.
pub open spec fn replaced<T>(m: Map<Seq<char>, T>, k: Seq<char>, v: T) -> Map<Seq<char>, T> {
    if m.contains_key(k) {
        m.insert(k, v)
    } else {
        m
    }
}

/// What `with(k, f)` may return on a store `m`: nothing when `k` is absent,
/// else one of the results `f` may give on the value of `k`.
pub open spec fn read_result<T, R, F: FnOnce(&T) -> R>(m: Map<Seq<char>, T>, k: Seq<char>, f: F, r: Option<R>) -> bool {
    if m.contains_key(k) {
        r.is_some() && f.ensures((&m[k],), r.unwrap())
    } else {
        r.is_none()
    }
}

/// Calls `func` on `x`; what it may return and leave in `x` is what `func`'s
/// own contract allows.
pub(crate) fn call_with_mut<T, R, F: FnOnce(&mut T) -> R>(x: &mut T, func: F) -> (r: R)
    requires
        forall|a: &mut T| *a == *old(x) ==> func.requires((a,)),
    ensures
        exists|a: &mut T| *a == *old(x) && *final(a) == *final(x) && func.ensures((a,), r),
{
    func(x)
}

/// The values of one type `T` in the process-wide store, under their keys.
///
/// Taking a type bucket's lock exclusively is refused while the thread has a
/// scope of that type open, so the key-set changing operations ask for the
/// thread's open scopes and require that they hold none of this type.
pub struct Registry<T> {
    type_id: TypeId,
    slots: TypeBucket<T>,
}

impl<T: 'static> Registry<T> {
    /// An empty store for the type `T`.
    pub fn new() -> (r: Self)
        ensures
            r.wf(),
            r@ == Map::<Seq<char>, T>::empty(),
    {
        Registry { type_id: TypeId::of::<T>(), slots: TypeBucket::new() }
    }
}

impl<T> Registry<T> {
    /// The key-to-value mapping this store holds.
    pub closed spec fn view(&self) -> Map<Seq<char>, T> {
        self.slots@
    }

    /// The identity of `T` that this store's scopes are recorded under.
    pub closed spec fn type_key(&self) -> TypeId {
        self.type_id
    }

    pub closed spec fn wf(&self) -> bool {
        self.slots.wf()
    }

    /// The identity of `T`.
    pub fn type_id(&self) -> (r: TypeId)
        ensures
            r == self.type_key(),
    {
        self.type_id
    }

    /// Stores `value` under `name`, replacing any value already there.
    pub fn register(&mut self, ctx: &ContextOperator, name: &str, value: T) -> (r: Result<(), ()>)
        requires
            old(self).wf(),
            !write_forbidden(ctx@, name@, old(self).type_key(), Lock::Type),
        ensures
            final(self).wf(),
            final(self).type_key() == old(self).type_key(),
            final(self)@ == registered(old(self)@, name@, value),
            r == Ok::<(), ()>(()),
    {
        let _ = self.slots.insert(name, value);
        Ok(())
    }

    /// Removes the value under `name` and hands it back; `None` when `name`
    /// holds nothing.
    pub fn remove(&mut self, ctx: &ContextOperator, name: &str) -> (r: Option<T>)
        requires
            old(self).wf(),
            !write_forbidden(ctx@, name@, old(self).type_key(), Lock::Type),
        ensures
            final(self).wf(),
            final(self).type_key() == old(self).type_key(),
            final(self)@ == removed(old(self)@, name@),
            r.is_some() == old(self)@.contains_key(name@),
            r.is_some() ==> r.unwrap() == old(self)@[name@],
    {
        self.slots.remove(name)
    }

    /// Whether `name` holds a value.
    pub fn contains(&self, name: &str) -> (r: bool)
        requires
            self.wf(),
        ensures
            r == self@.contains_key(name@),
    {
        self.slots.contains(name)
    }

    /// The value under `name`, if any.
    pub fn get(&self, name: &str) -> (r: Option<&T>)
        requires
            self.wf(),
        ensures
            r.is_some() == self@.contains_key(name@),
            r.is_some() ==> *r.unwrap() == self@[name@],
    {
        self.slots.get(name)
    }

    /// Runs `func` on the value under `name` with write access, and hands
    /// back its result; `None`, without calling `func`, when `name` holds
    /// nothing.
    pub fn apply<R, F: FnOnce(&mut T) -> R>(&mut self, name: &str, func: F) -> (r: Option<R>)
        requires
            old(self).wf(),
            old(self)@.contains_key(name@) ==> forall|a: &mut T|
                *a == old(self)@[name@] ==> func.requires((a,)),
        ensures
            final(self).wf(),
            final(self).type_key() == old(self).type_key(),
            r.is_some() == old(self)@.contains_key(name@),
            r.is_none() ==> final(self)@ == old(self)@,
            r.is_some() ==> exists|a: &mut T|
                *a == old(self)@[name@] && func.ensures((a,), r.unwrap()) && final(self)@
                    == registered(old(self)@, name@, *final(a)),
    {
        match self.slots.remove(name) {
            Some(value) => {
                let mut value = value;
                let ghost before = value;
                let ret = call_with_mut(&mut value, func);
                let _ = self.slots.insert(name, value);
                proof {
                    let a = choose|a: &mut T|
                        *a == before && *final(a) == value && func.ensures((a,), ret);
                    assert(self@ =~= registered(old(self)@, name@, *final(a)));
                }
                Some(ret)
            },
            None => None,
        }
    }

    /// Runs `func` on the value under `name` with read access, and hands
    /// back its result; `None`, without calling `func`, when `name` holds
    /// nothing.
    pub fn with<R, F: FnOnce(&T) -> R>(&self, name: &str, func: F) -> (r: Option<R>)
        requires
            self.wf(),
            self@.contains_key(name@) ==> func.requires((&self@[name@],)),
        ensures
            read_result(self@, name@, func, r),
    {
        match self.slots.get(name) {
            Some(value) => Some(func(value)),
            None => None,
        }
    }

    /// Swaps `value` in for the value under `name` and hands back the old
    /// one; when `name` holds nothing, returns `None` and stores nothing.
    pub fn replace(&mut self, ctx: &ContextOperator, name: &str, value: T) -> (r: Option<T>)
        requires
            old(self).wf(),
            !write_forbidden(ctx@, name@, old(self).type_key(), Lock::Type),
        ensures
            final(self).wf(),
            final(self).type_key() == old(self).type_key(),
            final(self)@ == replaced(old(self)@, name@, value),
            r.is_some() == old(self)@.contains_key(name@),
            r.is_some() ==> r.unwrap() == old(self)@[name@],
    {
        self.slots.replace(name, value)
    }

    /// The former name of `replace`.
    pub fn take(&mut self, ctx: &ContextOperator, name: &str, value: T) -> (r: Option<T>)
        requires
            old(self).wf(),
            !write_forbidden(ctx@, name@, old(self).type_key(), Lock::Type),
        ensures
            final(self).wf(),
            final(self).type_key() == old(self).type_key(),
            final(self)@ == replaced(old(self)@, name@, value),
            r.is_some() == old(self)@.contains_key(name@),
            r.is_some() ==> r.unwrap() == old(self)@[name@],
    {
        self.replace(ctx, name, value)
    }
}

} // verus!
