use core::any::TypeId;
use crate::bucket::str_eq;
use vstd::prelude::*;

verus! {

#[verifier::external_type_specification]
#[verifier::external_body]
pub struct ExTypeId(core::any::TypeId);

/// Relies on `TypeId`'s `PartialEq`: two identities compare equal exactly
/// when they are the same identity.
pub assume_specification[ <core::any::TypeId as core::cmp::PartialEq>::eq ](
    a: &TypeId,
    b: &TypeId,
) -> (r: bool)
    ensures
        r == (*a == *b),
;

/// How an open scope holds its slot.
#[derive(Clone, Copy, Debug, PartialEq, Eq, Structural)]
pub enum AccessMode {
    /// A `with` scope: read access.
    Shared,
    /// An `apply` scope: write access.
    Exclusive,
}

/// The tier of an exclusive lock that a thread is about to take.
#[derive(Clone, Copy, Debug, PartialEq, Eq, Structural)]
pub enum Lock {
    /// The table of all type buckets, to create a bucket.
    Global,
    /// One type's bucket, to insert or remove a key.
    Type,
    /// One slot, for an `apply` scope.
    Key,
}

/// One open access scope: the slot's key, its type identity and the mode.
pub struct ContextFrame {
    pub key: String,
    pub type_id: TypeId,
    pub mode: AccessMode,
}

/// What a frame records, in spec terms.
pub type FrameView = (Seq<char>, TypeId, AccessMode);

impl ContextFrame {
    pub open spec fn view(&self) -> FrameView {
        (self.key@, self.type_id, self.mode)
    }
}

/// Whether taking `lock` exclusively for (`name`, `ty`) could block on a lock
/// that one of the open scopes `s` already holds.
pub open spec fn write_forbidden(s: Seq<FrameView>, name: Seq<char>, ty: TypeId, lock: Lock) -> bool {
    match lock {
        Lock::Global => s.len() > 0,
        Lock::Type => exists|i: int| 0 <= i < s.len() && (#[trigger] s[i]).1 == ty,
        Lock::Key => exists|i: int| 0 <= i < s.len() && (#[trigger] s[i]).0 == name && s[i].1 == ty,
    }
}

/// Whether taking the slot for (`name`, `ty`) for reading could block on a
/// write scope among `s`.
pub open spec fn read_forbidden(s: Seq<FrameView>, name: Seq<char>, ty: TypeId) -> bool {
    exists|i: int|
        0 <= i < s.len() && (#[trigger] s[i]).0 == name && s[i].1 == ty && s[i].2
            == AccessMode::Exclusive
}

/// Whether opening a scope on (`name`, `ty`) in `mode` could block on a
/// lock that one of the open scopes `s` already holds.
pub open spec fn scope_forbidden(s: Seq<FrameView>, name: Seq<char>, ty: TypeId, mode: AccessMode) -> bool {
    match mode {
        AccessMode::Shared => read_forbidden(s, name, ty),
        AccessMode::Exclusive => write_forbidden(s, name, ty, Lock::Key),
    }
}

/// A thread that holds a write scope on a slot cannot open a second scope of
/// any mode on the same slot: a nested `apply` or `with` on the key an
/// enclosing `apply` holds is refused rather than left to block.
pub proof fn lemma_nested_scope_refused(s: Seq<FrameView>, name: Seq<char>, ty: TypeId, mode: AccessMode)
    ensures
        scope_forbidden(s.push((name, ty, AccessMode::Exclusive)), name, ty, mode),
{
    let t = s.push((name, ty, AccessMode::Exclusive));
    assert(t[s.len() as int] == (name, ty, AccessMode::Exclusive));
}

/// Scopes close in the order they opened: opening one and then closing the
/// innermost leaves the thread's stack as it was.
pub proof fn lemma_scope_round_trip(s: Seq<FrameView>, f: FrameView)
    ensures
        s.push(f).len() > 0,
        s.push(f).drop_last() == s,
{
    assert(s.push(f).drop_last() =~= s);
}

/// Read scopes on one slot nest: a thread that holds only read scopes on a
/// slot may open another read scope on it.
pub proof fn lemma_shared_scopes_nest(s: Seq<FrameView>, name: Seq<char>, ty: TypeId)
    requires
        !read_forbidden(s, name, ty),
    ensures
        !read_forbidden(s.push((name, ty, AccessMode::Shared)), name, ty),
{
    let t = s.push((name, ty, AccessMode::Shared));
    assert forall|i: int| 0 <= i < t.len() implies !((#[trigger] t[i]).0 == name && t[i].1 == ty
        && t[i].2 == AccessMode::Exclusive) by {
        if i < s.len() {
            assert(t[i] == s[i]);
        }
    }
}

/// The stack of access scopes that one thread has open, innermost last.
pub struct ContextOperator {
    frames: Vec<ContextFrame>,
}

/// A lock acquisition refused because the acquiring thread already holds,
/// through an enclosing scope, a lock it would wait on.
#[derive(Clone, Copy, Debug, PartialEq, Eq, Structural)]
pub struct DeadlockDetected {
    pub lock: Lock,
}

impl ContextOperator {
    /// The open scopes, outermost first.
    pub closed spec fn view(&self) -> Seq<FrameView> {
        self.frames@.map_values(|f: ContextFrame| f@)
    }

    /// A stack with no open scope.
    pub fn new() -> (r: Self)
        ensures
            r@ == Seq::<FrameView>::empty(),
    {
        let r = ContextOperator { frames: Vec::new() };
        assert(r@ =~= Seq::<FrameView>::empty());
        r
    }

    /// Whether no scope is open.
    pub fn is_idle(&self) -> (r: bool)
        ensures
            r == (self@.len() == 0),
    {
        self.frames.len() == 0
    }

    /// Opens a scope.
    pub fn push(&mut self, ctx: ContextFrame)
        ensures
            final(self)@ == old(self)@.push(ctx@),
    {
        self.frames.push(ctx);
        assert(self@ =~= old(self)@.push(ctx@));
    }

    /// Closes the innermost scope; with no scope open nothing changes.
    pub fn pop(&mut self)
        ensures
            old(self)@.len() > 0 ==> final(self)@ == old(self)@.drop_last(),
            old(self)@.len() == 0 ==> final(self)@ == old(self)@,
    {
        if self.frames.len() > 0 {
            let _ = self.frames.pop();
            assert(self@ =~= old(self)@.drop_last());
        }
    }

    /// Opens a scope on the slot for (`name`, `type_id`) in `mode`, unless
    /// taking that slot's lock in that mode would deadlock against a scope
    /// already open; then nothing changes.
    pub fn enter(&mut self, name: &str, type_id: &TypeId, mode: AccessMode) -> (r: Result<
        (),
        DeadlockDetected,
    >)
        ensures
            r.is_err() == scope_forbidden(old(self)@, name@, *type_id, mode),
            r.is_err() ==> r == Err::<(), DeadlockDetected>(DeadlockDetected { lock: Lock::Key })
                && final(self)@ == old(self)@,
            r.is_ok() ==> final(self)@ == old(self)@.push((name@, *type_id, mode)),
    {
        let refused = match mode {
            AccessMode::Shared => self.cannot_lock_read_lock(name, type_id),
            AccessMode::Exclusive => self.cannot_lock_write_lock(name, type_id, Lock::Key),
        };
        if refused {
            return Err(DeadlockDetected { lock: Lock::Key });
        }
        let frame = ContextFrame { key: name.to_string(), type_id: *type_id, mode };
        self.push(frame);
        Ok(())
    }

    /// Whether taking `lock` exclusively for (`name`, `type_id`) would
    /// deadlock against a scope this stack holds open.
    pub fn cannot_lock_write_lock(&self, name: &str, type_id: &TypeId, lock: Lock) -> (r: bool)
        ensures
            r == write_forbidden(self@, name@, *type_id, lock),
    {
        if let Lock::Global = lock {
            return self.frames.len() > 0;
        }
        let mut i: usize = 0;
        while i < self.frames.len()
            invariant
                i <= self.frames.len(),
                lock != Lock::Global,
                forall|j: int|
                    0 <= j < i ==> !(match lock {
                        Lock::Type => self@[j].1 == *type_id,
                        _ => self@[j].0 == name@ && self@[j].1 == *type_id,
                    }),
            decreases self.frames.len() - i,
        {
            let f = &self.frames[i];
            let same_type = f.type_id.eq(type_id);
            let hit = match lock {
                Lock::Type => same_type,
                _ => same_type && str_eq(f.key.as_str(), name),
            };
            if hit {
                assert(self@[i as int] == self.frames@[i as int]@);
                return true;
            }
            i = i + 1;
        }
        assert(!write_forbidden(self@, name@, *type_id, lock)) by {
            if write_forbidden(self@, name@, *type_id, lock) {
                let j = choose|j: int|
                    0 <= j < self@.len() && match lock {
                        Lock::Type => (#[trigger] self@[j]).1 == *type_id,
                        _ => self@[j].0 == name@ && self@[j].1 == *type_id,
                    };
                assert(j < i);
            }
        }
        false
    }

    /// Whether taking the slot for (`name`, `type_id`) for reading would
    /// deadlock against a write scope this stack holds open.
    pub fn cannot_lock_read_lock(&self, name: &str, type_id: &TypeId) -> (r: bool)
        ensures
            r == read_forbidden(self@, name@, *type_id),
    {
        let mut i: usize = 0;
        while i < self.frames.len()
            invariant
                i <= self.frames.len(),
                forall|j: int|
                    0 <= j < i ==> !(self@[j].0 == name@ && self@[j].1 == *type_id && self@[j].2
                        == AccessMode::Exclusive),
            decreases self.frames.len() - i,
        {
            let f = &self.frames[i];
            if f.mode == AccessMode::Exclusive && f.type_id.eq(type_id) && str_eq(
                f.key.as_str(),
                name,
            ) {
                assert(self@[i as int] == self.frames@[i as int]@);
                return true;
            }
            i = i + 1;
        }
        false
    }
}

/// Refuses an exclusive acquisition of `lock` for (`name`, `type_id`) that
/// would deadlock against a scope `ctx` holds open.
pub fn check_write_deadlock(ctx: &ContextOperator, name: &str, type_id: &TypeId, lock: Lock) -> (r:
    Result<(), DeadlockDetected>)
    ensures
        r.is_err() == write_forbidden(ctx@, name@, *type_id, lock),
        r.is_err() ==> r == Err::<(), DeadlockDetected>(DeadlockDetected { lock }),
{
    if ctx.cannot_lock_write_lock(name, type_id, lock) {
        Err(DeadlockDetected { lock })
    } else {
        Ok(())
    }
}

/// Refuses a shared acquisition of the slot for (`name`, `type_id`) that
/// would deadlock against a write scope `ctx` holds open.
pub fn check_read_deadlock(ctx: &ContextOperator, name: &str, type_id: &TypeId) -> (r: Result<
    (),
    DeadlockDetected,
>)
    ensures
        r.is_err() == read_forbidden(ctx@, name@, *type_id),
        r.is_err() ==> r == Err::<(), DeadlockDetected>(DeadlockDetected { lock: Lock::Key }),
{
    if ctx.cannot_lock_read_lock(name, type_id) {
        Err(DeadlockDetected { lock: Lock::Key })
    } else {
        Ok(())
    }
}

} // verus!
