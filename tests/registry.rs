use std::any::TypeId;

use gom::{
    check_read_deadlock, check_write_deadlock, AccessMode, ContextFrame, ContextOperator,
    DeadlockDetected, LocalRegistry, Lock, Registry, TypeBucket, TypeTable,
};

#[test]
fn register_then_with_returns_value() {
    let ctx = ContextOperator::new();
    let mut r: Registry<i32> = Registry::new();
    assert_eq!(r.register(&ctx, "k", 42), Ok(()));
    assert_eq!(r.with("k", |v| *v), Some(42));
}

#[test]
fn remove_then_absent() {
    let ctx = ContextOperator::new();
    let mut r: Registry<i32> = Registry::new();
    r.register(&ctx, "my_key", 42).unwrap();
    assert_eq!(r.remove(&ctx, "my_key"), Some(42));
    assert!(!r.contains("my_key"));
    assert_eq!(r.remove(&ctx, "my_key"), None);
}

#[test]
fn replace_absent_creates_nothing() {
    let ctx = ContextOperator::new();
    let mut r: Registry<i32> = Registry::new();
    assert_eq!(r.replace(&ctx, "other_key", 32), None);
    assert!(!r.contains("other_key"));
    assert_eq!(r.with("other_key", |v| *v), None);
}

#[test]
fn replace_present_returns_old() {
    let ctx = ContextOperator::new();
    let mut r: Registry<i32> = Registry::new();
    r.register(&ctx, "my_key", 42).unwrap();
    assert_eq!(r.replace(&ctx, "my_key", 64), Some(42));
    assert_eq!(r.with("my_key", |v| *v), Some(64));
}

#[test]
fn take_behaves_as_replace() {
    let ctx = ContextOperator::new();
    let mut r: Registry<i32> = Registry::new();
    assert_eq!(r.take(&ctx, "k", 1), None);
    assert!(!r.contains("k"));
    r.register(&ctx, "k", 2).unwrap();
    assert_eq!(r.take(&ctx, "k", 3), Some(2));
    assert_eq!(r.with("k", |v| *v), Some(3));
}

#[test]
fn apply_increment_then_remove() {
    let ctx = ContextOperator::new();
    let mut r: Registry<i32> = Registry::new();
    r.register(&ctx, "a", 1).unwrap();
    assert_eq!(
        r.apply("a", |x| {
            *x += 1;
            *x
        }),
        Some(2)
    );
    assert_eq!(r.remove(&ctx, "a"), Some(2));
    assert!(!r.contains("a"));
}

#[test]
fn register_overwrites_string() {
    let ctx = ContextOperator::new();
    let mut r: Registry<String> = Registry::new();
    r.register(&ctx, "b", String::from("x")).unwrap();
    r.register(&ctx, "b", String::from("y")).unwrap();
    assert_eq!(r.with("b", |v| v.clone()), Some(String::from("y")));
}

#[test]
fn apply_and_with_on_missing_key() {
    let mut r: Registry<i32> = Registry::new();
    let mut called = false;
    assert_eq!(
        r.apply("other_key", |v| {
            called = true;
            *v += 1
        }),
        None
    );
    assert!(!called);
    assert_eq!(r.with("other_key", |v| *v), None);
}

#[test]
fn keys_are_independent() {
    let ctx = ContextOperator::new();
    let mut r: Registry<u8> = Registry::new();
    r.register(&ctx, "a", 1).unwrap();
    r.register(&ctx, "b", 2).unwrap();
    r.register(&ctx, "", 3).unwrap();
    assert_eq!(r.remove(&ctx, "a"), Some(1));
    assert_eq!(r.with("b", |v| *v), Some(2));
    assert_eq!(r.with("", |v| *v), Some(3));
    assert!(!r.contains("ab"));
}

#[test]
fn registry_type_id_is_that_of_t() {
    let r: Registry<u64> = Registry::new();
    assert_eq!(r.type_id(), TypeId::of::<u64>());
}

#[test]
fn local_registry_scenario() {
    let mut r: LocalRegistry<i32> = LocalRegistry::new();
    r.register("my_key", 42);
    assert!(r.contains("my_key"));
    assert!(!r.contains("other_key"));
    assert_eq!(
        r.apply("my_key", |v| {
            *v += 1;
            *v
        }),
        Some(43)
    );
    assert_eq!(r.with("my_key", |v| *v), Some(43));
    assert_eq!(r.replace("my_key", 64), Some(43));
    assert_eq!(r.remove("my_key"), Some(64));
    assert_eq!(r.remove("my_key"), None);
}

#[test]
fn local_replace_absent_creates_nothing() {
    let mut r: LocalRegistry<i32> = LocalRegistry::new();
    assert_eq!(r.replace("other_key", 32), None);
    assert!(!r.contains("other_key"));
}

#[test]
fn bucket_insert_returns_displaced() {
    let mut b: TypeBucket<&str> = TypeBucket::new();
    assert_eq!(b.insert("k", "x"), None);
    assert_eq!(b.insert("k", "y"), Some("x"));
    assert_eq!(b.get("k"), Some(&"y"));
    assert_eq!(b.get("q"), None);
    assert_eq!(b.replace("q", "z"), None);
    assert!(!b.contains("q"));
}

#[test]
fn table_keeps_first_bucket() {
    let mut t: TypeTable<u32> = TypeTable::new();
    assert!(!t.contains(&TypeId::of::<i32>()));
    assert!(t.insert_if_absent(TypeId::of::<i32>(), 1));
    assert!(!t.insert_if_absent(TypeId::of::<i32>(), 2));
    assert!(t.insert_if_absent(TypeId::of::<String>(), 3));
    assert_eq!(t.get(&TypeId::of::<i32>()), Some(&1));
    assert_eq!(t.get(&TypeId::of::<String>()), Some(&3));
    assert_eq!(t.get(&TypeId::of::<u8>()), None);
}

fn frame(key: &str, ty: TypeId, mode: AccessMode) -> ContextFrame {
    ContextFrame { key: key.to_string(), type_id: ty, mode }
}

#[test]
fn global_lock_refused_inside_any_scope() {
    let mut ctx = ContextOperator::new();
    let ty = TypeId::of::<i32>();
    assert!(ctx.is_idle());
    assert!(!ctx.cannot_lock_write_lock("a", &ty, Lock::Global));
    ctx.push(frame("z", TypeId::of::<String>(), AccessMode::Shared));
    assert!(ctx.cannot_lock_write_lock("a", &ty, Lock::Global));
    assert_eq!(
        check_write_deadlock(&ctx, "a", &ty, Lock::Global),
        Err(DeadlockDetected { lock: Lock::Global })
    );
    ctx.pop();
    assert!(ctx.is_idle());
    assert_eq!(check_write_deadlock(&ctx, "a", &ty, Lock::Global), Ok(()));
}

#[test]
fn type_lock_refused_inside_scope_of_same_type() {
    let mut ctx = ContextOperator::new();
    let ty = TypeId::of::<i32>();
    ctx.push(frame("other", ty, AccessMode::Shared));
    assert!(ctx.cannot_lock_write_lock("a", &ty, Lock::Type));
    assert!(!ctx.cannot_lock_write_lock("a", &TypeId::of::<u32>(), Lock::Type));
    assert_eq!(
        check_write_deadlock(&ctx, "a", &ty, Lock::Type),
        Err(DeadlockDetected { lock: Lock::Type })
    );
}

#[test]
fn key_lock_refused_inside_scope_of_same_slot() {
    let mut ctx = ContextOperator::new();
    let ty = TypeId::of::<i32>();
    ctx.push(frame("a", ty, AccessMode::Shared));
    assert!(ctx.cannot_lock_write_lock("a", &ty, Lock::Key));
    assert!(!ctx.cannot_lock_write_lock("b", &ty, Lock::Key));
    assert!(!ctx.cannot_lock_write_lock("a", &TypeId::of::<u32>(), Lock::Key));
}

#[test]
fn read_refused_only_inside_write_scope_of_same_slot() {
    let mut ctx = ContextOperator::new();
    let ty = TypeId::of::<i32>();
    ctx.push(frame("a", ty, AccessMode::Shared));
    assert_eq!(check_read_deadlock(&ctx, "a", &ty), Ok(()));
    ctx.push(frame("a", ty, AccessMode::Exclusive));
    assert!(ctx.cannot_lock_read_lock("a", &ty));
    assert_eq!(
        check_read_deadlock(&ctx, "a", &ty),
        Err(DeadlockDetected { lock: Lock::Key })
    );
    assert_eq!(check_read_deadlock(&ctx, "b", &ty), Ok(()));
}

#[test]
fn nested_apply_on_same_key_detected() {
    let mut ctx = ContextOperator::new();
    let ty = TypeId::of::<i32>();
    assert_eq!(ctx.enter("k", &ty, AccessMode::Exclusive), Ok(()));
    assert_eq!(
        ctx.enter("k", &ty, AccessMode::Exclusive),
        Err(DeadlockDetected { lock: Lock::Key })
    );
    assert_eq!(
        ctx.enter("k", &ty, AccessMode::Shared),
        Err(DeadlockDetected { lock: Lock::Key })
    );
    assert_eq!(ctx.enter("j", &ty, AccessMode::Exclusive), Ok(()));
    ctx.pop();
    ctx.pop();
    assert!(ctx.is_idle());
}

#[test]
fn nested_reads_on_same_key_allowed() {
    let mut ctx = ContextOperator::new();
    let ty = TypeId::of::<i32>();
    assert_eq!(ctx.enter("k", &ty, AccessMode::Shared), Ok(()));
    assert_eq!(ctx.enter("k", &ty, AccessMode::Shared), Ok(()));
    assert_eq!(
        ctx.enter("k", &ty, AccessMode::Exclusive),
        Err(DeadlockDetected { lock: Lock::Key })
    );
    ctx.pop();
    ctx.pop();
    ctx.pop();
    assert!(ctx.is_idle());
}

#[test]
fn registry_get_sees_stored_value() {
    let ctx = ContextOperator::new();
    let mut r: Registry<i32> = Registry::new();
    assert_eq!(r.get("k"), None);
    r.register(&ctx, "k", 5).unwrap();
    assert_eq!(r.get("k"), Some(&5));
}
