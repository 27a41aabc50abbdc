use msi::stringpool::{StringPool, StringRef};

#[test]
fn incref_deduplicates() {
    let mut pool = StringPool::new();
    let a = pool.incref("alpha".to_string());
    let slots = pool.num_slots();
    let live = pool.num_live();
    let b = pool.incref("alpha".to_string());
    assert_eq!(a, b);
    assert_eq!(pool.num_slots(), slots);
    assert_eq!(pool.num_live(), live);
    assert_eq!(pool.uses(&"alpha".to_string()), 2);
    let c = pool.incref("beta".to_string());
    assert_ne!(a, c);
    assert_eq!(pool.num_live(), 2);
}

#[test]
fn handles_count_from_one() {
    let mut pool = StringPool::new();
    assert_eq!(pool.incref("a".to_string()), StringRef::new(1));
    assert_eq!(pool.incref("b".to_string()), StringRef::new(2));
    assert_eq!(pool.incref("a".to_string()).number(), 1);
    assert_eq!(pool.get(StringRef::new(2)), "b");
}

#[test]
fn incref_then_decref_restores_live_count() {
    let mut pool = StringPool::new();
    pool.incref("kept".to_string());
    let before = pool.num_live();
    let a = pool.incref("gone".to_string());
    let b = pool.incref("gone".to_string());
    assert_eq!(pool.num_live(), before + 1);
    pool.decref(a);
    assert_eq!(pool.num_live(), before + 1);
    assert_eq!(pool.get(b), "gone");
    pool.decref(b);
    assert_eq!(pool.num_live(), before);
    assert_eq!(pool.uses(&"kept".to_string()), 1);
    assert_eq!(pool.uses(&"gone".to_string()), 0);
}

#[test]
fn retired_text_gets_a_new_handle() {
    let mut pool = StringPool::new();
    let a = pool.incref("x".to_string());
    pool.decref(a);
    let b = pool.incref("x".to_string());
    assert_eq!(b.number(), 2);
    assert_eq!(pool.get(b), "x");
    assert_eq!(pool.num_live(), 1);
}

#[test]
fn empty_pool() {
    let pool = StringPool::new();
    assert_eq!(pool.num_slots(), 0);
    assert_eq!(pool.num_live(), 0);
    assert_eq!(pool.uses(&String::new()), 0);
}
