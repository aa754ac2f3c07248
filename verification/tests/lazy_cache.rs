use std::cell::Cell;
use std::cmp::Ordering;
use std::rc::Rc;

use q3bsp::cache::Cache;
use q3bsp::lazy::{AsyncLazy, Lazy, LazyStorage};

#[test]
fn lazy_value_is_computed_once() {
    let runs = Cell::new(0);
    let mut l = Lazy::new(|| {
        runs.set(runs.get() + 1);
        40 + 2
    });
    assert_eq!(runs.get(), 0);
    assert_eq!(l.get(), None);
    l.consume_fn();
    assert_eq!(runs.get(), 1);
    assert_eq!(l.get(), Some(&42));
    l.consume_fn();
    assert_eq!(runs.get(), 1);
    assert_eq!(*l.force(), 42);
    assert_eq!(l.consume(), 42);
    assert_eq!(runs.get(), 1);
}

#[test]
fn forcing_computes_on_first_use() {
    let runs = Cell::new(0);
    let mut l = Lazy::new(|| {
        runs.set(runs.get() + 1);
        String::from("patch")
    });
    assert_eq!(l.force(), "patch");
    assert_eq!(runs.get(), 1);
    assert_eq!(l.force(), "patch");
    assert_eq!(runs.get(), 1);
    let mut a = AsyncLazy::new(|| 5u32);
    assert_eq!(*a.force(), 5);
    assert_eq!(a.get(), Some(&5));
}

#[test]
fn lazy_consume_runs_the_function() {
    let l = Lazy::new(|| vec![1u16, 2, 3]);
    assert_eq!(l.consume(), vec![1, 2, 3]);
}

#[test]
fn async_lazy_hands_out_its_value() {
    let mut a = AsyncLazy::new(|| String::from("tessellated"));
    assert_eq!(a.get(), None);
    a.consume_fn();
    assert_eq!(a.get().map(|s| s.as_str()), Some("tessellated"));
    assert_eq!(a.consume(), Some(String::from("tessellated")));
    let b = AsyncLazy::new(|| 7u8);
    assert_eq!(b.consume(), Some(7));
}

#[test]
fn storage_states() {
    let mut s: LazyStorage<u32, fn() -> u32> = LazyStorage::Stored(Some(5));
    assert_eq!(s.as_ref(), Some(&5));
    assert_eq!(s.consume(), Some(5));
    assert_eq!(s.as_ref(), None);
    assert_eq!(s.consume(), None);
    fn three() -> u32 {
        3
    }
    let mut f: LazyStorage<u32, fn() -> u32> = LazyStorage::Func(three);
    assert_eq!(f.as_ref(), None);
    assert_eq!(f.consume(), None);
    assert!(matches!(f, LazyStorage::Func(_)));
}

fn seek(target: u32) -> impl Fn(&u32) -> Ordering {
    move |x: &u32| x.cmp(&target)
}

#[test]
fn cache_builds_on_a_miss_and_shares_on_a_hit() {
    let mut c: Cache<u32> = Cache::new();
    assert_eq!(c.len(), 0);
    let built = Cell::new(0);
    let a = c.get_or_insert(seek(5), || {
        built.set(built.get() + 1);
        5
    });
    assert_eq!(*a, 5);
    assert_eq!(c.len(), 1);
    let b = c.get_or_insert(seek(5), || {
        built.set(built.get() + 1);
        5
    });
    assert_eq!(built.get(), 1);
    assert!(Rc::ptr_eq(&a, &b));
    assert_eq!(c.len(), 1);
}

#[test]
fn cache_keeps_the_probe_order() {
    let mut c: Cache<u32> = Cache::new();
    for v in [30u32, 10, 20, 50, 40] {
        let r = c.get_or_insert(seek(v), || v);
        assert_eq!(*r, v);
    }
    assert_eq!(c.len(), 5);
    let mut got = Vec::new();
    for v in [10u32, 20, 30, 40, 50] {
        let r = c.get_or_insert(seek(v), || panic!("value {} should be cached", v));
        got.push(*r);
    }
    assert_eq!(got, vec![10, 20, 30, 40, 50]);
    assert_eq!(c.len(), 5);
}
