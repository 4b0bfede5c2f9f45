use coro_core::lazy::sync;
use coro_core::lazy::unsync;
use coro_core::poison::{map_result, Flag};
use coro_core::textproto::trim_string;

#[test]
fn unsync_once_cell() {
    let mut cell: unsync::OnceCell<i32> = unsync::OnceCell::new();
    assert!(cell.get().is_none());
    assert_eq!(cell.set(92), Ok(()));
    assert_eq!(cell.set(62), Err(62));
    assert_eq!(cell.get(), Some(&92));

    let value = cell.get_or_init(|| unreachable!());
    assert_eq!(value, &92);

    assert_eq!(cell.take(), Some(92));
    assert!(cell.get().is_none());
    let value = cell.get_or_init(|| 7);
    assert_eq!(value, &7);
    assert_eq!(cell.into_inner(), Some(7));
}

#[test]
fn unsync_get_or_try_init() {
    let mut cell: unsync::OnceCell<i32> = unsync::OnceCell::new();
    assert_eq!(cell.get_or_try_init(|| Err(())), Err(()));
    assert!(cell.get().is_none());
    let value: Result<&i32, ()> = cell.get_or_try_init(|| Ok(92));
    assert_eq!(value, Ok(&92));
    assert_eq!(cell.get(), Some(&92));
}

#[test]
fn unsync_lazy() {
    let mut lazy: unsync::Lazy<i32> = unsync::Lazy::new(|| 92);
    assert_eq!(unsync::Lazy::force(&mut lazy), &92);
    assert_eq!(unsync::Lazy::force(&mut lazy), &92);
    assert_eq!(unsync::Lazy::into_value(lazy), Ok(92));

    let fresh: unsync::Lazy<i32> = unsync::Lazy::new(|| 5);
    match unsync::Lazy::into_value(fresh) {
        Ok(_) => panic!("an unforced lazy value returns its initializer"),
        Err(f) => assert_eq!(f(), 5),
    }
}

#[test]
fn sync_once_cell() {
    let mut cell: sync::OnceCell<String> = sync::OnceCell::new();
    assert!(cell.get().is_none());
    assert_eq!(cell.set("hello".to_string()), Ok(()));
    assert_eq!(cell.set("other".to_string()), Err("other".to_string()));
    assert_eq!(cell.get(), Some(&"hello".to_string()));

    if let Some(v) = cell.get_mut() {
        v.push('!');
    }
    assert_eq!(cell.get(), Some(&"hello!".to_string()));

    assert_eq!(cell.take(), Some("hello!".to_string()));
    assert_eq!(cell.take(), None);

    let mut cell2: sync::OnceCell<i32> = sync::OnceCell::new();
    assert_eq!(cell2.get_or_init(|| 3), &3);
    assert_eq!(cell2.into_inner(), Some(3));

    let cell3: sync::OnceCell<i32> = sync::OnceCell::default();
    assert_eq!(cell3.into_inner(), None);
}

#[test]
fn sync_lazy() {
    let mut lazy: sync::Lazy<Vec<u32>> = sync::Lazy::new(|| vec![1, 2, 3]);
    assert_eq!(sync::Lazy::force(&mut lazy), &vec![1, 2, 3]);
    assert_eq!(sync::Lazy::into_value(lazy), Ok(vec![1, 2, 3]));
}

#[test]
fn poison_flag() {
    let mut f = Flag::new();
    assert!(!f.get());
    f.set();
    assert!(f.get());
}

#[test]
fn map_result_maps_ok() {
    let r: std::sync::LockResult<i32> = Ok(20);
    let mapped = map_result(r, |v| v + 1);
    assert_eq!(mapped.unwrap(), 21);

    let poisoned: std::sync::LockResult<i32> =
        Err(std::sync::PoisonError::new(5));
    let mapped = map_result(poisoned, |v| v + 1);
    match mapped {
        Ok(_) => panic!("a poisoned result stays poisoned"),
        Err(e) => assert_eq!(e.into_inner(), 6),
    }
}

#[test]
fn trim_string_cases() {
    assert_eq!(trim_string("  abc\t"), "abc");
    assert_eq!(trim_string("\r\nabc"), "abc");
    assert_eq!(trim_string("abc"), "abc");
    assert_eq!(trim_string(" \t\r\n"), "");
    assert_eq!(trim_string(""), "");
    assert_eq!(trim_string(" a b "), "a b");
}
