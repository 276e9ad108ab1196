use unfold::{try_unfold, unfold};

#[test]
fn test_unfold() {
    let mut iter = unfold(0, |&x: &i32| x + 1);
    assert_eq!(iter.next(), Some(0));
    assert_eq!(iter.next(), Some(1));
    assert_eq!(iter.next(), Some(2));
}

#[test]
fn test_try_unfold() {
    let mut iter = try_unfold(0, |&x: &i32| if x < 2 { Some(x + 1) } else { None });
    assert_eq!(iter.next(), Some(0));
    assert_eq!(iter.next(), Some(1));
    assert_eq!(iter.next(), Some(2));
    assert_eq!(iter.next(), None);
}

#[test]
fn unfold_applies_the_step_each_time() {
    let mut iter = unfold(1u64, |&x: &u64| x * 2);
    let mut expected = 1u64;
    for _ in 0..20 {
        assert_eq!(iter.next(), Some(expected));
        expected *= 2;
    }
}

#[test]
fn unfold_never_exhausts() {
    let mut iter = unfold(0u32, |&x: &u32| x + 1);
    for i in 0..1000u32 {
        assert_eq!(iter.next(), Some(i));
    }
}

#[test]
fn unfold_with_owned_state() {
    let mut iter = unfold(String::from("a"), |s: &String| format!("{}b", s));
    assert_eq!(iter.next(), Some(String::from("a")));
    assert_eq!(iter.next(), Some(String::from("ab")));
    assert_eq!(iter.next(), Some(String::from("abb")));
}

#[test]
fn try_unfold_counts_down_to_exhaustion() {
    let mut iter = try_unfold(3, |&x: &i32| if x > 0 { Some(x - 1) } else { None });
    assert_eq!(iter.next(), Some(3));
    assert_eq!(iter.next(), Some(2));
    assert_eq!(iter.next(), Some(1));
    assert_eq!(iter.next(), Some(0));
    assert_eq!(iter.next(), None);
}

#[test]
fn try_unfold_immediate_exhaustion() {
    let mut iter = try_unfold(5, |_: &i32| None);
    assert_eq!(iter.next(), Some(5));
    assert_eq!(iter.next(), None);
}

#[test]
fn try_unfold_exhaustion_is_permanent() {
    let mut iter = try_unfold(0, |&x: &i32| if x < 1 { Some(x + 1) } else { None });
    assert_eq!(iter.next(), Some(0));
    assert_eq!(iter.next(), Some(1));
    for _ in 0..100 {
        assert_eq!(iter.next(), None);
    }
}

#[test]
fn try_unfold_does_not_call_the_step_until_advanced() {
    let iter = try_unfold(1, |_: &i32| -> Option<i32> { panic!() });
    drop(iter);
}

#[test]
fn unfold_does_not_call_the_step_until_advanced() {
    let iter = unfold(1, |_: &i32| -> i32 { panic!() });
    drop(iter);
}
