use interop_bridge::counter::{Counter, CounterRegistry, TokenError};
use interop_bridge::dot::{checked_dot_product, dot_product};
use interop_bridge::marshal::{hello, Main};
use interop_bridge::progress::{ProgressWorker, PROGRESS_INTERVAL_MS, PROGRESS_STEPS};

#[test]
fn hello_world() {
    assert_eq!(hello("World"), "Hello World");
}

#[test]
fn hello_empty() {
    assert_eq!(hello(""), "Hello ");
}

#[test]
fn main_hello() {
    assert_eq!(Main::hello(String::from("World")), "Hello World");
}

#[test]
fn dot_product_example() {
    assert_eq!(dot_product(&[1, 2, 3], &[4, 5, 6]), 32);
}

#[test]
fn dot_product_commutes() {
    let a = [3, -7, 11, 0, 5];
    let b = [-2, 4, 9, 8, -1];
    assert_eq!(dot_product(&a, &b), dot_product(&b, &a));
    assert_eq!(dot_product(&a, &b), -6 - 28 + 99 + 0 - 5);
}

#[test]
fn dot_product_zips_overlapping_prefix() {
    let a = [1, 2, 3];
    let b = [4, 5, 6, 100, 1000];
    assert_eq!(dot_product(&a, &b), 32);
    assert_eq!(dot_product(&b, &a), 32);
}

#[test]
fn dot_product_empty() {
    assert_eq!(dot_product(&[], &[1, 2]), 0);
    assert_eq!(checked_dot_product(&[], &[]), Some(0));
}

#[test]
fn checked_dot_product_in_range() {
    assert_eq!(checked_dot_product(&[1, 2, 3], &[4, 5, 6]), Some(32));
    assert_eq!(checked_dot_product(&[i64::MAX], &[1]), Some(i64::MAX));
}

#[test]
fn checked_dot_product_product_overflow() {
    assert_eq!(checked_dot_product(&[i64::MAX, 1], &[2, 1]), None);
}

#[test]
fn checked_dot_product_sum_overflow() {
    assert_eq!(checked_dot_product(&[i64::MAX, 1], &[1, 1]), None);
}

#[test]
fn main_dot_product() {
    assert_eq!(Main::dotProduct(vec![1, 2, 3], vec![4, 5, 6, 7, 8]), 32);
}

#[test]
fn counter_starts_at_zero_and_counts() {
    let mut c = Counter::new("callback");
    assert_eq!(c.count(), 0);
    assert_eq!(c.inc(), 1);
    assert_eq!(c.inc(), 2);
    assert_eq!(c.count(), 2);
    assert_eq!(*c.callback(), "callback");
    assert_eq!(c.into_callback(), "callback");
}

#[test]
fn registry_increments_notify_one_to_n() {
    let mut reg: CounterRegistry<u32> = CounterRegistry::new();
    let t = reg.create(42).unwrap();
    assert_eq!(reg.count(t), Some(0));
    let mut seen = Vec::new();
    for _ in 0..5 {
        seen.push(reg.increment(t).unwrap());
    }
    assert_eq!(seen, vec![1, 2, 3, 4, 5]);
    assert_eq!(reg.count(t), Some(5));
    assert_eq!(reg.callback(t), Some(&42));
}

#[test]
fn registry_tokens_are_distinct_and_independent() {
    let mut reg: CounterRegistry<&str> = CounterRegistry::new();
    let a = reg.create("a").unwrap();
    let b = reg.create("b").unwrap();
    assert_eq!(a, 1);
    assert_eq!(b, 2);
    assert_eq!(reg.increment(a), Ok(1));
    assert_eq!(reg.increment(a), Ok(2));
    assert_eq!(reg.increment(b), Ok(1));
    assert_eq!(reg.callback(b), Some(&"b"));
}

#[test]
fn registry_destroy_hands_back_callback() {
    let mut reg: CounterRegistry<String> = CounterRegistry::new();
    let t = reg.create(String::from("cb")).unwrap();
    reg.increment(t).unwrap();
    let counter = reg.destroy(t).unwrap();
    assert_eq!(counter.count(), 1);
    assert_eq!(counter.into_callback(), "cb");
    assert_eq!(reg.callback(t), None);
    assert_eq!(reg.count(t), None);
}

#[test]
fn registry_destroyed_token_is_refused() {
    let mut reg: CounterRegistry<u8> = CounterRegistry::new();
    let t = reg.create(1).unwrap();
    assert!(reg.destroy(t).is_ok());
    assert_eq!(reg.increment(t), Err(TokenError::InvalidToken));
    assert!(matches!(reg.destroy(t), Err(TokenError::InvalidToken)));
    let u = reg.create(2).unwrap();
    assert_ne!(u, t);
    assert_eq!(reg.increment(t), Err(TokenError::InvalidToken));
}

#[test]
fn registry_unknown_token_is_refused() {
    let mut reg: CounterRegistry<u8> = CounterRegistry::new();
    assert_eq!(reg.increment(0), Err(TokenError::InvalidToken));
    assert_eq!(reg.increment(99), Err(TokenError::InvalidToken));
    assert!(reg.destroy(5).is_err());
}

#[test]
fn progress_full_run() {
    let mut w = ProgressWorker::new();
    assert!(!w.is_finished());
    let mut seen = Vec::new();
    while let Some(p) = w.next_progress() {
        seen.push(p);
    }
    assert_eq!(seen, vec![0, 10, 20, 30, 40, 50, 60, 70, 80, 90, 100]);
    assert_eq!(seen.len() as u64, PROGRESS_STEPS);
    assert!(w.is_finished());
    assert_eq!(w.next_progress(), None);
    assert_eq!(PROGRESS_INTERVAL_MS, 1000);
}

#[test]
fn progress_abort_stops_run() {
    let mut w = ProgressWorker::new();
    assert_eq!(w.next_progress(), Some(0));
    assert_eq!(w.next_progress(), Some(10));
    w.abort();
    assert!(w.is_finished());
    assert_eq!(w.next_progress(), None);
}
