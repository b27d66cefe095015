//! Rate limits, on a clock of the tests' own.

use xfer::rate::{RateLimiter, MIN_SLEEP, TOKENS_PER_BYTE};
use xfer::task::Task;

const MS: u64 = 1_000_000;
const SEC: u64 = 1_000 * MS;

/// Waits until the bytes are granted, and tells when that is.
fn acquire(l: &mut RateLimiter, n: u64, mut now: u64) -> u64 {
    while let Some(wait) = l.acquire(n, now) {
        now += wait;
    }
    now
}

#[test]
fn unlimited_returns_immediately() {
    let mut l = RateLimiter::new(0, 0);
    assert_eq!(l.acquire(1024 * 1024, 0), None);
    assert_eq!(l.acquire(u64::MAX, 1), None);
}

#[test]
fn limited_paces_throughput() {
    let mut l = RateLimiter::new(1024 * 1024, 0);
    let mut now = 0;
    for _ in 0..8 {
        now = acquire(&mut l, 256 * 1024, now);
    }
    assert!(now >= 400 * MS, "{now}");
    assert!(now < 3 * SEC, "{now}");
}

#[test]
fn rate_change_takes_effect() {
    let mut l = RateLimiter::new(0, 0);
    l.set_rate(0);
    assert_eq!(l.acquire(1, 0), None);
    l.set_rate(512 * 1024);
    assert_eq!(l.rate(), 512 * 1024);
    let now = acquire(&mut l, 512 * 1024, 0);
    assert!(now >= 100 * MS, "{now}");
    assert!(now < 5 * SEC, "{now}");
    // 448 KB are missing at first, at 512 KB a second.
    assert_eq!(now, 875 * MS);
}

#[test]
fn waits_are_bounded_and_tokens_are_counted() {
    let mut l = RateLimiter::new(1_000_000, 0);
    assert_eq!(l.acquire(65_536, 0), None);
    assert_eq!(l.tokens, 0);
    assert_eq!(l.acquire(100, 0), Some(MIN_SLEEP));
    assert_eq!(l.acquire(10_000, 0), Some(10 * MS));
    assert_eq!(l.acquire(10_000_000, 0), Some(50 * MS));
    assert_eq!(l.acquire(1000, MS), None);
    assert_eq!(l.tokens, 0);
    assert!(l.acquire(1, 100 * SEC).is_none());
    assert_eq!(l.tokens, 999_999 * TOKENS_PER_BYTE as u128);
}

#[test]
fn no_more_is_granted_than_the_rate_brings() {
    let mut l = RateLimiter::new(100_000, 0);
    let mut granted = 0u64;
    for i in 0..2000u64 {
        if l.acquire(3_000, i * MS).is_none() {
            granted += 3_000;
        }
    }
    assert!(granted <= 65_536 + 2 * 100_000);
    assert!(granted >= 65_536 + 100_000);
}

#[test]
fn a_task_limit_goes_before_the_overall_one() {
    let make = |opts: Vec<(String, String)>| {
        Task::new("g".to_string(), vec![], "/d".to_string(), None, None, opts)
    };
    let own = make(vec![("max-download-limit".to_string(), "2k".to_string())]);
    assert_eq!(own.http_task_limiter(100, 5).rate(), 2048);
    let plain = make(vec![]);
    let l = plain.http_task_limiter(100, 5);
    assert_eq!((l.rate(), l.last), (100, 5));
}
