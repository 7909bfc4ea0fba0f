use durable_streams_reference::protocol::cursor::{cursor_text, generate, SEQ_BITS};
use durable_streams_reference::protocol::offset::Offset;
use std::sync::atomic::AtomicU64;

#[test]
fn test_cursor_is_digits_only() {
    let last = AtomicU64::new(0);
    let offset = Offset::new(3, 26);
    let cursor = generate(&last, &offset);
    assert!(cursor.chars().all(|c| c.is_ascii_digit()));
}

#[test]
fn test_cursor_is_monotonic() {
    let last = AtomicU64::new(0);
    let offset = Offset::new(0, 0);
    let c1: u64 = generate(&last, &offset).parse().unwrap();
    let c2: u64 = generate(&last, &offset).parse().unwrap();
    assert!(c2 > c1);
}

#[test]
fn test_cursor_fits_in_js_max_safe_integer() {
    let last = AtomicU64::new(0);
    let offset = Offset::new(0, 0);
    let cursor: u64 = generate(&last, &offset).parse().unwrap();
    // JavaScript Number.MAX_SAFE_INTEGER = 2^53 - 1
    assert!(cursor <= (1_u64 << 53) - 1);
}

#[test]
fn test_cursor_encodes_time() {
    let last = AtomicU64::new(0);
    let offset = Offset::new(0, 0);
    let cursor: u64 = generate(&last, &offset).parse().unwrap();
    // Extract timestamp portion: should be reasonable (> 0, i.e. after 2024)
    let ts = cursor >> SEQ_BITS;
    assert!(ts > 0, "timestamp portion should be positive");
}

#[test]
fn cursor_text_starts_a_new_millisecond_at_its_base() {
    // 2024-01-01T00:00:01Z is 1000 ms after the custom epoch.
    let now = 1_704_067_201_000_i64;
    assert_eq!(cursor_text(now, 0), (1000_u64 << 10).to_string());
}

#[test]
fn cursor_text_counts_within_one_millisecond() {
    let now = 1_704_067_201_000_i64;
    let base = 1000_u64 << 10;
    assert_eq!(cursor_text(now, base), (base + 1).to_string());
    assert_eq!(cursor_text(now, base + 7), (base + 8).to_string());
}

#[test]
fn cursor_text_never_goes_back_when_the_clock_does() {
    let later = 5000_u64 << 10;
    let earlier_now = 1_704_067_201_000_i64;
    assert_eq!(cursor_text(earlier_now, later), (later + 1).to_string());
}

#[test]
fn cursor_text_before_the_epoch_has_no_time_part() {
    assert_eq!(cursor_text(0, 0), "1");
    assert_eq!(cursor_text(0, 41), "42");
}

#[test]
fn generate_follows_a_later_last_value() {
    let last = AtomicU64::new(u64::MAX / 2);
    let offset = Offset::new(0, 0);
    let cursor: u64 = generate(&last, &offset).parse().unwrap();
    assert_eq!(cursor, u64::MAX / 2 + 1);
}
