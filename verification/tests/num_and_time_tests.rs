use bot::num_utils::{ceil_int, floor_int};
use bot::time_utils::{floor_time_sec, next_sleep_duration_ms, ScheduleExpr, UnixTimeUnit};
use bot::time_queue::TimeQueue;
use chrono::TimeZone;

#[test]
fn test_ceil_int() {
    assert_eq!(ceil_int(123456, 3), 124000);
}

#[test]
fn test_floor_int() {
    assert_eq!(floor_int(123456, 3), 123000);
    assert_eq!(floor_int(-123456, 3), -123000);
    assert_eq!(floor_int(999, 0), 999);
}

#[test]
fn test_unit_conversions() {
    assert_eq!(UnixTimeUnit::Second.to_ms(5), 5_000);
    assert_eq!(UnixTimeUnit::MilliSecond.to_ms(5_000), 5_000);
    assert_eq!(UnixTimeUnit::MicroSecond.to_ms(5_000_500), 5_000);
    assert_eq!(UnixTimeUnit::NanoSecond.to_ms(5_000_500_900), 5_000);
    assert_eq!(UnixTimeUnit::Second.to_ns(2), 2_000_000_000);
    assert_eq!(UnixTimeUnit::MilliSecond.to_ns(2), 2_000_000);
    assert_eq!(UnixTimeUnit::MicroSecond.to_ns(2), 2_000);
    assert_eq!(UnixTimeUnit::NanoSecond.to_ns(2), 2);
}

fn ms(y: i32, mo: u32, d: u32, h: u32, mi: u32, s: u32) -> i64 {
    chrono::Utc
        .with_ymd_and_hms(y, mo, d, h, mi, s)
        .single()
        .unwrap()
        .timestamp_millis()
}

#[test]
fn test_next_sleep_duration_ms() {
    let curr = ms(2023, 1, 1, 0, 0, 15);
    assert_eq!(next_sleep_duration_ms(curr, ScheduleExpr::new(5, 0)), 5000);
    assert_eq!(next_sleep_duration_ms(curr, ScheduleExpr::new(5, 1)), 1000);

    let curr = ms(2023, 1, 1, 0, 0, 56);
    assert_eq!(next_sleep_duration_ms(curr, ScheduleExpr::new(5, 0)), 4000);

    let curr = ms(2023, 1, 1, 0, 15, 10);
    assert_eq!(next_sleep_duration_ms(curr, ScheduleExpr::new(5 * 60, 0)), (5 * 60 - 10) * 1000);
    assert_eq!(next_sleep_duration_ms(curr, ScheduleExpr::new(5 * 60, 60)), (60 - 10) * 1000);
}

#[test]
fn test_new_ahead() {
    let s = ScheduleExpr::new_ahead(60, 5);
    assert_eq!(s.q, 60);
    assert_eq!(s.r, 55);
}

#[test]
fn test_floor_time_sec() {
    assert_eq!(floor_time_sec(125, 60, 0), 120);
    assert_eq!(floor_time_sec(125, 60, 1), 180);
    assert_eq!(floor_time_sec(125, 60, -1), 60);
}

#[test]
fn test_time_queue() {
    // explicit clock: one item per second, window of five seconds
    let mut queue: TimeQueue<i32> = TimeQueue::new(5_000);
    queue.push(0, 1);
    queue.push(1_000, 2);
    queue.push(2_000, 3);
    queue.push(3_000, 4);
    queue.push(4_000, 5);
    assert_eq!(queue.get_data(), vec![&1, &2, &3, &4, &5]);
    queue.retain(4_000);
    assert_eq!(queue.get_data(), vec![&1, &2, &3, &4, &5]);
    // 2.1 seconds later the two oldest items have aged out
    queue.retain(6_100);
    assert_eq!(queue.get_data(), vec![&3, &4, &5]);
}

#[test]
fn test_time_queue_ends() {
    let mut queue: TimeQueue<u8> = TimeQueue::new(100);
    assert!(queue.is_empty());
    assert!(queue.first().is_none());
    assert!(queue.last().is_none());
    queue.push(0, 7);
    queue.extend(1, vec![8, 9]);
    assert_eq!(queue.len(), 3);
    assert_eq!(queue.first(), Some(&7));
    assert_eq!(queue.last(), Some(&9));
}
