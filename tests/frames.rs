use chrono::{TimeZone, Utc};
use even_timeframe::{EvenTimeframe, TimeErr, Timeframe, Timestamp, MAX_SECS, MIN_SECS};

fn utc(y: i32, mo: u32, d: u32, h: u32, mi: u32, s: u32) -> Timestamp {
    let secs = Utc.with_ymd_and_hms(y, mo, d, h, mi, s).unwrap().timestamp();
    Timestamp::new(secs, 0, 0).unwrap()
}

#[test]
fn timeframe_tests() {
    let dt = utc(2014, 7, 8, 9, 10, 11);

    // 60 min window test
    let window = 60;

    // Check 9:00-10:00 / 60 min window
    let base_start_time = utc(2014, 7, 8, 9, 0, 0);
    let base_end_time = utc(2014, 7, 8, 10, 0, 0);
    let even = EvenTimeframe::new(dt, window);
    assert_eq!(even.frame.start, base_start_time);
    assert_eq!(base_end_time, even.frame.end);

    // Check 10:00-11:00 / 60 min window
    let even = even.next();
    let base_start_time = utc(2014, 7, 8, 10, 0, 0);
    let base_end_time = utc(2014, 7, 8, 11, 0, 0);
    assert_eq!(even.frame.start, base_start_time);
    assert_eq!(base_end_time, even.frame.end);

    // 5 min window test
    let window = 5;

    // Check 9:10-9:15 / 5 min window
    let base_start_time = utc(2014, 7, 8, 9, 10, 0);
    let base_end_time = utc(2014, 7, 8, 9, 15, 0);
    let even = EvenTimeframe::new(dt, window);
    assert_eq!(even.frame.start, base_start_time);
    assert_eq!(base_end_time, even.frame.end);

    // Check 9:15-9:20 / 5 min window
    let even = even.next();
    let base_start_time = utc(2014, 7, 8, 9, 15, 0);
    let base_end_time = utc(2014, 7, 8, 9, 20, 0);
    assert_eq!(even.frame.start, base_start_time);
    assert_eq!(base_end_time, even.frame.end);

    // split test
    let window = 5;
    let start = utc(2014, 7, 8, 9, 15, 12);
    let end = utc(2014, 7, 8, 21, 16, 12);
    let chopped = EvenTimeframe::split(Timeframe { start, end }, window).unwrap();
    let first_res = EvenTimeframe::new(start, window);
    assert_eq!(*chopped.first().unwrap(), first_res);
    let last_res = EvenTimeframe::new(end, window);
    assert_eq!(last_res, *chopped.last().unwrap())
}

#[test]
fn new_resolves_window_to_nearest_factor() {
    let dt = utc(2014, 7, 8, 12, 38, 45);
    let even = EvenTimeframe::new(dt, 28);
    assert_eq!(even.get_window(), 30);
    assert_eq!(*even.start(), utc(2014, 7, 8, 12, 30, 0));
    assert_eq!(*even.end(), utc(2014, 7, 8, 13, 0, 0));
    let even = EvenTimeframe::new(utc(2014, 7, 8, 12, 14, 12), 15);
    assert_eq!(*even.start(), utc(2014, 7, 8, 12, 0, 0));
    let even = EvenTimeframe::new(utc(2014, 7, 8, 0, 5, 1), 5);
    assert_eq!(*even.start(), utc(2014, 7, 8, 0, 5, 0));
}

#[test]
fn next_starts_where_frame_ends() {
    for w in [1u32, 4, 7, 12, 60] {
        let even = EvenTimeframe::new(utc(2014, 7, 8, 23, 59, 59), w);
        assert_eq!(even.next().frame.start, even.frame.end);
        assert_eq!(even.next().get_window(), even.get_window());
    }
}

#[test]
fn prev_ends_where_frame_starts() {
    let even = EvenTimeframe::new(utc(2014, 7, 8, 0, 3, 0), 10);
    let prev = even.prev();
    assert_eq!(prev.frame.end, even.frame.start);
    assert_eq!(prev.frame.start, utc(2014, 7, 7, 23, 50, 0));
    assert_eq!(prev.next(), even);
}

#[test]
fn into_even_uses_start() {
    let tf = Timeframe { start: utc(2014, 7, 8, 9, 10, 11), end: utc(2014, 7, 8, 11, 0, 0) };
    assert_eq!(tf.into_even(20), EvenTimeframe::new(tf.start, 20));
    assert_eq!(tf.into_even(20).frame.start, utc(2014, 7, 8, 9, 0, 0));
}

#[test]
fn align_restores_the_frame() {
    let mut even = EvenTimeframe::new(utc(2014, 7, 8, 9, 10, 11), 15);
    even.frame.start = utc(2014, 7, 8, 10, 44, 59);
    assert_eq!(even.align(), Some(()));
    assert_eq!(even.frame.start, utc(2014, 7, 8, 10, 30, 0));
    assert_eq!(even.frame.end, utc(2014, 7, 8, 10, 45, 0));

    let before = {
        let mut e = EvenTimeframe::new(utc(2014, 7, 8, 9, 10, 11), 60);
        e.frame.start = Timestamp::new(MIN_SECS + 61, 0, 1_800).unwrap();
        e
    };
    let mut after = before;
    assert_eq!(after.align(), None);
    assert_eq!(after, before);
}

#[test]
fn to_utc_keeps_instants() {
    let dt = Timestamp::new(utc(2014, 7, 8, 9, 10, 11).secs, 0, 3_600).unwrap();
    let even = EvenTimeframe::new(dt, 30);
    let u = even.to_utc();
    assert_eq!(u.frame.start.secs, even.frame.start.secs);
    assert_eq!(u.frame.end.secs, even.frame.end.secs);
    assert_eq!(u.frame.start.offset, 0);
    assert_eq!(u.get_window(), 30);
}

#[test]
fn split_is_contiguous() {
    let start = utc(2014, 7, 8, 9, 15, 12);
    let end = utc(2014, 7, 8, 21, 16, 12);
    let frames = EvenTimeframe::split(Timeframe { start, end }, 5).unwrap();
    // 09:15 .. 21:20 in 5-minute steps
    assert_eq!(frames.len(), 145);
    for pair in frames.windows(2) {
        assert_eq!(pair[0].frame.end, pair[1].frame.start);
    }
    assert_eq!(frames[0].frame.start, utc(2014, 7, 8, 9, 15, 0));
    assert_eq!(frames[144].frame.end, utc(2014, 7, 8, 21, 20, 0));
    assert_eq!(frames[144].frame.end, end.closest_ceil(5).unwrap());
}

#[test]
fn split_single_frame() {
    let start = utc(2014, 7, 8, 9, 0, 30);
    let end = utc(2014, 7, 8, 9, 3, 40);
    let frames = EvenTimeframe::split(Timeframe { start, end }, 5).unwrap();
    assert_eq!(frames.len(), 1);
    assert_eq!(frames[0], EvenTimeframe::new(start, 5));
}

#[test]
fn split_rejects_empty_and_inverted_ranges() {
    let start = utc(2014, 7, 8, 9, 0, 30);
    let end = utc(2014, 7, 8, 9, 0, 40);
    let r = EvenTimeframe::split(Timeframe { start, end }, 1);
    assert!(matches!(r, Err(TimeErr::Other(_))));
    let r = EvenTimeframe::split(Timeframe { start: end, end: utc(2014, 7, 8, 8, 0, 0) }, 1);
    assert!(matches!(r, Err(TimeErr::Other(_))));
}

#[test]
fn split_rejects_invalid_window() {
    let start = utc(2014, 7, 8, 9, 0, 0);
    let end = utc(2014, 7, 8, 10, 0, 0);
    let r = EvenTimeframe::split(Timeframe { start, end }, 7);
    assert!(matches!(r, Err(TimeErr::Other(_))));
    // 0 clamps to 1 and 90 clamps to 60
    assert_eq!(EvenTimeframe::split(Timeframe { start, end }, 0).unwrap().len(), 60);
    assert_eq!(EvenTimeframe::split(Timeframe { start, end }, 90).unwrap().len(), 1);
}

#[test]
fn split_rejects_fifteen_weeks() {
    let start = utc(2014, 1, 1, 0, 0, 0);
    let end = Timestamp::new(start.secs + 15 * 7 * 24 * 3600, 0, 0).unwrap();
    let r = EvenTimeframe::split(Timeframe { start, end }, 60);
    assert_eq!(r, Err(TimeErr::FrameTooLarge));
    let r = EvenTimeframe::split(Timeframe { start, end: utc(2014, 4, 15, 23, 59, 0) }, 60);
    assert_eq!(r, Err(TimeErr::FrameTooLarge));
    let end = Timestamp::new(end.secs - 3_600, 0, 0).unwrap();
    let frames = EvenTimeframe::split(Timeframe { start, end }, 60).unwrap();
    assert_eq!(frames.len(), 15 * 7 * 24 - 1);
    let frames = EvenTimeframe::split(Timeframe { start, end }, 1).unwrap();
    assert_eq!(frames.len(), (15 * 7 * 24 - 1) * 60);
}

#[test]
fn split_reports_floor_and_ceil_failures() {
    let low = Timestamp::new(MIN_SECS + 61, 0, 1_800).unwrap();
    let r = EvenTimeframe::split(Timeframe { start: low, end: utc(2014, 1, 1, 0, 0, 0) }, 60);
    assert_eq!(r, Err(TimeErr::Floor));
    let high = Timestamp::new(MAX_SECS - 61, 0, 0).unwrap();
    let near = Timestamp::new(MAX_SECS - 7_200, 0, 0).unwrap();
    let r = EvenTimeframe::split(Timeframe { start: near, end: high }, 60);
    assert_eq!(r, Err(TimeErr::Ceil));
}

#[test]
fn try_new_validates_strictly() {
    let dt = utc(2014, 7, 8, 9, 10, 11);
    assert!(matches!(EvenTimeframe::try_new(dt, 7), Err(TimeErr::Other(_))));
    assert_eq!(EvenTimeframe::try_new(dt, 15), Ok(EvenTimeframe::new(dt, 15)));
    assert_eq!(EvenTimeframe::try_new(dt, 0).unwrap().get_window(), 1);
    let high = Timestamp::new(MAX_SECS - 30, 0, 0).unwrap();
    assert_eq!(EvenTimeframe::try_new(high, 60), Err(TimeErr::Floor));
}
