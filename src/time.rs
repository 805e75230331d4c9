use vstd::prelude::*;
use vstd::arithmetic::div_mod::{
    lemma_fundamental_div_mod, lemma_fundamental_div_mod_converse, lemma_mod_multiples_basic,
};
use crate::window::{clamp_window, clamp_window_spec, valid_window, TimeWindow};

verus! {

/// Earliest supported instant, in seconds since the Unix epoch
/// (the first second of year -262143).
pub const MIN_SECS: i64 = -8_334_601_315_200;

/// Latest supported instant, in seconds since the Unix epoch
/// (the last second of year 262142).
pub const MAX_SECS: i64 = 8_210_266_876_799;

/// Largest magnitude of an offset from UTC, in seconds.
pub const MAX_OFFSET: i32 = 86_399;

/// Nanoseconds in one second.
pub const NANOS_PER_SEC: u32 = 1_000_000_000;

/// A whole number of hours larger than the magnitude of any local time in
/// seconds; adding it makes a local time non-negative without moving it
/// within its hour.
const HOUR_SHIFT: i64 = 10_800_000_000_000;

/// A point in time with the offset of the zone it is read in. Equality and
/// order compare the instant first, then the offset.
#[derive(Clone, Copy, Debug, PartialEq, Eq, Structural, PartialOrd, Ord, Hash)]
pub struct Timestamp {
    /// Whole seconds since 1970-01-01T00:00:00Z.
    pub secs: i64,
    /// Sub-second part, in nanoseconds.
    pub nanos: u32,
    /// Offset of local time from UTC, in seconds east.
    pub offset: i32,
}

impl Timestamp {
    /// The instant lies in the supported range, the sub-second part is
    /// below one second, and the offset is less than a day.
    pub open spec fn wf(&self) -> bool {
        &&& in_range(self.secs as int)
        &&& self.nanos < NANOS_PER_SEC
        &&& -MAX_OFFSET <= self.offset <= MAX_OFFSET
    }

    /// Builds a timestamp from its parts, or `None` when they are out of range.
    pub fn new(secs: i64, nanos: u32, offset: i32) -> (r: Option<Timestamp>)
        ensures
            r == (if (Timestamp { secs, nanos, offset }).wf() {
                Some(Timestamp { secs, nanos, offset })
            } else {
                None
            }),
    {
        if MIN_SECS <= secs && secs <= MAX_SECS && nanos < NANOS_PER_SEC && -MAX_OFFSET <= offset
            && offset <= MAX_OFFSET {
            Some(Timestamp { secs, nanos, offset })
        } else {
            None
        }
    }

    /// The same instant read in UTC.
    pub fn to_utc(&self) -> (r: Timestamp)
        ensures
            r == (Timestamp { offset: 0, ..*self }),
    {
        Timestamp { secs: self.secs, nanos: self.nanos, offset: 0 }
    }

    /// The minute of the hour of local time.
    pub fn minute(&self) -> (r: u32)
        requires
            self.wf(),
        ensures
            r == minute_of(*self),
            r < 60,
    {
        local_minute_second(self).0
    }

    /// The second of the minute of local time.
    pub fn second(&self) -> (r: u32)
        requires
            self.wf(),
        ensures
            r == second_of(*self),
            r < 60,
    {
        local_minute_second(self).1
    }

    /// Rounds down to the nearest window boundary of local time: the minute
    /// becomes the largest multiple of the window not above it, and the
    /// second and sub-second parts become zero. `None` when the window does
    /// not divide 60 after clamping, or the result leaves the supported range.
    pub fn closest_floor(&self, window: TimeWindow) -> (r: Option<Timestamp>)
        requires
            self.wf(),
        ensures
            r == floor_spec(*self, window),
            r matches Some(f) ==> f.wf() && is_aligned(f, clamp_window_spec(window)->Some_0 as int),
    {
        let w = match clamp_window(window) {
            Some(w) => w,
            None => return None,
        };
        let (minute, second) = local_minute_second(self);
        proof {
            lemma_floor_minute(minute as int, w as int);
        }
        let target: u32 = (minute / w) * w;
        let secs: i64 = self.secs - second as i64 - ((minute - target) as i64) * 60;
        proof {
            if in_range(secs as int) {
                lemma_floor_parts(*self, w as int);
            }
        }
        if secs < MIN_SECS || secs > MAX_SECS {
            None
        } else {
            Some(Timestamp { secs, nanos: 0, offset: self.offset })
        }
    }

    /// Rounds up to the nearest window boundary of local time, reading only
    /// the minute: the minute becomes the smallest multiple of the window not
    /// below it (the next hour when that is 60), and the second and
    /// sub-second parts become zero. `None` when the window does not divide
    /// 60 after clamping, or the result leaves the supported range.
    pub fn closest_ceil(&self, window: TimeWindow) -> (r: Option<Timestamp>)
        requires
            self.wf(),
        ensures
            r == ceil_spec(*self, window),
            r matches Some(c) ==> c.wf() && is_aligned(c, clamp_window_spec(window)->Some_0 as int),
    {
        let w = match clamp_window(window) {
            Some(w) => w,
            None => return None,
        };
        let (minute, second) = local_minute_second(self);
        proof {
            lemma_ceil_minute(minute as int, w as int);
        }
        let target: u32 = ((minute + w - 1) / w) * w;
        let secs: i64 = self.secs - second as i64 + ((target - minute) as i64) * 60;
        proof {
            if in_range(secs as int) {
                lemma_ceil_parts(*self, w as int);
            }
        }
        if secs < MIN_SECS || secs > MAX_SECS {
            None
        } else {
            Some(Timestamp { secs, nanos: 0, offset: self.offset })
        }
    }
}

/// Seconds since the epoch of local time.
pub open spec fn local_secs(t: Timestamp) -> int {
    t.secs + t.offset
}

/// The minute of the hour of local time.
pub open spec fn minute_of(t: Timestamp) -> int {
    (local_secs(t) % 3600) / 60
}

/// The second of the minute of local time.
pub open spec fn second_of(t: Timestamp) -> int {
    local_secs(t) % 60
}

pub open spec fn in_range(secs: int) -> bool {
    MIN_SECS <= secs <= MAX_SECS
}

/// `t`'s offset at instant `secs`, with no sub-second part.
pub open spec fn at_secs(t: Timestamp, secs: int) -> Timestamp {
    Timestamp { secs: secs as i64, nanos: 0, offset: t.offset }
}

/// `t` moved by `m` minutes.
pub open spec fn plus_minutes(t: Timestamp, m: int) -> Timestamp {
    Timestamp { secs: (t.secs + 60 * m) as i64, nanos: t.nanos, offset: t.offset }
}

/// Lies on a boundary of a `w`-minute window of local time.
pub open spec fn is_aligned(t: Timestamp, w: int) -> bool {
    t.nanos == 0 && second_of(t) == 0 && minute_of(t) % w == 0
}

/// Instant order: `a` is not later than `b`.
pub open spec fn not_after(a: Timestamp, b: Timestamp) -> bool {
    a.secs < b.secs || (a.secs == b.secs && a.nanos <= b.nanos)
}

/// The instant of the floor of `t` on a `w`-minute window.
pub open spec fn floor_secs(t: Timestamp, w: int) -> int {
    t.secs - second_of(t) + ((minute_of(t) / w) * w - minute_of(t)) * 60
}

/// The instant of the ceiling of `t` on a `w`-minute window.
pub open spec fn ceil_secs(t: Timestamp, w: int) -> int {
    t.secs - second_of(t) + (((minute_of(t) + w - 1) / w) * w - minute_of(t)) * 60
}

pub open spec fn floor_spec(t: Timestamp, window: u32) -> Option<Timestamp> {
    match clamp_window_spec(window) {
        None => None,
        Some(w) => if in_range(floor_secs(t, w as int)) {
            Some(at_secs(t, floor_secs(t, w as int)))
        } else {
            None
        },
    }
}

pub open spec fn ceil_spec(t: Timestamp, window: u32) -> Option<Timestamp> {
    match clamp_window_spec(window) {
        None => None,
        Some(w) => if in_range(ceil_secs(t, w as int)) {
            Some(at_secs(t, ceil_secs(t, w as int)))
        } else {
            None
        },
    }
}

/// The floor lies on a window boundary, not after `t`.
pub proof fn lemma_floor_parts(t: Timestamp, w: int)
    requires
        t.wf(),
        valid_window(w),
        in_range(floor_secs(t, w)),
    ensures
        is_aligned(at_secs(t, floor_secs(t, w)), w),
        floor_secs(t, w) <= t.secs,
        floor_secs(t, w) == t.secs ==> second_of(t) == 0 && minute_of(t) % w == 0,
{
    let m = minute_of(t);
    lemma_local_parts(t);
    lemma_floor_minute(m, w);
    let target = (m / w) * w;
    lemma_set_minute(t.secs + t.offset, target);
    lemma_mod_multiples_basic(m / w, w);
    lemma_fundamental_div_mod(m, w);
    assert((m / w) * w == w * (m / w)) by (nonlinear_arith);
}

/// The ceiling lies on a window boundary, in the minute of `t` or later.
pub proof fn lemma_ceil_parts(t: Timestamp, w: int)
    requires
        t.wf(),
        valid_window(w),
        in_range(ceil_secs(t, w)),
    ensures
        is_aligned(at_secs(t, ceil_secs(t, w)), w),
        ceil_secs(t, w) >= t.secs - second_of(t),
        minute_of(t) % w != 0 ==> ceil_secs(t, w) > t.secs,
{
    let m = minute_of(t);
    let q = (m + w - 1) / w;
    lemma_local_parts(t);
    lemma_ceil_minute(m, w);
    let target = q * w;
    lemma_mod_multiples_basic(q, w);
    let c = at_secs(t, ceil_secs(t, w));
    if target < 60 {
        lemma_set_minute(t.secs + t.offset, target);
        assert(local_secs(c) == 3600 * ((t.secs + t.offset) / 3600) + 60 * target);
        assert(minute_of(c) == target);
        assert(second_of(c) == 0);
        assert(target % w == 0);
        assert(is_aligned(c, w));
    } else {
        let l = t.secs + t.offset;
        lemma_set_minute(l + 3600, 0);
        assert((l + 3600) / 3600 == l / 3600 + 1) by {
            lemma_fundamental_div_mod_converse(l + 3600, 3600, l / 3600 + 1, l % 3600);
        }
        assert(local_secs(c) == 3600 * ((l + 3600) / 3600));
        assert(minute_of(c) == 0);
        assert(second_of(c) == 0);
        assert(is_aligned(c, w));
    }
    assert(is_aligned(c, w));
    if m % w != 0 {
        lemma_fundamental_div_mod(m, w);
        lemma_fundamental_div_mod(m + w - 1, w);
        assert(q * w > m) by (nonlinear_arith)
            requires
                m == w * (m / w) + m % w,
                m + w - 1 == w * q + (m + w - 1) % w,
                0 < m % w < w,
                0 <= (m + w - 1) % w < w,
        ;
    }
}

/// Local time on a window boundary is a whole number of windows.
pub proof fn lemma_aligned_multiple(t: Timestamp, w: int)
    requires
        is_aligned(t, w),
        valid_window(w),
    ensures
        local_secs(t) % (60 * w) == 0,
{
    let l = local_secs(t);
    lemma_local_parts(t);
    let h = l / 3600;
    let m = minute_of(t);
    let a = m / w;
    let b = 60int / w;
    lemma_fundamental_div_mod(m, w);
    lemma_fundamental_div_mod(60int, w);
    assert(l == (b * h + a) * (60 * w)) by (nonlinear_arith)
        requires
            l == 3600 * h + 60 * m,
            m == w * a,
            60 == w * b,
    ;
    lemma_fundamental_div_mod_converse(l, 60 * w, b * h + a, 0);
}

/// Off a boundary minute, the ceiling is one window after the floor.
pub proof fn lemma_ceil_after_floor(t: Timestamp, w: int)
    requires
        valid_window(w),
        minute_of(t) % w != 0,
    ensures
        ceil_secs(t, w) == floor_secs(t, w) + 60 * w,
{
    let m = minute_of(t);
    lemma_fundamental_div_mod(m, w);
    let a = m / w;
    assert((a + 1) * w == w * a + w && a * w == w * a) by (nonlinear_arith);
    lemma_fundamental_div_mod_converse(m + w - 1, w, a + 1, m % w - 1);
}

/// Flooring on a valid window never moves a timestamp later, and lands on
/// a whole minute.
pub proof fn lemma_floor_not_after(t: Timestamp, w: u32)
    requires
        t.wf(),
        valid_window(w as int),
    ensures
        floor_spec(t, w) matches Some(f) ==> not_after(f, t) && second_of(f) == 0 && f.nanos == 0,
{
    if in_range(floor_secs(t, w as int)) {
        lemma_floor_parts(t, w as int);
    }
}

/// Ceiling on a valid window never moves a timestamp earlier, and lands on
/// a whole minute. The ceiling reads only the minute, so this is stated of
/// timestamps off a boundary minute or with no seconds.
pub proof fn lemma_ceil_not_before(t: Timestamp, w: u32)
    requires
        t.wf(),
        valid_window(w as int),
        minute_of(t) % (w as int) != 0 || (second_of(t) == 0 && t.nanos == 0),
    ensures
        ceil_spec(t, w) matches Some(c) ==> not_after(t, c) && second_of(c) == 0 && c.nanos == 0,
{
    if in_range(ceil_secs(t, w as int)) {
        lemma_ceil_parts(t, w as int);
    }
}

/// A timestamp already on a window boundary is its own floor and ceiling.
pub proof fn lemma_aligned_unchanged(t: Timestamp, w: u32)
    requires
        t.wf(),
        valid_window(w as int),
        is_aligned(t, w as int),
    ensures
        floor_spec(t, w) == Some(t),
        ceil_spec(t, w) == Some(t),
{
    let m = minute_of(t);
    let wi = w as int;
    lemma_local_parts(t);
    lemma_fundamental_div_mod(m, wi);
    let a = m / wi;
    lemma_fundamental_div_mod_converse(m + wi - 1, wi, a, wi - 1);
    assert(a * wi == wi * a) by (nonlinear_arith);
}

/// A window that fails validation makes both flooring and ceiling fail.
pub proof fn lemma_invalid_window_rejected(t: Timestamp, w: u32)
    requires
        clamp_window_spec(w) is None,
    ensures
        floor_spec(t, w) is None,
        ceil_spec(t, w) is None,
{
}

proof fn lemma_decompose(l: int, h: int, m: int, s: int)
    requires
        0 <= m < 60,
        0 <= s < 60,
        l == 3600 * h + 60 * m + s,
    ensures
        (l % 3600) / 60 == m,
        l % 60 == s,
        l / 3600 == h,
{
    lemma_fundamental_div_mod_converse(l, 3600, h, 60 * m + s);
    lemma_fundamental_div_mod_converse(60 * m + s, 60, m, s);
    lemma_fundamental_div_mod_converse(l, 60, 60 * h + m, s);
}

/// Local time is its hour, minute and second.
proof fn lemma_local_parts(t: Timestamp)
    ensures
        0 <= minute_of(t) < 60,
        0 <= second_of(t) < 60,
        local_secs(t) == 3600 * (local_secs(t) / 3600) + 60 * minute_of(t) + second_of(t),
{
    let l = local_secs(t);
    lemma_fundamental_div_mod(l, 3600);
    lemma_fundamental_div_mod(l % 3600, 60);
    lemma_decompose(l, l / 3600, (l % 3600) / 60, (l % 3600) % 60);
}

/// Setting the minute of local time `l` to `k` and its second to zero.
proof fn lemma_set_minute(l: int, k: int)
    requires
        0 <= k < 60,
    ensures
        ((3600 * (l / 3600) + 60 * k) % 3600) / 60 == k,
        (3600 * (l / 3600) + 60 * k) % 60 == 0,
{
    lemma_decompose(3600 * (l / 3600) + 60 * k, l / 3600, k, 0);
}

proof fn lemma_floor_minute(m: int, w: int)
    requires
        0 <= m < 60,
        valid_window(w),
    ensures
        0 <= (m / w) * w <= m,
{
    lemma_fundamental_div_mod(m, w);
    assert((m / w) * w == w * (m / w)) by (nonlinear_arith);
    assert(0 <= m / w);
    assert(0 <= (m / w) * w) by (nonlinear_arith)
        requires
            0 <= m / w,
            0 < w,
    ;
}

proof fn lemma_ceil_minute(m: int, w: int)
    requires
        0 <= m < 60,
        valid_window(w),
    ensures
        m <= ((m + w - 1) / w) * w <= 60,
        ((m + w - 1) / w) * w < 60 || ((m + w - 1) / w) * w == 60,
{
    let q = (m + w - 1) / w;
    let r = (m + w - 1) % w;
    let b = 60int / w;
    lemma_fundamental_div_mod(m + w - 1, w);
    lemma_fundamental_div_mod(60int, w);
    assert(q * w == w * q) by (nonlinear_arith);
    assert(w * q <= 60) by (nonlinear_arith)
        requires
            m + w - 1 == w * q + r,
            0 <= r,
            60 == w * b,
            m < 60,
            w > 0,
    ;
}

/// Moving an aligned timestamp by a whole number of windows keeps it aligned.
pub proof fn lemma_aligned_shift(t: Timestamp, w: int, k: int)
    requires
        is_aligned(t, w),
        valid_window(w),
        in_range(t.secs + 60 * (w * k)),
    ensures
        is_aligned(plus_minutes(t, w * k), w),
{
    let l = local_secs(t);
    lemma_local_parts(t);
    let h = l / 3600;
    let m = minute_of(t);
    let a = m / w;
    let b = 60int / w;
    lemma_fundamental_div_mod(m, w);
    lemma_fundamental_div_mod(60int, w);
    let n = a + k;
    let q = n / b;
    let r = n % b;
    assert(b > 0) by (nonlinear_arith)
        requires
            60 == w * b,
            w > 0,
    ;
    lemma_fundamental_div_mod(n, b);
    assert(60 * (w * k) + 60 * m == 3600 * q + 60 * (w * r)) by (nonlinear_arith)
        requires
            n == b * q + r,
            60 == w * b,
            n == a + k,
            m == w * a,
    ;
    assert(0 <= w * r < 60) by (nonlinear_arith)
        requires
            0 <= r < b,
            w > 0,
            w * b == 60,
    ;
    let l2 = local_secs(plus_minutes(t, w * k));
    assert(l2 == 3600 * (h + q) + 60 * (w * r));
    lemma_decompose(l2, h + q, w * r, 0);
    lemma_mod_multiples_basic(r, w);
    assert(w * r == r * w) by (nonlinear_arith);
}

/// The local minute and second of `t`.
fn local_minute_second(t: &Timestamp) -> (r: (u32, u32))
    requires
        t.wf(),
    ensures
        r.0 == minute_of(*t),
        r.1 == second_of(*t),
        r.0 < 60,
        r.1 < 60,
{
    let shifted: i64 = t.secs + t.offset as i64 + HOUR_SHIFT;
    let x: u64 = shifted as u64;
    let hour: u64 = x / 3600;
    let in_hour: u64 = x % 3600;
    let minute: u64 = in_hour / 60;
    let second: u64 = in_hour % 60;
    proof {
        lemma_fundamental_div_mod(x as int, 3600);
        lemma_fundamental_div_mod(in_hour as int, 60);
        lemma_decompose(
            local_secs(*t),
            hour as int - 3_000_000_000,
            minute as int,
            second as int,
        );
    }
    (minute as u32, second as u32)
}

} // verus!
