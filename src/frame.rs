use vstd::prelude::*;
use vstd::arithmetic::div_mod::{lemma_fundamental_div_mod, lemma_fundamental_div_mod_converse};
use crate::error::TimeErr;
use crate::time::{
    at_secs, ceil_secs, ceil_spec, floor_secs, in_range, is_aligned, lemma_aligned_multiple,
    lemma_aligned_shift, lemma_ceil_after_floor, lemma_ceil_parts, lemma_floor_parts,
    local_secs, minute_of, plus_minutes, Timestamp, MAX_SECS,
};
use crate::window::{
    clamp_window, clamp_window_spec, closest_factor_of_60, closest_factor_spec,
    lemma_closest_factor_of_valid, valid_window, TimeWindow,
};

verus! {

/// Seconds in fifteen weeks: ranges at least this long are not split.
pub const MAX_SPLIT_SECS: i64 = 9_072_000;

/// A range of time from `start` to `end`, with no alignment guarantee.
#[derive(Clone, Copy, Debug, PartialEq, Eq, Structural, PartialOrd, Ord, Hash)]
pub struct Timeframe {
    pub start: Timestamp,
    pub end: Timestamp,
}

/// A timeframe whose start lies on a window boundary of local time, with
/// zero seconds and sub-seconds, and whose end is exactly one window later.
/// For instance
/// - window size: 30 & time: 12:38:45 -> 12:30:00
/// - window size: 15 & time: 12:14:12 -> 12:00:00
/// - window size: 5 & time: 00:05:01 -> 00:05:00
#[derive(Clone, Copy, Debug, PartialEq, Eq, Structural, PartialOrd, Ord, Hash)]
pub struct EvenTimeframe {
    pub frame: Timeframe,
    pub window: TimeWindow,
}

/// The frame of window `w` starting at `start`.
pub open spec fn even_at(start: Timestamp, w: u32) -> EvenTimeframe {
    EvenTimeframe { frame: Timeframe { start, end: plus_minutes(start, w as int) }, window: w }
}

/// Flooring `start` to window `w` and adding one window stay in range.
pub open spec fn align_fits(start: Timestamp, w: u32) -> bool {
    in_range(floor_secs(start, w as int)) && in_range(floor_secs(start, w as int) + 60 * w)
}

/// The frame of the window nearest to `window` that holds `start`.
pub open spec fn new_spec(start: Timestamp, window: u32) -> EvenTimeframe {
    let w = closest_factor_spec(window);
    even_at(at_secs(start, floor_secs(start, w as int)), w)
}

pub open spec fn next_spec(f: EvenTimeframe) -> EvenTimeframe {
    even_at(f.frame.end, f.window)
}

pub open spec fn prev_spec(f: EvenTimeframe) -> EvenTimeframe {
    EvenTimeframe {
        frame: Timeframe { start: plus_minutes(f.frame.start, -(f.window as int)), end: f.frame.start },
        window: f.window,
    }
}

/// Every step of a split succeeds: the window is valid, both ends align
/// within range, and the aligned range lasts at least a minute and less
/// than fifteen weeks.
pub open spec fn split_succeeds(frame: Timeframe, window: u32) -> bool {
    match clamp_window_spec(window) {
        None => false,
        Some(w) => {
            let lo = floor_secs(frame.start, w as int);
            let hi = ceil_secs(frame.end, w as int);
            in_range(lo) && in_range(hi) && 60 <= hi - lo < MAX_SPLIT_SECS
        },
    }
}

/// The frames of window `w` from the floor of `frame.start` on, as many as
/// it takes to reach the ceiling of `frame.end`.
pub open spec fn split_frames(frame: Timeframe, w: u32) -> Seq<EvenTimeframe> {
    let lo = floor_secs(frame.start, w as int);
    let hi = ceil_secs(frame.end, w as int);
    let step = 60 * w;
    Seq::new(
        ((hi - lo + step - 1) / step) as nat,
        |i: int| even_at(plus_minutes(at_secs(frame.start, lo), w * i), w),
    )
}

impl Timeframe {
    /// The even timeframe that holds this frame's start.
    pub fn into_even(self, window: TimeWindow) -> (r: EvenTimeframe)
        requires
            self.start.wf(),
            align_fits(self.start, closest_factor_spec(window)),
        ensures
            r == new_spec(self.start, window),
            r.wf(),
    {
        EvenTimeframe::new(self.start, window)
    }
}

impl EvenTimeframe {
    /// The window lies in [1, 60] and divides 60, the start is aligned to
    /// it, and the end is one window after the start.
    pub open spec fn wf(&self) -> bool {
        &&& valid_window(self.window as int)
        &&& self.frame.start.wf()
        &&& self.frame.end.wf()
        &&& is_aligned(self.frame.start, self.window as int)
        &&& self.frame.end == plus_minutes(self.frame.start, self.window as int)
    }

    pub fn start(&self) -> (r: &Timestamp)
        ensures
            *r == self.frame.start,
    {
        &self.frame.start
    }

    pub fn end(&self) -> (r: &Timestamp)
        ensures
            *r == self.frame.end,
    {
        &self.frame.end
    }

    /// The window length in minutes.
    pub fn get_window(&self) -> (r: TimeWindow)
        ensures
            r == self.window,
    {
        self.window
    }

    /// The same frame read in UTC.
    pub fn to_utc(&self) -> (r: EvenTimeframe)
        ensures
            r == (EvenTimeframe {
                frame: Timeframe {
                    start: Timestamp { offset: 0, ..self.frame.start },
                    end: Timestamp { offset: 0, ..self.frame.end },
                },
                window: self.window,
            }),
    {
        EvenTimeframe {
            frame: Timeframe { start: self.start().to_utc(), end: self.end().to_utc() },
            window: self.window,
        }
    }

    /// The frame that holds `start`, of the divisor of 60 nearest to
    /// `window` (the smaller one on a tie): this constructor never rejects
    /// a window, it resolves it. Use `split`, or `closest_floor`, for the
    /// strict validation.
    pub fn new(start: Timestamp, window: TimeWindow) -> (r: Self)
        requires
            start.wf(),
            align_fits(start, closest_factor_spec(window)),
        ensures
            r == new_spec(start, window),
            r.wf(),
    {
        let w = closest_factor_of_60(window);
        let mut s = EvenTimeframe { frame: Timeframe { start, end: start }, window: w };
        let _ = s.align();
        s
    }

    /// The frame that holds `start`, with the window validated strictly:
    /// fails with `Other` when `window` does not divide 60 after clamping,
    /// and with `Floor` when the frame would leave the supported range.
    pub fn try_new(start: Timestamp, window: TimeWindow) -> (r: Result<Self, TimeErr>)
        requires
            start.wf(),
        ensures
            clamp_window_spec(window) is None ==> r matches Err(TimeErr::Other(_)),
            (clamp_window_spec(window) matches Some(w) ==> (if align_fits(start, w) {
                r == Ok::<EvenTimeframe, TimeErr>(new_spec(start, window))
            } else {
                r matches Err(TimeErr::Floor)
            })),
            r matches Ok(f) ==> f.wf(),
    {
        let w = match clamp_window(window) {
            Some(w) => w,
            None => {
                return Err(
                    TimeErr::Other("the window size must be a factor of 60".to_owned()),
                );
            },
        };
        proof {
            lemma_closest_factor_of_valid(window);
        }
        let mut s = EvenTimeframe { frame: Timeframe { start, end: start }, window: w };
        match s.align() {
            Some(()) => Ok(s),
            None => Err(TimeErr::Floor),
        }
    }

    /// Moves the start down to the nearest window boundary and sets the end
    /// one window later. Fails, leaving the frame unchanged, when either
    /// falls out of range.
    pub fn align(&mut self) -> (r: Option<()>)
        requires
            old(self).frame.start.wf(),
            valid_window(old(self).window as int),
        ensures
            r is Some <==> align_fits(old(self).frame.start, old(self).window),
            r is Some ==> *final(self) == even_at(
                at_secs(old(self).frame.start, floor_secs(old(self).frame.start, old(self).window as int)),
                old(self).window,
            ),
            r is Some ==> final(self).wf(),
            r is None ==> *final(self) == *old(self),
    {
        proof {
            lemma_valid_window_passes(self.window);
        }
        let new_start = match self.frame.start.closest_floor(self.window) {
            Some(s) => s,
            None => return None,
        };
        if new_start.secs > MAX_SECS - 60 * (self.window as i64) {
            return None;
        }
        self.frame.start = new_start;
        self.frame.end = Timestamp {
            secs: new_start.secs + 60 * (self.window as i64),
            nanos: 0,
            offset: new_start.offset,
        };
        proof {
            lemma_aligned_shift(new_start, self.window as int, 1);
        }
        Some(())
    }

    /// The frame just before this one: it ends where this one starts.
    pub fn prev(&self) -> (r: Self)
        requires
            self.wf(),
            in_range(self.frame.start.secs - 60 * self.window),
        ensures
            r == prev_spec(*self),
            r.wf(),
    {
        let start = Timestamp {
            secs: self.frame.start.secs - 60 * (self.window as i64),
            nanos: 0,
            offset: self.frame.start.offset,
        };
        proof {
            lemma_aligned_shift(self.frame.start, self.window as int, -1);
        }
        EvenTimeframe { frame: Timeframe { start, end: self.frame.start }, window: self.window }
    }

    /// The frame just after this one: it starts where this one ends.
    pub fn next(&self) -> (r: Self)
        requires
            self.wf(),
            in_range(self.frame.end.secs + 60 * self.window),
        ensures
            r == next_spec(*self),
            r.wf(),
    {
        let end = Timestamp {
            secs: self.frame.end.secs + 60 * (self.window as i64),
            nanos: 0,
            offset: self.frame.end.offset,
        };
        proof {
            lemma_aligned_shift(self.frame.start, self.window as int, 1);
            lemma_aligned_shift(self.frame.end, self.window as int, 1);
        }
        EvenTimeframe { frame: Timeframe { start: self.frame.end, end }, window: self.window }
    }
}

impl EvenTimeframe {
    /// Splits `frame` into consecutive frames of `window`: from the floor
    /// of its start, one window after another, until the ceiling of its end
    /// is reached. The window is validated strictly. Fails with `Floor` or
    /// `Ceil` when an end cannot be aligned in range, with `FrameTooLarge`
    /// when the aligned range lasts fifteen weeks or more, and with `Other`
    /// on an invalid window or an aligned range shorter than a minute.
    pub fn split(frame: Timeframe, window: TimeWindow) -> (r: Result<Vec<EvenTimeframe>, TimeErr>)
        requires
            frame.start.wf(),
            frame.end.wf(),
        ensures
            r is Ok <==> split_succeeds(frame, window),
            r matches Ok(v) ==> v@ == split_frames(frame, clamp_window_spec(window)->Some_0),
            clamp_window_spec(window) is None ==> r matches Err(TimeErr::Other(_)),
            (clamp_window_spec(window) matches Some(w) ==> (if !in_range(
                floor_secs(frame.start, w as int),
            ) {
                r matches Err(TimeErr::Floor)
            } else if !in_range(ceil_secs(frame.end, w as int)) {
                r matches Err(TimeErr::Ceil)
            } else if ceil_secs(frame.end, w as int) - floor_secs(frame.start, w as int)
                >= MAX_SPLIT_SECS {
                r matches Err(TimeErr::FrameTooLarge)
            } else if ceil_secs(frame.end, w as int) - floor_secs(frame.start, w as int) < 60 {
                r matches Err(TimeErr::Other(_))
            } else {
                r is Ok
            })),
    {
        let w = match clamp_window(window) {
            Some(w) => w,
            None => {
                return Err(
                    TimeErr::Other("the window size must be a factor of 60".to_owned()),
                );
            },
        };
        proof {
            lemma_valid_window_passes(w);
        }
        let start = match frame.start.closest_floor(w) {
            Some(s) => s,
            None => return Err(TimeErr::Floor),
        };
        let end = match frame.end.closest_ceil(w) {
            Some(e) => e,
            None => return Err(TimeErr::Ceil),
        };
        let delta: i64 = end.secs - start.secs;
        if delta >= MAX_SPLIT_SECS {
            return Err(TimeErr::FrameTooLarge);
        }
        if delta < 60 {
            return Err(TimeErr::Other("the range must last at least one minute".to_owned()));
        }
        let step: i64 = 60 * (w as i64);
        let mut curr = start;
        let mut frames: Vec<EvenTimeframe> = Vec::new();
        proof {
            assert((w as int) * 0 == 0);
        }
        while curr.secs < end.secs
            invariant
                valid_window(w as int),
                step == 60 * w,
                start.wf(),
                end.wf(),
                start.nanos == 0,
                start.secs < end.secs,
                curr == plus_minutes(start, (w as int) * (frames.len() as int)),
                curr.secs == start.secs + 60 * ((w as int) * (frames.len() as int)),
                curr.secs - step < end.secs,
                frames@ =~= Seq::new(
                    frames.len() as nat,
                    |i: int| even_at(plus_minutes(start, w * i), w),
                ),
            decreases end.secs + step - curr.secs,
        {
            let next = Timestamp { secs: curr.secs + step, nanos: 0, offset: curr.offset };
            let ghost len = frames.len() as int;
            let ghost old_secs = curr.secs;
            proof {
                assert(w * (len + 1) == w * len + w) by (nonlinear_arith);
            }
            frames.push(EvenTimeframe { frame: Timeframe { start: curr, end: next }, window: w });
            curr = next;
            assert(curr.secs == old_secs + step);
        }
        proof {
            let n = frames.len() as int;
            let d = delta as int;
            assert(60 * ((w as int) * n) == step * n) by (nonlinear_arith)
                requires
                    step == 60 * w,
            ;
            lemma_fundamental_div_mod_converse(d + step - 1, step as int, n, d + step - 1 - step * n);
        }
        Ok(frames)
    }
}

/// The frame after the one built for `t` starts where that one ends.
pub proof fn lemma_next_starts_at_end(t: Timestamp, window: u32)
    requires
        t.wf(),
        align_fits(t, closest_factor_spec(window)),
    ensures
        next_spec(new_spec(t, window)).frame.start == new_spec(t, window).frame.end,
{
}

/// The frames of a successful split follow one another with neither gap
/// nor overlap, and the first is the frame built for the range's start.
/// When both ends share an offset, the last frame ends at the ceiling of
/// the range's end, and when that end's minute is off a boundary, the last
/// frame is the one built for that end.
pub proof fn lemma_split_contiguous(frame: Timeframe, window: u32)
    requires
        frame.start.wf(),
        frame.end.wf(),
        split_succeeds(frame, window),
    ensures
        ({
            let w = clamp_window_spec(window)->Some_0;
            let v = split_frames(frame, w);
            &&& v.len() >= 1
            &&& forall|i: int|
                0 <= i < v.len() - 1 ==> #[trigger] v[i].frame.end == v[i + 1].frame.start
            &&& v[0] == new_spec(frame.start, window)
            &&& frame.start.offset == frame.end.offset ==> ceil_spec(frame.end, window) == Some(
                v.last().frame.end,
            )
            &&& frame.start.offset == frame.end.offset && minute_of(frame.end) % (w as int) != 0
                ==> v.last() == new_spec(frame.end, window)
        }),
{
    let w = clamp_window_spec(window)->Some_0;
    let wi = w as int;
    let v = split_frames(frame, w);
    let lo = floor_secs(frame.start, wi);
    let hi = ceil_secs(frame.end, wi);
    let s = at_secs(frame.start, lo);
    let step = 60 * wi;
    let d = hi - lo;
    let n = (d + step - 1) / step;
    lemma_closest_factor_of_valid(window);
    lemma_floor_parts(frame.start, wi);
    lemma_ceil_parts(frame.end, wi);
    lemma_fundamental_div_mod(d + step - 1, step);
    assert(n >= 1 && step * n <= d + step - 1) by (nonlinear_arith)
        requires
            d + step - 1 == step * n + (d + step - 1) % step,
            0 <= (d + step - 1) % step < step,
            d >= 60,
            step > 0,
    ;
    assert(v.len() == n);
    assert forall|i: int| 0 <= i < v.len() - 1 implies #[trigger] v[i].frame.end == v[i
        + 1].frame.start by {
        assert(wi * (i + 1) == wi * i + wi && 0 <= wi * i && wi * (i + 1) <= wi * n) by (
        nonlinear_arith)
            requires
                0 <= i < n - 1,
                wi > 0,
        ;
        assert(step * n == 60 * (wi * n)) by (nonlinear_arith)
            requires
                step == 60 * wi,
        ;
    }
    assert(wi * 0 == 0);
    assert(v[0] == new_spec(frame.start, window));
    if frame.start.offset == frame.end.offset {
        let e = at_secs(frame.end, hi);
        lemma_aligned_multiple(s, wi);
        lemma_aligned_multiple(e, wi);
        assert(local_secs(e) - local_secs(s) == d);
        let qs = local_secs(s) / step;
        let qe = local_secs(e) / step;
        lemma_fundamental_div_mod(local_secs(s), step);
        lemma_fundamental_div_mod(local_secs(e), step);
        assert(d == (qe - qs) * step) by (nonlinear_arith)
            requires
                local_secs(s) == step * qs,
                local_secs(e) == step * qe,
                local_secs(e) - local_secs(s) == d,
        ;
        lemma_fundamental_div_mod_converse(d + step - 1, step, qe - qs, step - 1);
        assert(60 * (wi * n) == d && wi * (n - 1) == wi * n - wi) by (nonlinear_arith)
            requires
                n == qe - qs,
                d == (qe - qs) * step,
                step == 60 * wi,
        ;
        assert(v.last().frame.end == e);
        if minute_of(frame.end) % wi != 0 {
            lemma_ceil_after_floor(frame.end, wi);
            assert(v.last() == new_spec(frame.end, window));
        }
    }
}

proof fn lemma_valid_window_passes(w: u32)
    requires
        valid_window(w as int),
    ensures
        clamp_window_spec(w) == Some(w),
{
}

} // verus!
