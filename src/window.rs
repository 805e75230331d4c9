use vstd::prelude::*;

verus! {

/// A window length in minutes.
pub type TimeWindow = u32;

/// `w` forced into the range [1, 60].
pub open spec fn clamp_spec(w: u32) -> u32 {
    if w < 1 {
        1
    } else if w > 60 {
        60
    } else {
        w
    }
}

/// A window length that can be stored in an aligned frame: it lies in
/// [1, 60] and divides an hour evenly.
pub open spec fn valid_window(w: int) -> bool {
    1 <= w <= 60 && 60int % w == 0
}

/// The strict validation: clamp first, then accept only a divisor of 60.
pub open spec fn clamp_window_spec(w: u32) -> Option<u32> {
    if 60int % (clamp_spec(w) as int) == 0 {
        Some(clamp_spec(w))
    } else {
        None
    }
}

/// Clamps `window` into [1, 60] and returns it when it divides 60.
pub fn clamp_window(window: TimeWindow) -> (r: Option<TimeWindow>)
    ensures
        r == clamp_window_spec(window),
        r matches Some(w) ==> valid_window(w as int),
{
    let w: u32 = if window < 1 {
        1
    } else if window > 60 {
        60
    } else {
        window
    };
    if 60 % w == 0 {
        Some(w)
    } else {
        None
    }
}

/// The divisors of 60, in increasing order.
pub open spec fn factors_of_60() -> Seq<u32> {
    seq![1u32, 2, 3, 4, 5, 6, 10, 12, 15, 20, 30, 60]
}

pub open spec fn distance(a: int, b: int) -> int {
    if a >= b {
        a - b
    } else {
        b - a
    }
}

/// Index, among the first `n` divisors of 60, of the first one at the
/// smallest distance from `c`.
pub open spec fn closest_index(c: int, n: nat) -> nat
    decreases n,
{
    if n <= 1 {
        0
    } else {
        let i = closest_index(c, (n - 1) as nat);
        if distance(c, factors_of_60()[n - 1] as int) < distance(c, factors_of_60()[i as int] as int) {
            (n - 1) as nat
        } else {
            i
        }
    }
}

/// The divisor of 60 nearest to `min(w, 60)`; on a tie the smaller one.
pub open spec fn closest_factor_spec(w: u32) -> u32 {
    let c = if w > 60 { 60 } else { w as int };
    factors_of_60()[closest_index(c, 12) as int]
}

proof fn lemma_closest_index_bounds(c: int, n: nat)
    requires
        1 <= n <= 12,
    ensures
        closest_index(c, n) < n,
        forall|j: int|
            0 <= j < n ==> distance(c, #[trigger] factors_of_60()[j] as int) >= distance(
                c,
                factors_of_60()[closest_index(c, n) as int] as int,
            ),
        forall|j: int|
            0 <= j < closest_index(c, n) ==> distance(c, #[trigger] factors_of_60()[j] as int) > distance(
                c,
                factors_of_60()[closest_index(c, n) as int] as int,
            ),
    decreases n,
{
    if n > 1 {
        lemma_closest_index_bounds(c, (n - 1) as nat);
    }
}

/// Every divisor in the list is a valid window.
proof fn lemma_factors_valid(i: int)
    requires
        0 <= i < 12,
    ensures
        valid_window(factors_of_60()[i] as int),
{
    let f = factors_of_60();
    assert(f[0] == 1 && f[1] == 2 && f[2] == 3 && f[3] == 4 && f[4] == 5 && f[5] == 6);
    assert(f[6] == 10 && f[7] == 12 && f[8] == 15 && f[9] == 20 && f[10] == 30 && f[11] == 60);
}

/// The only windows that pass validation.
proof fn lemma_divisors_of_60(c: u32)
    requires
        1 <= c <= 60,
        60u32 % c == 0,
    ensures
        c == 1 || c == 2 || c == 3 || c == 4 || c == 5 || c == 6 || c == 10 || c == 12 || c == 15
            || c == 20 || c == 30 || c == 60,
{
    assert(1 <= c <= 60 && 60u32 % c == 0 ==> c == 1 || c == 2 || c == 3 || c == 4 || c == 5 || c
        == 6 || c == 10 || c == 12 || c == 15 || c == 20 || c == 30 || c == 60) by (bit_vector);
}

/// On a window that passes validation, resolving to the nearest divisor of
/// 60 gives the validated window itself.
pub proof fn lemma_closest_factor_of_valid(window: u32)
    requires
        clamp_window_spec(window) is Some,
    ensures
        closest_factor_spec(window) == clamp_window_spec(window)->Some_0,
{
    reveal_with_fuel(closest_index, 12);
    let f = factors_of_60();
    assert(f[0] == 1 && f[1] == 2 && f[2] == 3 && f[3] == 4 && f[4] == 5 && f[5] == 6);
    assert(f[6] == 10 && f[7] == 12 && f[8] == 15 && f[9] == 20 && f[10] == 30 && f[11] == 60);
    if window == 0 {
        assert(closest_index(0, 12) == 0);
    } else if window > 60 {
        assert(closest_index(60, 12) == 11);
    } else {
        lemma_divisors_of_60(window);
        if window == 1 {
            assert(closest_index(1, 12) == 0);
        } else if window == 2 {
            assert(closest_index(2, 12) == 1);
        } else if window == 3 {
            assert(closest_index(3, 12) == 2);
        } else if window == 4 {
            assert(closest_index(4, 12) == 3);
        } else if window == 5 {
            assert(closest_index(5, 12) == 4);
        } else if window == 6 {
            assert(closest_index(6, 12) == 5);
        } else if window == 10 {
            assert(closest_index(10, 12) == 6);
        } else if window == 12 {
            assert(closest_index(12, 12) == 7);
        } else if window == 15 {
            assert(closest_index(15, 12) == 8);
        } else if window == 20 {
            assert(closest_index(20, 12) == 9);
        } else if window == 30 {
            assert(closest_index(30, 12) == 10);
        } else {
            assert(closest_index(60, 12) == 11);
        }
    }
}

/// Resolves `window` to the nearest divisor of 60. The input is first capped
/// at 60; when two divisors are equally near, the smaller one wins.
pub fn closest_factor_of_60(window: TimeWindow) -> (r: TimeWindow)
    ensures
        r == closest_factor_spec(window),
        valid_window(r as int),
        exists|i: int|
            0 <= i < 12 && factors_of_60()[i] == r && (forall|j: int|
                0 <= j < 12 ==> distance(
                    if window > 60 { 60 } else { window as int },
                    #[trigger] factors_of_60()[j] as int,
                ) >= distance(if window > 60 { 60 } else { window as int }, r as int)) && (forall|
                j: int,
            |
                0 <= j < i ==> distance(
                    if window > 60 { 60 } else { window as int },
                    #[trigger] factors_of_60()[j] as int,
                ) > distance(if window > 60 { 60 } else { window as int }, r as int)),
{
    let c: u32 = if window > 60 {
        60
    } else {
        window
    };
    let factors: [u32; 12] = [1, 2, 3, 4, 5, 6, 10, 12, 15, 20, 30, 60];
    proof {
        assert(factors@ =~= factors_of_60());
    }
    let mut best: usize = 0;
    let mut i: usize = 1;
    while i < 12
        invariant
            1 <= i <= 12,
            factors@ == factors_of_60(),
            best as nat == closest_index(c as int, i as nat),
        decreases 12 - i,
    {
        proof {
            lemma_closest_index_bounds(c as int, i as nat);
        }
        let d_new: u32 = if c >= factors[i] {
            c - factors[i]
        } else {
            factors[i] - c
        };
        let d_best: u32 = if c >= factors[best] {
            c - factors[best]
        } else {
            factors[best] - c
        };
        if d_new < d_best {
            best = i;
        }
        i = i + 1;
    }
    proof {
        lemma_closest_index_bounds(c as int, 12);
        lemma_factors_valid(best as int);
    }
    factors[best]
}

} // verus!
