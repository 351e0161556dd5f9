//! Profit-trend computation: a signed moving average of the most recent
//! round-over-round changes in a firm's funds.

use vstd::prelude::*;

verus! {

/// Integer division truncating toward zero, as the `/` operator of a signed
/// machine integer behaves.  Meaningful for `b > 0`.
pub open spec fn div_trunc(a: int, b: int) -> int
    recommends
        b > 0,
{
    if a >= 0 {
        a / b
    } else {
        -((-a) / b)
    }
}

/// The profit trend of a firm holding `current` funds whose funds at the
/// start of earlier rounds were `prev` (most recent first): the average of
/// the last three round-over-round changes, or of as many as the history
/// holds.
pub open spec fn profit_trend(current: int, prev: Seq<int>) -> int
    recommends
        prev.len() >= 1,
{
    let first = current - prev[0];
    if prev.len() > 2 {
        div_trunc(first + (prev[0] - prev[1]) + (prev[1] - prev[2]), 3)
    } else if prev.len() > 1 {
        div_trunc(first + (prev[0] - prev[1]), 2)
    } else {
        first
    }
}

/// The view of a funds history as a sequence of mathematical integers.
pub open spec fn funds_seq(s: Seq<u32>) -> Seq<int> {
    s.map_values(|x: u32| x as int)
}

/// Divides by a small positive constant, truncating toward zero.
fn div_trunc_exec(a: i64, b: u64) -> (r: i64)
    requires
        0 < b <= 0x1000,
        -0x7fff_ffff_0000 <= a <= 0x7fff_ffff_0000,
    ensures
        r == div_trunc(a as int, b as int),
{
    if a >= 0 {
        ((a as u64) / b) as i64
    } else {
        let q: u64 = ((-a) as u64) / b;
        -(q as i64)
    }
}

/// Computes the profit trend from a firm's current funds and its funds
/// history, most recent first.  The history must be non-empty; the engine
/// only calls this after goods clearing has recorded at least one entry.
/// All values compared are bounded by `i32::MAX` so that the signed
/// differences are exact.
pub fn calc_profit_trend(current_funds: u32, previous_funds: Vec<u32>) -> (r: i32)
    requires
        previous_funds@.len() >= 1,
        current_funds <= i32::MAX,
        forall|i: int|
            0 <= i < previous_funds@.len() && i < 3 ==> previous_funds@[i] <= i32::MAX,
    ensures
        r == profit_trend(current_funds as int, funds_seq(previous_funds@)),
{
    proof {
        assert(funds_seq(previous_funds@).len() == previous_funds@.len());
    }
    let first: i64 = current_funds as i64 - previous_funds[0] as i64;
    if previous_funds.len() > 2 {
        let second: i64 = previous_funds[0] as i64 - previous_funds[1] as i64;
        let third: i64 = previous_funds[1] as i64 - previous_funds[2] as i64;
        let r64 = div_trunc_exec(first + second + third, 3);
        r64 as i32
    } else if previous_funds.len() > 1 {
        let second: i64 = previous_funds[0] as i64 - previous_funds[1] as i64;
        let r64 = div_trunc_exec(first + second, 2);
        r64 as i32
    } else {
        first as i32
    }
}

} // verus!
