//! Advisory danger signals.
//!
//! Each of the two scores blends a relative-to-peers signal (weight 1) with
//! a market-scarcity signal (weight 3), averaged over weight 4.  The peer
//! signal compares the firm's own value (usefulness times servings for
//! customer danger, offered wage for employee danger) to the mean of the
//! other firms' values: at or below the mean the peer signal is the full
//! 100, strictly above it the signal is the excess as a share of the firm's
//! own value, times 100.  The scarcity signal is the share of the pool
//! already consumed, times 100.  The blend is truncated to an integer, so a
//! score always lies in 0..=100.

use crate::firm::{Firm, FirmModel};
use vstd::arithmetic::div_mod::{lemma_div_by_multiple, lemma_div_is_ordered, lemma_div_pos_is_pos};
use vstd::prelude::*;

verus! {

/// Sum, over the firms before index `k` whose name differs from `name`, of
/// usefulness times servings.
pub open spec fn peer_usefulness_sum(firms: Seq<FirmModel>, name: Seq<char>, k: int) -> int
    decreases k,
{
    if k <= 0 {
        0
    } else {
        peer_usefulness_sum(firms, name, k - 1) + if firms[k - 1].name != name {
            firms[k - 1].usefulness * firms[k - 1].servings
        } else {
            0
        }
    }
}

/// Sum, over the firms before index `k` whose name differs from `name`, of
/// the offered wage.
pub open spec fn peer_wage_sum(firms: Seq<FirmModel>, name: Seq<char>, k: int) -> int
    decreases k,
{
    if k <= 0 {
        0
    } else {
        peer_wage_sum(firms, name, k - 1) + if firms[k - 1].name != name {
            firms[k - 1].wage_amount
        } else {
            0
        }
    }
}

/// How many firms before index `k` have a name other than `name`.
pub open spec fn peer_count(firms: Seq<FirmModel>, name: Seq<char>, k: int) -> int
    decreases k,
{
    if k <= 0 {
        0
    } else {
        peer_count(firms, name, k - 1) + if firms[k - 1].name != name {
            1int
        } else {
            0
        }
    }
}

/// Blends the peer signal with the scarcity signal, weights 1 and 3 over 4,
/// truncating at the end.  With `own` strictly above the peer mean `bar`
/// the peer signal is `(own - bar) / own * 100`, otherwise the full 100;
/// the scarcity signal is `used / cap * 100`.  The single division at the
/// end makes the truncated blend exact.
pub open spec fn danger_score(own: int, bar: int, used: int, cap: int) -> int
    recommends
        cap > 0,
        0 <= used <= cap,
        own >= 0,
        bar >= 0,
{
    if own > bar {
        (100 * (own - bar) * cap + 300 * used * own) / (4 * own * cap)
    } else {
        (100 * cap + 300 * used) / (4 * cap)
    }
}

/// The customer danger of a firm with the given name, usefulness and
/// servings, against the given firm collection and user pool.
pub open spec fn customer_danger_spec(
    firms: Seq<FirmModel>,
    name: Seq<char>,
    own_usefulness: int,
    own_servings: int,
    users: int,
    users_left: int,
) -> int {
    let bar = peer_usefulness_sum(firms, name, firms.len() as int) / peer_count(
        firms,
        name,
        firms.len() as int,
    );
    danger_score(own_usefulness * own_servings, bar, users - users_left, users)
}

/// The employee danger of a firm with the given name and offered wage,
/// against the given firm collection and labor pool.
pub open spec fn employee_danger_spec(
    firms: Seq<FirmModel>,
    name: Seq<char>,
    own_wage: int,
    labor_supply: int,
    workers_left: int,
) -> int {
    let bar = peer_wage_sum(firms, name, firms.len() as int) / peer_count(
        firms,
        name,
        firms.len() as int,
    );
    danger_score(own_wage, bar, labor_supply - workers_left, labor_supply)
}

/// A danger score never exceeds 100.
pub proof fn lemma_danger_score_range(own: int, bar: int, used: int, cap: int)
    requires
        cap > 0,
        0 <= used <= cap,
        own >= 0,
        bar >= 0,
    ensures
        0 <= danger_score(own, bar, used, cap) <= 100,
{
    if own > bar {
        let num = 100 * (own - bar) * cap + 300 * used * own;
        let den = 4 * own * cap;
        assert(num >= 0 && den > 0 && num <= 100 * den) by (nonlinear_arith)
            requires
                cap > 0,
                0 <= used <= cap,
                own > bar >= 0,
                num == 100 * (own - bar) * cap + 300 * used * own,
                den == 4 * own * cap,
        ;
        lemma_div_pos_is_pos(num, den);
        lemma_div_is_ordered(num, 100 * den, den);
        lemma_div_by_multiple(100, den);
    } else {
        let num = 100 * cap + 300 * used;
        let den = 4 * cap;
        assert(num >= 0 && den > 0 && num <= 100 * den) by (nonlinear_arith)
            requires
                cap > 0,
                0 <= used <= cap,
                num == 100 * cap + 300 * used,
                den == 4 * cap,
        ;
        lemma_div_pos_is_pos(num, den);
        lemma_div_is_ordered(num, 100 * den, den);
        lemma_div_by_multiple(100, den);
    }
}

/// A peer count is never negative.
proof fn lemma_peer_count_nonneg(firms: Seq<FirmModel>, name: Seq<char>, k: int)
    ensures
        peer_count(firms, name, k) >= 0,
    decreases k,
{
    if k > 0 {
        lemma_peer_count_nonneg(firms, name, k - 1);
    }
}

/// A firm collection holding a firm named otherwise than `name` before
/// index `k` has at least one peer counted there.
pub proof fn lemma_peer_count_pos(firms: Seq<FirmModel>, name: Seq<char>, k: int, w: int)
    requires
        0 <= w < k <= firms.len(),
        firms[w].name != name,
    ensures
        peer_count(firms, name, k) >= 1,
    decreases k,
{
    if w < k - 1 {
        lemma_peer_count_pos(firms, name, k - 1, w);
    } else {
        lemma_peer_count_nonneg(firms, name, k - 1);
    }
}

/// Compares two strings character by character.
fn str_eq(a: &str, b: &str) -> (r: bool)
    ensures
        r == (a@ == b@),
{
    let an = a.unicode_len();
    let bn = b.unicode_len();
    if an != bn {
        return false;
    }
    let mut i: usize = 0;
    while i < an
        invariant
            an == a@.len(),
            an == b@.len(),
            i <= an,
            forall|j: int| 0 <= j < i ==> a@[j] == b@[j],
        decreases an - i,
    {
        if a.get_char(i) != b.get_char(i) {
            return false;
        }
        i = i + 1;
    }
    proof {
        assert(a@ =~= b@);
    }
    true
}

/// Computes the customer danger of a firm with the given name, usefulness
/// and servings against a firm collection and the user pool.  At least one
/// firm of another name must be present, and the pool must be non-empty
/// with a remainder no larger than itself.
pub(crate) fn customer_danger_calc(
    firms: &Vec<Firm>,
    name: &String,
    own_usefulness: u32,
    own_servings: u32,
    users: u32,
    users_left: u32,
) -> (r: u32)
    requires
        users > 0,
        users_left <= users,
        exists|j: int|
            0 <= j < firms@.len() && #[trigger] crate::market::firms_view(firms@)[j].name
                != name@,
    ensures
        r as int == customer_danger_spec(
            crate::market::firms_view(firms@),
            name@,
            own_usefulness as int,
            own_servings as int,
            users as int,
            users_left as int,
        ),
        0 <= r <= 100,
{
    let ghost fs = crate::market::firms_view(firms@);
    let ghost vmax: int = u32::MAX as int * u32::MAX as int;
    let n = firms.len();
    let mut sum: u128 = 0;
    let mut count: u64 = 0;
    proof {
        assert forall|j: int| 0 <= j < fs.len() implies 0 <= #[trigger] (fs[j].usefulness
            * fs[j].servings) <= vmax by {
            assert(fs[j].usefulness * fs[j].servings <= vmax) by (nonlinear_arith)
                requires
                    0 <= fs[j].usefulness <= u32::MAX as int,
                    0 <= fs[j].servings <= u32::MAX as int,
                    vmax == u32::MAX as int * u32::MAX as int,
            ;
        }
    }
    for j in 0..n
        invariant
            n == firms@.len(),
            fs == crate::market::firms_view(firms@),
            vmax == u32::MAX as int * u32::MAX as int,
            sum as int == peer_usefulness_sum(fs, name@, j as int),
            count as int == peer_count(fs, name@, j as int),
            count <= j,
            sum as int <= (j as int) * vmax,
            forall|t: int|
                0 <= t < fs.len() ==> 0 <= #[trigger] (fs[t].usefulness * fs[t].servings)
                    <= vmax,
    {
        let same = str_eq(firms[j].name.as_str(), name.as_str());
        if !same {
            proof {
                assert(fs[j as int].name != name@);
                assert((j as int) * vmax + vmax == (j as int + 1) * vmax) by (nonlinear_arith);
                assert(sum as int + fs[j as int].usefulness * fs[j as int].servings
                    <= u128::MAX as int) by (nonlinear_arith)
                    requires
                        sum as int <= (j as int) * vmax,
                        0 <= fs[j as int].usefulness * fs[j as int].servings <= vmax,
                        vmax == u32::MAX as int * u32::MAX as int,
                        0 <= (j as int) && (j as int) < 0x1_0000_0000_0000_0000,
                ;
                assert(firms@[j as int].usefulness as int * firms@[j as int].servings as int
                    == fs[j as int].usefulness * fs[j as int].servings);
            }
            let v: u128 = firms[j].usefulness as u128 * firms[j].servings as u128;
            sum = sum + v;
            count = count + 1;
        } else {
            proof {
                assert(fs[j as int].name == name@);
                assert((j as int) * vmax + vmax == (j as int + 1) * vmax) by (nonlinear_arith);
            }
        }
    }
    proof {
        let w = choose|j: int| 0 <= j < fs.len() && #[trigger] fs[j].name != name@;
        lemma_peer_count_pos(fs, name@, n as int, w);
    }
    let bar: u128 = sum / count as u128;
    proof {
        assert(own_usefulness as int * own_servings as int <= vmax) by (nonlinear_arith)
            requires
                0 <= own_usefulness as int <= u32::MAX as int,
                0 <= own_servings as int <= u32::MAX as int,
                vmax == u32::MAX as int * u32::MAX as int,
        ;
    }
    let own: u128 = own_usefulness as u128 * own_servings as u128;
    danger_blend(own, bar, (users - users_left) as u128, users as u128)
}

/// Computes the employee danger of a firm with the given name and offered
/// wage against a firm collection and the labor pool.  At least one firm of
/// another name must be present, and the pool must be non-empty with a
/// remainder no larger than itself.
pub(crate) fn employee_danger_calc(
    firms: &Vec<Firm>,
    name: &String,
    own_wage: u32,
    labor_supply: u32,
    workers_left: u32,
) -> (r: u32)
    requires
        labor_supply > 0,
        workers_left <= labor_supply,
        exists|j: int|
            0 <= j < firms@.len() && #[trigger] crate::market::firms_view(firms@)[j].name
                != name@,
    ensures
        r as int == employee_danger_spec(
            crate::market::firms_view(firms@),
            name@,
            own_wage as int,
            labor_supply as int,
            workers_left as int,
        ),
        0 <= r <= 100,
{
    let ghost fs = crate::market::firms_view(firms@);
    let ghost wmax: int = u32::MAX as int;
    let n = firms.len();
    let mut sum: u128 = 0;
    let mut count: u64 = 0;
    for j in 0..n
        invariant
            n == firms@.len(),
            fs == crate::market::firms_view(firms@),
            wmax == u32::MAX as int,
            sum as int == peer_wage_sum(fs, name@, j as int),
            count as int == peer_count(fs, name@, j as int),
            count <= j,
            sum as int <= (j as int) * wmax,
    {
        let same = str_eq(firms[j].name.as_str(), name.as_str());
        if !same {
            proof {
                assert(fs[j as int].name != name@);
                assert((j as int) * wmax + wmax == (j as int + 1) * wmax) by (nonlinear_arith);
                assert(sum as int + wmax <= u128::MAX as int) by (nonlinear_arith)
                    requires
                        sum as int <= (j as int) * wmax,
                        wmax == u32::MAX as int,
                        0 <= (j as int) && (j as int) < 0x1_0000_0000_0000_0000,
                ;
            }
            sum = sum + firms[j].wage_amount as u128;
            count = count + 1;
        } else {
            proof {
                assert(fs[j as int].name == name@);
                assert((j as int) * wmax + wmax == (j as int + 1) * wmax) by (nonlinear_arith);
            }
        }
    }
    proof {
        let w = choose|j: int| 0 <= j < fs.len() && #[trigger] fs[j].name != name@;
        lemma_peer_count_pos(fs, name@, n as int, w);
    }
    let bar: u128 = sum / count as u128;
    danger_blend(own_wage as u128, bar, (labor_supply - workers_left) as u128, labor_supply as u128)
}

/// Evaluates the blended danger score on machine integers.  The own value
/// and the peer mean must fit a 64-bit word; the pool figures fit 32 bits.
fn danger_blend(own: u128, bar: u128, used: u128, cap: u128) -> (r: u32)
    requires
        0 < cap <= u32::MAX,
        used <= cap,
        own < 0x1_0000_0000_0000_0000,
    ensures
        r as int == danger_score(own as int, bar as int, used as int, cap as int),
        0 <= r <= 100,
{
    proof {
        lemma_danger_score_range(own as int, bar as int, used as int, cap as int);
    }
    if own > bar {
        let excess: u128 = own - bar;
        proof {
            let e = excess as int;
            let o = own as int;
            let c = cap as int;
            let u = used as int;
            assert(100 * e * c + 300 * u * o <= u128::MAX as int && 4 * o * c <= u128::MAX as int
                && 100 * e * c >= 0 && 300 * u * o >= 0 && 4 * o * c > 0) by (nonlinear_arith)
                requires
                    0 < e <= o < 0x1_0000_0000_0000_0000,
                    0 <= u <= c <= u32::MAX as int,
                    c > 0,
            ;
        }
        let num: u128 = 100 * excess * cap + 300 * used * own;
        let den: u128 = 4 * own * cap;
        let q: u128 = num / den;
        proof {
            assert(q as int == danger_score(own as int, bar as int, used as int, cap as int));
        }
        q as u32
    } else {
        let num: u128 = 100 * cap + 300 * used;
        let den: u128 = 4 * cap;
        let q: u128 = num / den;
        proof {
            assert(q as int == danger_score(own as int, bar as int, used as int, cap as int));
        }
        q as u32
    }
}

} // verus!
