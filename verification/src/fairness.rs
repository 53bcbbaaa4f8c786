//! Round-robin selection is fair: consecutive selections visit the enabled
//! backends in turn. A selection made at the cursor value `c` among `count`
//! enabled backends picks the one at position `c % count`.

use crate::manager::advanced;
use vstd::arithmetic::div_mod::{lemma_fundamental_div_mod, lemma_fundamental_div_mod_converse};
use vstd::prelude::*;

verus! {

/// How many of `draws` consecutive round-robin selections, the first made at
/// the cursor value `cursor`, pick the position `position` among `count`
/// enabled backends.
pub open spec fn picks(cursor: int, draws: nat, count: int, position: int) -> int
    decreases draws,
{
    if draws == 0 {
        0
    } else {
        picks(cursor, (draws - 1) as nat, count, position) + if (cursor + draws - 1) % count == position {
            1int
        } else {
            0int
        }
    }
}

/// The number of cursor values below `x` that pick `position`.
spec fn below(x: int, count: int, position: int) -> int {
    (x + count - 1 - position) / count
}

proof fn lemma_quotient(x: int, d: int) -> (qr: (int, int))
    requires
        d > 0,
        x >= 0,
    ensures
        qr.0 == x / d,
        qr.1 == x % d,
        0 <= qr.1 < d,
        0 <= qr.0,
        x == qr.0 * d + qr.1,
{
    lemma_fundamental_div_mod(x, d);
    let q = x / d;
    let r = x % d;
    assert(q * d == d * q) by (nonlinear_arith);
    assert(0 <= r < d) by (nonlinear_arith)
        requires
            r == x % d,
            d > 0,
    ;
    assert(q >= 0) by (nonlinear_arith)
        requires
            x == q * d + r,
            0 <= r < d,
            x >= 0,
            d > 0,
    ;
    (q, r)
}

proof fn lemma_below_step(x: int, count: int, position: int)
    requires
        x >= 0,
        count > 0,
        0 <= position < count,
    ensures
        below(x + 1, count, position) == below(x, count, position) + if x % count == position {
            1int
        } else {
            0int
        },
{
    let y = x + count - 1 - position;
    let (q, r) = lemma_quotient(y, count);
    assert((q + 1) * count == q * count + count) by (nonlinear_arith);
    assert((q - 1) * count == q * count - count) by (nonlinear_arith);
    if r + 1 == count {
        lemma_fundamental_div_mod_converse(y + 1, count, q + 1, 0);
        lemma_fundamental_div_mod_converse(x, count, q, position);
    } else {
        lemma_fundamental_div_mod_converse(y + 1, count, q, r + 1);
        if r + 1 + position < count {
            lemma_fundamental_div_mod_converse(x, count, q - 1, r + 1 + position);
        } else {
            lemma_fundamental_div_mod_converse(x, count, q, r + 1 + position - count);
        }
    }
}

proof fn lemma_picks_closed(cursor: int, draws: nat, count: int, position: int)
    requires
        cursor >= 0,
        count > 0,
        0 <= position < count,
    ensures
        picks(cursor, draws, count, position) == below(cursor + draws, count, position) - below(
            cursor,
            count,
            position,
        ),
    decreases draws,
{
    if draws > 0 {
        lemma_picks_closed(cursor, (draws - 1) as nat, count, position);
        lemma_below_step(cursor + draws - 1, count, position);
    }
}

/// Over any number of consecutive round-robin selections among `count`
/// enabled backends, each backend is picked the number of selections
/// divided by `count`, rounded down or rounded up.
pub proof fn lemma_round_robin_fair(cursor: int, draws: nat, count: int, position: int)
    requires
        cursor >= 0,
        count > 0,
        0 <= position < count,
    ensures
        picks(cursor, draws, count, position) == draws as int / count || picks(
            cursor,
            draws,
            count,
            position,
        ) == draws as int / count + 1,
        draws as int % count == 0 ==> picks(cursor, draws, count, position) == draws as int / count,
{
    lemma_picks_closed(cursor, draws, count, position);
    let a = cursor + count - 1 - position;
    let (qa, ra) = lemma_quotient(a, count);
    let (qn, rn) = lemma_quotient(draws as int, count);
    assert((qa + qn) * count == qa * count + qn * count) by (nonlinear_arith);
    assert((qa + qn + 1) * count == qa * count + qn * count + count) by (nonlinear_arith);
    if ra + rn < count {
        lemma_fundamental_div_mod_converse(a + draws, count, qa + qn, ra + rn);
    } else {
        lemma_fundamental_div_mod_converse(a + draws, count, qa + qn + 1, ra + rn - count);
    }
}

/// Until it wraps, the cursor counts the selections made in turn.
pub proof fn lemma_advanced_counts(cursor: usize, steps: nat)
    requires
        cursor + steps <= usize::MAX,
    ensures
        advanced(cursor, steps) == cursor + steps,
    decreases steps,
{
    if steps > 0 {
        lemma_advanced_counts(cursor, (steps - 1) as nat);
    }
}

} // verus!
