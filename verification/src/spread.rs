//! How many peers a message is handed on to.
use vstd::prelude::*;

verus! {

/// The least number of peers that a message is handed on to where there are as many.
pub const MIN_SPREAD: usize = 3;

/// Whether `root` is the square root of `n`, rounded up.
pub open spec fn is_root_rounded_up(root: nat, n: nat) -> bool {
    &&& root * root >= n
    &&& root > 0 ==> (root - 1) * (root - 1) < n
}

/// The square root of `n`, rounded up.
pub open spec fn root_rounded_up(n: nat) -> nat {
    choose|root: nat| is_root_rounded_up(root, n)
}

/// The number of peers, out of `available`, that a message is handed on to: the square root of
/// their number, rounded up, but no fewer than three and no more than there are.
pub open spec fn spread_of(available: nat) -> nat {
    let root = root_rounded_up(available);
    let wanted = if root < MIN_SPREAD { MIN_SPREAD as nat } else { root };
    if wanted < available { wanted } else { available }
}

/// No number has two square roots when they are rounded up.
proof fn root_is_unique(a: nat, b: nat, n: nat)
    requires
        is_root_rounded_up(a, n),
        is_root_rounded_up(b, n),
    ensures
        a == b,
{
    if a < b {
        assert(a * a <= (b - 1) * (b - 1)) by (nonlinear_arith)
            requires
                a <= b - 1,
        ;
    } else if b < a {
        assert(b * b <= (a - 1) * (a - 1)) by (nonlinear_arith)
            requires
                b <= a - 1,
        ;
    }
}

/// What is a square root of `n`, rounded up, is the one that `root_rounded_up` gives.
pub proof fn root_is(root: nat, n: nat)
    requires
        is_root_rounded_up(root, n),
    ensures
        root_rounded_up(n) == root,
{
    root_is_unique(root, root_rounded_up(n), n);
}

/// The number of peers, out of `available`, that a message is handed on to.
pub fn spread_factor(available: usize) -> (spread: usize)
    ensures
        spread == spread_of(available as nat),
        spread <= available,
        spread == available || spread >= 3,
        spread * spread >= available,
        spread > 3 ==> (spread - 1) * (spread - 1) < available,
{
    let n: u128 = available as u128;
    let mut root: usize = 0;
    assert(0u128 * 0u128 == 0);
    while (root as u128) * (root as u128) < n
        invariant
            n == available,
            root <= available,
            root > 0 ==> (root - 1) * (root - 1) < n,
            (root as u128) * (root as u128) <= u128::MAX,
        decreases available - root,
    {
        proof {
            assert(root < available) by (nonlinear_arith)
                requires
                    root * root < available,
                    root >= 0,
            ;
            let next: int = root + 1;
            assert(next * next <= u128::MAX) by (nonlinear_arith)
                requires
                    0 <= next <= usize::MAX,
            ;
        }
        root += 1;
    }
    proof {
        spread_is_exact(available as nat);
        assert(is_root_rounded_up(root as nat, available as nat));
        root_is(root as nat, available as nat);
    }
    let wanted: usize = if root < MIN_SPREAD { MIN_SPREAD } else { root };
    if wanted < available { wanted } else { available }
}

/// Every number has a square root, rounded up, no greater than itself.
proof fn root_exists(n: nat) -> (root: nat)
    ensures
        is_root_rounded_up(root, n),
        root <= n,
    decreases n,
{
    if n == 0 {
        0
    } else {
        let smaller = root_exists((n - 1) as nat);
        if smaller * smaller >= n {
            smaller
        } else {
            assert((smaller + 1) * (smaller + 1) == smaller * smaller + 2 * smaller + 1) by (nonlinear_arith);
            smaller + 1
        }
    }
}

/// A message never goes to more peers than there are, goes to at least three where there are as
/// many, and goes to so many that their number squared covers all.
pub proof fn spread_is_bounded(available: nat)
    ensures
        spread_of(available) <= available,
        available >= MIN_SPREAD ==> spread_of(available) >= MIN_SPREAD,
        spread_of(available) * spread_of(available) >= available,
{
    let root = root_exists(available);
    root_is(root, available);
    let spread = spread_of(available);
    if spread == available {
        assert(available * available >= available) by (nonlinear_arith)
            requires
                available >= 0,
        ;
    } else {
        assert(spread * spread >= root * root) by (nonlinear_arith)
            requires
                spread >= root >= 0,
        ;
    }
}

/// More available peers never mean a smaller spread.
pub proof fn spread_is_monotone(fewer: nat, more: nat)
    requires
        fewer <= more,
    ensures
        spread_of(fewer) <= spread_of(more),
{
    let a = root_exists(fewer);
    let b = root_exists(more);
    root_is(a, fewer);
    root_is(b, more);
    if a > b {
        assert(b * b <= (a - 1) * (a - 1)) by (nonlinear_arith)
            requires
                0 <= b <= a - 1,
        ;
    }
}

/// How many peers a message goes to: all of them where there are three or fewer; otherwise at least
/// three, so many that their number squared covers all, and not one more than that takes.
pub proof fn spread_is_exact(available: nat)
    ensures
        spread_of(available) <= available,
        available <= 3 ==> spread_of(available) == available,
        spread_of(available) == available || spread_of(available) >= 3,
        spread_of(available) * spread_of(available) >= available,
        spread_of(available) > 3 ==> (spread_of(available) - 1) * (spread_of(available) - 1) < available,
{
    let root = root_exists(available);
    root_is(root, available);
    spread_is_bounded(available);
    let spread = spread_of(available);
    if spread > 3 && spread != root {
        assert(spread == available && spread < root);
        assert((spread - 1) * (spread - 1) < (root - 1) * (root - 1)) by (nonlinear_arith)
            requires
                3 < spread < root,
        ;
    }
}

} // verus!
