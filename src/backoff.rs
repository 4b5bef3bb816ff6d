use vstd::prelude::*;

verus! {

pub open spec fn pow2(n: nat) -> nat
    decreases n,
{
    if n == 0 {
        1
    } else {
        2 * pow2((n - 1) as nat)
    }
}

/// The delay after `failures` consecutive failures: the base delay doubled
/// once per failure, capped at the ceiling.
pub open spec fn backoff_spec(base: nat, ceiling: nat, failures: nat) -> nat {
    if base * pow2(failures) < ceiling {
        base * pow2(failures)
    } else {
        ceiling
    }
}

/// The error-backoff delay in milliseconds. A fixed policy is one whose
/// ceiling equals its base.
pub fn error_backoff(base: u64, ceiling: u64, failures: u32) -> (r: u64)
    ensures
        r == backoff_spec(base as nat, ceiling as nat, failures as nat),
{
    let mut d: u64 = base;
    let mut k: u32 = 0;
    if d >= ceiling {
        d = ceiling;
    }
    assert(pow2(0) == 1);
    while k < failures
        invariant
            k <= failures,
            (d < ceiling && d == base * pow2(k as nat)) || (d == ceiling && base * pow2(k as nat)
                >= ceiling),
        decreases failures - k,
    {
        proof {
            let p = pow2(k as nat);
            assert(pow2((k + 1) as nat) == 2 * p);
            assert(base * (2 * p) == 2 * (base * p)) by (nonlinear_arith);
        }
        if d < ceiling {
            if d > ceiling / 2 {
                d = ceiling;
            } else {
                d = d * 2;
            }
        }
        k = k + 1;
    }
    d
}

} // verus!
