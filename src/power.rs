use vstd::prelude::*;

verus! {

/// `base` raised to the natural power `n`, over the integers.
pub open spec fn ipow(base: int, n: nat) -> int
    decreases n,
{
    if n == 0 {
        1
    } else {
        base * ipow(base, (n - 1) as nat)
    }
}

pub open spec fn fits_i32(x: int) -> bool {
    i32::MIN <= x <= i32::MAX
}

/// The integer part (toward zero) of `base` raised to `exp`.
///
/// A non-negative exponent gives `base^exp` when it fits in `i32`. A negative
/// exponent gives the integer part of `1 / base^|exp|`: `1` or `-1` for a base
/// of magnitude one, and `0` for any larger base. A result that does not fit,
/// and zero raised to a negative power, are arithmetic faults (`None`).
pub open spec fn power(base: i32, exp: i32) -> Option<i32> {
    if exp >= 0 {
        let p = ipow(base as int, exp as nat);
        if fits_i32(p) {
            Some(p as i32)
        } else {
            None
        }
    } else if base == 0 {
        None
    } else if base == 1 {
        Some(1)
    } else if base == -1 {
        if (exp as int) % 2 == 0 {
            Some(1i32)
        } else {
            Some(-1i32)
        }
    } else {
        Some(0)
    }
}

proof fn lemma_ipow_unit(base: int, n: nat)
    requires
        -1 <= base <= 1,
    ensures
        base == 0 ==> ipow(base, n) == if n == 0 { 1int } else { 0int },
        base == 1 ==> ipow(base, n) == 1,
        base == -1 ==> ipow(base, n) == if n % 2 == 0 { 1int } else { -1int },
    decreases n,
{
    if n > 0 {
        lemma_ipow_unit(base, (n - 1) as nat);
    }
}

/// Past the first power, each further power of a base of magnitude at least
/// two at least doubles in magnitude.
proof fn lemma_ipow_grows(base: int, i: nat, n: nat)
    requires
        base >= 2 || base <= -2,
        i < n,
    ensures
        abs(ipow(base, n)) >= 2 * abs(ipow(base, i)),
    decreases n,
{
    let prev = ipow(base, (n - 1) as nat);
    if i < n - 1 {
        lemma_ipow_grows(base, i, (n - 1) as nat);
    }
    assert(abs(base * prev) >= 2 * abs(prev)) by (nonlinear_arith)
        requires
            base >= 2 || base <= -2,
    ;
}

pub open spec fn abs(x: int) -> int {
    if x < 0 {
        -x
    } else {
        x
    }
}

/// Raises `base` to `exp` with integer arithmetic, reporting overflow and a
/// zero base under a negative exponent as `None`.
pub fn checked_power(base: i32, exp: i32) -> (r: Option<i32>)
    ensures
        r == power(base, exp),
{
    if exp < 0 {
        if base == 0 {
            None
        } else if base == 1 {
            Some(1)
        } else if base == -1 {
            if exp % 2 == 0 {
                Some(1)
            } else {
                Some(-1)
            }
        } else {
            Some(0)
        }
    } else if -1 <= base && base <= 1 {
        proof {
            lemma_ipow_unit(base as int, exp as nat);
        }
        if base == 1 || exp == 0 {
            Some(1)
        } else if base == 0 {
            Some(0)
        } else if exp % 2 == 0 {
            Some(1)
        } else {
            Some(-1)
        }
    } else {
        let mut acc: i32 = 1;
        let mut i: i32 = 0;
        while i < exp
            invariant
                0 <= i <= exp,
                base >= 2 || base <= -2,
                acc as int == ipow(base as int, i as nat),
            decreases exp - i,
        {
            proof {
                assert(ipow(base as int, (i + 1) as nat) == base * ipow(base as int, i as nat));
                assert(acc * base == base * acc) by (nonlinear_arith);
            }
            match acc.checked_mul(base) {
                Some(v) => {
                    acc = v;
                    i = i + 1;
                },
                None => {
                    proof {
                        let next = (i + 1) as nat;
                                                if next < exp {
                            lemma_ipow_grows(base as int, next, exp as nat);
                        }
                    }
                    return None;
                },
            }
        }
        Some(acc)
    }
}

} // verus!
