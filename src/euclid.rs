use vstd::arithmetic::div_mod::lemma_small_mod;
use vstd::prelude::*;

verus! {

/// Greatest common divisor, by Euclid's recurrence.
pub open spec fn gcd_spec(a: nat, b: nat) -> nat
    decreases b,
{
    if b == 0 {
        a
    } else {
        gcd_spec(b, a % b)
    }
}

/// Greatest common divisor of two positive integers.
pub fn gcd(n: u64, m: u64) -> (r: u64)
    requires
        n != 0,
        m != 0,
    ensures
        r as nat == gcd_spec(n as nat, m as nat),
{
    let mut a: u64 = n;
    let mut b: u64 = m;
    while b != 0
        invariant
            a != 0,
            gcd_spec(a as nat, b as nat) == gcd_spec(n as nat, m as nat),
        decreases b,
    {
        proof {
            // Unfolding twice shows that the order of the arguments does not matter
            // once the smaller one comes first.
            if a < b {
                lemma_small_mod(a as nat, b as nat);
                assert(gcd_spec(a as nat, b as nat) == gcd_spec(b as nat, a as nat));
            }
        }
        if b < a {
            let t: u64 = b;
            b = a;
            a = t;
        }
        b = b % a;
    }
    a
}

} // verus!
