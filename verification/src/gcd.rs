use vstd::prelude::*;

verus! {

/// The greatest common divisor, by Euclid's remainder recurrence; the
/// divisor of `n` and 0 is `n` itself.
pub open spec fn spec_gcd(n: nat, m: nat) -> nat
    decreases m,
{
    if m == 0 {
        n
    } else {
        spec_gcd(m, n % m)
    }
}

/// The recurrence computes a genuine common divisor: unless both arguments
/// are zero, the result is positive and divides each of them.
pub proof fn lemma_gcd_divides(n: nat, m: nat)
    requires
        n > 0 || m > 0,
    ensures
        spec_gcd(n, m) > 0,
        n % spec_gcd(n, m) == 0,
        m % spec_gcd(n, m) == 0,
    decreases m,
{
    if m == 0 {
        vstd::arithmetic::div_mod::lemma_mod_self_0(n as int);
        vstd::arithmetic::div_mod::lemma_small_mod(0, n);
    } else {
        vstd::arithmetic::div_mod::lemma_mod_decreases(n, m);
        lemma_gcd_divides(m, n % m);
        let g = spec_gcd(m, n % m) as int;
        let q = n as int / m as int;
        let r = n as int % m as int;
        vstd::arithmetic::div_mod::lemma_fundamental_div_mod(n as int, m as int);
        assert(n as int == m as int * q + r);
        vstd::arithmetic::div_mod::lemma_mul_mod_noop_left(m as int, q, g);
        assert(m as int % g == 0);
        assert((m as int % g) * q == 0);
        vstd::arithmetic::div_mod::lemma_small_mod(0, g as nat);
        assert((m as int * q) % g == 0);
        vstd::arithmetic::div_mod::lemma_add_mod_noop(m as int * q, r, g);
        assert(n as int % g == 0);
    }
}

/// The greatest common divisor of two numbers.
pub fn gcd(n: u64, m: u64) -> (r: u64)
    ensures
        r == spec_gcd(n as nat, m as nat),
{
    let mut a = n;
    let mut b = m;
    while b != 0
        invariant
            spec_gcd(a as nat, b as nat) == spec_gcd(n as nat, m as nat),
        decreases b,
    {
        let t = a % b;
        a = b;
        b = t;
    }
    a
}

/// The two numbers a divisor request asks about.
pub struct GcdParameters {
    pub n: u64,
    pub m: u64,
}

/// The decision behind the request handler: a request naming zero is
/// refused, any other pair gets its greatest common divisor.
pub fn compute_gcd(form: &GcdParameters) -> (r: Option<u64>)
    ensures
        r is None <==> form.n == 0 || form.m == 0,
        r matches Some(g) ==> g == spec_gcd(form.n as nat, form.m as nat),
{
    if form.n == 0 || form.m == 0 {
        return None;
    }
    Some(gcd(form.n, form.m))
}

} // verus!
