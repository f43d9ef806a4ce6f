use vstd::prelude::*;
use crate::error::ConfigError;

verus! {

/// `d` divides `n`.
pub open spec fn divides(d: nat, n: nat) -> bool {
    d > 0 && n % d == 0
}

/// `g` is the greatest common divisor of `a` and `b`; that of zero and zero is zero.
pub open spec fn is_gcd(a: nat, b: nat, g: nat) -> bool {
    if a == 0 && b == 0 {
        g == 0
    } else {
        &&& divides(g, a)
        &&& divides(g, b)
        &&& forall|d: nat| divides(d, a) && divides(d, b) ==> d <= g
    }
}

/// The greatest common divisor of `a` and `b`.
pub open spec fn gcd_of(a: nat, b: nat) -> nat {
    choose|g: nat| is_gcd(a, b, g)
}

/// Two numbers have one greatest common divisor.
pub proof fn lemma_gcd_unique(a: nat, b: nat, g: nat)
    requires
        is_gcd(a, b, g),
    ensures
        g == gcd_of(a, b),
{
    let h = gcd_of(a, b);
    assert(is_gcd(a, b, h));
    if a != 0 || b != 0 {
        assert(h <= g);
        assert(g <= h);
    }
}

/// No number above one divides both `a` and `b`.
pub open spec fn coprime(a: nat, b: nat) -> bool {
    forall|d: nat| divides(d, a) && divides(d, b) ==> d == 1
}

/// Greatest common divisor of two numbers, as `num_integer::gcd` computes it.
/// The claim is the one the crate documents: the result divides both numbers
/// and no common divisor is larger; of zero and zero it is zero.
#[verifier::external_body]
fn gcd(a: u64, b: u64) -> (g: u64)
    ensures
        is_gcd(a as nat, b as nat, g as nat),
{
    num_integer::gcd(a, b)
}

/// The greatest common divisor of two numbers.
pub fn greatest_common_divisor(a: u64, b: u64) -> (g: u64)
    ensures
        g == gcd_of(a as nat, b as nat),
        is_gcd(a as nat, b as nat, g as nat),
{
    let g = gcd(a, b);
    proof {
        lemma_gcd_unique(a as nat, b as nat, g as nat);
    }
    g
}

/// A divisor of a positive number is no larger than it.
pub proof fn lemma_divisor_bound(d: nat, n: nat)
    requires
        divides(d, n),
        n > 0,
    ensures
        d <= n,
        (n / d) * d == n,
        n / d > 0,
{
    vstd::arithmetic::div_mod::lemma_fundamental_div_mod(n as int, d as int);
    let q = n / d;
    assert(n == d * q);
    assert(q > 0 && d <= n && q * d == n) by (nonlinear_arith)
        requires
            n == d * q,
            n > 0,
            d > 0,
            q >= 0,
    ;
}

/// A product divides whatever its factors divide in turn.
proof fn lemma_divides_scaled(c: nat, g: nat, q: nat, n: nat)
    requires
        divides(c, q),
        g > 0,
        q * g == n,
    ensures
        divides(c * g, n),
{
    vstd::arithmetic::div_mod::lemma_fundamental_div_mod(q as int, c as int);
    let k = q / c;
    assert(q == c * k);
    assert(n == (c * g) * k && c * g > 0) by (nonlinear_arith)
        requires
            q == c * k,
            q * g == n,
            c > 0,
            g > 0,
    ;
    vstd::arithmetic::div_mod::lemma_mod_multiples_basic(k as int, (c * g) as int);
    assert((k * (c * g)) == n) by (nonlinear_arith)
        requires
            n == (c * g) * k,
    ;
}

/// Dividing two numbers by their greatest common divisor leaves them coprime.
pub proof fn lemma_reduced_is_coprime(a: nat, b: nat, g: nat)
    requires
        a > 0,
        b > 0,
        is_gcd(a, b, g),
    ensures
        g > 0,
        (a / g) * g == a,
        (b / g) * g == b,
        coprime(a / g, b / g),
{
    lemma_divisor_bound(g, a);
    lemma_divisor_bound(g, b);
    let i = a / g;
    let d = b / g;
    assert forall|c: nat| divides(c, i) && divides(c, d) implies c == 1 by {
        lemma_divides_scaled(c, g, i, a);
        lemma_divides_scaled(c, g, d, b);
        assert(c * g <= g);
        assert(c <= 1) by (nonlinear_arith)
            requires
                c * g <= g,
                g > 0,
        ;
    }
}

/// A rate change by `interp / decim`, held in lowest terms.
#[derive(Clone, Copy, Debug)]
pub struct Ratio {
    interp: usize,
    decim: usize,
}

impl Ratio {
    /// The interpolation factor, as a number.
    pub closed spec fn spec_interp(&self) -> usize {
        self.interp
    }

    /// The decimation factor, as a number.
    pub closed spec fn spec_decim(&self) -> usize {
        self.decim
    }

    /// Both factors are positive and share no divisor.
    pub open spec fn wf(&self) -> bool {
        &&& self.interp() > 0
        &&& self.decim() > 0
        &&& coprime(self.interp() as nat, self.decim() as nat)
    }

    #[verifier::type_invariant]
    spec fn inv(self) -> bool {
        self.wf()
    }

    /// The ratio `interp / decim` in lowest terms. A factor of zero is refused.
    pub fn new(interp: usize, decim: usize) -> (r: Result<Ratio, ConfigError>)
        ensures
            interp == 0 ==> r == Err::<Ratio, ConfigError>(ConfigError::ZeroInterpolation),
            interp != 0 && decim == 0 ==> r == Err::<Ratio, ConfigError>(
                ConfigError::ZeroDecimation,
            ),
            interp != 0 && decim != 0 ==> {
                &&& r matches Ok(q)
                &&& q.wf()
                &&& q.interp() == interp as nat / gcd_of(interp as nat, decim as nat)
                &&& q.decim() == decim as nat / gcd_of(interp as nat, decim as nat)
                &&& q.interp() * decim == q.decim() * interp
            },
    {
        if interp == 0 {
            return Err(ConfigError::ZeroInterpolation);
        }
        if decim == 0 {
            return Err(ConfigError::ZeroDecimation);
        }
        let g = greatest_common_divisor(interp as u64, decim as u64);
        proof {
            lemma_reduced_is_coprime(interp as nat, decim as nat, g as nat);
            lemma_divisor_bound(g as nat, interp as nat);
        }
        let g = g as usize;
        let i = interp / g;
        let d = decim / g;
        proof {
            assert(i * decim == d * interp) by (nonlinear_arith)
                requires
                    i * g == interp,
                    d * g == decim,
            ;
            lemma_divisor_bound(g as nat, decim as nat);
        }
        Ok(Ratio { interp: i, decim: d })
    }

    /// The ratio `1 / decim`: a pure decimation. A factor of zero is refused.
    pub fn decimation(decim: usize) -> (r: Result<Ratio, ConfigError>)
        ensures
            decim == 0 ==> r == Err::<Ratio, ConfigError>(ConfigError::ZeroDecimation),
            decim != 0 ==> r is Ok && r->Ok_0.wf() && r->Ok_0.interp() == 1 && r->Ok_0.decim()
                == decim,
    {
        if decim == 0 {
            return Err(ConfigError::ZeroDecimation);
        }
        proof {
            assert forall|d: nat| divides(d, 1) && divides(d, decim as nat) implies d == 1 by {
                lemma_divisor_bound(d, 1);
            }
        }
        Ok(Ratio { interp: 1, decim })
    }

    /// The interpolation factor.
    #[verifier::when_used_as_spec(spec_interp)]
    pub fn interp(&self) -> (l: usize)
        ensures
            l == self.interp(),
            self.wf(),
    {
        proof {
            use_type_invariant(self);
        }
        self.interp
    }

    /// The decimation factor.
    #[verifier::when_used_as_spec(spec_decim)]
    pub fn decim(&self) -> (m: usize)
        ensures
            m == self.decim(),
            self.wf(),
    {
        proof {
            use_type_invariant(self);
        }
        self.decim
    }
}

} // verus!
