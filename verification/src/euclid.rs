//! Euclid's algorithm for the greatest common divisor of unsigned integers,
//! with the divisibility facts that make it *the* greatest common divisor.

use vstd::arithmetic::div_mod::lemma_fundamental_div_mod;
use vstd::prelude::*;

verus! {

/// `d` divides `n`: some multiple of `d` equals `n`.
pub open spec fn divides(d: nat, n: nat) -> bool {
    exists|k: nat| n == #[trigger] (k * d)
}

/// The greatest common divisor, by Euclid's recursion.
pub open spec fn spec_gcd(a: nat, b: nat) -> nat
    decreases b,
{
    if b == 0 {
        a
    } else {
        spec_gcd(b, a % b)
    }
}

proof fn lemma_divides_refl(n: nat)
    ensures
        divides(n, n),
{
    assert(n == 1 * n);
}

proof fn lemma_divides_zero(d: nat)
    ensures
        divides(d, 0),
{
    assert(0 == 0 * d);
}

proof fn lemma_divides_le(d: nat, n: nat)
    requires
        divides(d, n),
        n != 0,
    ensures
        0 < d <= n,
{
    let k = choose|k: nat| n == #[trigger] (k * d);
    assert(0 < d <= k * d) by (nonlinear_arith)
        requires
            n == k * d,
            n != 0,
    ;
}

proof fn lemma_divides_trans(x: nat, y: nat, z: nat)
    requires
        divides(x, y),
        divides(y, z),
    ensures
        divides(x, z),
{
    let k1 = choose|k: nat| y == #[trigger] (k * x);
    let k2 = choose|k: nat| z == #[trigger] (k * y);
    assert(z == (k2 * k1) * x) by (nonlinear_arith)
        requires
            y == k1 * x,
            z == k2 * y,
    ;
}

proof fn lemma_divides_antisymmetric(x: nat, y: nat)
    requires
        divides(x, y),
        divides(y, x),
    ensures
        x == y,
{
    if x != 0 && y != 0 {
        lemma_divides_le(x, y);
        lemma_divides_le(y, x);
    } else if x == 0 {
        let k = choose|k: nat| y == #[trigger] (k * x);
        assert(y == k * 0 == 0);
    } else {
        let k = choose|k: nat| x == #[trigger] (k * y);
        assert(x == k * 0 == 0);
    }
}

proof fn lemma_divides_scale(d: nat, n: nat, q: nat)
    requires
        divides(d, n),
    ensures
        divides(d, q * n),
{
    let k = choose|k: nat| n == #[trigger] (k * d);
    assert(q * n == (q * k) * d) by (nonlinear_arith)
        requires
            n == k * d,
    ;
}

proof fn lemma_divides_add(d: nat, x: nat, y: nat)
    requires
        divides(d, x),
        divides(d, y),
    ensures
        divides(d, x + y),
{
    let k1 = choose|k: nat| x == #[trigger] (k * d);
    let k2 = choose|k: nat| y == #[trigger] (k * d);
    assert(x + y == (k1 + k2) * d) by (nonlinear_arith)
        requires
            x == k1 * d,
            y == k2 * d,
    ;
}

proof fn lemma_divides_sum_part(d: nat, x: nat, y: nat)
    requires
        divides(d, x),
        divides(d, x + y),
    ensures
        divides(d, y),
{
    let k1 = choose|k: nat| x == #[trigger] (k * d);
    let k2 = choose|k: nat| x + y == #[trigger] (k * d);
    if d == 0 {
        assert(x + y == k2 * 0 == 0);
        lemma_divides_zero(d);
        assert(y == 0);
    } else {
        assert(k2 >= k1) by (nonlinear_arith)
            requires
                x == k1 * d,
                x + y == k2 * d,
                d > 0,
        ;
        let j: nat = (k2 - k1) as nat;
        assert(y == j * d) by (nonlinear_arith)
            requires
                x == k1 * d,
                x + y == k2 * d,
                j == k2 - k1,
        ;
    }
}

proof fn lemma_divides_mod(d: nat, a: nat, b: nat)
    requires
        b != 0,
        divides(d, a),
        divides(d, b),
    ensures
        divides(d, a % b),
{
    lemma_fundamental_div_mod(a as int, b as int);
    let q: nat = a / b;
    assert(q * b == b * q) by (nonlinear_arith);
    assert(a == q * b + a % b);
    lemma_divides_scale(d, b, q);
    lemma_divides_sum_part(d, q * b, a % b);
}

proof fn lemma_divides_from_mod(d: nat, a: nat, b: nat)
    requires
        b != 0,
        divides(d, b),
        divides(d, a % b),
    ensures
        divides(d, a),
{
    lemma_fundamental_div_mod(a as int, b as int);
    let q: nat = a / b;
    assert(q * b == b * q) by (nonlinear_arith);
    assert(a == q * b + a % b);
    lemma_divides_scale(d, b, q);
    lemma_divides_add(d, q * b, a % b);
}

/// The greatest common divisor divides both operands.
pub proof fn lemma_gcd_divides_both(a: nat, b: nat)
    ensures
        divides(spec_gcd(a, b), a),
        divides(spec_gcd(a, b), b),
    decreases b,
{
    if b == 0 {
        lemma_divides_refl(a);
        lemma_divides_zero(a);
    } else {
        lemma_gcd_divides_both(b, a % b);
        lemma_divides_from_mod(spec_gcd(b, a % b), a, b);
    }
}

/// Every common divisor of the operands divides their greatest common divisor.
pub proof fn lemma_gcd_greatest(a: nat, b: nat, d: nat)
    requires
        divides(d, a),
        divides(d, b),
    ensures
        divides(d, spec_gcd(a, b)),
    decreases b,
{
    if b != 0 {
        lemma_divides_mod(d, a, b);
        lemma_gcd_greatest(b, a % b, d);
    }
}

/// The greatest common divisor of a non-zero operand and anything is non-zero.
pub proof fn lemma_gcd_nonzero(a: nat, b: nat)
    requires
        a != 0,
    ensures
        spec_gcd(a, b) != 0,
{
    lemma_gcd_divides_both(a, b);
    if spec_gcd(a, b) == 0 {
        let k = choose|k: nat| a == #[trigger] (k * spec_gcd(a, b));
        assert(a == k * 0 == 0);
    }
}

/// The greatest common divisor does not depend on the order of its operands.
pub proof fn lemma_gcd_commutes(a: nat, b: nat)
    ensures
        spec_gcd(a, b) == spec_gcd(b, a),
{
    lemma_gcd_divides_both(a, b);
    lemma_gcd_divides_both(b, a);
    lemma_gcd_greatest(b, a, spec_gcd(a, b));
    lemma_gcd_greatest(a, b, spec_gcd(b, a));
    lemma_divides_antisymmetric(spec_gcd(a, b), spec_gcd(b, a));
}

/// The greatest common divisor of equal operands is that operand.
pub proof fn lemma_gcd_self(a: nat)
    ensures
        spec_gcd(a, a) == a,
{
    lemma_gcd_divides_both(a, a);
    lemma_divides_refl(a);
    lemma_gcd_greatest(a, a, a);
    lemma_divides_antisymmetric(spec_gcd(a, a), a);
}

/// Grouping does not matter: taking the greatest common divisor is associative.
pub proof fn lemma_gcd_associative(a: nat, b: nat, c: nat)
    ensures
        spec_gcd(spec_gcd(a, b), c) == spec_gcd(a, spec_gcd(b, c)),
{
    let ab = spec_gcd(a, b);
    let bc = spec_gcd(b, c);
    let l = spec_gcd(ab, c);
    let r = spec_gcd(a, bc);
    lemma_gcd_divides_both(a, b);
    lemma_gcd_divides_both(b, c);
    lemma_gcd_divides_both(ab, c);
    lemma_gcd_divides_both(a, bc);
    lemma_divides_trans(l, ab, a);
    lemma_divides_trans(l, ab, b);
    lemma_gcd_greatest(b, c, l);
    lemma_gcd_greatest(a, bc, l);
    lemma_divides_trans(r, bc, b);
    lemma_divides_trans(r, bc, c);
    lemma_gcd_greatest(a, b, r);
    lemma_gcd_greatest(ab, c, r);
    lemma_divides_antisymmetric(l, r);
}

/// The greatest common divisor of two non-zero operands is a non-zero divisor
/// of both, with zero remainder, and no common divisor exceeds it.
pub proof fn lemma_gcd_divides_exactly(a: nat, b: nat)
    requires
        a != 0,
        b != 0,
    ensures
        spec_gcd(a, b) != 0,
        divides(spec_gcd(a, b), a),
        divides(spec_gcd(a, b), b),
        a % spec_gcd(a, b) == 0,
        b % spec_gcd(a, b) == 0,
        forall|d: nat| divides(d, a) && divides(d, b) ==> d <= spec_gcd(a, b),
{
    let g = spec_gcd(a, b);
    lemma_gcd_divides_both(a, b);
    lemma_gcd_nonzero(a, b);
    lemma_divides_remainder_zero(g, a);
    lemma_divides_remainder_zero(g, b);
    assert forall|d: nat| divides(d, a) && divides(d, b) implies d <= g by {
        lemma_gcd_greatest(a, b, d);
        lemma_divides_le(d, g);
    }
}

proof fn lemma_divides_remainder_zero(d: nat, n: nat)
    requires
        d != 0,
        divides(d, n),
    ensures
        n % d == 0,
{
    let k = choose|k: nat| n == #[trigger] (k * d);
    assert((k * d) % d == 0) by (nonlinear_arith)
        requires
            d != 0,
    ;
}

/// Computes the greatest common divisor of two non-zero integers by Euclid's
/// algorithm: keep replacing the larger operand with its remainder modulo the
/// smaller until one operand vanishes.
pub fn gcd(n: u64, m: u64) -> (r: u64)
    requires
        n != 0,
        m != 0,
    ensures
        r as nat == spec_gcd(n as nat, m as nat),
        r != 0,
{
    let ghost a0: nat = n as nat;
    let ghost b0: nat = m as nat;
    let mut n = n;
    let mut m = m;
    while m != 0
        invariant
            n != 0,
            spec_gcd(n as nat, m as nat) == spec_gcd(a0, b0),
        decreases m,
    {
        if m < n {
            let t = m;
            m = n;
            n = t;
            proof {
                lemma_gcd_commutes(n as nat, m as nat);
            }
        }
        proof {
            lemma_gcd_commutes(n as nat, m as nat);
        }
        m = m % n;
    }
    proof {
        lemma_gcd_nonzero(a0, b0);
    }
    n
}

/// The greatest common divisor of a non-empty list, folded left to right.
pub open spec fn spec_gcd_fold(s: Seq<u64>) -> nat
    recommends
        s.len() >= 1,
    decreases s.len(),
{
    if s.len() <= 1 {
        s[0] as nat
    } else {
        spec_gcd(spec_gcd_fold(s.drop_last()), s.last() as nat)
    }
}

/// Folds the greatest common divisor left to right over a non-empty list of
/// non-zero operands.
pub fn gcd_of_all(numbers: &Vec<u64>) -> (d: u64)
    requires
        numbers@.len() >= 1,
        forall|i: int| 0 <= i < numbers@.len() ==> numbers@[i] != 0,
    ensures
        d as nat == spec_gcd_fold(numbers@),
        d != 0,
{
    let mut d = numbers[0];
    let mut i: usize = 1;
    while i < numbers.len()
        invariant
            1 <= i <= numbers@.len(),
            forall|j: int| 0 <= j < numbers@.len() ==> numbers@[j] != 0,
            d as nat == spec_gcd_fold(numbers@.take(i as int)),
            d != 0,
        decreases numbers@.len() - i,
    {
        d = gcd(d, numbers[i]);
        proof {
            assert(numbers@.take(i + 1).drop_last() =~= numbers@.take(i as int));
            assert(numbers@.take(i + 1).last() == numbers@[i as int]);
        }
        i = i + 1;
    }
    proof {
        assert(numbers@.take(numbers@.len() as int) =~= numbers@);
    }
    d
}

} // verus!
