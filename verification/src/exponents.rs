//! The mathematical model of the scheme: every group element is tracked by
//! its discrete logarithm, so commitments are described by exponent
//! arithmetic modulo the prime order of the BLS12-381 groups.

use vstd::arithmetic::div_mod::{
    lemma_add_mod_noop, lemma_add_mod_noop_right, lemma_mul_mod_noop_right,
};
use vstd::arithmetic::mul::lemma_mul_is_distributive_add;
use vstd::prelude::*;

verus! {

/// The prime order of the BLS12-381 groups G1, G2 and GT: the modulus of
/// the scalar field.
pub open spec fn group_order() -> int {
    0x73eda753299d7d483339d80809a1d80553bda402fffe5bfeffffffff00000001int
}

/// The exponent of a product of pairings of parallel key and value
/// elements: the dot product of the two exponent sequences.
pub open spec fn dot(a: Seq<int>, b: Seq<int>) -> int
    decreases a.len(),
{
    if a.len() == 0 {
        0
    } else {
        a[0] * b[0] + dot(a.drop_first(), b.drop_first())
    }
}

/// The exponent of one component of a commitment: the blinding terms
/// `kr * r` and `ks * s` plus the key/value dot product, reduced modulo
/// the group order.
pub open spec fn commit_exp(key: Seq<int>, kr: int, ks: int, vals: Seq<int>, r: int, s: int) -> int {
    (kr * r + ks * s + dot(key, vals)) % group_order()
}

/// Pointwise composition of two exponent sequences: the exponents of the
/// pointwise group product of two value vectors.
pub open spec fn seq_add_mod(a: Seq<int>, b: Seq<int>) -> Seq<int> {
    Seq::new(a.len(), |i: int| (a[i] + b[i]) % group_order())
}

/// Appending a parallel pair of elements extends a dot product by the
/// product of that pair.
pub proof fn lemma_dot_push(a: Seq<int>, b: Seq<int>, x: int, y: int)
    requires
        a.len() == b.len(),
    ensures
        dot(a.push(x), b.push(y)) == dot(a, b) + x * y,
    decreases a.len(),
{
    if a.len() == 0 {
        assert(a.push(x).drop_first() =~= a);
        assert(b.push(y).drop_first() =~= b);
    } else {
        assert(a.push(x).drop_first() =~= a.drop_first().push(x));
        assert(b.push(y).drop_first() =~= b.drop_first().push(y));
        lemma_dot_push(a.drop_first(), b.drop_first(), x, y);
    }
}

/// A dot product over one more prefix element extends the shorter dot
/// product by the product at that index.
pub proof fn lemma_dot_take_succ(a: Seq<int>, b: Seq<int>, i: int)
    requires
        a.len() == b.len(),
        0 <= i < a.len(),
    ensures
        dot(a.take(i + 1), b.take(i + 1)) == dot(a.take(i), b.take(i)) + a[i] * b[i],
{
    assert(a.take(i + 1) =~= a.take(i).push(a[i]));
    assert(b.take(i + 1) =~= b.take(i).push(b[i]));
    lemma_dot_push(a.take(i), b.take(i), a[i], b[i]);
}

/// A dot product against pointwise-composed exponents splits, modulo the
/// group order, into the sum of the two separate dot products.
pub proof fn lemma_dot_compose(a: Seq<int>, v1: Seq<int>, v2: Seq<int>)
    requires
        a.len() == v1.len(),
        a.len() == v2.len(),
    ensures
        dot(a, seq_add_mod(v1, v2)) % group_order() == (dot(a, v1) + dot(a, v2)) % group_order(),
    decreases a.len(),
{
    let p = group_order();
    let s = seq_add_mod(v1, v2);
    if a.len() == 0 {
    } else {
        let a1 = a.drop_first();
        let w1 = v1.drop_first();
        let w2 = v2.drop_first();
        assert(s.drop_first() =~= seq_add_mod(w1, w2));
        lemma_dot_compose(a1, w1, w2);
        let tail = dot(a1, seq_add_mod(w1, w2));
        let head = a[0] * ((v1[0] + v2[0]) % p);
        assert(dot(a, s) == head + tail);
        // Reduce the head's inner modulus away.
        lemma_add_mod_noop(head, tail, p);
        lemma_mul_mod_noop_right(a[0], v1[0] + v2[0], p);
        lemma_add_mod_noop(a[0] * (v1[0] + v2[0]), tail, p);
        assert((head + tail) % p == (a[0] * (v1[0] + v2[0]) + tail) % p);
        // Replace the composed tail by the sum of the plain tails.
        lemma_add_mod_noop_right(a[0] * (v1[0] + v2[0]), tail, p);
        lemma_add_mod_noop_right(a[0] * (v1[0] + v2[0]), dot(a1, w1) + dot(a1, w2), p);
        assert((a[0] * (v1[0] + v2[0]) + tail) % p == (a[0] * (v1[0] + v2[0]) + (dot(a1, w1)
            + dot(a1, w2))) % p);
        // Distribute the head over the sum of value exponents.
        lemma_mul_is_distributive_add(a[0], v1[0], v2[0]);
        assert(a[0] * (v1[0] + v2[0]) + (dot(a1, w1) + dot(a1, w2)) == (a[0] * v1[0] + dot(
            a1,
            w1,
        )) + (a[0] * v2[0] + dot(a1, w2)));
        assert(dot(a, v1) == a[0] * v1[0] + dot(a1, w1));
        assert(dot(a, v2) == a[0] * v2[0] + dot(a1, w2));
    }
}

/// The homomorphism law over exponents: composing the exponents of two
/// commitments computed under one key equals the exponent of the
/// commitment to the pointwise-composed values under the pairwise-composed
/// randomness.
pub proof fn lemma_commit_exp_compose(
    key: Seq<int>,
    kr: int,
    ks: int,
    v1: Seq<int>,
    r1: int,
    s1: int,
    v2: Seq<int>,
    r2: int,
    s2: int,
)
    requires
        key.len() == v1.len(),
        key.len() == v2.len(),
    ensures
        (commit_exp(key, kr, ks, v1, r1, s1) + commit_exp(key, kr, ks, v2, r2, s2))
            % group_order() == commit_exp(
            key,
            kr,
            ks,
            seq_add_mod(v1, v2),
            (r1 + r2) % group_order(),
            (s1 + s2) % group_order(),
        ),
{
    let p = group_order();
    let e1 = kr * r1 + ks * s1 + dot(key, v1);
    let e2 = kr * r2 + ks * s2 + dot(key, v2);
    // The left side is the composition of the two reduced exponents.
    lemma_add_mod_noop(e1, e2, p);
    assert((commit_exp(key, kr, ks, v1, r1, s1) + commit_exp(key, kr, ks, v2, r2, s2)) % p == (
    e1 + e2) % p);
    // The right side, with each reduced argument widened back out.
    let rr = (r1 + r2) % p;
    let ss = (s1 + s2) % p;
    let d12 = dot(key, seq_add_mod(v1, v2));
    assert((kr * rr + ks * ss + d12) % p == (kr * (r1 + r2) + ks * (s1 + s2) + (dot(key, v1)
        + dot(key, v2))) % p) by {
        // Widen kr * ((r1 + r2) % p) to kr * (r1 + r2).
        lemma_mul_mod_noop_right(kr, r1 + r2, p);
        lemma_add_mod_noop(kr * rr, ks * ss + d12, p);
        lemma_add_mod_noop(kr * (r1 + r2), ks * ss + d12, p);
        // Widen ks * ((s1 + s2) % p) likewise.
        lemma_mul_mod_noop_right(ks, s1 + s2, p);
        lemma_add_mod_noop_right(kr * (r1 + r2) + ks * ss, d12, p);
        lemma_add_mod_noop(ks * ss, d12, p);
        lemma_add_mod_noop(ks * (s1 + s2), d12, p);
        lemma_add_mod_noop_right(kr * (r1 + r2) + ks * (s1 + s2), d12, p);
        assert((kr * rr + ks * ss + d12) % p == (kr * (r1 + r2) + ks * (s1 + s2) + d12) % p);
        // Split the composed dot product.
        lemma_dot_compose(key, v1, v2);
        lemma_add_mod_noop_right(kr * (r1 + r2) + ks * (s1 + s2), dot(key, v1) + dot(key, v2), p);
    }
    // Regroup the widened right side into the two separate exponents.
    lemma_mul_is_distributive_add(kr, r1, r2);
    lemma_mul_is_distributive_add(ks, s1, s2);
    assert(kr * (r1 + r2) + ks * (s1 + s2) + (dot(key, v1) + dot(key, v2)) == e1 + e2);
}

} // verus!
