//! The trusted boundary to the BLS12-381 group arithmetic.
//!
//! Each of the groups G1, G2 and GT of BLS12-381 is cyclic of the same
//! prime order (`group_order`).  Every element of such a group is a unique
//! power of the fixed generator, so an element is fully described by its
//! discrete logarithm: an integer in `[0, group_order)`.  The
//! uninterpreted functions below (`g1_log`, `g2_log`, `gt_log`,
//! `scalar_val`, ...) give that description, with `gt_log` taken with
//! respect to the pairing of the two source-group generators.  The
//! wrappers state what each group operation of the `bls12_381` crate does
//! to those exponents: addition of points adds logarithms, scalar
//! multiplication multiplies them, and the bilinear pairing maps a pair of
//! source-group elements to the product of their logarithms, since
//! `e(a*G1, b*G2) = e(G1, G2)^(a*b)`.
//!
//! The exponent claims are stated only for elements of the prime-order
//! subgroups (`g1_in_group`, `g2_in_group`); values of `Gt` and `Scalar`
//! cannot be constructed outside them.

use crate::exponents::group_order;
use vstd::prelude::*;

verus! {

#[verifier::external_type_specification]
#[verifier::external_body]
pub struct ExG1Affine(bls12_381::G1Affine);

#[verifier::external_type_specification]
#[verifier::external_body]
pub struct ExG2Affine(bls12_381::G2Affine);

#[verifier::external_type_specification]
#[verifier::external_body]
pub struct ExGt(bls12_381::Gt);

#[verifier::external_type_specification]
#[verifier::external_body]
pub struct ExScalar(bls12_381::Scalar);

#[verifier::external_type_specification]
#[verifier::external_body]
pub struct ExThreadRng(rand::rngs::ThreadRng);

/// The discrete logarithm of a G1 subgroup element, base the fixed G1
/// generator.
pub uninterp spec fn g1_log(p: bls12_381::G1Affine) -> int;

/// The discrete logarithm of a G2 subgroup element, base the fixed G2
/// generator.
pub uninterp spec fn g2_log(p: bls12_381::G2Affine) -> int;

/// The discrete logarithm of a target-group element, base the pairing of
/// the two source-group generators.
pub uninterp spec fn gt_log(x: bls12_381::Gt) -> int;

/// The integer a scalar stands for, in `[0, group_order)`.
pub uninterp spec fn scalar_val(k: bls12_381::Scalar) -> int;

/// What `G1Affine::is_on_curve` returns for this point.
pub uninterp spec fn g1_on_curve(p: bls12_381::G1Affine) -> bool;

/// What `G1Affine::is_torsion_free` returns for this point.
pub uninterp spec fn g1_torsion_free(p: bls12_381::G1Affine) -> bool;

/// What `G2Affine::is_on_curve` returns for this point.
pub uninterp spec fn g2_on_curve(p: bls12_381::G2Affine) -> bool;

/// What `G2Affine::is_torsion_free` returns for this point.
pub uninterp spec fn g2_torsion_free(p: bls12_381::G2Affine) -> bool;

/// The canonical 48-byte compressed encoding of a G1 point.
pub uninterp spec fn g1_enc(p: bls12_381::G1Affine) -> Seq<u8>;

/// The canonical 96-byte compressed encoding of a G2 point.
pub uninterp spec fn g2_enc(p: bls12_381::G2Affine) -> Seq<u8>;

/// A G1 point that lies on the curve and in the prime-order subgroup: an
/// element the discrete-logarithm description applies to.
pub open spec fn g1_in_group(p: bls12_381::G1Affine) -> bool {
    g1_on_curve(p) && g1_torsion_free(p)
}

/// A G2 point that lies on the curve and in the prime-order subgroup.
pub open spec fn g2_in_group(p: bls12_381::G2Affine) -> bool {
    g2_on_curve(p) && g2_torsion_free(p)
}

/// Relies on `G1Affine::generator`: the fixed generator, logarithm one.
#[verifier::external_body]
pub(crate) fn g1_generator() -> (r: bls12_381::G1Affine)
    ensures
        g1_in_group(r),
        g1_log(r) == 1,
{
    bls12_381::G1Affine::generator()
}

/// Relies on `G2Affine::generator`: the fixed generator, logarithm one.
#[verifier::external_body]
pub(crate) fn g2_generator() -> (r: bls12_381::G2Affine)
    ensures
        g2_in_group(r),
        g2_log(r) == 1,
{
    bls12_381::G2Affine::generator()
}

/// Relies on `Scalar::random` (`ff::Field::random`): a uniformly random
/// element of the scalar field, so its value lies below the field's prime
/// modulus.  Nothing more is stated of it: the draw is not a function of
/// the arguments.  An entropy failure in the operating system aborts
/// inside the `rand` crate rather than returning.
#[verifier::external_body]
pub(crate) fn random_scalar(rng: &mut rand::rngs::ThreadRng) -> (r: bls12_381::Scalar)
    ensures
        0 <= scalar_val(r) < group_order(),
{
    <bls12_381::Scalar as ff::Field>::random(rng)
}

/// Relies on `Scalar::is_zero` (`ff::Field::is_zero`): true exactly for
/// the zero scalar.
#[verifier::external_body]
pub(crate) fn scalar_is_zero(k: &bls12_381::Scalar) -> (r: bool)
    ensures
        r <==> scalar_val(*k) == 0,
{
    bool::from(<bls12_381::Scalar as ff::Field>::is_zero(k))
}

/// Relies on scalar multiplication in G1 (`&G1Affine * &Scalar`): the
/// logarithm of `k * p` is `log(p) * k`, reduced modulo the group order.
#[verifier::external_body]
pub(crate) fn g1_mul(p: &bls12_381::G1Affine, k: &bls12_381::Scalar) -> (r: bls12_381::G1Affine)
    requires
        g1_in_group(*p),
    ensures
        g1_in_group(r),
        g1_log(r) == (g1_log(*p) * scalar_val(*k)) % group_order(),
{
    bls12_381::G1Affine::from(p * k)
}

/// Relies on scalar multiplication in G2 (`&G2Affine * &Scalar`): as for
/// G1, the logarithm of the product is the product of the logarithms.
#[verifier::external_body]
pub(crate) fn g2_mul(p: &bls12_381::G2Affine, k: &bls12_381::Scalar) -> (r: bls12_381::G2Affine)
    requires
        g2_in_group(*p),
    ensures
        g2_in_group(r),
        g2_log(r) == (g2_log(*p) * scalar_val(*k)) % group_order(),
{
    bls12_381::G2Affine::from(p * k)
}

/// Relies on point addition in G2: the group law adds discrete
/// logarithms.
#[verifier::external_body]
pub(crate) fn g2_add(a: &bls12_381::G2Affine, b: &bls12_381::G2Affine) -> (r: bls12_381::G2Affine)
    requires
        g2_in_group(*a),
        g2_in_group(*b),
    ensures
        g2_in_group(r),
        g2_log(r) == (g2_log(*a) + g2_log(*b)) % group_order(),
{
    bls12_381::G2Affine::from(bls12_381::G2Projective::from(a) + bls12_381::G2Projective::from(b))
}

/// Relies on addition in the target group `Gt`: the group law adds
/// discrete logarithms.
#[verifier::external_body]
pub(crate) fn gt_add(a: &bls12_381::Gt, b: &bls12_381::Gt) -> (r: bls12_381::Gt)
    ensures
        gt_log(r) == (gt_log(*a) + gt_log(*b)) % group_order(),
{
    *a + *b
}

/// Relies on `bls12_381::pairing`: the bilinear map sends
/// `(a*G1, b*G2)` to the `a*b`-th power of the pairing of the generators.
#[verifier::external_body]
pub(crate) fn pairing_of(p: &bls12_381::G1Affine, q: &bls12_381::G2Affine) -> (r: bls12_381::Gt)
    requires
        g1_in_group(*p),
        g2_in_group(*q),
    ensures
        gt_log(r) == (g1_log(*p) * g2_log(*q)) % group_order(),
{
    bls12_381::pairing(p, q)
}

/// Relies on `PartialEq` for `Gt`: equality of the canonical field
/// representations, which coincides with equality of group elements and
/// hence of their discrete logarithms.
#[verifier::external_body]
pub(crate) fn gt_eq(a: &bls12_381::Gt, b: &bls12_381::Gt) -> (r: bool)
    ensures
        r <==> gt_log(*a) == gt_log(*b),
{
    a == b
}

/// Relies on `G1Affine::is_identity`: true exactly for the point at
/// infinity, the subgroup element of logarithm zero.
#[verifier::external_body]
pub(crate) fn g1_is_identity(p: &bls12_381::G1Affine) -> (r: bool)
    requires
        g1_in_group(*p),
    ensures
        r <==> g1_log(*p) == 0,
{
    bool::from(p.is_identity())
}

/// Relies on `G1Affine::is_on_curve`.
#[verifier::external_body]
pub(crate) fn g1_is_on_curve(p: &bls12_381::G1Affine) -> (r: bool)
    ensures
        r == g1_on_curve(*p),
{
    bool::from(p.is_on_curve())
}

/// Relies on `G1Affine::is_torsion_free`.
#[verifier::external_body]
pub(crate) fn g1_is_torsion_free(p: &bls12_381::G1Affine) -> (r: bool)
    ensures
        r == g1_torsion_free(*p),
{
    bool::from(p.is_torsion_free())
}

/// Relies on `G2Affine::is_on_curve`.
#[verifier::external_body]
pub(crate) fn g2_is_on_curve(p: &bls12_381::G2Affine) -> (r: bool)
    ensures
        r == g2_on_curve(*p),
{
    bool::from(p.is_on_curve())
}

/// Relies on `G2Affine::is_torsion_free`.
#[verifier::external_body]
pub(crate) fn g2_is_torsion_free(p: &bls12_381::G2Affine) -> (r: bool)
    ensures
        r == g2_torsion_free(*p),
{
    bool::from(p.is_torsion_free())
}

/// Relies on `G1Affine::to_compressed`: the canonical 48-byte compressed
/// encoding of the point.
#[verifier::external_body]
pub(crate) fn g1_encode(p: &bls12_381::G1Affine) -> (r: Vec<u8>)
    ensures
        r@ == g1_enc(*p),
        r@.len() == 48,
{
    p.to_compressed().to_vec()
}

/// Relies on `G2Affine::to_compressed`: the canonical 96-byte compressed
/// encoding of the point.
#[verifier::external_body]
pub(crate) fn g2_encode(p: &bls12_381::G2Affine) -> (r: Vec<u8>)
    ensures
        r@ == g2_enc(*p),
        r@.len() == 96,
{
    p.to_compressed().to_vec()
}

/// Relies on `G1Affine::from_compressed`: it accepts exactly the
/// canonical compressed encodings of on-curve, subgroup points, and
/// returns the unique point so encoded.
#[verifier::external_body]
pub(crate) fn g1_decode_at(bytes: &[u8], off: usize) -> (r: Option<bls12_381::G1Affine>)
    requires
        off + 48 <= bytes@.len(),
    ensures
        match r {
            Some(p) => g1_in_group(p) && g1_enc(p) == bytes@.subrange(off as int, off + 48)
                && (forall|q: bls12_381::G1Affine|
                g1_in_group(q) && g1_enc(q) == bytes@.subrange(off as int, off + 48) ==> q == p),
            None => forall|q: bls12_381::G1Affine|
                g1_in_group(q) ==> g1_enc(q) != bytes@.subrange(off as int, off + 48),
        },
{
    let chunk: [u8; 48] = bytes[off..off + 48].try_into().unwrap();
    bls12_381::G1Affine::from_compressed(&chunk).into()
}

/// Relies on `G2Affine::from_compressed`: it accepts exactly the
/// canonical compressed encodings of on-curve, subgroup points, and
/// returns the unique point so encoded.
#[verifier::external_body]
pub(crate) fn g2_decode_at(bytes: &[u8], off: usize) -> (r: Option<bls12_381::G2Affine>)
    requires
        off + 96 <= bytes@.len(),
    ensures
        match r {
            Some(p) => g2_in_group(p) && g2_enc(p) == bytes@.subrange(off as int, off + 96)
                && (forall|q: bls12_381::G2Affine|
                g2_in_group(q) && g2_enc(q) == bytes@.subrange(off as int, off + 96) ==> q == p),
            None => forall|q: bls12_381::G2Affine|
                g2_in_group(q) ==> g2_enc(q) != bytes@.subrange(off as int, off + 96),
        },
{
    let chunk: [u8; 96] = bytes[off..off + 96].try_into().unwrap();
    bls12_381::G2Affine::from_compressed(&chunk).into()
}

} // verus!
