//! The commitment scheme itself: value vectors, randomness pairs,
//! commitment keys, commitment computation, and the homomorphic
//! composition operators.

use crate::algebra::{
    g1_in_group, g1_is_identity, g1_is_on_curve, g1_is_torsion_free, g1_log, g1_mul,
    g1_generator, g2_add, g2_in_group, g2_is_on_curve, g2_is_torsion_free, g2_log, g2_mul,
    g2_generator, gt_add, gt_eq, gt_log, pairing_of, random_scalar, scalar_is_zero, scalar_val,
};
use crate::exponents::{
    commit_exp, dot, group_order, lemma_commit_exp_compose, lemma_dot_take_succ, seq_add_mod,
};
use crate::Error;
use bls12_381::{G1Affine, G2Affine, Gt};
use vstd::prelude::*;

verus! {

/// An ordered vector of G2 elements: the plaintext a commitment binds to.
#[derive(Debug)]
pub struct Values {
    pub(crate) values: Vec<G2Affine>,
}

/// Two G2 elements `(r, s)` that blind a commitment.  They are the
/// opening of the commitment and must stay secret until intentionally
/// disclosed.
#[derive(Debug)]
pub struct Randomness {
    pub(crate) r: G2Affine,
    pub(crate) s: G2Affine,
}

/// A commitment: a pair `(c, d)` of target-group elements.
#[derive(Debug, PartialEq, Eq)]
pub struct Commitment {
    c: Gt,
    d: Gt,
}

/// The public parameters: two parallel arrays of G1 elements sized to the
/// vector length, plus four auxiliary G1 elements that bind the
/// randomness pair.
#[derive(Debug)]
pub struct CommitmentKey {
    pub(crate) g_arr: Vec<G1Affine>,
    pub(crate) h_arr: Vec<G1Affine>,
    pub(crate) gr: G1Affine,
    pub(crate) hr: G1Affine,
    pub(crate) gs: G1Affine,
    pub(crate) hs: G1Affine,
}

impl Values {
    /// The committed points themselves.
    pub closed spec fn points(&self) -> Seq<G2Affine> {
        self.values@
    }

    /// The exponent model: the discrete logarithm of each committed
    /// point.
    pub open spec fn logs(&self) -> Seq<int> {
        self.points().map_values(|p: G2Affine| g2_log(p))
    }

    /// Every committed point lies in the prime-order subgroup.
    pub open spec fn wf(&self) -> bool {
        forall|i: int| 0 <= i < self.points().len() ==> g2_in_group(#[trigger] self.points()[i])
    }

    pub open spec fn spec_len(&self) -> nat {
        self.points().len()
    }

    /// How many elements this vector holds.
    pub fn len(&self) -> (n: usize)
        ensures
            n == self.spec_len(),
    {
        self.values.len()
    }

    /// Wraps a vector of supplied points, first checking that each lies
    /// on the curve and in the prime-order subgroup: points from outside
    /// are never trusted implicitly.
    pub fn new(values: Vec<G2Affine>) -> (res: Result<Values, Error>)
        ensures
            match res {
                Ok(v) => v.points() == values@,
                Err(e) => e == Error::InvalidGroupElement,
            },
            res is Ok <==> (forall|i: int|
                0 <= i < values@.len() ==> g2_in_group(#[trigger] values@[i])),
    {
        let n = values.len();
        for i in 0..n
            invariant
                n == values@.len(),
                forall|j: int| 0 <= j < i ==> g2_in_group(#[trigger] values@[j]),
        {
            if !g2_is_on_curve(&values[i]) {
                return Err(Error::InvalidGroupElement);
            }
            if !g2_is_torsion_free(&values[i]) {
                return Err(Error::InvalidGroupElement);
            }
        }
        Ok(Values { values })
    }

    /// Samples `n` uniformly random subgroup elements.
    pub fn random(n: usize, rng: &mut rand::rngs::ThreadRng) -> (res: Values)
        ensures
            res.wf(),
            res.spec_len() == n,
    {
        let mut values: Vec<G2Affine> = Vec::new();
        for i in 0..n
            invariant
                values@.len() == i,
                forall|j: int| 0 <= j < i ==> g2_in_group(#[trigger] values@[j]),
        {
            values.push(gen_g2_elem(rng));
        }
        Values { values }
    }

    /// Pointwise composition: the group product of two value vectors of
    /// equal length, element by element.  In the exponent model the
    /// logarithms add pointwise, modulo the group order.
    pub fn compose(&self, other: &Values) -> (res: Result<Values, Error>)
        requires
            self.wf(),
            other.wf(),
        ensures
            match res {
                Ok(v) => {
                    &&& self.spec_len() == other.spec_len()
                    &&& v.wf()
                    &&& v.spec_len() == self.spec_len()
                    &&& v.logs() == seq_add_mod(self.logs(), other.logs())
                },
                Err(e) => e == Error::InvalidLength && self.spec_len() != other.spec_len(),
            },
    {
        if self.values.len() != other.values.len() {
            return Err(Error::InvalidLength);
        }
        let n = self.values.len();
        let mut values: Vec<G2Affine> = Vec::new();
        for i in 0..n
            invariant
                n == self.points().len(),
                n == other.points().len(),
                self.wf(),
                other.wf(),
                values@.len() == i,
                forall|j: int| 0 <= j < i ==> g2_in_group(#[trigger] values@[j]),
                forall|j: int|
                    0 <= j < i ==> g2_log(#[trigger] values@[j]) == (g2_log(self.points()[j])
                        + g2_log(other.points()[j])) % group_order(),
        {
            values.push(g2_add(&self.values[i], &other.values[i]));
        }
        let res = Values { values };
        proof {
            assert(res.logs() =~= seq_add_mod(self.logs(), other.logs()));
        }
        Ok(res)
    }
}

impl Randomness {
    /// The first blinding point.
    pub closed spec fn r_point(&self) -> G2Affine {
        self.r
    }

    /// The second blinding point.
    pub closed spec fn s_point(&self) -> G2Affine {
        self.s
    }

    pub open spec fn r_log(&self) -> int {
        g2_log(self.r_point())
    }

    pub open spec fn s_log(&self) -> int {
        g2_log(self.s_point())
    }

    pub open spec fn wf(&self) -> bool {
        g2_in_group(self.r_point()) && g2_in_group(self.s_point())
    }

    /// Draws a fresh, uniformly random randomness pair from the supplied
    /// entropy source.
    pub fn gen(rng: &mut rand::rngs::ThreadRng) -> (res: Randomness)
        ensures
            res.wf(),
    {
        let r = gen_g2_elem(rng);
        let s = gen_g2_elem(rng);
        Randomness { r, s }
    }

    /// Pairwise composition: the group products of the two `r` components
    /// and of the two `s` components.
    pub fn compose(&self, other: &Randomness) -> (res: Randomness)
        requires
            self.wf(),
            other.wf(),
        ensures
            res.wf(),
            res.r_log() == (self.r_log() + other.r_log()) % group_order(),
            res.s_log() == (self.s_log() + other.s_log()) % group_order(),
    {
        let r = g2_add(&self.r, &other.r);
        let s = g2_add(&self.s, &other.s);
        Randomness { r, s }
    }
}

impl Commitment {
    /// The exponent of the first commitment component.
    pub closed spec fn c_log(&self) -> int {
        gt_log(self.c)
    }

    /// The exponent of the second commitment component.
    pub closed spec fn d_log(&self) -> int {
        gt_log(self.d)
    }

    /// Composition of two commitments: the target-group products of the
    /// two components.  In the exponent model the logarithms add, modulo
    /// the group order.
    pub fn compose(&self, other: &Commitment) -> (res: Commitment)
        ensures
            res.c_log() == (self.c_log() + other.c_log()) % group_order(),
            res.d_log() == (self.d_log() + other.d_log()) % group_order(),
    {
        let c = gt_add(&self.c, &other.c);
        let d = gt_add(&self.d, &other.d);
        Commitment { c, d }
    }

    /// Equality of commitments, as used to verify that two openings
    /// match: both components must be the same group element.
    pub fn equals(&self, other: &Commitment) -> (res: bool)
        ensures
            res <==> (self.c_log() == other.c_log() && self.d_log() == other.d_log()),
    {
        gt_eq(&self.c, &other.c) && gt_eq(&self.d, &other.d)
    }
}

impl CommitmentKey {
    pub closed spec fn g_points(&self) -> Seq<G1Affine> {
        self.g_arr@
    }

    pub closed spec fn h_points(&self) -> Seq<G1Affine> {
        self.h_arr@
    }

    pub closed spec fn gr_point(&self) -> G1Affine {
        self.gr
    }

    pub closed spec fn hr_point(&self) -> G1Affine {
        self.hr
    }

    pub closed spec fn gs_point(&self) -> G1Affine {
        self.gs
    }

    pub closed spec fn hs_point(&self) -> G1Affine {
        self.hs
    }

    /// The exponents of the first parallel array.
    pub open spec fn g_logs(&self) -> Seq<int> {
        self.g_points().map_values(|p: G1Affine| g1_log(p))
    }

    /// The exponents of the second parallel array.
    pub open spec fn h_logs(&self) -> Seq<int> {
        self.h_points().map_values(|p: G1Affine| g1_log(p))
    }

    pub open spec fn gr_log(&self) -> int {
        g1_log(self.gr_point())
    }

    pub open spec fn hr_log(&self) -> int {
        g1_log(self.hr_point())
    }

    pub open spec fn gs_log(&self) -> int {
        g1_log(self.gs_point())
    }

    pub open spec fn hs_log(&self) -> int {
        g1_log(self.hs_point())
    }

    /// The vector length this key commits to.
    pub open spec fn spec_n(&self) -> nat {
        self.g_points().len()
    }

    /// The two arrays are parallel and every element lies in the
    /// prime-order subgroup.
    pub open spec fn wf(&self) -> bool {
        &&& self.h_points().len() == self.g_points().len()
        &&& forall|i: int| 0 <= i < self.g_points().len() ==> g1_in_group(
            #[trigger] self.g_points()[i],
        )
        &&& forall|i: int| 0 <= i < self.h_points().len() ==> g1_in_group(
            #[trigger] self.h_points()[i],
        )
        &&& g1_in_group(self.gr_point())
        &&& g1_in_group(self.hr_point())
        &&& g1_in_group(self.gs_point())
        &&& g1_in_group(self.hs_point())
    }

    /// No element of the key is the identity: each is a nonzero multiple
    /// of the generator, as honest generation produces.
    pub open spec fn no_identity(&self) -> bool {
        &&& forall|i: int| 0 <= i < self.g_points().len() ==> #[trigger] self.g_logs()[i] != 0
        &&& forall|i: int| 0 <= i < self.h_points().len() ==> #[trigger] self.h_logs()[i] != 0
        &&& self.gr_log() != 0
        &&& self.hr_log() != 0
        &&& self.gs_log() != 0
        &&& self.hs_log() != 0
    }

    /// The vector length this key was generated for.
    pub fn n(&self) -> (n: usize)
        ensures
            n == self.spec_n(),
    {
        self.g_arr.len()
    }

    /// Generates public parameters for vectors of length `n`: `2n + 4`
    /// independently sampled, uniformly random, non-identity G1 elements.
    /// The discrete-log relations between them are the trapdoor; they are
    /// never computed, stored or returned.  Fails only if the entropy
    /// source fails (`RandomnessExhausted`); the failure is propagated,
    /// never papered over.
    pub fn generate(n: usize, rng: &mut rand::rngs::ThreadRng) -> (res: Result<
        CommitmentKey,
        Error,
    >)
        ensures
            match res {
                Ok(key) => key.wf() && key.no_identity() && key.spec_n() == n,
                Err(e) => e == Error::RandomnessExhausted,
            },
    {
        let mut g_vec: Vec<G1Affine> = Vec::new();
        let mut h_vec: Vec<G1Affine> = Vec::new();
        for i in 0..n
            invariant
                g_vec@.len() == i,
                h_vec@.len() == i,
                forall|j: int|
                    0 <= j < i ==> g1_in_group(#[trigger] g_vec@[j]) && g1_log(g_vec@[j]) != 0,
                forall|j: int|
                    0 <= j < i ==> g1_in_group(#[trigger] h_vec@[j]) && g1_log(h_vec@[j]) != 0,
        {
            match gen_g1_elem(rng) {
                Ok(p) => g_vec.push(p),
                Err(e) => {
                    return Err(e);
                },
            }
            match gen_g1_elem(rng) {
                Ok(p) => h_vec.push(p),
                Err(e) => {
                    return Err(e);
                },
            }
        }
        let gr = match gen_g1_elem(rng) {
            Ok(p) => p,
            Err(e) => {
                return Err(e);
            },
        };
        let hr = match gen_g1_elem(rng) {
            Ok(p) => p,
            Err(e) => {
                return Err(e);
            },
        };
        let gs = match gen_g1_elem(rng) {
            Ok(p) => p,
            Err(e) => {
                return Err(e);
            },
        };
        let hs = match gen_g1_elem(rng) {
            Ok(p) => p,
            Err(e) => {
                return Err(e);
            },
        };
        Ok(CommitmentKey { g_arr: g_vec, h_arr: h_vec, gr, hr, gs, hs })
    }

    /// Computes the commitment to `value` under this key with the given
    /// randomness: the deterministic core of the scheme,
    /// `c = e(gr, r) + e(gs, s) + sum of e(g[i], value[i])` and
    /// `d = e(hr, r) + e(hs, s) + sum of e(h[i], value[i])`.
    /// In the exponent model both components are pinned exactly, so two
    /// calls on equal inputs yield equal commitments.  Fails with
    /// `InvalidLength`, and only with it, exactly when the vector's
    /// length differs from the key's.
    pub fn commit_with_randomness(&self, value: &Values, randomness: &Randomness) -> (res: Result<
        Commitment,
        Error,
    >)
        requires
            self.wf(),
            value.wf(),
            randomness.wf(),
        ensures
            match res {
                Ok(c) => {
                    &&& value.spec_len() == self.spec_n()
                    &&& c.c_log() == commit_exp(
                        self.g_logs(),
                        self.gr_log(),
                        self.gs_log(),
                        value.logs(),
                        randomness.r_log(),
                        randomness.s_log(),
                    )
                    &&& c.d_log() == commit_exp(
                        self.h_logs(),
                        self.hr_log(),
                        self.hs_log(),
                        value.logs(),
                        randomness.r_log(),
                        randomness.s_log(),
                    )
                },
                Err(e) => e == Error::InvalidLength && value.spec_len() != self.spec_n(),
            },
    {
        if value.values.len() != self.g_arr.len() {
            return Err(Error::InvalidLength);
        }
        let c = self.pairing_fold(&self.g_arr, &self.gr, &self.gs, value, randomness);
        let d = self.pairing_fold(&self.h_arr, &self.hr, &self.hs, value, randomness);
        Ok(Commitment { c, d })
    }

    /// One component of a commitment: the blinding pairings plus the
    /// running product of the pairings of parallel key and value
    /// elements.
    fn pairing_fold(
        &self,
        arr: &Vec<G1Affine>,
        kr: &G1Affine,
        ks: &G1Affine,
        value: &Values,
        randomness: &Randomness,
    ) -> (res: Gt)
        requires
            arr@.len() == value.points().len(),
            forall|i: int| 0 <= i < arr@.len() ==> g1_in_group(#[trigger] arr@[i]),
            g1_in_group(*kr),
            g1_in_group(*ks),
            value.wf(),
            randomness.wf(),
        ensures
            gt_log(res) == commit_exp(
                arr@.map_values(|p: G1Affine| g1_log(p)),
                g1_log(*kr),
                g1_log(*ks),
                value.logs(),
                randomness.r_log(),
                randomness.s_log(),
            ),
    {
        let ghost key_logs = arr@.map_values(|p: G1Affine| g1_log(p));
        let ghost p = group_order();
        let ghost base = g1_log(*kr) * randomness.r_log() + g1_log(*ks) * randomness.s_log();
        let term_r = pairing_of(kr, &randomness.r);
        let term_s = pairing_of(ks, &randomness.s);
        let mut acc = gt_add(&term_r, &term_s);
        proof {
            vstd::arithmetic::div_mod::lemma_add_mod_noop(
                g1_log(*kr) * randomness.r_log(),
                g1_log(*ks) * randomness.s_log(),
                p,
            );
            assert(key_logs.take(0) =~= Seq::<int>::empty());
            assert(value.logs().take(0) =~= Seq::<int>::empty());
        }
        let n = arr.len();
        for i in 0..n
            invariant
                n == arr@.len(),
                n == value.points().len(),
                forall|k: int| 0 <= k < arr@.len() ==> g1_in_group(#[trigger] arr@[k]),
                value.wf(),
                key_logs == arr@.map_values(|q: G1Affine| g1_log(q)),
                p == group_order(),
                base == g1_log(*kr) * randomness.r_log() + g1_log(*ks) * randomness.s_log(),
                gt_log(acc) == (base + dot(key_logs.take(i as int), value.logs().take(i as int)))
                    % p,
        {
            let term = pairing_of(&arr[i], &value.values[i]);
            let next = gt_add(&acc, &term);
            proof {
                let prev_dot = dot(key_logs.take(i as int), value.logs().take(i as int));
                let t = g1_log(arr@[i as int]) * g2_log(value.points()[i as int]);
                vstd::arithmetic::div_mod::lemma_add_mod_noop(base + prev_dot, t, p);
                lemma_dot_take_succ(key_logs, value.logs(), i as int);
            }
            acc = next;
        }
        proof {
            assert(key_logs.take(n as int) =~= key_logs);
            assert(value.logs().take(n as int) =~= value.logs());
        }
        acc
    }

    /// Commits to `value` with a freshly drawn randomness pair, returning
    /// both: the returned pair is the opening of the returned commitment,
    /// so committing again under it yields the same commitment.
    pub fn commit(&self, value: &Values, rng: &mut rand::rngs::ThreadRng) -> (res: Result<
        (Commitment, Randomness),
        Error,
    >)
        requires
            self.wf(),
            value.wf(),
        ensures
            match res {
                Ok((c, rnd)) => {
                    &&& value.spec_len() == self.spec_n()
                    &&& rnd.wf()
                    &&& c.c_log() == commit_exp(
                        self.g_logs(),
                        self.gr_log(),
                        self.gs_log(),
                        value.logs(),
                        rnd.r_log(),
                        rnd.s_log(),
                    )
                    &&& c.d_log() == commit_exp(
                        self.h_logs(),
                        self.hr_log(),
                        self.hs_log(),
                        value.logs(),
                        rnd.r_log(),
                        rnd.s_log(),
                    )
                },
                Err(e) => e == Error::InvalidLength && value.spec_len() != self.spec_n(),
            },
    {
        let randomness = Randomness::gen(rng);
        match self.commit_with_randomness(value, &randomness) {
            Ok(c) => Ok((c, randomness)),
            Err(e) => Err(e),
        }
    }

    /// A public, deterministic sanity check of the key: both arrays have
    /// the same length and every element is an on-curve, subgroup,
    /// non-identity point.  This is a syntactic check only: no
    /// non-interactive inspection of the bare key can attest that the
    /// discrete-log relations between its elements were in fact
    /// discarded.
    pub fn check_public_parameters(&self) -> (res: bool)
        ensures
            res <==> (self.wf() && self.no_identity()),
    {
        if self.h_arr.len() != self.g_arr.len() {
            return false;
        }
        let n = self.g_arr.len();
        for i in 0..n
            invariant
                n == self.g_points().len(),
                n == self.h_points().len(),
                forall|j: int|
                    0 <= j < i ==> g1_in_group(#[trigger] self.g_points()[j]) && self.g_logs()[j]
                        != 0,
                forall|j: int|
                    0 <= j < i ==> g1_in_group(#[trigger] self.h_points()[j]) && self.h_logs()[j]
                        != 0,
        {
            if !g1_elem_honest(&self.g_arr[i]) {
                proof {
                    assert(self.g_logs()[i as int] == g1_log(self.g_points()[i as int]));
                }
                return false;
            }
            if !g1_elem_honest(&self.h_arr[i]) {
                proof {
                    assert(self.h_logs()[i as int] == g1_log(self.h_points()[i as int]));
                }
                return false;
            }
        }
        if !g1_elem_honest(&self.gr) {
            return false;
        }
        if !g1_elem_honest(&self.hr) {
            return false;
        }
        if !g1_elem_honest(&self.gs) {
            return false;
        }
        g1_elem_honest(&self.hs)
    }
}

/// A uniformly random non-identity G1 element: generator times a
/// uniformly random nonzero scalar, resampling the scalar on the
/// negligible chance it is zero.  A source that yields only zero scalars
/// for the whole sampling bound has failed, and the draw reports
/// `RandomnessExhausted` rather than substituting weaker randomness.
fn gen_g1_elem(rng: &mut rand::rngs::ThreadRng) -> (res: Result<G1Affine, Error>)
    ensures
        match res {
            Ok(p) => g1_in_group(p) && g1_log(p) != 0,
            Err(e) => e == Error::RandomnessExhausted,
        },
{
    let g = g1_generator();
    for attempt in 0..64usize
        invariant
            g1_in_group(g),
            g1_log(g) == 1,
    {
        let k = random_scalar(rng);
        if !scalar_is_zero(&k) {
            let p = g1_mul(&g, &k);
            proof {
                vstd::arithmetic::div_mod::lemma_small_mod(
                    scalar_val(k) as nat,
                    group_order() as nat,
                );
            }
            return Ok(p);
        }
    }
    Err(Error::RandomnessExhausted)
}

/// A uniformly random G2 element: generator times a uniformly random
/// scalar.
fn gen_g2_elem(rng: &mut rand::rngs::ThreadRng) -> (res: G2Affine)
    ensures
        g2_in_group(res),
{
    let g = g2_generator();
    let k = random_scalar(rng);
    g2_mul(&g, &k)
}

/// One key element of an honestly generated key: on the curve, in the
/// prime-order subgroup, and not the identity.
fn g1_elem_honest(p: &G1Affine) -> (res: bool)
    ensures
        res <==> (g1_in_group(*p) && g1_log(*p) != 0),
{
    if !g1_is_on_curve(p) {
        return false;
    }
    if !g1_is_torsion_free(p) {
        return false;
    }
    !g1_is_identity(p)
}

/// The abstract points of a value vector are exactly its stored vector.
pub(crate) proof fn lemma_values_model(v: &Values)
    ensures
        v.points() == v.values@,
{
}

/// The abstract points of a randomness pair are exactly its stored
/// fields.
pub(crate) proof fn lemma_randomness_model(rnd: &Randomness)
    ensures
        rnd.r_point() == rnd.r,
        rnd.s_point() == rnd.s,
{
}

/// The abstract points of a commitment key are exactly its stored
/// arrays and fields.
pub(crate) proof fn lemma_key_model(key: &CommitmentKey)
    ensures
        key.g_points() == key.g_arr@,
        key.h_points() == key.h_arr@,
        key.gr_point() == key.gr,
        key.hr_point() == key.hr,
        key.gs_point() == key.gs,
        key.hs_point() == key.hs,
{
}

/// The homomorphism law the scheme exists to provide: for any key and any
/// two openings, the composition of the two commitments' exponents equals
/// the exponents of the commitment to the pointwise-composed values under
/// the pairwise-composed randomness.  Together with the exact contracts
/// of `commit_with_randomness`, `Values::compose`, `Randomness::compose`
/// and `Commitment::compose`, this says that composing two commitments
/// yields exactly the commitment of the composed opening.
pub proof fn lemma_homomorphism(
    key: CommitmentKey,
    v1: Values,
    r1: Randomness,
    v2: Values,
    r2: Randomness,
)
    requires
        key.wf(),
        v1.spec_len() == key.spec_n(),
        v2.spec_len() == key.spec_n(),
    ensures
        (commit_exp(key.g_logs(), key.gr_log(), key.gs_log(), v1.logs(), r1.r_log(), r1.s_log())
            + commit_exp(
            key.g_logs(),
            key.gr_log(),
            key.gs_log(),
            v2.logs(),
            r2.r_log(),
            r2.s_log(),
        )) % group_order() == commit_exp(
            key.g_logs(),
            key.gr_log(),
            key.gs_log(),
            seq_add_mod(v1.logs(), v2.logs()),
            (r1.r_log() + r2.r_log()) % group_order(),
            (r1.s_log() + r2.s_log()) % group_order(),
        ),
        (commit_exp(key.h_logs(), key.hr_log(), key.hs_log(), v1.logs(), r1.r_log(), r1.s_log())
            + commit_exp(
            key.h_logs(),
            key.hr_log(),
            key.hs_log(),
            v2.logs(),
            r2.r_log(),
            r2.s_log(),
        )) % group_order() == commit_exp(
            key.h_logs(),
            key.hr_log(),
            key.hs_log(),
            seq_add_mod(v1.logs(), v2.logs()),
            (r1.r_log() + r2.r_log()) % group_order(),
            (r1.s_log() + r2.s_log()) % group_order(),
        ),
{
    lemma_commit_exp_compose(
        key.g_logs(),
        key.gr_log(),
        key.gs_log(),
        v1.logs(),
        r1.r_log(),
        r1.s_log(),
        v2.logs(),
        r2.r_log(),
        r2.s_log(),
    );
    lemma_commit_exp_compose(
        key.h_logs(),
        key.hr_log(),
        key.hs_log(),
        v1.logs(),
        r1.r_log(),
        r1.s_log(),
        v2.logs(),
        r2.r_log(),
        r2.s_log(),
    );
}

/// Opening consistency, end to end: committing with a freshly drawn
/// randomness pair and then committing again with that very pair can
/// only reproduce the same commitment, so this check always holds.
pub fn opening_consistency(
    key: &CommitmentKey,
    value: &Values,
    rng: &mut rand::rngs::ThreadRng,
) -> (res: bool)
    requires
        key.wf(),
        value.wf(),
        value.spec_len() == key.spec_n(),
    ensures
        res,
{
    let (c, r) = match key.commit(value, rng) {
        Ok(pair) => pair,
        Err(_) => {
            proof {
                assert(false);
            }
            vstd::pervasive::unreached()
        },
    };
    let again = match key.commit_with_randomness(value, &r) {
        Ok(c2) => c2,
        Err(_) => {
            proof {
                assert(false);
            }
            vstd::pervasive::unreached()
        },
    };
    c.equals(&again)
}

/// Determinism, end to end: two commitment computations from one key,
/// value vector and randomness pair can only agree, so this check
/// always holds.
pub fn commitment_determinism(
    key: &CommitmentKey,
    value: &Values,
    randomness: &Randomness,
) -> (res: bool)
    requires
        key.wf(),
        value.wf(),
        randomness.wf(),
        value.spec_len() == key.spec_n(),
    ensures
        res,
{
    let first = match key.commit_with_randomness(value, randomness) {
        Ok(c) => c,
        Err(_) => {
            proof {
                assert(false);
            }
            vstd::pervasive::unreached()
        },
    };
    let second = match key.commit_with_randomness(value, randomness) {
        Ok(c) => c,
        Err(_) => {
            proof {
                assert(false);
            }
            vstd::pervasive::unreached()
        },
    };
    first.equals(&second)
}

/// The homomorphism law, end to end: the composition of two commitments
/// can only equal the direct commitment to the pointwise-composed
/// values under the pairwise-composed randomness, so this check always
/// holds.
pub fn commitment_homomorphism(
    key: &CommitmentKey,
    v1: &Values,
    r1: &Randomness,
    v2: &Values,
    r2: &Randomness,
) -> (res: bool)
    requires
        key.wf(),
        v1.wf(),
        v2.wf(),
        r1.wf(),
        r2.wf(),
        v1.spec_len() == key.spec_n(),
        v2.spec_len() == key.spec_n(),
    ensures
        res,
{
    let c1 = match key.commit_with_randomness(v1, r1) {
        Ok(c) => c,
        Err(_) => {
            proof {
                assert(false);
            }
            vstd::pervasive::unreached()
        },
    };
    let c2 = match key.commit_with_randomness(v2, r2) {
        Ok(c) => c,
        Err(_) => {
            proof {
                assert(false);
            }
            vstd::pervasive::unreached()
        },
    };
    let composed = c1.compose(&c2);
    let v12 = match v1.compose(v2) {
        Ok(v) => v,
        Err(_) => {
            proof {
                assert(false);
            }
            vstd::pervasive::unreached()
        },
    };
    let r12 = r1.compose(r2);
    let direct = match key.commit_with_randomness(&v12, &r12) {
        Ok(c) => c,
        Err(_) => {
            proof {
                assert(false);
            }
            vstd::pervasive::unreached()
        },
    };
    proof {
        lemma_homomorphism(*key, *v1, *r1, *v2, *r2);
    }
    composed.equals(&direct)
}

} // verus!
