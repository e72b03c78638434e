//! Canonical fixed-length byte encodings of the library's types, built
//! from the compressed point encodings of BLS12-381: 48 bytes per G1
//! element and 96 bytes per G2 element.  Every valid value encodes to
//! exactly one byte string, and decoding accepts exactly those strings,
//! so encode and decode round-trip on all valid values.

use crate::algebra::{
    g1_decode_at, g1_enc, g1_encode, g1_in_group, g2_decode_at, g2_enc, g2_encode, g2_in_group,
};
use crate::commitment::{
    lemma_key_model, lemma_randomness_model, lemma_values_model, CommitmentKey, Randomness,
    Values,
};
use crate::Error;
use bls12_381::{G1Affine, G2Affine};
use vstd::arithmetic::div_mod::{lemma_fundamental_div_mod, lemma_mod_multiples_basic};
use vstd::pervasive::unreached;
use vstd::prelude::*;

verus! {

/// Every point of the sequence lies in the G1 prime-order subgroup.
pub open spec fn g1_seq_valid(s: Seq<G1Affine>) -> bool {
    forall|i: int| 0 <= i < s.len() ==> g1_in_group(#[trigger] s[i])
}

/// Every point of the sequence lies in the G2 prime-order subgroup.
pub open spec fn g2_seq_valid(s: Seq<G2Affine>) -> bool {
    forall|i: int| 0 <= i < s.len() ==> g2_in_group(#[trigger] s[i])
}

/// The byte region holds, from `start` on, the back-to-back canonical
/// encodings of the G1 points of `s`.
pub open spec fn g1_region_encodes(b: Seq<u8>, start: int, s: Seq<G1Affine>) -> bool {
    forall|i: int|
        0 <= i < s.len() ==> g1_enc(#[trigger] s[i]) == b.subrange(
            start + 48 * i,
            start + 48 * i + 48,
        )
}

/// The bytes are exactly the back-to-back canonical encodings of the G2
/// points of `s`.
pub open spec fn encodes_g2_seq(b: Seq<u8>, s: Seq<G2Affine>) -> bool {
    &&& b.len() == 96 * s.len()
    &&& forall|i: int|
        0 <= i < s.len() ==> g2_enc(#[trigger] s[i]) == b.subrange(96 * i, 96 * i + 96)
}

/// The bytes are exactly the canonical encoding of a commitment key: the
/// first parallel array, the second parallel array, then the four
/// auxiliary elements.
pub open spec fn encodes_key(b: Seq<u8>, key: CommitmentKey) -> bool {
    let n = key.spec_n() as int;
    &&& key.h_points().len() == n
    &&& b.len() == 96 * n + 192
    &&& g1_region_encodes(b, 0, key.g_points())
    &&& g1_region_encodes(b, 48 * n, key.h_points())
    &&& g1_enc(key.gr_point()) == b.subrange(96 * n, 96 * n + 48)
    &&& g1_enc(key.hr_point()) == b.subrange(96 * n + 48, 96 * n + 96)
    &&& g1_enc(key.gs_point()) == b.subrange(96 * n + 96, 96 * n + 144)
    &&& g1_enc(key.hs_point()) == b.subrange(96 * n + 144, 96 * n + 192)
}

/// The bytes are exactly the canonical encoding of a randomness pair:
/// the `r` point followed by the `s` point.
pub open spec fn encodes_randomness(b: Seq<u8>, rnd: Randomness) -> bool {
    &&& b.len() == 192
    &&& g2_enc(rnd.r_point()) == b.subrange(0, 96)
    &&& g2_enc(rnd.s_point()) == b.subrange(96, 192)
}

impl Values {
    /// The canonical encoding of this value vector: the back-to-back
    /// compressed encodings of its points.
    pub fn to_bytes(&self) -> (res: Vec<u8>)
        ensures
            encodes_g2_seq(res@, self.points()),
    {
        let n = self.values.len();
        let mut out: Vec<u8> = Vec::new();
        for i in 0..n
            invariant
                n == self.values@.len(),
                out@.len() == 96 * i,
                forall|j: int|
                    0 <= j < i ==> g2_enc(#[trigger] self.values@[j]) == out@.subrange(
                        96 * j,
                        96 * j + 96,
                    ),
        {
            let ghost prev = out@;
            let chunk = g2_encode(&self.values[i]);
            out.extend_from_slice(chunk.as_slice());
            proof {
                assert forall|j: int| 0 <= j < i + 1 implies g2_enc(#[trigger] self.values@[j])
                    == out@.subrange(96 * j, 96 * j + 96) by {
                    if j < i {
                        assert(out@.subrange(96 * j, 96 * j + 96) =~= prev.subrange(
                            96 * j,
                            96 * j + 96,
                        ));
                    } else {
                        assert(out@.subrange(96 * j, 96 * j + 96) =~= chunk@);
                    }
                }
            }
        }
        proof {
            lemma_values_model(self);
        }
        out
    }

    /// Decodes a value vector from its canonical encoding.  Succeeds
    /// exactly on the encodings of vectors of subgroup points, returns
    /// the unique such vector, and otherwise fails with
    /// `MalformedEncoding`.
    pub fn from_bytes(bytes: &[u8]) -> (res: Result<Values, Error>)
        ensures
            match res {
                Ok(v) => {
                    &&& v.wf()
                    &&& encodes_g2_seq(bytes@, v.points())
                    &&& forall|s: Seq<G2Affine>|
                        g2_seq_valid(s) && encodes_g2_seq(bytes@, s) ==> s == v.points()
                },
                Err(e) => {
                    &&& e == Error::MalformedEncoding
                    &&& forall|s: Seq<G2Affine>| g2_seq_valid(s) ==> !encodes_g2_seq(bytes@, s)
                },
            },
    {
        let total = bytes.len();
        if total % 96 != 0 {
            proof {
                assert forall|s: Seq<G2Affine>| g2_seq_valid(s) implies !encodes_g2_seq(
                    bytes@,
                    s,
                ) by {
                    lemma_mod_multiples_basic(s.len() as int, 96);
                }
            }
            return Err(Error::MalformedEncoding);
        }
        let n = total / 96;
        proof {
            lemma_fundamental_div_mod(total as int, 96);
        }
        let mut values: Vec<G2Affine> = Vec::new();
        for i in 0..n
            invariant
                total == bytes@.len(),
                total == 96 * n,
                values@.len() == i,
                forall|j: int|
                    0 <= j < i ==> g2_in_group(#[trigger] values@[j]) && g2_enc(values@[j])
                        == bytes@.subrange(96 * j, 96 * j + 96),
                forall|j: int, q: G2Affine|
                    #![trigger values@[j], g2_enc(q)]
                    0 <= j < i && g2_in_group(q) && g2_enc(q) == bytes@.subrange(
                        96 * j,
                        96 * j + 96,
                    ) ==> q == values@[j],
        {
            let off = 96 * i;
            match g2_decode_at(bytes, off) {
                Some(p) => values.push(p),
                None => {
                    proof {
                        assert forall|s: Seq<G2Affine>| g2_seq_valid(s) implies !encodes_g2_seq(
                            bytes@,
                            s,
                        ) by {
                            if encodes_g2_seq(bytes@, s) {
                                assert(96 * s.len() == 96 * n);
                                assert(g2_in_group(s[i as int]));
                                assert(g2_enc(s[i as int]) == bytes@.subrange(
                                    96 * i,
                                    96 * i + 96,
                                ));
                            }
                        }
                    }
                    return Err(Error::MalformedEncoding);
                },
            }
        }
        let v = Values { values };
        proof {
            lemma_values_model(&v);
            assert(encodes_g2_seq(bytes@, v.points()));
            assert forall|s: Seq<G2Affine>|
                g2_seq_valid(s) && encodes_g2_seq(bytes@, s) implies s == v.points() by {
                assert(96 * s.len() == 96 * n);
                assert(s.len() == n);
                assert forall|j: int| 0 <= j < n implies s[j] == v.points()[j] by {
                    assert(g2_in_group(s[j]));
                    assert(g2_enc(s[j]) == bytes@.subrange(96 * j, 96 * j + 96));
                }
                assert(s =~= v.points());
            }
        }
        Ok(v)
    }
}

/// Some G1 subgroup point has these bytes as its canonical encoding.
pub open spec fn g1_point_for(b: Seq<u8>) -> bool {
    exists|q: G1Affine| g1_in_group(q) && #[trigger] g1_enc(q) == b
}

/// The back-to-back canonical encodings of the points of `arr`.
fn encode_g1_seq(arr: &Vec<G1Affine>) -> (res: Vec<u8>)
    ensures
        res@.len() == 48 * arr@.len(),
        forall|j: int|
            0 <= j < arr@.len() ==> g1_enc(#[trigger] arr@[j]) == res@.subrange(
                48 * j,
                48 * j + 48,
            ),
{
    let n = arr.len();
    let mut out: Vec<u8> = Vec::new();
    for i in 0..n
        invariant
            n == arr@.len(),
            out@.len() == 48 * i,
            forall|j: int|
                0 <= j < i ==> g1_enc(#[trigger] arr@[j]) == out@.subrange(
                    48 * j,
                    48 * j + 48,
                ),
    {
        let ghost prev = out@;
        let chunk = g1_encode(&arr[i]);
        out.extend_from_slice(chunk.as_slice());
        proof {
            assert forall|j: int| 0 <= j < i + 1 implies g1_enc(#[trigger] arr@[j])
                == out@.subrange(48 * j, 48 * j + 48) by {
                if j < i {
                    assert(out@.subrange(48 * j, 48 * j + 48) =~= prev.subrange(
                        48 * j,
                        48 * j + 48,
                    ));
                } else {
                    assert(out@.subrange(48 * j, 48 * j + 48) =~= chunk@);
                }
            }
        }
    }
    out
}

/// Decodes `count` back-to-back G1 points starting at `start`.  Yields
/// the unique such points, or reports the position of a chunk that is no
/// subgroup point's encoding.
fn decode_g1_seq(bytes: &[u8], start: usize, count: usize) -> (res: Option<Vec<G1Affine>>)
    requires
        start + 48 * count <= bytes@.len(),
    ensures
        match res {
            Some(v) => {
                &&& v@.len() == count
                &&& forall|j: int|
                    0 <= j < count ==> g1_in_group(#[trigger] v@[j]) && g1_enc(v@[j])
                        == bytes@.subrange(start + 48 * j, start + 48 * j + 48)
                &&& forall|j: int, q: G1Affine|
                    #![trigger v@[j], g1_enc(q)]
                    0 <= j < count && g1_in_group(q) && g1_enc(q) == bytes@.subrange(
                        start + 48 * j,
                        start + 48 * j + 48,
                    ) ==> q == v@[j]
            },
            None => exists|j: int|
                0 <= j < count && !g1_point_for(
                    #[trigger] bytes@.subrange(start + 48 * j, start + 48 * j + 48),
                ),
        },
{
    let total = bytes.len();
    let mut points: Vec<G1Affine> = Vec::new();
    for i in 0..count
        invariant
            total == bytes@.len(),
            start + 48 * count <= total,
            points@.len() == i,
            forall|j: int|
                0 <= j < i ==> g1_in_group(#[trigger] points@[j]) && g1_enc(points@[j])
                    == bytes@.subrange(start + 48 * j, start + 48 * j + 48),
            forall|j: int, q: G1Affine|
                #![trigger points@[j], g1_enc(q)]
                0 <= j < i && g1_in_group(q) && g1_enc(q) == bytes@.subrange(
                    start + 48 * j,
                    start + 48 * j + 48,
                ) ==> q == points@[j],
    {
        let off = start + 48 * i;
        match g1_decode_at(bytes, off) {
            Some(p) => points.push(p),
            None => {
                proof {
                    assert(!g1_point_for(
                        bytes@.subrange(start + 48 * (i as int), start + 48 * (i as int) + 48),
                    ));
                }
                return None;
            },
        }
    }
    Some(points)
}

impl CommitmentKey {
    /// The canonical encoding of this key: the first array, the second
    /// array, then the four auxiliary elements, each element 48 bytes.
    pub fn to_bytes(&self) -> (res: Vec<u8>)
        requires
            self.wf(),
        ensures
            encodes_key(res@, *self),
    {
        proof {
            lemma_key_model(self);
        }
        let ghost n = self.g_arr@.len() as int;
        let mut out: Vec<u8> = Vec::new();
        let g_bytes = encode_g1_seq(&self.g_arr);
        out.extend_from_slice(g_bytes.as_slice());
        let ghost after_g = out@;
        let h_bytes = encode_g1_seq(&self.h_arr);
        out.extend_from_slice(h_bytes.as_slice());
        let ghost after_h = out@;
        let c1 = g1_encode(&self.gr);
        out.extend_from_slice(c1.as_slice());
        let ghost t1 = out@;
        let c2 = g1_encode(&self.hr);
        out.extend_from_slice(c2.as_slice());
        let ghost t2 = out@;
        let c3 = g1_encode(&self.gs);
        out.extend_from_slice(c3.as_slice());
        let ghost t3 = out@;
        let c4 = g1_encode(&self.hs);
        out.extend_from_slice(c4.as_slice());
        proof {
            assert(after_g =~= g_bytes@);
            assert(after_g.len() == 48 * n);
            assert(after_h.len() == 96 * n);
            assert(out@.len() == 96 * n + 192);
            assert forall|j: int| 0 <= j < n implies g1_enc(#[trigger] self.g_arr@[j])
                == out@.subrange(48 * j, 48 * j + 48) by {
                assert(g1_enc(self.g_arr@[j]) == g_bytes@.subrange(48 * j, 48 * j + 48));
                assert(out@.subrange(48 * j, 48 * j + 48) =~= g_bytes@.subrange(
                    48 * j,
                    48 * j + 48,
                ));
            }
            assert forall|j: int| 0 <= j < n implies g1_enc(#[trigger] self.h_arr@[j])
                == out@.subrange(48 * n + 48 * j, 48 * n + 48 * j + 48) by {
                assert(g1_enc(self.h_arr@[j]) == h_bytes@.subrange(48 * j, 48 * j + 48));
                assert(out@.subrange(48 * n + 48 * j, 48 * n + 48 * j + 48) =~= h_bytes@.subrange(
                    48 * j,
                    48 * j + 48,
                ));
            }
            assert(out@.subrange(96 * n, 96 * n + 48) =~= c1@);
            assert(out@.subrange(96 * n + 48, 96 * n + 96) =~= c2@);
            assert(out@.subrange(96 * n + 96, 96 * n + 144) =~= c3@);
            assert(out@.subrange(96 * n + 144, 96 * n + 192) =~= c4@);
        }
        out
    }

    /// Decodes a key from its canonical encoding.  Succeeds exactly on
    /// the encodings of keys whose every element is a subgroup point,
    /// returns the unique such key, and otherwise fails with
    /// `MalformedEncoding`.
    pub fn from_bytes(bytes: &[u8]) -> (res: Result<CommitmentKey, Error>)
        ensures
            match res {
                Ok(key) => {
                    &&& key.wf()
                    &&& encodes_key(bytes@, key)
                    &&& forall|k: CommitmentKey| #[trigger]
                        encodes_key(bytes@, k) && k.wf() ==> k.g_points() == key.g_points()
                            && k.h_points() == key.h_points() && k.gr_point() == key.gr_point()
                            && k.hr_point() == key.hr_point() && k.gs_point() == key.gs_point()
                            && k.hs_point() == key.hs_point()
                },
                Err(e) => {
                    &&& e == Error::MalformedEncoding
                    &&& forall|k: CommitmentKey| k.wf() ==> !#[trigger] encodes_key(bytes@, k)
                },
            },
    {
        let total = bytes.len();
        if total < 192 || (total - 192) % 96 != 0 {
            proof {
                assert forall|k: CommitmentKey| k.wf() implies !encodes_key(bytes@, k) by {
                    if encodes_key(bytes@, k) {
                        let kn = k.spec_n() as int;
                        lemma_mod_multiples_basic(kn, 96);
                        assert((bytes@.len() - 192) % 96 == 0);
                    }
                }
            }
            return Err(Error::MalformedEncoding);
        }
        let n = (total - 192) / 96;
        proof {
            lemma_fundamental_div_mod((total - 192) as int, 96);
        }
        let g_arr = match decode_g1_seq(bytes, 0, n) {
            Some(v) => v,
            None => {
                proof {
                    assert forall|k: CommitmentKey| k.wf() implies !encodes_key(bytes@, k) by {
                        if encodes_key(bytes@, k) {
                            let kn = k.spec_n() as int;
                            assert(96 * kn == 96 * n);
                            let j = choose|j: int|
                                0 <= j < n && !g1_point_for(
                                    #[trigger] bytes@.subrange(48 * j, 48 * j + 48),
                                );
                            assert(g1_in_group(k.g_points()[j]));
                            assert(g1_enc(k.g_points()[j]) == bytes@.subrange(
                                48 * j,
                                48 * j + 48,
                            ));
                        }
                    }
                }
                return Err(Error::MalformedEncoding);
            },
        };
        let off_h = 48 * n;
        let h_arr = match decode_g1_seq(bytes, off_h, n) {
            Some(v) => v,
            None => {
                proof {
                    assert forall|k: CommitmentKey| k.wf() implies !encodes_key(bytes@, k) by {
                        if encodes_key(bytes@, k) {
                            let kn = k.spec_n() as int;
                            assert(96 * kn == 96 * n);
                            let j = choose|j: int|
                                0 <= j < n && !g1_point_for(
                                    #[trigger] bytes@.subrange(
                                        48 * n + 48 * j,
                                        48 * n + 48 * j + 48,
                                    ),
                                );
                            assert(g1_in_group(k.h_points()[j]));
                            assert(g1_enc(k.h_points()[j]) == bytes@.subrange(
                                48 * n + 48 * j,
                                48 * n + 48 * j + 48,
                            ));
                        }
                    }
                }
                return Err(Error::MalformedEncoding);
            },
        };
        let base = 96 * n;
        let gr = match g1_decode_at(bytes, base) {
            Some(p) => p,
            None => {
                proof {
                    assert forall|k: CommitmentKey| k.wf() implies !encodes_key(bytes@, k) by {
                        if encodes_key(bytes@, k) {
                            assert(96 * (k.spec_n() as int) == 96 * n);
                            assert(g1_enc(k.gr_point()) == bytes@.subrange(
                                96 * n,
                                96 * n + 48,
                            ));
                        }
                    }
                }
                return Err(Error::MalformedEncoding);
            },
        };
        let hr = match g1_decode_at(bytes, base + 48) {
            Some(p) => p,
            None => {
                proof {
                    assert forall|k: CommitmentKey| k.wf() implies !encodes_key(bytes@, k) by {
                        if encodes_key(bytes@, k) {
                            assert(96 * (k.spec_n() as int) == 96 * n);
                            assert(g1_enc(k.hr_point()) == bytes@.subrange(
                                96 * n + 48,
                                96 * n + 96,
                            ));
                        }
                    }
                }
                return Err(Error::MalformedEncoding);
            },
        };
        let gs = match g1_decode_at(bytes, base + 96) {
            Some(p) => p,
            None => {
                proof {
                    assert forall|k: CommitmentKey| k.wf() implies !encodes_key(bytes@, k) by {
                        if encodes_key(bytes@, k) {
                            assert(96 * (k.spec_n() as int) == 96 * n);
                            assert(g1_enc(k.gs_point()) == bytes@.subrange(
                                96 * n + 96,
                                96 * n + 144,
                            ));
                        }
                    }
                }
                return Err(Error::MalformedEncoding);
            },
        };
        let hs = match g1_decode_at(bytes, base + 144) {
            Some(p) => p,
            None => {
                proof {
                    assert forall|k: CommitmentKey| k.wf() implies !encodes_key(bytes@, k) by {
                        if encodes_key(bytes@, k) {
                            assert(96 * (k.spec_n() as int) == 96 * n);
                            assert(g1_enc(k.hs_point()) == bytes@.subrange(
                                96 * n + 144,
                                96 * n + 192,
                            ));
                        }
                    }
                }
                return Err(Error::MalformedEncoding);
            },
        };
        let key = CommitmentKey { g_arr, h_arr, gr, hr, gs, hs };
        proof {
            lemma_key_model(&key);
            assert(encodes_key(bytes@, key));
            assert forall|k: CommitmentKey| #[trigger]
                encodes_key(bytes@, k) && k.wf() implies k.g_points() == key.g_points()
                && k.h_points() == key.h_points() && k.gr_point() == key.gr_point()
                && k.hr_point() == key.hr_point() && k.gs_point() == key.gs_point()
                && k.hs_point() == key.hs_point() by {
                let kn = k.spec_n() as int;
                assert(96 * kn == 96 * n);
                assert(kn == n);
                assert forall|j: int| 0 <= j < n implies k.g_points()[j]
                    == key.g_points()[j] by {
                    assert(g1_in_group(k.g_points()[j]));
                    assert(g1_enc(k.g_points()[j]) == bytes@.subrange(48 * j, 48 * j + 48));
                }
                assert(k.g_points() =~= key.g_points());
                assert forall|j: int| 0 <= j < n implies k.h_points()[j]
                    == key.h_points()[j] by {
                    assert(g1_in_group(k.h_points()[j]));
                    assert(g1_enc(k.h_points()[j]) == bytes@.subrange(
                        48 * n + 48 * j,
                        48 * n + 48 * j + 48,
                    ));
                }
                assert(k.h_points() =~= key.h_points());
            }
        }
        Ok(key)
    }
}

/// The encoding round trip for value vectors: decoding the canonical
/// encoding of any valid vector succeeds and yields exactly the same
/// points.
pub fn values_round_trip(v: &Values) -> (res: Values)
    requires
        v.wf(),
    ensures
        res.points() == v.points(),
{
    let bytes = v.to_bytes();
    proof {
        assert(g2_seq_valid(v.points()));
    }
    match Values::from_bytes(bytes.as_slice()) {
        Ok(w) => w,
        Err(_) => {
            proof {
                assert(false);
            }
            unreached()
        },
    }
}

/// The encoding round trip for randomness pairs: decoding the canonical
/// encoding of any valid pair succeeds and yields exactly the same two
/// points.
pub fn randomness_round_trip(rnd: &Randomness) -> (res: Randomness)
    requires
        rnd.wf(),
    ensures
        res.r_point() == rnd.r_point(),
        res.s_point() == rnd.s_point(),
{
    let bytes = rnd.to_bytes();
    match Randomness::from_bytes(bytes.as_slice()) {
        Ok(back) => back,
        Err(_) => {
            proof {
                assert(g2_enc(rnd.r_point()) == bytes@.subrange(0, 96));
                assert(g2_enc(rnd.s_point()) == bytes@.subrange(96, 192));
                assert(false);
            }
            unreached()
        },
    }
}

/// The encoding round trip for commitment keys: decoding the canonical
/// encoding of any valid key succeeds and yields exactly the same
/// elements.
pub fn key_round_trip(key: &CommitmentKey) -> (res: CommitmentKey)
    requires
        key.wf(),
    ensures
        res.g_points() == key.g_points(),
        res.h_points() == key.h_points(),
        res.gr_point() == key.gr_point(),
        res.hr_point() == key.hr_point(),
        res.gs_point() == key.gs_point(),
        res.hs_point() == key.hs_point(),
{
    let bytes = key.to_bytes();
    match CommitmentKey::from_bytes(bytes.as_slice()) {
        Ok(back) => back,
        Err(_) => {
            proof {
                assert(encodes_key(bytes@, *key));
                assert(false);
            }
            unreached()
        },
    }
}

impl Randomness {
    /// The canonical 192-byte encoding of this randomness pair.
    pub fn to_bytes(&self) -> (res: Vec<u8>)
        ensures
            encodes_randomness(res@, *self),
    {
        let mut out: Vec<u8> = Vec::new();
        let chunk_r = g2_encode(&self.r);
        out.extend_from_slice(chunk_r.as_slice());
        let chunk_s = g2_encode(&self.s);
        out.extend_from_slice(chunk_s.as_slice());
        proof {
            lemma_randomness_model(self);
            assert(out@.subrange(0, 96) =~= chunk_r@);
            assert(out@.subrange(96, 192) =~= chunk_s@);
        }
        out
    }

    /// Decodes a randomness pair from its canonical encoding.  Succeeds
    /// exactly on the 192-byte encodings of two subgroup points, returns
    /// the unique such pair, and otherwise fails with
    /// `MalformedEncoding`.
    pub fn from_bytes(bytes: &[u8]) -> (res: Result<Randomness, Error>)
        ensures
            match res {
                Ok(rnd) => {
                    &&& rnd.wf()
                    &&& encodes_randomness(bytes@, rnd)
                    &&& forall|q: G2Affine|
                        g2_in_group(q) && #[trigger] g2_enc(q) == bytes@.subrange(0, 96) ==> q
                            == rnd.r_point()
                    &&& forall|q: G2Affine|
                        g2_in_group(q) && #[trigger] g2_enc(q) == bytes@.subrange(96, 192) ==> q
                            == rnd.s_point()
                },
                Err(e) => {
                    &&& e == Error::MalformedEncoding
                    &&& !(bytes@.len() == 192 && (exists|q: G2Affine|
                        g2_in_group(q) && #[trigger] g2_enc(q) == bytes@.subrange(0, 96)) && (
                    exists|q: G2Affine|
                        g2_in_group(q) && #[trigger] g2_enc(q) == bytes@.subrange(96, 192)))
                },
            },
    {
        if bytes.len() != 192 {
            return Err(Error::MalformedEncoding);
        }
        let r = match g2_decode_at(bytes, 0) {
            Some(p) => p,
            None => {
                return Err(Error::MalformedEncoding);
            },
        };
        let s = match g2_decode_at(bytes, 96) {
            Some(p) => p,
            None => {
                return Err(Error::MalformedEncoding);
            },
        };
        let rnd = Randomness { r, s };
        proof {
            lemma_randomness_model(&rnd);
        }
        Ok(rnd)
    }
}

} // verus!
