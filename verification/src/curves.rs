//! The group and field elements of Sapling descriptions, held as their canonical
//! encodings, and the checks through `jubjub` and `bls12_381` that admit them.

use ff::PrimeField;
use group::GroupEncoding;
use vstd::prelude::*;

verus! {

/// Whether `jubjub::ExtendedPoint::from_bytes` accepts the 32-byte encoding `bytes`
/// (a point on the curve, canonically encoded as ZIP 216 requires).
pub uninterp spec fn jubjub_decodes(bytes: Seq<u8>) -> bool;

/// Whether the point that `bytes` encodes is of small order, as
/// `jubjub::ExtendedPoint::is_small_order` reports it.
pub uninterp spec fn jubjub_small_order(bytes: Seq<u8>) -> bool;

/// The number that `bytes` writes in little-endian order.
pub open spec fn little_endian_value(bytes: Seq<u8>) -> nat
    decreases bytes.len(),
{
    if bytes.len() == 0 {
        0
    } else {
        bytes[0] as nat + 256 * little_endian_value(bytes.drop_first())
    }
}

/// The order `r` of the BLS12-381 scalar field.
pub open spec fn bls_scalar_modulus() -> nat {
    0x73ed_a753_299d_7d48_3339_d808_09a1_d805_53bd_a402_fffe_5bfe_ffff_ffff_0000_0001nat
}

/// `jubjub::ExtendedPoint`, made known to Verus as an opaque type.
#[verifier::external_type_specification]
#[verifier::external_body]
pub struct ExJubjubPoint(jubjub::ExtendedPoint);

/// `bls12_381::Scalar`, made known to Verus as an opaque type.
#[verifier::external_type_specification]
#[verifier::external_body]
pub struct ExBlsScalar(bls12_381::Scalar);

/// A Jubjub point together with the encoding it was decoded from.
pub struct JubjubPoint {
    point: jubjub::ExtendedPoint,
    encoding: Ghost<Seq<u8>>,
}

impl JubjubPoint {
    /// The 32 bytes this point was decoded from.
    pub closed spec fn encoding(&self) -> Seq<u8> {
        self.encoding@
    }
}

/// Calls `jubjub::ExtendedPoint::from_bytes` (through `group::GroupEncoding`).
/// Claimed: it returns a point exactly when `jubjub_decodes(bytes)`, and the point
/// returned is the one that `bytes` encodes. Which encodings the crate accepts (points on
/// the curve, canonically encoded) is left to the name `jubjub_decodes`: stating it
/// takes the curve equation and square roots in its base field. Since only canonical
/// encodings are accepted, the bytes read are the bytes the point encodes to.
#[verifier::external_body]
pub(crate) fn jubjub_from_bytes(bytes: &[u8; 32]) -> (r: Option<JubjubPoint>)
    ensures
        r is Some <==> jubjub_decodes(bytes@),
        r matches Some(p) ==> p.encoding() == bytes@,
{
    let decoded: Option<jubjub::ExtendedPoint> = Option::from(jubjub::ExtendedPoint::from_bytes(bytes));
    decoded.map(|point| JubjubPoint { point, encoding: Ghost(bytes@) })
}

/// Calls `jubjub::ExtendedPoint::is_small_order`.
/// Claimed: its answer is `jubjub_small_order` of the encoding the point came from.
#[verifier::external_body]
pub(crate) fn jubjub_is_small_order(p: &JubjubPoint) -> (r: bool)
    ensures
        r == jubjub_small_order(p.encoding()),
{
    bool::from(p.point.is_small_order())
}

/// A BLS12-381 scalar together with the canonical representation it was decoded from.
#[derive(Clone, Copy)]
pub struct BlsScalar {
    scalar: bls12_381::Scalar,
    repr: Ghost<Seq<u8>>,
}

impl BlsScalar {
    /// The 32 bytes this scalar was decoded from: it is the field element they represent.
    pub closed spec fn repr(&self) -> Seq<u8> {
        self.repr@
    }

    /// The scalar, as `bls12_381` holds it: the element of the field that `self.repr()`
    /// represents.
    pub fn to_scalar(&self) -> bls12_381::Scalar {
        self.scalar
    }
}

/// Calls `bls12_381::Scalar::from_repr` (through `ff::PrimeField`).
/// Claimed: it returns a scalar exactly when the little-endian number that `bytes`
/// writes is below the field's modulus (the canonical representations), and the scalar
/// returned is the one `bytes` represents.
#[verifier::external_body]
pub(crate) fn bls_scalar_from_repr(bytes: [u8; 32]) -> (r: Option<BlsScalar>)
    ensures
        r is Some <==> little_endian_value(bytes@) < bls_scalar_modulus(),
        r matches Some(x) ==> x.repr() == bytes@,
{
    let decoded: Option<bls12_381::Scalar> = Option::from(bls12_381::Scalar::from_repr(bytes));
    decoded.map(|scalar| BlsScalar { scalar, repr: Ghost(bytes@) })
}

// ---------------------------------------------------------------------------
// What each kind of field must hold
// ---------------------------------------------------------------------------

/// A value commitment must be a canonical Jubjub encoding of a point not of small order.
pub open spec fn value_commitment_valid(b: Seq<u8>) -> bool {
    jubjub_decodes(b) && !jubjub_small_order(b)
}

/// A note commitment or an anchor must be the canonical encoding of an element of the
/// BLS12-381 scalar field: a little-endian number below the field's modulus.
#[verifier::opaque]
pub open spec fn field_element_valid(b: Seq<u8>) -> bool {
    little_endian_value(b) < bls_scalar_modulus()
}

/// A randomized validating key must be a canonical Jubjub encoding.
pub open spec fn public_key_valid(b: Seq<u8>) -> bool {
    jubjub_decodes(b)
}

/// A value commitment: a Jubjub point not of small order, held as its encoding.
#[derive(Debug, Clone, Copy, PartialEq, Eq)]
pub struct ValueCommitment {
    bytes: [u8; 32],
}

impl ValueCommitment {
    /// What the type keeps as its invariant.
    #[verifier::type_invariant]
    pub open spec fn valid(self) -> bool {
        self@.len() == 32 && value_commitment_valid(self@)
    }

    /// The value commitment that `bytes` encodes, when it is a canonical encoding of a
    /// point not of small order.
    pub fn from_bytes_not_small_order(bytes: &[u8; 32]) -> (r: Option<ValueCommitment>)
        ensures
            r is Some <==> value_commitment_valid(bytes@),
            r matches Some(v) ==> v@ == bytes@,
    {
        match jubjub_from_bytes(bytes) {
            None => None,
            Some(p) => {
                if jubjub_is_small_order(&p) {
                    None
                } else {
                    Some(ValueCommitment { bytes: *bytes })
                }
            },
        }
    }

    /// The encoding of this value commitment.
    pub fn to_bytes(&self) -> (b: [u8; 32])
        ensures
            b@ == self@,
            value_commitment_valid(b@),
    {
        proof {
            use_type_invariant(self);
        }
        self.bytes
    }
}

impl View for ValueCommitment {
    type V = Seq<u8>;

    closed spec fn view(&self) -> Seq<u8> {
        self.bytes@
    }
}

/// A randomized validating key: a Jubjub point, held as its encoding.
#[derive(Debug, Clone, Copy, PartialEq, Eq)]
pub struct PublicKey {
    bytes: [u8; 32],
}

impl PublicKey {
    /// What the type keeps as its invariant.
    #[verifier::type_invariant]
    pub open spec fn valid(self) -> bool {
        self@.len() == 32 && public_key_valid(self@)
    }

    /// The key that `bytes` encodes, when it is a canonical Jubjub encoding.
    pub fn from_bytes(bytes: &[u8; 32]) -> (r: Option<PublicKey>)
        ensures
            r is Some <==> public_key_valid(bytes@),
            r matches Some(v) ==> v@ == bytes@,
    {
        match jubjub_from_bytes(bytes) {
            None => None,
            Some(_) => Some(PublicKey { bytes: *bytes }),
        }
    }

    /// The encoding of this key.
    pub fn to_bytes(&self) -> (b: [u8; 32])
        ensures
            b@ == self@,
            public_key_valid(b@),
    {
        proof {
            use_type_invariant(self);
        }
        self.bytes
    }
}

impl View for PublicKey {
    type V = Seq<u8>;

    closed spec fn view(&self) -> Seq<u8> {
        self.bytes@
    }
}

/// An element of the BLS12-381 scalar field (an anchor), held as its canonical
/// representation.
#[derive(Debug, Clone, Copy, PartialEq, Eq)]
pub struct FieldElement {
    repr: [u8; 32],
}

impl FieldElement {
    /// What the type keeps as its invariant.
    #[verifier::type_invariant]
    pub open spec fn valid(self) -> bool {
        self@.len() == 32 && field_element_valid(self@)
    }

    /// The field element that `repr` represents, when it is canonical.
    pub fn from_repr(repr: [u8; 32]) -> (r: Option<FieldElement>)
        ensures
            r is Some <==> field_element_valid(repr@),
            r matches Some(v) ==> v@ == repr@,
    {
        proof {
            reveal(field_element_valid);
        }
        match bls_scalar_from_repr(repr) {
            None => None,
            Some(_) => Some(FieldElement { repr }),
        }
    }

    /// The canonical representation of this field element.
    pub fn to_repr(&self) -> (b: [u8; 32])
        ensures
            b@ == self@,
            field_element_valid(b@),
    {
        proof {
            use_type_invariant(self);
        }
        self.repr
    }

    /// The field element: the scalar that this element's representation decodes to.
    pub fn scalar(&self) -> (r: BlsScalar)
        ensures
            r.repr() == self@,
    {
        proof {
            use_type_invariant(self);
            reveal(field_element_valid);
        }
        bls_scalar_from_repr(self.repr).unwrap()
    }
}

impl View for FieldElement {
    type V = Seq<u8>;

    closed spec fn view(&self) -> Seq<u8> {
        self.repr@
    }
}

/// A note commitment (its u-coordinate), held as the canonical representation of a
/// field element.
#[derive(Debug, Clone, Copy, PartialEq, Eq)]
pub struct ExtractedNoteCommitment {
    bytes: [u8; 32],
}

impl ExtractedNoteCommitment {
    /// What the type keeps as its invariant.
    #[verifier::type_invariant]
    pub open spec fn valid(self) -> bool {
        self@.len() == 32 && field_element_valid(self@)
    }

    /// The note commitment that `bytes` represents, when it is canonical.
    pub fn from_bytes(bytes: &[u8; 32]) -> (r: Option<ExtractedNoteCommitment>)
        ensures
            r is Some <==> field_element_valid(bytes@),
            r matches Some(v) ==> v@ == bytes@,
    {
        proof {
            reveal(field_element_valid);
        }
        match bls_scalar_from_repr(*bytes) {
            None => None,
            Some(_) => Some(ExtractedNoteCommitment { bytes: *bytes }),
        }
    }

    /// The canonical representation of this note commitment.
    pub fn to_bytes(&self) -> (b: [u8; 32])
        ensures
            b@ == self@,
            field_element_valid(b@),
    {
        proof {
            use_type_invariant(self);
        }
        self.bytes
    }
}

impl View for ExtractedNoteCommitment {
    type V = Seq<u8>;

    closed spec fn view(&self) -> Seq<u8> {
        self.bytes@
    }
}

} // verus!
