//! Sapling spend and output descriptions: their fields, their v4 and v5 encodings, and
//! the checks that the consensus rules ask of each field when it is read.

use crate::curves::{
    field_element_valid, public_key_valid, value_commitment_valid, ExtractedNoteCommitment,
    FieldElement, PublicKey, ValueCommitment,
};
use crate::encoding::{append_bytes, read_array, rest_of, spec_read_bytes};
use crate::error::{read_result_view, ReadError, ReadErrorView};
use vstd::prelude::*;

verus! {

/// The size of a Groth16 proof in bytes.
pub const GROTH_PROOF_SIZE: usize = 192;

/// The size of a note ciphertext in bytes (`zcash_note_encryption::ENC_CIPHERTEXT_SIZE`).
pub const ENC_CIPHERTEXT_SIZE: usize = 580;

/// The size of an outgoing ciphertext in bytes (`zcash_note_encryption::OUT_CIPHERTEXT_SIZE`).
pub const OUT_CIPHERTEXT_SIZE: usize = 80;

/// The size of a spend description in the v4 layout.
pub const SPEND_V4_SIZE: usize = 384;

/// The size of an output description in the v4 layout.
pub const OUTPUT_V4_SIZE: usize = 948;

/// The size of the part of a spend description that the v5 layout keeps together.
pub const SPEND_V5_SIZE: usize = 96;

/// The size of the part of an output description that the v5 layout keeps together.
pub const OUTPUT_V5_SIZE: usize = 756;

// ---------------------------------------------------------------------------
// What each field must hold
// ---------------------------------------------------------------------------

/// Reading a value commitment.
pub open spec fn spec_read_value_commitment(s: Seq<u8>) -> Result<(Seq<u8>, nat), ReadErrorView> {
    if s.len() < 32 {
        Err(ReadErrorView::UnexpectedEof)
    } else if value_commitment_valid(s.take(32)) {
        Ok((s.take(32), 32))
    } else {
        Err(ReadErrorView::InvalidValueCommitment)
    }
}

/// Reading a note commitment.
pub open spec fn spec_read_cmu(s: Seq<u8>) -> Result<(Seq<u8>, nat), ReadErrorView> {
    if s.len() < 32 {
        Err(ReadErrorView::UnexpectedEof)
    } else if field_element_valid(s.take(32)) {
        Ok((s.take(32), 32))
    } else {
        Err(ReadErrorView::CmuNotInField)
    }
}

/// Reading a field element named `field`.
pub open spec fn spec_read_base(s: Seq<u8>, field: Seq<char>) -> Result<(Seq<u8>, nat), ReadErrorView> {
    if s.len() < 32 {
        Err(ReadErrorView::UnexpectedEof)
    } else if field_element_valid(s.take(32)) {
        Ok((s.take(32), 32))
    } else {
        Err(ReadErrorView::NotInField(field))
    }
}

/// Reading a randomized validating key.
pub open spec fn spec_read_rk(s: Seq<u8>) -> Result<(Seq<u8>, nat), ReadErrorView> {
    if s.len() < 32 {
        Err(ReadErrorView::UnexpectedEof)
    } else if public_key_valid(s.take(32)) {
        Ok((s.take(32), 32))
    } else {
        Err(ReadErrorView::InvalidPublicKey)
    }
}

/// Reads a value commitment: 32 bytes that must encode a Jubjub point, canonically, that
/// is not of small order.
pub fn read_value_commitment(input: &[u8]) -> (r: Result<(ValueCommitment, usize), ReadError>)
    ensures
        read_result_view(r) == spec_read_value_commitment(input@),
{
    let (bytes, n) = match read_array::<32>(input) {
        Ok(x) => x,
        Err(e) => return Err(e),
    };
    match ValueCommitment::from_bytes_not_small_order(&bytes) {
        None => Err(ReadError::InvalidValueCommitment),
        Some(cv) => Ok((cv, n)),
    }
}

/// Reads a note commitment: 32 bytes that must be the canonical encoding of a field element.
pub fn read_cmu(input: &[u8]) -> (r: Result<(ExtractedNoteCommitment, usize), ReadError>)
    ensures
        read_result_view(r) == spec_read_cmu(input@),
{
    let (bytes, n) = match read_array::<32>(input) {
        Ok(x) => x,
        Err(e) => return Err(e),
    };
    match ExtractedNoteCommitment::from_bytes(&bytes) {
        None => Err(ReadError::CmuNotInField),
        Some(cmu) => Ok((cmu, n)),
    }
}

/// Reads a field element: 32 bytes that must be its canonical encoding. A refusal names
/// `field`. Returns the field element and the number of bytes read.
pub fn read_base(input: &[u8], field: &str) -> (r: Result<(FieldElement, usize), ReadError>)
    ensures
        read_result_view(r) == spec_read_base(input@, field@),
{
    let (bytes, n) = match read_array::<32>(input) {
        Ok(x) => x,
        Err(e) => return Err(e),
    };
    match FieldElement::from_repr(bytes) {
        None => Err(ReadError::NotInField(String::from_str(field))),
        Some(f) => Ok((f, n)),
    }
}

/// Reads a Groth16 proof: the next 192 bytes, unchecked (the proof is checked when the
/// transaction is verified).
pub fn read_zkproof(input: &[u8]) -> (r: Result<([u8; GROTH_PROOF_SIZE], usize), ReadError>)
    ensures
        read_result_view(r) == spec_read_bytes(input@, 192),
{
    read_array::<GROTH_PROOF_SIZE>(input)
}

/// Reads a nullifier: the next 32 bytes.
pub fn read_nullifier(input: &[u8]) -> (r: Result<([u8; 32], usize), ReadError>)
    ensures
        read_result_view(r) == spec_read_bytes(input@, 32),
{
    read_array::<32>(input)
}

/// Reads a randomized validating key: 32 bytes that must encode a Jubjub point, canonically.
pub fn read_rk(input: &[u8]) -> (r: Result<(PublicKey, usize), ReadError>)
    ensures
        read_result_view(r) == spec_read_rk(input@),
{
    let (bytes, n) = match read_array::<32>(input) {
        Ok(x) => x,
        Err(e) => return Err(e),
    };
    match PublicKey::from_bytes(&bytes) {
        None => Err(ReadError::InvalidPublicKey),
        Some(rk) => Ok((rk, n)),
    }
}

/// Reads a spend authorization signature: the next 64 bytes, unchecked (the signature is
/// checked when the transaction is verified).
pub fn read_spend_auth_sig(input: &[u8]) -> (r: Result<([u8; 64], usize), ReadError>)
    ensures
        read_result_view(r) == spec_read_bytes(input@, 64),
{
    read_array::<64>(input)
}

// ---------------------------------------------------------------------------
// Spend descriptions
// ---------------------------------------------------------------------------

/// A Sapling spend description. The checked fields hold only what the consensus rules
/// admit (their types keep that as an invariant).
#[derive(Debug, Clone, Copy, PartialEq, Eq)]
pub struct SpendDescription {
    /// The value commitment to the note spent.
    pub cv: ValueCommitment,
    /// The root of the note commitment tree the note is proved to be in.
    pub anchor: FieldElement,
    /// The nullifier of the note spent.
    pub nullifier: [u8; 32],
    /// The randomized validating key.
    pub rk: PublicKey,
    /// The Groth16 spend proof.
    pub zkproof: [u8; GROTH_PROOF_SIZE],
    /// The spend authorization signature (`rbar || sbar`).
    pub spend_auth_sig: [u8; 64],
}

/// The fields of a spend description as byte sequences.
pub struct SpendView {
    pub cv: Seq<u8>,
    pub anchor: Seq<u8>,
    pub nullifier: Seq<u8>,
    pub rk: Seq<u8>,
    pub zkproof: Seq<u8>,
    pub spend_auth_sig: Seq<u8>,
}

impl View for SpendDescription {
    type V = SpendView;

    open spec fn view(&self) -> SpendView {
        SpendView {
            cv: self.cv@,
            anchor: self.anchor@,
            nullifier: self.nullifier@,
            rk: self.rk@,
            zkproof: self.zkproof@,
            spend_auth_sig: self.spend_auth_sig@,
        }
    }
}

impl SpendView {
    /// Each field has its size, and the checked fields hold what the consensus rules
    /// ask of them: what a reader can return.
    pub open spec fn wf(self) -> bool {
        &&& self.cv.len() == 32
        &&& self.anchor.len() == 32
        &&& self.nullifier.len() == 32
        &&& self.rk.len() == 32
        &&& self.zkproof.len() == 192
        &&& self.spend_auth_sig.len() == 64
        &&& value_commitment_valid(self.cv)
        &&& field_element_valid(self.anchor)
        &&& public_key_valid(self.rk)
    }

    /// The part of the spend kept together in the v5 layout.
    pub open spec fn v5_part(self) -> SpendV5View {
        SpendV5View { cv: self.cv, nullifier: self.nullifier, rk: self.rk }
    }
}

/// The v4 encoding of a spend description.
pub open spec fn spend_v4_encoding(v: SpendView) -> Seq<u8> {
    v.cv + v.anchor + v.nullifier + v.rk + v.zkproof + v.spend_auth_sig
}

/// Reading a spend description in the v4 layout.
pub open spec fn spec_read_spend_v4(s: Seq<u8>) -> Result<(SpendView, nat), ReadErrorView> {
    match spec_read_value_commitment(s) {
        Err(e) => Err(e),
        Ok((cv, _)) => match spec_read_base(s.skip(32), "anchor"@) {
            Err(e) => Err(e),
            Ok((anchor, _)) => match spec_read_bytes(s.skip(64), 32) {
                Err(e) => Err(e),
                Ok((nullifier, _)) => match spec_read_rk(s.skip(96)) {
                    Err(e) => Err(e),
                    Ok((rk, _)) => match spec_read_bytes(s.skip(128), 192) {
                        Err(e) => Err(e),
                        Ok((zkproof, _)) => match spec_read_bytes(s.skip(320), 64) {
                            Err(e) => Err(e),
                            Ok((spend_auth_sig, _)) => Ok(
                                (
                                    SpendView { cv, anchor, nullifier, rk, zkproof, spend_auth_sig },
                                    384,
                                ),
                            ),
                        },
                    },
                },
            },
        },
    }
}

/// Reads a spend description in the v4 layout; the spend and the number of bytes read.
pub(crate) fn read_spend_v4(input: &[u8]) -> (r: Result<(SpendDescription, usize), ReadError>)
    ensures
        read_result_view(r) == spec_read_spend_v4(input@),
{
    let (cv, _) = match read_value_commitment(input) {
        Ok(x) => x,
        Err(e) => return Err(e),
    };
    let (anchor, _) = match read_base(rest_of(input, 32), "anchor") {
        Ok(x) => x,
        Err(e) => return Err(e),
    };
    let (nullifier, _) = match read_nullifier(rest_of(input, 64)) {
        Ok(x) => x,
        Err(e) => return Err(e),
    };
    let (rk, _) = match read_rk(rest_of(input, 96)) {
        Ok(x) => x,
        Err(e) => return Err(e),
    };
    let (zkproof, _) = match read_zkproof(rest_of(input, 128)) {
        Ok(x) => x,
        Err(e) => return Err(e),
    };
    let (spend_auth_sig, _) = match read_spend_auth_sig(rest_of(input, 320)) {
        Ok(x) => x,
        Err(e) => return Err(e),
    };
    Ok((SpendDescription { cv, anchor, nullifier, rk, zkproof, spend_auth_sig }, SPEND_V4_SIZE))
}

/// Reads a spend description in the v4 layout; the spend and the number of bytes read.
pub fn temporary_zcashd_read_spend_v4(input: &[u8]) -> (r: Result<(SpendDescription, usize), ReadError>)
    ensures
        read_result_view(r) == spec_read_spend_v4(input@),
{
    read_spend_v4(input)
}

/// Writes a spend description in the v4 layout.
pub(crate) fn write_spend_v4(out: &mut Vec<u8>, spend: &SpendDescription)
    ensures
        final(out)@ == old(out)@ + spend_v4_encoding(spend@),
        spend@.wf(),
{
    let cv = spend.cv.to_bytes();
    append_bytes(out, cv.as_slice());
    let anchor = spend.anchor.to_repr();
    append_bytes(out, anchor.as_slice());
    append_bytes(out, spend.nullifier.as_slice());
    let rk = spend.rk.to_bytes();
    append_bytes(out, rk.as_slice());
    append_bytes(out, spend.zkproof.as_slice());
    append_bytes(out, spend.spend_auth_sig.as_slice());
    assert(out@ =~= old(out)@ + spend_v4_encoding(spend@));
}

/// Law: a well-formed spend description reads back from its v4 encoding, whatever follows.
pub proof fn lemma_spend_v4_round_trip(v: SpendView, rest: Seq<u8>)
    requires
        v.wf(),
    ensures
        spend_v4_encoding(v).len() == 384,
        spec_read_spend_v4(spend_v4_encoding(v) + rest) == Ok::<(SpendView, nat), ReadErrorView>(
            (v, 384),
        ),
{
    let s = spend_v4_encoding(v) + rest;
    assert(s.take(32) =~= v.cv);
    assert(s.skip(32).take(32) =~= v.anchor);
    assert(s.skip(64).take(32) =~= v.nullifier);
    assert(s.skip(96).take(32) =~= v.rk);
    assert(s.skip(128).take(192) =~= v.zkproof);
    assert(s.skip(320).take(64) =~= v.spend_auth_sig);
}

/// Law: a spend description read in the v4 layout is well formed, and is written back as
/// exactly the bytes it was read from.
pub proof fn lemma_spend_v4_canonical(s: Seq<u8>)
    ensures
        spec_read_spend_v4(s) matches Ok((v, k)) ==> k == 384 && k <= s.len() && v.wf()
            && spend_v4_encoding(v) == s.take(384),
{
    if let Ok((v, k)) = spec_read_spend_v4(s) {
        assert(spend_v4_encoding(v) =~= s.take(384));
    }
}

/// The part of a spend description that the v5 layout keeps together (the anchor, proof
/// and signature are stored elsewhere in a v5 bundle).
#[derive(Debug, Clone, Copy, PartialEq, Eq)]
pub struct SpendDescriptionV5 {
    pub cv: ValueCommitment,
    pub nullifier: [u8; 32],
    pub rk: PublicKey,
}

/// The fields of a [`SpendDescriptionV5`] as byte sequences.
pub struct SpendV5View {
    pub cv: Seq<u8>,
    pub nullifier: Seq<u8>,
    pub rk: Seq<u8>,
}

impl View for SpendDescriptionV5 {
    type V = SpendV5View;

    open spec fn view(&self) -> SpendV5View {
        SpendV5View { cv: self.cv@, nullifier: self.nullifier@, rk: self.rk@ }
    }
}

impl SpendV5View {
    /// Each field has its size and the checked fields hold what the rules ask.
    pub open spec fn wf(self) -> bool {
        &&& self.cv.len() == 32
        &&& self.nullifier.len() == 32
        &&& self.rk.len() == 32
        &&& value_commitment_valid(self.cv)
        &&& public_key_valid(self.rk)
    }
}

/// The v5 encoding of the part of a spend kept together.
pub open spec fn spend_v5_encoding(v: SpendV5View) -> Seq<u8> {
    v.cv + v.nullifier + v.rk
}

/// Reading the part of a spend description kept together in the v5 layout.
pub open spec fn spec_read_spend_v5(s: Seq<u8>) -> Result<(SpendV5View, nat), ReadErrorView> {
    match spec_read_value_commitment(s) {
        Err(e) => Err(e),
        Ok((cv, _)) => match spec_read_bytes(s.skip(32), 32) {
            Err(e) => Err(e),
            Ok((nullifier, _)) => match spec_read_rk(s.skip(64)) {
                Err(e) => Err(e),
                Ok((rk, _)) => Ok((SpendV5View { cv, nullifier, rk }, 96)),
            },
        },
    }
}

/// Reads the part of a spend description kept together in the v5 layout.
pub(crate) fn read_spend_v5(input: &[u8]) -> (r: Result<(SpendDescriptionV5, usize), ReadError>)
    ensures
        read_result_view(r) == spec_read_spend_v5(input@),
{
    let (cv, _) = match read_value_commitment(input) {
        Ok(x) => x,
        Err(e) => return Err(e),
    };
    let (nullifier, _) = match read_nullifier(rest_of(input, 32)) {
        Ok(x) => x,
        Err(e) => return Err(e),
    };
    let (rk, _) = match read_rk(rest_of(input, 64)) {
        Ok(x) => x,
        Err(e) => return Err(e),
    };
    Ok((SpendDescriptionV5 { cv, nullifier, rk }, SPEND_V5_SIZE))
}

/// Writes the part of a spend description kept together in the v5 layout.
pub(crate) fn write_spend_v5_without_witness_data(out: &mut Vec<u8>, spend: &SpendDescription)
    ensures
        final(out)@ == old(out)@ + spend_v5_encoding(spend@.v5_part()),
        spend@.wf(),
{
    proof {
        use_type_invariant(&spend.anchor);
    }
    let cv = spend.cv.to_bytes();
    append_bytes(out, cv.as_slice());
    append_bytes(out, spend.nullifier.as_slice());
    let rk = spend.rk.to_bytes();
    append_bytes(out, rk.as_slice());
    assert(out@ =~= old(out)@ + spend_v5_encoding(spend@.v5_part()));
}

/// Law: the v5 part of a well-formed spend reads back from its encoding, whatever follows.
pub proof fn lemma_spend_v5_round_trip(v: SpendV5View, rest: Seq<u8>)
    requires
        v.wf(),
    ensures
        spend_v5_encoding(v).len() == 96,
        spec_read_spend_v5(spend_v5_encoding(v) + rest) == Ok::<(SpendV5View, nat), ReadErrorView>(
            (v, 96),
        ),
{
    let s = spend_v5_encoding(v) + rest;
    assert(s.take(32) =~= v.cv);
    assert(s.skip(32).take(32) =~= v.nullifier);
    assert(s.skip(64).take(32) =~= v.rk);
}

/// Law: the v5 part of a spend is well formed when read, and is written back as exactly
/// the bytes it was read from.
pub proof fn lemma_spend_v5_canonical(s: Seq<u8>)
    ensures
        spec_read_spend_v5(s) matches Ok((v, k)) ==> k == 96 && k <= s.len() && v.wf()
            && spend_v5_encoding(v) == s.take(96),
{
    if let Ok((v, k)) = spec_read_spend_v5(s) {
        assert(spend_v5_encoding(v) =~= s.take(96));
    }
}

// ---------------------------------------------------------------------------
// Output descriptions
// ---------------------------------------------------------------------------

/// A Sapling output description. The checked fields hold only what the consensus rules
/// admit (their types keep that as an invariant).
#[derive(Debug, Clone, Copy, PartialEq, Eq)]
pub struct OutputDescription {
    /// The value commitment to the new note.
    pub cv: ValueCommitment,
    /// The note commitment (its u-coordinate).
    pub cmu: ExtractedNoteCommitment,
    /// The ephemeral public key.
    pub ephemeral_key: [u8; 32],
    /// The note ciphertext.
    pub enc_ciphertext: [u8; ENC_CIPHERTEXT_SIZE],
    /// The outgoing ciphertext.
    pub out_ciphertext: [u8; OUT_CIPHERTEXT_SIZE],
    /// The Groth16 output proof.
    pub zkproof: [u8; GROTH_PROOF_SIZE],
}

/// The fields of an output description as byte sequences.
pub struct OutputView {
    pub cv: Seq<u8>,
    pub cmu: Seq<u8>,
    pub ephemeral_key: Seq<u8>,
    pub enc_ciphertext: Seq<u8>,
    pub out_ciphertext: Seq<u8>,
    pub zkproof: Seq<u8>,
}

impl View for OutputDescription {
    type V = OutputView;

    open spec fn view(&self) -> OutputView {
        OutputView {
            cv: self.cv@,
            cmu: self.cmu@,
            ephemeral_key: self.ephemeral_key@,
            enc_ciphertext: self.enc_ciphertext@,
            out_ciphertext: self.out_ciphertext@,
            zkproof: self.zkproof@,
        }
    }
}

impl OutputView {
    /// Each field has its size and the checked fields hold what the rules ask.
    pub open spec fn wf(self) -> bool {
        &&& self.cv.len() == 32
        &&& self.cmu.len() == 32
        &&& self.ephemeral_key.len() == 32
        &&& self.enc_ciphertext.len() == 580
        &&& self.out_ciphertext.len() == 80
        &&& self.zkproof.len() == 192
        &&& value_commitment_valid(self.cv)
        &&& field_element_valid(self.cmu)
    }

    /// The part of the output kept together in the v5 layout.
    pub open spec fn v5_part(self) -> OutputV5View {
        OutputV5View {
            cv: self.cv,
            cmu: self.cmu,
            ephemeral_key: self.ephemeral_key,
            enc_ciphertext: self.enc_ciphertext,
            out_ciphertext: self.out_ciphertext,
        }
    }
}

/// The v4 encoding of an output description.
pub open spec fn output_v4_encoding(v: OutputView) -> Seq<u8> {
    v.cv + v.cmu + v.ephemeral_key + v.enc_ciphertext + v.out_ciphertext + v.zkproof
}

/// Reading an output description in the v4 layout.
pub open spec fn spec_read_output_v4(s: Seq<u8>) -> Result<(OutputView, nat), ReadErrorView> {
    match spec_read_value_commitment(s) {
        Err(e) => Err(e),
        Ok((cv, _)) => match spec_read_cmu(s.skip(32)) {
            Err(e) => Err(e),
            Ok((cmu, _)) => match spec_read_bytes(s.skip(64), 32) {
                Err(e) => Err(e),
                Ok((ephemeral_key, _)) => match spec_read_bytes(s.skip(96), 580) {
                    Err(e) => Err(e),
                    Ok((enc_ciphertext, _)) => match spec_read_bytes(s.skip(676), 80) {
                        Err(e) => Err(e),
                        Ok((out_ciphertext, _)) => match spec_read_bytes(s.skip(756), 192) {
                            Err(e) => Err(e),
                            Ok((zkproof, _)) => Ok(
                                (
                                    OutputView {
                                        cv,
                                        cmu,
                                        ephemeral_key,
                                        enc_ciphertext,
                                        out_ciphertext,
                                        zkproof,
                                    },
                                    948,
                                ),
                            ),
                        },
                    },
                },
            },
        },
    }
}

/// Reads an output description in the v4 layout; the output and the number of bytes read.
pub(crate) fn read_output_v4(input: &[u8]) -> (r: Result<(OutputDescription, usize), ReadError>)
    ensures
        read_result_view(r) == spec_read_output_v4(input@),
{
    let (cv, _) = match read_value_commitment(input) {
        Ok(x) => x,
        Err(e) => return Err(e),
    };
    let (cmu, _) = match read_cmu(rest_of(input, 32)) {
        Ok(x) => x,
        Err(e) => return Err(e),
    };
    let (ephemeral_key, _) = match read_array::<32>(rest_of(input, 64)) {
        Ok(x) => x,
        Err(e) => return Err(e),
    };
    let (enc_ciphertext, _) = match read_array::<ENC_CIPHERTEXT_SIZE>(rest_of(input, 96)) {
        Ok(x) => x,
        Err(e) => return Err(e),
    };
    let (out_ciphertext, _) = match read_array::<OUT_CIPHERTEXT_SIZE>(rest_of(input, 676)) {
        Ok(x) => x,
        Err(e) => return Err(e),
    };
    let (zkproof, _) = match read_zkproof(rest_of(input, 756)) {
        Ok(x) => x,
        Err(e) => return Err(e),
    };
    Ok(
        (
            OutputDescription { cv, cmu, ephemeral_key, enc_ciphertext, out_ciphertext, zkproof },
            OUTPUT_V4_SIZE,
        ),
    )
}

/// Reads an output description in the v4 layout; the output and the number of bytes read.
pub fn temporary_zcashd_read_output_v4(input: &[u8]) -> (r: Result<(OutputDescription, usize), ReadError>)
    ensures
        read_result_view(r) == spec_read_output_v4(input@),
{
    read_output_v4(input)
}

/// Writes an output description in the v4 layout.
pub fn write_output_v4(out: &mut Vec<u8>, output: &OutputDescription)
    ensures
        final(out)@ == old(out)@ + output_v4_encoding(output@),
        output@.wf(),
{
    let cv = output.cv.to_bytes();
    append_bytes(out, cv.as_slice());
    let cmu = output.cmu.to_bytes();
    append_bytes(out, cmu.as_slice());
    append_bytes(out, output.ephemeral_key.as_slice());
    append_bytes(out, output.enc_ciphertext.as_slice());
    append_bytes(out, output.out_ciphertext.as_slice());
    append_bytes(out, output.zkproof.as_slice());
    assert(out@ =~= old(out)@ + output_v4_encoding(output@));
}

/// Writes an output description in the v4 layout.
pub fn temporary_zcashd_write_output_v4(out: &mut Vec<u8>, output: &OutputDescription)
    ensures
        final(out)@ == old(out)@ + output_v4_encoding(output@),
        output@.wf(),
{
    write_output_v4(out, output)
}

/// Law: a well-formed output description reads back from its v4 encoding, whatever follows.
pub proof fn lemma_output_v4_round_trip(v: OutputView, rest: Seq<u8>)
    requires
        v.wf(),
    ensures
        output_v4_encoding(v).len() == 948,
        spec_read_output_v4(output_v4_encoding(v) + rest) == Ok::<(OutputView, nat), ReadErrorView>(
            (v, 948),
        ),
{
    let s = output_v4_encoding(v) + rest;
    assert(s.take(32) =~= v.cv);
    assert(s.skip(32).take(32) =~= v.cmu);
    assert(s.skip(64).take(32) =~= v.ephemeral_key);
    assert(s.skip(96).take(580) =~= v.enc_ciphertext);
    assert(s.skip(676).take(80) =~= v.out_ciphertext);
    assert(s.skip(756).take(192) =~= v.zkproof);
}

/// Law: an output description read in the v4 layout is well formed, and is written back
/// as exactly the bytes it was read from.
pub proof fn lemma_output_v4_canonical(s: Seq<u8>)
    ensures
        spec_read_output_v4(s) matches Ok((v, k)) ==> k == 948 && k <= s.len() && v.wf()
            && output_v4_encoding(v) == s.take(948),
{
    if let Ok((v, k)) = spec_read_output_v4(s) {
        assert(output_v4_encoding(v) =~= s.take(948));
    }
}

/// The part of an output description that the v5 layout keeps together (the proof is
/// stored elsewhere in a v5 bundle).
#[derive(Debug, Clone, Copy, PartialEq, Eq)]
pub struct OutputDescriptionV5 {
    pub cv: ValueCommitment,
    pub cmu: ExtractedNoteCommitment,
    pub ephemeral_key: [u8; 32],
    pub enc_ciphertext: [u8; ENC_CIPHERTEXT_SIZE],
    pub out_ciphertext: [u8; OUT_CIPHERTEXT_SIZE],
}

/// The fields of an [`OutputDescriptionV5`] as byte sequences.
pub struct OutputV5View {
    pub cv: Seq<u8>,
    pub cmu: Seq<u8>,
    pub ephemeral_key: Seq<u8>,
    pub enc_ciphertext: Seq<u8>,
    pub out_ciphertext: Seq<u8>,
}

impl View for OutputDescriptionV5 {
    type V = OutputV5View;

    open spec fn view(&self) -> OutputV5View {
        OutputV5View {
            cv: self.cv@,
            cmu: self.cmu@,
            ephemeral_key: self.ephemeral_key@,
            enc_ciphertext: self.enc_ciphertext@,
            out_ciphertext: self.out_ciphertext@,
        }
    }
}

impl OutputV5View {
    /// Each field has its size and the checked fields hold what the rules ask.
    pub open spec fn wf(self) -> bool {
        &&& self.cv.len() == 32
        &&& self.cmu.len() == 32
        &&& self.ephemeral_key.len() == 32
        &&& self.enc_ciphertext.len() == 580
        &&& self.out_ciphertext.len() == 80
        &&& value_commitment_valid(self.cv)
        &&& field_element_valid(self.cmu)
    }
}

/// The v5 encoding of the part of an output kept together.
pub open spec fn output_v5_encoding(v: OutputV5View) -> Seq<u8> {
    v.cv + v.cmu + v.ephemeral_key + v.enc_ciphertext + v.out_ciphertext
}

/// Reading the part of an output description kept together in the v5 layout.
pub open spec fn spec_read_output_v5(s: Seq<u8>) -> Result<(OutputV5View, nat), ReadErrorView> {
    match spec_read_value_commitment(s) {
        Err(e) => Err(e),
        Ok((cv, _)) => match spec_read_cmu(s.skip(32)) {
            Err(e) => Err(e),
            Ok((cmu, _)) => match spec_read_bytes(s.skip(64), 32) {
                Err(e) => Err(e),
                Ok((ephemeral_key, _)) => match spec_read_bytes(s.skip(96), 580) {
                    Err(e) => Err(e),
                    Ok((enc_ciphertext, _)) => match spec_read_bytes(s.skip(676), 80) {
                        Err(e) => Err(e),
                        Ok((out_ciphertext, _)) => Ok(
                            (
                                OutputV5View {
                                    cv,
                                    cmu,
                                    ephemeral_key,
                                    enc_ciphertext,
                                    out_ciphertext,
                                },
                                756,
                            ),
                        ),
                    },
                },
            },
        },
    }
}

/// Reads the part of an output description kept together in the v5 layout.
pub(crate) fn read_output_v5(input: &[u8]) -> (r: Result<(OutputDescriptionV5, usize), ReadError>)
    ensures
        read_result_view(r) == spec_read_output_v5(input@),
{
    let (cv, _) = match read_value_commitment(input) {
        Ok(x) => x,
        Err(e) => return Err(e),
    };
    let (cmu, _) = match read_cmu(rest_of(input, 32)) {
        Ok(x) => x,
        Err(e) => return Err(e),
    };
    let (ephemeral_key, _) = match read_array::<32>(rest_of(input, 64)) {
        Ok(x) => x,
        Err(e) => return Err(e),
    };
    let (enc_ciphertext, _) = match read_array::<580>(rest_of(input, 96)) {
        Ok(x) => x,
        Err(e) => return Err(e),
    };
    let (out_ciphertext, _) = match read_array::<80>(rest_of(input, 676)) {
        Ok(x) => x,
        Err(e) => return Err(e),
    };
    Ok(
        (
            OutputDescriptionV5 { cv, cmu, ephemeral_key, enc_ciphertext, out_ciphertext },
            OUTPUT_V5_SIZE,
        ),
    )
}

/// Writes the part of an output description kept together in the v5 layout.
pub(crate) fn write_output_v5_without_proof(out: &mut Vec<u8>, output: &OutputDescription)
    ensures
        final(out)@ == old(out)@ + output_v5_encoding(output@.v5_part()),
        output@.wf(),
{
    let cv = output.cv.to_bytes();
    append_bytes(out, cv.as_slice());
    let cmu = output.cmu.to_bytes();
    append_bytes(out, cmu.as_slice());
    append_bytes(out, output.ephemeral_key.as_slice());
    append_bytes(out, output.enc_ciphertext.as_slice());
    append_bytes(out, output.out_ciphertext.as_slice());
    assert(out@ =~= old(out)@ + output_v5_encoding(output@.v5_part()));
}

/// Law: the v5 part of a well-formed output reads back from its encoding, whatever follows.
pub proof fn lemma_output_v5_round_trip(v: OutputV5View, rest: Seq<u8>)
    requires
        v.wf(),
    ensures
        output_v5_encoding(v).len() == 756,
        spec_read_output_v5(output_v5_encoding(v) + rest) == Ok::<
            (OutputV5View, nat),
            ReadErrorView,
        >((v, 756)),
{
    let s = output_v5_encoding(v) + rest;
    assert(s.take(32) =~= v.cv);
    assert(s.skip(32).take(32) =~= v.cmu);
    assert(s.skip(64).take(32) =~= v.ephemeral_key);
    assert(s.skip(96).take(580) =~= v.enc_ciphertext);
    assert(s.skip(676).take(80) =~= v.out_ciphertext);
}

/// Law: the v5 part of an output is well formed when read, and is written back as
/// exactly the bytes it was read from.
pub proof fn lemma_output_v5_canonical(s: Seq<u8>)
    ensures
        spec_read_output_v5(s) matches Ok((v, k)) ==> k == 756 && k <= s.len() && v.wf()
            && output_v5_encoding(v) == s.take(756),
{
    if let Ok((v, k)) = spec_read_output_v5(s) {
        assert(output_v5_encoding(v) =~= s.take(756));
    }
}

// ---------------------------------------------------------------------------
// Byte layouts
// ---------------------------------------------------------------------------

/// Law: the v4 layout of a spend description, field by field: its value commitment in
/// bytes 0..32, its anchor in 32..64, its nullifier in 64..96, its randomized validating
/// key in 96..128, its proof in 128..320 and its authorization signature in 320..384.
pub proof fn lemma_spend_v4_layout(v: SpendView)
    requires
        v.wf(),
    ensures
        spend_v4_encoding(v).len() == 384,
        spend_v4_encoding(v).subrange(0, 32) == v.cv,
        spend_v4_encoding(v).subrange(32, 64) == v.anchor,
        spend_v4_encoding(v).subrange(64, 96) == v.nullifier,
        spend_v4_encoding(v).subrange(96, 128) == v.rk,
        spend_v4_encoding(v).subrange(128, 320) == v.zkproof,
        spend_v4_encoding(v).subrange(320, 384) == v.spend_auth_sig,
{
    let e = spend_v4_encoding(v);
    assert(e.subrange(0, 32) =~= v.cv);
    assert(e.subrange(32, 64) =~= v.anchor);
    assert(e.subrange(64, 96) =~= v.nullifier);
    assert(e.subrange(96, 128) =~= v.rk);
    assert(e.subrange(128, 320) =~= v.zkproof);
    assert(e.subrange(320, 384) =~= v.spend_auth_sig);
}

/// Law: the v5 layout of the part of a spend kept together: its value commitment in
/// bytes 0..32, its nullifier in 32..64 and its randomized validating key in 64..96.
pub proof fn lemma_spend_v5_layout(v: SpendV5View)
    requires
        v.wf(),
    ensures
        spend_v5_encoding(v).len() == 96,
        spend_v5_encoding(v).subrange(0, 32) == v.cv,
        spend_v5_encoding(v).subrange(32, 64) == v.nullifier,
        spend_v5_encoding(v).subrange(64, 96) == v.rk,
{
    let e = spend_v5_encoding(v);
    assert(e.subrange(0, 32) =~= v.cv);
    assert(e.subrange(32, 64) =~= v.nullifier);
    assert(e.subrange(64, 96) =~= v.rk);
}

/// Law: the v4 layout of an output description, field by field: its value commitment in
/// bytes 0..32, its note commitment in 32..64, its ephemeral key in 64..96, its note
/// ciphertext in 96..676, its outgoing ciphertext in 676..756 and its proof in 756..948.
pub proof fn lemma_output_v4_layout(v: OutputView)
    requires
        v.wf(),
    ensures
        output_v4_encoding(v).len() == 948,
        output_v4_encoding(v).subrange(0, 32) == v.cv,
        output_v4_encoding(v).subrange(32, 64) == v.cmu,
        output_v4_encoding(v).subrange(64, 96) == v.ephemeral_key,
        output_v4_encoding(v).subrange(96, 676) == v.enc_ciphertext,
        output_v4_encoding(v).subrange(676, 756) == v.out_ciphertext,
        output_v4_encoding(v).subrange(756, 948) == v.zkproof,
{
    let e = output_v4_encoding(v);
    assert(e.subrange(0, 32) =~= v.cv);
    assert(e.subrange(32, 64) =~= v.cmu);
    assert(e.subrange(64, 96) =~= v.ephemeral_key);
    assert(e.subrange(96, 676) =~= v.enc_ciphertext);
    assert(e.subrange(676, 756) =~= v.out_ciphertext);
    assert(e.subrange(756, 948) =~= v.zkproof);
}

/// Law: the v5 layout of the part of an output kept together: its value commitment in
/// bytes 0..32, its note commitment in 32..64, its ephemeral key in 64..96, its note
/// ciphertext in 96..676 and its outgoing ciphertext in 676..756.
pub proof fn lemma_output_v5_layout(v: OutputV5View)
    requires
        v.wf(),
    ensures
        output_v5_encoding(v).len() == 756,
        output_v5_encoding(v).subrange(0, 32) == v.cv,
        output_v5_encoding(v).subrange(32, 64) == v.cmu,
        output_v5_encoding(v).subrange(64, 96) == v.ephemeral_key,
        output_v5_encoding(v).subrange(96, 676) == v.enc_ciphertext,
        output_v5_encoding(v).subrange(676, 756) == v.out_ciphertext,
{
    let e = output_v5_encoding(v);
    assert(e.subrange(0, 32) =~= v.cv);
    assert(e.subrange(32, 64) =~= v.cmu);
    assert(e.subrange(64, 96) =~= v.ephemeral_key);
    assert(e.subrange(96, 676) =~= v.enc_ciphertext);
    assert(e.subrange(676, 756) =~= v.out_ciphertext);
}

} // verus!
