use ff::PrimeField;
use group::{Group, GroupEncoding};
use sapling_components::curves::{ExtractedNoteCommitment, FieldElement, PublicKey, ValueCommitment};
use sapling_components::error::ReadError;
use sapling_components::sapling::{
    read_spend_auth_sig, read_value_commitment,
    read_base, read_zkproof, temporary_zcashd_read_output_v4, temporary_zcashd_read_spend_v4,
    temporary_zcashd_write_output_v4, write_output_v4, OutputDescription, SpendDescription,
    ENC_CIPHERTEXT_SIZE, GROTH_PROOF_SIZE, OUT_CIPHERTEXT_SIZE, OUTPUT_V4_SIZE, SPEND_V4_SIZE,
};

fn generator_bytes() -> [u8; 32] {
    jubjub::ExtendedPoint::generator().to_bytes()
}

fn identity_bytes() -> [u8; 32] {
    jubjub::ExtendedPoint::identity().to_bytes()
}

fn scalar_bytes(v: u64) -> [u8; 32] {
    bls12_381::Scalar::from(v).to_repr()
}

fn valid_cv() -> ValueCommitment {
    ValueCommitment::from_bytes_not_small_order(&generator_bytes()).unwrap()
}

fn valid_rk() -> PublicKey {
    PublicKey::from_bytes(&generator_bytes()).unwrap()
}

fn field(v: u64) -> FieldElement {
    FieldElement::from_repr(scalar_bytes(v)).unwrap()
}

fn sample_spend(seed: u8) -> SpendDescription {
    SpendDescription {
        cv: valid_cv(),
        anchor: field(7),
        nullifier: [seed; 32],
        rk: valid_rk(),
        zkproof: [seed.wrapping_add(1); GROTH_PROOF_SIZE],
        spend_auth_sig: [seed.wrapping_add(2); 64],
    }
}

fn sample_output(seed: u8) -> OutputDescription {
    OutputDescription {
        cv: valid_cv(),
        cmu: ExtractedNoteCommitment::from_bytes(&scalar_bytes(11)).unwrap(),
        ephemeral_key: [seed; 32],
        enc_ciphertext: [seed.wrapping_add(1); ENC_CIPHERTEXT_SIZE],
        out_ciphertext: [seed.wrapping_add(2); OUT_CIPHERTEXT_SIZE],
        zkproof: [seed.wrapping_add(3); GROTH_PROOF_SIZE],
    }
}

fn spend_bytes(s: &SpendDescription) -> Vec<u8> {
    let mut v = Vec::new();
    v.extend_from_slice(&s.cv.to_bytes());
    v.extend_from_slice(&s.anchor.to_repr());
    v.extend_from_slice(&s.nullifier);
    v.extend_from_slice(&s.rk.to_bytes());
    v.extend_from_slice(&s.zkproof);
    v.extend_from_slice(&s.spend_auth_sig);
    v
}

#[test]
fn sizes_agree_with_the_note_encryption_crate() {
    assert_eq!(ENC_CIPHERTEXT_SIZE, zcash_note_encryption::ENC_CIPHERTEXT_SIZE);
    assert_eq!(OUT_CIPHERTEXT_SIZE, zcash_note_encryption::OUT_CIPHERTEXT_SIZE);
    assert_eq!(SPEND_V4_SIZE, 384);
    assert_eq!(OUTPUT_V4_SIZE, 948);
}

#[test]
fn sample_points_are_as_expected() {
    let g = jubjub::ExtendedPoint::generator();
    assert!(!bool::from(g.is_small_order()));
    assert!(bool::from(jubjub::ExtendedPoint::identity().is_small_order()));
}

#[test]
fn read_zkproof_takes_192_bytes() {
    let mut input = vec![5u8; 200];
    input[0] = 9;
    let (proof, n) = read_zkproof(&input).unwrap();
    assert_eq!(n, 192);
    assert_eq!(proof[0], 9);
    assert_eq!(&proof[1..], &input[1..192]);
}

#[test]
fn read_zkproof_short_input_is_eof() {
    let input = vec![5u8; 191];
    assert_eq!(read_zkproof(&input), Err(ReadError::UnexpectedEof));
}

#[test]
fn read_base_accepts_canonical_field_element() {
    let mut input = scalar_bytes(12345).to_vec();
    input.extend_from_slice(&[1, 2, 3]);
    let (f, n) = read_base(&input, "anchor").unwrap();
    assert_eq!(n, 32);
    assert_eq!(f.to_repr(), scalar_bytes(12345));
    assert_eq!(f.scalar().to_scalar(), bls12_381::Scalar::from(12345u64));
}

#[test]
fn read_base_refuses_value_above_modulus_naming_field() {
    let input = [0xffu8; 32];
    assert_eq!(
        read_base(&input, "anchor"),
        Err(ReadError::NotInField("anchor".to_string()))
    );
    assert_eq!(
        read_base(&input, "rt"),
        Err(ReadError::NotInField("rt".to_string()))
    );
}

#[test]
fn read_base_short_input_is_eof() {
    assert_eq!(read_base(&[0u8; 31], "anchor"), Err(ReadError::UnexpectedEof));
}

#[test]
fn spend_v4_reads_from_its_bytes() {
    let spend = sample_spend(3);
    let mut input = spend_bytes(&spend);
    input.extend_from_slice(&[0xaa, 0xbb]);
    let (read, n) = temporary_zcashd_read_spend_v4(&input).unwrap();
    assert_eq!(n, 384);
    assert_eq!(read, spend);
}

#[test]
fn spend_v4_small_order_cv_is_refused() {
    let mut bytes = spend_bytes(&sample_spend(3));
    bytes[0..32].copy_from_slice(&identity_bytes());
    assert_eq!(
        temporary_zcashd_read_spend_v4(&bytes),
        Err(ReadError::InvalidValueCommitment)
    );
}

#[test]
fn spend_v4_non_point_cv_is_refused() {
    let mut bytes = spend_bytes(&sample_spend(3));
    bytes[0..32].copy_from_slice(&[0xff; 32]);
    assert_eq!(
        temporary_zcashd_read_spend_v4(&bytes),
        Err(ReadError::InvalidValueCommitment)
    );
}

#[test]
fn spend_v4_non_canonical_anchor_is_refused() {
    let mut bytes = spend_bytes(&sample_spend(3));
    bytes[32..64].copy_from_slice(&[0xff; 32]);
    assert_eq!(
        temporary_zcashd_read_spend_v4(&bytes),
        Err(ReadError::NotInField("anchor".to_string()))
    );
}

#[test]
fn spend_v4_invalid_rk_is_refused() {
    let mut bytes = spend_bytes(&sample_spend(3));
    bytes[96..128].copy_from_slice(&[0xff; 32]);
    assert_eq!(
        temporary_zcashd_read_spend_v4(&bytes),
        Err(ReadError::InvalidPublicKey)
    );
}

#[test]
fn spend_v4_small_order_rk_is_accepted() {
    let mut bytes = spend_bytes(&sample_spend(3));
    bytes[96..128].copy_from_slice(&identity_bytes());
    let (read, n) = temporary_zcashd_read_spend_v4(&bytes).unwrap();
    assert_eq!(n, 384);
    assert_eq!(read.rk.to_bytes(), identity_bytes());
}

#[test]
fn spend_v4_truncated_is_eof() {
    let spend = sample_spend(3);
    let bytes = spend_bytes(&spend);
    assert_eq!(
        temporary_zcashd_read_spend_v4(&bytes[..383]),
        Err(ReadError::UnexpectedEof)
    );
    assert_eq!(temporary_zcashd_read_spend_v4(&[]), Err(ReadError::UnexpectedEof));
}

#[test]
fn spend_v4_checks_fields_in_order() {
    let mut bytes = spend_bytes(&sample_spend(3));
    bytes[0..64].copy_from_slice(&[0xff; 64]);
    assert_eq!(
        temporary_zcashd_read_spend_v4(&bytes),
        Err(ReadError::InvalidValueCommitment)
    );
}

#[test]
fn output_v4_round_trip() {
    let output = sample_output(40);
    let mut out = vec![1, 2, 3];
    temporary_zcashd_write_output_v4(&mut out, &output);
    assert_eq!(out.len(), 3 + 948);
    assert_eq!(&out[..3], &[1, 2, 3]);
    assert_eq!(&out[3..35], &output.cv.to_bytes());
    assert_eq!(&out[35..67], &output.cmu.to_bytes());
    assert_eq!(&out[67..99], &output.ephemeral_key);
    assert_eq!(&out[99..679], &output.enc_ciphertext[..]);
    assert_eq!(&out[679..759], &output.out_ciphertext[..]);
    assert_eq!(&out[759..], &output.zkproof[..]);
    let (read, n) = temporary_zcashd_read_output_v4(&out[3..]).unwrap();
    assert_eq!(n, 948);
    assert_eq!(read, output);
}

#[test]
fn output_v4_read_then_write_gives_same_bytes() {
    let mut bytes = Vec::new();
    write_output_v4(&mut bytes, &sample_output(9));
    let (read, _) = temporary_zcashd_read_output_v4(&bytes).unwrap();
    let mut again = Vec::new();
    write_output_v4(&mut again, &read);
    assert_eq!(again, bytes);
}

#[test]
fn output_v4_non_canonical_cmu_is_refused() {
    let mut bytes = Vec::new();
    write_output_v4(&mut bytes, &sample_output(1));
    bytes[32..64].copy_from_slice(&[0xff; 32]);
    assert_eq!(
        temporary_zcashd_read_output_v4(&bytes),
        Err(ReadError::CmuNotInField)
    );
}

#[test]
fn output_v4_small_order_cv_is_refused() {
    let mut bytes = Vec::new();
    write_output_v4(&mut bytes, &sample_output(1));
    bytes[0..32].copy_from_slice(&identity_bytes());
    assert_eq!(
        temporary_zcashd_read_output_v4(&bytes),
        Err(ReadError::InvalidValueCommitment)
    );
}

#[test]
fn output_v4_truncated_is_eof() {
    let mut bytes = Vec::new();
    write_output_v4(&mut bytes, &sample_output(1));
    assert_eq!(
        temporary_zcashd_read_output_v4(&bytes[..947]),
        Err(ReadError::UnexpectedEof)
    );
}

fn modulus_bytes() -> [u8; 32] {
    let limbs: [u64; 4] = [
        0xffff_ffff_0000_0001,
        0x53bd_a402_fffe_5bfe,
        0x3339_d808_09a1_d805,
        0x73ed_a753_299d_7d48,
    ];
    let mut b = [0u8; 32];
    for (i, l) in limbs.iter().enumerate() {
        b[8 * i..8 * i + 8].copy_from_slice(&l.to_le_bytes());
    }
    b
}

#[test]
fn read_base_accepts_modulus_minus_one() {
    let mut b = modulus_bytes();
    b[0] = 0;
    let (f, n) = read_base(&b, "anchor").unwrap();
    assert_eq!(n, 32);
    assert_eq!(f.to_repr(), (-bls12_381::Scalar::one()).to_repr());
    assert_eq!(f.scalar().to_scalar(), -bls12_381::Scalar::one());
}

#[test]
fn read_base_refuses_modulus() {
    assert_eq!(
        read_base(&modulus_bytes(), "anchor"),
        Err(ReadError::NotInField("anchor".to_string()))
    );
}

#[test]
fn field_types_refuse_invalid_encodings() {
    assert!(ValueCommitment::from_bytes_not_small_order(&identity_bytes()).is_none());
    assert!(ValueCommitment::from_bytes_not_small_order(&[0xff; 32]).is_none());
    assert!(PublicKey::from_bytes(&[0xff; 32]).is_none());
    assert!(PublicKey::from_bytes(&identity_bytes()).is_some());
    assert!(FieldElement::from_repr(modulus_bytes()).is_none());
    assert!(ExtractedNoteCommitment::from_bytes(&modulus_bytes()).is_none());
    assert_eq!(valid_cv().to_bytes(), generator_bytes());
}

#[test]
fn read_base_zero_is_the_zero_scalar() {
    let (f, n) = read_base(&[0u8; 32], "anchor").unwrap();
    assert_eq!(n, 32);
    assert_eq!(f.scalar().to_scalar(), bls12_381::Scalar::zero());
}

#[test]
fn field_readers_keep_the_bytes_read() {
    let mut input = generator_bytes().to_vec();
    input.push(1);
    let (cv, n) = read_value_commitment(&input).unwrap();
    assert_eq!(n, 32);
    assert_eq!(cv.to_bytes(), generator_bytes());
    let sig: Vec<u8> = (0..70u8).collect();
    let (s, n) = read_spend_auth_sig(&sig).unwrap();
    assert_eq!(n, 64);
    assert_eq!(&s[..], &sig[..64]);
}
