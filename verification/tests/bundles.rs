use ff::PrimeField;
use group::{Group, GroupEncoding};
use sapling_components::amount::{Amount, MAX_MONEY};
use sapling_components::bundle::{
    read_v4_components, read_v5_bundle, temporary_zcashd_read_v4_components,
    temporary_zcashd_write_v4_components, write_v4_components, write_v5_bundle, Authorized,
    Bundle,
};
use sapling_components::curves::{ExtractedNoteCommitment, FieldElement, PublicKey, ValueCommitment};
use sapling_components::error::{ReadError, WriteError};
use sapling_components::sapling::{
    OutputDescription, SpendDescription, ENC_CIPHERTEXT_SIZE, GROTH_PROOF_SIZE,
    OUT_CIPHERTEXT_SIZE,
};

fn generator_bytes() -> [u8; 32] {
    jubjub::ExtendedPoint::generator().to_bytes()
}

fn scalar_bytes(v: u64) -> [u8; 32] {
    bls12_381::Scalar::from(v).to_repr()
}

fn valid_cv() -> ValueCommitment {
    ValueCommitment::from_bytes_not_small_order(&generator_bytes()).unwrap()
}

fn spend(seed: u8, anchor: u64) -> SpendDescription {
    SpendDescription {
        cv: valid_cv(),
        anchor: FieldElement::from_repr(scalar_bytes(anchor)).unwrap(),
        nullifier: [seed; 32],
        rk: PublicKey::from_bytes(&generator_bytes()).unwrap(),
        zkproof: [seed.wrapping_add(1); GROTH_PROOF_SIZE],
        spend_auth_sig: [seed.wrapping_add(2); 64],
    }
}

fn output(seed: u8) -> OutputDescription {
    OutputDescription {
        cv: valid_cv(),
        cmu: ExtractedNoteCommitment::from_bytes(&scalar_bytes(11)).unwrap(),
        ephemeral_key: [seed; 32],
        enc_ciphertext: [seed.wrapping_add(1); ENC_CIPHERTEXT_SIZE],
        out_ciphertext: [seed.wrapping_add(2); OUT_CIPHERTEXT_SIZE],
        zkproof: [seed.wrapping_add(3); GROTH_PROOF_SIZE],
    }
}

fn bundle(spends: Vec<SpendDescription>, outputs: Vec<OutputDescription>, vb: i64) -> Bundle {
    Bundle {
        shielded_spends: spends,
        shielded_outputs: outputs,
        value_balance: Amount::from_i64(vb).unwrap(),
        authorization: Authorized { binding_sig: [0x5a; 64] },
    }
}

#[test]
fn v4_components_round_trip() {
    let b = bundle(vec![spend(1, 7), spend(2, 8)], vec![output(3)], -1234);
    let mut out = Vec::new();
    temporary_zcashd_write_v4_components(&mut out, Some(&b), true).unwrap();
    assert_eq!(out.len(), 8 + 1 + 2 * 384 + 1 + 948);
    assert_eq!(&out[..8], &(-1234i64).to_le_bytes());
    assert_eq!(out[8], 2);
    out.extend_from_slice(&[9, 9, 9]);
    let ((vb, spends, outputs), n) = temporary_zcashd_read_v4_components(&out, true).unwrap();
    assert_eq!(n, out.len() - 3);
    assert_eq!(vb.to_i64(), -1234);
    assert_eq!(spends, b.shielded_spends);
    assert_eq!(outputs, b.shielded_outputs);
}

#[test]
fn v4_components_absent_bundle() {
    let mut out = Vec::new();
    write_v4_components(&mut out, None, true).unwrap();
    assert_eq!(out, vec![0u8; 10]);
    let ((vb, spends, outputs), n) = read_v4_components(&out, true).unwrap();
    assert_eq!(n, 10);
    assert_eq!(vb.to_i64(), 0);
    assert!(spends.is_empty());
    assert!(outputs.is_empty());
}

#[test]
fn v4_components_refused_when_sapling_inactive() {
    let b = bundle(vec![spend(1, 7)], vec![], 5);
    let mut out = vec![4u8];
    assert_eq!(
        write_v4_components(&mut out, Some(&b), false),
        Err(WriteError::SaplingInactive)
    );
    assert_eq!(out, vec![4u8]);
}

#[test]
fn v4_components_nothing_when_sapling_inactive() {
    let mut out = vec![4u8];
    assert_eq!(write_v4_components(&mut out, None, false), Ok(()));
    assert_eq!(out, vec![4u8]);
    let ((vb, spends, outputs), n) = read_v4_components(&[1, 2, 3], false).unwrap();
    assert_eq!(n, 0);
    assert_eq!(vb.to_i64(), 0);
    assert!(spends.is_empty() && outputs.is_empty());
}

#[test]
fn v4_components_value_balance_out_of_range() {
    let mut input = (MAX_MONEY + 1).to_le_bytes().to_vec();
    input.extend_from_slice(&[0, 0]);
    assert_eq!(
        read_v4_components(&input, true),
        Err(ReadError::ValueBalanceOutOfRange)
    );
    let mut input = (-MAX_MONEY - 1).to_le_bytes().to_vec();
    input.extend_from_slice(&[0, 0]);
    assert_eq!(
        read_v4_components(&input, true),
        Err(ReadError::ValueBalanceOutOfRange)
    );
}

#[test]
fn v4_components_extreme_balances_accepted() {
    for v in [MAX_MONEY, -MAX_MONEY] {
        let mut input = v.to_le_bytes().to_vec();
        input.extend_from_slice(&[0, 0]);
        let ((vb, _, _), n) = read_v4_components(&input, true).unwrap();
        assert_eq!(vb.to_i64(), v);
        assert_eq!(n, 10);
    }
}

#[test]
fn v4_components_non_canonical_count_is_refused() {
    let mut input = vec![0u8; 8];
    input.extend_from_slice(&[253, 10, 0, 0]);
    assert_eq!(
        read_v4_components(&input, true),
        Err(ReadError::NonCanonicalCompactSize)
    );
}

#[test]
fn v4_components_too_large_count_is_refused() {
    let mut input = vec![0u8; 8];
    input.extend_from_slice(&[254, 0, 0, 0, 3]);
    assert_eq!(
        read_v4_components(&input, true),
        Err(ReadError::CompactSizeTooLarge)
    );
}

#[test]
fn v4_components_truncated_count_is_eof() {
    let mut input = vec![0u8; 8];
    input.extend_from_slice(&[253, 1]);
    assert_eq!(read_v4_components(&input, true), Err(ReadError::UnexpectedEof));
    assert_eq!(read_v4_components(&[0u8; 7], true), Err(ReadError::UnexpectedEof));
}

#[test]
fn v4_components_bad_spend_is_reported() {
    let b = bundle(vec![spend(2, 7), spend(1, 7)], vec![], 0);
    let mut out = Vec::new();
    write_v4_components(&mut out, Some(&b), true).unwrap();
    let rk_of_second = 8 + 1 + 384 + 96;
    out[rk_of_second..rk_of_second + 32].copy_from_slice(&[0xff; 32]);
    assert_eq!(read_v4_components(&out, true), Err(ReadError::InvalidPublicKey));
}

#[test]
fn v4_components_count_prefix_matches_zcash_encoding() {
    let spends: Vec<SpendDescription> = (0..253u32).map(|i| spend(i as u8, 7)).collect();
    let b = bundle(spends, vec![], 0);
    let mut out = Vec::new();
    write_v4_components(&mut out, Some(&b), true).unwrap();
    let mut expected = Vec::new();
    zcash_encoding::CompactSize::write(&mut expected, 253).unwrap();
    assert_eq!(&out[8..11], &expected[..]);
    assert_eq!(&out[8..11], &[253, 253, 0]);
    let ((_, read, _), n) = read_v4_components(&out, true).unwrap();
    assert_eq!(n, out.len());
    assert_eq!(read, b.shielded_spends);
}

#[test]
fn v5_bundle_round_trip() {
    let b = bundle(vec![spend(1, 7), spend(2, 7)], vec![output(3)], 77);
    let mut out = Vec::new();
    write_v5_bundle(&mut out, Some(&b)).unwrap();
    let expected_len = 1 + 2 * 96 + 1 + 756 + 8 + 32 + 2 * 192 + 2 * 64 + 192 + 64;
    assert_eq!(out.len(), expected_len);
    assert_eq!(out[0], 2);
    out.push(0xee);
    let (read, n) = read_v5_bundle(&out).unwrap();
    assert_eq!(n, expected_len);
    assert_eq!(read, Some(b));
}

#[test]
fn v5_bundle_outputs_only() {
    let b = bundle(vec![], vec![output(3), output(4)], -5);
    let mut out = Vec::new();
    write_v5_bundle(&mut out, Some(&b)).unwrap();
    assert_eq!(out.len(), 1 + 1 + 2 * 756 + 8 + 2 * 192 + 64);
    let (read, n) = read_v5_bundle(&out).unwrap();
    assert_eq!(n, out.len());
    assert_eq!(read, Some(b));
}

#[test]
fn v5_bundle_absent() {
    let mut out = Vec::new();
    write_v5_bundle(&mut out, None).unwrap();
    assert_eq!(out, vec![0, 0]);
    assert_eq!(read_v5_bundle(&[0, 0, 7]).unwrap(), (None, 2));
}

#[test]
fn v5_empty_bundle_reads_as_absent() {
    let b = bundle(vec![], vec![], 3);
    let mut out = Vec::new();
    write_v5_bundle(&mut out, Some(&b)).unwrap();
    assert_eq!(out, vec![0, 0]);
    assert_eq!(read_v5_bundle(&out).unwrap(), (None, 2));
}

#[test]
fn v5_bundle_single_anchor_is_shared() {
    let b = bundle(vec![spend(1, 7), spend(2, 9)], vec![], 0);
    let mut out = Vec::new();
    write_v5_bundle(&mut out, Some(&b)).unwrap();
    let (read, _) = read_v5_bundle(&out).unwrap();
    let read = read.unwrap();
    assert_eq!(read.shielded_spends[0].anchor.to_repr(), scalar_bytes(7));
    assert_eq!(read.shielded_spends[1].anchor.to_repr(), scalar_bytes(7));
}

#[test]
fn v5_bundle_read_then_write_gives_same_bytes() {
    let b = bundle(vec![spend(5, 3)], vec![output(6)], 1);
    let mut bytes = Vec::new();
    write_v5_bundle(&mut bytes, Some(&b)).unwrap();
    let (read, _) = read_v5_bundle(&bytes).unwrap();
    let mut again = Vec::new();
    write_v5_bundle(&mut again, read.as_ref()).unwrap();
    assert_eq!(again, bytes);
}

#[test]
fn v5_bundle_bad_anchor_is_refused() {
    let b = bundle(vec![spend(1, 7)], vec![], 0);
    let mut out = Vec::new();
    write_v5_bundle(&mut out, Some(&b)).unwrap();
    let anchor_at = 1 + 96 + 1 + 8;
    out[anchor_at..anchor_at + 32].copy_from_slice(&[0xff; 32]);
    assert_eq!(
        read_v5_bundle(&out),
        Err(ReadError::NotInField("anchor".to_string()))
    );
}

#[test]
fn v5_bundle_truncated_is_eof() {
    let b = bundle(vec![spend(1, 7)], vec![output(2)], 0);
    let mut out = Vec::new();
    write_v5_bundle(&mut out, Some(&b)).unwrap();
    out.pop();
    assert_eq!(read_v5_bundle(&out), Err(ReadError::UnexpectedEof));
    assert_eq!(read_v5_bundle(&[]), Err(ReadError::UnexpectedEof));
}

#[test]
fn compact_size_limit_agrees_with_zcash_encoding() {
    assert_eq!(
        sapling_components::encoding::MAX_COMPACT_SIZE,
        u64::from(zcash_encoding::MAX_COMPACT_SIZE)
    );
}

#[test]
fn v5_bundle_layout_of_one_spend() {
    let s = spend(4, 7);
    let b = bundle(vec![s], vec![], -2);
    let mut out = Vec::new();
    write_v5_bundle(&mut out, Some(&b)).unwrap();
    let mut expected = vec![1u8];
    expected.extend_from_slice(&s.cv.to_bytes());
    expected.extend_from_slice(&s.nullifier);
    expected.extend_from_slice(&s.rk.to_bytes());
    expected.push(0);
    expected.extend_from_slice(&(-2i64).to_le_bytes());
    expected.extend_from_slice(&s.anchor.to_repr());
    expected.extend_from_slice(&s.zkproof);
    expected.extend_from_slice(&s.spend_auth_sig);
    expected.extend_from_slice(&[0x5a; 64]);
    assert_eq!(out, expected);
}

#[test]
fn v4_components_layout_of_one_output() {
    let o = output(8);
    let b = bundle(vec![], vec![o], 3);
    let mut out = Vec::new();
    write_v4_components(&mut out, Some(&b), true).unwrap();
    let mut expected = 3i64.to_le_bytes().to_vec();
    expected.push(0);
    expected.push(1);
    sapling_components::sapling::write_output_v4(&mut expected, &o);
    assert_eq!(out, expected);
}

#[test]
fn v4_components_eight_byte_count_is_refused() {
    let mut input = vec![0u8; 8];
    input.extend_from_slice(&[255, 0, 0, 0, 0, 1, 0, 0, 0]);
    assert_eq!(
        read_v4_components(&input, true),
        Err(ReadError::CompactSizeTooLarge)
    );
    let mut input = vec![0u8; 8];
    input.extend_from_slice(&[255, 5, 0, 0, 0, 0, 0, 0, 0]);
    assert_eq!(
        read_v4_components(&input, true),
        Err(ReadError::NonCanonicalCompactSize)
    );
}
