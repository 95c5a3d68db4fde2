use sapling_components::amount::{read_amount, Amount, MAX_MONEY};
use sapling_components::error::ReadError;
use sapling_components::fees::{
    DelegatedFeeRule, MemoBytes, SingleOutputChangeStrategy, StandardFeeRule,
};

#[test]
fn max_money_is_21_million_coins() {
    assert_eq!(MAX_MONEY, 21_000_000 * 100_000_000);
}

#[test]
fn amount_range() {
    assert!(Amount::from_i64(MAX_MONEY).is_ok());
    assert!(Amount::from_i64(-MAX_MONEY).is_ok());
    assert_eq!(Amount::from_i64(MAX_MONEY + 1), Err(()));
    assert_eq!(Amount::from_i64(-MAX_MONEY - 1), Err(()));
    assert_eq!(Amount::zero().to_i64(), 0);
}

#[test]
fn amount_encoding_is_twos_complement_le() {
    assert_eq!(Amount::from_i64(-1).unwrap().to_i64_le_bytes(), vec![0xff; 8]);
    assert_eq!(
        Amount::from_i64(258).unwrap().to_i64_le_bytes(),
        vec![2, 1, 0, 0, 0, 0, 0, 0]
    );
    assert_eq!(
        Amount::from_i64(-MAX_MONEY).unwrap().to_i64_le_bytes(),
        (-MAX_MONEY).to_le_bytes().to_vec()
    );
}

#[test]
fn amount_round_trip() {
    for v in [0i64, 1, -1, 12345, -98765, MAX_MONEY, -MAX_MONEY] {
        let a = Amount::from_i64(v).unwrap();
        let mut bytes = a.to_i64_le_bytes();
        bytes.push(42);
        let (b, n) = read_amount(&bytes).unwrap();
        assert_eq!(n, 8);
        assert_eq!(b, a);
    }
}

#[test]
fn amount_read_errors() {
    assert_eq!(read_amount(&[0u8; 7]), Err(ReadError::UnexpectedEof));
    assert_eq!(
        read_amount(&i64::MAX.to_le_bytes()),
        Err(ReadError::ValueBalanceOutOfRange)
    );
    assert_eq!(
        read_amount(&i64::MIN.to_le_bytes()),
        Err(ReadError::ValueBalanceOutOfRange)
    );
}

#[test]
fn change_strategy_keeps_its_fee_rule() {
    let s = SingleOutputChangeStrategy::new(StandardFeeRule::Zip313, None);
    assert_eq!(*s.fee_rule(), StandardFeeRule::Zip313);
}

#[test]
fn change_strategy_delegates_by_fee_rule() {
    let memo = MemoBytes([7u8; 512]);
    let pre = SingleOutputChangeStrategy::new(StandardFeeRule::PreZip313, Some(memo));
    let d = pre.delegated_strategy();
    assert_eq!(d.fee_rule, DelegatedFeeRule::Fixed { fee: 10000 });
    assert_eq!(d.change_memo, Some(memo));

    let z313 = SingleOutputChangeStrategy::new(StandardFeeRule::Zip313, None);
    assert_eq!(z313.delegated_strategy().fee_rule, DelegatedFeeRule::Fixed { fee: 1000 });
    assert_eq!(z313.delegated_strategy().change_memo, None);

    let z317 = SingleOutputChangeStrategy::new(StandardFeeRule::Zip317, None);
    assert_eq!(z317.delegated_strategy().fee_rule, DelegatedFeeRule::Zip317Standard);
}
