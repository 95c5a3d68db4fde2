//! Zatoshi amounts in the range that a value balance may take.

use crate::error::{read_result_view, ReadError, ReadErrorView};
use vstd::bytes::*;
use vstd::prelude::*;

verus! {

/// The most zatoshis there can ever be: 21 million coins of 10^8 zatoshis.
pub const MAX_MONEY: i64 = 2_100_000_000_000_000;

/// Whether `v` is an amount that a value balance may take.
pub open spec fn amount_in_range(v: int) -> bool {
    -MAX_MONEY <= v <= MAX_MONEY
}

/// The 64-bit two's complement form of `v`.
pub open spec fn twos_complement(v: int) -> u64 {
    if v >= 0 {
        v as u64
    } else {
        (v + 0x1_0000_0000_0000_0000) as u64
    }
}

/// The signed value whose two's complement form is `u`.
pub open spec fn signed_value(u: u64) -> int {
    if u < 0x8000_0000_0000_0000 {
        u as int
    } else {
        u - 0x1_0000_0000_0000_0000
    }
}

/// The encoding of an amount: its two's complement as 8 little-endian bytes.
pub open spec fn amount_encoding(v: int) -> Seq<u8> {
    spec_u64_to_le_bytes(twos_complement(v))
}

/// Reading an amount from the front of `s`: 8 little-endian bytes of a signed value,
/// which must lie in `-MAX_MONEY..=MAX_MONEY`.
pub open spec fn spec_read_amount(s: Seq<u8>) -> Result<(int, nat), ReadErrorView> {
    if s.len() < 8 {
        Err(ReadErrorView::UnexpectedEof)
    } else {
        let v = signed_value(spec_u64_from_le_bytes(s.take(8)));
        if amount_in_range(v) {
            Ok((v, 8))
        } else {
            Err(ReadErrorView::ValueBalanceOutOfRange)
        }
    }
}

/// A signed amount of zatoshis, at most [`MAX_MONEY`] in magnitude.
#[derive(Debug, Clone, Copy, PartialEq, Eq)]
pub struct Amount(i64);

impl Amount {
    /// What the type keeps as its invariant.
    #[verifier::type_invariant]
    pub open spec fn in_range(self) -> bool {
        amount_in_range(self@)
    }

    /// The zero amount.
    pub fn zero() -> (a: Amount)
        ensures
            a@ == 0,
    {
        Amount(0)
    }

    /// The amount `v`, when it lies in `-MAX_MONEY..=MAX_MONEY`.
    pub fn from_i64(v: i64) -> (r: Result<Amount, ()>)
        ensures
            r is Ok <==> amount_in_range(v as int),
            r matches Ok(a) ==> a@ == v,
    {
        if -MAX_MONEY <= v && v <= MAX_MONEY {
            Ok(Amount(v))
        } else {
            Err(())
        }
    }

    /// The number of zatoshis.
    pub fn to_i64(&self) -> (v: i64)
        ensures
            v == self@,
            amount_in_range(v as int),
    {
        proof {
            use_type_invariant(self);
        }
        self.0
    }

    /// The 8-byte little-endian two's complement encoding of this amount.
    pub fn to_i64_le_bytes(&self) -> (b: Vec<u8>)
        ensures
            b@ == amount_encoding(self@),
    {
        proof {
            use_type_invariant(self);
        }
        let v = self.0;
        let u: u64 = if v >= 0 {
            v as u64
        } else {
            let magnitude = (-v) as u64;
            (u64::MAX - magnitude) + 1
        };
        assert(u == twos_complement(v as int));
        u64_to_le_bytes(u)
    }
}

impl View for Amount {
    type V = int;

    closed spec fn view(&self) -> int {
        self.0 as int
    }
}

/// Reads a value balance: 8 little-endian bytes of a signed amount in
/// `-MAX_MONEY..=MAX_MONEY`; the amount and the number of bytes read.
pub fn read_amount(input: &[u8]) -> (r: Result<(Amount, usize), ReadError>)
    ensures
        read_result_view(r) == spec_read_amount(input@),
{
    if input.len() < 8 {
        return Err(ReadError::UnexpectedEof);
    }
    let bytes = vstd::slice::slice_subrange(input, 0, 8);
    assert(bytes@ =~= input@.take(8));
    let u = u64_from_le_bytes(bytes);
    let max = MAX_MONEY as u64;
    if u <= max {
        Ok((Amount(u as i64), 8))
    } else if u >= u64::MAX - max + 1 {
        let magnitude = (u64::MAX - u) + 1;
        let v = -(magnitude as i64);
        assert(v == signed_value(u));
        Ok((Amount(v), 8))
    } else {
        Err(ReadError::ValueBalanceOutOfRange)
    }
}

/// Law: every amount in range reads back from its encoding, whatever follows it.
pub proof fn lemma_amount_round_trip(v: int, rest: Seq<u8>)
    requires
        amount_in_range(v),
    ensures
        spec_read_amount(amount_encoding(v) + rest) == Ok::<(int, nat), ReadErrorView>((v, 8)),
        amount_encoding(v).len() == 8,
{
    lemma_auto_spec_u64_to_from_le_bytes();
    let s = amount_encoding(v) + rest;
    assert(s.take(8) =~= amount_encoding(v));
}

/// Law: an accepted amount is written back as exactly the bytes it was read from.
pub proof fn lemma_amount_canonical(s: Seq<u8>)
    ensures
        spec_read_amount(s) matches Ok((v, k)) ==> k == 8 && k <= s.len() && amount_encoding(v)
            == s.take(8) && amount_in_range(v),
{
    lemma_auto_spec_u64_to_from_le_bytes();
    if s.len() >= 8 {
        let u = spec_u64_from_le_bytes(s.take(8));
        assert(twos_complement(signed_value(u)) == u);
    }
}

/// Law: an amount in range is encoded as 8 bytes whose little-endian value is the
/// amount itself when it is not negative, and the amount plus 2^64 when it is.
pub proof fn lemma_amount_encoding_layout(v: int)
    requires
        amount_in_range(v),
    ensures
        amount_encoding(v).len() == 8,
        spec_u64_from_le_bytes(amount_encoding(v)) as int == if v >= 0 {
            v
        } else {
            v + 0x1_0000_0000_0000_0000
        },
{
    lemma_auto_spec_u64_to_from_le_bytes();
}

} // verus!
