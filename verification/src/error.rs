//! Errors of the Sapling readers and writers.

use vstd::prelude::*;

verus! {

/// Why a read of Sapling components failed.
#[derive(Debug, PartialEq, Eq)]
pub enum ReadError {
    /// The input ended before the item being read was complete.
    UnexpectedEof,
    /// A value commitment is not a canonical Jubjub encoding, or is of small order
    /// ("invalid cv").
    InvalidValueCommitment,
    /// A note commitment is not the canonical encoding of a field element
    /// ("cmu not in field").
    CmuNotInField,
    /// The named field is not the canonical encoding of a field element
    /// ("<field> not in field").
    NotInField(String),
    /// A randomized validating key is not a canonical Jubjub encoding
    /// ("invalid RedJubjub public key").
    InvalidPublicKey,
    /// A value balance lies outside `-MAX_MONEY..=MAX_MONEY`
    /// ("valueBalance out of range").
    ValueBalanceOutOfRange,
    /// A CompactSize length prefix uses more bytes than its value needs
    /// ("non-canonical CompactSize").
    NonCanonicalCompactSize,
    /// A CompactSize length prefix exceeds `MAX_COMPACT_SIZE` ("CompactSize too large").
    CompactSizeTooLarge,
}

/// The mathematical value of a [`ReadError`]: the field name as a sequence of characters.
pub enum ReadErrorView {
    UnexpectedEof,
    InvalidValueCommitment,
    CmuNotInField,
    NotInField(Seq<char>),
    InvalidPublicKey,
    ValueBalanceOutOfRange,
    NonCanonicalCompactSize,
    CompactSizeTooLarge,
}

impl View for ReadError {
    type V = ReadErrorView;

    open spec fn view(&self) -> ReadErrorView {
        match self {
            ReadError::UnexpectedEof => ReadErrorView::UnexpectedEof,
            ReadError::InvalidValueCommitment => ReadErrorView::InvalidValueCommitment,
            ReadError::CmuNotInField => ReadErrorView::CmuNotInField,
            ReadError::NotInField(field) => ReadErrorView::NotInField(field@),
            ReadError::InvalidPublicKey => ReadErrorView::InvalidPublicKey,
            ReadError::ValueBalanceOutOfRange => ReadErrorView::ValueBalanceOutOfRange,
            ReadError::NonCanonicalCompactSize => ReadErrorView::NonCanonicalCompactSize,
            ReadError::CompactSizeTooLarge => ReadErrorView::CompactSizeTooLarge,
        }
    }
}

/// Why a write of Sapling components failed.
#[derive(Debug, Clone, Copy, PartialEq, Eq)]
pub enum WriteError {
    /// Sapling components were given for a transaction in which Sapling is not active
    /// ("Sapling components may not be present if Sapling is not active.").
    SaplingInactive,
    /// The underlying writer reported an error (a `Vec<u8>`, which the library writes
    /// into, never does).
    Io,
}

/// The result of a reader, taken by the views of the value read and of the error.
pub open spec fn read_result_view<T: View>(r: Result<(T, usize), ReadError>) -> Result<
    (T::V, nat),
    ReadErrorView,
> {
    match r {
        Ok((v, n)) => Ok((v@, n as nat)),
        Err(e) => Err(e@),
    }
}

} // verus!
