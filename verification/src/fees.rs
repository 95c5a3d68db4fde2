//! A change strategy for the standard fee rules: it proposes change as a single output
//! and hands fee calculation to the strategy of the fee rule it was made with.

use vstd::prelude::*;

verus! {

/// The fee rules in standard use.
#[derive(Debug, Clone, Copy, PartialEq, Eq, Structural)]
pub enum StandardFeeRule {
    /// The fixed fee of 10000 zatoshis used before ZIP 313.
    PreZip313,
    /// The fixed fee of 1000 zatoshis of ZIP 313.
    Zip313,
    /// The action-based fee of ZIP 317 with its standard parameters.
    Zip317,
}

/// The bytes of a memo field.
#[derive(Debug, Clone, Copy, PartialEq, Eq)]
pub struct MemoBytes(pub [u8; 512]);

/// The fee rule that a [`SingleOutputChangeStrategy`] hands fee calculation to.
#[derive(Debug, Clone, Copy, PartialEq, Eq, Structural)]
pub enum DelegatedFeeRule {
    /// A fixed fee of `fee` zatoshis.
    Fixed { fee: u64 },
    /// The ZIP 317 fee rule with its standard parameters.
    Zip317Standard,
}

/// The strategy that a [`SingleOutputChangeStrategy`] hands the balance computation to:
/// a single-output change strategy for the delegated fee rule, with the same change memo.
#[derive(Debug, Clone, Copy, PartialEq, Eq)]
pub struct DelegatedStrategy {
    pub fee_rule: DelegatedFeeRule,
    pub change_memo: Option<MemoBytes>,
}

/// The fee rule that each standard fee rule is computed with: fixed fees of 10000 and
/// 1000 zatoshis before ZIP 313 and under it, the standard ZIP 317 rule under ZIP 317.
pub open spec fn delegated_fee_rule(rule: StandardFeeRule) -> DelegatedFeeRule {
    match rule {
        StandardFeeRule::PreZip313 => DelegatedFeeRule::Fixed { fee: 10000 },
        StandardFeeRule::Zip313 => DelegatedFeeRule::Fixed { fee: 1000 },
        StandardFeeRule::Zip317 => DelegatedFeeRule::Zip317Standard,
    }
}

/// A change strategy that proposes change as a single output to the most current
/// supported shielded pool and delegates fee calculation to the provided fee rule.
pub struct SingleOutputChangeStrategy {
    fee_rule: StandardFeeRule,
    change_memo: Option<MemoBytes>,
}

impl SingleOutputChangeStrategy {
    /// The fee rule this strategy was made with.
    pub closed spec fn spec_fee_rule(&self) -> StandardFeeRule {
        self.fee_rule
    }

    /// The memo this strategy attaches to change.
    pub closed spec fn spec_change_memo(&self) -> Option<MemoBytes> {
        self.change_memo
    }

    /// Constructs a new [`SingleOutputChangeStrategy`] with the specified fee rule and
    /// change memo.
    pub fn new(fee_rule: StandardFeeRule, change_memo: Option<MemoBytes>) -> (r: Self)
        ensures
            r.spec_fee_rule() == fee_rule,
            r.spec_change_memo() == change_memo,
    {
        Self { fee_rule, change_memo }
    }

    /// The fee rule this strategy was made with.
    pub fn fee_rule(&self) -> (r: &StandardFeeRule)
        ensures
            *r == self.spec_fee_rule(),
    {
        &self.fee_rule
    }

    /// The strategy that the balance is computed with: a single-output change strategy
    /// for the fee rule that this strategy's rule stands for, carrying the same memo.
    pub fn delegated_strategy(&self) -> (r: DelegatedStrategy)
        ensures
            r.fee_rule == delegated_fee_rule(self.spec_fee_rule()),
            r.change_memo == self.spec_change_memo(),
    {
        let fee_rule = match self.fee_rule() {
            StandardFeeRule::PreZip313 => DelegatedFeeRule::Fixed { fee: 10000 },
            StandardFeeRule::Zip313 => DelegatedFeeRule::Fixed { fee: 1000 },
            StandardFeeRule::Zip317 => DelegatedFeeRule::Zip317Standard,
        };
        DelegatedStrategy { fee_rule, change_memo: self.change_memo }
    }
}

/// Law: before ZIP 313 the fee is fixed at 10000 zatoshis, under ZIP 313 at 1000
/// zatoshis, and under ZIP 317 the standard ZIP 317 rule applies.
pub proof fn lemma_delegated_fee_rules()
    ensures
        delegated_fee_rule(StandardFeeRule::PreZip313) == (DelegatedFeeRule::Fixed { fee: 10000 }),
        delegated_fee_rule(StandardFeeRule::Zip313) == (DelegatedFeeRule::Fixed { fee: 1000 }),
        delegated_fee_rule(StandardFeeRule::Zip317) == DelegatedFeeRule::Zip317Standard,
{
}

} // verus!
