//! Errors and events of the parachain staking pallet, and the small enums its
//! calls take.

use crate::arith::Perbill;
use crate::candidate::{CandidateBondRequest, DelegatorAdded};
use crate::delegator::DelegationRequest;
use crate::{AccountId, Balance, CurrencyId, RoundIndex};
use vstd::prelude::*;

verus! {

/// Errors of the staking pallet.
#[derive(Clone, Copy, Debug, PartialEq, Eq, Structural)]
pub enum Error {
    DelegatorDNE,
    DelegatorDNEinTopNorBottom,
    DelegatorDNEInDelegatorSet,
    CandidateDNE,
    DelegationDNE,
    DelegatorExists,
    CandidateExists,
    CandidateBondBelowMin,
    InsufficientBalance,
    DelegationBelowMin,
    AlreadyOffline,
    AlreadyActive,
    DelegatorAlreadyLeaving,
    DelegatorNotLeaving,
    DelegatorCannotLeaveYet,
    CannotDelegateIfLeaving,
    CandidateAlreadyLeaving,
    CandidateNotLeaving,
    CandidateCannotLeaveYet,
    CannotGoOnlineIfLeaving,
    ExceedMaxDelegationsPerDelegator,
    AlreadyDelegatedCandidate,
    InvalidSchedule,
    CannotSetBelowMin,
    NoWritingSameValue,
    TooLowCandidateCountWeightHintJoinCandidates,
    TooLowCandidateCountWeightHintCancelLeaveCandidates,
    TooLowCandidateCountToLeaveCandidates,
    TooLowDelegationCountToDelegate,
    TooLowCandidateDelegationCountToDelegate,
    TooLowDelegationCountToLeaveDelegators,
    PendingCandidateRequestsDNE,
    PendingCandidateRequestAlreadyExists,
    PendingCandidateRequestNotDueYet,
    PendingDelegationRequestDNE,
    PendingDelegationRequestAlreadyExists,
    PendingDelegationRequestNotDueYet,
    StakingLiquidityTokenNotListed,
    TooLowCurrentStakingLiquidityTokensCount,
    StakingLiquidityTokenAlreadyListed,
    ExceedMaxCollatorCandidates,
    ExceedMaxTotalDelegatorsPerCandidate,
    CandidateNotAggregating,
    CandidateNotAggregatingUnderAggregator,
    CandidateAlreadyApprovedByAggregator,
    AggregatorExists,
    CollatorRoundRewardsDNE,
    DelegatorRewardsDNE,
    AggregatorDNE,
    TargettedAggregatorSameAsCurrent,
    CandidateNotApprovedByAggregator,
    AggregatorLiquidityTokenTaken,
    IncorrectRewardDelegatorCount,
    MathError,
}

/// A failed call: an error of this pallet, a call by an origin that may not
/// make it, or an error reported by the runtime's token or reserve handling.
#[derive(Clone, Copy, Debug, PartialEq, Eq, Structural)]
pub enum DispatchError {
    Module(Error),
    BadOrigin,
    Other(u32),
}

/// Where the tokens to bond are taken from.
#[derive(Clone, Copy, Debug, PartialEq, Eq, Structural)]
pub enum BondKind {
    AvailableBalance,
    ActivatedUnstakedReserves,
    UnspentReserves,
}

/// Whether an aggregator approves more candidates or withdraws approvals.
#[derive(Clone, Copy, Debug, PartialEq, Eq, Structural)]
pub enum MetadataUpdateAction {
    ExtendApprovedCollators,
    RemoveApprovedCollators,
}

/// Who a payout goes to: the collator itself or one of its delegators.
#[derive(Clone, Copy, Debug, PartialEq, Eq, Structural)]
pub enum RewardKind {
    Collator,
    Delegator(AccountId),
}

/// Which reward rounds a payout covered.
#[derive(Clone, Debug, PartialEq, Eq)]
pub enum PayoutRounds {
    All,
    Partial(Vec<RoundIndex>),
}

/// A token given to `add_staking_liquidity_token`: a token paired with the
/// native token, or the liquidity token itself.
#[derive(Clone, Copy, Debug, PartialEq, Eq, Structural)]
pub enum PairedOrLiquidityToken {
    Paired(CurrencyId),
    Liquidity(CurrencyId),
}

/// Events of the staking pallet.
#[derive(Clone, Debug, PartialEq)]
pub enum Event {
    /// Starting block, round, number of collators selected, total balance.
    NewRound(u64, RoundIndex, u32, Balance),
    /// Account, amount locked, new total amount locked.
    JoinedCollatorCandidates(AccountId, Balance, Balance),
    /// Round, collator account, total exposed amount.
    CollatorChosen(RoundIndex, AccountId, Balance),
    /// Candidate, amount to increase, round at which the request can be executed.
    CandidateBondMoreRequested(AccountId, Balance, RoundIndex),
    /// Candidate, amount to decrease, round at which the request can be executed.
    CandidateBondLessRequested(AccountId, Balance, RoundIndex),
    /// Candidate, amount, new bond total.
    CandidateBondedMore(AccountId, Balance, Balance),
    /// Candidate, amount, new bond.
    CandidateBondedLess(AccountId, Balance, Balance),
    /// Round offline, candidate.
    CandidateWentOffline(RoundIndex, AccountId),
    /// Round online, candidate.
    CandidateBackOnline(RoundIndex, AccountId),
    /// Round at which exit is allowed, candidate, scheduled exit.
    CandidateScheduledExit(RoundIndex, AccountId, RoundIndex),
    /// Candidate.
    CancelledCandidateExit(AccountId),
    /// Candidate, cancelled request.
    CancelledCandidateBondChange(AccountId, CandidateBondRequest),
    /// Ex-candidate, amount unlocked, new total amount locked.
    CandidateLeft(AccountId, Balance, Balance),
    /// Delegator, candidate, amount to be increased, round at which it can be executed.
    DelegationIncreaseScheduled(AccountId, AccountId, Balance, RoundIndex),
    /// Delegator, candidate, amount to be decreased, round at which it can be executed.
    DelegationDecreaseScheduled(AccountId, AccountId, Balance, RoundIndex),
    /// Delegator, candidate, amount, whether in the top delegations after the increase.
    DelegationIncreased(AccountId, AccountId, Balance, bool),
    /// Delegator, candidate, amount, whether in the top delegations after the decrease.
    DelegationDecreased(AccountId, AccountId, Balance, bool),
    /// Round, delegator, scheduled exit.
    DelegatorExitScheduled(RoundIndex, AccountId, RoundIndex),
    /// Round, delegator, candidate, scheduled exit.
    DelegationRevocationScheduled(RoundIndex, AccountId, AccountId, RoundIndex),
    /// Delegator, amount unstaked.
    DelegatorLeft(AccountId, Balance),
    /// Delegator, candidate, amount unstaked.
    DelegationRevoked(AccountId, AccountId, Balance),
    /// Delegator.
    DelegatorExitCancelled(AccountId),
    /// Delegator, cancelled request.
    CancelledDelegationRequest(AccountId, DelegationRequest),
    /// Delegator, amount locked, candidate, position with the new total counted if in top.
    Delegation(AccountId, Balance, AccountId, DelegatorAdded),
    /// Delegator, candidate, amount unstaked, new total staked for the candidate.
    DelegatorLeftCandidate(AccountId, AccountId, Balance, Balance),
    /// Round, collator, delegator, due reward.
    DelegatorDueReward(RoundIndex, AccountId, AccountId, Balance),
    /// Round, paid account, reward.
    Rewarded(RoundIndex, AccountId, Balance),
    /// Collator, payout rounds.
    CollatorRewardsDistributed(AccountId, PayoutRounds),
    /// Old and new total selected.
    TotalSelectedSet(u32, u32),
    /// Old and new collator commission.
    CollatorCommissionSet(Perbill, Perbill),
    /// A candidate updated its aggregator.
    CandidateAggregatorUpdated(AccountId, Option<AccountId>),
    /// An aggregator's metadata has been updated.
    AggregatorMetadataUpdated(AccountId),
}

} // verus!
