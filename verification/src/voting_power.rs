//! The voting-power calculator: what a voter's holdings and the stake
//! delegated to them weigh under a proposal's policy.

use vstd::prelude::*;
use crate::delegation::{active_filter, Delegation};
use crate::error::ErrorCode;
use crate::identity::AccountId;
use crate::math::{floor_sqrt, is_floor_sqrt, isqrt, lemma_floor_sqrt_exists};

verus! {

/// A quadratic coefficient is given in millionths: `2_000_000` stands for 2.
pub const MICROS_PER_UNIT: u64 = 1_000_000;

/// A voter as the token-holding side reports them.  Read only.
#[derive(Clone, Copy, Debug, PartialEq, Eq)]
pub struct VoterAccount {
    pub identifier: AccountId,
    pub balance: u64,
    pub deposit_time: i64,
}

/// How a proposal weighs a voter's own holdings.
#[derive(Clone, Copy, Debug, PartialEq, Eq, Structural)]
pub enum VotingType {
    /// The balance itself, for voters holding at least `min_balance`.
    TokenWeighted { min_balance: u64 },
    /// The age of the deposit in seconds, once it is at least
    /// `min_lock_duration`.
    TimeLockWeighted { min_lock_duration: u64 },
    /// The square root of the balance times the coefficient, rounded down.
    /// The coefficient is `coefficient_micros / 1_000_000`.
    Quadratic { coefficient_micros: u32 },
}

/// The sum of the amounts of `delegations`.
pub open spec fn total_amount(delegations: Seq<Delegation>) -> nat
    decreases delegations.len(),
{
    if delegations.len() == 0 {
        0
    } else {
        total_amount(delegations.drop_last()) + delegations.last().amount as nat
    }
}

/// What `delegations` lend to `voter` at `at_time`: the amounts of those that
/// name the voter, are not revoked and are still locked.  The others are
/// passed over, whatever the caller meant by listing them.
pub open spec fn delegated_power(delegations: Seq<Delegation>, voter: AccountId, at_time: int) -> nat {
    total_amount(delegations.filter(active_filter(voter, at_time)))
}

/// `floor(sqrt(balance) * coefficient)` for the coefficient
/// `coefficient_micros / 1_000_000`, worked out on integers.
pub open spec fn quadratic_power(balance: nat, coefficient_micros: nat) -> nat {
    floor_sqrt(balance * (coefficient_micros * coefficient_micros) / 1_000_000_000_000)
}

impl VotingType {
    /// The weight of the voter's own holdings at `at_time`, or the reason the
    /// policy turns the voter away.
    pub open spec fn base_power(self, voter: VoterAccount, at_time: int) -> Result<nat, ErrorCode> {
        match self {
            VotingType::TokenWeighted { min_balance } => {
                if voter.balance < min_balance {
                    Err(ErrorCode::InsufficientVotingPower)
                } else {
                    Ok(voter.balance as nat)
                }
            },
            VotingType::TimeLockWeighted { min_lock_duration } => {
                let lock_duration = at_time - voter.deposit_time;
                if lock_duration < 0 {
                    Err(ErrorCode::InvalidTimestamp)
                } else if lock_duration < min_lock_duration {
                    Err(ErrorCode::InsufficientLockTime)
                } else {
                    Ok(lock_duration as nat)
                }
            },
            VotingType::Quadratic { coefficient_micros } => Ok(
                quadratic_power(voter.balance as nat, coefficient_micros as nat),
            ),
        }
    }

    /// Computes [`VotingType::base_power`].  Every base power fits 64 bits.
    pub fn compute_base_power(&self, voter: &VoterAccount, at_time: i64) -> (r: Result<
        u64,
        ErrorCode,
    >)
        ensures
            match self.base_power(*voter, at_time as int) {
                Ok(p) => r == Ok::<u64, ErrorCode>(p as u64) && p <= u64::MAX,
                Err(e) => r == Err::<u64, ErrorCode>(e),
            },
    {
        match self {
            VotingType::TokenWeighted { min_balance } => {
                if voter.balance < *min_balance {
                    Err(ErrorCode::InsufficientVotingPower)
                } else {
                    Ok(voter.balance)
                }
            },
            VotingType::TimeLockWeighted { min_lock_duration } => {
                let lock_duration: i128 = at_time as i128 - voter.deposit_time as i128;
                if lock_duration < 0 {
                    Err(ErrorCode::InvalidTimestamp)
                } else if lock_duration < *min_lock_duration as i128 {
                    Err(ErrorCode::InsufficientLockTime)
                } else {
                    Ok(lock_duration as u64)
                }
            },
            VotingType::Quadratic { coefficient_micros } => {
                let c: u128 = *coefficient_micros as u128;
                let b: u128 = voter.balance as u128;
                assert(c * c <= 0xffff_fffe_0000_0001 && b * (c * c) <= u128::MAX)
                    by (nonlinear_arith)
                    requires
                        c <= 0xffff_ffff,
                        b <= 0xffff_ffff_ffff_ffff,
                ;
                let radicand: u128 = b * (c * c) / 1_000_000_000_000;
                Ok(isqrt(radicand))
            },
        }
    }
}

/// The voter's power: base power plus delegated power, or the policy's
/// refusal, or `Overflow` if the sum does not fit 64 bits.
pub open spec fn voting_power(
    policy: VotingType,
    voter: VoterAccount,
    delegations: Seq<Delegation>,
    at_time: int,
) -> Result<u64, ErrorCode> {
    match policy.base_power(voter, at_time) {
        Err(e) => Err(e),
        Ok(base) => {
            let total = base + delegated_power(delegations, voter.identifier, at_time);
            if total > u64::MAX {
                Err(ErrorCode::Overflow)
            } else {
                Ok(total as u64)
            }
        },
    }
}

/// Appending a delegation adds its amount to the total.
pub proof fn lemma_total_amount_push(delegations: Seq<Delegation>, d: Delegation)
    ensures
        total_amount(delegations.push(d)) == total_amount(delegations) + d.amount,
{
    assert(delegations.push(d).drop_last() =~= delegations);
}

/// Taking one more delegation into account adds its amount if it is active
/// for the voter, and nothing otherwise.
pub proof fn lemma_delegated_power_push(
    delegations: Seq<Delegation>,
    d: Delegation,
    voter: AccountId,
    at_time: int,
)
    ensures
        delegated_power(delegations.push(d), voter, at_time) == delegated_power(
            delegations,
            voter,
            at_time,
        ) + if d.active_for(voter, at_time) {
            d.amount as nat
        } else {
            0
        },
{
    broadcast use Seq::lemma_filter_push;

    let pred = active_filter(voter, at_time);
    if d.active_for(voter, at_time) {
        assert(pred(d));
        lemma_total_amount_push(delegations.filter(pred), d);
    } else {
        assert(!pred(d));
    }
}

/// The first `n` delegations never lend more than all of them.
pub proof fn lemma_delegated_power_prefix(
    delegations: Seq<Delegation>,
    voter: AccountId,
    at_time: int,
    n: int,
)
    requires
        0 <= n <= delegations.len(),
    ensures
        delegated_power(delegations.take(n), voter, at_time) <= delegated_power(
            delegations,
            voter,
            at_time,
        ),
    decreases delegations.len(),
{
    if n == delegations.len() {
        assert(delegations.take(n) =~= delegations);
    } else {
        let front = delegations.drop_last();
        assert(front.take(n) =~= delegations.take(n));
        assert(front.push(delegations.last()) =~= delegations);
        lemma_delegated_power_prefix(front, voter, at_time, n);
        lemma_delegated_power_push(front, delegations.last(), voter, at_time);
    }
}

/// Delegations never lend more than the amounts they hold together.
pub proof fn lemma_delegated_power_at_most_total(
    delegations: Seq<Delegation>,
    voter: AccountId,
    at_time: int,
)
    ensures
        delegated_power(delegations, voter, at_time) <= total_amount(delegations),
    decreases delegations.len(),
{
    if delegations.len() == 0 {
        reveal(Seq::filter);
        assert(delegations.filter(active_filter(voter, at_time)) =~= delegations);
    } else {
        let front = delegations.drop_last();
        assert(front.push(delegations.last()) =~= delegations);
        lemma_delegated_power_at_most_total(front, voter, at_time);
        lemma_delegated_power_push(front, delegations.last(), voter, at_time);
    }
}

/// Handing the calculator only the delegations that are active for the voter
/// changes nothing: it passes over the others by itself.
pub proof fn lemma_prefiltering_changes_nothing(
    delegations: Seq<Delegation>,
    voter: AccountId,
    at_time: int,
)
    ensures
        delegated_power(delegations.filter(active_filter(voter, at_time)), voter, at_time)
            == delegated_power(delegations, voter, at_time),
    decreases delegations.len(),
{
    broadcast use Seq::lemma_filter_push;

    let pred = active_filter(voter, at_time);
    if delegations.len() == 0 {
        reveal(Seq::filter);
        assert(delegations.filter(pred) =~= delegations);
    } else {
        let front = delegations.drop_last();
        let last = delegations.last();
        assert(front.push(last) =~= delegations);
        lemma_prefiltering_changes_nothing(front, voter, at_time);
        if pred(last) {
            assert(delegations.filter(pred) == front.filter(pred).push(last));
            lemma_delegated_power_push(front.filter(pred), last, voter, at_time);
            lemma_delegated_power_push(front, last, voter, at_time);
        } else {
            assert(delegations.filter(pred) == front.filter(pred));
            lemma_delegated_power_push(front, last, voter, at_time);
        }
    }
}

/// Under the token-weighted policy the power of a voter who is let in is
/// never negative and never more than their balance plus the amounts of the
/// delegations active for them.  Under any policy the delegated part is the
/// sum of those amounts, and so at most the sum of all amounts listed.
pub proof fn lemma_token_weighted_power_bounded(
    min_balance: u64,
    voter: VoterAccount,
    delegations: Seq<Delegation>,
    at_time: int,
)
    ensures
        match voting_power(VotingType::TokenWeighted { min_balance }, voter, delegations, at_time) {
            Ok(power) => 0 <= power <= voter.balance + total_amount(
                delegations.filter(active_filter(voter.identifier, at_time)),
            ),
            Err(_) => true,
        },
        delegated_power(delegations, voter.identifier, at_time) == total_amount(
            delegations.filter(active_filter(voter.identifier, at_time)),
        ),
        delegated_power(delegations, voter.identifier, at_time) <= total_amount(delegations),
{
    lemma_delegated_power_at_most_total(delegations, voter.identifier, at_time);
}

/// The quadratic power `p` is the one number with
/// `p <= sqrt(balance) * coefficient < p + 1`; squared and cleared of the
/// denominator: `p² · 10¹² <= balance · micros² < (p + 1)² · 10¹²`.
pub proof fn lemma_quadratic_power_brackets(balance: nat, coefficient_micros: nat)
    ensures
        ({
            let p = quadratic_power(balance, coefficient_micros);
            let scaled = balance * (coefficient_micros * coefficient_micros);
            p * p * 1_000_000_000_000 <= scaled < (p + 1) * (p + 1) * 1_000_000_000_000
        }),
{
    let scaled = balance * (coefficient_micros * coefficient_micros);
    let radicand = scaled / 1_000_000_000_000;
    lemma_floor_sqrt_exists(radicand);
    let p = floor_sqrt(radicand);
    assert(is_floor_sqrt(p, radicand));
}

/// Computes the voting power of `voter` at `at_time` under `policy`: the base
/// power of the voter's own holdings plus the amounts of those `delegations`
/// that name the voter, are not revoked and are locked past `at_time`.
///
/// Refused as the policy demands (`InsufficientVotingPower`,
/// `InvalidTimestamp`, `InsufficientLockTime`), else with `Overflow` if the
/// total does not fit 64 bits.
pub fn compute_power(
    policy: &VotingType,
    voter: &VoterAccount,
    delegations: &[Delegation],
    at_time: i64,
) -> (r: Result<u64, ErrorCode>)
    ensures
        r == voting_power(*policy, *voter, delegations@, at_time as int),
{
    let base: u64 = policy.compute_base_power(voter, at_time)?;
    let mut total: u64 = base;
    let mut i: usize = 0;
    proof {
        reveal(Seq::filter);
        assert(delegations@.take(0).filter(active_filter(voter.identifier, at_time as int))
            =~= Seq::<Delegation>::empty());
    }
    while i < delegations.len()
        invariant
            i <= delegations@.len(),
            total == base + delegated_power(delegations@.take(i as int), voter.identifier, at_time as int),
            policy.base_power(*voter, at_time as int) == Ok::<nat, ErrorCode>(base as nat),
        decreases delegations@.len() - i,
    {
        let d: &Delegation = &delegations[i];
        proof {
            assert(delegations@.take(i + 1) =~= delegations@.take(i as int).push(*d));
            lemma_delegated_power_push(
                delegations@.take(i as int),
                *d,
                voter.identifier,
                at_time as int,
            );
            lemma_delegated_power_prefix(delegations@, voter.identifier, at_time as int, i + 1);
        }
        if d.is_active_for(&voter.identifier, at_time) {
            match total.checked_add(d.amount) {
                Some(sum) => {
                    total = sum;
                },
                None => {
                    return Err(ErrorCode::Overflow);
                },
            }
        }
        i += 1;
    }
    proof {
        assert(delegations@.take(i as int) =~= delegations@);
    }
    Ok(total)
}

} // verus!
