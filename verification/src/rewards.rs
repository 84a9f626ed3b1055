//! The single-asset reward pool: accrual over time and pro-rata settlement.

use vstd::prelude::*;
use crate::delegation::Delegation;
use crate::error::ErrorCode;
use crate::identity::AccountId;

verus! {

/// Shares of a pool are worked out in millionths.
pub const SCALE: u64 = 1_000_000;

/// The seconds of a year of 365 days.
pub const SECONDS_PER_YEAR: u64 = 31_536_000;

/// The part of a pool that `amount` out of `total_shares` stands for, in
/// millionths, rounded down.
pub open spec fn share_of(amount: nat, total_shares: nat) -> nat {
    amount * SCALE as nat / total_shares
}

/// What a stake of `amount` out of `total_shares` earns of `accrued`
/// rewards: its share of them, rounded down.
pub open spec fn reward_for(accrued: nat, amount: nat, total_shares: nat) -> nat {
    accrued * share_of(amount, total_shares) / SCALE as nat
}

/// The per-second rate that pays `target_apy` percent a year on
/// `total_delegated`, rounded down.
pub open spec fn rate_for(total_delegated: nat, target_apy: nat) -> nat {
    total_delegated * target_apy / 3_153_600_000
}

/// Computes [`reward_for`], or `None` if the reward does not fit 64 bits.
///
/// Only the reward itself has to fit.  The products on the way to it,
/// `amount * SCALE` and `accrued * share`, are taken at full width, so that
/// scaling by a million refuses no reward that can be paid.
pub fn compute_reward(accrued: u64, amount: u64, total_shares: u64) -> (r: Option<u64>)
    requires
        total_shares > 0,
    ensures
        r == if reward_for(accrued as nat, amount as nat, total_shares as nat) <= u64::MAX {
            Some(reward_for(accrued as nat, amount as nat, total_shares as nat) as u64)
        } else {
            None
        },
{
    let scaled: u128 = amount as u128 * SCALE as u128;
    let share: u128 = scaled / total_shares as u128;
    assert(share == share_of(amount as nat, total_shares as nat));
    match (accrued as u128).checked_mul(share) {
        Some(product) => {
            let reward: u128 = product / SCALE as u128;
            if reward > u64::MAX as u128 {
                None
            } else {
                Some(reward as u64)
            }
        },
        None => None,
    }
}

/// A pool that pays one asset.  `total_rewards` counts everything accrued
/// since the pool began; `last_update` is the time up to which it is counted.
#[derive(Clone, Copy, Debug, PartialEq, Eq)]
pub struct RewardPool {
    /// Who may set the rate.
    pub admin: AccountId,
    /// The amounts of the delegations staked in the pool, revoked ones left
    /// out, added up.  No operation here changes it; whoever does brings the
    /// pool up to date first, so that the interval just past is shared out
    /// by the shares it was earned with.
    pub total_shares: u64,
    pub total_rewards: u64,
    pub last_update: i64,
    /// Rewards per second.
    pub reward_rate: u64,
}

impl RewardPool {
    /// The pool with rewards accrued up to `now`, or the reason it cannot be
    /// brought up to date.
    pub open spec fn accrued(self, now: int) -> Result<RewardPool, ErrorCode> {
        let total = self.total_rewards + (now - self.last_update) * self.reward_rate;
        if now < self.last_update {
            Err(ErrorCode::ClockRegression)
        } else if total > u64::MAX {
            Err(ErrorCode::Overflow)
        } else {
            Ok(RewardPool { total_rewards: total as u64, last_update: now as i64, ..self })
        }
    }

    /// The pool after `caller` sets the rate for `target_apy` percent a year
    /// on `total_delegated`, or the reason for refusing.
    pub open spec fn with_rate_for(
        self,
        caller: AccountId,
        total_delegated: u64,
        target_apy: u64,
    ) -> Result<RewardPool, ErrorCode> {
        if caller != self.admin {
            Err(ErrorCode::Unauthorized)
        } else if total_delegated * target_apy > u64::MAX {
            Err(ErrorCode::Overflow)
        } else {
            Ok(
                RewardPool {
                    reward_rate: rate_for(total_delegated as nat, target_apy as nat) as u64,
                    ..self
                },
            )
        }
    }

    /// Sets the rate so that `total_delegated` earns `target_apy` percent a
    /// year: `total_delegated * target_apy / (SECONDS_PER_YEAR * 100)` per
    /// second, rounded down.  Only the rate changes: what has accrued so far
    /// stays, and the new rate counts from the next accrual on.
    ///
    /// Refused with `Unauthorized` unless `caller` is the pool's
    /// administrator, else with `Overflow` if the product
    /// `total_delegated * target_apy` does not fit 64 bits.
    pub fn adjust_reward_rate(
        &mut self,
        caller: &AccountId,
        total_delegated: u64,
        target_apy: u64,
    ) -> (r: Result<(), ErrorCode>)
        ensures
            match old(self).with_rate_for(*caller, total_delegated, target_apy) {
                Ok(pool) => r is Ok && *final(self) == pool,
                Err(e) => r == Err::<(), ErrorCode>(e) && *final(self) == *old(self),
            },
    {
        if *caller != self.admin {
            return Err(ErrorCode::Unauthorized);
        }
        let yearly: u64 = match total_delegated.checked_mul(target_apy) {
            Some(yearly) => yearly,
            None => {
                return Err(ErrorCode::Overflow);
            },
        };
        self.reward_rate = yearly / (SECONDS_PER_YEAR * 100);
        Ok(())
    }

    /// Brings the pool up to `now`: adds `reward_rate` for every second since
    /// `last_update` to `total_rewards`, and moves `last_update` to `now`.
    ///
    /// Refused with `ClockRegression` if `now` lies before `last_update`,
    /// else with `Overflow` if the total does not fit 64 bits.
    pub fn update_rewards(&mut self, now: i64) -> (r: Result<(), ErrorCode>)
        ensures
            match old(self).accrued(now as int) {
                Ok(pool) => r is Ok && *final(self) == pool,
                Err(e) => r == Err::<(), ErrorCode>(e) && *final(self) == *old(self),
            },
            final(self).last_update >= old(self).last_update,
            final(self).total_rewards >= old(self).total_rewards,
    {
        if now < self.last_update {
            return Err(ErrorCode::ClockRegression);
        }
        let elapsed: u128 = (now as i128 - self.last_update as i128) as u128;
        let rate: u128 = self.reward_rate as u128;
        assert(0 <= elapsed * rate <= 0xffff_ffff_ffff_ffff * 0xffff_ffff_ffff_ffff)
            by (nonlinear_arith)
            requires
                elapsed <= 0xffff_ffff_ffff_ffff,
                rate <= 0xffff_ffff_ffff_ffff,
        ;
        let total: u128 = self.total_rewards as u128 + elapsed * rate;
        if total > u64::MAX as u128 {
            return Err(ErrorCode::Overflow);
        }
        self.total_rewards = total as u64;
        self.last_update = now;
        Ok(())
    }
}

/// What a delegation has earned and not yet been paid, and the pool total
/// up to which its earnings are counted.
#[derive(Clone, Copy, Debug, PartialEq, Eq, Structural)]
pub struct ClaimRecord {
    pub pending_rewards: u64,
    pub checkpoint: u64,
}

/// A delegation staked in a pool, with its claim record and the clock.
#[derive(Clone, Copy, Debug, PartialEq, Eq)]
pub struct StakeDelegation {
    pub pool: RewardPool,
    pub delegation: Delegation,
    pub claim: ClaimRecord,
    pub clock: i64,
}

impl StakeDelegation {
    /// The amount that earns rewards: nothing once the delegation is revoked.
    pub open spec fn stake(self) -> nat {
        staked_amount(self.delegation)
    }

    /// The state after the pool is brought up to the clock and the
    /// delegation's share of what accrued since its checkpoint is added to
    /// its pending rewards, or the reason for refusing.
    pub open spec fn settled(self) -> Result<StakeDelegation, ErrorCode> {
        match self.pool.accrued(self.clock as int) {
            Err(e) => Err(e),
            Ok(pool) => {
                let reward = reward_for(
                    (pool.total_rewards - self.claim.checkpoint) as nat,
                    self.stake(),
                    pool.total_shares as nat,
                );
                if pool.total_shares == 0 {
                    Err(ErrorCode::ZeroShares)
                } else if self.claim.checkpoint > pool.total_rewards {
                    Err(ErrorCode::Overflow)
                } else if self.claim.pending_rewards + reward > u64::MAX {
                    Err(ErrorCode::Overflow)
                } else {
                    Ok(
                        StakeDelegation {
                            pool,
                            claim: ClaimRecord {
                                pending_rewards: (self.claim.pending_rewards + reward) as u64,
                                checkpoint: pool.total_rewards,
                            },
                            ..self
                        },
                    )
                }
            },
        }
    }

    /// The state after a claim, with the amount paid out, or the reason for
    /// refusing.
    pub open spec fn claimed(self) -> Result<(StakeDelegation, u64), ErrorCode> {
        match self.settled() {
            Err(e) => Err(e),
            Ok(s) => Ok(
                (
                    StakeDelegation {
                        claim: ClaimRecord { pending_rewards: 0, ..s.claim },
                        ..s
                    },
                    s.claim.pending_rewards,
                ),
            ),
        }
    }

    /// Brings the pool up to the clock and credits the delegation with its
    /// share of the rewards accrued since its checkpoint:
    /// `accrued * (amount * SCALE / total_shares) / SCALE`.  The checkpoint
    /// moves to the pool's new total, so no interval is credited twice.  A
    /// revoked delegation is credited nothing.
    ///
    /// Refused with `ClockRegression` or `Overflow` as the pool's accrual
    /// refuses, else with `ZeroShares` if the pool has no shares, else with
    /// `Overflow` if the checkpoint lies beyond the pool's total or the
    /// pending rewards would not fit 64 bits.
    pub fn update_rewards(&mut self) -> (r: Result<(), ErrorCode>)
        ensures
            match old(self).settled() {
                Ok(s) => r is Ok && *final(self) == s,
                Err(e) => r == Err::<(), ErrorCode>(e) && *final(self) == *old(self),
            },
    {
        let mut pool: RewardPool = self.pool;
        pool.update_rewards(self.clock)?;
        if pool.total_shares == 0 {
            return Err(ErrorCode::ZeroShares);
        }
        if self.claim.checkpoint > pool.total_rewards {
            return Err(ErrorCode::Overflow);
        }
        let accrued: u64 = pool.total_rewards - self.claim.checkpoint;
        let amount: u64 = if self.delegation.revoked {
            0
        } else {
            self.delegation.amount
        };
        let reward: u64 = match compute_reward(accrued, amount, pool.total_shares) {
            Some(reward) => reward,
            None => {
                return Err(ErrorCode::Overflow);
            },
        };
        let pending: u64 = match self.claim.pending_rewards.checked_add(reward) {
            Some(pending) => pending,
            None => {
                return Err(ErrorCode::Overflow);
            },
        };
        self.pool = pool;
        self.claim = ClaimRecord { pending_rewards: pending, checkpoint: pool.total_rewards };
        Ok(())
    }

    /// Settles as [`StakeDelegation::update_rewards`] does, then pays out:
    /// returns the pending rewards for transfer to the delegator and sets them
    /// to zero.  Refused as the settlement refuses.
    pub fn claim(&mut self) -> (r: Result<u64, ErrorCode>)
        ensures
            match old(self).claimed() {
                Ok((s, paid)) => r == Ok::<u64, ErrorCode>(paid) && *final(self) == s,
                Err(e) => r == Err::<u64, ErrorCode>(e) && *final(self) == *old(self),
            },
    {
        self.update_rewards()?;
        let paid: u64 = self.claim.pending_rewards;
        self.claim.pending_rewards = 0;
        Ok(paid)
    }
}

/// Bringing a pool up to the same time twice adds nothing the second time.
pub proof fn lemma_update_rewards_idempotent(pool: RewardPool, now: i64)
    ensures
        match pool.accrued(now as int) {
            Ok(updated) => updated.accrued(now as int) == Ok::<RewardPool, ErrorCode>(updated),
            Err(_) => true,
        },
{
    if let Ok(updated) = pool.accrued(now as int) {
        assert((now - updated.last_update) * updated.reward_rate == 0) by (nonlinear_arith)
            requires
                now - updated.last_update == 0,
        ;
    }
}

/// The sum of `amounts`.
pub open spec fn sum_of(amounts: Seq<nat>) -> nat
    decreases amounts.len(),
{
    if amounts.len() == 0 {
        0
    } else {
        sum_of(amounts.drop_last()) + amounts.last()
    }
}

/// What stakes of `amounts` are paid together when each claims its share of
/// the same `accrued` rewards.
pub open spec fn total_payout(amounts: Seq<nat>, total_shares: nat, accrued: nat) -> nat
    decreases amounts.len(),
{
    if amounts.len() == 0 {
        0
    } else {
        total_payout(amounts.drop_last(), total_shares, accrued) + reward_for(
            accrued,
            amounts.last(),
            total_shares,
        )
    }
}

/// One stake's reward against its exact pro-rata part `accrued * amount /
/// total_shares`: never above it, and below it by less than
/// `accrued / SCALE + 1`.  Both bounds are stated cleared of divisions.
pub proof fn lemma_reward_brackets(accrued: nat, amount: nat, total_shares: nat)
    requires
        total_shares > 0,
    ensures
        total_shares * reward_for(accrued, amount, total_shares) <= accrued * amount,
        accrued * amount * SCALE <= SCALE * total_shares * reward_for(
            accrued,
            amount,
            total_shares,
        ) + total_shares * (accrued + SCALE),
        accrued * amount * SCALE <= SCALE * total_shares * reward_for(
            accrued,
            amount,
            total_shares,
        ) + amount * (total_shares * (accrued + SCALE)),
{
    let scale: int = SCALE as int;
    let t: int = total_shares as int;
    let a: int = amount as int;
    let acc: int = accrued as int;
    let share: int = (a * scale) / t;
    let share_rest: int = (a * scale) % t;
    let reward: int = (acc * share) / scale;
    let reward_rest: int = (acc * share) % scale;
    assert(0 <= a * scale) by (nonlinear_arith)
        requires
            0 <= a,
            0 <= scale,
    ;
    vstd::arithmetic::div_mod::lemma_fundamental_div_mod(a * scale, t);
    vstd::arithmetic::div_mod::lemma_mod_pos_bound(a * scale, t);
    vstd::arithmetic::div_mod::lemma_div_pos_is_pos(a * scale, t);
    assert(0 <= acc * share) by (nonlinear_arith)
        requires
            0 <= acc,
            0 <= share,
    ;
    vstd::arithmetic::div_mod::lemma_fundamental_div_mod(acc * share, scale);
    assert(share == share_of(amount, total_shares));
    assert(reward == reward_for(accrued, amount, total_shares));
    let scaled: int = a * scale;
    let weighted: int = acc * share;
    assert(acc * scaled == acc * (t * share) + acc * share_rest) by (nonlinear_arith)
        requires
            scaled == t * share + share_rest,
    ;
    assert(t * weighted == t * (scale * reward) + t * reward_rest) by (nonlinear_arith)
        requires
            weighted == scale * reward + reward_rest,
    ;
    assert(acc * (t * share) == t * (acc * share)) by (nonlinear_arith);
    assert(acc * a * scale == acc * (a * scale)) by (nonlinear_arith);
    assert(scale * t * reward == t * (scale * reward)) by (nonlinear_arith);
    assert(acc * a * scale == scale * t * reward + t * reward_rest + acc * share_rest);
    assert(0 <= t * reward_rest <= t * scale && 0 <= acc * share_rest <= acc * t)
        by (nonlinear_arith)
        requires
            0 <= reward_rest < scale,
            0 <= share_rest < t,
            0 <= acc,
            0 < t,
    ;
    assert(t * reward <= acc * a) by (nonlinear_arith)
        requires
            acc * a * scale >= scale * t * reward,
            scale == 1_000_000,
    ;
    assert(t * (acc + scale) == t * scale + acc * t) by (nonlinear_arith);
    let slack: int = t * (acc + scale);
    assert(acc * a * scale <= scale * t * reward + a * slack) by (nonlinear_arith)
        requires
            acc * a * scale <= scale * t * reward + slack,
            0 <= slack,
            0 <= a,
            0 <= acc,
            0 <= t,
            0 <= reward,
            0 <= scale,
    ;
}

/// The bounds of [`lemma_reward_brackets`], added up over all stakes.
proof fn lemma_payout_brackets(amounts: Seq<nat>, total_shares: nat, accrued: nat)
    requires
        total_shares > 0,
    ensures
        total_shares * total_payout(amounts, total_shares, accrued) <= accrued * sum_of(amounts),
        accrued * sum_of(amounts) * SCALE <= SCALE * total_shares * total_payout(
            amounts,
            total_shares,
            accrued,
        ) + amounts.len() * (total_shares * (accrued + SCALE)),
        accrued * sum_of(amounts) * SCALE <= SCALE * total_shares * total_payout(
            amounts,
            total_shares,
            accrued,
        ) + sum_of(amounts) * (total_shares * (accrued + SCALE)),
    decreases amounts.len(),
{
    let scale: int = SCALE as int;
    let t: int = total_shares as int;
    let acc: int = accrued as int;
    if amounts.len() == 0 {
        assert(t * 0 == 0 && acc * 0 == 0 && acc * 0 * scale == 0 && scale * t * 0 == 0 && 0 * (t
            * (acc + scale)) == 0) by (nonlinear_arith);
    } else {
        let front = amounts.drop_last();
        let last: int = amounts.last() as int;
        lemma_payout_brackets(front, total_shares, accrued);
        lemma_reward_brackets(accrued, amounts.last(), total_shares);
        let paid_front: int = total_payout(front, total_shares, accrued) as int;
        let paid_last: int = reward_for(accrued, amounts.last(), total_shares) as int;
        let sum_front: int = sum_of(front) as int;
        let n: int = front.len() as int;
        let slack: int = t * (acc + scale);
        assert(t * (paid_front + paid_last) <= acc * (sum_front + last)) by (nonlinear_arith)
            requires
                t * paid_front <= acc * sum_front,
                t * paid_last <= acc * last,
        ;
        assert(acc * (sum_front + last) * scale <= scale * t * (paid_front + paid_last) + (n + 1)
            * slack) by (nonlinear_arith)
            requires
                acc * sum_front * scale <= scale * t * paid_front + n * slack,
                acc * last * scale <= scale * t * paid_last + slack,
        ;
        assert(acc * (sum_front + last) * scale <= scale * t * (paid_front + paid_last) + (
        sum_front + last) * slack) by (nonlinear_arith)
            requires
                acc * sum_front * scale <= scale * t * paid_front + sum_front * slack,
                acc * last * scale <= scale * t * paid_last + last * slack,
        ;
    }
}

/// Rewards are conserved up to rounding.  When the stakes `amounts` make up
/// all `total_shares` of a pool and each claims its share of the same
/// `accrued` rewards, together they are paid no more than `accrued`.  What
/// they fall short by, taken in millionths, is at most `accrued + SCALE` for
/// each share of the pool, and at most as much for each stake.
pub proof fn lemma_reward_conservation(amounts: Seq<nat>, total_shares: nat, accrued: nat)
    requires
        total_shares > 0,
        sum_of(amounts) == total_shares,
    ensures
        total_payout(amounts, total_shares, accrued) <= accrued,
        SCALE * (accrued - total_payout(amounts, total_shares, accrued)) <= total_shares * (
        accrued + SCALE),
        SCALE * (accrued - total_payout(amounts, total_shares, accrued)) <= amounts.len() * (
        accrued + SCALE),
{
    let scale: int = SCALE as int;
    let t: int = total_shares as int;
    let acc: int = accrued as int;
    let paid: int = total_payout(amounts, total_shares, accrued) as int;
    let n: int = amounts.len() as int;
    lemma_payout_brackets(amounts, total_shares, accrued);
    assert(paid <= acc) by (nonlinear_arith)
        requires
            t * paid <= acc * t,
            t > 0,
    ;
    assert(scale * (acc - paid) <= n * (acc + scale)) by (nonlinear_arith)
        requires
            acc * t * scale <= scale * t * paid + n * (t * (acc + scale)),
            t > 0,
    ;
    assert(scale * (acc - paid) <= t * (acc + scale)) by (nonlinear_arith)
        requires
            acc * t * scale <= scale * t * paid + t * (t * (acc + scale)),
            t > 0,
    ;
}

/// What a delegation has at stake in a pool: its amount, and nothing once
/// it is revoked.
pub open spec fn staked_amount(delegation: Delegation) -> nat {
    if delegation.revoked {
        0
    } else {
        delegation.amount as nat
    }
}

/// What each of `delegations` has at stake.
pub open spec fn staked_amounts(delegations: Seq<Delegation>) -> Seq<nat> {
    delegations.map_values(|d: Delegation| staked_amount(d))
}

/// What happens when `delegations` claim from `pool` one after the other at
/// `clock`, each starting from the claim record `record`: the pool after the
/// last claim and the sum of what was paid, or the first refusal.
pub open spec fn claimed_in_turn(
    pool: RewardPool,
    delegations: Seq<Delegation>,
    record: ClaimRecord,
    clock: i64,
) -> Result<(RewardPool, nat), ErrorCode>
    decreases delegations.len(),
{
    if delegations.len() == 0 {
        Ok((pool, 0))
    } else {
        match claimed_in_turn(pool, delegations.drop_last(), record, clock) {
            Err(e) => Err(e),
            Ok((before, paid_before)) => match (StakeDelegation {
                pool: before,
                delegation: delegations.last(),
                claim: record,
                clock,
            }).claimed() {
                Err(e) => Err(e),
                Ok((after, paid)) => Ok((after.pool, paid_before + paid as nat)),
            },
        }
    }
}

/// A stake that is part of a pool is paid no more than what accrued.
pub proof fn lemma_reward_at_most_accrued(accrued: nat, amount: nat, total_shares: nat)
    requires
        total_shares > 0,
        amount <= total_shares,
    ensures
        reward_for(accrued, amount, total_shares) <= accrued,
{
    lemma_reward_brackets(accrued, amount, total_shares);
    let reward: int = reward_for(accrued, amount, total_shares) as int;
    let t: int = total_shares as int;
    let a: int = amount as int;
    let acc: int = accrued as int;
    assert(reward <= acc) by (nonlinear_arith)
        requires
            t * reward <= acc * a,
            0 <= a <= t,
            0 < t,
            0 <= acc,
    ;
}

/// Claims made in turn at one time, from one checkpoint, all succeed, and
/// pay each stake its share of what accrued up to that time.
proof fn lemma_claims_in_turn(
    pool: RewardPool,
    delegations: Seq<Delegation>,
    clock: i64,
)
    requires
        pool.accrued(clock as int) is Ok,
        pool.total_shares > 0,
        sum_of(staked_amounts(delegations)) <= pool.total_shares,
    ensures
        claimed_in_turn(
            pool,
            delegations,
            ClaimRecord { pending_rewards: 0, checkpoint: pool.total_rewards },
            clock,
        ) == Ok::<(RewardPool, nat), ErrorCode>(
            (
                if delegations.len() == 0 {
                    pool
                } else {
                    pool.accrued(clock as int)->Ok_0
                },
                total_payout(
                    staked_amounts(delegations),
                    pool.total_shares as nat,
                    ((clock - pool.last_update) * pool.reward_rate) as nat,
                ),
            ),
        ),
    decreases delegations.len(),
{
    let record = ClaimRecord { pending_rewards: 0, checkpoint: pool.total_rewards };
    let updated = pool.accrued(clock as int)->Ok_0;
    let accrued: int = (clock - pool.last_update) * pool.reward_rate;
    assert(0 <= accrued) by (nonlinear_arith)
        requires
            accrued == (clock - pool.last_update) * pool.reward_rate,
            0 <= clock - pool.last_update,
            0 <= pool.reward_rate,
    ;
    if delegations.len() > 0 {
        let front = delegations.drop_last();
        let last = delegations.last();
        let amounts = staked_amounts(delegations);
        assert(amounts.drop_last() =~= staked_amounts(front));
        assert(amounts.last() == staked_amount(last));
        lemma_claims_in_turn(pool, front, clock);
        lemma_update_rewards_idempotent(pool, clock);
        lemma_reward_at_most_accrued(accrued as nat, staked_amount(last), pool.total_shares as nat);
        let before = if front.len() == 0 {
            pool
        } else {
            updated
        };
        assert(before.accrued(clock as int) == Ok::<RewardPool, ErrorCode>(updated));
        let stake = StakeDelegation { pool: before, delegation: last, claim: record, clock };
        assert(stake.stake() == staked_amount(last));
        assert(stake.settled() is Ok);
    }
}

/// Rewards are conserved over the claims of a period.  Take a pool whose
/// shares are the amounts of `delegations`, revoked ones left out, and let
/// none of them have claimed since the pool was last brought up to date.
/// When each then claims once at `clock`, every claim is accepted, the pool
/// ends up brought up to `clock`, and together the claims pay no more than
/// `elapsed * reward_rate`, the rewards of the period.  What they fall short
/// by, taken in millionths, is at most `accrued + SCALE` for each share of
/// the pool: nothing is paid twice, and nothing but rounding is withheld.
pub proof fn lemma_claims_conserve_rewards(
    pool: RewardPool,
    delegations: Seq<Delegation>,
    clock: i64,
)
    requires
        pool.accrued(clock as int) is Ok,
        pool.total_shares > 0,
        sum_of(staked_amounts(delegations)) == pool.total_shares,
    ensures
        claimed_in_turn(
            pool,
            delegations,
            ClaimRecord { pending_rewards: 0, checkpoint: pool.total_rewards },
            clock,
        ) matches Ok((after, paid)) && ({
            let accrued = (clock - pool.last_update) * pool.reward_rate;
            &&& after == pool.accrued(clock as int)->Ok_0
            &&& paid == total_payout(
                staked_amounts(delegations),
                pool.total_shares as nat,
                accrued as nat,
            )
            &&& 0 <= paid <= accrued
            &&& SCALE * (accrued - paid) <= pool.total_shares * (accrued + SCALE)
        }),
{
    let accrued: int = (clock - pool.last_update) * pool.reward_rate;
    assert(0 <= accrued) by (nonlinear_arith)
        requires
            accrued == (clock - pool.last_update) * pool.reward_rate,
            0 <= clock - pool.last_update,
            0 <= pool.reward_rate,
    ;
    lemma_claims_in_turn(pool, delegations, clock);
    lemma_reward_conservation(
        staked_amounts(delegations),
        pool.total_shares as nat,
        accrued as nat,
    );
    assert(delegations.len() > 0);
}

} // verus!
