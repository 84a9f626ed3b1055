//! The multi-asset reward pool: one accrual clock, one rate and one running
//! total per reward asset.

use vstd::prelude::*;
use crate::delegation::Delegation;
use crate::error::ErrorCode;
use crate::identity::AccountId;
use crate::rewards::{
    compute_reward, lemma_reward_at_most_accrued, lemma_reward_conservation, reward_for,
    staked_amount, staked_amounts, sum_of, total_payout, SCALE,
};

verus! {

/// One asset a pool pays rewards in: its identity, its rate per second, and
/// everything it has accrued since it was added.
#[derive(Clone, Copy, Debug, PartialEq, Eq)]
pub struct RewardAsset {
    pub mint: AccountId,
    pub rate: u64,
    pub total_rewards: u64,
}

impl RewardAsset {
    /// Whether `elapsed` more seconds of accrual fit the running total.
    pub open spec fn accrues(self, elapsed: int) -> bool {
        self.total_rewards + elapsed * self.rate <= u64::MAX
    }

    /// The asset after `elapsed` more seconds of accrual.
    pub open spec fn accrued_by(self, elapsed: int) -> RewardAsset {
        RewardAsset { total_rewards: (self.total_rewards + elapsed * self.rate) as u64, ..self }
    }
}

/// A pool that pays several assets.  Assets are only ever added, at the end,
/// so an asset keeps its position for good.
#[derive(Clone, Debug, PartialEq, Eq)]
pub struct MultiRewardPool {
    /// Who may add assets.
    pub admin: AccountId,
    pub reward_assets: Vec<RewardAsset>,
    /// The amounts of the delegations staked in the pool, revoked ones left
    /// out, added up.  No operation here changes it; whoever does brings the
    /// pool up to date first.
    pub total_shares: u64,
    pub last_update: i64,
}

/// A [`MultiRewardPool`] as contracts see it.
pub struct MultiRewardPoolView {
    pub admin: AccountId,
    pub reward_assets: Seq<RewardAsset>,
    pub total_shares: u64,
    pub last_update: i64,
}

impl View for MultiRewardPool {
    type V = MultiRewardPoolView;

    open spec fn view(&self) -> MultiRewardPoolView {
        MultiRewardPoolView {
            admin: self.admin,
            reward_assets: self.reward_assets@,
            total_shares: self.total_shares,
            last_update: self.last_update,
        }
    }
}

/// `k` is the first position in `assets` that holds `mint`.
pub open spec fn is_position_of(assets: Seq<RewardAsset>, mint: AccountId, k: int) -> bool {
    &&& 0 <= k < assets.len()
    &&& assets[k].mint == mint
    &&& forall|j: int| 0 <= j < k ==> (#[trigger] assets[j]).mint != mint
}

impl MultiRewardPoolView {
    /// Whether the pool pays rewards in `mint`.
    pub open spec fn registered(self, mint: AccountId) -> bool {
        exists|k: int| is_position_of(self.reward_assets, mint, k)
    }

    /// The position of `mint` among the pool's assets.
    pub open spec fn position_of(self, mint: AccountId) -> int {
        choose|k: int| is_position_of(self.reward_assets, mint, k)
    }

    /// The set of assets the pool pays rewards in.
    pub open spec fn asset_ids(self) -> Set<AccountId> {
        Set::new(|mint: AccountId| self.registered(mint))
    }

    /// The rate per second of each asset the pool pays rewards in.
    pub open spec fn rate_by_asset(self) -> Map<AccountId, u64> {
        Map::new(
            |mint: AccountId| self.registered(mint),
            |mint: AccountId| self.reward_assets[self.position_of(mint)].rate,
        )
    }

    /// No asset occurs twice.
    pub open spec fn distinct(self) -> bool {
        forall|i: int, j: int|
            0 <= i < j < self.reward_assets.len() ==> (#[trigger] self.reward_assets[i]).mint != (
            #[trigger] self.reward_assets[j]).mint
    }

    /// The pool with every asset's rewards accrued up to `now`, or the reason
    /// it cannot be brought up to date.
    pub open spec fn accrued(self, now: int) -> Result<MultiRewardPoolView, ErrorCode> {
        let elapsed = now - self.last_update;
        if now < self.last_update {
            Err(ErrorCode::ClockRegression)
        } else if exists|i: int|
            0 <= i < self.reward_assets.len() && !(#[trigger] self.reward_assets[i]).accrues(elapsed) {
            Err(ErrorCode::Overflow)
        } else {
            Ok(
                MultiRewardPoolView {
                    reward_assets: self.reward_assets.map_values(
                        |a: RewardAsset| a.accrued_by(elapsed),
                    ),
                    last_update: now as i64,
                    ..self
                },
            )
        }
    }

    /// The pool after `caller` adds `mint` at `initial_rate`, or the reason
    /// for refusing.
    pub open spec fn with_asset(self, caller: AccountId, mint: AccountId, initial_rate: u64) -> Result<
        MultiRewardPoolView,
        ErrorCode,
    > {
        if caller != self.admin {
            Err(ErrorCode::Unauthorized)
        } else if self.registered(mint) {
            Err(ErrorCode::AssetAlreadyAdded)
        } else {
            Ok(
                MultiRewardPoolView {
                    reward_assets: self.reward_assets.push(
                        RewardAsset { mint, rate: initial_rate, total_rewards: 0 },
                    ),
                    ..self
                },
            )
        }
    }
}

/// The checkpoint a claim record holds for the asset at position `k`: zero
/// as long as nothing was claimed in that asset.
pub open spec fn checkpoint_at(checkpoints: Seq<u64>, k: int) -> u64 {
    if 0 <= k < checkpoints.len() {
        checkpoints[k]
    } else {
        0
    }
}

/// `checkpoints`, filled up with zeros to at least `n` entries.
pub open spec fn padded(checkpoints: Seq<u64>, n: int) -> Seq<u64> {
    if checkpoints.len() >= n {
        checkpoints
    } else {
        checkpoints + Seq::new((n - checkpoints.len()) as nat, |i: int| 0u64)
    }
}

impl MultiRewardPool {
    /// Finds the position of `mint` among the pool's assets.
    pub fn find_asset(&self, mint: &AccountId) -> (r: Option<usize>)
        ensures
            match r {
                Some(k) => self@.registered(*mint) && k == self@.position_of(*mint)
                    && is_position_of(self@.reward_assets, *mint, k as int),
                None => !self@.registered(*mint),
            },
    {
        let mut i: usize = 0;
        while i < self.reward_assets.len()
            invariant
                i <= self.reward_assets@.len(),
                forall|j: int| 0 <= j < i ==> (#[trigger] self.reward_assets@[j]).mint != *mint,
            decreases self.reward_assets@.len() - i,
        {
            if self.reward_assets[i].mint == *mint {
                assert(is_position_of(self@.reward_assets, *mint, i as int));
                return Some(i);
            }
            i += 1;
        }
        None
    }

    /// Works out every asset's total at `now` without touching the pool.
    fn accrue(&self, now: i64) -> (r: Result<Vec<RewardAsset>, ErrorCode>)
        ensures
            match self@.accrued(now as int) {
                Ok(pool) => r is Ok && r->Ok_0@ == pool.reward_assets,
                Err(e) => r == Err::<Vec<RewardAsset>, ErrorCode>(e),
            },
    {
        if now < self.last_update {
            return Err(ErrorCode::ClockRegression);
        }
        let elapsed: u128 = (now as i128 - self.last_update as i128) as u128;
        let mut updated: Vec<RewardAsset> = Vec::new();
        let mut i: usize = 0;
        while i < self.reward_assets.len()
            invariant
                i <= self.reward_assets@.len(),
                elapsed == now - self.last_update,
                elapsed <= 0xffff_ffff_ffff_ffff,
                updated@.len() == i,
                forall|j: int|
                    0 <= j < i ==> (#[trigger] self.reward_assets@[j]).accrues(elapsed as int)
                        && updated@[j] == self.reward_assets@[j].accrued_by(elapsed as int),
            decreases self.reward_assets@.len() - i,
        {
            let asset: RewardAsset = self.reward_assets[i];
            let rate: u128 = asset.rate as u128;
            assert(0 <= elapsed * rate <= 0xffff_ffff_ffff_ffff * 0xffff_ffff_ffff_ffff)
                by (nonlinear_arith)
                requires
                    elapsed <= 0xffff_ffff_ffff_ffff,
                    rate <= 0xffff_ffff_ffff_ffff,
            ;
            let total: u128 = asset.total_rewards as u128 + elapsed * rate;
            if total > u64::MAX as u128 {
                assert(!self@.reward_assets[i as int].accrues(now - self.last_update));
                return Err(ErrorCode::Overflow);
            }
            updated.push(RewardAsset { total_rewards: total as u64, ..asset });
            i += 1;
        }
        assert(updated@ =~= self@.reward_assets.map_values(
            |a: RewardAsset| a.accrued_by(now - self.last_update),
        ));
        Ok(updated)
    }

    /// Brings the pool up to `now`: each asset accrues its own rate for every
    /// second since `last_update`, and `last_update` moves to `now`.
    ///
    /// Refused with `ClockRegression` if `now` lies before `last_update`,
    /// else with `Overflow` if the total of any asset does not fit 64 bits.
    pub fn update_rewards(&mut self, now: i64) -> (r: Result<(), ErrorCode>)
        ensures
            match old(self)@.accrued(now as int) {
                Ok(pool) => r is Ok && final(self)@ == pool,
                Err(e) => r == Err::<(), ErrorCode>(e) && final(self)@ == old(self)@,
            },
            final(self).last_update >= old(self).last_update,
    {
        let updated: Vec<RewardAsset> = self.accrue(now)?;
        self.reward_assets = updated;
        self.last_update = now;
        Ok(())
    }
}

/// Bringing a pool up to the same time twice adds nothing the second time.
pub proof fn lemma_multi_update_idempotent(pool: MultiRewardPoolView, now: i64)
    ensures
        match pool.accrued(now as int) {
            Ok(updated) => updated.accrued(now as int) == Ok::<MultiRewardPoolView, ErrorCode>(
                updated,
            ),
            Err(_) => true,
        },
{
    if let Ok(updated) = pool.accrued(now as int) {
        assert forall|i: int| 0 <= i < updated.reward_assets.len() implies (
        #[trigger] updated.reward_assets[i]).accrues(0) && updated.reward_assets[i].accrued_by(0)
            == updated.reward_assets[i] by {
            let a = updated.reward_assets[i];
            assert(0 * a.rate == 0) by (nonlinear_arith);
        }
        assert(updated.reward_assets.map_values(|a: RewardAsset| a.accrued_by(0))
            =~= updated.reward_assets);
    }
}

/// A request by `admin` to have `pool` pay rewards in one more asset.
#[derive(Clone, Debug, PartialEq, Eq)]
pub struct AddRewardToken {
    pub pool: MultiRewardPool,
    /// Who asks.
    pub admin: AccountId,
    pub token_mint: AccountId,
}

impl AddRewardToken {
    /// Adds `token_mint` to the pool's assets, at the end, with
    /// `initial_rate` per second and nothing accrued.  The asset joins the
    /// set of assets the pool pays, and no asset comes to occur twice.
    ///
    /// Refused with `Unauthorized` unless the one who asks is the pool's
    /// administrator, else with `AssetAlreadyAdded` if the pool pays that
    /// asset already.
    pub fn execute(&mut self, initial_rate: u64) -> (r: Result<(), ErrorCode>)
        ensures
            match old(self).pool@.with_asset(old(self).admin, old(self).token_mint, initial_rate) {
                Ok(pool) => r is Ok && final(self).pool@ == pool,
                Err(e) => r == Err::<(), ErrorCode>(e) && final(self).pool@ == old(self).pool@,
            },
            final(self).admin == old(self).admin,
            final(self).token_mint == old(self).token_mint,
            r is Ok ==> final(self).pool@.asset_ids() == old(self).pool@.asset_ids().insert(
                old(self).token_mint,
            ) && final(self).pool@.rate_by_asset() == old(self).pool@.rate_by_asset().insert(
                old(self).token_mint,
                initial_rate,
            ),
            old(self).pool@.distinct() ==> final(self).pool@.distinct(),
    {
        if self.admin != self.pool.admin {
            return Err(ErrorCode::Unauthorized);
        }
        if self.pool.find_asset(&self.token_mint).is_some() {
            return Err(ErrorCode::AssetAlreadyAdded);
        }
        proof {
            lemma_added_asset_is_registered(self.pool@, self.admin, self.token_mint, initial_rate);
        }
        self.pool.reward_assets.push(
            RewardAsset { mint: self.token_mint, rate: initial_rate, total_rewards: 0 },
        );
        Ok(())
    }
}

/// An asset that occurs at all has a first position.
pub proof fn lemma_first_position(assets: Seq<RewardAsset>, mint: AccountId, k: int)
    requires
        0 <= k < assets.len(),
        assets[k].mint == mint,
    ensures
        exists|first: int| is_position_of(assets, mint, first),
    decreases k,
{
    if exists|j: int| 0 <= j < k && (#[trigger] assets[j]).mint == mint {
        let j = choose|j: int| 0 <= j < k && (#[trigger] assets[j]).mint == mint;
        lemma_first_position(assets, mint, j);
    } else {
        assert(is_position_of(assets, mint, k));
    }
}

/// Adding an asset puts it into the set of the pool's assets and gives it its
/// rate; every other asset keeps its place and its rate.
pub proof fn lemma_added_asset_is_registered(
    pool: MultiRewardPoolView,
    caller: AccountId,
    mint: AccountId,
    initial_rate: u64,
)
    requires
        pool.with_asset(caller, mint, initial_rate) is Ok,
    ensures
        pool.with_asset(caller, mint, initial_rate)->Ok_0.asset_ids() == pool.asset_ids().insert(
            mint,
        ),
        pool.with_asset(caller, mint, initial_rate)->Ok_0.rate_by_asset()
            == pool.rate_by_asset().insert(mint, initial_rate),
        pool.distinct() ==> pool.with_asset(caller, mint, initial_rate)->Ok_0.distinct(),
{
    let after = pool.with_asset(caller, mint, initial_rate)->Ok_0;
    let before_assets = pool.reward_assets;
    let after_assets = after.reward_assets;
    let n = before_assets.len() as int;
    assert(after_assets.len() == n + 1);
    assert(after_assets[n].mint == mint);
    assert forall|j: int| 0 <= j < n implies (#[trigger] before_assets[j]).mint != mint by {
        if before_assets[j].mint == mint {
            lemma_first_position(before_assets, mint, j);
        }
    }
    assert forall|j: int| 0 <= j < n implies (#[trigger] after_assets[j]).mint != mint by {
        assert(after_assets[j] == before_assets[j]);
    }
    assert(is_position_of(after_assets, mint, n));
    assert forall|other: AccountId, k: int| other != mint implies (is_position_of(
        before_assets,
        other,
        k,
    ) <==> is_position_of(after_assets, other, k)) by {
        if is_position_of(before_assets, other, k) {
            assert(after_assets[k] == before_assets[k]);
            assert forall|j: int| 0 <= j < k implies (#[trigger] after_assets[j]).mint
                != other by {
                assert(after_assets[j] == before_assets[j]);
                assert(before_assets[j].mint != other);
            }
        }
        if is_position_of(after_assets, other, k) {
            assert(k < n);
            assert(after_assets[k] == before_assets[k]);
            assert forall|j: int| 0 <= j < k implies (#[trigger] before_assets[j]).mint
                != other by {
                assert(after_assets[j] == before_assets[j]);
                assert(after_assets[j].mint != other);
            }
        }
    }
    assert forall|other: AccountId| after.registered(other) == (other == mint || pool.registered(
        other,
    )) by {
        if other != mint {
            if pool.registered(other) {
                let k = pool.position_of(other);
                assert(is_position_of(after_assets, other, k));
            }
            if after.registered(other) {
                let k = after.position_of(other);
                assert(is_position_of(before_assets, other, k));
            }
        }
    }
    assert(after.asset_ids() =~= pool.asset_ids().insert(mint));
    assert forall|other: AccountId| after.registered(other) implies after.reward_assets[
        after.position_of(other)].rate == pool.rate_by_asset().insert(mint, initial_rate)[other] by {
        let k = after.position_of(other);
        assert(is_position_of(after_assets, other, k));
        if other == mint {
            if k < n {
                assert(after_assets[k].mint != mint);
            }
        } else {
            assert(is_position_of(before_assets, other, k));
            let k0 = pool.position_of(other);
            assert(is_position_of(before_assets, other, k0));
            if k < k0 {
                assert(before_assets[k].mint != other);
            }
            if k0 < k {
                assert(before_assets[k0].mint != other);
            }
            assert(after_assets[k] == before_assets[k]);
        }
    }
    assert(after.rate_by_asset() =~= pool.rate_by_asset().insert(mint, initial_rate));
    if pool.distinct() {
        assert forall|i: int, j: int| 0 <= i < j < after_assets.len() implies (
        #[trigger] after_assets[i]).mint != (#[trigger] after_assets[j]).mint by {
            assert(after_assets[i] == before_assets[i]);
            if j < n {
                assert(after_assets[j] == before_assets[j]);
            }
        }
    }
}

/// What a claim in `mint` at `clock` leads to for a stake of `stake` with
/// the given `checkpoints`: the pool and the checkpoints afterwards and the
/// amount paid out, or the reason for refusing.  The pool is brought up to
/// the clock first; then the asset is looked up; then the shares are looked
/// at.
pub open spec fn claim_outcome(
    pool: MultiRewardPoolView,
    stake: nat,
    checkpoints: Seq<u64>,
    clock: int,
    mint: AccountId,
) -> Result<(MultiRewardPoolView, Seq<u64>, u64), ErrorCode> {
    match pool.accrued(clock) {
        Err(e) => Err(e),
        Ok(updated) => {
            let k = updated.position_of(mint);
            let total = updated.reward_assets[k].total_rewards;
            let since = checkpoint_at(checkpoints, k);
            let reward = reward_for((total - since) as nat, stake, updated.total_shares as nat);
            if !updated.registered(mint) {
                Err(ErrorCode::InvalidRewardAsset)
            } else if updated.total_shares == 0 {
                Err(ErrorCode::ZeroShares)
            } else if since > total || reward > u64::MAX {
                Err(ErrorCode::Overflow)
            } else {
                Ok((updated, padded(checkpoints, k + 1).update(k, total), reward as u64))
            }
        },
    }
}

/// A delegation staked in a multi-asset pool, with the checkpoints of what
/// it has claimed and the clock.  `checkpoints[k]` belongs to the pool's
/// asset at position `k`; an entry that is missing counts as zero.
#[derive(Clone, Debug, PartialEq, Eq)]
pub struct ClaimMultiRewards {
    pub pool: MultiRewardPool,
    pub delegation: Delegation,
    pub checkpoints: Vec<u64>,
    pub clock: i64,
}

impl ClaimMultiRewards {
    /// The amount that earns rewards: nothing once the delegation is revoked.
    pub open spec fn stake(self) -> nat {
        staked_amount(self.delegation)
    }

    /// What a claim in `mint` leads to: the pool and the checkpoints
    /// afterwards and the amount paid out, or the reason for refusing.
    pub open spec fn claimed(self, mint: AccountId) -> Result<
        (MultiRewardPoolView, Seq<u64>, u64),
        ErrorCode,
    > {
        claim_outcome(self.pool@, self.stake(), self.checkpoints@, self.clock as int, mint)
    }

    /// Pays the delegation its share of what `token_mint` has accrued since
    /// the delegation last claimed it.  The pool is first brought up to the
    /// clock; the reward is `accrued * (amount * SCALE / total_shares) /
    /// SCALE`, returned for transfer to the delegator; the delegation's
    /// checkpoint for that asset moves to the asset's new total.  A revoked
    /// delegation is paid nothing.
    ///
    /// Refused with `ClockRegression` or `Overflow` as the pool's accrual
    /// refuses, else with `InvalidRewardAsset` if the pool does not pay
    /// `token_mint`, else with `ZeroShares` if the pool has no shares, else
    /// with `Overflow` if the checkpoint lies beyond the asset's total or the
    /// reward does not fit 64 bits.
    pub fn claim_rewards(&mut self, token_mint: AccountId) -> (r: Result<u64, ErrorCode>)
        ensures
            match old(self).claimed(token_mint) {
                Ok((pool, checkpoints, paid)) => r == Ok::<u64, ErrorCode>(paid)
                    && final(self).pool@ == pool && final(self).checkpoints@ == checkpoints,
                Err(e) => r == Err::<u64, ErrorCode>(e) && final(self).pool@ == old(self).pool@
                    && final(self).checkpoints@ == old(self).checkpoints@,
            },
            final(self).delegation == old(self).delegation,
            final(self).clock == old(self).clock,
    {
        let updated: Vec<RewardAsset> = self.pool.accrue(self.clock)?;
        proof {
            lemma_accrual_keeps_positions(self.pool@, self.clock as int, token_mint);
        }
        let k: usize = match self.pool.find_asset(&token_mint) {
            Some(k) => k,
            None => {
                return Err(ErrorCode::InvalidRewardAsset);
            },
        };
        if self.pool.total_shares == 0 {
            return Err(ErrorCode::ZeroShares);
        }
        let total: u64 = updated[k].total_rewards;
        let since: u64 = if k < self.checkpoints.len() {
            self.checkpoints[k]
        } else {
            0
        };
        if since > total {
            return Err(ErrorCode::Overflow);
        }
        let amount: u64 = if self.delegation.revoked {
            0
        } else {
            self.delegation.amount
        };
        let reward: u64 = match compute_reward(total - since, amount, self.pool.total_shares) {
            Some(reward) => reward,
            None => {
                return Err(ErrorCode::Overflow);
            },
        };
        let ghost before = self.checkpoints@;
        while self.checkpoints.len() <= k
            invariant
                self.pool == old(self).pool,
                self.delegation == old(self).delegation,
                self.clock == old(self).clock,
                self.checkpoints@.len() <= k + 1 || self.checkpoints@.len() == before.len(),
                before.len() <= self.checkpoints@.len(),
                self.checkpoints@ =~= before + Seq::new(
                    (self.checkpoints@.len() - before.len()) as nat,
                    |i: int| 0u64,
                ),
            decreases k + 1 - self.checkpoints@.len(),
        {
            self.checkpoints.push(0);
        }
        assert(self.checkpoints@ =~= padded(before, k + 1));
        self.checkpoints[k] = total;
        self.pool.reward_assets = updated;
        self.pool.last_update = self.clock;
        Ok(reward)
    }
}

/// Accrual changes totals only: an asset of the pool has the same position
/// before and after, and no asset comes or goes.
pub proof fn lemma_accrual_keeps_positions(pool: MultiRewardPoolView, now: int, mint: AccountId)
    requires
        pool.accrued(now) is Ok,
    ensures
        pool.accrued(now)->Ok_0.registered(mint) == pool.registered(mint),
        pool.registered(mint) ==> pool.accrued(now)->Ok_0.position_of(mint) == pool.position_of(
            mint,
        ),
{
    let after = pool.accrued(now)->Ok_0;
    assert forall|k: int|
        is_position_of(pool.reward_assets, mint, k) <==> is_position_of(
            after.reward_assets,
            mint,
            k,
        ) by {
        if is_position_of(pool.reward_assets, mint, k) {
            assert forall|j: int| 0 <= j < k implies (#[trigger] after.reward_assets[j]).mint
                != mint by {
                assert(pool.reward_assets[j].mint != mint);
            }
        }
        if is_position_of(after.reward_assets, mint, k) {
            assert forall|j: int| 0 <= j < k implies (#[trigger] pool.reward_assets[j]).mint
                != mint by {
                assert(after.reward_assets[j].mint != mint);
            }
        }
    }
    if pool.registered(mint) {
        let k = pool.position_of(mint);
        assert(is_position_of(after.reward_assets, mint, k));
        let k2 = after.position_of(mint);
        assert(is_position_of(after.reward_assets, mint, k2));
        if k < k2 {
            assert(after.reward_assets[k].mint != mint);
        }
        if k2 < k {
            assert(pool.reward_assets[k2].mint != mint);
        }
    }
}

/// What happens when `delegations` claim `mint` from `pool` one after the
/// other at `clock`, each starting from the checkpoints `checkpoints`: the
/// pool after the last claim and the sum of what was paid, or the first
/// refusal.
pub open spec fn multi_claimed_in_turn(
    pool: MultiRewardPoolView,
    delegations: Seq<Delegation>,
    checkpoints: Seq<u64>,
    clock: i64,
    mint: AccountId,
) -> Result<(MultiRewardPoolView, nat), ErrorCode>
    decreases delegations.len(),
{
    if delegations.len() == 0 {
        Ok((pool, 0))
    } else {
        match multi_claimed_in_turn(pool, delegations.drop_last(), checkpoints, clock, mint) {
            Err(e) => Err(e),
            Ok((before, paid_before)) => match claim_outcome(
                before,
                staked_amount(delegations.last()),
                checkpoints,
                clock as int,
                mint,
            ) {
                Err(e) => Err(e),
                Ok((after, _, paid)) => Ok((after, paid_before + paid as nat)),
            },
        }
    }
}

/// Claims of one asset made in turn at one time, from one checkpoint, all
/// succeed, and pay each stake its share of what the asset accrued up to
/// that time.
proof fn lemma_multi_claims_in_turn(
    pool: MultiRewardPoolView,
    delegations: Seq<Delegation>,
    checkpoints: Seq<u64>,
    clock: i64,
    mint: AccountId,
)
    requires
        pool.accrued(clock as int) is Ok,
        pool.registered(mint),
        pool.total_shares > 0,
        sum_of(staked_amounts(delegations)) <= pool.total_shares,
        checkpoint_at(checkpoints, pool.position_of(mint)) == pool.reward_assets[pool.position_of(
            mint,
        )].total_rewards,
    ensures
        multi_claimed_in_turn(pool, delegations, checkpoints, clock, mint) == Ok::<
            (MultiRewardPoolView, nat),
            ErrorCode,
        >(
            (
                if delegations.len() == 0 {
                    pool
                } else {
                    pool.accrued(clock as int)->Ok_0
                },
                total_payout(
                    staked_amounts(delegations),
                    pool.total_shares as nat,
                    ((clock - pool.last_update) * pool.reward_assets[pool.position_of(mint)].rate) as nat,
                ),
            ),
        ),
    decreases delegations.len(),
{
    let k = pool.position_of(mint);
    let asset = pool.reward_assets[k];
    let elapsed: int = clock - pool.last_update;
    let updated = pool.accrued(clock as int)->Ok_0;
    let accrued: int = elapsed * asset.rate;
    assert(is_position_of(pool.reward_assets, mint, k));
    assert(0 <= accrued) by (nonlinear_arith)
        requires
            accrued == elapsed * asset.rate,
            0 <= elapsed,
            0 <= asset.rate,
    ;
    if delegations.len() > 0 {
        let front = delegations.drop_last();
        let last = delegations.last();
        let amounts = staked_amounts(delegations);
        assert(amounts.drop_last() =~= staked_amounts(front));
        assert(amounts.last() == staked_amount(last));
        lemma_multi_claims_in_turn(pool, front, checkpoints, clock, mint);
        lemma_multi_update_idempotent(pool, clock);
        lemma_accrual_keeps_positions(pool, clock as int, mint);
        lemma_reward_at_most_accrued(accrued as nat, staked_amount(last), pool.total_shares as nat);
        assert(asset.accrues(elapsed));
        assert(updated.reward_assets[k] == asset.accrued_by(elapsed));
        assert(updated.reward_assets[k].total_rewards == asset.total_rewards + accrued);
        let before = if front.len() == 0 {
            pool
        } else {
            updated
        };
        assert(before.accrued(clock as int) == Ok::<MultiRewardPoolView, ErrorCode>(updated));
        assert(claim_outcome(before, staked_amount(last), checkpoints, clock as int, mint) is Ok);
    }
}

/// Rewards of an asset are conserved over the claims of a period.  Take a
/// pool that pays `mint` and whose shares are the amounts of `delegations`,
/// revoked ones left out, and let none of them have claimed `mint` since the
/// pool was last brought up to date.  When each then claims `mint` once at
/// `clock`, every claim is accepted, the pool ends up brought up to `clock`,
/// and together the claims pay no more than `elapsed * rate`, what the asset
/// accrued in the period.  What they fall short by, taken in millionths, is
/// at most `accrued + SCALE` for each share of the pool: nothing is paid
/// twice, and nothing but rounding is withheld.
pub proof fn lemma_multi_claims_conserve_rewards(
    pool: MultiRewardPoolView,
    delegations: Seq<Delegation>,
    checkpoints: Seq<u64>,
    clock: i64,
    mint: AccountId,
)
    requires
        pool.accrued(clock as int) is Ok,
        pool.registered(mint),
        pool.total_shares > 0,
        sum_of(staked_amounts(delegations)) == pool.total_shares,
        checkpoint_at(checkpoints, pool.position_of(mint)) == pool.reward_assets[pool.position_of(
            mint,
        )].total_rewards,
    ensures
        multi_claimed_in_turn(pool, delegations, checkpoints, clock, mint) matches Ok(
            (after, paid),
        ) && ({
            let accrued = (clock - pool.last_update) * pool.reward_assets[pool.position_of(
                mint,
            )].rate;
            &&& after == pool.accrued(clock as int)->Ok_0
            &&& paid == total_payout(
                staked_amounts(delegations),
                pool.total_shares as nat,
                accrued as nat,
            )
            &&& 0 <= paid <= accrued
            &&& SCALE * (accrued - paid) <= pool.total_shares * (accrued + SCALE)
        }),
{
    let asset = pool.reward_assets[pool.position_of(mint)];
    let accrued: int = (clock - pool.last_update) * asset.rate;
    assert(0 <= accrued) by (nonlinear_arith)
        requires
            accrued == (clock - pool.last_update) * asset.rate,
            0 <= clock - pool.last_update,
            0 <= asset.rate,
    ;
    lemma_multi_claims_in_turn(pool, delegations, checkpoints, clock, mint);
    lemma_reward_conservation(
        staked_amounts(delegations),
        pool.total_shares as nat,
        accrued as nat,
    );
    assert(delegations.len() > 0);
}

} // verus!
