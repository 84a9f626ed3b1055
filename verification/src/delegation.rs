//! The delegation ledger: who lent how much stake to whom, and until when.

use vstd::prelude::*;
use crate::error::ErrorCode;
use crate::identity::AccountId;

verus! {

/// Stake that `delegator` has locked in favour of `delegatee`.
///
/// A record is never deleted.  Once `revoked` is set it stays set, and the
/// record counts for nothing from then on.
#[derive(Clone, Copy, Debug, PartialEq, Eq)]
pub struct Delegation {
    pub delegator: AccountId,
    pub delegatee: AccountId,
    pub amount: u64,
    pub lock_until: i64,
    pub revoked: bool,
}

impl Delegation {
    /// Whether the record lends weight to `delegatee` at `at_time`: it names
    /// that delegatee, is not revoked, and its lock runs past `at_time`.
    pub open spec fn active_for(self, delegatee: AccountId, at_time: int) -> bool {
        self.delegatee == delegatee && !self.revoked && self.lock_until > at_time
    }

    /// What a revocation by `caller` at `now` leads to: the revoked record, or
    /// the reason for refusing.
    pub open spec fn revoke_outcome(self, caller: AccountId, now: int) -> Result<
        Delegation,
        ErrorCode,
    > {
        if caller != self.delegator {
            Err(ErrorCode::Unauthorized)
        } else if now < self.lock_until {
            Err(ErrorCode::StillLocked)
        } else if self.revoked {
            Err(ErrorCode::AlreadyRevoked)
        } else {
            Ok(Delegation { revoked: true, ..self })
        }
    }

    /// Decides [`Delegation::active_for`].
    pub fn is_active_for(&self, delegatee: &AccountId, at_time: i64) -> (r: bool)
        ensures
            r == self.active_for(*delegatee, at_time as int),
    {
        self.delegatee == *delegatee && !self.revoked && self.lock_until > at_time
    }

    /// Revokes the delegation on behalf of `caller` and returns the amount to
    /// release back to the delegator.
    ///
    /// Refused with `Unauthorized` unless `caller` is the delegator, else with
    /// `StillLocked` while `now` lies before `lock_until`, else with
    /// `AlreadyRevoked` if the record was revoked before.
    pub fn revoke(&mut self, caller: &AccountId, now: i64) -> (r: Result<u64, ErrorCode>)
        ensures
            match old(self).revoke_outcome(*caller, now as int) {
                Ok(d) => r == Ok::<u64, ErrorCode>(old(self).amount) && *final(self) == d,
                Err(e) => r == Err::<u64, ErrorCode>(e) && *final(self) == *old(self),
            },
            r is Ok <==> *caller == old(self).delegator && now >= old(self).lock_until
                && !old(self).revoked,
    {
        if *caller != self.delegator {
            return Err(ErrorCode::Unauthorized);
        }
        if now < self.lock_until {
            return Err(ErrorCode::StillLocked);
        }
        if self.revoked {
            return Err(ErrorCode::AlreadyRevoked);
        }
        self.revoked = true;
        Ok(self.amount)
    }
}

/// A revoked record is out for good: it lends weight to nobody at any time,
/// and no revocation is accepted on it again.
pub proof fn lemma_revoked_is_final(
    d: Delegation,
    delegatee: AccountId,
    at_time: int,
    caller: AccountId,
    now: int,
)
    requires
        d.revoked,
    ensures
        !d.active_for(delegatee, at_time),
        d.revoke_outcome(caller, now) is Err,
{
}

/// The place of a record in the ledger.  Records are numbered from zero in
/// the order in which they were created, and keep their number for good.
#[derive(Clone, Copy, Debug, PartialEq, Eq, Structural)]
pub struct DelegationId {
    pub index: usize,
}

/// Every delegation ever created, oldest first.
#[derive(Clone, Debug)]
pub struct DelegationLedger {
    pub records: Vec<Delegation>,
}

impl View for DelegationLedger {
    type V = Seq<Delegation>;

    open spec fn view(&self) -> Seq<Delegation> {
        self.records@
    }
}

/// The test that picks out the records lending weight to `delegatee` at
/// `at_time`.
pub open spec fn active_filter(delegatee: AccountId, at_time: int) -> spec_fn(Delegation) -> bool {
    |d: Delegation| d.active_for(delegatee, at_time)
}

impl DelegationLedger {
    /// The records that lend weight to `delegatee` at `at_time`, in the order
    /// in which they were created.
    pub open spec fn active_to(self, delegatee: AccountId, at_time: int) -> Seq<Delegation> {
        self@.filter(active_filter(delegatee, at_time))
    }

    /// What revoking record `id` on behalf of `caller` at `now` leads to: the
    /// records afterwards, or the reason for refusing.  A number that names
    /// no record has no delegator, so nobody may revoke it.
    pub open spec fn revoke_outcome(self, id: DelegationId, caller: AccountId, now: int) -> Result<
        Seq<Delegation>,
        ErrorCode,
    > {
        if id.index >= self@.len() {
            Err(ErrorCode::Unauthorized)
        } else {
            match self@[id.index as int].revoke_outcome(caller, now) {
                Ok(d) => Ok(self@.update(id.index as int, d)),
                Err(e) => Err(e),
            }
        }
    }

    /// A ledger without records.
    pub fn new() -> (ledger: DelegationLedger)
        ensures
            ledger@ == Seq::<Delegation>::empty(),
    {
        DelegationLedger { records: Vec::new() }
    }

    /// The record numbered `id`, if there is one.
    pub fn get(&self, id: DelegationId) -> (r: Option<Delegation>)
        ensures
            r == if id.index < self@.len() {
                Some(self@[id.index as int])
            } else {
                None
            },
    {
        if id.index < self.records.len() {
            Some(self.records[id.index])
        } else {
            None
        }
    }

    /// Collects, oldest first, every record that is not revoked, names
    /// `delegatee`, and whose lock runs past `at_time`.  The answer is worked
    /// out afresh from the ledger on each call.
    pub fn active_delegations_to(&self, delegatee: &AccountId, at_time: i64) -> (found: Vec<
        Delegation,
    >)
        ensures
            found@ == self.active_to(*delegatee, at_time as int),
    {
        let ghost pred = active_filter(*delegatee, at_time as int);
        let mut found: Vec<Delegation> = Vec::new();
        let mut i: usize = 0;
        proof {
            reveal(Seq::filter);
            assert(self@.take(0).filter(pred) =~= Seq::<Delegation>::empty());
        }
        while i < self.records.len()
            invariant
                i <= self@.len(),
                pred == active_filter(*delegatee, at_time as int),
                found@ == self@.take(i as int).filter(pred),
            decreases self@.len() - i,
        {
            let record: Delegation = self.records[i];
            proof {
                broadcast use Seq::lemma_filter_push;

                assert(self@.take(i + 1) =~= self@.take(i as int).push(record));
            }
            if record.is_active_for(delegatee, at_time) {
                found.push(record);
            }
            i += 1;
        }
        proof {
            assert(self@.take(i as int) =~= self@);
        }
        found
    }

    /// Revokes record `id` on behalf of `caller` and returns the amount to
    /// release back to the delegator.  Only the `revoked` mark of that one
    /// record changes.
    ///
    /// Refused with `Unauthorized` if `id` names no record or `caller` is not
    /// its delegator, else with `StillLocked` while `now` lies before the
    /// record's `lock_until`, else with `AlreadyRevoked`.
    pub fn revoke(&mut self, id: DelegationId, caller: &AccountId, now: i64) -> (r: Result<
        u64,
        ErrorCode,
    >)
        ensures
            match old(self).revoke_outcome(id, *caller, now as int) {
                Ok(records) => r == Ok::<u64, ErrorCode>(old(self)@[id.index as int].amount)
                    && final(self)@ == records,
                Err(e) => r == Err::<u64, ErrorCode>(e) && final(self)@ == old(self)@,
            },
            r is Ok <==> id.index < old(self)@.len() && ({
                let record = old(self)@[id.index as int];
                *caller == record.delegator && now >= record.lock_until && !record.revoked
            }),
    {
        if id.index >= self.records.len() {
            return Err(ErrorCode::Unauthorized);
        }
        let mut record: Delegation = self.records[id.index];
        let released: u64 = record.revoke(caller, now)?;
        self.records[id.index] = record;
        Ok(released)
    }
}

/// A request to lock stake: who delegates to whom, what the delegator has
/// free to lock, and the time of the request.
#[derive(Clone, Copy, Debug, PartialEq, Eq)]
pub struct CreateDelegation {
    pub delegator: AccountId,
    pub delegatee: AccountId,
    /// What the delegator may still transfer or lock.
    pub available_balance: u64,
    pub now: i64,
}

impl CreateDelegation {
    /// The record that locking `amount` for `lock_duration` seconds creates,
    /// or the reason for refusing.
    pub open spec fn outcome(self, amount: u64, lock_duration: int) -> Result<
        Delegation,
        ErrorCode,
    > {
        if self.available_balance < amount {
            Err(ErrorCode::InsufficientBalance)
        } else if self.now + lock_duration > i64::MAX {
            Err(ErrorCode::Overflow)
        } else {
            Ok(
                Delegation {
                    delegator: self.delegator,
                    delegatee: self.delegatee,
                    amount,
                    lock_until: (self.now + lock_duration) as i64,
                    revoked: false,
                },
            )
        }
    }

    /// Locks `amount` of the delegator's balance in favour of the delegatee
    /// for `lock_duration` seconds from `now`.  The new record goes to the end
    /// of `ledger`, its number is returned, and `available_balance` drops by
    /// `amount`.  It is for the caller to ask for a positive `amount` and a
    /// `lock_duration` that is not negative.
    ///
    /// Refused with `InsufficientBalance` if less than `amount` is available,
    /// else with `Overflow` if the lock would end past the last timestamp.
    pub fn execute(
        &mut self,
        ledger: &mut DelegationLedger,
        amount: u64,
        lock_duration: i64,
    ) -> (r: Result<DelegationId, ErrorCode>)
        requires
            amount > 0,
            lock_duration >= 0,
        ensures
            match old(self).outcome(amount, lock_duration as int) {
                Ok(d) => r == Ok::<DelegationId, ErrorCode>(
                    DelegationId { index: old(ledger)@.len() as usize },
                ) && final(ledger)@ == old(ledger)@.push(d) && *final(self) == (CreateDelegation {
                    available_balance: (old(self).available_balance - amount) as u64,
                    ..*old(self)
                }),
                Err(e) => r == Err::<DelegationId, ErrorCode>(e) && final(ledger)@ == old(ledger)@
                    && *final(self) == *old(self),
            },
    {
        if self.available_balance < amount {
            return Err(ErrorCode::InsufficientBalance);
        }
        let lock_until: i64 = match self.now.checked_add(lock_duration) {
            Some(t) => t,
            None => {
                return Err(ErrorCode::Overflow);
            },
        };
        let index: usize = ledger.records.len();
        ledger.records.push(
            Delegation {
                delegator: self.delegator,
                delegatee: self.delegatee,
                amount,
                lock_until,
                revoked: false,
            },
        );
        self.available_balance = self.available_balance - amount;
        Ok(DelegationId { index })
    }
}

} // verus!
