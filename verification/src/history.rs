//! The record of how a template's parameters changed over time.

use vstd::prelude::*;
use crate::identity::AccountId;

verus! {

/// Every change of a template's parameters, oldest first.  The four series
/// run side by side: entry `i` of each belongs to the same change.
#[derive(Clone, Debug, PartialEq, Eq)]
pub struct ParameterHistory {
    pub template: AccountId,
    pub timestamps: Vec<i64>,
    /// Lock periods, in days.
    pub lock_periods: Vec<u8>,
    /// Fees, in percent.
    pub fees: Vec<u8>,
    /// Rebates, in percent.
    pub rebates: Vec<u8>,
}

impl ParameterHistory {
    /// The four series have one entry for each change.
    pub open spec fn aligned(self) -> bool {
        &&& self.lock_periods@.len() == self.timestamps@.len()
        &&& self.fees@.len() == self.timestamps@.len()
        &&& self.rebates@.len() == self.timestamps@.len()
    }

    /// A history of `template` without entries.
    pub fn new(template: AccountId) -> (history: ParameterHistory)
        ensures
            history.template == template,
            history.timestamps@.len() == 0,
            history.aligned(),
    {
        ParameterHistory {
            template,
            timestamps: Vec::new(),
            lock_periods: Vec::new(),
            fees: Vec::new(),
            rebates: Vec::new(),
        }
    }
}

/// A change of parameters to put on record, with the time it was made.
#[derive(Clone, Debug, PartialEq, Eq)]
pub struct RecordParameterChange {
    pub history: ParameterHistory,
    pub now: i64,
}

impl RecordParameterChange {
    /// Appends the change to the history: the time and the three new values
    /// go to the end of their series.  Nothing on record is altered.
    pub fn execute(&mut self, new_lock: u8, new_fee: u8, new_rebate: u8)
        ensures
            final(self).now == old(self).now,
            final(self).history.template == old(self).history.template,
            final(self).history.timestamps@ == old(self).history.timestamps@.push(old(self).now),
            final(self).history.lock_periods@ == old(self).history.lock_periods@.push(new_lock),
            final(self).history.fees@ == old(self).history.fees@.push(new_fee),
            final(self).history.rebates@ == old(self).history.rebates@.push(new_rebate),
            old(self).history.aligned() ==> final(self).history.aligned(),
    {
        self.history.timestamps.push(self.now);
        self.history.lock_periods.push(new_lock);
        self.history.fees.push(new_fee);
        self.history.rebates.push(new_rebate);
    }
}

} // verus!
