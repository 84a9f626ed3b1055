//! Proposals: creation, weighted votes, and the verdict once voting ends.

use vstd::prelude::*;
use crate::delegation::Delegation;
use crate::error::ErrorCode;
use crate::identity::AccountId;
use crate::voting_power::{compute_power, voting_power, VoterAccount, VotingType};

verus! {

/// A title must be shorter than this many characters.
pub const MAX_TITLE_LEN: usize = 64;

/// A description must be shorter than this many characters.
pub const MAX_DESCRIPTION_LEN: usize = 512;

/// Where a proposal stands.  `Active` is the only state that can be left.
#[derive(Clone, Copy, Debug, PartialEq, Eq, Structural)]
pub enum ProposalStatus {
    Active,
    Approved,
    Rejected,
    /// Kept for clean-up of abandoned proposals; no operation here sets it.
    Expired,
}

/// The side a vote is cast for.
#[derive(Clone, Copy, Debug, PartialEq, Eq, Structural)]
pub enum VoteType {
    Approve,
    Reject,
}

/// A proposal with its running tallies.
#[derive(Clone, Debug, PartialEq, Eq)]
pub struct Proposal {
    pub title: String,
    pub description: String,
    pub creator: AccountId,
    pub start_time: i64,
    pub end_time: i64,
    pub approve_votes: u64,
    pub reject_votes: u64,
    pub status: ProposalStatus,
    pub voting_type: VotingType,
}

/// One attempt to vote, as the laws below speak of it: who votes, the
/// delegations on record at that moment, the side, and the time.
pub struct Ballot {
    pub voter: VoterAccount,
    pub delegations: Seq<Delegation>,
    pub vote_type: VoteType,
    pub now: int,
}

impl Proposal {
    /// All votes counted so far, for and against.
    pub open spec fn tally(self) -> nat {
        (self.approve_votes + self.reject_votes) as nat
    }

    /// Whether a vote arriving at `now` is still taken.
    pub open spec fn open_at(self, now: int) -> bool {
        self.status == ProposalStatus::Active && now < self.end_time
    }

    /// The proposal after `voter` votes `vote_type` at `now` with
    /// `delegations` on record, or the reason the vote is refused.
    pub open spec fn after_vote(
        self,
        voter: VoterAccount,
        delegations: Seq<Delegation>,
        vote_type: VoteType,
        now: int,
    ) -> Result<Proposal, ErrorCode> {
        if !self.open_at(now) {
            Err(ErrorCode::VotingClosed)
        } else {
            match voting_power(self.voting_type, voter, delegations, now) {
                Err(e) => Err(e),
                Ok(power) => match vote_type {
                    VoteType::Approve => if self.approve_votes + power > u64::MAX {
                        Err(ErrorCode::Overflow)
                    } else {
                        Ok(Proposal { approve_votes: (self.approve_votes + power) as u64, ..self })
                    },
                    VoteType::Reject => if self.reject_votes + power > u64::MAX {
                        Err(ErrorCode::Overflow)
                    } else {
                        Ok(Proposal { reject_votes: (self.reject_votes + power) as u64, ..self })
                    },
                },
            }
        }
    }

    /// The proposal as `finalize` leaves it at `now`: an active proposal whose
    /// voting has ended gets its verdict, any other stays as it is.
    pub open spec fn finalized(self, now: int) -> Proposal {
        if self.status == ProposalStatus::Active && now >= self.end_time {
            Proposal {
                status: if self.approve_votes > self.reject_votes {
                    ProposalStatus::Approved
                } else {
                    ProposalStatus::Rejected
                },
                ..self
            }
        } else {
            self
        }
    }

    /// The proposal after a run of ballots, each counted if it is accepted
    /// and dropped if it is refused.
    pub open spec fn after_ballots(self, ballots: Seq<Ballot>) -> Proposal
        decreases ballots.len(),
    {
        if ballots.len() == 0 {
            self
        } else {
            let before = self.after_ballots(ballots.drop_last());
            let b = ballots.last();
            match before.after_vote(b.voter, b.delegations, b.vote_type, b.now) {
                Ok(after) => after,
                Err(_) => before,
            }
        }
    }

    /// Computes the power `voter` would vote with on this proposal at
    /// `current_time`, under the proposal's own policy.
    pub fn calculate_voting_power(
        &self,
        voter: &VoterAccount,
        delegations: &[Delegation],
        current_time: i64,
    ) -> (r: Result<u64, ErrorCode>)
        ensures
            r == voting_power(self.voting_type, *voter, delegations@, current_time as int),
    {
        compute_power(&self.voting_type, voter, delegations, current_time)
    }
}

/// The proposal rules, with the one setting they depend on.
#[derive(Clone, Copy, Debug, PartialEq, Eq)]
pub struct VotingSystem {
    /// Seconds between a proposal's creation and the end of its voting.
    pub voting_period: u64,
}

impl VotingSystem {
    /// The proposal that `create_proposal` makes, or the reason for refusing.
    pub open spec fn creation_outcome(
        self,
        creator: AccountId,
        title: String,
        description: String,
        voting_type: VotingType,
        now: int,
    ) -> Result<Proposal, ErrorCode> {
        if title@.len() >= MAX_TITLE_LEN {
            Err(ErrorCode::TitleTooLong)
        } else if description@.len() >= MAX_DESCRIPTION_LEN {
            Err(ErrorCode::DescriptionTooLong)
        } else if now + self.voting_period > i64::MAX {
            Err(ErrorCode::Overflow)
        } else {
            Ok(
                Proposal {
                    title,
                    description,
                    creator,
                    start_time: now as i64,
                    end_time: (now + self.voting_period) as i64,
                    approve_votes: 0,
                    reject_votes: 0,
                    status: ProposalStatus::Active,
                    voting_type,
                },
            )
        }
    }

    /// Opens a proposal at `now`: active, with empty tallies, and open for
    /// votes until `now + voting_period`.
    ///
    /// Refused with `TitleTooLong` if the title has 64 characters or more,
    /// else with `DescriptionTooLong` if the description has 512 or more,
    /// else with `Overflow` if voting would end past the last timestamp.
    pub fn create_proposal(
        &self,
        creator: AccountId,
        title: String,
        description: String,
        voting_type: VotingType,
        now: i64,
    ) -> (r: Result<Proposal, ErrorCode>)
        ensures
            r == self.creation_outcome(creator, title, description, voting_type, now as int),
    {
        if title.as_str().unicode_len() >= MAX_TITLE_LEN {
            return Err(ErrorCode::TitleTooLong);
        }
        if description.as_str().unicode_len() >= MAX_DESCRIPTION_LEN {
            return Err(ErrorCode::DescriptionTooLong);
        }
        let end: i128 = now as i128 + self.voting_period as i128;
        if end > i64::MAX as i128 {
            return Err(ErrorCode::Overflow);
        }
        Ok(
            Proposal {
                title,
                description,
                creator,
                start_time: now,
                end_time: end as i64,
                approve_votes: 0,
                reject_votes: 0,
                status: ProposalStatus::Active,
                voting_type,
            },
        )
    }

    /// Casts a vote for `voter` at `now` and returns the power it was counted
    /// with.  The power is computed under the proposal's policy from the
    /// voter's holdings and `delegations`, and added to the tally of the
    /// chosen side.  Nothing keeps a voter from voting again.
    ///
    /// Refused with `VotingClosed` unless the proposal is active and `now`
    /// lies before `end_time`, else as the power computation refuses, else
    /// with `Overflow` if the tally would not fit 64 bits.  A refused vote
    /// leaves the proposal as it was.
    pub fn cast_vote(
        proposal: &mut Proposal,
        voter: &VoterAccount,
        delegations: &[Delegation],
        vote_type: VoteType,
        now: i64,
    ) -> (r: Result<u64, ErrorCode>)
        ensures
            match old(proposal).after_vote(*voter, delegations@, vote_type, now as int) {
                Ok(after) => *final(proposal) == after && r == voting_power(
                    old(proposal).voting_type,
                    *voter,
                    delegations@,
                    now as int,
                ),
                Err(e) => *final(proposal) == *old(proposal) && r == Err::<u64, ErrorCode>(e),
            },
            final(proposal).tally() >= old(proposal).tally(),
            now >= old(proposal).end_time ==> r == Err::<u64, ErrorCode>(ErrorCode::VotingClosed),
    {
        if proposal.status != ProposalStatus::Active || now >= proposal.end_time {
            return Err(ErrorCode::VotingClosed);
        }
        let power: u64 = compute_power(&proposal.voting_type, voter, delegations, now)?;
        match vote_type {
            VoteType::Approve => {
                match proposal.approve_votes.checked_add(power) {
                    Some(votes) => {
                        proposal.approve_votes = votes;
                    },
                    None => {
                        return Err(ErrorCode::Overflow);
                    },
                }
            },
            VoteType::Reject => {
                match proposal.reject_votes.checked_add(power) {
                    Some(votes) => {
                        proposal.reject_votes = votes;
                    },
                    None => {
                        return Err(ErrorCode::Overflow);
                    },
                }
            },
        }
        Ok(power)
    }

    /// Settles the proposal at `now` and returns where it stands.  An active
    /// proposal whose voting has ended becomes `Approved` if more power voted
    /// for it than against it, and `Rejected` otherwise.  Before the end of
    /// voting, and on a proposal that is no longer active, nothing changes.
    pub fn finalize(proposal: &mut Proposal, now: i64) -> (status: ProposalStatus)
        ensures
            *final(proposal) == old(proposal).finalized(now as int),
            status == final(proposal).status,
            old(proposal).status != ProposalStatus::Active ==> *final(proposal) == *old(proposal),
    {
        if proposal.status == ProposalStatus::Active && now >= proposal.end_time {
            if proposal.approve_votes > proposal.reject_votes {
                proposal.status = ProposalStatus::Approved;
            } else {
                proposal.status = ProposalStatus::Rejected;
            }
        }
        proposal.status
    }
}

/// A vote never lowers the number of votes counted, and leaves the end of
/// voting, the status and the policy as they were.
pub proof fn lemma_vote_keeps_tally(
    proposal: Proposal,
    voter: VoterAccount,
    delegations: Seq<Delegation>,
    vote_type: VoteType,
    now: int,
)
    ensures
        match proposal.after_vote(voter, delegations, vote_type, now) {
            Ok(after) => after.tally() >= proposal.tally() && after.end_time == proposal.end_time
                && after.status == proposal.status && after.voting_type == proposal.voting_type,
            Err(_) => true,
        },
{
}

/// No vote is accepted once the clock has reached the end of voting.
pub proof fn lemma_no_vote_after_end(
    proposal: Proposal,
    voter: VoterAccount,
    delegations: Seq<Delegation>,
    vote_type: VoteType,
    now: int,
)
    requires
        now >= proposal.end_time,
    ensures
        proposal.after_vote(voter, delegations, vote_type, now) == Err::<Proposal, ErrorCode>(
            ErrorCode::VotingClosed,
        ),
{
}

/// No vote is accepted on a proposal that has left the active state, and
/// settling it again changes nothing: the verdict is final.
pub proof fn lemma_verdict_is_final(
    proposal: Proposal,
    voter: VoterAccount,
    delegations: Seq<Delegation>,
    vote_type: VoteType,
    vote_time: int,
    settle_time: int,
)
    requires
        proposal.status != ProposalStatus::Active,
    ensures
        proposal.after_vote(voter, delegations, vote_type, vote_time) == Err::<Proposal, ErrorCode>(
            ErrorCode::VotingClosed,
        ),
        proposal.finalized(settle_time) == proposal,
{
}

/// Over any run of ballots the number of votes counted never goes down:
/// after the first `i` ballots it is at most what it is after the first `j`,
/// for `i <= j`.
pub proof fn lemma_tally_monotonic(proposal: Proposal, ballots: Seq<Ballot>, i: int, j: int)
    requires
        0 <= i <= j <= ballots.len(),
    ensures
        proposal.after_ballots(ballots.take(i)).tally() <= proposal.after_ballots(
            ballots.take(j),
        ).tally(),
    decreases j - i,
{
    if i < j {
        lemma_tally_monotonic(proposal, ballots, i, j - 1);
        let shorter = ballots.take(j - 1);
        let b = ballots[j - 1];
        assert(ballots.take(j).drop_last() =~= shorter);
        assert(ballots.take(j).last() == b);
        lemma_vote_keeps_tally(
            proposal.after_ballots(shorter),
            b.voter,
            b.delegations,
            b.vote_type,
            b.now,
        );
    }
}

} // verus!
