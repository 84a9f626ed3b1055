use evolve::delegation::Delegation;
use evolve::error::ErrorCode;
use evolve::governance::{Proposal, ProposalStatus, VoteType, VotingSystem, MAX_DESCRIPTION_LEN, MAX_TITLE_LEN};
use evolve::identity::AccountId;
use evolve::voting_power::{VoterAccount, VotingType};

fn id(tag: u8) -> AccountId {
    AccountId { bytes: [tag; 32] }
}

fn holder(balance: u64) -> VoterAccount {
    VoterAccount { identifier: id(2), balance, deposit_time: 0 }
}

fn open_proposal(end_time: i64, policy: VotingType) -> Proposal {
    Proposal {
        title: "T".to_string(),
        description: "D".to_string(),
        creator: id(1),
        start_time: 0,
        end_time,
        approve_votes: 0,
        reject_votes: 0,
        status: ProposalStatus::Active,
        voting_type: policy,
    }
}

const ANY_BALANCE: VotingType = VotingType::TokenWeighted { min_balance: 0 };

#[test]
fn create_proposal_opens_an_active_proposal() {
    let system = VotingSystem { voting_period: 604_800 };
    let made = system.create_proposal(
        id(1),
        "Upgrade".to_string(),
        "Details".to_string(),
        VotingType::TimeLockWeighted { min_lock_duration: 5 },
        1_000,
    );
    assert_eq!(
        made,
        Ok(Proposal {
            title: "Upgrade".to_string(),
            description: "Details".to_string(),
            creator: id(1),
            start_time: 1_000,
            end_time: 605_800,
            approve_votes: 0,
            reject_votes: 0,
            status: ProposalStatus::Active,
            voting_type: VotingType::TimeLockWeighted { min_lock_duration: 5 },
        })
    );
}

#[test]
fn create_proposal_limits_the_title() {
    let system = VotingSystem { voting_period: 10 };
    assert_eq!(MAX_TITLE_LEN, 64);
    assert!(system.create_proposal(id(1), "t".repeat(63), "d".to_string(), ANY_BALANCE, 0).is_ok());
    assert_eq!(
        system.create_proposal(id(1), "t".repeat(64), "d".to_string(), ANY_BALANCE, 0),
        Err(ErrorCode::TitleTooLong)
    );
    assert_eq!(
        system.create_proposal(id(1), "t".repeat(65), "d".to_string(), ANY_BALANCE, 0),
        Err(ErrorCode::TitleTooLong)
    );
    assert!(system.create_proposal(id(1), String::new(), String::new(), ANY_BALANCE, 0).is_ok());
}

#[test]
fn create_proposal_limits_the_description() {
    let system = VotingSystem { voting_period: 10 };
    assert_eq!(MAX_DESCRIPTION_LEN, 512);
    assert!(system.create_proposal(id(1), "t".to_string(), "d".repeat(511), ANY_BALANCE, 0).is_ok());
    assert_eq!(
        system.create_proposal(id(1), "t".to_string(), "d".repeat(512), ANY_BALANCE, 0),
        Err(ErrorCode::DescriptionTooLong)
    );
    assert_eq!(
        system.create_proposal(id(1), "t".repeat(64), "d".repeat(512), ANY_BALANCE, 0),
        Err(ErrorCode::TitleTooLong)
    );
}

#[test]
fn create_proposal_counts_characters() {
    let system = VotingSystem { voting_period: 10 };
    let title = "é".repeat(63);
    assert_eq!(title.len(), 126);
    assert!(system.create_proposal(id(1), title, "d".to_string(), ANY_BALANCE, 0).is_ok());
    assert_eq!(
        system.create_proposal(id(1), "é".repeat(64), "d".to_string(), ANY_BALANCE, 0),
        Err(ErrorCode::TitleTooLong)
    );
    assert!(system.create_proposal(id(1), "t".to_string(), "路".repeat(511), ANY_BALANCE, 0).is_ok());
    assert_eq!(
        system.create_proposal(id(1), "t".to_string(), "路".repeat(512), ANY_BALANCE, 0),
        Err(ErrorCode::DescriptionTooLong)
    );
}

#[test]
fn create_proposal_refuses_an_end_past_the_last_timestamp() {
    let system = VotingSystem { voting_period: 10 };
    assert_eq!(
        system.create_proposal(id(1), "t".to_string(), "d".to_string(), ANY_BALANCE, i64::MAX - 9),
        Err(ErrorCode::Overflow)
    );
    let made = system.create_proposal(id(1), "t".to_string(), "d".to_string(), ANY_BALANCE, i64::MAX - 10);
    assert_eq!(made.unwrap().end_time, i64::MAX);
    let endless = VotingSystem { voting_period: u64::MAX };
    assert_eq!(
        endless.create_proposal(id(1), "T".to_string(), "D".to_string(), ANY_BALANCE, i64::MIN),
        Ok(Proposal { start_time: i64::MIN, end_time: i64::MAX, ..open_proposal(0, ANY_BALANCE) })
    );
    assert_eq!(
        endless.create_proposal(id(1), "t".to_string(), "d".to_string(), ANY_BALANCE, i64::MIN + 1),
        Err(ErrorCode::Overflow)
    );
    assert_eq!(
        endless.create_proposal(id(1), "t".repeat(64), "d".to_string(), ANY_BALANCE, 0),
        Err(ErrorCode::TitleTooLong)
    );
}

#[test]
fn cast_vote_adds_power_to_the_chosen_side() {
    let mut proposal = open_proposal(100, ANY_BALANCE);
    assert_eq!(VotingSystem::cast_vote(&mut proposal, &holder(30), &[], VoteType::Approve, 0), Ok(30));
    assert_eq!(VotingSystem::cast_vote(&mut proposal, &holder(12), &[], VoteType::Reject, 99), Ok(12));
    assert_eq!(
        proposal,
        Proposal { approve_votes: 30, reject_votes: 12, ..open_proposal(100, ANY_BALANCE) }
    );
}

#[test]
fn cast_vote_counts_a_voter_each_time() {
    let mut proposal = open_proposal(100, ANY_BALANCE);
    assert_eq!(VotingSystem::cast_vote(&mut proposal, &holder(30), &[], VoteType::Approve, 0), Ok(30));
    assert_eq!(VotingSystem::cast_vote(&mut proposal, &holder(30), &[], VoteType::Approve, 1), Ok(30));
    assert_eq!(proposal.approve_votes, 60);
}

#[test]
fn cast_vote_uses_delegated_power() {
    let mut proposal = open_proposal(100, ANY_BALANCE);
    let delegations = [
        Delegation { delegator: id(1), delegatee: id(2), amount: 500, lock_until: 50, revoked: false },
        Delegation { delegator: id(1), delegatee: id(3), amount: 11, lock_until: 50, revoked: false },
    ];
    assert_eq!(
        VotingSystem::cast_vote(&mut proposal, &holder(500), &delegations, VoteType::Approve, 10),
        Ok(1000)
    );
    assert_eq!(proposal.approve_votes, 1000);
    assert_eq!(proposal.calculate_voting_power(&holder(500), &delegations, 10), Ok(1000));
    assert_eq!(proposal.calculate_voting_power(&holder(500), &delegations, 50), Ok(500));
}

#[test]
fn cast_vote_is_refused_from_the_end_of_voting_on() {
    let mut proposal = open_proposal(100, ANY_BALANCE);
    assert_eq!(
        VotingSystem::cast_vote(&mut proposal, &holder(30), &[], VoteType::Approve, 100),
        Err(ErrorCode::VotingClosed)
    );
    assert_eq!(
        VotingSystem::cast_vote(&mut proposal, &holder(30), &[], VoteType::Reject, 101),
        Err(ErrorCode::VotingClosed)
    );
    assert_eq!(proposal, open_proposal(100, ANY_BALANCE));
}

#[test]
fn cast_vote_is_refused_on_a_settled_proposal() {
    for status in [ProposalStatus::Approved, ProposalStatus::Rejected, ProposalStatus::Expired] {
        let mut proposal = Proposal { status, ..open_proposal(100, ANY_BALANCE) };
        assert_eq!(
            VotingSystem::cast_vote(&mut proposal, &holder(30), &[], VoteType::Approve, 0),
            Err(ErrorCode::VotingClosed)
        );
        assert_eq!(proposal, Proposal { status, ..open_proposal(100, ANY_BALANCE) });
    }
}

#[test]
fn cast_vote_passes_on_the_policy_refusal() {
    let strict = VotingType::TokenWeighted { min_balance: 100 };
    let mut proposal = open_proposal(100, strict);
    assert_eq!(
        VotingSystem::cast_vote(&mut proposal, &holder(99), &[], VoteType::Approve, 0),
        Err(ErrorCode::InsufficientVotingPower)
    );
    assert_eq!(proposal, open_proposal(100, strict));
    let aged = VotingType::TimeLockWeighted { min_lock_duration: 50 };
    let mut proposal = open_proposal(100, aged);
    assert_eq!(
        VotingSystem::cast_vote(&mut proposal, &holder(99), &[], VoteType::Approve, 49),
        Err(ErrorCode::InsufficientLockTime)
    );
    assert_eq!(
        VotingSystem::cast_vote(&mut proposal, &holder(99), &[], VoteType::Approve, -1),
        Err(ErrorCode::InvalidTimestamp)
    );
    assert_eq!(
        VotingSystem::cast_vote(&mut proposal, &holder(99), &[], VoteType::Approve, 100),
        Err(ErrorCode::VotingClosed)
    );
    assert_eq!(proposal, open_proposal(100, aged));
    assert_eq!(VotingSystem::cast_vote(&mut proposal, &holder(99), &[], VoteType::Approve, 50), Ok(50));
}

#[test]
fn cast_vote_refuses_a_tally_that_does_not_fit() {
    let mut proposal = Proposal { approve_votes: u64::MAX - 5, reject_votes: 7, ..open_proposal(100, ANY_BALANCE) };
    assert_eq!(
        VotingSystem::cast_vote(&mut proposal, &holder(6), &[], VoteType::Approve, 0),
        Err(ErrorCode::Overflow)
    );
    assert_eq!(proposal.approve_votes, u64::MAX - 5);
    assert_eq!(VotingSystem::cast_vote(&mut proposal, &holder(5), &[], VoteType::Approve, 0), Ok(5));
    assert_eq!(proposal.approve_votes, u64::MAX);
    assert_eq!(VotingSystem::cast_vote(&mut proposal, &holder(6), &[], VoteType::Reject, 0), Ok(6));
    assert_eq!(proposal.reject_votes, 13);
}

#[test]
fn votes_counted_never_go_down() {
    let mut proposal = open_proposal(100, VotingType::TokenWeighted { min_balance: 10 });
    let mut counted: u128 = 0;
    let ballots = [(5u64, 0i64), (10, 1), (40, 99), (40, 100), (7, 3), (15, 2), (1000, 150)];
    for (balance, now) in ballots {
        let _ = VotingSystem::cast_vote(&mut proposal, &holder(balance), &[], VoteType::Approve, now);
        let _ = VotingSystem::cast_vote(&mut proposal, &holder(balance), &[], VoteType::Reject, now);
        let after = proposal.approve_votes as u128 + proposal.reject_votes as u128;
        assert!(after >= counted);
        counted = after;
    }
    assert_eq!(proposal.approve_votes, 65);
    assert_eq!(proposal.reject_votes, 65);
}

#[test]
fn finalize_waits_for_the_end_of_voting() {
    let mut proposal = Proposal { approve_votes: 9, ..open_proposal(100, ANY_BALANCE) };
    assert_eq!(VotingSystem::finalize(&mut proposal, 99), ProposalStatus::Active);
    assert_eq!(proposal, Proposal { approve_votes: 9, ..open_proposal(100, ANY_BALANCE) });
    assert_eq!(VotingSystem::finalize(&mut proposal, 100), ProposalStatus::Approved);
    assert_eq!(
        proposal,
        Proposal { approve_votes: 9, status: ProposalStatus::Approved, ..open_proposal(100, ANY_BALANCE) }
    );
}

#[test]
fn finalize_rejects_unless_approval_leads() {
    let mut tied = Proposal { approve_votes: 9, reject_votes: 9, ..open_proposal(100, ANY_BALANCE) };
    assert_eq!(VotingSystem::finalize(&mut tied, 100), ProposalStatus::Rejected);
    let mut empty = open_proposal(100, ANY_BALANCE);
    assert_eq!(VotingSystem::finalize(&mut empty, 500), ProposalStatus::Rejected);
    let mut behind = Proposal { approve_votes: 9, reject_votes: 10, ..open_proposal(100, ANY_BALANCE) };
    assert_eq!(VotingSystem::finalize(&mut behind, 100), ProposalStatus::Rejected);
    let mut ahead = Proposal { approve_votes: 10, reject_votes: 9, ..open_proposal(100, ANY_BALANCE) };
    assert_eq!(VotingSystem::finalize(&mut ahead, 100), ProposalStatus::Approved);
}

#[test]
fn a_verdict_is_final() {
    for status in [ProposalStatus::Approved, ProposalStatus::Rejected, ProposalStatus::Expired] {
        let mut proposal = Proposal { approve_votes: 1, status, ..open_proposal(100, ANY_BALANCE) };
        assert_eq!(VotingSystem::finalize(&mut proposal, 0), status);
        assert_eq!(VotingSystem::finalize(&mut proposal, 1000), status);
        assert_eq!(proposal, Proposal { approve_votes: 1, status, ..open_proposal(100, ANY_BALANCE) });
    }
    let mut proposal = Proposal { reject_votes: 3, ..open_proposal(100, ANY_BALANCE) };
    assert_eq!(VotingSystem::finalize(&mut proposal, 100), ProposalStatus::Rejected);
    assert_eq!(
        VotingSystem::cast_vote(&mut proposal, &holder(50), &[], VoteType::Approve, 50),
        Err(ErrorCode::VotingClosed)
    );
    assert_eq!(VotingSystem::finalize(&mut proposal, 200), ProposalStatus::Rejected);
    assert_eq!(proposal.approve_votes, 0);
}

#[test]
fn test_proposal_lifecycle() {
    let system = VotingSystem { voting_period: 259_200 };
    let proposal_title = "Upgrade Protocol Version";
    let created = system.create_proposal(
        id(1),
        proposal_title.to_string(),
        "Technical upgrade to v2.0".to_string(),
        VotingType::TokenWeighted { min_balance: 100 },
        0,
    );
    assert!(created.is_ok());

    let mut proposal = created.unwrap();
    assert_eq!(proposal.status, ProposalStatus::Active);

    let vote = VotingSystem::cast_vote(&mut proposal, &holder(500), &[], VoteType::Approve, 1);
    assert!(vote.is_ok());

    let after_voting: i64 = proposal.end_time + 1;
    VotingSystem::finalize(&mut proposal, after_voting);

    assert_eq!(proposal.status, ProposalStatus::Approved);
    assert_eq!(proposal.approve_votes, 500);
}

#[test]
fn test_proposal_flow() {
    let system = VotingSystem { voting_period: 259_200 };
    let created = system.create_proposal(
        id(1),
        "Lower the fee".to_string(),
        "Fee from 2% to 1%".to_string(),
        VotingType::Quadratic { coefficient_micros: 1_000_000 },
        7,
    );
    assert!(created.is_ok());
}
