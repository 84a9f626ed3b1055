use evolve::delegation::Delegation;
use evolve::error::ErrorCode;
use evolve::identity::AccountId;
use evolve::math::isqrt;
use evolve::voting_power::{compute_power, VoterAccount, VotingType, MICROS_PER_UNIT};

fn id(tag: u8) -> AccountId {
    AccountId { bytes: [tag; 32] }
}

fn voter(balance: u64, deposit_time: i64) -> VoterAccount {
    VoterAccount { identifier: id(2), balance, deposit_time }
}

fn lent(delegatee: u8, amount: u64, lock_until: i64, revoked: bool) -> Delegation {
    Delegation { delegator: id(1), delegatee: id(delegatee), amount, lock_until, revoked }
}

#[test]
fn isqrt_rounds_down() {
    assert_eq!(isqrt(0), 0);
    assert_eq!(isqrt(1), 1);
    assert_eq!(isqrt(3), 1);
    assert_eq!(isqrt(4), 2);
    assert_eq!(isqrt(15), 3);
    assert_eq!(isqrt(16), 4);
    assert_eq!(isqrt(17), 4);
    assert_eq!(isqrt(1_000_000), 1000);
    assert_eq!(isqrt(999_999), 999);
    assert_eq!(isqrt((1u128 << 64) - 1), u32::MAX as u64);
    assert_eq!(isqrt(1u128 << 64), 1u64 << 32);
    assert_eq!(isqrt(u128::MAX), u64::MAX);
    assert_eq!(isqrt(u128::MAX - 2 * (u64::MAX as u128)), u64::MAX);
    assert_eq!(isqrt(u128::MAX - 2 * (u64::MAX as u128) - 1), u64::MAX - 1);
}

#[test]
fn token_weighted_power_is_the_balance() {
    let policy = VotingType::TokenWeighted { min_balance: 100 };
    assert_eq!(policy.compute_base_power(&voter(100, 0), 0), Ok(100));
    assert_eq!(policy.compute_base_power(&voter(u64::MAX, 0), 0), Ok(u64::MAX));
    assert_eq!(compute_power(&policy, &voter(250, 0), &[], 0), Ok(250));
}

#[test]
fn token_weighted_turns_away_small_holders() {
    let policy = VotingType::TokenWeighted { min_balance: 100 };
    assert_eq!(policy.compute_base_power(&voter(99, 0), 0), Err(ErrorCode::InsufficientVotingPower));
    assert_eq!(
        compute_power(&policy, &voter(99, 0), &[lent(2, 1000, 10, false)], 0),
        Err(ErrorCode::InsufficientVotingPower)
    );
}

#[test]
fn time_lock_power_is_the_age_of_the_deposit() {
    let policy = VotingType::TimeLockWeighted { min_lock_duration: 3600 };
    assert_eq!(policy.compute_base_power(&voter(5, 1000), 4600), Ok(3600));
    assert_eq!(policy.compute_base_power(&voter(5, 1000), 10_000), Ok(9000));
    assert_eq!(policy.compute_base_power(&voter(5, -50), 3550), Ok(3600));
}

#[test]
fn time_lock_turns_away_young_deposits() {
    let policy = VotingType::TimeLockWeighted { min_lock_duration: 3600 };
    assert_eq!(policy.compute_base_power(&voter(5, 1000), 4599), Err(ErrorCode::InsufficientLockTime));
    assert_eq!(policy.compute_base_power(&voter(5, 1000), 1000), Err(ErrorCode::InsufficientLockTime));
}

#[test]
fn time_lock_refuses_a_deposit_from_the_future() {
    let policy = VotingType::TimeLockWeighted { min_lock_duration: 3600 };
    assert_eq!(policy.compute_base_power(&voter(5, 1000), 999), Err(ErrorCode::InvalidTimestamp));
    let lenient = VotingType::TimeLockWeighted { min_lock_duration: 0 };
    assert_eq!(lenient.compute_base_power(&voter(5, 1000), 999), Err(ErrorCode::InvalidTimestamp));
    assert_eq!(lenient.compute_base_power(&voter(5, 1000), 1000), Ok(0));
    assert_eq!(lenient.compute_base_power(&voter(5, i64::MAX), i64::MIN), Err(ErrorCode::InvalidTimestamp));
}

#[test]
fn time_lock_spans_the_whole_range_of_timestamps() {
    let lenient = VotingType::TimeLockWeighted { min_lock_duration: 0 };
    assert_eq!(lenient.compute_base_power(&voter(5, i64::MIN), i64::MAX), Ok(u64::MAX));
    let strict = VotingType::TimeLockWeighted { min_lock_duration: u64::MAX };
    assert_eq!(strict.compute_base_power(&voter(5, i64::MIN), i64::MAX), Ok(u64::MAX));
    assert_eq!(strict.compute_base_power(&voter(5, i64::MIN), i64::MAX - 1), Err(ErrorCode::InsufficientLockTime));
}

#[test]
fn quadratic_power_of_a_hundred_at_coefficient_two_is_twenty() {
    assert_eq!(MICROS_PER_UNIT, 1_000_000);
    let policy = VotingType::Quadratic { coefficient_micros: 2 * MICROS_PER_UNIT as u32 };
    assert_eq!(policy.compute_base_power(&voter(100, 0), 0), Ok(20));
    assert_eq!(compute_power(&policy, &voter(100, 0), &[], 0), Ok(20));
}

#[test]
fn quadratic_power_rounds_down() {
    let unit = VotingType::Quadratic { coefficient_micros: 1_000_000 };
    assert_eq!(unit.compute_base_power(&voter(2, 0), 0), Ok(1));
    assert_eq!(unit.compute_base_power(&voter(3, 0), 0), Ok(1));
    assert_eq!(unit.compute_base_power(&voter(4, 0), 0), Ok(2));
    assert_eq!(unit.compute_base_power(&voter(0, 0), 0), Ok(0));
    assert_eq!(unit.compute_base_power(&voter(u64::MAX, 0), 0), Ok(4_294_967_295));
    let one_and_a_half = VotingType::Quadratic { coefficient_micros: 1_500_000 };
    assert_eq!(one_and_a_half.compute_base_power(&voter(10, 0), 0), Ok(4));
    let half = VotingType::Quadratic { coefficient_micros: 500_000 };
    assert_eq!(half.compute_base_power(&voter(99, 0), 0), Ok(4));
    assert_eq!(half.compute_base_power(&voter(100, 0), 0), Ok(5));
    let third = VotingType::Quadratic { coefficient_micros: 333_333 };
    assert_eq!(third.compute_base_power(&voter(7, 0), 0), Ok(0));
}

#[test]
fn quadratic_power_at_the_ends_of_the_coefficient() {
    let zero = VotingType::Quadratic { coefficient_micros: 0 };
    assert_eq!(zero.compute_base_power(&voter(u64::MAX, 0), 0), Ok(0));
    let smallest = VotingType::Quadratic { coefficient_micros: 1 };
    assert_eq!(smallest.compute_base_power(&voter(1_000_000, 0), 0), Ok(0));
    assert_eq!(smallest.compute_base_power(&voter(1_000_000_000_000, 0), 0), Ok(1));
    let largest = VotingType::Quadratic { coefficient_micros: u32::MAX };
    assert_eq!(largest.compute_base_power(&voter(u64::MAX, 0), 0), Ok(18_446_744_069_414));
}

#[test]
fn delegated_power_counts_active_delegations_to_the_voter() {
    let policy = VotingType::TokenWeighted { min_balance: 0 };
    let delegations = [
        lent(2, 10, 100, false),
        lent(2, 20, 100, true),
        lent(3, 40, 100, false),
        lent(2, 80, 50, false),
        lent(2, 160, 51, false),
    ];
    assert_eq!(compute_power(&policy, &voter(1000, 0), &delegations, 50), Ok(1170));
    assert_eq!(compute_power(&policy, &voter(1000, 0), &delegations, 49), Ok(1250));
    assert_eq!(compute_power(&policy, &voter(1000, 0), &delegations, 100), Ok(1000));
    assert_eq!(compute_power(&policy, &voter(0, 0), &delegations, 0), Ok(250));
}

#[test]
fn delegated_power_adds_to_every_policy() {
    let delegations = [lent(2, 500, 100, false)];
    let quadratic = VotingType::Quadratic { coefficient_micros: 2_000_000 };
    assert_eq!(compute_power(&quadratic, &voter(100, 0), &delegations, 0), Ok(520));
    let time_lock = VotingType::TimeLockWeighted { min_lock_duration: 10 };
    assert_eq!(compute_power(&time_lock, &voter(100, 0), &delegations, 60), Ok(560));
}

#[test]
fn power_that_does_not_fit_is_refused() {
    let policy = VotingType::TokenWeighted { min_balance: 0 };
    assert_eq!(
        compute_power(&policy, &voter(u64::MAX, 0), &[lent(2, 1, 100, false)], 0),
        Err(ErrorCode::Overflow)
    );
    assert_eq!(
        compute_power(&policy, &voter(u64::MAX - 1, 0), &[lent(2, 1, 100, false)], 0),
        Ok(u64::MAX)
    );
    assert_eq!(
        compute_power(&policy, &voter(u64::MAX, 0), &[lent(2, 1, 100, true), lent(3, 1, 100, false)], 0),
        Ok(u64::MAX)
    );
    assert_eq!(
        compute_power(
            &policy,
            &voter(0, 0),
            &[lent(2, u64::MAX, 100, false), lent(2, 1, 100, false), lent(2, 5, 100, false)],
            0
        ),
        Err(ErrorCode::Overflow)
    );
}

#[test]
fn power_under_the_token_policy_stays_within_balance_plus_active_amounts() {
    let policy = VotingType::TokenWeighted { min_balance: 0 };
    let delegations = [lent(2, 10, 100, false), lent(2, 20, 100, true), lent(3, 40, 100, false)];
    let active: u64 = delegations
        .iter()
        .filter(|d| d.is_active_for(&id(2), 0))
        .map(|d| d.amount)
        .sum();
    assert_eq!(active, 10);
    let power = compute_power(&policy, &voter(7, 0), &delegations, 0).unwrap();
    assert!(power <= 7 + active);
    assert_eq!(power, 17);
}
