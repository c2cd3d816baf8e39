use stakegov::errors::Error;
use stakegov::governance::GovernanceAction;
use stakegov::governance::GovernanceEngine;
use stakegov::governance::ProposalCategory;
use stakegov::governance::ProposalStatus;

#[test]
fn test_governance_lifecycle() {
    let admin: u64 = 1;
    let emergency: u64 = 2;
    let proposer: u64 = 3;
    let voter1: u64 = 4;
    let voter2: u64 = 5;
    let token: u64 = 9;

    // Token powers the host would resolve: proposer 500, voter1 1000,
    // voter2 200.
    let mut gov = GovernanceEngine::init(admin, token, 100, emergency);

    let action = GovernanceAction::ParameterChange(String::from("fee"), 50);
    let prop_id = gov
        .create_proposal(
            proposer,
            500,
            action,
            ProposalCategory::ParameterUpdate,
            String::from("Increase fee to 50 bps"),
            0,
        )
        .unwrap();

    assert_eq!(prop_id, 1);

    let no_delegators: Vec<(u64, i128)> = vec![];
    gov.vote(voter1, 1000, prop_id, true, false, &no_delegators).unwrap();
    gov.vote(voter2, 200, prop_id, false, false, &no_delegators).unwrap();

    // The ledger sequence advances past the voting window, then the tally
    // queues the proposal.
    gov.queue(prop_id, 101, 0).unwrap();

    // The timestamp advances past the default execution timelock.
    gov.execute(prop_id, 101).unwrap();

    let prop = gov.get_proposal(prop_id).unwrap();
    if let ProposalStatus::Executed = prop.status {
    } else {
        panic!("Proposal should be executed");
    }
}

#[test]
fn test_quadratic_voting() {
    let admin: u64 = 1;
    let emergency: u64 = 2;
    let proposer: u64 = 3;
    let voter: u64 = 4;
    let token: u64 = 9;

    // Token powers: proposer 500, voter 400.
    let mut gov = GovernanceEngine::init(admin, token, 100, emergency);

    let action = GovernanceAction::FeeChange(100);
    let prop_id = gov
        .create_proposal(proposer, 500, action, ProposalCategory::FeeAdjustment, String::from(
            "Desc",
        ), 0)
        .unwrap();

    let no_delegators: Vec<(u64, i128)> = vec![];
    gov.vote(voter, 400, prop_id, true, true, &no_delegators).unwrap();

    gov.set_category_settings(admin, 1, 20, 50, 50).unwrap();

    gov.queue(prop_id, 51, 0).unwrap();
    let prop = gov.get_proposal(prop_id).unwrap();
    if let ProposalStatus::Queued = prop.status {
    } else {
        panic!("Proposal should be queued, power was {}", prop.total_votes_for);
    }
}

#[test]
fn test_delegation() {
    let admin: u64 = 1;
    let emergency: u64 = 2;
    let proposer: u64 = 3;
    let delegator: u64 = 4;
    let delegatee: u64 = 5;
    let token: u64 = 9;

    // Token powers: proposer 500, delegator 1000, delegatee 100.
    let mut gov = GovernanceEngine::init(admin, token, 100, emergency);

    gov.delegate(delegator, delegatee).unwrap();

    let action = GovernanceAction::FeeChange(100);
    let prop_id = gov
        .create_proposal(proposer, 500, action, ProposalCategory::FeeAdjustment, String::from(
            "Desc",
        ), 0)
        .unwrap();

    let delegators: Vec<(u64, i128)> = vec![(delegator, 1000)];
    gov.vote(delegatee, 100, prop_id, true, false, &delegators).unwrap();

    gov.set_category_settings(admin, 1, 1100, 50, 50).unwrap();

    gov.queue(prop_id, 51, 0).unwrap();
    let prop = gov.get_proposal(prop_id).unwrap();
    if let ProposalStatus::Queued = prop.status {
    } else {
        panic!("Proposal should be queued");
    }
}

#[test]
fn test_emergency_procedures() {
    let admin: u64 = 1;
    let emergency: u64 = 2;
    let token: u64 = 9;

    let gov = GovernanceEngine::init(admin, token, 100, emergency);

    let action = GovernanceAction::EmergencyAction;
    gov.emergency_action(emergency, &action).unwrap();
}

#[test]
fn quadratic_weighting_contributes_the_floor_square_root() {
    let admin: u64 = 1;
    let mut gov = GovernanceEngine::init(admin, 9, 0, 2);
    let prop_id = gov
        .create_proposal(3, 0, GovernanceAction::FeeChange(1), ProposalCategory::FeeAdjustment,
            String::from("q"), 0)
        .unwrap();
    let no_delegators: Vec<(u64, i128)> = vec![];
    // 400 base power under quadratic weighting contributes exactly
    // floor(sqrt(400)) = 20, not 400.
    gov.vote(4, 400, prop_id, true, true, &no_delegators).unwrap();
    let prop = gov.get_proposal(prop_id).unwrap();
    assert_eq!(prop.total_votes_for, 20);
    // A non-square power rounds down: floor(sqrt(401)) is still 20.
    gov.vote(5, 401, prop_id, true, true, &no_delegators).unwrap();
    let prop = gov.get_proposal(prop_id).unwrap();
    assert_eq!(prop.total_votes_for, 40);
}

#[test]
fn delegated_vote_adds_exactly_the_delegators_power() {
    let admin: u64 = 1;
    let mut gov = GovernanceEngine::init(admin, 9, 0, 2);
    let prop_id = gov
        .create_proposal(3, 0, GovernanceAction::FeeChange(1), ProposalCategory::FeeAdjustment,
            String::from("d"), 0)
        .unwrap();
    gov.delegate(6, 4).unwrap();
    let delegators: Vec<(u64, i128)> = vec![(6, 250)];
    gov.vote(4, 100, prop_id, true, false, &delegators).unwrap();
    let prop = gov.get_proposal(prop_id).unwrap();
    assert_eq!(prop.total_votes_for, 350);

    // An address in the list that never delegated to the voter fails the
    // whole ballot.
    let bad: Vec<(u64, i128)> = vec![(7, 10)];
    assert_eq!(
        gov.vote(5, 100, prop_id, true, false, &bad),
        Err(Error::InvalidDelegator)
    );
}

#[test]
fn vote_and_lifecycle_validation() {
    let admin: u64 = 1;
    let mut gov = GovernanceEngine::init(admin, 9, 100, 2);
    let no_delegators: Vec<(u64, i128)> = vec![];

    // Too little power to propose.
    assert_eq!(
        gov.create_proposal(3, 99, GovernanceAction::FeeChange(1),
            ProposalCategory::FeeAdjustment, String::from("x"), 0),
        Err(Error::InsufficientProposalPower)
    );

    let prop_id = gov
        .create_proposal(3, 100, GovernanceAction::FeeChange(1), ProposalCategory::FeeAdjustment,
            String::from("x"), 0)
        .unwrap();

    assert_eq!(gov.vote(4, 10, 9, true, false, &no_delegators), Err(Error::UnknownProposal));
    gov.vote(4, 10, prop_id, true, false, &no_delegators).unwrap();
    assert_eq!(
        gov.vote(4, 10, prop_id, true, false, &no_delegators),
        Err(Error::AlreadyVoted)
    );

    assert_eq!(gov.delegate(4, 4), Err(Error::SelfDelegation));
    assert_eq!(gov.set_category_settings(4, 1, 0, 0, 0), Err(Error::NotAuthorized));

    // The voting window is still open.
    assert_eq!(gov.queue(prop_id, 49, 0), Err(Error::VotingPeriodNotEnded));
    assert_eq!(gov.queue(9, 60, 0), Err(Error::UnknownProposal));
    assert_eq!(gov.execute(prop_id, 0), Err(Error::ProposalNotActive));

    // Only 10 power voted: the default quorum of 100 defeats the proposal.
    let outcome = gov.queue(prop_id, 60, 0).unwrap();
    assert_eq!(outcome, ProposalStatus::Defeated);
    assert_eq!(
        gov.vote(5, 10, prop_id, true, false, &no_delegators),
        Err(Error::ProposalNotActive)
    );
    assert_eq!(gov.queue(prop_id, 60, 0), Err(Error::ProposalNotActive));
}

#[test]
fn execute_respects_the_category_timelock() {
    let admin: u64 = 1;
    let mut gov = GovernanceEngine::init(admin, 9, 0, 2);
    gov.set_category_settings(admin, 1, 5, 50, 1000).unwrap();
    let prop_id = gov
        .create_proposal(3, 0, GovernanceAction::FeeChange(1), ProposalCategory::FeeAdjustment,
            String::from("t"), 0)
        .unwrap();
    let no_delegators: Vec<(u64, i128)> = vec![];
    gov.vote(4, 10, prop_id, true, false, &no_delegators).unwrap();

    let outcome = gov.queue(prop_id, 50, 200).unwrap();
    assert_eq!(outcome, ProposalStatus::Queued);

    // Queued at t = 200 under a 1000 second timelock: too early at 1199.
    assert_eq!(gov.execute(prop_id, 1199), Err(Error::TimelockNotExpired));
    gov.execute(prop_id, 1200).unwrap();
    let prop = gov.get_proposal(prop_id).unwrap();
    assert_eq!(prop.status, ProposalStatus::Executed);
    // A finished proposal cannot run twice.
    assert_eq!(gov.execute(prop_id, 1300), Err(Error::ProposalNotActive));
}

#[test]
fn cancel_proposal_needs_the_proposer_or_admin() {
    let admin: u64 = 1;
    let proposer: u64 = 3;
    let mut gov = GovernanceEngine::init(admin, 9, 0, 2);
    let prop_id = gov
        .create_proposal(proposer, 0, GovernanceAction::FeeChange(1),
            ProposalCategory::FeeAdjustment, String::from("c"), 0)
        .unwrap();

    assert_eq!(gov.cancel_proposal(5, prop_id), Err(Error::NotAuthorized));
    assert_eq!(gov.cancel_proposal(proposer, 9), Err(Error::UnknownProposal));
    gov.cancel_proposal(proposer, prop_id).unwrap();
    let prop = gov.get_proposal(prop_id).unwrap();
    assert_eq!(prop.status, ProposalStatus::Cancelled);
    assert_eq!(gov.cancel_proposal(admin, prop_id), Err(Error::ProposalNotActive));
}

#[test]
fn emergency_action_is_gated_on_the_emergency_identity() {
    let gov = GovernanceEngine::init(1, 9, 100, 2);
    let action = GovernanceAction::EmergencyAction;
    assert_eq!(gov.emergency_action(3, &action), Err(Error::NotAuthorized));
    gov.emergency_action(2, &action).unwrap();
}
