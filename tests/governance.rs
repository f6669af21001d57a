use governance::account::Account;
use governance::governance::{GovernError, GovernorBravo, ProposalState, VoteType};

fn acct(b: u8) -> Account {
    Account::from_bytes(&[b])
}

fn governor(quorum: u64, delay: u64, period: u64, threshold: u64, timelock_delay: u64) -> GovernorBravo {
    let mut g = GovernorBravo::empty();
    g.initialize(acct(1), "Test".to_string(), quorum, delay, period, threshold, timelock_delay, acct(9));
    g
}

fn propose_at(g: &mut GovernorBravo, who: u8, votes: u64, now: u64) -> Result<usize, GovernError> {
    g.propose(
        acct(who),
        votes,
        "title".to_string(),
        "a description".to_string(),
        acct(7),
        "run".to_string(),
        vec![1, 2, 3],
        0,
        now,
    )
}

#[test]
fn proposal_passes_with_quorum() {
    let mut g = governor(5_000, 10, 100, 5_000, 50);
    let id = propose_at(&mut g, 2, 10_000, 1_000).unwrap();
    assert_eq!(id, 0);
    assert_eq!(g.get_state(id, 1_000), Ok(ProposalState::Pending));
    assert_eq!(g.get_state(id, 1_010), Ok(ProposalState::Active));
    let r = g.cast_vote(id, VoteType::Support, 5_001, None, acct(3), 1_010).unwrap();
    assert_eq!(r.votes, 5_001);
    assert_eq!(g.get_state(id, 1_110), Ok(ProposalState::Succeeded));
}

#[test]
fn proposal_defeated_below_quorum() {
    let mut g = governor(5_001, 10, 100, 5_000, 50);
    let id = propose_at(&mut g, 2, 10_000, 1_000).unwrap();
    g.cast_vote(id, VoteType::Support, 5_000, None, acct(3), 1_010).unwrap();
    assert_eq!(g.get_state(id, 1_110), Ok(ProposalState::Defeated));
}

#[test]
fn defeated_when_support_does_not_beat_against() {
    let mut g = governor(100, 10, 100, 5_000, 50);
    let id = propose_at(&mut g, 2, 10_000, 1_000).unwrap();
    g.cast_vote(id, VoteType::Support, 500, None, acct(3), 1_010).unwrap();
    g.cast_vote(id, VoteType::Against, 500, None, acct(4), 1_011).unwrap();
    g.cast_vote(id, VoteType::Abstain, 900, None, acct(5), 1_012).unwrap();
    assert_eq!(g.get_state(id, 1_110), Ok(ProposalState::Defeated));
    let info = g.get_proposal(id).unwrap();
    assert_eq!((info.support_votes, info.against_votes, info.abstain_votes), (500, 500, 900));
}

fn succeeded() -> (GovernorBravo, usize) {
    let mut g = governor(5_000, 10, 100, 5_000, 50);
    let id = propose_at(&mut g, 2, 10_000, 1_000).unwrap();
    g.cast_vote(id, VoteType::Support, 6_000, None, acct(3), 1_010).unwrap();
    (g, id)
}

#[test]
fn queue_then_execute_after_timelock() {
    let (mut g, id) = succeeded();
    let eta = g.queue(id, 1_110).unwrap();
    assert_eq!(eta, 1_160);
    assert_eq!(g.get_state(id, 1_120), Ok(ProposalState::Queued));
    assert_eq!(g.pre_execute(id, 1_159), Err(GovernError::TooEarly));
    assert_eq!(g.get_state(id, 1_159), Ok(ProposalState::Queued));
    assert_eq!(g.pre_execute(id, 1_160), Ok(()));
    assert_eq!(g.get_state(id, 1_160), Ok(ProposalState::Executing));
    assert!(!g.timelock.contains(&g.get_task(id).unwrap()));
    assert_eq!(g.post_execute(id, true, 1_161), Ok(()));
    assert_eq!(g.get_state(id, 1_161), Ok(ProposalState::Executed));
}

#[test]
fn failed_execution_requeues_task() {
    let (mut g, id) = succeeded();
    g.queue(id, 1_110).unwrap();
    g.pre_execute(id, 1_200).unwrap();
    assert_eq!(g.post_execute(id, false, 1_201), Ok(()));
    assert_eq!(g.get_state(id, 1_201), Ok(ProposalState::Executing));
    assert!(g.timelock.contains(&g.get_task(id).unwrap()));
}

#[test]
fn queue_requires_succeeded() {
    let mut g = governor(5_000, 10, 100, 5_000, 50);
    let id = propose_at(&mut g, 2, 10_000, 1_000).unwrap();
    assert_eq!(g.queue(id, 1_005), Err(GovernError::NotSucceeded));
    assert_eq!(g.queue(id, 1_050), Err(GovernError::NotSucceeded));
    assert_eq!(g.queue(5, 1_050), Err(GovernError::InvalidProposalId));
}

#[test]
fn execute_requires_queued() {
    let (mut g, id) = succeeded();
    assert_eq!(g.pre_execute(id, 1_110), Err(GovernError::NotQueued));
    assert_eq!(g.post_execute(id, true, 1_110), Err(GovernError::NotExecuting));
}

#[test]
fn queued_task_expires_after_grace_period() {
    let (mut g, id) = succeeded();
    let eta = g.queue(id, 1_110).unwrap();
    let late = eta + governance::timelock::GRACE_PERIOD + 1;
    assert_eq!(g.get_state(id, late - 1), Ok(ProposalState::Queued));
    assert_eq!(g.get_state(id, late), Ok(ProposalState::Expired));
    assert_eq!(g.pre_execute(id, late), Err(GovernError::NotQueued));
}

#[test]
fn cancel_by_others_needs_proposer_below_threshold() {
    let mut g = governor(5_000, 10, 100, 5_000, 50);
    let id = propose_at(&mut g, 2, 10_000, 1_000).unwrap();
    assert_eq!(g.cancel(id, 1_020, &acct(3), 5_001), Err(GovernError::Unauthorized));
    assert_eq!(g.get_state(id, 1_020), Ok(ProposalState::Active));
    assert_eq!(g.cancel(id, 1_020, &acct(3), 5_000), Ok(()));
    assert_eq!(g.get_state(id, 1_020), Ok(ProposalState::Canceled));
}

#[test]
fn cancel_queued_proposal_by_proposer() {
    let (mut g, id) = succeeded();
    g.queue(id, 1_110).unwrap();
    let task = g.get_task(id).unwrap();
    assert!(g.timelock.contains(&task));
    assert_eq!(g.cancel(id, 1_120, &acct(2), 99_999), Ok(()));
    assert_eq!(g.get_state(id, 1_120), Ok(ProposalState::Canceled));
    assert!(!g.timelock.contains(&task));
}

#[test]
fn cancel_refused_once_executing() {
    let (mut g, id) = succeeded();
    g.queue(id, 1_110).unwrap();
    g.pre_execute(id, 1_170).unwrap();
    assert_eq!(g.cancel(id, 1_171, &acct(2), 0), Err(GovernError::CannotCancel));
    assert_eq!(g.cancel(id, 1_171, &acct(3), 5_001), Err(GovernError::Unauthorized));
    assert_eq!(g.cancel(id, 1_171, &acct(3), 5_000), Err(GovernError::CannotCancel));
    g.post_execute(id, true, 1_172).unwrap();
    assert_eq!(g.cancel(id, 1_173, &acct(2), 0), Err(GovernError::CannotCancel));
}

#[test]
fn propose_needs_votes_above_threshold() {
    let mut g = governor(1_000, 10, 100, 5_001, 50);
    assert_eq!(propose_at(&mut g, 2, 5_000, 1_000), Err(GovernError::BelowThreshold));
    assert_eq!(propose_at(&mut g, 2, 5_001, 1_000), Err(GovernError::BelowThreshold));
    assert_eq!(propose_at(&mut g, 2, 5_002, 1_000), Ok(0));
}

#[test]
fn one_live_proposal_per_proposer() {
    let mut g = governor(5_000, 10, 100, 5_000, 50);
    let id = propose_at(&mut g, 2, 10_000, 1_000).unwrap();
    assert_eq!(propose_at(&mut g, 2, 10_000, 1_001), Err(GovernError::AlreadyHasLiveProposal));
    assert_eq!(propose_at(&mut g, 2, 10_000, 1_050), Err(GovernError::AlreadyHasLiveProposal));
    assert_eq!(propose_at(&mut g, 3, 10_000, 1_050), Ok(1));
    assert_eq!(g.get_state(id, 1_200), Ok(ProposalState::Defeated));
    assert_eq!(propose_at(&mut g, 2, 10_000, 1_200), Ok(2));
}

#[test]
fn propose_times_that_overflow_are_refused() {
    let mut g = governor(5_000, 10, 100, 5_000, 50);
    assert_eq!(propose_at(&mut g, 2, 10_000, u64::MAX - 50), Err(GovernError::Overflow));
    assert_eq!(g.get_proposal_pages(0, 10, 0).unwrap().len(), 0);
}

#[test]
fn vote_rules() {
    let mut g = governor(5_000, 10, 100, 5_000, 50);
    let id = propose_at(&mut g, 2, 10_000, 1_000).unwrap();
    assert_eq!(g.cast_vote(id, VoteType::Support, 1, None, acct(3), 1_000), Err(GovernError::VotingClosed));
    g.cast_vote(id, VoteType::Support, 10, None, acct(3), 1_010).unwrap();
    assert_eq!(g.cast_vote(id, VoteType::Against, 10, None, acct(3), 1_011), Err(GovernError::AlreadyVoted));
    assert_eq!(g.cast_vote(id, VoteType::Support, u64::MAX, None, acct(4), 1_011), Err(GovernError::Overflow));
    assert_eq!(g.cast_vote(id, VoteType::Support, 1, None, acct(4), 1_110), Err(GovernError::VotingClosed));
    assert_eq!(g.cast_vote(9, VoteType::Support, 1, None, acct(4), 1_011), Err(GovernError::InvalidProposalId));
    assert_eq!(g.get_proposal(id).unwrap().support_votes, 10);
}

#[test]
fn texts_read_back_from_the_log() {
    let mut g = governor(5_000, 10, 100, 5_000, 50);
    let id = g
        .propose(acct(2), 10_000, "T".to_string(), "héllo wörld".to_string(), acct(7), "m".to_string(), vec![], 5, 1_000)
        .unwrap();
    let info = g.get_proposal(id).unwrap();
    assert_eq!(info.description, "héllo wörld");
    assert_eq!(info.title, "T");
    assert_eq!(info.task.cycles, 5);
    g.cast_vote(id, VoteType::Abstain, 3, Some("because".to_string()), acct(3), 1_010).unwrap();
    let rec = g.get_receipt(id, &acct(3)).unwrap();
    assert_eq!(rec.reason, Some("because".to_string()));
    assert_eq!(rec.vote_type, VoteType::Abstain);
    assert_eq!(rec.votes, 3);
    assert_eq!(g.get_receipt(id, &acct(4)).unwrap_err(), GovernError::ReceiptNotFound);
    assert_eq!(g.get_receipt(1, &acct(3)).unwrap_err(), GovernError::InvalidProposalId);
    assert_eq!(g.digest().log_size, "héllo wörld".len() + "because".len());
}

#[test]
fn proposal_id_bounds() {
    let mut g = governor(5_000, 10, 100, 5_000, 50);
    assert_eq!(g.get_state(0, 0), Err(GovernError::InvalidProposalId));
    propose_at(&mut g, 2, 10_000, 1_000).unwrap();
    assert_eq!(g.get_state(0, 0), Ok(ProposalState::Pending));
    assert_eq!(g.get_state(1, 0), Err(GovernError::InvalidProposalId));
    assert!(g.get_proposal(1).is_err());
    assert!(g.get_task(1).is_err());
    assert!(g.get_receipt_pages(1, 0, 10).is_err());
}

#[test]
fn proposal_pages_newest_first() {
    let mut g = governor(5_000, 10, 100, 5_000, 50);
    for who in 0..5u8 {
        propose_at(&mut g, 10 + who, 10_000, 1_000 + who as u64).unwrap();
    }
    let page = g.get_proposal_pages(0, 2, 1_000).unwrap();
    assert_eq!(page.iter().map(|(d, _)| d.id).collect::<Vec<_>>(), vec![4, 3]);
    let page = g.get_proposal_pages(2, 2, 1_000).unwrap();
    assert_eq!(page.iter().map(|(d, _)| d.id).collect::<Vec<_>>(), vec![0]);
    assert_eq!(page[0].1, ProposalState::Pending);
    assert!(g.get_proposal_pages(3, 2, 1_000).unwrap().is_empty());
    assert!(g.get_proposal_pages(usize::MAX, 2, 1_000).unwrap().is_empty());
}

#[test]
fn receipt_pages_in_voting_order() {
    let mut g = governor(5_000, 10, 100, 5_000, 50);
    let id = propose_at(&mut g, 2, 10_000, 1_000).unwrap();
    for who in 20..25u8 {
        g.cast_vote(id, VoteType::Support, who as u64, None, acct(who), 1_010).unwrap();
    }
    let page = g.get_receipt_pages(id, 1, 2).unwrap();
    assert_eq!(page.len(), 2);
    assert_eq!(page[0].0.as_bytes(), &[22u8]);
    assert_eq!(page[1].1.votes, 23);
    assert!(g.get_receipt_pages(id, 5, 2).unwrap().is_empty());
    assert_eq!(g.get_proposal_pages(0, 1, 1_010).unwrap()[0].0.receipt_num, 5);
}

#[test]
fn states_follow_lifecycle_over_time() {
    let (mut g, id) = succeeded();
    g.queue(id, 1_110).unwrap();
    let seen: Vec<ProposalState> =
        [1_000u64, 1_010, 1_160, u64::MAX].iter().map(|t| g.get_state(id, *t).unwrap()).collect();
    assert_eq!(
        seen,
        vec![ProposalState::Pending, ProposalState::Active, ProposalState::Queued, ProposalState::Expired]
    );
}

#[test]
fn admin_handover() {
    let mut g = governor(5_000, 10, 100, 5_000, 50);
    assert!(g.is_admin(&acct(1)));
    assert_eq!(g.accept_admin(&acct(5)), Err(GovernError::Unauthorized));
    g.set_pending_admin(acct(5));
    assert_eq!(g.accept_admin(&acct(6)), Err(GovernError::Unauthorized));
    assert_eq!(g.accept_admin(&acct(5)), Ok(()));
    assert!(g.is_admin(&acct(5)));
    assert!(g.pending_admin.is_none());
}

#[test]
fn configuration_setters_and_initialize_once() {
    let mut g = governor(5_000, 10, 100, 5_000, 50);
    g.initialize(acct(2), "Other".to_string(), 1, 1, 1, 1, 1, acct(2));
    assert_eq!(g.digest().quorum_votes, 5_000);
    g.set_quorum_votes(7);
    g.set_vote_delay(8);
    g.set_vote_period(9);
    g.set_proposal_threshold(10);
    g.set_timelock_delay(11);
    let d = g.digest();
    assert_eq!((d.quorum_votes, d.voting_delay, d.voting_period, d.proposal_threshold), (7, 8, 9, 10));
    assert_eq!(g.timelock.delay(), 11);
    assert_eq!(d.name, "Test");
    assert_eq!(d.proposals_num, 0);
}

#[test]
fn default_governor_runs_a_proposal() {
    let mut g = GovernorBravo::default();
    g.initialize(acct(1), "G".to_string(), 5_000, 100, 1_000, 5_000, 10, acct(9));
    assert_eq!(propose_at(&mut g, 2, 10_000, 1_000), Ok(0));
    assert_eq!(g.get_state(0, 1_000), Ok(ProposalState::Pending));
    assert_eq!(g.get_state(0, 1_100), Ok(ProposalState::Active));
    g.cast_vote(0, VoteType::Support, 5_001, None, acct(3), 1_100).unwrap();
    assert_eq!(g.get_state(0, 2_100), Ok(ProposalState::Succeeded));
}
