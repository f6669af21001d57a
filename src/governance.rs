use vstd::prelude::*;
use vstd::utf8::*;
use crate::account::Account;
use crate::account_map::AccountMap;
use crate::stable::{Position, StableMemory};
use crate::timelock::{GRACE_PERIOD, ONE_DAY, Task, TaskModel, Timelock, TimelockError};

verus! {

broadcast use {encode_utf8_valid_utf8, encode_utf8_decode_utf8};

/// Recommended least proposal threshold: 50,000 tokens of 8 decimals.
pub const MIN_PROPOSAL_THRESHOLD: u64 = 5_000_000_000_000;

/// Recommended greatest proposal threshold: 100,000 tokens of 8 decimals.
pub const MAX_PROPOSAL_THRESHOLD: u64 = 10_000_000_000_000;

/// Recommended least voting period: 1 day.
pub const MIN_VOTING_PERIOD: u64 = ONE_DAY;

/// Recommended greatest voting period: 14 days.
pub const MAX_VOTING_PERIOD: u64 = 1_209_600_000_000_000;

/// Recommended least voting delay: 1 ns.
pub const MIN_VOTING_DELAY: u64 = 1;

/// Recommended greatest voting delay: 7 days.
pub const MAX_VOTING_DELAY: u64 = 604_800_000_000_000;

/// Where a proposal stands in its lifecycle.
#[derive(Clone, Copy, Debug, PartialEq, Eq, Structural)]
pub enum ProposalState {
    Pending,
    Active,
    Canceled,
    Defeated,
    Succeeded,
    Queued,
    Executing,
    Executed,
    Expired,
}

/// How a ballot counts.
#[derive(Clone, Copy, Debug, PartialEq, Eq, Structural)]
pub enum VoteType {
    Support,
    Against,
    Abstain,
}

/// Why a governance operation was refused. A refused operation changes nothing.
#[derive(Clone, Copy, Debug, PartialEq, Eq, Structural)]
pub enum GovernError {
    /// The caller may not do this.
    Unauthorized,
    /// The proposer's votes do not exceed the proposal threshold.
    BelowThreshold,
    /// No proposal has this id.
    InvalidProposalId,
    /// The proposer already has a pending, active or executing proposal.
    AlreadyHasLiveProposal,
    /// The proposal is not active.
    VotingClosed,
    /// The voter has already voted on this proposal.
    AlreadyVoted,
    /// Only a succeeded proposal can be queued.
    NotSucceeded,
    /// Only a queued proposal can start executing; or its task is not in the timelock.
    NotQueued,
    /// Only an executing proposal can finish executing.
    NotExecuting,
    /// An executing or executed proposal cannot be canceled.
    CannotCancel,
    /// The task's `eta` has not come.
    TooEarly,
    /// The task's grace period has passed.
    Stale,
    /// A time or a tally would pass `u64::MAX`.
    Overflow,
    /// The text log could not hold the text, or the text could not be read back.
    StorageError,
    /// The voter has no receipt on this proposal.
    ReceiptNotFound,
}

/// A voter's ballot on one proposal.
#[derive(Clone, Copy, Debug, PartialEq, Eq, Structural)]
pub struct Receipt {
    /// Whether the voter supports, opposes or abstains.
    pub vote_type: VoteType,
    /// The weight counted, fixed when cast.
    pub votes: u64,
    /// Where the voter's reason is in the text log, if one was given.
    pub reason: Option<Position>,
}

/// A ballot with its reason as text.
#[derive(Clone, Debug)]
pub struct ReceiptInfo {
    pub vote_type: VoteType,
    pub votes: u64,
    pub reason: Option<String>,
}

/// A ballot without its reason.
#[derive(Clone, Copy, Debug, PartialEq, Eq, Structural)]
pub struct ReceiptDigest {
    pub vote_type: VoteType,
    pub votes: u64,
}

impl Receipt {
    pub fn new(vote_type: VoteType, votes: u64, reason: Option<Position>) -> (r: Receipt)
        ensures
            r == (Receipt { vote_type, votes, reason }),
    {
        Receipt { vote_type, votes, reason }
    }

    pub fn digest(&self) -> (r: ReceiptDigest)
        ensures
            r == (ReceiptDigest { vote_type: self.vote_type, votes: self.votes }),
    {
        ReceiptDigest { vote_type: self.vote_type, votes: self.votes }
    }

    pub fn to_info(&self, reason: Option<String>) -> (r: ReceiptInfo)
        ensures
            r.vote_type == self.vote_type,
            r.votes == self.votes,
            r.reason == reason,
    {
        ReceiptInfo { vote_type: self.vote_type, votes: self.votes, reason }
    }
}

/// A proposal: who made it, what it would run, when it is voted on, and the tally.
pub struct Proposal {
    /// Its index in the sequence of proposals.
    pub id: usize,
    pub proposer: Account,
    pub title: String,
    /// Where its description is in the text log.
    pub description: Position,
    pub task: Task,
    /// Voting opens at this time.
    pub start_time: u64,
    /// Voting closes at this time.
    pub end_time: u64,
    pub support_votes: u64,
    pub against_votes: u64,
    pub abstain_votes: u64,
    pub canceled: bool,
    pub executing: bool,
    pub executed: bool,
    /// One ballot per voter.
    pub receipts: AccountMap<Receipt>,
}

/// A proposal with its description as text, without its ballots.
#[derive(Clone, Debug)]
pub struct ProposalInfo {
    pub id: usize,
    pub proposer: Account,
    pub title: String,
    pub description: String,
    pub task: Task,
    pub start_time: u64,
    pub end_time: u64,
    pub support_votes: u64,
    pub against_votes: u64,
    pub abstain_votes: u64,
    pub canceled: bool,
    pub executing: bool,
    pub executed: bool,
}

/// A proposal's headline fields and its number of voters.
#[derive(Clone, Debug)]
pub struct ProposalDigest {
    pub id: usize,
    pub proposer: Account,
    pub title: String,
    pub start_time: u64,
    pub end_time: u64,
    pub support_votes: u64,
    pub against_votes: u64,
    pub abstain_votes: u64,
    pub receipt_num: usize,
}

/// The state of proposal `p` at time `now` under quorum `quorum`; the first rule that applies wins.
pub open spec fn state_of(p: &Proposal, quorum: u64, now: u64) -> ProposalState {
    if p.canceled {
        ProposalState::Canceled
    } else if now < p.start_time {
        ProposalState::Pending
    } else if now < p.end_time {
        ProposalState::Active
    } else if p.support_votes <= p.against_votes || p.support_votes < quorum {
        ProposalState::Defeated
    } else if p.task.eta == 0 {
        ProposalState::Succeeded
    } else if p.executed {
        ProposalState::Executed
    } else if p.executing {
        ProposalState::Executing
    } else if now > p.task.eta + GRACE_PERIOD {
        ProposalState::Expired
    } else {
        ProposalState::Queued
    }
}

/// One edge of the lifecycle.
pub open spec fn step(a: ProposalState, b: ProposalState) -> bool {
    match a {
        ProposalState::Pending => b == ProposalState::Active || b == ProposalState::Canceled,
        ProposalState::Active => b == ProposalState::Defeated || b == ProposalState::Succeeded
            || b == ProposalState::Canceled,
        ProposalState::Succeeded => b == ProposalState::Queued || b == ProposalState::Canceled,
        ProposalState::Queued => b == ProposalState::Executing || b == ProposalState::Expired
            || b == ProposalState::Canceled,
        ProposalState::Executing => b == ProposalState::Executed,
        _ => false,
    }
}

/// `b` is `a`, or is reached from `a` along edges of the lifecycle.
pub open spec fn reaches(a: ProposalState, b: ProposalState) -> bool {
    ||| a == b
    ||| step(a, b)
    ||| exists|c: ProposalState| step(a, c) && step(c, b)
    ||| exists|c: ProposalState, d: ProposalState| step(a, c) && step(c, d) && step(d, b)
    ||| exists|c: ProposalState, d: ProposalState, e: ProposalState|
        step(a, c) && step(c, d) && step(d, e) && step(e, b)
    ||| exists|c: ProposalState, d: ProposalState, e: ProposalState, f: ProposalState|
        step(a, c) && step(c, d) && step(d, e) && step(e, f) && step(f, b)
}

/// Text in the log at `pos`: in range and valid UTF-8.
pub open spec fn text_at(log: Seq<u8>, pos: Position) -> bool {
    &&& pos.offset + pos.len <= log.len()
    &&& valid_utf8(log.subrange(pos.offset as int, pos.offset + pos.len))
}

/// The characters of the text at `pos`.
pub open spec fn text_of(log: Seq<u8>, pos: Position) -> Seq<char> {
    decode_utf8(log.subrange(pos.offset as int, pos.offset + pos.len))
}

/// Relies on `String::from_utf8`: it succeeds exactly on valid UTF-8, and then holds the decoded characters.
#[verifier::external_body]
fn string_from_utf8(b: Vec<u8>) -> (r: Option<String>)
    ensures
        r is Some <==> valid_utf8(b@),
        r matches Some(s) ==> s@ == decode_utf8(b@),
{
    String::from_utf8(b).ok()
}

/// Copies the UTF-8 bytes of `s`.
fn utf8_bytes(s: &String) -> (r: Vec<u8>)
    ensures
        r@ == encode_utf8(s@),
{
    let b: &[u8] = s.as_str().as_bytes();
    let mut r: Vec<u8> = Vec::new();
    let mut i: usize = 0;
    while i < b.len()
        invariant
            i <= b@.len(),
            r@ == b@.subrange(0, i as int),
        decreases b@.len() - i,
    {
        r.push(b[i]);
        i = i + 1;
        assert(r@ =~= b@.subrange(0, i as int));
    }
    assert(r@ =~= b@);
    r
}

/// Reads the text at `pos`, which the log holds.
fn read_text(log: &StableMemory, pos: &Position) -> (r: String)
    requires
        log.wf(),
        text_at(log@, *pos),
    ensures
        r@ == text_of(log@, *pos),
{
    match log.load(pos) {
        Ok(b) => match string_from_utf8(b) {
            Some(s) => s,
            None => String::new(),
        },
        Err(_) => String::new(),
    }
}

impl Proposal {
    /// A fresh proposal: no votes, no flags set, no ballots, its task not queued.
    pub fn new(
        id: usize,
        proposer: Account,
        title: String,
        description: Position,
        target: Account,
        method: String,
        arguments: Vec<u8>,
        cycles: u64,
        start_time: u64,
        end_time: u64,
    ) -> (r: Proposal)
        ensures
            r.wf(),
            r.id == id,
            r.proposer@ == proposer@,
            r.title@ == title@,
            r.description == description,
            r.task@ == (TaskModel { target: target@, method: method@, arguments: arguments@, cycles, eta: 0 }),
            r.start_time == start_time,
            r.end_time == end_time,
            r.support_votes == 0 && r.against_votes == 0 && r.abstain_votes == 0,
            !r.canceled && !r.executing && !r.executed,
            r.receipts@ == Map::<Seq<u8>, Receipt>::empty(),
            r.receipts.keys() == Seq::<Seq<u8>>::empty(),
    {
        Proposal {
            id,
            proposer,
            title,
            description,
            task: Task::new(target, method, arguments, cycles),
            start_time,
            end_time,
            support_votes: 0,
            against_votes: 0,
            abstain_votes: 0,
            canceled: false,
            executing: false,
            executed: false,
            receipts: AccountMap::new(),
        }
    }

    /// The ballot table is well formed, a task not yet queued has not run, and a task is
    /// only queued once voting has closed.
    pub open spec fn wf(&self) -> bool {
        &&& self.receipts.wf()
        &&& self.task.eta == 0 ==> !self.executing && !self.executed
        &&& self.task.eta != 0 ==> self.end_time <= self.task.eta
    }

    /// The proposal with `description` as its text.
    pub fn to_info(&self, description: String) -> (r: ProposalInfo)
        ensures
            r.id == self.id,
            r.proposer@ == self.proposer@,
            r.title@ == self.title@,
            r.description == description,
            r.task@ == self.task@,
            r.start_time == self.start_time,
            r.end_time == self.end_time,
            r.support_votes == self.support_votes,
            r.against_votes == self.against_votes,
            r.abstain_votes == self.abstain_votes,
            r.canceled == self.canceled,
            r.executing == self.executing,
            r.executed == self.executed,
    {
        ProposalInfo {
            id: self.id,
            proposer: self.proposer.duplicate(),
            title: self.title.clone(),
            description,
            task: self.task.duplicate(),
            start_time: self.start_time,
            end_time: self.end_time,
            support_votes: self.support_votes,
            against_votes: self.against_votes,
            abstain_votes: self.abstain_votes,
            canceled: self.canceled,
            executing: self.executing,
            executed: self.executed,
        }
    }

    pub fn digest(&self) -> (r: ProposalDigest)
        requires
            self.wf(),
        ensures
            digest_of(r, self),
    {
        ProposalDigest {
            id: self.id,
            proposer: self.proposer.duplicate(),
            title: self.title.clone(),
            start_time: self.start_time,
            end_time: self.end_time,
            support_votes: self.support_votes,
            against_votes: self.against_votes,
            abstain_votes: self.abstain_votes,
            receipt_num: self.receipts.len(),
        }
    }
}

/// `d` is the digest of `p`.
pub open spec fn digest_of(d: ProposalDigest, p: &Proposal) -> bool {
    &&& d.id == p.id
    &&& d.proposer@ == p.proposer@
    &&& d.title@ == p.title@
    &&& d.start_time == p.start_time
    &&& d.end_time == p.end_time
    &&& d.support_votes == p.support_votes
    &&& d.against_votes == p.against_votes
    &&& d.abstain_votes == p.abstain_votes
    &&& d.receipt_num == p.receipts.keys().len()
}

/// The governor: its configuration, every proposal ever made, the timelock and the text log.
pub struct GovernorBravo {
    pub admin: Account,
    pub pending_admin: Option<Account>,
    pub name: String,
    /// Support votes a proposal needs to pass.
    pub quorum_votes: u64,
    /// Time from proposing to the opening of the vote.
    pub voting_delay: u64,
    /// How long the vote stays open.
    pub voting_period: u64,
    /// Votes a proposer must exceed.
    pub proposal_threshold: u64,
    /// All proposals, indexed by id.
    pub proposals: Vec<Proposal>,
    /// Each proposer's latest proposal.
    pub latest_proposal_ids: AccountMap<usize>,
    pub initialized: bool,
    /// The ledger that votes are counted from.
    pub gov_token: Account,
    pub timelock: Timelock,
    /// Holds descriptions and reasons.
    pub stable_memory: StableMemory,
}

/// The governor's configuration and the number of proposals.
#[derive(Clone, Debug)]
pub struct GovernorBravoInfo {
    pub admin: Account,
    pub pending_admin: Option<Account>,
    pub name: String,
    pub quorum_votes: u64,
    pub voting_delay: u64,
    pub voting_period: u64,
    pub proposal_threshold: u64,
    pub proposals_num: usize,
    pub gov_token: Account,
    pub log_size: usize,
}

/// The ballots on `p` point at text in `log`.
pub open spec fn reasons_in(p: &Proposal, log: Seq<u8>) -> bool {
    forall|k: Seq<u8>| #[trigger] p.receipts@.contains_key(k) && p.receipts@[k].reason is Some
        ==> text_at(log, p.receipts@[k].reason->0)
}

/// A pending, active or executing proposal blocks its proposer from proposing again.
pub open spec fn is_live(s: ProposalState) -> bool {
    s == ProposalState::Pending || s == ProposalState::Active || s == ProposalState::Executing
}


/// A mutable borrow of proposal `i`.
fn proposal_mut(v: &mut Vec<Proposal>, i: usize) -> (r: &mut Proposal)
    requires
        i < old(v)@.len(),
    ensures
        *r == old(v)@[i as int],
        final(v)@ == old(v)@.update(i as int, *final(r)),
{
    &mut v[i]
}

/// Text stored earlier stays readable after the log grows.
proof fn lemma_text_kept(log: Seq<u8>, more: Seq<u8>, pos: Position)
    requires
        text_at(log, pos),
    ensures
        text_at(log + more, pos),
        text_of(log + more, pos) == text_of(log, pos),
{
    assert((log + more).subrange(pos.offset as int, pos.offset + pos.len)
        =~= log.subrange(pos.offset as int, pos.offset + pos.len));
}

/// Text appended at the end of the log reads back as written.
proof fn lemma_text_new(log: Seq<u8>, s: Seq<char>, pos: Position)
    requires
        pos.offset == log.len(),
        pos.len == encode_utf8(s).len(),
    ensures
        text_at(log + encode_utf8(s), pos),
        text_of(log + encode_utf8(s), pos) == s,
{
    assert((log + encode_utf8(s)).subrange(pos.offset as int, pos.offset + pos.len) =~= encode_utf8(s));
}

fn timelock_error(e: TimelockError) -> (r: GovernError)
    ensures
        e == TimelockError::NotQueued ==> r == GovernError::NotQueued,
        e == TimelockError::TooEarly ==> r == GovernError::TooEarly,
        e == TimelockError::Stale ==> r == GovernError::Stale,
{
    match e {
        TimelockError::NotQueued => GovernError::NotQueued,
        TimelockError::TooEarly => GovernError::TooEarly,
        TimelockError::Stale => GovernError::Stale,
    }
}

/// The tally that a ballot of type `t` adds to.
pub open spec fn tally(p: &Proposal, t: VoteType) -> u64 {
    match t {
        VoteType::Support => p.support_votes,
        VoteType::Against => p.against_votes,
        VoteType::Abstain => p.abstain_votes,
    }
}

/// Where a state can lead along the lifecycle, listed out.
proof fn lemma_reaches_cases(a: ProposalState, b: ProposalState)
    ensures
        reaches(a, b) <==> (a == b || match a {
            ProposalState::Pending => true,
            ProposalState::Active => b != ProposalState::Pending,
            ProposalState::Succeeded => b == ProposalState::Queued || b == ProposalState::Canceled
                || b == ProposalState::Executing || b == ProposalState::Executed || b == ProposalState::Expired,
            ProposalState::Queued => b == ProposalState::Executing || b == ProposalState::Expired
                || b == ProposalState::Canceled || b == ProposalState::Executed,
            ProposalState::Executing => b == ProposalState::Executed,
            _ => false,
        }),
{
    let (p, ac, s, q, ex, ed) = (ProposalState::Pending, ProposalState::Active, ProposalState::Succeeded,
        ProposalState::Queued, ProposalState::Executing, ProposalState::Executed);
    assert(step(p, ac) && step(ac, s) && step(s, q) && step(q, ex) && step(ex, ed));
    assert(step(ac, ProposalState::Defeated) && step(q, ProposalState::Expired) && step(p, ProposalState::Canceled));
    assert(step(ac, ProposalState::Canceled) && step(s, ProposalState::Canceled) && step(q, ProposalState::Canceled));
}

/// Following the lifecycle twice is following it once: states reached from a state
/// reached from `a` are reached from `a`.
pub proof fn lemma_reaches_trans(a: ProposalState, b: ProposalState, c: ProposalState)
    requires
        reaches(a, b),
        reaches(b, c),
    ensures
        reaches(a, c),
{
    lemma_reaches_cases(a, b);
    lemma_reaches_cases(b, c);
    lemma_reaches_cases(a, c);
}

/// As time passes, a proposal's state only moves along edges of the lifecycle.
pub proof fn lemma_state_over_time(p: &Proposal, quorum: u64, t1: u64, t2: u64)
    requires
        t1 <= t2,
    ensures
        reaches(state_of(p, quorum, t1), state_of(p, quorum, t2)),
{
    let a = state_of(p, quorum, t1);
    let b = state_of(p, quorum, t2);
    if a == ProposalState::Pending && b == ProposalState::Defeated {
        assert(step(a, ProposalState::Active) && step(ProposalState::Active, b));
    } else if a == ProposalState::Pending && b == ProposalState::Succeeded {
        assert(step(a, ProposalState::Active) && step(ProposalState::Active, b));
    } else if a == ProposalState::Pending && b == ProposalState::Queued {
        assert(step(a, ProposalState::Active) && step(ProposalState::Active, ProposalState::Succeeded)
            && step(ProposalState::Succeeded, b));
    } else if a == ProposalState::Pending && b == ProposalState::Executing {
        assert(step(a, ProposalState::Active) && step(ProposalState::Active, ProposalState::Succeeded)
            && step(ProposalState::Succeeded, ProposalState::Queued) && step(ProposalState::Queued, b));
    } else if a == ProposalState::Pending && b == ProposalState::Expired {
        assert(step(a, ProposalState::Active) && step(ProposalState::Active, ProposalState::Succeeded)
            && step(ProposalState::Succeeded, ProposalState::Queued) && step(ProposalState::Queued, b));
    } else if a == ProposalState::Pending && b == ProposalState::Executed {
        assert(step(a, ProposalState::Active) && step(ProposalState::Active, ProposalState::Succeeded)
            && step(ProposalState::Succeeded, ProposalState::Queued) && step(ProposalState::Queued, ProposalState::Executing)
            && step(ProposalState::Executing, b));
    } else if a == ProposalState::Active && b == ProposalState::Executed {
        assert(step(a, ProposalState::Succeeded) && step(ProposalState::Succeeded, ProposalState::Queued)
            && step(ProposalState::Queued, ProposalState::Executing) && step(ProposalState::Executing, b));
    } else if a == ProposalState::Active && b == ProposalState::Queued {
        assert(step(a, ProposalState::Succeeded) && step(ProposalState::Succeeded, b));
    } else if a == ProposalState::Active && b == ProposalState::Executing {
        assert(step(a, ProposalState::Succeeded) && step(ProposalState::Succeeded, ProposalState::Queued)
            && step(ProposalState::Queued, b));
    } else if a == ProposalState::Active && b == ProposalState::Expired {
        assert(step(a, ProposalState::Succeeded) && step(ProposalState::Succeeded, ProposalState::Queued)
            && step(ProposalState::Queued, b));
    }
}

/// A proposal seen as `p` at `t1` and left as `q` by an operation at `t2 >= t1`, which
/// itself moves along the lifecycle (as every operation of the governor states), has
/// moved along the lifecycle from its state at `t1`.
pub proof fn lemma_lifecycle(p: &Proposal, q: &Proposal, quorum: u64, t1: u64, t2: u64)
    requires
        t1 <= t2,
        reaches(state_of(p, quorum, t2), state_of(q, quorum, t2)),
    ensures
        reaches(state_of(p, quorum, t1), state_of(q, quorum, t2)),
{
    lemma_state_over_time(p, quorum, t1, t2);
    lemma_reaches_trans(state_of(p, quorum, t1), state_of(p, quorum, t2), state_of(q, quorum, t2));
}

impl GovernorBravo {
    /// Ids match positions, tables are well formed, and every stored text is in the log.
    pub open spec fn wf(&self) -> bool {
        &&& forall|i: int| 0 <= i < self.proposals@.len() ==> {
            &&& (#[trigger] self.proposals@[i]).id == i
            &&& self.proposals@[i].wf()
            &&& text_at(self.stable_memory@, self.proposals@[i].description)
            &&& reasons_in(&self.proposals@[i], self.stable_memory@)
        }
        &&& self.latest_proposal_ids.wf()
        &&& forall|k: Seq<u8>| #[trigger] self.latest_proposal_ids@.contains_key(k)
            ==> self.latest_proposal_ids@[k] < self.proposals@.len()
        &&& self.timelock.wf()
        &&& self.stable_memory.wf()
    }

    /// The state of proposal `id` at time `now`.
    pub open spec fn spec_state(&self, id: int, now: u64) -> ProposalState {
        state_of(&self.proposals@[id], self.quorum_votes, now)
    }

    /// Whether `proposer` has a live latest proposal at `now`.
    pub open spec fn has_live(&self, proposer: Seq<u8>, now: u64) -> bool {
        &&& self.latest_proposal_ids@.contains_key(proposer)
        &&& is_live(self.spec_state(self.latest_proposal_ids@[proposer] as int, now))
    }

    /// A governor with no proposals and an anonymous admin, not yet initialized.
    pub fn empty() -> (r: GovernorBravo)
        ensures
            r.wf(),
            r.proposals@.len() == 0,
            !r.initialized,
            r.admin@ == seq![4u8],
            r.pending_admin is None,
            r.name@ == Seq::<char>::empty(),
            r.quorum_votes == 0 && r.voting_delay == 0 && r.voting_period == 0 && r.proposal_threshold == 0,
            r.latest_proposal_ids@ == Map::<Seq<u8>, usize>::empty(),
            r.gov_token@ == seq![4u8],
            r.timelock.spec_delay() == 0,
            r.timelock.tasks() == Set::<TaskModel>::empty(),
            r.stable_memory@ == Seq::<u8>::empty(),
            r.stable_memory.pages() == 0,
    {
        GovernorBravo {
            admin: Account::anonymous(),
            pending_admin: None,
            name: String::new(),
            quorum_votes: 0,
            voting_delay: 0,
            voting_period: 0,
            proposal_threshold: 0,
            proposals: Vec::new(),
            latest_proposal_ids: AccountMap::new(),
            initialized: false,
            gov_token: Account::anonymous(),
            timelock: Timelock::new(0),
            stable_memory: StableMemory::empty(),
        }
    }

    /// Sets the configuration, once; later calls change nothing.
    pub fn initialize(
        &mut self,
        admin: Account,
        name: String,
        quorum_votes: u64,
        voting_delay: u64,
        voting_period: u64,
        proposal_threshold: u64,
        timelock_delay: u64,
        gov_token: Account,
    )
        requires
            old(self).wf(),
        ensures
            final(self).wf(),
            old(self).initialized ==> *final(self) == *old(self),
            !old(self).initialized ==> {
                &&& final(self).initialized
                &&& final(self).admin@ == admin@
                &&& final(self).name@ == name@
                &&& final(self).quorum_votes == quorum_votes
                &&& final(self).voting_delay == voting_delay
                &&& final(self).voting_period == voting_period
                &&& final(self).proposal_threshold == proposal_threshold
                &&& final(self).timelock.spec_delay() == timelock_delay
                &&& final(self).timelock.tasks() == old(self).timelock.tasks()
                &&& final(self).gov_token@ == gov_token@
                &&& *final(self) == (GovernorBravo {
                    initialized: true,
                    admin: final(self).admin,
                    name: final(self).name,
                    quorum_votes,
                    voting_delay,
                    voting_period,
                    proposal_threshold,
                    gov_token: final(self).gov_token,
                    timelock: final(self).timelock,
                    ..*old(self)
                })
            },
    {
        if self.initialized {
            return;
        }
        self.initialized = true;
        self.admin = admin;
        self.name = name;
        self.quorum_votes = quorum_votes;
        self.voting_delay = voting_delay;
        self.voting_period = voting_period;
        self.proposal_threshold = proposal_threshold;
        self.gov_token = gov_token;
        self.timelock.set_delay(timelock_delay);
    }

    /// The log grows: every text stored so far stays where it was.
    proof fn lemma_log_grows(&self, more: Seq<u8>)
        requires
            self.wf(),
        ensures
            forall|i: int| 0 <= i < self.proposals@.len() ==> {
                &&& text_at(self.stable_memory@ + more, (#[trigger] self.proposals@[i]).description)
                &&& reasons_in(&self.proposals@[i], self.stable_memory@ + more)
            },
    {
        let log = self.stable_memory@;
        assert forall|i: int| 0 <= i < self.proposals@.len() implies {
            &&& text_at(log + more, (#[trigger] self.proposals@[i]).description)
            &&& reasons_in(&self.proposals@[i], log + more)
        } by {
            lemma_text_kept(log, more, self.proposals@[i].description);
            assert forall|k: Seq<u8>| #[trigger] self.proposals@[i].receipts@.contains_key(k)
                && self.proposals@[i].receipts@[k].reason is Some implies
                text_at(log + more, self.proposals@[i].receipts@[k].reason->0) by {
                lemma_text_kept(log, more, self.proposals@[i].receipts@[k].reason->0);
            };
        };
    }

    /// Creates a proposal and returns its id.
    ///
    /// Refused when `proposer_votes` does not exceed the threshold, when the proposer's
    /// latest proposal is still live, when its times would pass `u64::MAX`, or when the
    /// log cannot hold the description.
    pub fn propose(
        &mut self,
        proposer: Account,
        proposer_votes: u64,
        title: String,
        description: String,
        target: Account,
        method: String,
        arguments: Vec<u8>,
        cycles: u64,
        timestamp: u64,
    ) -> (r: Result<usize, GovernError>)
        requires
            old(self).wf(),
        ensures
            final(self).wf(),
            r == Err::<usize, GovernError>(GovernError::BelowThreshold) <==> proposer_votes <= old(self).proposal_threshold,
            r == Err::<usize, GovernError>(GovernError::AlreadyHasLiveProposal) <==> proposer_votes > old(self).proposal_threshold
                && old(self).has_live(proposer@, timestamp),
            r == Err::<usize, GovernError>(GovernError::Overflow) <==> proposer_votes > old(self).proposal_threshold
                && !old(self).has_live(proposer@, timestamp)
                && timestamp + old(self).voting_delay + old(self).voting_period > u64::MAX,
            r == Err::<usize, GovernError>(GovernError::StorageError) <==> proposer_votes > old(self).proposal_threshold
                && !old(self).has_live(proposer@, timestamp)
                && timestamp + old(self).voting_delay + old(self).voting_period <= u64::MAX
                && old(self).stable_memory.pages() + old(self).stable_memory.pages_for_write(
                    encode_utf8(description@).len()) > crate::stable::MAX_PAGES,
            r is Ok <==> proposer_votes > old(self).proposal_threshold
                && !old(self).has_live(proposer@, timestamp)
                && timestamp + old(self).voting_delay + old(self).voting_period <= u64::MAX
                && old(self).stable_memory.pages() + old(self).stable_memory.pages_for_write(
                    encode_utf8(description@).len()) <= crate::stable::MAX_PAGES,
            r is Err ==> *final(self) == *old(self),
            r matches Ok(id) ==> {
                let p = final(self).proposals@[id as int];
                &&& id == old(self).proposals@.len()
                &&& final(self).proposals@.len() == id + 1
                &&& forall|j: int| 0 <= j < id ==> final(self).proposals@[j] == old(self).proposals@[j]
                &&& p.id == id
                &&& p.proposer@ == proposer@
                &&& p.title@ == title@
                &&& text_of(final(self).stable_memory@, p.description) == description@
                &&& p.task@ == (TaskModel { target: target@, method: method@, arguments: arguments@, cycles, eta: 0 })
                &&& p.start_time == timestamp + old(self).voting_delay
                &&& p.end_time == timestamp + old(self).voting_delay + old(self).voting_period
                &&& p.support_votes == 0 && p.against_votes == 0 && p.abstain_votes == 0
                &&& !p.canceled && !p.executing && !p.executed
                &&& p.receipts@ == Map::<Seq<u8>, Receipt>::empty()
                &&& final(self).spec_state(id as int, timestamp) == (if old(self).voting_delay == 0 {
                    if old(self).voting_period == 0 { ProposalState::Defeated } else { ProposalState::Active }
                } else { ProposalState::Pending })
                &&& final(self).latest_proposal_ids@ == old(self).latest_proposal_ids@.insert(proposer@, id)
                &&& final(self).stable_memory@ == old(self).stable_memory@ + encode_utf8(description@)
                &&& *final(self) == (GovernorBravo {
                    proposals: final(self).proposals,
                    latest_proposal_ids: final(self).latest_proposal_ids,
                    stable_memory: final(self).stable_memory,
                    ..*old(self)
                })
            },
    {
        if proposer_votes <= self.proposal_threshold {
            return Err(GovernError::BelowThreshold);
        }
        match self.latest_proposal_ids.get(&proposer) {
            Some(lpi) => {
                let st = self.get_state(*lpi, timestamp);
                match st {
                    Ok(ProposalState::Pending) | Ok(ProposalState::Active) | Ok(ProposalState::Executing) => {
                        return Err(GovernError::AlreadyHasLiveProposal);
                    },
                    _ => {},
                }
            },
            None => {},
        }
        let start_time = match timestamp.checked_add(self.voting_delay) {
            Some(t) => t,
            None => return Err(GovernError::Overflow),
        };
        let end_time = match start_time.checked_add(self.voting_period) {
            Some(t) => t,
            None => return Err(GovernError::Overflow),
        };
        let bytes = utf8_bytes(&description);
        let ghost old_self = *self;
        let ghost old_log = self.stable_memory@;
        let pos = match self.stable_memory.append(bytes.as_slice()) {
            Ok(pos) => pos,
            Err(_) => return Err(GovernError::StorageError),
        };
        proof {
            old_self.lemma_log_grows(encode_utf8(description@));
            lemma_text_new(old_log, description@, pos);
        }
        let id = self.proposals.len();
        let proposal = Proposal::new(
            id, proposer.duplicate(), title, pos, target, method, arguments, cycles, start_time, end_time,
        );
        self.proposals.push(proposal);
        self.latest_proposal_ids.insert(proposer, id);
        proof {
            assert forall|i: int| 0 <= i < self.proposals@.len() implies {
                &&& (#[trigger] self.proposals@[i]).id == i
                &&& self.proposals@[i].wf()
                &&& text_at(self.stable_memory@, self.proposals@[i].description)
                &&& reasons_in(&self.proposals@[i], self.stable_memory@)
            } by {
                if i < id {
                    assert(self.proposals@[i] == old_self.proposals@[i]);
                }
            };
        }
        Ok(id)
    }

    /// Queues the task of a succeeded proposal in the timelock; returns its `eta`, `now` plus the delay.
    pub fn queue(&mut self, id: usize, now: u64) -> (r: Result<u64, GovernError>)
        requires
            old(self).wf(),
        ensures
            final(self).wf(),
            r == Err::<u64, GovernError>(GovernError::InvalidProposalId) <==> id >= old(self).proposals@.len(),
            r == Err::<u64, GovernError>(GovernError::NotSucceeded) <==> id < old(self).proposals@.len()
                && old(self).spec_state(id as int, now) != ProposalState::Succeeded,
            r == Err::<u64, GovernError>(GovernError::Overflow) <==> id < old(self).proposals@.len()
                && old(self).spec_state(id as int, now) == ProposalState::Succeeded
                && now + old(self).timelock.spec_delay() > u64::MAX,
            r is Ok <==> id < old(self).proposals@.len()
                && old(self).spec_state(id as int, now) == ProposalState::Succeeded
                && now + old(self).timelock.spec_delay() <= u64::MAX,
            r is Err ==> *final(self) == *old(self),
            r matches Ok(eta) ==> {
                let p = old(self).proposals@[id as int];
                let q = Proposal { task: Task { eta, ..p.task }, ..p };
                &&& eta == now + old(self).timelock.spec_delay()
                &&& final(self).proposals@ == old(self).proposals@.update(id as int, q)
                &&& final(self).timelock.tasks() == old(self).timelock.tasks().insert(q.task@)
                &&& final(self).timelock.spec_delay() == old(self).timelock.spec_delay()
                &&& reaches(old(self).spec_state(id as int, now), final(self).spec_state(id as int, now))
                &&& *final(self) == (GovernorBravo {
                    proposals: final(self).proposals,
                    timelock: final(self).timelock,
                    ..*old(self)
                })
            },
    {
        let st = self.get_state(id, now)?;
        if st != ProposalState::Succeeded {
            return Err(GovernError::NotSucceeded);
        }
        let eta = match now.checked_add(self.timelock.delay()) {
            Some(e) => e,
            None => return Err(GovernError::Overflow),
        };
        let ghost old_self = *self;
        let p = proposal_mut(&mut self.proposals, id);
        p.task.eta = eta;
        let t = p.task.duplicate();
        self.timelock.queue_transaction(t);
        proof {
            assert forall|i: int| 0 <= i < self.proposals@.len() implies {
                &&& (#[trigger] self.proposals@[i]).id == i
                &&& self.proposals@[i].wf()
                &&& text_at(self.stable_memory@, self.proposals@[i].description)
                &&& reasons_in(&self.proposals@[i], self.stable_memory@)
            } by {
                assert(old_self.proposals@[i].id == i);
            };
            if eta != 0 {
                assert(step(ProposalState::Succeeded, ProposalState::Queued));
            }
        }
        Ok(eta)
    }

    /// Starts running a queued proposal: takes its task out of the timelock, which
    /// refuses before `eta`, and marks the proposal executing. The caller then makes the call.
    pub fn pre_execute(&mut self, id: usize, now: u64) -> (r: Result<(), GovernError>)
        requires
            old(self).wf(),
        ensures
            final(self).wf(),
            r == Err::<(), GovernError>(GovernError::InvalidProposalId) <==> id >= old(self).proposals@.len(),
            r == Err::<(), GovernError>(GovernError::NotQueued) <==> id < old(self).proposals@.len() && (
                old(self).spec_state(id as int, now) != ProposalState::Queued
                || !old(self).timelock.tasks().contains(old(self).proposals@[id as int].task@)),
            r == Err::<(), GovernError>(GovernError::TooEarly) <==> id < old(self).proposals@.len()
                && old(self).spec_state(id as int, now) == ProposalState::Queued
                && old(self).timelock.tasks().contains(old(self).proposals@[id as int].task@)
                && now < old(self).proposals@[id as int].task.eta,
            r is Ok <==> id < old(self).proposals@.len()
                && old(self).spec_state(id as int, now) == ProposalState::Queued
                && old(self).timelock.tasks().contains(old(self).proposals@[id as int].task@)
                && now >= old(self).proposals@[id as int].task.eta,
            r is Err ==> *final(self) == *old(self),
            r is Ok ==> {
                let p = old(self).proposals@[id as int];
                &&& final(self).proposals@ == old(self).proposals@.update(id as int, Proposal { executing: true, ..p })
                &&& final(self).timelock.tasks() == old(self).timelock.tasks().remove(p.task@)
                &&& final(self).timelock.spec_delay() == old(self).timelock.spec_delay()
                &&& final(self).spec_state(id as int, now) == ProposalState::Executing
                &&& reaches(old(self).spec_state(id as int, now), final(self).spec_state(id as int, now))
                &&& *final(self) == (GovernorBravo {
                    proposals: final(self).proposals,
                    timelock: final(self).timelock,
                    ..*old(self)
                })
            },
    {
        let st = self.get_state(id, now)?;
        if st != ProposalState::Queued {
            return Err(GovernError::NotQueued);
        }
        let ghost old_self = *self;
        match self.timelock.pre_execute_transaction(&self.proposals[id].task, now) {
            Ok(()) => {},
            Err(e) => {
                return Err(timelock_error(e));
            },
        }
        let p = proposal_mut(&mut self.proposals, id);
        p.executing = true;
        proof {
            assert forall|i: int| 0 <= i < self.proposals@.len() implies {
                &&& (#[trigger] self.proposals@[i]).id == i
                &&& self.proposals@[i].wf()
                &&& text_at(self.stable_memory@, self.proposals@[i].description)
                &&& reasons_in(&self.proposals@[i], self.stable_memory@)
            } by {
                assert(old_self.proposals@[i].id == i);
            };
            assert(step(ProposalState::Queued, ProposalState::Executing));
        }
        Ok(())
    }

    /// Ends running an executing proposal. A successful call marks it executed; a failed
    /// one puts its task back in the timelock.
    pub fn post_execute(&mut self, id: usize, success: bool, now: u64) -> (r: Result<(), GovernError>)
        requires
            old(self).wf(),
        ensures
            final(self).wf(),
            r == Err::<(), GovernError>(GovernError::InvalidProposalId) <==> id >= old(self).proposals@.len(),
            r == Err::<(), GovernError>(GovernError::NotExecuting) <==> id < old(self).proposals@.len()
                && old(self).spec_state(id as int, now) != ProposalState::Executing,
            r is Ok <==> id < old(self).proposals@.len()
                && old(self).spec_state(id as int, now) == ProposalState::Executing,
            r is Err ==> *final(self) == *old(self),
            r is Ok ==> {
                let p = old(self).proposals@[id as int];
                &&& final(self).proposals@ == old(self).proposals@.update(id as int, Proposal { executed: success, ..p })
                &&& success ==> final(self).timelock.tasks() == old(self).timelock.tasks()
                &&& !success ==> final(self).timelock.tasks() == old(self).timelock.tasks().insert(p.task@)
                &&& final(self).timelock.spec_delay() == old(self).timelock.spec_delay()
                &&& final(self).spec_state(id as int, now) == (if success { ProposalState::Executed } else { ProposalState::Executing })
                &&& reaches(old(self).spec_state(id as int, now), final(self).spec_state(id as int, now))
                &&& *final(self) == (GovernorBravo {
                    proposals: final(self).proposals,
                    timelock: final(self).timelock,
                    ..*old(self)
                })
            },
    {
        let st = self.get_state(id, now)?;
        if st != ProposalState::Executing {
            return Err(GovernError::NotExecuting);
        }
        let ghost old_self = *self;
        let p = proposal_mut(&mut self.proposals, id);
        p.executed = success;
        let t = p.task.duplicate();
        self.timelock.post_execute_transaction(t, success);
        proof {
            assert forall|i: int| 0 <= i < self.proposals@.len() implies {
                &&& (#[trigger] self.proposals@[i]).id == i
                &&& self.proposals@[i].wf()
                &&& text_at(self.stable_memory@, self.proposals@[i].description)
                &&& reasons_in(&self.proposals@[i], self.stable_memory@)
            } by {
                assert(old_self.proposals@[i].id == i);
            };
            assert(step(ProposalState::Executing, ProposalState::Executed));
        }
        Ok(())
    }

    /// Cancels a proposal. The proposer may always cancel; anyone else only while the
    /// proposer's current votes are at or below the threshold (else `Unauthorized`).
    /// An authorized caller is refused (`CannotCancel`) on an executing or executed proposal.
    pub fn cancel(&mut self, id: usize, now: u64, caller: &Account, proposer_votes: u64) -> (r: Result<(), GovernError>)
        requires
            old(self).wf(),
        ensures
            final(self).wf(),
            r == Err::<(), GovernError>(GovernError::InvalidProposalId) <==> id >= old(self).proposals@.len(),
            r == Err::<(), GovernError>(GovernError::Unauthorized) <==> id < old(self).proposals@.len()
                && caller@ != old(self).proposals@[id as int].proposer@
                && proposer_votes > old(self).proposal_threshold,
            r == Err::<(), GovernError>(GovernError::CannotCancel) <==> id < old(self).proposals@.len()
                && (caller@ == old(self).proposals@[id as int].proposer@
                    || proposer_votes <= old(self).proposal_threshold) && (
                old(self).spec_state(id as int, now) == ProposalState::Executing
                || old(self).spec_state(id as int, now) == ProposalState::Executed),
            r is Ok <==> id < old(self).proposals@.len()
                && old(self).spec_state(id as int, now) != ProposalState::Executing
                && old(self).spec_state(id as int, now) != ProposalState::Executed
                && (caller@ == old(self).proposals@[id as int].proposer@
                    || proposer_votes <= old(self).proposal_threshold),
            r is Err ==> *final(self) == *old(self),
            r is Ok ==> {
                let p = old(self).proposals@[id as int];
                &&& final(self).proposals@ == old(self).proposals@.update(id as int, Proposal { canceled: true, ..p })
                &&& final(self).timelock.tasks() == old(self).timelock.tasks().remove(p.task@)
                &&& final(self).timelock.spec_delay() == old(self).timelock.spec_delay()
                &&& final(self).spec_state(id as int, now) == ProposalState::Canceled
                &&& old(self).spec_state(id as int, now) != ProposalState::Defeated
                    && old(self).spec_state(id as int, now) != ProposalState::Expired
                    ==> reaches(old(self).spec_state(id as int, now), final(self).spec_state(id as int, now))
                &&& *final(self) == (GovernorBravo {
                    proposals: final(self).proposals,
                    timelock: final(self).timelock,
                    ..*old(self)
                })
            },
    {
        let st = self.get_state(id, now)?;
        if *caller != self.proposals[id].proposer && proposer_votes > self.proposal_threshold {
            return Err(GovernError::Unauthorized);
        }
        if st == ProposalState::Executing || st == ProposalState::Executed {
            return Err(GovernError::CannotCancel);
        }
        let ghost old_self = *self;
        let p = proposal_mut(&mut self.proposals, id);
        p.canceled = true;
        self.timelock.cancel_transaction(&p.task);
        proof {
            assert forall|i: int| 0 <= i < self.proposals@.len() implies {
                &&& (#[trigger] self.proposals@[i]).id == i
                &&& self.proposals@[i].wf()
                &&& text_at(self.stable_memory@, self.proposals@[i].description)
                &&& reasons_in(&self.proposals@[i], self.stable_memory@)
            } by {
                assert(old_self.proposals@[i].id == i);
            };
            assert(step(ProposalState::Pending, ProposalState::Canceled));
            assert(step(ProposalState::Active, ProposalState::Canceled));
            assert(step(ProposalState::Succeeded, ProposalState::Canceled));
            assert(step(ProposalState::Queued, ProposalState::Canceled));
        }
        Ok(())
    }

    /// Records a ballot of weight `votes` by `caller` on an active proposal, with an
    /// optional reason kept in the log. Each voter votes once.
    pub fn cast_vote(
        &mut self,
        id: usize,
        vote_type: VoteType,
        votes: u64,
        reason: Option<String>,
        caller: Account,
        now: u64,
    ) -> (r: Result<Receipt, GovernError>)
        requires
            old(self).wf(),
        ensures
            final(self).wf(),
            r == Err::<Receipt, GovernError>(GovernError::InvalidProposalId) <==> id >= old(self).proposals@.len(),
            r == Err::<Receipt, GovernError>(GovernError::VotingClosed) <==> id < old(self).proposals@.len()
                && old(self).spec_state(id as int, now) != ProposalState::Active,
            r == Err::<Receipt, GovernError>(GovernError::AlreadyVoted) <==> id < old(self).proposals@.len()
                && old(self).spec_state(id as int, now) == ProposalState::Active
                && old(self).proposals@[id as int].receipts@.contains_key(caller@),
            r == Err::<Receipt, GovernError>(GovernError::Overflow) <==> id < old(self).proposals@.len()
                && old(self).spec_state(id as int, now) == ProposalState::Active
                && !old(self).proposals@[id as int].receipts@.contains_key(caller@)
                && tally(&old(self).proposals@[id as int], vote_type) + votes > u64::MAX,
            r == Err::<Receipt, GovernError>(GovernError::StorageError) <==> id < old(self).proposals@.len()
                && old(self).spec_state(id as int, now) == ProposalState::Active
                && !old(self).proposals@[id as int].receipts@.contains_key(caller@)
                && tally(&old(self).proposals@[id as int], vote_type) + votes <= u64::MAX
                && reason is Some
                && old(self).stable_memory.pages() + old(self).stable_memory.pages_for_write(
                    encode_utf8(reason->0@).len()) > crate::stable::MAX_PAGES,
            r is Ok <==> id < old(self).proposals@.len()
                && old(self).spec_state(id as int, now) == ProposalState::Active
                && !old(self).proposals@[id as int].receipts@.contains_key(caller@)
                && tally(&old(self).proposals@[id as int], vote_type) + votes <= u64::MAX
                && (reason is Some ==> old(self).stable_memory.pages() + old(self).stable_memory.pages_for_write(
                    encode_utf8(reason->0@).len()) <= crate::stable::MAX_PAGES),
            r is Err ==> *final(self) == *old(self),
            r matches Ok(b) ==> {
                let p = old(self).proposals@[id as int];
                let q = final(self).proposals@[id as int];
                &&& b.vote_type == vote_type
                &&& b.votes == votes
                &&& b.reason is Some <==> reason is Some
                &&& reason is Some ==> text_of(final(self).stable_memory@, b.reason->0) == reason->0@
                &&& reason is Some ==> final(self).stable_memory@ == old(self).stable_memory@ + encode_utf8(reason->0@)
                &&& reason is None ==> final(self).stable_memory == old(self).stable_memory
                &&& final(self).proposals@.len() == old(self).proposals@.len()
                &&& forall|j: int| 0 <= j < old(self).proposals@.len() && j != id
                    ==> final(self).proposals@[j] == old(self).proposals@[j]
                &&& q.receipts@ == p.receipts@.insert(caller@, b)
                &&& q.receipts.keys() == p.receipts.keys().push(caller@)
                &&& q.support_votes == p.support_votes + (if vote_type == VoteType::Support { votes } else { 0 })
                &&& q.against_votes == p.against_votes + (if vote_type == VoteType::Against { votes } else { 0 })
                &&& q.abstain_votes == p.abstain_votes + (if vote_type == VoteType::Abstain { votes } else { 0 })
                &&& q == (Proposal {
                    support_votes: q.support_votes,
                    against_votes: q.against_votes,
                    abstain_votes: q.abstain_votes,
                    receipts: q.receipts,
                    ..p
                })
                &&& final(self).spec_state(id as int, now) == ProposalState::Active
                &&& *final(self) == (GovernorBravo {
                    proposals: final(self).proposals,
                    stable_memory: final(self).stable_memory,
                    ..*old(self)
                })
            },
    {
        let st = self.get_state(id, now)?;
        if st != ProposalState::Active {
            return Err(GovernError::VotingClosed);
        }
        if self.proposals[id].receipts.get(&caller).is_some() {
            return Err(GovernError::AlreadyVoted);
        }
        let cur = match vote_type {
            VoteType::Support => self.proposals[id].support_votes,
            VoteType::Against => self.proposals[id].against_votes,
            VoteType::Abstain => self.proposals[id].abstain_votes,
        };
        let sum = match cur.checked_add(votes) {
            Some(v) => v,
            None => return Err(GovernError::Overflow),
        };
        let ghost old_self = *self;
        let ghost old_log = self.stable_memory@;
        let pos = match reason {
            Some(text) => {
                let bytes = utf8_bytes(&text);
                match self.stable_memory.append(bytes.as_slice()) {
                    Ok(pos) => {
                        proof {
                            old_self.lemma_log_grows(encode_utf8(text@));
                            lemma_text_new(old_log, text@, pos);
                        }
                        Some(pos)
                    },
                    Err(_) => return Err(GovernError::StorageError),
                }
            },
            None => {
                proof {
                    old_self.lemma_log_grows(Seq::<u8>::empty());
                    assert(old_log + Seq::<u8>::empty() =~= old_log);
                }
                None
            },
        };
        let receipt = Receipt::new(vote_type, votes, pos);
        let p = proposal_mut(&mut self.proposals, id);
        match vote_type {
            VoteType::Support => p.support_votes = sum,
            VoteType::Against => p.against_votes = sum,
            VoteType::Abstain => p.abstain_votes = sum,
        }
        p.receipts.insert(caller, receipt);
        proof {
            let log = self.stable_memory@;
            assert forall|i: int| 0 <= i < self.proposals@.len() implies {
                &&& (#[trigger] self.proposals@[i]).id == i
                &&& self.proposals@[i].wf()
                &&& text_at(log, self.proposals@[i].description)
                &&& reasons_in(&self.proposals@[i], log)
            } by {
                assert(old_self.proposals@[i].id == i);
                if i == id {
                    let q = self.proposals@[i];
                    assert forall|k: Seq<u8>| #[trigger] q.receipts@.contains_key(k) && q.receipts@[k].reason is Some
                        implies text_at(log, q.receipts@[k].reason->0) by {
                        if k != caller@ {
                            assert(old_self.proposals@[i].receipts@.contains_key(k));
                        }
                    };
                }
            };
        }
        Ok(receipt)
    }

    /// Page `page` of `num` proposals, newest first, each with its state at `now`.
    /// A page past the end is empty.
    pub fn get_proposal_pages(&self, page: usize, num: usize, now: u64) -> (r: Result<Vec<(ProposalDigest, ProposalState)>, GovernError>)
        requires
            self.wf(),
        ensures
            r matches Ok(v) && {
                let n = self.proposals@.len() as int;
                let start = page * num;
                &&& v@.len() == (if start >= n { 0 } else if start + num > n { n - start } else { num as int })
                &&& forall|k: int| 0 <= k < v@.len() ==> {
                    &&& digest_of((#[trigger] v@[k]).0, &self.proposals@[n - 1 - (start + k)])
                    &&& v@[k].1 == self.spec_state(n - 1 - (start + k), now)
                }
            },
    {
        let n = self.proposals.len();
        let mut v: Vec<(ProposalDigest, ProposalState)> = Vec::new();
        let start = match page.checked_mul(num) {
            Some(st) => st,
            None => {
                return Ok(v);
            },
        };
        if start >= n {
            return Ok(v);
        }
        let count = if num > n - start { n - start } else { num };
        let mut k: usize = 0;
        while k < count
            invariant
                n == self.proposals@.len(),
                start == page * num,
                start < n,
                count == (if start + num > n { n - start } else { num as int }),
                k <= count,
                v@.len() == k,
                self.wf(),
                forall|j: int| 0 <= j < k ==> {
                    &&& digest_of((#[trigger] v@[j]).0, &self.proposals@[n - 1 - (start + j)])
                    &&& v@[j].1 == self.spec_state(n - 1 - (start + j), now)
                },
            decreases count - k,
        {
            let i = n - 1 - (start + k);
            let p = &self.proposals[i];
            let st = match self.get_state(i, now) {
                Ok(st) => st,
                Err(_) => ProposalState::Pending,
            };
            v.push((p.digest(), st));
            k = k + 1;
        }
        Ok(v)
    }

    /// Page `page` of `num` ballots on proposal `id`, in the order they were cast.
    /// A page past the end is empty.
    pub fn get_receipt_pages(&self, id: usize, page: usize, num: usize) -> (r: Result<Vec<(Account, ReceiptDigest)>, GovernError>)
        requires
            self.wf(),
        ensures
            r is Err <==> id >= self.proposals@.len(),
            r is Err ==> r == Err::<Vec<(Account, ReceiptDigest)>, GovernError>(GovernError::InvalidProposalId),
            r matches Ok(v) ==> {
                let p = self.proposals@[id as int];
                let n = p.receipts.keys().len() as int;
                let start = page * num;
                &&& v@.len() == (if start >= n { 0 } else if start + num > n { n - start } else { num as int })
                &&& forall|k: int| 0 <= k < v@.len() ==> {
                    &&& (#[trigger] v@[k]).0@ == p.receipts.keys()[start + k]
                    &&& v@[k].1.vote_type == p.receipts@[p.receipts.keys()[start + k]].vote_type
                    &&& v@[k].1.votes == p.receipts@[p.receipts.keys()[start + k]].votes
                }
            },
    {
        if id >= self.proposals.len() {
            return Err(GovernError::InvalidProposalId);
        }
        let p = &self.proposals[id];
        let n = p.receipts.len();
        let mut v: Vec<(Account, ReceiptDigest)> = Vec::new();
        let start = match page.checked_mul(num) {
            Some(st) => st,
            None => {
                return Ok(v);
            },
        };
        if start >= n {
            return Ok(v);
        }
        let count = if num > n - start { n - start } else { num };
        let mut k: usize = 0;
        while k < count
            invariant
                p.wf(),
                n == p.receipts.keys().len(),
                start == page * num,
                start < n,
                count == (if start + num > n { n - start } else { num as int }),
                k <= count,
                v@.len() == k,
                forall|j: int| 0 <= j < k ==> {
                    &&& (#[trigger] v@[j]).0@ == p.receipts.keys()[start + j]
                    &&& v@[j].1.vote_type == p.receipts@[p.receipts.keys()[start + j]].vote_type
                    &&& v@[j].1.votes == p.receipts@[p.receipts.keys()[start + j]].votes
                },
            decreases count - k,
        {
            let (who, b) = p.receipts.entry_at(start + k);
            v.push((who.duplicate(), b.digest()));
            k = k + 1;
        }
        Ok(v)
    }

    /// The state of proposal `id` at time `now`; fails exactly when there is no such proposal.
    pub fn get_state(&self, id: usize, now: u64) -> (r: Result<ProposalState, GovernError>)
        ensures
            r is Err <==> id >= self.proposals@.len(),
            r is Err ==> r == Err::<ProposalState, GovernError>(GovernError::InvalidProposalId),
            r matches Ok(s) ==> s == self.spec_state(id as int, now),
    {
        if id >= self.proposals.len() {
            return Err(GovernError::InvalidProposalId);
        }
        let p = &self.proposals[id];
        let s = if p.canceled {
            ProposalState::Canceled
        } else if now < p.start_time {
            ProposalState::Pending
        } else if now < p.end_time {
            ProposalState::Active
        } else if p.support_votes <= p.against_votes || p.support_votes < self.quorum_votes {
            ProposalState::Defeated
        } else if p.task.eta == 0 {
            ProposalState::Succeeded
        } else if p.executed {
            ProposalState::Executed
        } else if p.executing {
            ProposalState::Executing
        } else if now > p.task.eta && now - p.task.eta > GRACE_PERIOD {
            ProposalState::Expired
        } else {
            ProposalState::Queued
        };
        Ok(s)
    }

    /// Proposal `id` with its description as text.
    pub fn get_proposal(&self, id: usize) -> (r: Result<ProposalInfo, GovernError>)
        requires
            self.wf(),
        ensures
            r is Err <==> id >= self.proposals@.len(),
            r is Err ==> r == Err::<ProposalInfo, GovernError>(GovernError::InvalidProposalId),
            r matches Ok(info) ==> {
                let p = self.proposals@[id as int];
                &&& info.id == id
                &&& info.proposer@ == p.proposer@
                &&& info.title@ == p.title@
                &&& info.description@ == text_of(self.stable_memory@, p.description)
                &&& info.task@ == p.task@
                &&& info.start_time == p.start_time
                &&& info.end_time == p.end_time
                &&& info.support_votes == p.support_votes
                &&& info.against_votes == p.against_votes
                &&& info.abstain_votes == p.abstain_votes
                &&& info.canceled == p.canceled
                &&& info.executing == p.executing
                &&& info.executed == p.executed
            },
    {
        if id >= self.proposals.len() {
            return Err(GovernError::InvalidProposalId);
        }
        let p = &self.proposals[id];
        let text = read_text(&self.stable_memory, &p.description);
        Ok(p.to_info(text))
    }

    /// The ballot of `voter` on proposal `id`, with its reason as text.
    pub fn get_receipt(&self, id: usize, voter: &Account) -> (r: Result<ReceiptInfo, GovernError>)
        requires
            self.wf(),
        ensures
            r == Err::<ReceiptInfo, GovernError>(GovernError::InvalidProposalId) <==> id >= self.proposals@.len(),
            r == Err::<ReceiptInfo, GovernError>(GovernError::ReceiptNotFound) <==> id < self.proposals@.len()
                && !self.proposals@[id as int].receipts@.contains_key(voter@),
            r is Ok <==> id < self.proposals@.len() && self.proposals@[id as int].receipts@.contains_key(voter@),
            r matches Ok(info) ==> {
                let b = self.proposals@[id as int].receipts@[voter@];
                &&& id < self.proposals@.len()
                &&& self.proposals@[id as int].receipts@.contains_key(voter@)
                &&& info.vote_type == b.vote_type
                &&& info.votes == b.votes
                &&& info.reason is Some <==> b.reason is Some
                &&& info.reason is Some ==> info.reason->0@ == text_of(self.stable_memory@, b.reason->0)
            },
    {
        if id >= self.proposals.len() {
            return Err(GovernError::InvalidProposalId);
        }
        let p = &self.proposals[id];
        match p.receipts.get(voter) {
            Some(b) => {
                let reason = match &b.reason {
                    Some(pos) => Some(read_text(&self.stable_memory, pos)),
                    None => None,
                };
                Ok(b.to_info(reason))
            },
            None => Err(GovernError::ReceiptNotFound),
        }
    }

    /// The task of proposal `id`.
    pub fn get_task(&self, id: usize) -> (r: Result<Task, GovernError>)
        ensures
            r is Err <==> id >= self.proposals@.len(),
            r is Err ==> r == Err::<Task, GovernError>(GovernError::InvalidProposalId),
            r matches Ok(t) ==> t@ == self.proposals@[id as int].task@,
    {
        if id >= self.proposals.len() {
            return Err(GovernError::InvalidProposalId);
        }
        Ok(self.proposals[id].task.duplicate())
    }

    /// Whether `caller` is the admin.
    pub fn is_admin(&self, caller: &Account) -> (r: bool)
        ensures
            r == (caller@ == self.admin@),
    {
        self.admin == *caller
    }

    pub fn set_quorum_votes(&mut self, quorum: u64)
        requires
            old(self).wf(),
        ensures
            final(self).wf(),
            *final(self) == (GovernorBravo { quorum_votes: quorum, ..*old(self) }),
    {
        self.quorum_votes = quorum;
    }

    pub fn set_vote_delay(&mut self, delay: u64)
        requires
            old(self).wf(),
        ensures
            final(self).wf(),
            *final(self) == (GovernorBravo { voting_delay: delay, ..*old(self) }),
    {
        self.voting_delay = delay;
    }

    pub fn set_vote_period(&mut self, period: u64)
        requires
            old(self).wf(),
        ensures
            final(self).wf(),
            *final(self) == (GovernorBravo { voting_period: period, ..*old(self) }),
    {
        self.voting_period = period;
    }

    pub fn set_proposal_threshold(&mut self, threshold: u64)
        requires
            old(self).wf(),
        ensures
            final(self).wf(),
            *final(self) == (GovernorBravo { proposal_threshold: threshold, ..*old(self) }),
    {
        self.proposal_threshold = threshold;
    }

    pub fn set_timelock_delay(&mut self, delay: u64)
        requires
            old(self).wf(),
        ensures
            final(self).wf(),
            final(self).timelock.spec_delay() == delay,
            final(self).timelock.tasks() == old(self).timelock.tasks(),
            *final(self) == (GovernorBravo { timelock: final(self).timelock, ..*old(self) }),
    {
        self.timelock.set_delay(delay);
    }

    /// Records `pending_admin`, who may then take over as admin.
    pub fn set_pending_admin(&mut self, pending_admin: Account)
        requires
            old(self).wf(),
        ensures
            final(self).wf(),
            *final(self) == (GovernorBravo { pending_admin: Some(pending_admin), ..*old(self) }),
    {
        self.pending_admin = Some(pending_admin);
    }

    /// The pending admin takes over; anyone else is refused.
    pub fn accept_admin(&mut self, caller: &Account) -> (r: Result<(), GovernError>)
        requires
            old(self).wf(),
        ensures
            final(self).wf(),
            r is Ok <==> (old(self).pending_admin matches Some(a) && a@ == caller@),
            r is Ok ==> final(self).admin@ == caller@
                && *final(self) == (GovernorBravo { admin: final(self).admin, pending_admin: None, ..*old(self) }),
            r is Err ==> r == Err::<(), GovernError>(GovernError::Unauthorized) && *final(self) == *old(self),
    {
        let ok = match &self.pending_admin {
            Some(a) => *a == *caller,
            None => false,
        };
        if !ok {
            return Err(GovernError::Unauthorized);
        }
        self.admin = caller.duplicate();
        self.pending_admin = None;
        Ok(())
    }

    /// The configuration, with the number of proposals.
    pub fn digest(&self) -> (r: GovernorBravoInfo)
        ensures
            r.admin@ == self.admin@,
            r.pending_admin is Some <==> self.pending_admin is Some,
            r.pending_admin is Some ==> r.pending_admin->0@ == self.pending_admin->0@,
            r.name@ == self.name@,
            r.quorum_votes == self.quorum_votes,
            r.voting_delay == self.voting_delay,
            r.voting_period == self.voting_period,
            r.proposal_threshold == self.proposal_threshold,
            r.proposals_num == self.proposals@.len(),
            r.gov_token@ == self.gov_token@,
            r.log_size == self.stable_memory@.len(),
    {
        let pending_admin = match &self.pending_admin {
            Some(a) => Some(a.duplicate()),
            None => None,
        };
        GovernorBravoInfo {
            admin: self.admin.duplicate(),
            pending_admin,
            name: self.name.clone(),
            quorum_votes: self.quorum_votes,
            voting_delay: self.voting_delay,
            voting_period: self.voting_period,
            proposal_threshold: self.proposal_threshold,
            proposals_num: self.proposals.len(),
            gov_token: self.gov_token.duplicate(),
            log_size: self.stable_memory.offset(),
        }
    }
}

impl Default for GovernorBravo {
    fn default() -> (r: GovernorBravo)
        ensures
            r.wf(),
            r.proposals@.len() == 0,
            !r.initialized,
            r.admin@ == seq![4u8],
            r.pending_admin is None,
            r.name@ == Seq::<char>::empty(),
            r.quorum_votes == 0 && r.voting_delay == 0 && r.voting_period == 0 && r.proposal_threshold == 0,
            r.latest_proposal_ids@ == Map::<Seq<u8>, usize>::empty(),
            r.gov_token@ == seq![4u8],
            r.timelock.spec_delay() == 0,
            r.timelock.tasks() == Set::<TaskModel>::empty(),
            r.stable_memory@ == Seq::<u8>::empty(),
            r.stable_memory.pages() == 0,
    {
        GovernorBravo::empty()
    }
}

} // verus!
