use vstd::prelude::*;

verus! {

use crate::errors::Error;
use crate::math::div_floor;
use crate::math::isqrt;
use crate::math::sqrt_floor;
use crate::table::assoc_lookup;
use crate::table::distinct_keys;
use crate::table::lemma_lookup_at;
use crate::table::lemma_lookup_none;
use crate::table::lemma_lookup_push_all;
use crate::table::lemma_lookup_update_all;
use vstd::arithmetic::mul::lemma_mul_inequality;

/// How many ledger sequence numbers a proposal's voting window stays open
/// before `queue` may tally it.
pub const VOTING_PERIOD: u64 = 50;

/// Cap on a proposal's combined vote tally, leaving room for the times-100
/// approval percentage arithmetic inside `i128`.
pub const MAX_TOTAL_VOTES: i128 = 1_701_411_834_604_692_317_316_873_037_158_841_057;

/// What an executed proposal asks the host to do. A closed sum: new kinds of
/// action are new variants with a handler in the host's dispatcher.
#[derive(Debug, PartialEq, Eq)]
pub enum GovernanceAction {
    /// Set the named parameter to the given value.
    ParameterChange(String, i128),
    /// Set the fee to the given value.
    FeeChange(i128),
    /// Trip the circuit breaker.
    EmergencyAction,
}

/// The category a proposal files under; each category carries its own
/// quorum, approval threshold and execution timelock.
#[derive(Clone, Copy, Debug, PartialEq, Eq, Structural)]
pub enum ProposalCategory {
    ParameterUpdate,
    FeeAdjustment,
    EmergencyOps,
}

/// A proposal's place in its lifecycle. `Defeated`, `Executed` and
/// `Cancelled` are terminal.
#[derive(Clone, Copy, Debug, PartialEq, Eq, Structural)]
pub enum ProposalStatus {
    Pending,
    Active,
    Queued,
    Defeated,
    Executed,
    Cancelled,
}

/// Per-category tally rules, consulted when a proposal is queued and
/// executed.
#[derive(Clone, Copy, Debug, PartialEq, Eq, Structural)]
pub struct CategorySettings {
    /// Minimum combined vote power for the tally to count.
    pub quorum_power: i128,
    /// Minimum percentage of votes in favour.
    pub approval_percent: u32,
    /// Seconds a queued proposal must wait before execution.
    pub timelock_duration: u64,
}

/// One proposal with its running tallies.
#[derive(Debug)]
pub struct Proposal {
    /// Sequential id, starting at 1.
    pub id: u32,
    pub proposer: u64,
    pub action: GovernanceAction,
    pub category: ProposalCategory,
    pub description: String,
    /// Ledger sequence number at creation; the voting window counts from it.
    pub created_at: u64,
    pub total_votes_for: i128,
    pub total_votes_against: i128,
    pub status: ProposalStatus,
    /// Timestamp at queueing; the execution timelock counts from it.
    pub queued_at: u64,
}

/// The governance engine's whole persistent state.
///
/// Voting power is a token balance the host looks up; `vote` and
/// `create_proposal` take the resolved powers as plain arguments and this
/// engine does everything else: delegation checks, quadratic weighting,
/// tallies, quorum, approval and timelocks.
pub struct GovernanceEngine {
    pub admin: u64,
    pub vote_token: u64,
    /// Minimum voting power required to open a proposal.
    pub min_proposal_power: i128,
    /// The identity allowed to bypass governance in an emergency.
    pub emergency: u64,
    pub proposals: Vec<Proposal>,
    /// delegator -> delegatee; at most one active delegatee per delegator.
    pub delegations: Vec<(u64, u64)>,
    /// (proposal id, voter) pairs that have already voted.
    pub voted: Vec<(u32, u64)>,
    pub categories: Vec<(u32, CategorySettings)>,
}

/// Total power carried by a delegator list.
pub open spec fn sum_powers(s: Seq<(u64, i128)>) -> int
    decreases s.len(),
{
    if s.len() == 0 {
        0
    } else {
        sum_powers(s.drop_last()) + s.last().1
    }
}

/// Extending a prefix by one entry adds that entry's power.
pub proof fn lemma_sum_powers_take_succ(s: Seq<(u64, i128)>, i: int)
    requires
        0 <= i < s.len(),
    ensures
        sum_powers(s.take(i + 1)) == sum_powers(s.take(i)) + s[i].1,
{
    assert(s.take(i + 1).drop_last() =~= s.take(i));
}

/// With only non-negative powers, a prefix sum never exceeds the total.
pub proof fn lemma_sum_powers_prefix_le(s: Seq<(u64, i128)>, i: int)
    requires
        0 <= i <= s.len(),
        forall|j: int| 0 <= j < s.len() ==> (#[trigger] s[j]).1 >= 0,
    ensures
        sum_powers(s.take(i)) <= sum_powers(s),
        sum_powers(s.take(i)) >= 0,
    decreases s.len() - i,
{
    assert(forall|j: int| 0 <= j < s.take(i).len() ==> (#[trigger] s.take(i)[j]).1 >= 0);
    lemma_sum_powers_nonneg(s.take(i));
    if i == s.len() {
        assert(s.take(i) =~= s);
    } else {
        lemma_sum_powers_take_succ(s, i);
        lemma_sum_powers_prefix_le(s, i + 1);
    }
}

/// A list of non-negative powers sums to a non-negative total.
pub proof fn lemma_sum_powers_nonneg(s: Seq<(u64, i128)>)
    requires
        forall|j: int| 0 <= j < s.len() ==> (#[trigger] s[j]).1 >= 0,
    ensures
        sum_powers(s) >= 0,
    decreases s.len(),
{
    if s.len() > 0 {
        lemma_sum_powers_nonneg(s.drop_last());
    }
}

/// The power a ballot carries: the voter's own power plus every listed
/// delegator's, passed through the floor square root when quadratic
/// weighting is chosen.
pub open spec fn effective_power(base: i128, ds: Seq<(u64, i128)>, use_quadratic: bool) -> int {
    if use_quadratic {
        sqrt_floor(base + sum_powers(ds))
    } else {
        base + sum_powers(ds)
    }
}

/// The table key a category files its settings under.
pub open spec fn spec_category_id(c: ProposalCategory) -> u32 {
    match c {
        ProposalCategory::ParameterUpdate => 0,
        ProposalCategory::FeeAdjustment => 1,
        ProposalCategory::EmergencyOps => 2,
    }
}

/// Exec mirror of `spec_category_id`.
pub fn category_id(c: ProposalCategory) -> (r: u32)
    ensures
        r == spec_category_id(c),
{
    match c {
        ProposalCategory::ParameterUpdate => 0,
        ProposalCategory::FeeAdjustment => 1,
        ProposalCategory::EmergencyOps => 2,
    }
}

/// The rules a category falls back to before the admin configures it.
pub open spec fn spec_default_settings() -> CategorySettings {
    CategorySettings { quorum_power: 100, approval_percent: 50, timelock_duration: 100 }
}

impl GovernanceEngine {
    /// The engine's invariant: ids are dense from 1, tallies are
    /// non-negative and bounded so the approval arithmetic fits, and the
    /// keyed tables hold one entry per key.
    pub open spec fn wf(self) -> bool {
        &&& distinct_keys(self.delegations@)
        &&& distinct_keys(self.categories@)
        &&& forall|i: int|
            0 <= i < self.proposals@.len() ==> {
                let p = (#[trigger] self.proposals@[i]);
                &&& p.id == i + 1
                &&& p.total_votes_for >= 0
                &&& p.total_votes_against >= 0
                &&& p.total_votes_for + p.total_votes_against <= MAX_TOTAL_VOTES
            }
    }

    /// The settings that govern `category` right now.
    pub open spec fn settings_for(self, category: ProposalCategory) -> CategorySettings {
        match assoc_lookup(self.categories@, spec_category_id(category)) {
            Some(c) => c,
            None => spec_default_settings(),
        }
    }

    /// A proposal id that refers to an existing proposal.
    pub open spec fn knows(self, prop_id: u32) -> bool {
        1 <= prop_id <= self.proposals@.len()
    }

    /// A fresh engine with empty tables.
    pub fn init(admin: u64, vote_token: u64, min_proposal_power: i128, emergency: u64) -> (g: Self)
        ensures
            g.wf(),
            g.admin == admin,
            g.vote_token == vote_token,
            g.min_proposal_power == min_proposal_power,
            g.emergency == emergency,
            g.proposals@.len() == 0,
            g.delegations@.len() == 0,
            g.voted@.len() == 0,
            g.categories@.len() == 0,
    {
        GovernanceEngine {
            admin,
            vote_token,
            min_proposal_power,
            emergency,
            proposals: Vec::new(),
            delegations: Vec::new(),
            voted: Vec::new(),
            categories: Vec::new(),
        }
    }

    /// Index of the category entry, with first-occurrence facts.
    fn find_category_index(&self, key: u32) -> (r: Option<usize>)
        ensures
            match r {
                Some(i) => {
                    &&& i < self.categories@.len()
                    &&& self.categories@[i as int].0 == key
                    &&& forall|j: int| 0 <= j < i ==> (#[trigger] self.categories@[j]).0 != key
                    &&& assoc_lookup(self.categories@, key) == Some(self.categories@[i as int].1)
                },
                None => assoc_lookup(self.categories@, key) is None,
            },
    {
        let mut i: usize = 0;
        while i < self.categories.len()
            invariant
                i <= self.categories@.len(),
                forall|j: int| 0 <= j < i ==> (#[trigger] self.categories@[j]).0 != key,
            decreases self.categories@.len() - i,
        {
            if self.categories[i].0 == key {
                proof {
                    lemma_lookup_at(self.categories@, i as int);
                }
                return Some(i);
            }
            i = i + 1;
        }
        proof {
            lemma_lookup_none(self.categories@, key);
        }
        None
    }

    /// Index of the delegation entry, with first-occurrence facts.
    fn find_delegation_index(&self, delegator: u64) -> (r: Option<usize>)
        ensures
            match r {
                Some(i) => {
                    &&& i < self.delegations@.len()
                    &&& self.delegations@[i as int].0 == delegator
                    &&& forall|j: int|
                        0 <= j < i ==> (#[trigger] self.delegations@[j]).0 != delegator
                    &&& assoc_lookup(self.delegations@, delegator) == Some(
                        self.delegations@[i as int].1,
                    )
                },
                None => assoc_lookup(self.delegations@, delegator) is None,
            },
    {
        let mut i: usize = 0;
        while i < self.delegations.len()
            invariant
                i <= self.delegations@.len(),
                forall|j: int| 0 <= j < i ==> (#[trigger] self.delegations@[j]).0 != delegator,
            decreases self.delegations@.len() - i,
        {
            if self.delegations[i].0 == delegator {
                proof {
                    lemma_lookup_at(self.delegations@, i as int);
                }
                return Some(i);
            }
            i = i + 1;
        }
        proof {
            lemma_lookup_none(self.delegations@, delegator);
        }
        None
    }

    /// Whom the delegator currently delegates to, if anyone.
    pub fn get_delegation(&self, delegator: u64) -> (r: Option<u64>)
        ensures
            r == assoc_lookup(self.delegations@, delegator),
    {
        match self.find_delegation_index(delegator) {
            Some(i) => Some(self.delegations[i].1),
            None => None,
        }
    }

    /// The settings that govern `category` right now.
    pub fn get_settings(&self, category: ProposalCategory) -> (r: CategorySettings)
        ensures
            r == self.settings_for(category),
    {
        match self.find_category_index(category_id(category)) {
            Some(i) => self.categories[i].1,
            None => CategorySettings {
                quorum_power: 100,
                approval_percent: 50,
                timelock_duration: 100,
            },
        }
    }

    /// The proposal stored under `prop_id`, if any.
    pub fn get_proposal(&self, prop_id: u32) -> (r: Option<&Proposal>)
        ensures
            match r {
                Some(p) => self.knows(prop_id) && *p == self.proposals@[prop_id - 1],
                None => !self.knows(prop_id),
            },
    {
        if 1 <= prop_id && (prop_id as usize) <= self.proposals.len() {
            Some(&self.proposals[(prop_id - 1) as usize])
        } else {
            None
        }
    }

    /// Record (or overwrite) the delegator's single active delegation.
    /// Power moves only at vote time, when the delegatee lists delegators
    /// explicitly; nothing is snapshotted here.
    pub fn delegate(&mut self, delegator: u64, delegatee: u64) -> (r: Result<(), Error>)
        requires
            old(self).wf(),
        ensures
            final(self).wf(),
            r is Err ==> *final(self) == *old(self),
            (r == Err::<(), Error>(Error::SelfDelegation)) <==> delegator == delegatee,
            r is Ok <==> delegator != delegatee,
            r is Ok ==> ({
                &&& assoc_lookup(final(self).delegations@, delegator) == Some(delegatee)
                &&& forall|k: u64|
                    k != delegator ==> assoc_lookup(final(self).delegations@, k) == assoc_lookup(
                        old(self).delegations@,
                        k,
                    )
                &&& final(self).proposals == old(self).proposals
                &&& final(self).voted == old(self).voted
                &&& final(self).categories == old(self).categories
                &&& final(self).admin == old(self).admin
                &&& final(self).vote_token == old(self).vote_token
                &&& final(self).min_proposal_power == old(self).min_proposal_power
                &&& final(self).emergency == old(self).emergency
            }),
    {
        if delegator == delegatee {
            return Err(Error::SelfDelegation);
        }
        match self.find_delegation_index(delegator) {
            Some(i) => {
                self.delegations.set(i, (delegator, delegatee));
                proof {
                    lemma_lookup_update_all(old(self).delegations@, i as int, delegatee);
                    assert(forall|j: int|
                        0 <= j < self.delegations@.len() ==> (#[trigger] self.delegations@[j]).0
                            == old(self).delegations@[j].0);
                }
            },
            None => {
                self.delegations.push((delegator, delegatee));
                proof {
                    lemma_lookup_push_all(old(self).delegations@, delegator, delegatee);
                }
            },
        }
        Ok(())
    }

    /// Admin-only: upsert the tally rules for a category key.
    pub fn set_category_settings(&mut self, caller: u64, category: u32, quorum_power: i128,
        approval_percent: u32, timelock_duration: u64) -> (r: Result<(), Error>)
        requires
            old(self).wf(),
        ensures
            final(self).wf(),
            r is Err ==> *final(self) == *old(self),
            (r == Err::<(), Error>(Error::NotAuthorized)) <==> caller != old(self).admin,
            r is Ok <==> caller == old(self).admin,
            r is Ok ==> ({
                &&& assoc_lookup(final(self).categories@, category) == Some(
                    CategorySettings { quorum_power, approval_percent, timelock_duration },
                )
                &&& forall|k: u32|
                    k != category ==> assoc_lookup(final(self).categories@, k) == assoc_lookup(
                        old(self).categories@,
                        k,
                    )
                &&& final(self).proposals == old(self).proposals
                &&& final(self).voted == old(self).voted
                &&& final(self).delegations == old(self).delegations
                &&& final(self).admin == old(self).admin
                &&& final(self).vote_token == old(self).vote_token
                &&& final(self).min_proposal_power == old(self).min_proposal_power
                &&& final(self).emergency == old(self).emergency
            }),
    {
        if caller != self.admin {
            return Err(Error::NotAuthorized);
        }
        let cs = CategorySettings { quorum_power, approval_percent, timelock_duration };
        match self.find_category_index(category) {
            Some(i) => {
                self.categories.set(i, (category, cs));
                proof {
                    lemma_lookup_update_all(old(self).categories@, i as int, cs);
                    assert(forall|j: int|
                        0 <= j < self.categories@.len() ==> (#[trigger] self.categories@[j]).0
                            == old(self).categories@[j].0);
                }
            },
            None => {
                self.categories.push((category, cs));
                proof {
                    lemma_lookup_push_all(old(self).categories@, category, cs);
                }
            },
        }
        Ok(())
    }

    /// Open a proposal. The host resolves the proposer's voting power and
    /// passes it in; proposals below the configured minimum are refused.
    /// Ids are handed out sequentially from 1.
    pub fn create_proposal(&mut self, proposer: u64, proposer_power: i128,
        action: GovernanceAction, category: ProposalCategory, description: String, now_seq: u64)
        -> (r: Result<u32, Error>)
        requires
            old(self).wf(),
            old(self).proposals@.len() < u32::MAX,
        ensures
            final(self).wf(),
            r is Err ==> *final(self) == *old(self),
            (r == Err::<u32, Error>(Error::InsufficientProposalPower)) <==> proposer_power < old(
                self,
            ).min_proposal_power,
            r is Ok <==> proposer_power >= old(self).min_proposal_power,
            r is Ok ==> ({
                let p = final(self).proposals@.last();
                &&& r->Ok_0 == old(self).proposals@.len() + 1
                &&& final(self).proposals@.len() == old(self).proposals@.len() + 1
                &&& forall|j: int|
                    0 <= j < old(self).proposals@.len() ==> final(self).proposals@[j] == old(
                        self,
                    ).proposals@[j]
                &&& p.id == old(self).proposals@.len() + 1
                &&& p.proposer == proposer
                &&& p.action == action
                &&& p.category == category
                &&& p.description == description
                &&& p.created_at == now_seq
                &&& p.total_votes_for == 0
                &&& p.total_votes_against == 0
                &&& p.status == ProposalStatus::Active
                &&& p.queued_at == 0
                &&& final(self).voted == old(self).voted
                &&& final(self).delegations == old(self).delegations
                &&& final(self).categories == old(self).categories
            }),
    {
        if proposer_power < self.min_proposal_power {
            return Err(Error::InsufficientProposalPower);
        }
        let id = self.proposals.len() as u32 + 1;
        let p = Proposal {
            id,
            proposer,
            action,
            category,
            description,
            created_at: now_seq,
            total_votes_for: 0,
            total_votes_against: 0,
            status: ProposalStatus::Active,
            queued_at: 0,
        };
        self.proposals.push(p);
        Ok(id)
    }

    /// Has this voter already voted on this proposal?
    pub fn has_voted(&self, prop_id: u32, voter: u64) -> (r: bool)
        ensures
            r == self.voted@.contains((prop_id, voter)),
    {
        let mut i: usize = 0;
        while i < self.voted.len()
            invariant
                i <= self.voted@.len(),
                forall|j: int| 0 <= j < i ==> #[trigger] self.voted@[j] != (prop_id, voter),
            decreases self.voted@.len() - i,
        {
            let e = self.voted[i];
            if e.0 == prop_id && e.1 == voter {
                assert(self.voted@.contains((prop_id, voter))) by {
                    assert(self.voted@[i as int] == (prop_id, voter));
                }
                return true;
            }
            i = i + 1;
        }
        assert(!self.voted@.contains((prop_id, voter)));
        false
    }

    /// Check every listed delegator's delegation and add up the powers:
    /// the voter's own plus each delegator's.
    fn resolve_power(&self, voter: u64, voter_power: i128, delegators: &Vec<(u64, i128)>) -> (r:
        Result<i128, Error>)
        requires
            voter_power >= 0,
            forall|j: int| 0 <= j < delegators@.len() ==> (#[trigger] delegators@[j]).1 >= 0,
            voter_power + sum_powers(delegators@) <= i128::MAX,
        ensures
            match r {
                Ok(p) => {
                    &&& p == voter_power + sum_powers(delegators@)
                    &&& p >= 0
                    &&& forall|j: int|
                        0 <= j < delegators@.len() ==> assoc_lookup(
                            self.delegations@,
                            (#[trigger] delegators@[j]).0,
                        ) == Some(voter)
                },
                Err(e) => {
                    &&& e == Error::InvalidDelegator
                    &&& exists|j: int|
                        0 <= j < delegators@.len() && assoc_lookup(
                            self.delegations@,
                            (#[trigger] delegators@[j]).0,
                        ) != Some(voter)
                },
            },
    {
        let mut total: i128 = voter_power;
        let mut i: usize = 0;
        proof {
            assert(delegators@.take(0) =~= Seq::<(u64, i128)>::empty());
        }
        while i < delegators.len()
            invariant
                i <= delegators@.len(),
                voter_power >= 0,
                total >= 0,
                forall|j: int| 0 <= j < delegators@.len() ==> (#[trigger] delegators@[j]).1 >= 0,
                voter_power + sum_powers(delegators@) <= i128::MAX,
                total == voter_power + sum_powers(delegators@.take(i as int)),
                forall|j: int|
                    0 <= j < i ==> assoc_lookup(
                        self.delegations@,
                        (#[trigger] delegators@[j]).0,
                    ) == Some(voter),
            decreases delegators@.len() - i,
        {
            let d = delegators[i];
            let target = self.get_delegation(d.0);
            let valid = match target {
                Some(t) => t == voter,
                None => false,
            };
            if !valid {
                assert(assoc_lookup(self.delegations@, delegators@[i as int].0) != Some(voter));
                return Err(Error::InvalidDelegator);
            }
            proof {
                lemma_sum_powers_take_succ(delegators@, i as int);
                lemma_sum_powers_prefix_le(delegators@, i as int + 1);
                lemma_sum_powers_prefix_le(delegators@, i as int);
            }
            total = total + d.1;
            i = i + 1;
        }
        proof {
            assert(delegators@.take(delegators@.len() as int) =~= delegators@);
        }
        Ok(total)
    }
    /// A proposal that can still receive votes or be queued.
    pub open spec fn votable(p: Proposal) -> bool {
        p.status == ProposalStatus::Pending || p.status == ProposalStatus::Active
    }

    /// Whether a tally passes a category's quorum and approval rules.
    pub open spec fn tally_passes(p: Proposal, cs: CategorySettings) -> bool {
        let total = p.total_votes_for + p.total_votes_against;
        &&& total >= cs.quorum_power
        &&& total > 0
        &&& p.total_votes_for * 100 / total >= cs.approval_percent
    }

    /// Cast a ballot. The host resolves the voter's and each listed
    /// delegator's token power and passes them in; this engine rejects
    /// double votes and stale proposals, verifies that every listed
    /// delegator has delegated to the voter, applies quadratic weighting
    /// when asked, and moves the tally by exactly the effective power.
    pub fn vote(&mut self, voter: u64, voter_power: i128, prop_id: u32, support: bool,
        use_quadratic: bool, delegators: &Vec<(u64, i128)>) -> (r: Result<(), Error>)
        requires
            old(self).wf(),
            voter_power >= 0,
            forall|j: int| 0 <= j < delegators@.len() ==> (#[trigger] delegators@[j]).1 >= 0,
            voter_power + sum_powers(delegators@) <= i128::MAX,
            old(self).knows(prop_id) ==> old(self).proposals@[prop_id - 1].total_votes_for + old(
                self,
            ).proposals@[prop_id - 1].total_votes_against + effective_power(
                voter_power,
                delegators@,
                use_quadratic,
            ) <= MAX_TOTAL_VOTES,
        ensures
            final(self).wf(),
            r is Err ==> *final(self) == *old(self),
            (r == Err::<(), Error>(Error::UnknownProposal)) <==> !old(self).knows(prop_id),
            old(self).knows(prop_id) ==> ((r == Err::<(), Error>(Error::AlreadyVoted))
                <==> old(self).voted@.contains((prop_id, voter))),
            old(self).knows(prop_id) && !old(self).voted@.contains((prop_id, voter)) ==> ((r
                == Err::<(), Error>(Error::ProposalNotActive)) <==> !Self::votable(
                old(self).proposals@[prop_id - 1],
            )),
            old(self).knows(prop_id) && !old(self).voted@.contains((prop_id, voter))
                && Self::votable(old(self).proposals@[prop_id - 1]) ==> ((r == Err::<(), Error>(
                Error::InvalidDelegator,
            )) <==> exists|j: int|
                0 <= j < delegators@.len() && assoc_lookup(
                    old(self).delegations@,
                    (#[trigger] delegators@[j]).0,
                ) != Some(voter)),
            r is Ok <==> (old(self).knows(prop_id) && !old(self).voted@.contains((prop_id, voter))
                && Self::votable(old(self).proposals@[prop_id - 1]) && forall|j: int|
                0 <= j < delegators@.len() ==> assoc_lookup(
                    old(self).delegations@,
                    (#[trigger] delegators@[j]).0,
                ) == Some(voter)),
            r is Ok ==> ({
                let p0 = old(self).proposals@[prop_id - 1];
                let p1 = final(self).proposals@[prop_id - 1];
                let power = effective_power(voter_power, delegators@, use_quadratic);
                &&& final(self).proposals@.len() == old(self).proposals@.len()
                &&& p1.total_votes_for == p0.total_votes_for + if support {
                    power
                } else {
                    0int
                }
                &&& p1.total_votes_against == p0.total_votes_against + if support {
                    0int
                } else {
                    power
                }
                &&& p1.id == p0.id
                &&& p1.proposer == p0.proposer
                &&& p1.action == p0.action
                &&& p1.category == p0.category
                &&& p1.description == p0.description
                &&& p1.created_at == p0.created_at
                &&& p1.status == p0.status
                &&& p1.queued_at == p0.queued_at
                &&& forall|j: int|
                    0 <= j < old(self).proposals@.len() && j != prop_id - 1 ==> final(self).proposals@[j] == old(self).proposals@[j]
                &&& final(self).voted@ == old(self).voted@.push((prop_id, voter))
                &&& final(self).delegations == old(self).delegations
                &&& final(self).categories == old(self).categories
                &&& final(self).admin == old(self).admin
                &&& final(self).vote_token == old(self).vote_token
                &&& final(self).min_proposal_power == old(self).min_proposal_power
                &&& final(self).emergency == old(self).emergency
            }),
    {
        if !(1 <= prop_id && (prop_id as usize) <= self.proposals.len()) {
            return Err(Error::UnknownProposal);
        }
        if self.has_voted(prop_id, voter) {
            return Err(Error::AlreadyVoted);
        }
        let idx = (prop_id - 1) as usize;
        let active = match self.proposals[idx].status {
            ProposalStatus::Pending => true,
            ProposalStatus::Active => true,
            _ => false,
        };
        if !active {
            return Err(Error::ProposalNotActive);
        }
        let base = match self.resolve_power(voter, voter_power, delegators) {
            Ok(p) => p,
            Err(e) => { return Err(e) },
        };
        let power = if use_quadratic {
            proof {
                crate::math::lemma_sqrt_floor_le(base as int);
            }
            isqrt(base)
        } else {
            base
        };
        proof {
            assert(power == effective_power(voter_power, delegators@, use_quadratic));
            assert(0 <= power) by {
                if use_quadratic {
                    crate::math::lemma_sqrt_floor_bounds(base as int);
                }
            }
        }
        if support {
            let v = self.proposals[idx].total_votes_for;
            self.proposals[idx].total_votes_for = v + power;
        } else {
            let v = self.proposals[idx].total_votes_against;
            self.proposals[idx].total_votes_against = v + power;
        }
        self.voted.push((prop_id, voter));
        Ok(())
    }

    /// Close the voting window and tally. A proposal that meets its
    /// category's quorum and approval threshold is queued behind the
    /// execution timelock; one that does not is defeated. Either outcome is
    /// returned and recorded.
    pub fn queue(&mut self, prop_id: u32, now_seq: u64, now_time: u64) -> (r: Result<
        ProposalStatus,
        Error,
    >)
        requires
            old(self).wf(),
            old(self).knows(prop_id) ==> now_seq >= old(self).proposals@[prop_id - 1].created_at,
        ensures
            final(self).wf(),
            r is Err ==> *final(self) == *old(self),
            (r == Err::<ProposalStatus, Error>(Error::UnknownProposal)) <==> !old(self).knows(
                prop_id,
            ),
            old(self).knows(prop_id) ==> ((r == Err::<ProposalStatus, Error>(
                Error::ProposalNotActive,
            )) <==> !Self::votable(old(self).proposals@[prop_id - 1])),
            old(self).knows(prop_id) && Self::votable(old(self).proposals@[prop_id - 1]) ==> ((r
                == Err::<ProposalStatus, Error>(Error::VotingPeriodNotEnded)) <==> now_seq < old(
                self,
            ).proposals@[prop_id - 1].created_at + VOTING_PERIOD),
            r is Ok <==> (old(self).knows(prop_id) && Self::votable(
                old(self).proposals@[prop_id - 1],
            ) && now_seq >= old(self).proposals@[prop_id - 1].created_at + VOTING_PERIOD),
            r is Ok ==> ({
                let p0 = old(self).proposals@[prop_id - 1];
                let p1 = final(self).proposals@[prop_id - 1];
                let passed = Self::tally_passes(p0, old(self).settings_for(p0.category));
                &&& r->Ok_0 == if passed {
                    ProposalStatus::Queued
                } else {
                    ProposalStatus::Defeated
                }
                &&& p1.status == r->Ok_0
                &&& p1.queued_at == if passed {
                    now_time
                } else {
                    p0.queued_at
                }
                &&& final(self).proposals@.len() == old(self).proposals@.len()
                &&& p1.id == p0.id
                &&& p1.proposer == p0.proposer
                &&& p1.action == p0.action
                &&& p1.category == p0.category
                &&& p1.description == p0.description
                &&& p1.created_at == p0.created_at
                &&& p1.total_votes_for == p0.total_votes_for
                &&& p1.total_votes_against == p0.total_votes_against
                &&& forall|j: int|
                    0 <= j < old(self).proposals@.len() && j != prop_id - 1 ==> final(self).proposals@[j] == old(self).proposals@[j]
                &&& final(self).voted == old(self).voted
                &&& final(self).delegations == old(self).delegations
                &&& final(self).categories == old(self).categories
                &&& final(self).admin == old(self).admin
                &&& final(self).vote_token == old(self).vote_token
                &&& final(self).min_proposal_power == old(self).min_proposal_power
                &&& final(self).emergency == old(self).emergency
            }),
    {
        if !(1 <= prop_id && (prop_id as usize) <= self.proposals.len()) {
            return Err(Error::UnknownProposal);
        }
        let idx = (prop_id - 1) as usize;
        let active = match self.proposals[idx].status {
            ProposalStatus::Pending => true,
            ProposalStatus::Active => true,
            _ => false,
        };
        if !active {
            return Err(Error::ProposalNotActive);
        }
        if now_seq - self.proposals[idx].created_at < VOTING_PERIOD {
            return Err(Error::VotingPeriodNotEnded);
        }
        let vf = self.proposals[idx].total_votes_for;
        let va = self.proposals[idx].total_votes_against;
        let total = vf + va;
        let cs = self.get_settings(self.proposals[idx].category);
        let passed = if total >= cs.quorum_power && total > 0 {
            proof {
                lemma_mul_inequality(vf as int, MAX_TOTAL_VOTES as int, 100);
            }
            let appr = div_floor(vf * 100, total);
            appr >= cs.approval_percent as i128
        } else {
            false
        };
        if passed {
            self.proposals[idx].status = ProposalStatus::Queued;
            self.proposals[idx].queued_at = now_time;
            Ok(ProposalStatus::Queued)
        } else {
            self.proposals[idx].status = ProposalStatus::Defeated;
            Ok(ProposalStatus::Defeated)
        }
    }

    /// Run a queued proposal once its category's timelock has elapsed since
    /// queueing. The host dispatches the action's effect; here the proposal
    /// becomes `Executed`.
    pub fn execute(&mut self, prop_id: u32, now_time: u64) -> (r: Result<(), Error>)
        requires
            old(self).wf(),
            old(self).knows(prop_id) && old(self).proposals@[prop_id - 1].status
                == ProposalStatus::Queued ==> now_time >= old(self).proposals@[prop_id
                - 1].queued_at,
        ensures
            final(self).wf(),
            r is Err ==> *final(self) == *old(self),
            (r == Err::<(), Error>(Error::UnknownProposal)) <==> !old(self).knows(prop_id),
            old(self).knows(prop_id) ==> ((r == Err::<(), Error>(Error::ProposalNotActive)) <==> 
                old(self).proposals@[prop_id - 1].status != ProposalStatus::Queued),
            old(self).knows(prop_id) && old(self).proposals@[prop_id - 1].status
                == ProposalStatus::Queued ==> ((r == Err::<(), Error>(Error::TimelockNotExpired))
                <==> now_time < old(self).proposals@[prop_id - 1].queued_at + old(
                self,
            ).settings_for(old(self).proposals@[prop_id - 1].category).timelock_duration),
            r is Ok <==> (old(self).knows(prop_id) && old(self).proposals@[prop_id - 1].status
                == ProposalStatus::Queued && now_time >= old(self).proposals@[prop_id - 1].queued_at
                + old(self).settings_for(
                old(self).proposals@[prop_id - 1].category,
            ).timelock_duration),
            r is Ok ==> ({
                let p0 = old(self).proposals@[prop_id - 1];
                let p1 = final(self).proposals@[prop_id - 1];
                &&& p1.status == ProposalStatus::Executed
                &&& final(self).proposals@.len() == old(self).proposals@.len()
                &&& p1.id == p0.id
                &&& p1.proposer == p0.proposer
                &&& p1.action == p0.action
                &&& p1.category == p0.category
                &&& p1.description == p0.description
                &&& p1.created_at == p0.created_at
                &&& p1.total_votes_for == p0.total_votes_for
                &&& p1.total_votes_against == p0.total_votes_against
                &&& p1.queued_at == p0.queued_at
                &&& forall|j: int|
                    0 <= j < old(self).proposals@.len() && j != prop_id - 1 ==> final(self).proposals@[j] == old(self).proposals@[j]
                &&& final(self).voted == old(self).voted
                &&& final(self).delegations == old(self).delegations
                &&& final(self).categories == old(self).categories
                &&& final(self).admin == old(self).admin
                &&& final(self).vote_token == old(self).vote_token
                &&& final(self).min_proposal_power == old(self).min_proposal_power
                &&& final(self).emergency == old(self).emergency
            }),
    {
        if !(1 <= prop_id && (prop_id as usize) <= self.proposals.len()) {
            return Err(Error::UnknownProposal);
        }
        let idx = (prop_id - 1) as usize;
        let queued = match self.proposals[idx].status {
            ProposalStatus::Queued => true,
            _ => false,
        };
        if !queued {
            return Err(Error::ProposalNotActive);
        }
        let cs = self.get_settings(self.proposals[idx].category);
        if now_time - self.proposals[idx].queued_at < cs.timelock_duration {
            return Err(Error::TimelockNotExpired);
        }
        self.proposals[idx].status = ProposalStatus::Executed;
        Ok(())
    }

    /// Withdraw a proposal that has not yet run or failed. Only the
    /// proposer or the admin may cancel.
    pub fn cancel_proposal(&mut self, caller: u64, prop_id: u32) -> (r: Result<(), Error>)
        requires
            old(self).wf(),
        ensures
            final(self).wf(),
            r is Err ==> *final(self) == *old(self),
            (r == Err::<(), Error>(Error::UnknownProposal)) <==> !old(self).knows(prop_id),
            old(self).knows(prop_id) ==> ((r == Err::<(), Error>(Error::NotAuthorized)) <==> (
            caller != old(self).proposals@[prop_id - 1].proposer && caller != old(self).admin)),
            old(self).knows(prop_id) && (caller == old(self).proposals@[prop_id - 1].proposer
                || caller == old(self).admin) ==> ((r == Err::<(), Error>(Error::ProposalNotActive))
                <==> !(Self::votable(old(self).proposals@[prop_id - 1]) || old(
                self,
            ).proposals@[prop_id - 1].status == ProposalStatus::Queued)),
            r is Ok <==> (old(self).knows(prop_id) && (caller == old(self).proposals@[prop_id
                - 1].proposer || caller == old(self).admin) && (Self::votable(
                old(self).proposals@[prop_id - 1],
            ) || old(self).proposals@[prop_id - 1].status == ProposalStatus::Queued)),
            r is Ok ==> ({
                let p0 = old(self).proposals@[prop_id - 1];
                let p1 = final(self).proposals@[prop_id - 1];
                &&& p1.status == ProposalStatus::Cancelled
                &&& final(self).proposals@.len() == old(self).proposals@.len()
                &&& p1.id == p0.id
                &&& p1.proposer == p0.proposer
                &&& p1.action == p0.action
                &&& p1.category == p0.category
                &&& p1.description == p0.description
                &&& p1.created_at == p0.created_at
                &&& p1.total_votes_for == p0.total_votes_for
                &&& p1.total_votes_against == p0.total_votes_against
                &&& p1.queued_at == p0.queued_at
                &&& forall|j: int|
                    0 <= j < old(self).proposals@.len() && j != prop_id - 1 ==> final(self).proposals@[j] == old(self).proposals@[j]
                &&& final(self).voted == old(self).voted
                &&& final(self).delegations == old(self).delegations
                &&& final(self).categories == old(self).categories
                &&& final(self).admin == old(self).admin
                &&& final(self).vote_token == old(self).vote_token
                &&& final(self).min_proposal_power == old(self).min_proposal_power
                &&& final(self).emergency == old(self).emergency
            }),
    {
        if !(1 <= prop_id && (prop_id as usize) <= self.proposals.len()) {
            return Err(Error::UnknownProposal);
        }
        let idx = (prop_id - 1) as usize;
        if caller != self.proposals[idx].proposer && caller != self.admin {
            return Err(Error::NotAuthorized);
        }
        let cancellable = match self.proposals[idx].status {
            ProposalStatus::Pending => true,
            ProposalStatus::Active => true,
            ProposalStatus::Queued => true,
            _ => false,
        };
        if !cancellable {
            return Err(Error::ProposalNotActive);
        }
        self.proposals[idx].status = ProposalStatus::Cancelled;
        Ok(())
    }

    /// Circuit breaker: the configured emergency identity may have an
    /// action dispatched at once, bypassing proposals, votes, quorum and
    /// timelock. No stored state changes; the host dispatches the effect
    /// and emits the audit event.
    pub fn emergency_action(&self, caller: u64, action: &GovernanceAction) -> (r: Result<
        (),
        Error,
    >)
        ensures
            (r == Err::<(), Error>(Error::NotAuthorized)) <==> caller != self.emergency,
            r is Ok <==> caller == self.emergency,
    {
        let _ = action;
        if caller != self.emergency {
            return Err(Error::NotAuthorized);
        }
        Ok(())
    }
}

} // verus!
