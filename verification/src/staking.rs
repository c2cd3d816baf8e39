use vstd::prelude::*;

verus! {

use crate::errors::Error;
use crate::math::div_floor;
use crate::math::lemma_div_exact;
use crate::math::lemma_div_le_mul_bound;
use crate::math::PRECISION;
use crate::table::assoc_lookup;
use crate::table::distinct_keys;
use crate::table::lemma_lookup_at;
use crate::table::lemma_lookup_none;
use crate::table::lemma_lookup_none_inverse;
use crate::table::lemma_lookup_push;
use crate::table::lemma_lookup_push_all;
use crate::table::lemma_lookup_update;
use crate::table::lemma_lookup_update_all;
use vstd::arithmetic::div_mod::lemma_div_multiples_vanish;
use vstd::arithmetic::div_mod::lemma_div_of0;
use vstd::arithmetic::div_mod::lemma_div_pos_is_pos;
use vstd::arithmetic::mul::lemma_mul_inequality;
use vstd::arithmetic::mul::lemma_mul_nonnegative;

/// Immutable engine configuration, fixed at initialization. Identities
/// (admin and token contracts) are opaque handles issued by the host.
#[derive(Clone, Copy, Debug, PartialEq, Eq, Structural)]
pub struct Config {
    pub admin: u64,
    pub staking_token: u64,
    pub reward_token: u64,
    /// Reward units emitted per second, shared over all staked shares.
    pub reward_rate: i128,
}

/// A staking bracket: staking at least `min_amount` under this tier weights
/// the stake by `reward_multiplier` percent (100 = 1.0x).
#[derive(Clone, Copy, Debug, PartialEq, Eq, Structural)]
pub struct Tier {
    pub min_amount: i128,
    pub reward_multiplier: u32,
}

/// One user's staking record.
#[derive(Clone, Copy, Debug, PartialEq, Eq, Structural)]
pub struct UserInfo {
    /// Principal staked.
    pub amount: i128,
    /// Reward-weighting units: principal scaled by the tier multiplier.
    pub shares: i128,
    /// Value of the global accumulator when this record was last settled.
    pub reward_per_token_paid: i128,
    /// Accrued but unclaimed reward.
    pub rewards: i128,
    pub lock_start_time: u64,
    pub lock_duration: u64,
    pub tier_id: u32,
}

/// A scheduled two-phase contract upgrade: the new code hash may be applied
/// once the unlock time has passed.
#[derive(Debug)]
pub struct UpgradeTimelock {
    pub new_code_hash: Vec<u8>,
    pub unlock_time: u64,
}

/// The staking engine's whole persistent state: configuration, tier table,
/// per-user records, the global reward accumulator, and the upgrade schedule.
///
/// The host owns storage and token movement; every operation takes the
/// current time (and the authenticated caller where a role is required) and
/// returns the amount of tokens the host must transfer.
pub struct StakingEngine {
    pub config: Config,
    pub tiers: Vec<(u32, Tier)>,
    pub users: Vec<(u64, UserInfo)>,
    /// Scaled cumulative reward per unit share; monotonically non-decreasing.
    pub reward_per_token_stored: i128,
    pub last_update_time: u64,
    /// Always the sum of all users' shares.
    pub total_shares: i128,
    pub upgrade: Option<UpgradeTimelock>,
    pub version: u32,
}

/// Sum of the share balances of every record in the table.
pub open spec fn sum_shares(s: Seq<(u64, UserInfo)>) -> int
    decreases s.len(),
{
    if s.len() == 0 {
        0
    } else {
        sum_shares(s.drop_last()) + s.last().1.shares
    }
}

/// Replacing one record moves the sum by the difference in shares.
pub proof fn lemma_sum_update(s: Seq<(u64, UserInfo)>, i: int, x: (u64, UserInfo))
    requires
        0 <= i < s.len(),
    ensures
        sum_shares(s.update(i, x)) == sum_shares(s) - s[i].1.shares + x.1.shares,
    decreases s.len(),
{
    let u = s.update(i, x);
    if i == s.len() - 1 {
        assert(u.drop_last() =~= s.drop_last());
    } else {
        assert(u.drop_last() =~= s.drop_last().update(i, x));
        lemma_sum_update(s.drop_last(), i, x);
    }
}

/// Appending a record adds its shares to the sum.
pub proof fn lemma_sum_push(s: Seq<(u64, UserInfo)>, x: (u64, UserInfo))
    ensures
        sum_shares(s.push(x)) == sum_shares(s) + x.1.shares,
{
    assert(s.push(x).drop_last() =~= s);
}

/// When every record's shares are non-negative, each single record's shares
/// are bounded by the sum.
pub proof fn lemma_elem_le_sum(s: Seq<(u64, UserInfo)>, i: int)
    requires
        0 <= i < s.len(),
        forall|j: int| 0 <= j < s.len() ==> (#[trigger] s[j]).1.shares >= 0,
    ensures
        s[i].1.shares <= sum_shares(s),
    decreases s.len(),
{
    if i == s.len() - 1 {
        lemma_sum_nonneg(s.drop_last());
    } else {
        lemma_elem_le_sum(s.drop_last(), i);
    }
}

/// A table of non-negative share balances has a non-negative sum.
pub proof fn lemma_sum_nonneg(s: Seq<(u64, UserInfo)>)
    requires
        forall|j: int| 0 <= j < s.len() ==> (#[trigger] s[j]).1.shares >= 0,
    ensures
        sum_shares(s) >= 0,
    decreases s.len(),
{
    if s.len() > 0 {
        lemma_sum_nonneg(s.drop_last());
    }
}

impl StakingEngine {
    /// One user record is consistent with the engine around it.
    pub open spec fn user_ok(self, u: UserInfo) -> bool {
        &&& u.amount >= 0
        &&& u.shares >= 0
        &&& u.rewards >= 0
        &&& 0 <= u.reward_per_token_paid <= self.reward_per_token_stored
        &&& u.lock_start_time <= self.last_update_time
        &&& assoc_lookup(self.tiers@, u.tier_id) is Some
    }

    /// The engine's invariant. In particular `total_shares` always equals the
    /// sum of every user's shares, and the accumulator never moves backwards
    /// past any user's checkpoint.
    pub open spec fn wf(self) -> bool {
        &&& self.config.reward_rate >= 0
        &&& self.reward_per_token_stored >= 0
        &&& distinct_keys(self.tiers@)
        &&& distinct_keys(self.users@)
        &&& self.total_shares == sum_shares(self.users@)
        &&& forall|i: int| 0 <= i < self.users@.len() ==> self.user_ok(
            (#[trigger] self.users@[i]).1,
        )
    }

    /// The accumulator value after a checkpoint at `now`: elapsed time times
    /// the emission rate, scaled and divided over all shares. With nothing
    /// staked, no reward accrues and only the clock advances.
    pub open spec fn checkpointed_rpt(self, now: u64) -> int {
        if self.total_shares > 0 {
            self.reward_per_token_stored + (self.config.reward_rate * (now
                - self.last_update_time) * PRECISION) / (self.total_shares as int)
        } else {
            self.reward_per_token_stored as int
        }
    }

    /// Machine-width bound: the checkpoint arithmetic stays inside `i128`.
    pub open spec fn checkpoint_ok(self, now: u64) -> bool {
        &&& now >= self.last_update_time
        &&& self.config.reward_rate * (now - self.last_update_time) * PRECISION <= i128::MAX
        &&& self.checkpointed_rpt(now) <= i128::MAX
    }

    /// A user's reward once settled against accumulator value `rpt`.
    pub open spec fn settled(u: UserInfo, rpt: int) -> int {
        u.rewards + (u.shares * (rpt - u.reward_per_token_paid)) / (PRECISION as int)
    }

    /// Machine-width bound: settling this record against `rpt` stays inside
    /// `i128`.
    pub open spec fn settle_ok(u: UserInfo, rpt: int) -> bool {
        &&& u.shares * (rpt - u.reward_per_token_paid) <= i128::MAX
        &&& Self::settled(u, rpt) <= i128::MAX
    }

    /// The user's record, or an all-zero record for a user never seen.
    pub open spec fn user_or_default(self, user: u64) -> UserInfo {
        match assoc_lookup(self.users@, user) {
            Some(u) => u,
            None => UserInfo {
                amount: 0,
                shares: 0,
                reward_per_token_paid: 0,
                rewards: 0,
                lock_start_time: 0,
                lock_duration: 0,
                tier_id: 0,
            },
        }
    }

    /// What a claim at `now` would pay the user: the record settled against
    /// the freshly checkpointed accumulator.
    pub open spec fn claim_amount(self, user: u64, now: u64) -> int {
        Self::settled(self.user_or_default(user), self.checkpointed_rpt(now))
    }

    /// A fresh engine: empty tables, accumulator at zero, version 1.
    pub fn initialize(admin: u64, staking_token: u64, reward_token: u64, reward_rate: i128) -> (s:
        Self)
        requires
            reward_rate >= 0,
        ensures
            s.wf(),
            s.config == (Config { admin, staking_token, reward_token, reward_rate }),
            s.tiers@.len() == 0,
            s.users@.len() == 0,
            s.reward_per_token_stored == 0,
            s.last_update_time == 0,
            s.total_shares == 0,
            s.upgrade is None,
            s.version == 1,
    {
        StakingEngine {
            config: Config { admin, staking_token, reward_token, reward_rate },
            tiers: Vec::new(),
            users: Vec::new(),
            reward_per_token_stored: 0,
            last_update_time: 0,
            total_shares: 0,
            upgrade: None,
            version: 1,
        }
    }

    /// Index of the tier entry with this id, with the first-occurrence facts
    /// the update lemmas need.
    fn find_tier_index(&self, tier_id: u32) -> (r: Option<usize>)
        ensures
            match r {
                Some(i) => {
                    &&& i < self.tiers@.len()
                    &&& self.tiers@[i as int].0 == tier_id
                    &&& forall|j: int| 0 <= j < i ==> (#[trigger] self.tiers@[j]).0 != tier_id
                    &&& assoc_lookup(self.tiers@, tier_id) == Some(self.tiers@[i as int].1)
                },
                None => assoc_lookup(self.tiers@, tier_id) is None,
            },
    {
        let mut i: usize = 0;
        while i < self.tiers.len()
            invariant
                i <= self.tiers@.len(),
                forall|j: int| 0 <= j < i ==> (#[trigger] self.tiers@[j]).0 != tier_id,
            decreases self.tiers@.len() - i,
        {
            if self.tiers[i].0 == tier_id {
                proof {
                    lemma_lookup_at(self.tiers@, i as int);
                }
                return Some(i);
            }
            i = i + 1;
        }
        proof {
            lemma_lookup_none(self.tiers@, tier_id);
        }
        None
    }

    /// Index of the user's record, with the first-occurrence facts the update
    /// lemmas need.
    fn find_user(&self, user: u64) -> (r: Option<usize>)
        ensures
            match r {
                Some(i) => {
                    &&& i < self.users@.len()
                    &&& self.users@[i as int].0 == user
                    &&& forall|j: int| 0 <= j < i ==> (#[trigger] self.users@[j]).0 != user
                    &&& assoc_lookup(self.users@, user) == Some(self.users@[i as int].1)
                },
                None => assoc_lookup(self.users@, user) is None,
            },
    {
        let mut i: usize = 0;
        while i < self.users.len()
            invariant
                i <= self.users@.len(),
                forall|j: int| 0 <= j < i ==> (#[trigger] self.users@[j]).0 != user,
            decreases self.users@.len() - i,
        {
            if self.users[i].0 == user {
                proof {
                    lemma_lookup_at(self.users@, i as int);
                }
                return Some(i);
            }
            i = i + 1;
        }
        proof {
            lemma_lookup_none(self.users@, user);
        }
        None
    }

    /// Advance the global accumulator to `now`. Every staking operation does
    /// this first, before touching any user record.
    fn checkpoint(&mut self, now: u64)
        requires
            old(self).wf(),
            old(self).checkpoint_ok(now),
        ensures
            final(self).wf(),
            final(self).reward_per_token_stored == old(self).checkpointed_rpt(now),
            final(self).reward_per_token_stored >= old(self).reward_per_token_stored,
            final(self).last_update_time == now,
            final(self).config == old(self).config,
            final(self).tiers == old(self).tiers,
            final(self).users == old(self).users,
            final(self).total_shares == old(self).total_shares,
            final(self).upgrade == old(self).upgrade,
            final(self).version == old(self).version,
    {
        if self.total_shares > 0 {
            let elapsed: u64 = now - self.last_update_time;
            proof {
                lemma_mul_nonnegative(
                    self.config.reward_rate * (elapsed as int),
                    PRECISION as int,
                );
                lemma_mul_nonnegative(self.config.reward_rate as int, elapsed as int);
                assert(self.config.reward_rate * (elapsed as int) <= self.config.reward_rate * (
                elapsed as int) * PRECISION) by (nonlinear_arith)
                    requires
                        self.config.reward_rate * (elapsed as int) >= 0,
                        PRECISION >= 1,
                ;
            }
            let num: i128 = self.config.reward_rate * (elapsed as i128) * PRECISION;
            let delta: i128 = div_floor(num, self.total_shares);
            proof {
                lemma_div_pos_is_pos(num as int, self.total_shares as int);
            }
            self.reward_per_token_stored = self.reward_per_token_stored + delta;
        }
        self.last_update_time = now;
        proof {
            assert forall|i: int| 0 <= i < self.users@.len() implies self.user_ok(
                (#[trigger] self.users@[i]).1,
            ) by {
                assert(old(self).user_ok(old(self).users@[i].1));
            }
        }
    }

    /// Upsert a staking tier. Admin only; tiers are never removed, so any
    /// tier id a user record refers to keeps resolving.
    pub fn set_tier(&mut self, caller: u64, tier_id: u32, min_amount: i128, reward_multiplier: u32)
        -> (r: Result<(), Error>)
        requires
            old(self).wf(),
        ensures
            final(self).wf(),
            r is Err ==> *final(self) == *old(self),
            (r == Err::<(), Error>(Error::NotAuthorized)) <==> caller != old(self).config.admin,
            r is Ok <==> caller == old(self).config.admin,
            r is Ok ==> {
                &&& assoc_lookup(final(self).tiers@, tier_id) == Some(
                    Tier { min_amount, reward_multiplier },
                )
                &&& forall|t: u32|
                    t != tier_id ==> assoc_lookup(final(self).tiers@, t) == assoc_lookup(
                        old(self).tiers@,
                        t,
                    )
                &&& final(self).users == old(self).users
                &&& final(self).config == old(self).config
                &&& final(self).reward_per_token_stored == old(self).reward_per_token_stored
                &&& final(self).last_update_time == old(self).last_update_time
                &&& final(self).total_shares == old(self).total_shares
                &&& final(self).upgrade == old(self).upgrade
                &&& final(self).version == old(self).version
            },
    {
        if caller != self.config.admin {
            return Err(Error::NotAuthorized);
        }
        let tier = Tier { min_amount, reward_multiplier };
        match self.find_tier_index(tier_id) {
            Some(i) => {
                self.tiers.set(i, (tier_id, tier));
                proof {
                    lemma_lookup_update_all(old(self).tiers@, i as int, tier);
                    assert(forall|j: int|
                        0 <= j < self.tiers@.len() ==> (#[trigger] self.tiers@[j]).0 == old(
                            self,
                        ).tiers@[j].0);
                    self.lemma_tier_upsert_wf(*old(self), tier_id);
                }
            },
            None => {
                self.tiers.push((tier_id, tier));
                proof {
                    lemma_lookup_push_all(old(self).tiers@, tier_id, tier);
                    self.lemma_tier_upsert_wf(*old(self), tier_id);
                }
            },
        }
        Ok(())
    }

    /// Re-establish the engine invariant after a tier upsert: user records
    /// and totals are untouched, and every user's tier still resolves.
    proof fn lemma_tier_upsert_wf(self, prev: Self, tier_id: u32)
        requires
            prev.wf(),
            distinct_keys(self.tiers@),
            assoc_lookup(self.tiers@, tier_id) is Some,
            forall|t: u32|
                t != tier_id ==> assoc_lookup(self.tiers@, t) == assoc_lookup(prev.tiers@, t),
            self.users == prev.users,
            self.config == prev.config,
            self.reward_per_token_stored == prev.reward_per_token_stored,
            self.last_update_time == prev.last_update_time,
            self.total_shares == prev.total_shares,
        ensures
            self.wf(),
    {
        assert forall|i: int| 0 <= i < self.users@.len() implies self.user_ok(
            (#[trigger] self.users@[i]).1,
        ) by {
            assert(prev.user_ok(prev.users@[i].1));
            let t = self.users@[i].1.tier_id;
            if t != tier_id {
                assert(assoc_lookup(self.tiers@, t) == assoc_lookup(prev.tiers@, t));
            }
        }
    }

    /// The configured tier for an id, if any.
    pub fn get_tier(&self, tier_id: u32) -> (r: Option<Tier>)
        ensures
            r == assoc_lookup(self.tiers@, tier_id),
    {
        match self.find_tier_index(tier_id) {
            Some(i) => Some(self.tiers[i].1),
            None => None,
        }
    }

    /// The user's staking record, if any.
    pub fn get_user(&self, user: u64) -> (r: Option<UserInfo>)
        ensures
            r == assoc_lookup(self.users@, user),
    {
        match self.find_user(user) {
            Some(i) => Some(self.users[i].1),
            None => None,
        }
    }
}

impl StakingEngine {
    /// Machine-width bounds under which a successful stake stays inside
    /// `i128`. Callers (the host) reject calls outside them.
    pub open spec fn stake_ok(self, user: u64, amount: i128, tier_id: u32, now: u64) -> bool {
        let rpt = self.checkpointed_rpt(now);
        let u0 = self.user_or_default(user);
        let t = assoc_lookup(self.tiers@, tier_id);
        &&& now >= self.last_update_time
        &&& (amount > 0 && t is Some && amount >= t->Some_0.min_amount ==> {
            let added = (amount * t->Some_0.reward_multiplier) / 100;
            &&& self.checkpoint_ok(now)
            &&& Self::settle_ok(u0, rpt)
            &&& amount * t->Some_0.reward_multiplier <= i128::MAX
            &&& u0.amount + amount <= i128::MAX
            &&& u0.shares + added <= i128::MAX
            &&& self.total_shares + added <= i128::MAX
        })
    }

    /// Stake `amount` under `tier_id` with a fresh lock. Order of effects:
    /// global checkpoint, settlement of the acting user, then the structural
    /// mutation. The host then pulls `amount` staking tokens from the user.
    /// Re-staking resets the lock.
    pub fn stake(&mut self, user: u64, amount: i128, lock_duration: u64, tier_id: u32, now: u64)
        -> (r: Result<(), Error>)
        requires
            old(self).wf(),
            old(self).stake_ok(user, amount, tier_id, now),
        ensures
            final(self).wf(),
            final(self).reward_per_token_stored >= old(self).reward_per_token_stored,
            r is Err ==> *final(self) == *old(self),
            (r == Err::<(), Error>(Error::InvalidAmount)) <==> amount <= 0,
            (r == Err::<(), Error>(Error::UnknownTier)) <==> (amount > 0 && assoc_lookup(
                old(self).tiers@,
                tier_id,
            ) is None),
            (r == Err::<(), Error>(Error::BelowTierMinimum)) <==> (amount > 0 && assoc_lookup(
                old(self).tiers@,
                tier_id,
            ) is Some && amount < assoc_lookup(old(self).tiers@, tier_id)->Some_0.min_amount),
            r is Ok <==> (amount > 0 && assoc_lookup(old(self).tiers@, tier_id) is Some && amount
                >= assoc_lookup(old(self).tiers@, tier_id)->Some_0.min_amount),
            r is Ok ==> ({
                let rpt = old(self).checkpointed_rpt(now);
                let u0 = old(self).user_or_default(user);
                let t = assoc_lookup(old(self).tiers@, tier_id)->Some_0;
                let added = (amount * t.reward_multiplier) / 100;
                let u1 = assoc_lookup(final(self).users@, user);
                &&& final(self).reward_per_token_stored == rpt
                &&& final(self).last_update_time == now
                &&& final(self).total_shares == old(self).total_shares + added
                &&& final(self).config == old(self).config
                &&& final(self).tiers == old(self).tiers
                &&& final(self).upgrade == old(self).upgrade
                &&& final(self).version == old(self).version
                &&& u1 is Some
                &&& u1->Some_0.amount == u0.amount + amount
                &&& u1->Some_0.shares == u0.shares + added
                &&& u1->Some_0.reward_per_token_paid == rpt
                &&& u1->Some_0.rewards == Self::settled(u0, rpt)
                &&& u1->Some_0.lock_start_time == now
                &&& u1->Some_0.lock_duration == lock_duration
                &&& u1->Some_0.tier_id == tier_id
                &&& forall|k: u64|
                    k != user ==> assoc_lookup(final(self).users@, k) == assoc_lookup(
                        old(self).users@,
                        k,
                    )
            }),
    {
        if amount <= 0 {
            return Err(Error::InvalidAmount);
        }
        let tier = match self.find_tier_index(tier_id) {
            None => { return Err(Error::UnknownTier) },
            Some(i) => self.tiers[i].1,
        };
        if amount < tier.min_amount {
            return Err(Error::BelowTierMinimum);
        }
        let found = self.find_user(user);
        self.checkpoint(now);
        let rpt = self.reward_per_token_stored;
        proof {
            lemma_mul_nonnegative(amount as int, tier.reward_multiplier as int);
        }
        let added = div_floor(amount * (tier.reward_multiplier as i128), 100);
        proof {
            lemma_div_pos_is_pos(amount * (tier.reward_multiplier as int), 100);
        }
        match found {
            Some(i) => {
                let u = self.users[i].1;
                proof {
                    assert(old(self).user_ok(u));
                    lemma_mul_nonnegative(u.shares as int, rpt - u.reward_per_token_paid);
                }
                let pending = div_floor(u.shares * (rpt - u.reward_per_token_paid), PRECISION);
                proof {
                    lemma_div_pos_is_pos(
                        u.shares * (rpt - u.reward_per_token_paid),
                        PRECISION as int,
                    );
                }
                let nu = UserInfo {
                    amount: u.amount + amount,
                    shares: u.shares + added,
                    reward_per_token_paid: rpt,
                    rewards: u.rewards + pending,
                    lock_start_time: now,
                    lock_duration,
                    tier_id,
                };
                self.users.set(i, (user, nu));
                self.total_shares = self.total_shares + added;
                proof {
                    self.lemma_user_upsert_wf(*old(self), user, i as int, nu, added as int);
                }
                Ok(())
            },
            None => {
                let nu = UserInfo {
                    amount,
                    shares: added,
                    reward_per_token_paid: rpt,
                    rewards: 0,
                    lock_start_time: now,
                    lock_duration,
                    tier_id,
                };
                proof {
                    lemma_lookup_none_inverse(old(self).users@, user);
                    let u0 = old(self).user_or_default(user);
                    assert(u0.shares * (rpt - u0.reward_per_token_paid) == 0) by (nonlinear_arith)
                        requires u0.shares == 0;
                    lemma_div_of0(PRECISION as int);
                    assert(Self::settled(u0, rpt as int) == 0);
                }
                self.users.push((user, nu));
                self.total_shares = self.total_shares + added;
                proof {
                    self.lemma_user_insert_wf(*old(self), user, nu, added as int);
                }
                Ok(())
            },
        }
    }

    /// Re-establish the invariant and the lookup-level description after one
    /// user record at index `i` (the first with key `user`) was replaced and
    /// `total_shares` moved by `delta`.
    proof fn lemma_user_upsert_wf(self, prev: Self, user: u64, i: int, nu: UserInfo, delta: int)
        requires
            prev.wf(),
            0 <= i < prev.users@.len(),
            prev.users@[i].0 == user,
            forall|j: int| 0 <= j < i ==> (#[trigger] prev.users@[j]).0 != user,
            self.users@ == prev.users@.update(i, (user, nu)),
            self.total_shares == prev.total_shares + delta,
            delta == nu.shares - prev.users@[i].1.shares,
            self.tiers == prev.tiers,
            self.config == prev.config,
            self.reward_per_token_stored >= prev.reward_per_token_stored,
            self.reward_per_token_stored >= 0,
            self.last_update_time >= prev.last_update_time,
            self.user_ok(nu),
        ensures
            self.wf(),
            assoc_lookup(self.users@, user) == Some(nu),
            forall|k: u64|
                k != user ==> assoc_lookup(self.users@, k) == assoc_lookup(prev.users@, k),
    {
        assert forall|k: u64|
            #![trigger assoc_lookup(self.users@, k)]
            true implies assoc_lookup(self.users@, k) == if k == user {
            Some(nu)
        } else {
            assoc_lookup(prev.users@, k)
        } by {
            lemma_lookup_update(prev.users@, i, nu, k);
        }
        lemma_sum_update(prev.users@, i, (user, nu));
        assert(forall|j: int|
            0 <= j < self.users@.len() ==> (#[trigger] self.users@[j]).0 == prev.users@[j].0);
        assert forall|j: int| 0 <= j < self.users@.len() implies self.user_ok(
            (#[trigger] self.users@[j]).1,
        ) by {
            if j != i {
                assert(prev.user_ok(prev.users@[j].1));
                assert(self.users@[j] == prev.users@[j]);
            }
        }
    }

    /// Same as `lemma_user_upsert_wf` for a freshly appended record of a user
    /// that had none.
    proof fn lemma_user_insert_wf(self, prev: Self, user: u64, nu: UserInfo, delta: int)
        requires
            prev.wf(),
            assoc_lookup(prev.users@, user) is None,
            self.users@ == prev.users@.push((user, nu)),
            self.total_shares == prev.total_shares + delta,
            delta == nu.shares,
            self.tiers == prev.tiers,
            self.config == prev.config,
            self.reward_per_token_stored >= prev.reward_per_token_stored,
            self.reward_per_token_stored >= 0,
            self.last_update_time >= prev.last_update_time,
            self.user_ok(nu),
        ensures
            self.wf(),
            assoc_lookup(self.users@, user) == Some(nu),
            forall|k: u64|
                k != user ==> assoc_lookup(self.users@, k) == assoc_lookup(prev.users@, k),
    {
        assert forall|k: u64|
            #![trigger assoc_lookup(self.users@, k)]
            true implies assoc_lookup(self.users@, k) == if k == user {
            Some(nu)
        } else {
            assoc_lookup(prev.users@, k)
        } by {
            lemma_lookup_push(prev.users@, user, nu, k);
        }
        lemma_sum_push(prev.users@, (user, nu));
        lemma_lookup_none_inverse(prev.users@, user);
        assert forall|i: int, j: int|
            0 <= i < j < self.users@.len() implies (#[trigger] self.users@[i]).0 != (
        #[trigger] self.users@[j]).0 by {
            if j < self.users@.len() - 1 {
                assert(prev.users@[i] == self.users@[i]);
                assert(prev.users@[j] == self.users@[j]);
            } else if i < self.users@.len() - 1 {
                assert(prev.users@[i] == self.users@[i]);
            }
        }
        assert forall|j: int| 0 <= j < self.users@.len() implies self.user_ok(
            (#[trigger] self.users@[j]).1,
        ) by {
            if j < self.users@.len() - 1 {
                assert(prev.user_ok(prev.users@[j].1));
                assert(self.users@[j] == prev.users@[j]);
            }
        }
    }
}

impl StakingEngine {
    /// Machine-width bounds under which a successful unstake stays inside
    /// `i128`.
    pub open spec fn unstake_ok(self, user: u64, amount: i128, now: u64) -> bool {
        let rpt = self.checkpointed_rpt(now);
        let u0 = self.user_or_default(user);
        &&& now >= self.last_update_time
        &&& (amount > 0 && assoc_lookup(self.users@, user) is Some && amount <= u0.amount ==> {
            &&& self.checkpoint_ok(now)
            &&& Self::settle_ok(u0, rpt)
            &&& u0.shares * amount <= i128::MAX
            &&& amount * 80 <= i128::MAX
        })
    }

    /// Withdraw `amount` of principal. Before the lock expires the payout is
    /// cut to exactly 80 percent, the withheld 20 percent staying with the
    /// contract; from lock expiry on the payout is the full amount. Shares
    /// leave proportionally to the principal withdrawn. The host transfers
    /// the returned payout to the user.
    pub fn unstake(&mut self, user: u64, amount: i128, now: u64) -> (r: Result<i128, Error>)
        requires
            old(self).wf(),
            old(self).unstake_ok(user, amount, now),
        ensures
            final(self).wf(),
            final(self).reward_per_token_stored >= old(self).reward_per_token_stored,
            r is Err ==> *final(self) == *old(self),
            (r == Err::<i128, Error>(Error::InvalidAmount)) <==> amount <= 0,
            (r == Err::<i128, Error>(Error::InsufficientStake)) <==> (amount > 0 && (assoc_lookup(
                old(self).users@,
                user,
            ) is None || amount > old(self).user_or_default(user).amount)),
            r is Ok <==> (amount > 0 && assoc_lookup(old(self).users@, user) is Some && amount
                <= old(self).user_or_default(user).amount),
            r is Ok ==> ({
                let rpt = old(self).checkpointed_rpt(now);
                let u0 = old(self).user_or_default(user);
                let removed = (u0.shares * amount) / (u0.amount as int);
                let early = now < u0.lock_start_time + u0.lock_duration;
                let u1 = assoc_lookup(final(self).users@, user);
                &&& r->Ok_0 == if early {
                    (amount * 80) / 100
                } else {
                    amount as int
                }
                &&& final(self).reward_per_token_stored == rpt
                &&& final(self).last_update_time == now
                &&& final(self).total_shares == old(self).total_shares - removed
                &&& final(self).config == old(self).config
                &&& final(self).tiers == old(self).tiers
                &&& final(self).upgrade == old(self).upgrade
                &&& final(self).version == old(self).version
                &&& u1 is Some
                &&& u1->Some_0.amount == u0.amount - amount
                &&& u1->Some_0.shares == u0.shares - removed
                &&& u1->Some_0.reward_per_token_paid == rpt
                &&& u1->Some_0.rewards == Self::settled(u0, rpt)
                &&& u1->Some_0.lock_start_time == u0.lock_start_time
                &&& u1->Some_0.lock_duration == u0.lock_duration
                &&& u1->Some_0.tier_id == u0.tier_id
                &&& forall|k: u64|
                    k != user ==> assoc_lookup(final(self).users@, k) == assoc_lookup(
                        old(self).users@,
                        k,
                    )
            }),
    {
        if amount <= 0 {
            return Err(Error::InvalidAmount);
        }
        let i = match self.find_user(user) {
            None => { return Err(Error::InsufficientStake) },
            Some(i) => i,
        };
        let u = self.users[i].1;
        if amount > u.amount {
            return Err(Error::InsufficientStake);
        }
        proof {
            assert(old(self).user_ok(u));
        }
        self.checkpoint(now);
        let rpt = self.reward_per_token_stored;
        proof {
            lemma_mul_nonnegative(u.shares as int, rpt - u.reward_per_token_paid);
        }
        let pending = div_floor(u.shares * (rpt - u.reward_per_token_paid), PRECISION);
        proof {
            lemma_div_pos_is_pos(u.shares * (rpt - u.reward_per_token_paid), PRECISION as int);
            lemma_mul_nonnegative(u.shares as int, amount as int);
            lemma_mul_inequality(amount as int, u.amount as int, u.shares as int);
            assert(u.shares * amount == amount * u.shares) by (nonlinear_arith);
            assert(u.shares * u.amount == u.amount * u.shares) by (nonlinear_arith);
            lemma_div_le_mul_bound(u.shares * amount, u.amount as int, u.shares as int);
            lemma_div_pos_is_pos(u.shares * amount, u.amount as int);
        }
        let removed = div_floor(u.shares * amount, u.amount);
        let early = now - u.lock_start_time < u.lock_duration;
        let payout = if early {
            div_floor(amount * 80, 100)
        } else {
            amount
        };
        let nu = UserInfo {
            amount: u.amount - amount,
            shares: u.shares - removed,
            reward_per_token_paid: rpt,
            rewards: u.rewards + pending,
            lock_start_time: u.lock_start_time,
            lock_duration: u.lock_duration,
            tier_id: u.tier_id,
        };
        proof {
            lemma_elem_le_sum(self.users@, i as int);
        }
        self.users.set(i, (user, nu));
        self.total_shares = self.total_shares - removed;
        proof {
            self.lemma_user_upsert_wf(*old(self), user, i as int, nu, -(removed as int));
        }
        Ok(payout)
    }

    /// Machine-width bounds under which a claim stays inside `i128`.
    pub open spec fn claim_ok(self, user: u64, compound: bool, now: u64) -> bool {
        let rpt = self.checkpointed_rpt(now);
        let u0 = self.user_or_default(user);
        let earned = Self::settled(u0, rpt);
        let t = assoc_lookup(self.tiers@, u0.tier_id);
        &&& now >= self.last_update_time
        &&& (assoc_lookup(self.users@, user) is Some ==> {
            &&& self.checkpoint_ok(now)
            &&& Self::settle_ok(u0, rpt)
            &&& (compound ==> {
                let added = (earned * t->Some_0.reward_multiplier) / 100;
                &&& earned * t->Some_0.reward_multiplier <= i128::MAX
                &&& u0.amount + earned <= i128::MAX
                &&& u0.shares + added <= i128::MAX
                &&& self.total_shares + added <= i128::MAX
            })
        })
    }

    /// Settle and pay out the user's accrued reward. With `compound` the
    /// reward is restaked as additional principal under the user's current
    /// tier instead of being paid out; either way the stored reward balance
    /// drops to zero. The host transfers the returned amount of reward
    /// tokens to the user (zero when compounding). A user with no record
    /// earns nothing and nothing changes.
    pub fn claim(&mut self, user: u64, compound: bool, now: u64) -> (r: Result<i128, Error>)
        requires
            old(self).wf(),
            old(self).claim_ok(user, compound, now),
        ensures
            final(self).wf(),
            final(self).reward_per_token_stored >= old(self).reward_per_token_stored,
            r is Ok,
            assoc_lookup(old(self).users@, user) is None ==> r == Ok::<i128, Error>(0) && *final(self) == *old(self),
            assoc_lookup(old(self).users@, user) is Some ==> ({
                let rpt = old(self).checkpointed_rpt(now);
                let u0 = old(self).user_or_default(user);
                let earned = old(self).claim_amount(user, now);
                let t = assoc_lookup(old(self).tiers@, u0.tier_id)->Some_0;
                let added = (earned * t.reward_multiplier) / 100;
                let u1 = assoc_lookup(final(self).users@, user);
                &&& r->Ok_0 == if compound {
                    0int
                } else {
                    earned
                }
                &&& final(self).reward_per_token_stored == rpt
                &&& final(self).last_update_time == now
                &&& final(self).config == old(self).config
                &&& final(self).tiers == old(self).tiers
                &&& final(self).upgrade == old(self).upgrade
                &&& final(self).version == old(self).version
                &&& u1 is Some
                &&& u1->Some_0.rewards == 0
                &&& u1->Some_0.reward_per_token_paid == rpt
                &&& u1->Some_0.lock_start_time == u0.lock_start_time
                &&& u1->Some_0.lock_duration == u0.lock_duration
                &&& u1->Some_0.tier_id == u0.tier_id
                &&& u1->Some_0.amount == u0.amount + if compound {
                    earned
                } else {
                    0int
                }
                &&& u1->Some_0.shares == u0.shares + if compound {
                    added
                } else {
                    0int
                }
                &&& final(self).total_shares == old(self).total_shares + if compound {
                    added
                } else {
                    0int
                }
                &&& forall|k: u64|
                    k != user ==> assoc_lookup(final(self).users@, k) == assoc_lookup(
                        old(self).users@,
                        k,
                    )
            }),
    {
        let i = match self.find_user(user) {
            None => { return Ok(0) },
            Some(i) => i,
        };
        let u = self.users[i].1;
        proof {
            assert(old(self).user_ok(u));
        }
        self.checkpoint(now);
        let rpt = self.reward_per_token_stored;
        proof {
            lemma_mul_nonnegative(u.shares as int, rpt - u.reward_per_token_paid);
        }
        let pending = div_floor(u.shares * (rpt - u.reward_per_token_paid), PRECISION);
        proof {
            lemma_div_pos_is_pos(u.shares * (rpt - u.reward_per_token_paid), PRECISION as int);
        }
        let earned = u.rewards + pending;
        if compound {
            let tier = match self.find_tier_index(u.tier_id) {
                Some(ti) => self.tiers[ti].1,
                None => {
                    proof {
                        assert(false);
                    }
                    Tier { min_amount: 0, reward_multiplier: 0 }
                },
            };
            proof {
                lemma_mul_nonnegative(earned as int, tier.reward_multiplier as int);
            }
            let added = div_floor(earned * (tier.reward_multiplier as i128), 100);
            proof {
                lemma_div_pos_is_pos(earned * (tier.reward_multiplier as int), 100);
            }
            let nu = UserInfo {
                amount: u.amount + earned,
                shares: u.shares + added,
                reward_per_token_paid: rpt,
                rewards: 0,
                lock_start_time: u.lock_start_time,
                lock_duration: u.lock_duration,
                tier_id: u.tier_id,
            };
            self.users.set(i, (user, nu));
            self.total_shares = self.total_shares + added;
            proof {
                self.lemma_user_upsert_wf(*old(self), user, i as int, nu, added as int);
            }
            Ok(0)
        } else {
            let nu = UserInfo {
                amount: u.amount,
                shares: u.shares,
                reward_per_token_paid: rpt,
                rewards: 0,
                lock_start_time: u.lock_start_time,
                lock_duration: u.lock_duration,
                tier_id: u.tier_id,
            };
            self.users.set(i, (user, nu));
            proof {
                self.lemma_user_upsert_wf(*old(self), user, i as int, nu, 0);
            }
            Ok(earned)
        }
    }

    /// Machine-width bounds under which a slash stays inside `i128`.
    pub open spec fn slash_ok(self, user: u64, amount: i128, now: u64) -> bool {
        let rpt = self.checkpointed_rpt(now);
        let u0 = self.user_or_default(user);
        &&& now >= self.last_update_time
        &&& (amount > 0 && assoc_lookup(self.users@, user) is Some && amount <= u0.amount ==> {
            &&& self.checkpoint_ok(now)
            &&& Self::settle_ok(u0, rpt)
            &&& u0.shares * amount <= i128::MAX
        })
    }

    /// Admin-only forfeiture of `amount` of the user's principal, with the
    /// proportional shares; no tokens move. The user is settled first, so
    /// rewards already earned survive the slash.
    pub fn slash(&mut self, caller: u64, user: u64, amount: i128, now: u64) -> (r: Result<
        (),
        Error,
    >)
        requires
            old(self).wf(),
            old(self).slash_ok(user, amount, now),
        ensures
            final(self).wf(),
            final(self).reward_per_token_stored >= old(self).reward_per_token_stored,
            r is Err ==> *final(self) == *old(self),
            (r == Err::<(), Error>(Error::NotAuthorized)) <==> caller != old(self).config.admin,
            caller == old(self).config.admin ==> ((r == Err::<(), Error>(Error::InvalidAmount))
                <==> amount <= 0),
            caller == old(self).config.admin && amount > 0 ==> ((r == Err::<(), Error>(
                Error::InsufficientStake,
            )) <==> (assoc_lookup(old(self).users@, user) is None || amount > old(
                self,
            ).user_or_default(user).amount)),
            r is Ok <==> (caller == old(self).config.admin && amount > 0 && assoc_lookup(
                old(self).users@,
                user,
            ) is Some && amount <= old(self).user_or_default(user).amount),
            r is Ok ==> ({
                let rpt = old(self).checkpointed_rpt(now);
                let u0 = old(self).user_or_default(user);
                let removed = (u0.shares * amount) / (u0.amount as int);
                let u1 = assoc_lookup(final(self).users@, user);
                &&& final(self).reward_per_token_stored == rpt
                &&& final(self).last_update_time == now
                &&& final(self).total_shares == old(self).total_shares - removed
                &&& final(self).config == old(self).config
                &&& final(self).tiers == old(self).tiers
                &&& final(self).upgrade == old(self).upgrade
                &&& final(self).version == old(self).version
                &&& u1 is Some
                &&& u1->Some_0.amount == u0.amount - amount
                &&& u1->Some_0.shares == u0.shares - removed
                &&& u1->Some_0.reward_per_token_paid == rpt
                &&& u1->Some_0.rewards == Self::settled(u0, rpt)
                &&& u1->Some_0.lock_start_time == u0.lock_start_time
                &&& u1->Some_0.lock_duration == u0.lock_duration
                &&& u1->Some_0.tier_id == u0.tier_id
                &&& forall|k: u64|
                    k != user ==> assoc_lookup(final(self).users@, k) == assoc_lookup(
                        old(self).users@,
                        k,
                    )
            }),
    {
        if caller != self.config.admin {
            return Err(Error::NotAuthorized);
        }
        if amount <= 0 {
            return Err(Error::InvalidAmount);
        }
        let i = match self.find_user(user) {
            None => { return Err(Error::InsufficientStake) },
            Some(i) => i,
        };
        let u = self.users[i].1;
        if amount > u.amount {
            return Err(Error::InsufficientStake);
        }
        proof {
            assert(old(self).user_ok(u));
        }
        self.checkpoint(now);
        let rpt = self.reward_per_token_stored;
        proof {
            lemma_mul_nonnegative(u.shares as int, rpt - u.reward_per_token_paid);
        }
        let pending = div_floor(u.shares * (rpt - u.reward_per_token_paid), PRECISION);
        proof {
            lemma_div_pos_is_pos(u.shares * (rpt - u.reward_per_token_paid), PRECISION as int);
            lemma_mul_nonnegative(u.shares as int, amount as int);
            lemma_mul_inequality(amount as int, u.amount as int, u.shares as int);
            assert(u.shares * amount == amount * u.shares) by (nonlinear_arith);
            assert(u.shares * u.amount == u.amount * u.shares) by (nonlinear_arith);
            lemma_div_le_mul_bound(u.shares * amount, u.amount as int, u.shares as int);
            lemma_div_pos_is_pos(u.shares * amount, u.amount as int);
        }
        let removed = div_floor(u.shares * amount, u.amount);
        let nu = UserInfo {
            amount: u.amount - amount,
            shares: u.shares - removed,
            reward_per_token_paid: rpt,
            rewards: u.rewards + pending,
            lock_start_time: u.lock_start_time,
            lock_duration: u.lock_duration,
            tier_id: u.tier_id,
        };
        proof {
            lemma_elem_le_sum(self.users@, i as int);
        }
        self.users.set(i, (user, nu));
        self.total_shares = self.total_shares - removed;
        proof {
            self.lemma_user_upsert_wf(*old(self), user, i as int, nu, -(removed as int));
        }
        Ok(())
    }

    /// Machine-width bounds under which an emergency withdrawal stays inside
    /// `i128`.
    pub open spec fn emergency_ok(self, user: u64, now: u64) -> bool {
        let rpt = self.checkpointed_rpt(now);
        let u0 = self.user_or_default(user);
        &&& now >= self.last_update_time
        &&& (assoc_lookup(self.users@, user) is Some ==> {
            &&& self.checkpoint_ok(now)
            &&& Self::settle_ok(u0, rpt)
            &&& u0.amount * 80 <= i128::MAX
        })
    }

    /// Withdraw the user's entire principal at once, bypassing the lock
    /// check but always paying the 20 percent early-withdrawal penalty.
    /// Already-settled rewards stay claimable through `claim`. The host
    /// transfers the returned payout to the user.
    pub fn emergency_withdraw(&mut self, user: u64, now: u64) -> (r: Result<i128, Error>)
        requires
            old(self).wf(),
            old(self).emergency_ok(user, now),
        ensures
            final(self).wf(),
            final(self).reward_per_token_stored >= old(self).reward_per_token_stored,
            r is Ok,
            assoc_lookup(old(self).users@, user) is None ==> r == Ok::<i128, Error>(0) && *final(self) == *old(self),
            assoc_lookup(old(self).users@, user) is Some ==> ({
                let rpt = old(self).checkpointed_rpt(now);
                let u0 = old(self).user_or_default(user);
                let u1 = assoc_lookup(final(self).users@, user);
                &&& r->Ok_0 == (u0.amount * 80) / 100
                &&& final(self).reward_per_token_stored == rpt
                &&& final(self).last_update_time == now
                &&& final(self).total_shares == old(self).total_shares - u0.shares
                &&& final(self).config == old(self).config
                &&& final(self).tiers == old(self).tiers
                &&& final(self).upgrade == old(self).upgrade
                &&& final(self).version == old(self).version
                &&& u1 is Some
                &&& u1->Some_0.amount == 0
                &&& u1->Some_0.shares == 0
                &&& u1->Some_0.reward_per_token_paid == rpt
                &&& u1->Some_0.rewards == Self::settled(u0, rpt)
                &&& u1->Some_0.lock_start_time == u0.lock_start_time
                &&& u1->Some_0.lock_duration == u0.lock_duration
                &&& u1->Some_0.tier_id == u0.tier_id
                &&& forall|k: u64|
                    k != user ==> assoc_lookup(final(self).users@, k) == assoc_lookup(
                        old(self).users@,
                        k,
                    )
            }),
    {
        let i = match self.find_user(user) {
            None => { return Ok(0) },
            Some(i) => i,
        };
        let u = self.users[i].1;
        proof {
            assert(old(self).user_ok(u));
        }
        self.checkpoint(now);
        let rpt = self.reward_per_token_stored;
        proof {
            lemma_mul_nonnegative(u.shares as int, rpt - u.reward_per_token_paid);
        }
        let pending = div_floor(u.shares * (rpt - u.reward_per_token_paid), PRECISION);
        proof {
            lemma_div_pos_is_pos(u.shares * (rpt - u.reward_per_token_paid), PRECISION as int);
            lemma_mul_nonnegative(u.amount as int, 80);
        }
        let payout = div_floor(u.amount * 80, 100);
        let nu = UserInfo {
            amount: 0,
            shares: 0,
            reward_per_token_paid: rpt,
            rewards: u.rewards + pending,
            lock_start_time: u.lock_start_time,
            lock_duration: u.lock_duration,
            tier_id: u.tier_id,
        };
        proof {
            lemma_elem_le_sum(self.users@, i as int);
        }
        self.users.set(i, (user, nu));
        self.total_shares = self.total_shares - u.shares;
        proof {
            self.lemma_user_upsert_wf(*old(self), user, i as int, nu, -(u.shares as int));
        }
        Ok(payout)
    }
}

impl StakingEngine {
    /// Admin-only: schedule (or reschedule, resetting any previous schedule)
    /// a contract upgrade that may run once `unlock_time` has passed.
    pub fn schedule_upgrade(&mut self, caller: u64, new_code_hash: Vec<u8>, unlock_time: u64, now:
        u64) -> (r: Result<(), Error>)
        requires
            old(self).wf(),
        ensures
            final(self).wf(),
            r is Err ==> *final(self) == *old(self),
            (r == Err::<(), Error>(Error::NotAuthorized)) <==> caller != old(self).config.admin,
            caller == old(self).config.admin ==> ((r == Err::<(), Error>(Error::InvalidUnlockTime))
                <==> unlock_time <= now),
            r is Ok <==> (caller == old(self).config.admin && unlock_time > now),
            r is Ok ==> ({
                &&& final(self).upgrade matches Some(t) && t.new_code_hash@ == new_code_hash@
                    && t.unlock_time == unlock_time
                &&& final(self).config == old(self).config
                &&& final(self).tiers == old(self).tiers
                &&& final(self).users == old(self).users
                &&& final(self).reward_per_token_stored == old(self).reward_per_token_stored
                &&& final(self).last_update_time == old(self).last_update_time
                &&& final(self).total_shares == old(self).total_shares
                &&& final(self).version == old(self).version
            }),
    {
        if caller != self.config.admin {
            return Err(Error::NotAuthorized);
        }
        if unlock_time <= now {
            return Err(Error::InvalidUnlockTime);
        }
        self.upgrade = Some(UpgradeTimelock { new_code_hash, unlock_time });
        Ok(())
    }

    /// Admin-only: drop the scheduled upgrade, returning to the unscheduled
    /// state.
    pub fn cancel_upgrade(&mut self, caller: u64) -> (r: Result<(), Error>)
        requires
            old(self).wf(),
        ensures
            final(self).wf(),
            r is Err ==> *final(self) == *old(self),
            (r == Err::<(), Error>(Error::NotAuthorized)) <==> caller != old(self).config.admin,
            caller == old(self).config.admin ==> ((r == Err::<(), Error>(
                Error::NoUpgradeScheduled,
            )) <==> old(self).upgrade is None),
            r is Ok <==> (caller == old(self).config.admin && old(self).upgrade is Some),
            r is Ok ==> ({
                &&& final(self).upgrade is None
                &&& final(self).config == old(self).config
                &&& final(self).tiers == old(self).tiers
                &&& final(self).users == old(self).users
                &&& final(self).reward_per_token_stored == old(self).reward_per_token_stored
                &&& final(self).last_update_time == old(self).last_update_time
                &&& final(self).total_shares == old(self).total_shares
                &&& final(self).version == old(self).version
            }),
    {
        if caller != self.config.admin {
            return Err(Error::NotAuthorized);
        }
        if self.upgrade.is_none() {
            return Err(Error::NoUpgradeScheduled);
        }
        self.upgrade = None;
        Ok(())
    }

    /// Admin-only: consume the scheduled upgrade. Succeeds only when the
    /// presented hash matches the scheduled one and the unlock time has
    /// passed; the host then swaps in the new code.
    pub fn execute_upgrade(&mut self, caller: u64, new_code_hash: &Vec<u8>, now: u64) -> (r: Result<
        (),
        Error,
    >)
        requires
            old(self).wf(),
        ensures
            final(self).wf(),
            r is Err ==> *final(self) == *old(self),
            (r == Err::<(), Error>(Error::NotAuthorized)) <==> caller != old(self).config.admin,
            caller == old(self).config.admin ==> ((r == Err::<(), Error>(
                Error::NoUpgradeScheduled,
            )) <==> old(self).upgrade is None),
            caller == old(self).config.admin && old(self).upgrade is Some ==> ((r == Err::<
                (),
                Error,
            >(Error::TimelockNotExpired)) <==> !(old(self).upgrade->Some_0.new_code_hash@
                == new_code_hash@ && now >= old(self).upgrade->Some_0.unlock_time)),
            r is Ok <==> (caller == old(self).config.admin && old(self).upgrade is Some && old(
                self,
            ).upgrade->Some_0.new_code_hash@ == new_code_hash@ && now >= old(
                self,
            ).upgrade->Some_0.unlock_time),
            r is Ok ==> ({
                &&& final(self).upgrade is None
                &&& final(self).config == old(self).config
                &&& final(self).tiers == old(self).tiers
                &&& final(self).users == old(self).users
                &&& final(self).reward_per_token_stored == old(self).reward_per_token_stored
                &&& final(self).last_update_time == old(self).last_update_time
                &&& final(self).total_shares == old(self).total_shares
                &&& final(self).version == old(self).version
            }),
    {
        if caller != self.config.admin {
            return Err(Error::NotAuthorized);
        }
        let ready = match &self.upgrade {
            None => { return Err(Error::NoUpgradeScheduled) },
            Some(t) => {
                let same = bytes_eq(&t.new_code_hash, new_code_hash);
                same && now >= t.unlock_time
            },
        };
        if !ready {
            return Err(Error::TimelockNotExpired);
        }
        self.upgrade = None;
        Ok(())
    }

    /// Admin-only: record a state migration to a strictly newer version.
    pub fn migrate_state(&mut self, caller: u64, new_version: u32) -> (r: Result<(), Error>)
        requires
            old(self).wf(),
        ensures
            final(self).wf(),
            r is Err ==> *final(self) == *old(self),
            (r == Err::<(), Error>(Error::NotAuthorized)) <==> caller != old(self).config.admin,
            caller == old(self).config.admin ==> ((r == Err::<(), Error>(Error::VersionNotNewer))
                <==> new_version <= old(self).version),
            r is Ok <==> (caller == old(self).config.admin && new_version > old(self).version),
            r is Ok ==> ({
                &&& final(self).version == new_version
                &&& final(self).config == old(self).config
                &&& final(self).tiers == old(self).tiers
                &&& final(self).users == old(self).users
                &&& final(self).reward_per_token_stored == old(self).reward_per_token_stored
                &&& final(self).last_update_time == old(self).last_update_time
                &&& final(self).total_shares == old(self).total_shares
                &&& final(self).upgrade == old(self).upgrade
            }),
    {
        if caller != self.config.admin {
            return Err(Error::NotAuthorized);
        }
        if new_version <= self.version {
            return Err(Error::VersionNotNewer);
        }
        self.version = new_version;
        Ok(())
    }

    /// The stored migration version.
    pub fn version(&self) -> (v: u32)
        ensures
            v == self.version,
    {
        self.version
    }

    /// The current global share total.
    pub fn total_shares(&self) -> (v: i128)
        ensures
            v == self.total_shares,
    {
        self.total_shares
    }

    /// The current value of the global reward-per-share accumulator.
    pub fn reward_per_token_stored(&self) -> (v: i128)
        ensures
            v == self.reward_per_token_stored,
    {
        self.reward_per_token_stored
    }
}

/// Byte-for-byte equality of two byte strings.
fn bytes_eq(a: &Vec<u8>, b: &Vec<u8>) -> (r: bool)
    ensures
        r == (a@ == b@),
{
    if a.len() != b.len() {
        assert(a@ != b@) by {
            assert(a@.len() != b@.len());
        }
        return false;
    }
    let mut i: usize = 0;
    while i < a.len()
        invariant
            i <= a@.len(),
            a@.len() == b@.len(),
            forall|j: int| 0 <= j < i ==> a@[j] == b@[j],
        decreases a@.len() - i,
    {
        if a[i] != b[i] {
            assert(a@ != b@) by {
                assert(a@[i as int] != b@[i as int]);
            }
            return false;
        }
        i = i + 1;
    }
    proof {
        assert(a@ =~= b@);
    }
    true
}

/// A claim settles the acting user completely: with the clock unchanged, a
/// second claim finds the accumulator where the user's checkpoint already
/// is and pays exactly zero.
pub proof fn lemma_claim_idempotent(s: StakingEngine, user: u64, now: u64)
    requires
        s.last_update_time == now,
        assoc_lookup(s.users@, user) matches Some(u) && u.rewards == 0
            && u.reward_per_token_paid == s.reward_per_token_stored,
    ensures
        s.claim_amount(user, now) == 0,
{
    let u = assoc_lookup(s.users@, user)->Some_0;
    if s.total_shares > 0 {
        assert(s.config.reward_rate * (now - s.last_update_time) == 0) by (nonlinear_arith)
            requires now == s.last_update_time;
        assert(s.config.reward_rate * (now - s.last_update_time) * PRECISION == 0)
            by (nonlinear_arith)
            requires s.config.reward_rate * (now - s.last_update_time) == 0;
        lemma_div_of0(s.total_shares as int);
    }
    assert(s.checkpointed_rpt(now) == s.reward_per_token_stored);
    assert(u.shares * (s.checkpointed_rpt(now) - u.reward_per_token_paid) == 0)
        by (nonlinear_arith)
        requires s.checkpointed_rpt(now) - u.reward_per_token_paid == 0;
    lemma_div_of0(PRECISION as int);
}

/// Conservation for a lone staker: when one user owns every share and the
/// scaled accrual divides evenly over the shares, the reward claimable after
/// an interval is exactly `reward_rate` times the elapsed seconds — nothing
/// is lost to rounding and nothing is minted from nowhere.
pub proof fn lemma_single_staker_conservation(s: StakingEngine, user: u64, now: u64)
    requires
        s.wf(),
        now >= s.last_update_time,
        s.users@.len() == 1,
        s.users@[0].0 == user,
        s.users@[0].1.shares == s.total_shares,
        s.total_shares > 0,
        s.users@[0].1.rewards == 0,
        s.users@[0].1.reward_per_token_paid == s.reward_per_token_stored,
        (s.config.reward_rate * (now - s.last_update_time) * PRECISION) % (
        s.total_shares as int) == 0,
    ensures
        s.claim_amount(user, now) == s.config.reward_rate * (now - s.last_update_time),
{
    let t = s.total_shares as int;
    let dt = now - s.last_update_time;
    let x = s.config.reward_rate * dt * PRECISION;
    lemma_lookup_at(s.users@, 0);
    let u = s.users@[0].1;
    lemma_div_exact(x, t);
    assert(s.checkpointed_rpt(now) - u.reward_per_token_paid == x / t);
    assert(u.shares * (x / t) == (x / t) * t) by (nonlinear_arith)
        requires u.shares == t;
    assert(s.config.reward_rate * dt * PRECISION == PRECISION * (s.config.reward_rate * dt))
        by (nonlinear_arith);
    lemma_div_multiples_vanish(s.config.reward_rate * dt, PRECISION as int);
    assert(x / (PRECISION as int) == s.config.reward_rate * dt);
}

} // verus!
