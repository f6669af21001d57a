use vstd::prelude::*;
use crate::account::Account;
use crate::account_map::AccountMap;
use crate::sums::{sum_over, lemma_sum_change, lemma_sum_ext, lemma_sum_le, lemma_sum_push, lemma_sum_remove};

verus! {

/// Voting power of an account from `timestamp` on.
#[derive(Clone, Copy, Debug, PartialEq, Eq, Structural)]
pub struct CheckPoint {
    pub timestamp: u64,
    pub votes: u64,
}

/// Why a ledger operation was refused. A refused operation changes nothing.
#[derive(Clone, Copy, Debug, PartialEq, Eq, Structural)]
pub enum TxError {
    InsufficientBalance,
    InsufficientAllowance,
    Unauthorized,
    /// An amount would pass `u64::MAX`.
    LedgerTrap,
    AmountTooSmall,
    BlockUsed,
    ErrorOperationStyle,
    ErrorTo,
    Other,
}

/// Timestamps strictly increase along `h`.
pub open spec fn sorted(h: Seq<CheckPoint>) -> bool {
    forall|i: int, j: int| 0 <= i < j < h.len() ==> #[trigger] h[i].timestamp < #[trigger] h[j].timestamp
}

/// The votes of the latest checkpoint in `h` at or before `t`; 0 when there is none.
pub open spec fn prior(h: Seq<CheckPoint>, t: u64) -> u64
    decreases h.len(),
{
    if h.len() == 0 {
        0
    } else if h.last().timestamp <= t {
        h.last().votes
    } else {
        prior(h.drop_last(), t)
    }
}

/// `h` after recording `votes` at time `now`: a write at or before the last
/// checkpoint's time replaces its votes, a later one appends.
pub open spec fn written(h: Seq<CheckPoint>, votes: u64, now: u64) -> Seq<CheckPoint> {
    if h.len() > 0 && h.last().timestamp >= now {
        h.update(h.len() - 1, CheckPoint { timestamp: h.last().timestamp, votes })
    } else {
        h.push(CheckPoint { timestamp: now, votes })
    }
}

/// Between two neighbouring checkpoints around `t`, the earlier one answers.
proof fn lemma_prior_between(h: Seq<CheckPoint>, i: int, t: u64)
    requires
        sorted(h),
        0 <= i < h.len(),
        h[i].timestamp <= t,
        i + 1 < h.len() ==> t < h[i + 1].timestamp,
    ensures
        prior(h, t) == h[i].votes,
    decreases h.len(),
{
    if i < h.len() - 1 {
        assert(h.last().timestamp >= h[i + 1].timestamp);
        lemma_prior_between(h.drop_last(), i, t);
    }
}

/// Before the first checkpoint of a history there were no votes.
pub proof fn lemma_prior_before_first(h: Seq<CheckPoint>, t: u64)
    requires
        sorted(h),
        h.len() > 0,
        t < h[0].timestamp,
    ensures
        prior(h, t) == 0,
    decreases h.len(),
{
    if h.len() > 1 {
        assert(h.last().timestamp >= h[0].timestamp);
        assert(h.drop_last()[0] == h[0]);
        lemma_prior_before_first(h.drop_last(), t);
    } else {
        assert(h.drop_last().len() == 0);
        assert(prior(h.drop_last(), t) == 0);
    }
}

/// A sum over distinct keys is at least any one of its non-negative terms.
proof fn lemma_term_le_sum(keys: Seq<Seq<u8>>, h: Seq<u8>, f: spec_fn(Seq<u8>) -> int)
    requires
        keys.contains(h),
        forall|k: Seq<u8>| 0 <= #[trigger] f(k),
    ensures
        f(h) <= sum_over(keys, f),
{
    let i = choose|i: int| 0 <= i < keys.len() && keys[i] == h;
    lemma_sum_remove(keys, i, f);
    lemma_sum_le(keys.remove(i), |k: Seq<u8>| 0int, f);
}

/// How a sum over a table's keys changes when one key's term changes, as the key
/// is updated in place, added at the end, or removed.
proof fn lemma_sum_update(
    ok: Seq<Seq<u8>>,
    nk: Seq<Seq<u8>>,
    who: Seq<u8>,
    f: spec_fn(Seq<u8>) -> int,
    g: spec_fn(Seq<u8>) -> int,
)
    requires
        ok.no_duplicates(),
        forall|k: Seq<u8>| k != who ==> #[trigger] f(k) == g(k),
        !ok.contains(who) ==> f(who) == 0,
        !nk.contains(who) ==> g(who) == 0,
        nk == ok || (nk == ok.push(who) && !ok.contains(who)) || exists|i: int|
            0 <= i < ok.len() && ok[i] == who && nk == ok.remove(i),
    ensures
        sum_over(nk, g) == sum_over(ok, f) - f(who) + g(who),
{
    if nk == ok {
        if ok.contains(who) {
            lemma_sum_change(ok, who, f, g);
        } else {
            assert forall|k: Seq<u8>| ok.contains(k) implies #[trigger] f(k) == g(k) by {};
            lemma_sum_ext(ok, f, g);
        }
    } else if nk == ok.push(who) && !ok.contains(who) {
        lemma_sum_push(ok, who, g);
        assert forall|k: Seq<u8>| ok.contains(k) implies #[trigger] f(k) == g(k) by {};
        lemma_sum_ext(ok, f, g);
    } else {
        let i = choose|i: int| 0 <= i < ok.len() && ok[i] == who && nk == ok.remove(i);
        lemma_sum_remove(ok, i, f);
        assert forall|k: Seq<u8>| nk.contains(k) implies #[trigger] f(k) == g(k) by {
            let j = choose|j: int| 0 <= j < nk.len() && nk[j] == k;
            if j < i {
                assert(ok[j] == k);
                assert(k != who);
            } else {
                assert(ok[j + 1] == k);
                assert(k != who);
            }
        };
        lemma_sum_ext(nk, f, g);
        assert(!nk.contains(who)) by {
            if nk.contains(who) {
                let j = choose|j: int| 0 <= j < nk.len() && nk[j] == who;
                if j < i {
                    assert(ok[j] == who);
                } else {
                    assert(ok[j + 1] == who);
                }
            }
        };
    }
}

/// `s`, ordered by balance from largest to smallest, with `x` placed after every
/// entry whose balance is at least its own.
pub open spec fn insert_desc(s: Seq<(Seq<u8>, u64)>, x: (Seq<u8>, u64)) -> Seq<(Seq<u8>, u64)>
    decreases s.len(),
{
    if s.len() == 0 {
        seq![x]
    } else if s.last().1 >= x.1 {
        s.push(x)
    } else {
        insert_desc(s.drop_last(), x).push(s.last())
    }
}

/// `s` ordered by balance from largest to smallest; equal balances keep their order in `s`.
pub open spec fn ranked(s: Seq<(Seq<u8>, u64)>) -> Seq<(Seq<u8>, u64)>
    decreases s.len(),
{
    if s.len() == 0 {
        s
    } else {
        insert_desc(ranked(s.drop_last()), s.last())
    }
}

/// Inserting at the first position, from the end, that follows an entry at least as large.
proof fn lemma_insert_desc_at(s: Seq<(Seq<u8>, u64)>, x: (Seq<u8>, u64), j: int)
    requires
        0 <= j <= s.len(),
        forall|k: int| j <= k < s.len() ==> #[trigger] s[k].1 < x.1,
        j > 0 ==> s[j - 1].1 >= x.1,
    ensures
        insert_desc(s, x) == s.insert(j, x),
    decreases s.len(),
{
    if s.len() == 0 {
        assert(s.insert(j, x) =~= seq![x]);
    } else if s.last().1 >= x.1 {
        assert(j == s.len());
        assert(s.insert(j, x) =~= s.push(x));
    } else {
        lemma_insert_desc_at(s.drop_last(), x, j);
        assert(s.insert(j, x) =~= s.drop_last().insert(j, x).push(s.last()));
    }
}

/// A fungible token with delegated, checkpointed voting power.
///
/// Each holder's balance counts for the account it delegated to, or for itself
/// when it never delegated.
pub struct Ledger {
    pub name: String,
    pub symbol: String,
    pub logo: String,
    pub decimals: u8,
    /// The only account that may mint.
    pub owner: Account,
    /// Charged on each transfer and approval.
    pub fee: u64,
    /// Receives the fees.
    pub fee_to: Account,
    pub total_supply: u64,
    /// Non-zero balances.
    pub balances: AccountMap<u64>,
    /// For each owner, what each spender may still move.
    pub allowances: AccountMap<AccountMap<u64>>,
    /// Recorded delegations.
    pub delegates: AccountMap<Account>,
    /// Each account's history of voting power.
    pub checkpoints: AccountMap<Vec<CheckPoint>>,
}

impl Ledger {
    /// The balance of `k`.
    pub open spec fn bal(&self, k: Seq<u8>) -> int {
        if self.balances@.contains_key(k) {
            self.balances@[k] as int
        } else {
            0
        }
    }

    /// The account that `k`'s balance counts for.
    pub open spec fn eff(&self, k: Seq<u8>) -> Seq<u8> {
        if self.delegates@.contains_key(k) {
            self.delegates@[k]@
        } else {
            k
        }
    }

    /// The sum of all balances.
    pub open spec fn balance_sum(&self) -> int {
        sum_over(self.balances.keys(), |k: Seq<u8>| self.bal(k))
    }

    /// The balances that count for `d`, summed.
    pub open spec fn power(&self, d: Seq<u8>) -> int {
        sum_over(self.balances.keys(), |k: Seq<u8>| if self.eff(k) == d { self.bal(k) } else { 0 })
    }

    /// `d`'s checkpoints.
    pub open spec fn history(&self, d: Seq<u8>) -> Seq<CheckPoint> {
        if self.checkpoints@.contains_key(d) {
            self.checkpoints@[d]@
        } else {
            Seq::<CheckPoint>::empty()
        }
    }

    /// `d`'s current votes: its last checkpoint, or 0.
    pub open spec fn votes(&self, d: Seq<u8>) -> int {
        if self.history(d).len() == 0 {
            0
        } else {
            self.history(d).last().votes as int
        }
    }

    /// What `spender` may still move from `owner`.
    pub open spec fn allow(&self, owner: Seq<u8>, spender: Seq<u8>) -> int {
        if self.allowances@.contains_key(owner) && self.allowances@[owner]@.contains_key(spender) {
            self.allowances@[owner]@[spender] as int
        } else {
            0
        }
    }

    /// No balance entry is zero.
    pub open spec fn tidy_balances(&self) -> bool {
        forall|k: Seq<u8>| #[trigger] self.balances@.contains_key(k) ==> self.balances@[k] != 0
    }

    /// No allowance entry is zero and no owner's table is empty.
    pub open spec fn tidy_allowances(&self) -> bool {
        forall|o: Seq<u8>| #[trigger] self.allowances@.contains_key(o) ==> {
            &&& self.allowances@[o]@ != Map::<Seq<u8>, u64>::empty()
            &&& forall|s: Seq<u8>| #[trigger] self.allowances@[o]@.contains_key(s) ==> self.allowances@[o]@[s] != 0
        }
    }

    /// Tables well formed without zero entries or empty tables, histories sorted, and
    /// every account's votes equal to its power.
    pub open spec fn inner_wf(&self) -> bool {
        &&& self.tidy_balances()
        &&& self.tidy_allowances()
        &&& self.balances.wf()
        &&& self.allowances.wf()
        &&& forall|o: Seq<u8>| #[trigger] self.allowances@.contains_key(o) ==> self.allowances@[o].wf()
        &&& self.delegates.wf()
        &&& self.checkpoints.wf()
        &&& forall|d: Seq<u8>| #[trigger] sorted(self.history(d))
        &&& forall|d: Seq<u8>| #![trigger self.votes(d)] #![trigger self.power(d)] self.votes(d) == self.power(d)
    }

    /// The ledger invariant: `inner_wf`, and the balances sum to the total supply.
    pub open spec fn wf(&self) -> bool {
        &&& self.inner_wf()
        &&& self.balance_sum() == self.total_supply
    }

    /// Two ledgers with the same balances and delegations have the same sums.
    proof fn lemma_same_sums(a: &Ledger, b: &Ledger)
        requires
            a.balances == b.balances,
            a.delegates == b.delegates,
        ensures
            a.balance_sum() == b.balance_sum(),
            forall|d: Seq<u8>| #[trigger] a.power(d) == b.power(d),
            forall|k: Seq<u8>| #[trigger] a.bal(k) == b.bal(k),
            forall|k: Seq<u8>| #[trigger] a.eff(k) == b.eff(k),
    {
        let keys = a.balances.keys();
        lemma_sum_ext(keys, |k: Seq<u8>| a.bal(k), |k: Seq<u8>| b.bal(k));
        assert forall|d: Seq<u8>| #[trigger] a.power(d) == b.power(d) by {
            lemma_sum_ext(keys, |k: Seq<u8>| if a.eff(k) == d { a.bal(k) } else { 0 },
                |k: Seq<u8>| if b.eff(k) == d { b.bal(k) } else { 0 });
        };
    }

    /// A ledger that differs from a well-formed-inside one only in its total supply
    /// is well formed inside too, with the same sums.
    proof fn lemma_settle(&self, mid: &Ledger)
        requires
            mid.inner_wf(),
            *self == (Ledger { total_supply: self.total_supply, ..*mid }),
        ensures
            self.inner_wf(),
            self.balance_sum() == mid.balance_sum(),
            forall|k: Seq<u8>| #[trigger] self.bal(k) == mid.bal(k),
            forall|d: Seq<u8>| #[trigger] self.votes(d) == mid.votes(d),
            forall|e: Seq<u8>| #[trigger] self.history(e) == mid.history(e),
    {
        Self::lemma_same_sums(self, mid);
        assert forall|e: Seq<u8>| #[trigger] self.history(e) == mid.history(e) by {};
        assert forall|e: Seq<u8>| #[trigger] sorted(self.history(e)) by {
            assert(sorted(mid.history(e)));
        };
        assert forall|d: Seq<u8>| #![trigger self.votes(d)] #![trigger self.power(d)] self.votes(d) == self.power(d) by {
            assert(self.history(d) == mid.history(d));
            assert(mid.votes(d) == mid.power(d));
        };
        assert forall|d: Seq<u8>| #[trigger] self.votes(d) == mid.votes(d) by {
            assert(self.history(d) == mid.history(d));
        };
    }

    /// Records `votes` for `d` at `now`.
    fn write_check_point(&mut self, d: &Account, votes: u64, now: u64)
        requires
            old(self).checkpoints.wf(),
            forall|e: Seq<u8>| #[trigger] sorted(old(self).history(e)),
        ensures
            final(self).checkpoints.wf(),
            forall|e: Seq<u8>| #[trigger] sorted(final(self).history(e)),
            final(self).history(d@) == written(old(self).history(d@), votes, now),
            forall|e: Seq<u8>| e != d@ ==> #[trigger] final(self).history(e) == old(self).history(e),
            final(self).votes(d@) == votes,
            forall|e: Seq<u8>| e != d@ ==> #[trigger] final(self).votes(e) == old(self).votes(e),
            final(self).balance_sum() == old(self).balance_sum(),
            forall|x: Seq<u8>| #[trigger] final(self).power(x) == old(self).power(x),
            forall|k: Seq<u8>| #[trigger] final(self).bal(k) == old(self).bal(k),
            forall|k: Seq<u8>| #[trigger] final(self).eff(k) == old(self).eff(k),
            *final(self) == (Ledger { checkpoints: final(self).checkpoints, ..*old(self) }),
    {
        let ghost old_h = self.history(d@);
        let mut h: Vec<CheckPoint> = match self.checkpoints.take(d) {
            Some(h) => h,
            None => Vec::new(),
        };
        assert(h@ == old_h);
        let n = h.len();
        if n > 0 && h[n - 1].timestamp >= now {
            let ts = h[n - 1].timestamp;
            h.set(n - 1, CheckPoint { timestamp: ts, votes });
        } else {
            h.push(CheckPoint { timestamp: now, votes });
        }
        assert(h@ == written(old_h, votes, now));
        self.checkpoints.insert(d.duplicate(), h);
        proof { Self::lemma_same_sums(&*self, &*old(self)); }
        assert forall|e: Seq<u8>| e != d@ implies #[trigger] self.history(e) == old(self).history(e) by {};
        assert forall|e: Seq<u8>| e != d@ implies #[trigger] self.votes(e) == old(self).votes(e) by {
            assert(self.history(e) == old(self).history(e));
        };
        assert forall|e: Seq<u8>| #[trigger] sorted(self.history(e)) by {
            if e == d@ {
                assert(sorted(old_h));
            } else {
                assert(sorted(old(self).history(e)));
            }
        };
    }

    /// A holder's votes never exceed the balances counted for its delegatee, nor the
    /// power of any account the sum of all balances.
    proof fn lemma_bounds(&self, who: Seq<u8>, d: Seq<u8>)
        requires
            self.balances.wf(),
        ensures
            self.bal(who) <= self.power(self.eff(who)),
            self.bal(who) <= self.balance_sum(),
            0 <= self.power(d) <= self.balance_sum(),
    {
        self.balances.lemma_keys();
        let keys = self.balances.keys();
        let e = self.eff(who);
        let fb = |k: Seq<u8>| self.bal(k);
        let fe = |k: Seq<u8>| if self.eff(k) == e { self.bal(k) } else { 0 };
        let fd = |k: Seq<u8>| if self.eff(k) == d { self.bal(k) } else { 0 };
        if keys.contains(who) {
            lemma_term_le_sum(keys, who, fe);
            lemma_term_le_sum(keys, who, fb);
        } else {
            lemma_sum_le(keys, |k: Seq<u8>| 0int, fe);
            lemma_sum_le(keys, |k: Seq<u8>| 0int, fb);
        }
        lemma_sum_le(keys, fd, fb);
    }

    /// Sets `who`'s balance to `v`, dropping the entry at zero.
    fn set_balance(&mut self, who: &Account, v: u64)
        requires
            old(self).balances.wf(),
            old(self).tidy_balances(),
        ensures
            final(self).balances.wf(),
            final(self).tidy_balances(),
            final(self).bal(who@) == v,
            forall|k: Seq<u8>| k != who@ ==> #[trigger] final(self).bal(k) == old(self).bal(k),
            final(self).balance_sum() == old(self).balance_sum() - old(self).bal(who@) + v,
            forall|d: Seq<u8>| #[trigger] final(self).power(d) == old(self).power(d)
                + (if old(self).eff(who@) == d { v - old(self).bal(who@) } else { 0 }),
            forall|e: Seq<u8>| #[trigger] final(self).history(e) == old(self).history(e),
            forall|e: Seq<u8>| #[trigger] final(self).eff(e) == old(self).eff(e),
            *final(self) == (Ledger { balances: final(self).balances, ..*old(self) }),
    {
        let ghost old_self = *self;
        proof { old_self.balances.lemma_keys(); }
        if v == 0 {
            self.balances.remove(who);
        } else {
            self.balances.insert(who.duplicate(), v);
        }
        proof {
            self.balances.lemma_keys();
            let ok = old_self.balances.keys();
            let nk = self.balances.keys();
            lemma_sum_update(ok, nk, who@, |k: Seq<u8>| old_self.bal(k), |k: Seq<u8>| self.bal(k));
            assert forall|d: Seq<u8>| #[trigger] self.power(d) == old_self.power(d)
                + (if old_self.eff(who@) == d { v - old_self.bal(who@) } else { 0 }) by {
                lemma_sum_update(ok, nk, who@,
                    |k: Seq<u8>| if old_self.eff(k) == d { old_self.bal(k) } else { 0 },
                    |k: Seq<u8>| if self.eff(k) == d { self.bal(k) } else { 0 });
            };
        }
    }

    /// Takes `amount` from `who`'s balance and from the votes it counts for.
    fn debit(&mut self, who: &Account, amount: u64, now: u64)
        requires
            old(self).inner_wf(),
            amount <= old(self).bal(who@),
        ensures
            final(self).inner_wf(),
            final(self).bal(who@) == old(self).bal(who@) - amount,
            forall|k: Seq<u8>| k != who@ ==> #[trigger] final(self).bal(k) == old(self).bal(k),
            final(self).balance_sum() == old(self).balance_sum() - amount,
            forall|d: Seq<u8>| #[trigger] final(self).votes(d) == old(self).votes(d)
                - (if old(self).eff(who@) == d { amount as int } else { 0 }),
            forall|x: Seq<u8>| x != old(self).eff(who@) ==> #[trigger] final(self).history(x) == old(self).history(x),
            *final(self) == (Ledger { balances: final(self).balances, checkpoints: final(self).checkpoints, ..*old(self) }),
    {
        let ghost old_self = *self;
        let d = self.effective_delegate(who);
        let b = self.balance_of(who);
        let cur = self.get_current_votes(&d);
        proof { old_self.lemma_bounds(who@, d@); }
        self.set_balance(who, b - amount);
        self.write_check_point(&d, cur - amount, now);
        proof {
            assert forall|x: Seq<u8>| #![trigger self.votes(x)] #![trigger self.power(x)] self.votes(x) == self.power(x) by {
                assert(old_self.votes(x) == old_self.power(x));
            };
            assert forall|x: Seq<u8>| #[trigger] self.votes(x) == old_self.votes(x)
                - (if old_self.eff(who@) == x { amount as int } else { 0 }) by {
                assert(old_self.votes(x) == old_self.power(x));
                assert(self.votes(x) == self.power(x));
            };
        }
    }

    /// Adds `amount` to `who`'s balance and to the votes it counts for.
    fn credit(&mut self, who: &Account, amount: u64, now: u64)
        requires
            old(self).inner_wf(),
            old(self).balance_sum() + amount <= u64::MAX,
        ensures
            final(self).inner_wf(),
            final(self).bal(who@) == old(self).bal(who@) + amount,
            forall|k: Seq<u8>| k != who@ ==> #[trigger] final(self).bal(k) == old(self).bal(k),
            final(self).balance_sum() == old(self).balance_sum() + amount,
            forall|d: Seq<u8>| #[trigger] final(self).votes(d) == old(self).votes(d)
                + (if old(self).eff(who@) == d { amount as int } else { 0 }),
            forall|x: Seq<u8>| x != old(self).eff(who@) ==> #[trigger] final(self).history(x) == old(self).history(x),
            *final(self) == (Ledger { balances: final(self).balances, checkpoints: final(self).checkpoints, ..*old(self) }),
    {
        let ghost old_self = *self;
        let d = self.effective_delegate(who);
        let b = self.balance_of(who);
        let cur = self.get_current_votes(&d);
        proof {
            old_self.lemma_bounds(who@, d@);
            assert(old_self.votes(d@) == old_self.power(d@));
        }
        self.set_balance(who, b + amount);
        self.write_check_point(&d, cur + amount, now);
        proof {
            assert forall|x: Seq<u8>| #![trigger self.votes(x)] #![trigger self.power(x)] self.votes(x) == self.power(x) by {
                assert(old_self.votes(x) == old_self.power(x));
            };
            assert forall|x: Seq<u8>| #[trigger] self.votes(x) == old_self.votes(x)
                + (if old_self.eff(who@) == x { amount as int } else { 0 }) by {
                assert(old_self.votes(x) == old_self.power(x));
                assert(self.votes(x) == self.power(x));
            };
        }
    }

    /// Moves `amount` from `from` to `to`, with the votes they count for.
    fn move_balance(&mut self, from: &Account, to: &Account, amount: u64, now: u64)
        requires
            old(self).wf(),
            amount <= old(self).bal(from@),
        ensures
            final(self).wf(),
            forall|k: Seq<u8>| #[trigger] final(self).bal(k) == old(self).bal(k)
                - (if k == from@ { amount as int } else { 0 }) + (if k == to@ { amount as int } else { 0 }),
            forall|d: Seq<u8>| #[trigger] final(self).votes(d) == old(self).votes(d)
                - (if old(self).eff(from@) == d { amount as int } else { 0 })
                + (if old(self).eff(to@) == d { amount as int } else { 0 }),
            forall|x: Seq<u8>| x != old(self).eff(from@) && x != old(self).eff(to@) ==> #[trigger] final(self).history(x) == old(self).history(x),
            *final(self) == (Ledger { balances: final(self).balances, checkpoints: final(self).checkpoints, ..*old(self) }),
    {
        self.debit(from, amount, now);
        self.credit(to, amount, now);
    }

    /// Records that `who`'s balance counts for `to`, moving those votes over.
    fn redelegate(&mut self, who: &Account, to: &Account, now: u64)
        requires
            old(self).inner_wf(),
            old(self).balance_sum() <= u64::MAX,
        ensures
            final(self).inner_wf(),
            final(self).delegates@.dom() == old(self).delegates@.dom().insert(who@),
            final(self).balances == old(self).balances,
            final(self).eff(who@) == to@,
            final(self).delegates@.contains_key(who@) && final(self).delegates@[who@]@ == to@,
            forall|k: Seq<u8>| k != who@ ==> #[trigger] final(self).eff(k) == old(self).eff(k),
            forall|d: Seq<u8>| #[trigger] final(self).votes(d) == old(self).votes(d)
                - (if old(self).eff(who@) == d { old(self).bal(who@) } else { 0 })
                + (if to@ == d { old(self).bal(who@) } else { 0 }),
            forall|x: Seq<u8>| x != old(self).eff(who@) && x != to@ ==> #[trigger] final(self).history(x) == old(self).history(x),
            *final(self) == (Ledger { delegates: final(self).delegates, checkpoints: final(self).checkpoints, ..*old(self) }),
    {
        let ghost old_self = *self;
        let b = self.balance_of(who);
        let old_d = self.effective_delegate(who);
        let cur_old = self.get_current_votes(&old_d);
        proof {
            old_self.lemma_bounds(who@, to@);
            assert(old_self.votes(old_d@) == old_self.power(old_d@));
        }
        self.write_check_point(&old_d, cur_old - b, now);
        let ghost mid = *self;
        self.delegates.insert(who.duplicate(), to.duplicate());
        proof {
            assert forall|e: Seq<u8>| #[trigger] self.history(e) == mid.history(e) by {};
            assert forall|e: Seq<u8>| #[trigger] sorted(self.history(e)) by {
                assert(sorted(mid.history(e)));
            };
            old_self.balances.lemma_keys();
            let keys = old_self.balances.keys();
            assert forall|x: Seq<u8>| #[trigger] self.power(x) == old_self.power(x)
                - (if old_d@ == x { b as int } else { 0 }) + (if to@ == x { b as int } else { 0 }) by {
                let f = |k: Seq<u8>| if old_self.eff(k) == x { old_self.bal(k) } else { 0 };
                let g = |k: Seq<u8>| if self.eff(k) == x { self.bal(k) } else { 0 };
                if keys.contains(who@) {
                    lemma_sum_change(keys, who@, f, g);
                } else {
                    assert forall|k: Seq<u8>| keys.contains(k) implies #[trigger] f(k) == g(k) by {};
                    lemma_sum_ext(keys, f, g);
                }
            };
            self.lemma_bounds(who@, to@);
        }
        let cur_new = self.get_current_votes(to);
        proof {
            assert(old_self.votes(to@) == old_self.power(to@));
            assert(self.votes(to@) == mid.votes(to@)) by {
                assert(self.history(to@) == mid.history(to@));
            };
            assert(cur_new + b == self.power(to@));
            lemma_sum_ext(self.balances.keys(), |k: Seq<u8>| self.bal(k), |k: Seq<u8>| old_self.bal(k));
        }
        self.write_check_point(to, cur_new + b, now);
        proof {
            assert forall|x: Seq<u8>| #![trigger self.votes(x)] #![trigger self.power(x)] self.votes(x) == self.power(x) by {
                assert(old_self.votes(x) == old_self.power(x));
            };
            assert forall|x: Seq<u8>| #[trigger] self.votes(x) == old_self.votes(x)
                - (if old_self.eff(who@) == x { old_self.bal(who@) } else { 0 })
                + (if to@ == x { old_self.bal(who@) } else { 0 }) by {
                assert(old_self.votes(x) == old_self.power(x));
                assert(self.votes(x) == self.power(x));
            };
        }
    }

    /// A ledger whose owner holds the whole initial supply.
    pub fn new(
        logo: String,
        name: String,
        symbol: String,
        decimals: u8,
        total_supply: u64,
        owner: Account,
        fee: u64,
        fee_to: Account,
        now: u64,
    ) -> (r: Ledger)
        ensures
            r.wf(),
            r.total_supply == total_supply,
            forall|k: Seq<u8>| #[trigger] r.bal(k) == (if k == owner@ { total_supply as int } else { 0 }),
            forall|k: Seq<u8>| #[trigger] r.eff(k) == k,
            forall|d: Seq<u8>| #[trigger] r.votes(d) == (if d == owner@ { total_supply as int } else { 0 }),
            forall|o: Seq<u8>, s: Seq<u8>| #[trigger] r.allow(o, s) == 0,
            r.owner@ == owner@,
            r.fee == fee,
            r.fee_to@ == fee_to@,
            r.name@ == name@,
            r.symbol@ == symbol@,
            r.logo@ == logo@,
            r.decimals == decimals,
    {
        let mut l = Ledger {
            name,
            symbol,
            logo,
            decimals,
            owner: owner.duplicate(),
            fee,
            fee_to,
            total_supply: 0,
            balances: AccountMap::new(),
            allowances: AccountMap::new(),
            delegates: AccountMap::new(),
            checkpoints: AccountMap::new(),
        };
        proof {
            assert forall|d: Seq<u8>| #![trigger l.votes(d)] #![trigger l.power(d)] l.votes(d) == l.power(d) by {};
            assert forall|d: Seq<u8>| #[trigger] sorted(l.history(d)) by {};
        }
        let ghost empty = l;
        l.credit(&owner, total_supply, now);
        let ghost mid = l;
        l.total_supply = total_supply;
        proof {
            Self::lemma_same_sums(&l, &mid);
            assert forall|k: Seq<u8>| #[trigger] l.bal(k) == (if k == owner@ { total_supply as int } else { 0 }) by {
                assert(empty.bal(k) == 0);
            };
            assert forall|e: Seq<u8>| #[trigger] l.history(e) == mid.history(e) by {};
            assert forall|e: Seq<u8>| #[trigger] sorted(l.history(e)) by {
                assert(sorted(mid.history(e)));
            };
            assert forall|d: Seq<u8>| #![trigger l.votes(d)] #![trigger l.power(d)] l.votes(d) == l.power(d) by {
                assert(l.history(d) == mid.history(d));
                assert(mid.votes(d) == mid.power(d));
            };
            assert forall|d: Seq<u8>| #[trigger] l.votes(d) == (if d == owner@ { total_supply as int } else { 0 }) by {
                assert(l.history(d) == mid.history(d));
                assert(empty.votes(d) == 0);
            };
        }
        l
    }

    /// Sets what `spender` may move from `owner`, dropping zero entries and empty tables.
    fn set_allowance(&mut self, owner: &Account, spender: &Account, v: u64)
        requires
            old(self).inner_wf(),
        ensures
            final(self).inner_wf(),
            forall|o: Seq<u8>, s: Seq<u8>| #[trigger] final(self).allow(o, s)
                == (if o == owner@ && s == spender@ { v as int } else { old(self).allow(o, s) }),
            forall|e: Seq<u8>| #[trigger] final(self).history(e) == old(self).history(e),
            *final(self) == (Ledger { allowances: final(self).allowances, ..*old(self) }),
    {
        let ghost old_self = *self;
        let mut inner = match self.allowances.take(owner) {
            Some(m) => m,
            None => AccountMap::new(),
        };
        let ghost old_inner = inner@;
        assert(old_inner == (if old_self.allowances@.contains_key(owner@) { old_self.allowances@[owner@]@ }
            else { Map::<Seq<u8>, u64>::empty() }));
        if v == 0 {
            inner.remove(spender);
        } else {
            inner.insert(spender.duplicate(), v);
        }
        let ghost new_inner = inner@;
        if !inner.is_empty() {
            self.allowances.insert(owner.duplicate(), inner);
        }
        proof {
            Self::lemma_same_sums(&*self, &old_self);
            assert forall|e: Seq<u8>| #[trigger] self.history(e) == old_self.history(e) by {};
            assert forall|e: Seq<u8>| #[trigger] self.votes(e) == old_self.votes(e) by {
                assert(self.history(e) == old_self.history(e));
            };
            assert forall|o: Seq<u8>, s: Seq<u8>| #[trigger] self.allow(o, s)
                == (if o == owner@ && s == spender@ { v as int } else { old_self.allow(o, s) }) by {
                if o != owner@ {
                    assert(self.allowances@.contains_key(o) == old_self.allowances@.contains_key(o));
                    if self.allowances@.contains_key(o) {
                        assert(self.allowances@[o] == old_self.allowances@[o]);
                    }
                } else {
                    if self.allowances@.contains_key(o) {
                        assert(self.allowances@[o]@ == new_inner);
                    } else {
                        assert(new_inner == Map::<Seq<u8>, u64>::empty());
                        if v != 0 {
                            assert(new_inner.contains_key(spender@));
                        }
                        if s != spender@ && old_inner.contains_key(s) {
                            assert(new_inner.contains_key(s));
                        }
                    }
                }
            };
            assert forall|x: Seq<u8>| #[trigger] self.allowances@.contains_key(x) implies self.allowances@[x].wf() by {
                if x != owner@ {
                    assert(old_self.allowances@.contains_key(x));
                }
            };
        }
    }

    /// Moves `value` from `caller` to `to`, charging `caller` the fee for `fee_to`.
    pub fn transfer(&mut self, caller: &Account, to: &Account, value: u64, now: u64) -> (r: Result<(), TxError>)
        requires
            old(self).wf(),
        ensures
            final(self).wf(),
            r is Err <==> old(self).bal(caller@) < value + old(self).fee,
            r is Err ==> r == Err::<(), TxError>(TxError::InsufficientBalance) && *final(self) == *old(self),
            r is Ok ==> {
                &&& forall|k: Seq<u8>| #[trigger] final(self).bal(k) == old(self).bal(k)
                    - (if k == caller@ { value + old(self).fee } else { 0 })
                    + (if k == to@ { value as int } else { 0 })
                    + (if k == old(self).fee_to@ { old(self).fee as int } else { 0 })
                &&& forall|d: Seq<u8>| #[trigger] final(self).votes(d) == old(self).votes(d)
                    - (if old(self).eff(caller@) == d { value + old(self).fee } else { 0 })
                    + (if old(self).eff(to@) == d { value as int } else { 0 })
                    + (if old(self).eff(old(self).fee_to@) == d { old(self).fee as int } else { 0 })
                &&& forall|x: Seq<u8>| x != old(self).eff(caller@) && x != old(self).eff(to@) && x != old(self).eff(old(self).fee_to@) ==> #[trigger] final(self).history(x) == old(self).history(x)
                &&& *final(self) == (Ledger { balances: final(self).balances, checkpoints: final(self).checkpoints, ..*old(self) })
            },
    {
        let b = self.balance_of(caller);
        if b < value || b - value < self.fee {
            return Err(TxError::InsufficientBalance);
        }
        let fee = self.fee;
        let fee_to = self.fee_to.duplicate();
        if fee > 0 {
            self.move_balance(caller, &fee_to, fee, now);
        }
        self.move_balance(caller, to, value, now);
        Ok(())
    }

    /// `caller` moves `value` from `from` to `to`, out of what `from` allowed it; `from`
    /// also pays the fee, which the allowance covers too.
    pub fn transfer_from(&mut self, caller: &Account, from: &Account, to: &Account, value: u64, now: u64) -> (r: Result<(), TxError>)
        requires
            old(self).wf(),
        ensures
            final(self).wf(),
            r == Err::<(), TxError>(TxError::InsufficientAllowance) <==> old(self).allow(from@, caller@) < value + old(self).fee,
            r == Err::<(), TxError>(TxError::InsufficientBalance) <==> old(self).allow(from@, caller@) >= value + old(self).fee
                && old(self).bal(from@) < value + old(self).fee,
            r is Ok <==> old(self).allow(from@, caller@) >= value + old(self).fee
                && old(self).bal(from@) >= value + old(self).fee,
            r is Err ==> *final(self) == *old(self),
            r is Ok ==> {
                &&& forall|k: Seq<u8>| #[trigger] final(self).bal(k) == old(self).bal(k)
                    - (if k == from@ { value + old(self).fee } else { 0 })
                    + (if k == to@ { value as int } else { 0 })
                    + (if k == old(self).fee_to@ { old(self).fee as int } else { 0 })
                &&& forall|o: Seq<u8>, s: Seq<u8>| #[trigger] final(self).allow(o, s) == old(self).allow(o, s)
                    - (if o == from@ && s == caller@ { value + old(self).fee } else { 0 })
                &&& forall|d: Seq<u8>| #[trigger] final(self).votes(d) == old(self).votes(d)
                    - (if old(self).eff(from@) == d { value + old(self).fee } else { 0 })
                    + (if old(self).eff(to@) == d { value as int } else { 0 })
                    + (if old(self).eff(old(self).fee_to@) == d { old(self).fee as int } else { 0 })
                &&& forall|x: Seq<u8>| x != old(self).eff(from@) && x != old(self).eff(to@) && x != old(self).eff(old(self).fee_to@) ==> #[trigger] final(self).history(x) == old(self).history(x)
                &&& *final(self) == (Ledger {
                    balances: final(self).balances,
                    checkpoints: final(self).checkpoints,
                    allowances: final(self).allowances,
                    ..*old(self)
                })
            },
    {
        let a = self.allowance(from, caller);
        if a < value || a - value < self.fee {
            return Err(TxError::InsufficientAllowance);
        }
        let b = self.balance_of(from);
        if b < value || b - value < self.fee {
            return Err(TxError::InsufficientBalance);
        }
        let fee = self.fee;
        let fee_to = self.fee_to.duplicate();
        if fee > 0 {
            self.move_balance(from, &fee_to, fee, now);
        }
        self.move_balance(from, to, value, now);
        let ghost mid = *self;
        self.set_allowance(from, caller, a - value - fee);
        proof {
            Self::lemma_same_sums(&*self, &mid);
        }
        Ok(())
    }

    /// `caller` lets `spender` move `value`: the allowance is set to `value` plus the fee,
    /// and `caller` pays the fee.
    pub fn approve(&mut self, caller: &Account, spender: &Account, value: u64, now: u64) -> (r: Result<(), TxError>)
        requires
            old(self).wf(),
        ensures
            final(self).wf(),
            r == Err::<(), TxError>(TxError::InsufficientBalance) <==> old(self).bal(caller@) < old(self).fee,
            r == Err::<(), TxError>(TxError::LedgerTrap) <==> old(self).bal(caller@) >= old(self).fee
                && value + old(self).fee > u64::MAX,
            r is Ok <==> old(self).bal(caller@) >= old(self).fee && value + old(self).fee <= u64::MAX,
            r is Err ==> *final(self) == *old(self),
            r is Ok ==> {
                &&& forall|k: Seq<u8>| #[trigger] final(self).bal(k) == old(self).bal(k)
                    - (if k == caller@ { old(self).fee as int } else { 0 })
                    + (if k == old(self).fee_to@ { old(self).fee as int } else { 0 })
                &&& forall|o: Seq<u8>, s: Seq<u8>| #[trigger] final(self).allow(o, s)
                    == (if o == caller@ && s == spender@ { value + old(self).fee } else { old(self).allow(o, s) })
                &&& forall|d: Seq<u8>| #[trigger] final(self).votes(d) == old(self).votes(d)
                    - (if old(self).eff(caller@) == d { old(self).fee as int } else { 0 })
                    + (if old(self).eff(old(self).fee_to@) == d { old(self).fee as int } else { 0 })
                &&& forall|x: Seq<u8>| x != old(self).eff(caller@) && x != old(self).eff(old(self).fee_to@) ==> #[trigger] final(self).history(x) == old(self).history(x)
                &&& *final(self) == (Ledger {
                    balances: final(self).balances,
                    checkpoints: final(self).checkpoints,
                    allowances: final(self).allowances,
                    ..*old(self)
                })
            },
    {
        let b = self.balance_of(caller);
        if b < self.fee {
            return Err(TxError::InsufficientBalance);
        }
        let v = match value.checked_add(self.fee) {
            Some(v) => v,
            None => return Err(TxError::LedgerTrap),
        };
        let fee = self.fee;
        let fee_to = self.fee_to.duplicate();
        if fee > 0 {
            self.move_balance(caller, &fee_to, fee, now);
        }
        let ghost mid = *self;
        self.set_allowance(caller, spender, v);
        proof {
            Self::lemma_same_sums(&*self, &mid);
        }
        Ok(())
    }

    /// The owner creates `amount` new tokens for `to`.
    pub fn mint(&mut self, caller: &Account, to: &Account, amount: u64, now: u64) -> (r: Result<(), TxError>)
        requires
            old(self).wf(),
        ensures
            final(self).wf(),
            r == Err::<(), TxError>(TxError::Unauthorized) <==> caller@ != old(self).owner@,
            r == Err::<(), TxError>(TxError::LedgerTrap) <==> caller@ == old(self).owner@
                && old(self).total_supply + amount > u64::MAX,
            r is Ok <==> caller@ == old(self).owner@ && old(self).total_supply + amount <= u64::MAX,
            r is Err ==> *final(self) == *old(self),
            r is Ok ==> {
                &&& final(self).total_supply == old(self).total_supply + amount
                &&& forall|k: Seq<u8>| #[trigger] final(self).bal(k) == old(self).bal(k)
                    + (if k == to@ { amount as int } else { 0 })
                &&& forall|d: Seq<u8>| #[trigger] final(self).votes(d) == old(self).votes(d)
                    + (if old(self).eff(to@) == d { amount as int } else { 0 })
                &&& forall|x: Seq<u8>| x != old(self).eff(to@) ==> #[trigger] final(self).history(x) == old(self).history(x)
                &&& *final(self) == (Ledger {
                    balances: final(self).balances,
                    checkpoints: final(self).checkpoints,
                    total_supply: final(self).total_supply,
                    ..*old(self)
                })
            },
    {
        if *caller != self.owner {
            return Err(TxError::Unauthorized);
        }
        let total = match self.total_supply.checked_add(amount) {
            Some(t) => t,
            None => return Err(TxError::LedgerTrap),
        };
        self.credit(to, amount, now);
        let ghost mid = *self;
        self.total_supply = total;
        proof { self.lemma_settle(&mid); }
        Ok(())
    }

    /// `caller` destroys `amount` of its own tokens.
    pub fn burn(&mut self, caller: &Account, amount: u64, now: u64) -> (r: Result<(), TxError>)
        requires
            old(self).wf(),
        ensures
            final(self).wf(),
            r is Err <==> old(self).bal(caller@) < amount,
            r is Err ==> r == Err::<(), TxError>(TxError::InsufficientBalance) && *final(self) == *old(self),
            r is Ok ==> {
                &&& final(self).total_supply == old(self).total_supply - amount
                &&& forall|k: Seq<u8>| #[trigger] final(self).bal(k) == old(self).bal(k)
                    - (if k == caller@ { amount as int } else { 0 })
                &&& forall|d: Seq<u8>| #[trigger] final(self).votes(d) == old(self).votes(d)
                    - (if old(self).eff(caller@) == d { amount as int } else { 0 })
                &&& forall|x: Seq<u8>| x != old(self).eff(caller@) ==> #[trigger] final(self).history(x) == old(self).history(x)
                &&& *final(self) == (Ledger {
                    balances: final(self).balances,
                    checkpoints: final(self).checkpoints,
                    total_supply: final(self).total_supply,
                    ..*old(self)
                })
            },
    {
        if self.balance_of(caller) < amount {
            return Err(TxError::InsufficientBalance);
        }
        proof { self.lemma_bounds(caller@, caller@); }
        self.debit(caller, amount, now);
        let ghost mid = *self;
        self.total_supply = self.total_supply - amount;
        proof { self.lemma_settle(&mid); }
        Ok(())
    }

    /// `caller`'s whole balance now counts for `delegatee`; returns that balance.
    /// Refused when `caller` holds nothing.
    pub fn delegate(&mut self, caller: &Account, delegatee: &Account, now: u64) -> (r: Result<u64, TxError>)
        requires
            old(self).wf(),
        ensures
            final(self).wf(),
            r is Err <==> old(self).bal(caller@) == 0,
            r is Err ==> r == Err::<u64, TxError>(TxError::InsufficientBalance) && *final(self) == *old(self),
            r matches Ok(v) ==> {
                &&& v == old(self).bal(caller@)
                &&& final(self).eff(caller@) == delegatee@
                &&& final(self).delegates@.contains_key(caller@) && final(self).delegates@[caller@]@ == delegatee@
                &&& forall|x: Seq<u8>| x != old(self).eff(caller@) && x != delegatee@ ==> #[trigger] final(self).history(x) == old(self).history(x)
                &&& forall|k: Seq<u8>| k != caller@ ==> #[trigger] final(self).eff(k) == old(self).eff(k)
                &&& forall|d: Seq<u8>| #[trigger] final(self).votes(d) == old(self).votes(d)
                    - (if old(self).eff(caller@) == d { v as int } else { 0 })
                    + (if delegatee@ == d { v as int } else { 0 })
                &&& final(self).balances == old(self).balances
                &&& *final(self) == (Ledger {
                    delegates: final(self).delegates,
                    checkpoints: final(self).checkpoints,
                    ..*old(self)
                })
            },
    {
        let b = self.balance_of(caller);
        if b == 0 {
            return Err(TxError::InsufficientBalance);
        }
        let ghost old_self = *self;
        self.redelegate(caller, delegatee, now);
        proof {
            lemma_sum_ext(self.balances.keys(), |k: Seq<u8>| self.bal(k), |k: Seq<u8>| old_self.bal(k));
        }
        Ok(b)
    }

    /// Whether `caller` is the owner.
    fn check_owner(&self, caller: &Account) -> (r: Result<(), TxError>)
        ensures
            r is Ok <==> caller@ == self.owner@,
            r is Err ==> r == Err::<(), TxError>(TxError::Unauthorized),
    {
        if *caller == self.owner {
            Ok(())
        } else {
            Err(TxError::Unauthorized)
        }
    }

    pub fn set_name(&mut self, caller: &Account, name: String) -> (r: Result<(), TxError>)
        ensures
            r is Ok <==> caller@ == old(self).owner@,
            r is Err ==> r == Err::<(), TxError>(TxError::Unauthorized) && *final(self) == *old(self),
            r is Ok ==> *final(self) == (Ledger { name, ..*old(self) }),
    {
        self.check_owner(caller)?;
        self.name = name;
        Ok(())
    }

    pub fn set_logo(&mut self, caller: &Account, logo: String) -> (r: Result<(), TxError>)
        ensures
            r is Ok <==> caller@ == old(self).owner@,
            r is Err ==> r == Err::<(), TxError>(TxError::Unauthorized) && *final(self) == *old(self),
            r is Ok ==> *final(self) == (Ledger { logo, ..*old(self) }),
    {
        self.check_owner(caller)?;
        self.logo = logo;
        Ok(())
    }

    pub fn set_fee(&mut self, caller: &Account, fee: u64) -> (r: Result<(), TxError>)
        ensures
            r is Ok <==> caller@ == old(self).owner@,
            r is Err ==> r == Err::<(), TxError>(TxError::Unauthorized) && *final(self) == *old(self),
            r is Ok ==> *final(self) == (Ledger { fee, ..*old(self) }),
    {
        self.check_owner(caller)?;
        self.fee = fee;
        Ok(())
    }

    pub fn set_fee_to(&mut self, caller: &Account, fee_to: Account) -> (r: Result<(), TxError>)
        ensures
            r is Ok <==> caller@ == old(self).owner@,
            r is Err ==> r == Err::<(), TxError>(TxError::Unauthorized) && *final(self) == *old(self),
            r is Ok ==> *final(self) == (Ledger { fee_to, ..*old(self) }),
    {
        self.check_owner(caller)?;
        self.fee_to = fee_to;
        Ok(())
    }

    pub fn set_owner(&mut self, caller: &Account, owner: Account) -> (r: Result<(), TxError>)
        ensures
            r is Ok <==> caller@ == old(self).owner@,
            r is Err ==> r == Err::<(), TxError>(TxError::Unauthorized) && *final(self) == *old(self),
            r is Ok ==> *final(self) == (Ledger { owner, ..*old(self) }),
    {
        self.check_owner(caller)?;
        self.owner = owner;
        Ok(())
    }

    /// The balance of `who`.
    pub fn balance_of(&self, who: &Account) -> (r: u64)
        requires
            self.balances.wf(),
        ensures
            r == self.bal(who@),
    {
        match self.balances.get(who) {
            Some(b) => *b,
            None => 0,
        }
    }

    /// What `spender` may still move from `owner`.
    pub fn allowance(&self, owner: &Account, spender: &Account) -> (r: u64)
        requires
            self.inner_wf(),
        ensures
            r == self.allow(owner@, spender@),
    {
        match self.allowances.get(owner) {
            Some(inner) => match inner.get(spender) {
                Some(v) => *v,
                None => 0,
            },
            None => 0,
        }
    }

    /// What each spender may still move from `who`, in the order the approvals were first made.
    pub fn get_user_approvals(&self, who: &Account) -> (r: Vec<(Account, u64)>)
        requires
            self.inner_wf(),
        ensures
            !self.allowances@.contains_key(who@) ==> r@.len() == 0,
            self.allowances@.contains_key(who@) ==> {
                let inner = self.allowances@[who@];
                &&& r@.len() == inner.keys().len()
                &&& forall|i: int| 0 <= i < r@.len() ==> {
                    &&& (#[trigger] r@[i]).0@ == inner.keys()[i]
                    &&& r@[i].1 == inner@[inner.keys()[i]]
                }
            },
    {
        let mut r: Vec<(Account, u64)> = Vec::new();
        match self.allowances.get(who) {
            Some(inner) => {
                let n = inner.len();
                let mut i: usize = 0;
                while i < n
                    invariant
                        inner.wf(),
                        n == inner.keys().len(),
                        i <= n,
                        r@.len() == i,
                        forall|j: int| 0 <= j < i ==> {
                            &&& (#[trigger] r@[j]).0@ == inner.keys()[j]
                            &&& r@[j].1 == inner@[inner.keys()[j]]
                        },
                    decreases n - i,
                {
                    let (spender, v) = inner.entry_at(i);
                    r.push((spender.duplicate(), *v));
                    i = i + 1;
                }
            },
            None => {},
        }
        r
    }

    /// The holders with their balances, in table order.
    pub open spec fn holder_list(&self) -> Seq<(Seq<u8>, u64)> {
        self.balances.keys().map_values(|k: Seq<u8>| (k, self.bal(k) as u64))
    }

    /// Holders `start` up to `start + limit` of the holders ranked by balance, largest
    /// first; empty past the end.
    pub fn get_holders(&self, start: usize, limit: usize) -> (r: Vec<(Account, u64)>)
        requires
            self.inner_wf(),
        ensures
            ({
                let all = ranked(self.holder_list());
                let end = if start + limit > all.len() { all.len() as int } else { start + limit };
                &&& start >= all.len() ==> r@.len() == 0
                &&& start < all.len() ==> r@.len() == end - start && forall|i: int| 0 <= i < r@.len()
                    ==> ((#[trigger] r@[i]).0@, r@[i].1) == all[start + i]
            }),
    {
        let ghost list = self.holder_list();
        let n = self.balances.len();
        let mut v: Vec<(Account, u64)> = Vec::new();
        let mut i: usize = 0;
        proof {
            self.balances.lemma_keys();
            assert(list.take(0) =~= Seq::<(Seq<u8>, u64)>::empty());
        }
        while i < n
            invariant
                self.balances.wf(),
                n == self.balances.keys().len(),
                list == self.holder_list(),
                list.len() == n,
                i <= n,
                v@.len() == i,
                v@.map_values(|e: (Account, u64)| (e.0@, e.1)) == ranked(list.take(i as int)),
            decreases n - i,
        {
            let (k, b) = self.balances.entry_at(i);
            let ghost m = v@.map_values(|e: (Account, u64)| (e.0@, e.1));
            let mut j: usize = v.len();
            while j > 0 && v[j - 1].1 < *b
                invariant
                    j <= v@.len(),
                    m == v@.map_values(|e: (Account, u64)| (e.0@, e.1)),
                    forall|q: int| j <= q < v@.len() ==> #[trigger] m[q].1 < *b,
                decreases j,
            {
                j = j - 1;
            }
            let ghost x = (k@, *b);
            proof {
                assert(list[i as int] == x);
                lemma_insert_desc_at(m, x, j as int);
                assert(list.take(i + 1).drop_last() =~= list.take(i as int));
            }
            v.insert(j, (k.duplicate(), *b));
            proof {
                assert(v@.map_values(|e: (Account, u64)| (e.0@, e.1)) =~= m.insert(j as int, x));
            }
            i = i + 1;
        }
        proof {
            assert(list.take(n as int) =~= list);
        }
        let mut r: Vec<(Account, u64)> = Vec::new();
        if start >= n {
            return r;
        }
        let end = if limit > n - start { n } else { start + limit };
        let mut k: usize = start;
        while k < end
            invariant
                start <= k <= end <= n == v@.len(),
                r@.len() == k - start,
                v@.map_values(|e: (Account, u64)| (e.0@, e.1)) == ranked(list),
                forall|q: int| 0 <= q < r@.len() ==> ((#[trigger] r@[q]).0@, r@[q].1) == ranked(list)[start + q],
            decreases end - k,
        {
            let e = &v[k];
            r.push((e.0.duplicate(), e.1));
            proof {
                assert(ranked(list)[k as int] == (v@[k as int].0@, v@[k as int].1));
            }
            k = k + 1;
        }
        r
    }

    /// The number of allowance entries over all owners.
    pub open spec fn allowance_count(&self) -> int {
        sum_over(self.allowances.keys(), |o: Seq<u8>| self.allowances@[o].keys().len() as int)
    }

    /// The number of allowance entries over all owners, or `usize::MAX` if there are more.
    pub fn get_allowance_size(&self) -> (r: usize)
        requires
            self.inner_wf(),
        ensures
            r == (if self.allowance_count() > usize::MAX { usize::MAX as int } else { self.allowance_count() }),
    {
        let ghost keys = self.allowances.keys();
        let ghost f = |o: Seq<u8>| self.allowances@[o].keys().len() as int;
        let n = self.allowances.len();
        let mut acc: usize = 0;
        let mut i: usize = 0;
        proof {
            assert(keys.take(0) =~= Seq::<Seq<u8>>::empty());
        }
        while i < n
            invariant
                self.inner_wf(),
                keys == self.allowances.keys(),
                n == keys.len(),
                i <= n,
                f == (|o: Seq<u8>| self.allowances@[o].keys().len() as int),
                acc == (if sum_over(keys.take(i as int), f) > usize::MAX { usize::MAX as int }
                    else { sum_over(keys.take(i as int), f) }),
            decreases n - i,
        {
            let (o, inner) = self.allowances.entry_at(i);
            let c = inner.len();
            proof {
                assert(keys.take(i + 1).drop_last() =~= keys.take(i as int));
                assert(keys.take(i + 1).last() == o@);
                lemma_sum_le(keys.take(i as int), |k: Seq<u8>| 0int, f);
            }
            acc = match acc.checked_add(c) {
                Some(v) => v,
                None => usize::MAX,
            };
            i = i + 1;
        }
        proof {
            assert(keys.take(n as int) =~= keys);
        }
        acc
    }

    /// The account that `who`'s balance counts for.
    pub fn effective_delegate(&self, who: &Account) -> (r: Account)
        requires
            self.delegates.wf(),
        ensures
            r@ == self.eff(who@),
    {
        match self.delegates.get(who) {
            Some(d) => d.duplicate(),
            None => who.duplicate(),
        }
    }

    /// The current votes of `who`: its last checkpoint, or 0.
    pub fn get_current_votes(&self, who: &Account) -> (r: u64)
        requires
            self.checkpoints.wf(),
        ensures
            r == self.votes(who@),
    {
        match self.checkpoints.get(who) {
            Some(h) => {
                if h.len() == 0 {
                    0
                } else {
                    h[h.len() - 1].votes
                }
            },
            None => 0,
        }
    }

    /// The votes of `who` at time `t`: its latest checkpoint at or before `t`, or 0
    /// when `t` comes before all of them.
    pub fn get_prior_votes(&self, who: &Account, t: u64) -> (r: u64)
        requires
            self.inner_wf(),
        ensures
            r == prior(self.history(who@), t),
    {
        let h = match self.checkpoints.get(who) {
            Some(h) => h,
            None => {
                return 0;
            },
        };
        let n = h.len();
        proof {
            assert(sorted(self.history(who@)));
        }
        if n == 0 {
            return 0;
        }
        if h[n - 1].timestamp <= t {
            return h[n - 1].votes;
        }
        if h[0].timestamp > t {
            proof {
                lemma_prior_before_first(h@, t);
            }
            return 0;
        }
        let mut lo: usize = 0;
        let mut hi: usize = n - 1;
        while hi - lo > 1
            invariant
                n == h@.len(),
                sorted(h@),
                lo < hi < n,
                h@[lo as int].timestamp <= t,
                t < h@[hi as int].timestamp,
            decreases hi - lo,
        {
            let mid = lo + (hi - lo) / 2;
            if h[mid].timestamp <= t {
                lo = mid;
            } else {
                hi = mid;
            }
        }
        proof {
            lemma_prior_between(h@, lo as int, t);
        }
        h[lo].votes
    }
}

} // verus!
