//! A currency ledger standing in for the payment gateway: per-account
//! spendable balances, a balance query, and an atomic transfer that either
//! fully applies or leaves every balance unchanged.
//!
//! An account that holds no row has a balance of zero. The ledger keeps the
//! sum of all balances within the balance type's range, as a currency
//! issuer would, so a transfer can never overflow the receiver.

use vstd::prelude::*;

verus! {

/// One row of the ledger.
#[derive(Clone, Copy, Debug, PartialEq, Eq, Structural)]
pub struct BalanceEntry {
    pub account: u64,
    pub amount: u128,
}

/// No two rows share an account.
pub open spec fn balances_unique(s: Seq<BalanceEntry>) -> bool {
    forall|i: int, j: int|
        0 <= i < j < s.len() ==> (#[trigger] s[i]).account != (#[trigger] s[j]).account
}

/// Some row carries the account.
pub open spec fn balances_contain(s: Seq<BalanceEntry>, account: u64) -> bool {
    exists|i: int| 0 <= i < s.len() && (#[trigger] s[i]).account == account
}

/// The index of the row carrying the account (meaningful only when one does).
pub open spec fn balance_row_index(s: Seq<BalanceEntry>, account: u64) -> int {
    choose|i: int| 0 <= i < s.len() && (#[trigger] s[i]).account == account
}

/// The rows read as a map from account to balance.
pub open spec fn balances_map(s: Seq<BalanceEntry>) -> Map<u64, u128> {
    Map::new(
        |a: u64| balances_contain(s, a),
        |a: u64| s[balance_row_index(s, a)].amount,
    )
}

/// The sum of all balances.
pub open spec fn balances_total(s: Seq<BalanceEntry>) -> int
    decreases s.len(),
{
    if s.len() == 0 {
        0
    } else {
        balances_total(s.drop_last()) + s.last().amount
    }
}

/// A row that carries an account determines the map at that account.
pub proof fn lemma_balance_row_at(s: Seq<BalanceEntry>, i: int)
    requires
        balances_unique(s),
        0 <= i < s.len(),
    ensures
        balances_contain(s, s[i].account),
        balance_row_index(s, s[i].account) == i,
        balances_map(s).dom().contains(s[i].account),
        balances_map(s)[s[i].account] == s[i].amount,
{
    let a = s[i].account;
    assert(balances_contain(s, a));
    let j = balance_row_index(s, a);
    assert(0 <= j < s.len() && s[j].account == a);
    if j != i {
        assert(false);
    }
}

/// The total after an in-place update.
proof fn lemma_total_update(s: Seq<BalanceEntry>, i: int, e: BalanceEntry)
    requires
        0 <= i < s.len(),
    ensures
        balances_total(s.update(i, e)) == balances_total(s) - s[i].amount + e.amount,
    decreases s.len(),
{
    let t = s.update(i, e);
    if i == s.len() - 1 {
        assert(t.drop_last() =~= s.drop_last());
        assert(t.last() == e);
    } else {
        assert(t.drop_last() =~= s.drop_last().update(i, e));
        assert(t.last() == s.last());
        lemma_total_update(s.drop_last(), i, e);
    }
}

/// Replacing a row's amount in place rewrites the map at its account and
/// shifts the total by the change.
pub proof fn lemma_balances_update(s: Seq<BalanceEntry>, i: int, e: BalanceEntry)
    requires
        balances_unique(s),
        0 <= i < s.len(),
        e.account == s[i].account,
    ensures
        balances_unique(s.update(i, e)),
        balances_map(s.update(i, e)) == balances_map(s).insert(e.account, e.amount),
        balances_total(s.update(i, e)) == balances_total(s) - s[i].amount + e.amount,
{
    let t = s.update(i, e);
    assert forall|p: int| 0 <= p < t.len() implies (#[trigger] t[p]).account == s[p].account by {}
    assert(balances_unique(t));
    lemma_balance_row_at(s, i);
    lemma_balance_row_at(t, i);
    assert forall|a: u64|
        balances_map(t).dom().contains(a) <==> balances_map(s).insert(e.account, e.amount)
            .dom().contains(a) by {
        if balances_contain(t, a) {
            let p = balance_row_index(t, a);
            assert(0 <= p < t.len() && t[p].account == a);
            assert(s[p].account == a);
            assert(balances_contain(s, a));
        }
        if balances_contain(s, a) {
            let p = balance_row_index(s, a);
            assert(0 <= p < s.len() && s[p].account == a);
            assert(t[p].account == a);
            assert(balances_contain(t, a));
        }
    }
    assert forall|a: u64| #[trigger] balances_map(t).dom().contains(a)
        implies balances_map(t)[a] == balances_map(s).insert(e.account, e.amount)[a] by {
        let p = balance_row_index(t, a);
        assert(0 <= p < t.len() && t[p].account == a);
        lemma_balance_row_at(t, p);
        if a == e.account {
            lemma_balance_row_at(t, i);
        } else {
            assert(p != i);
            lemma_balance_row_at(s, p);
        }
    }
    assert(balances_map(t) =~= balances_map(s).insert(e.account, e.amount));
    lemma_total_update(s, i, e);
}

/// Appending a row for a fresh account inserts it into the map and adds its
/// amount to the total.
pub proof fn lemma_balances_push(s: Seq<BalanceEntry>, e: BalanceEntry)
    requires
        balances_unique(s),
        !balances_contain(s, e.account),
    ensures
        balances_unique(s.push(e)),
        balances_map(s.push(e)) == balances_map(s).insert(e.account, e.amount),
        balances_total(s.push(e)) == balances_total(s) + e.amount,
{
    let t = s.push(e);
    assert forall|p: int, q: int| 0 <= p < q < t.len() implies (#[trigger] t[p]).account != (
    #[trigger] t[q]).account by {
        if q == s.len() {
            if t[p].account == e.account {
                assert(s[p].account == e.account);
                assert(balances_contain(s, e.account));
            }
        }
    }
    assert(t[s.len() as int] == e);
    assert(balances_contain(t, e.account));
    assert forall|a: u64|
        balances_map(t).dom().contains(a) <==> balances_map(s).insert(e.account, e.amount)
            .dom().contains(a) by {
        if balances_contain(t, a) {
            let p = balance_row_index(t, a);
            assert(0 <= p < t.len() && t[p].account == a);
            if p < s.len() {
                assert(s[p].account == a);
                assert(balances_contain(s, a));
            } else {
                assert(a == e.account);
            }
        }
        if balances_contain(s, a) {
            let p = balance_row_index(s, a);
            assert(t[p].account == a);
            assert(balances_contain(t, a));
        }
    }
    assert forall|a: u64| #[trigger] balances_map(t).dom().contains(a)
        implies balances_map(t)[a] == balances_map(s).insert(e.account, e.amount)[a] by {
        let p = balance_row_index(t, a);
        assert(0 <= p < t.len() && t[p].account == a);
        lemma_balance_row_at(t, p);
        if a == e.account {
            lemma_balance_row_at(t, s.len() as int);
        } else {
            assert(p < s.len());
            lemma_balance_row_at(s, p);
        }
    }
    assert(balances_map(t) =~= balances_map(s).insert(e.account, e.amount));
    assert(t.drop_last() =~= s);
}

/// The total is never negative.
pub proof fn lemma_total_nonneg(s: Seq<BalanceEntry>)
    ensures
        balances_total(s) >= 0,
    decreases s.len(),
{
    if s.len() > 0 {
        lemma_total_nonneg(s.drop_last());
    }
}

/// One row's amount never exceeds the total.
pub proof fn lemma_amount_le_total(s: Seq<BalanceEntry>, i: int)
    requires
        0 <= i < s.len(),
    ensures
        s[i].amount <= balances_total(s),
    decreases s.len(),
{
    if i == s.len() - 1 {
        lemma_total_nonneg(s.drop_last());
    } else {
        assert(s.drop_last()[i] == s[i]);
        lemma_amount_le_total(s.drop_last(), i);
    }
}

/// Two distinct rows together hold at most the total.
pub proof fn lemma_two_amounts_le_total(s: Seq<BalanceEntry>, i: int, j: int)
    requires
        0 <= i < s.len(),
        0 <= j < s.len(),
        i != j,
    ensures
        s[i].amount + s[j].amount <= balances_total(s),
    decreases s.len(),
{
    let last = s.len() - 1;
    if i == last {
        assert(s.drop_last()[j] == s[j]);
        lemma_amount_le_total(s.drop_last(), j);
    } else if j == last {
        assert(s.drop_last()[i] == s[i]);
        lemma_amount_le_total(s.drop_last(), i);
    } else {
        assert(s.drop_last()[i] == s[i]);
        assert(s.drop_last()[j] == s[j]);
        lemma_two_amounts_le_total(s.drop_last(), i, j);
    }
}

/// The currency ledger.
pub struct Balances {
    pub entries: Vec<BalanceEntry>,
}

impl View for Balances {
    type V = Map<u64, u128>;

    open spec fn view(&self) -> Map<u64, u128> {
        balances_map(self.entries@)
    }
}

impl Balances {
    /// The rows have pairwise distinct accounts, and the sum of all
    /// balances fits the balance type.
    pub open spec fn wf(self) -> bool {
        &&& balances_unique(self.entries@)
        &&& balances_total(self.entries@) <= u128::MAX
    }

    /// The sum of all balances.
    pub open spec fn total(self) -> int {
        balances_total(self.entries@)
    }

    /// An account's spendable balance; zero when it holds no row.
    pub open spec fn spec_balance(self, who: u64) -> u128 {
        if self@.dom().contains(who) {
            self@[who]
        } else {
            0
        }
    }

    /// An empty ledger.
    pub fn new() -> (r: Balances)
        ensures
            r.wf(),
            r@ == Map::<u64, u128>::empty(),
            r.total() == 0,
    {
        let r = Balances { entries: Vec::new() };
        proof {
            assert(r@ =~= Map::<u64, u128>::empty());
        }
        r
    }

    /// Two distinct accounts together hold at most the total.
    pub proof fn lemma_pair_le_total(self, a: u64, b: u64)
        requires
            self.wf(),
            a != b,
        ensures
            self.spec_balance(a) + self.spec_balance(b) <= self.total(),
            self.spec_balance(a) <= self.total(),
            0 <= self.total(),
    {
        let s = self.entries@;
        lemma_total_nonneg(s);
        if self@.dom().contains(a) && self@.dom().contains(b) {
            let i = balance_row_index(s, a);
            let j = balance_row_index(s, b);
            assert(0 <= i < s.len() && s[i].account == a);
            assert(0 <= j < s.len() && s[j].account == b);
            lemma_balance_row_at(s, i);
            lemma_balance_row_at(s, j);
            lemma_two_amounts_le_total(s, i, j);
        } else if self@.dom().contains(a) {
            let i = balance_row_index(s, a);
            assert(0 <= i < s.len() && s[i].account == a);
            lemma_balance_row_at(s, i);
            lemma_amount_le_total(s, i);
        } else if self@.dom().contains(b) {
            let j = balance_row_index(s, b);
            assert(0 <= j < s.len() && s[j].account == b);
            lemma_balance_row_at(s, j);
            lemma_amount_le_total(s, j);
        }
    }

    /// Reads an account's spendable balance.
    pub fn free_balance(&self, who: u64) -> (r: u128)
        requires
            self.wf(),
        ensures
            r == self.spec_balance(who),
    {
        let n = self.entries.len();
        let mut i: usize = 0;
        while i < n
            invariant
                n == self.entries@.len(),
                i <= n,
                self.wf(),
                forall|j: int| 0 <= j < i ==> (#[trigger] self.entries@[j]).account != who,
            decreases n - i,
        {
            if self.entries[i].account == who {
                let amount = self.entries[i].amount;
                proof {
                    lemma_balance_row_at(self.entries@, i as int);
                }
                return amount;
            }
            i = i + 1;
        }
        proof {
            if balances_contain(self.entries@, who) {
                let j = balance_row_index(self.entries@, who);
                assert(0 <= j < self.entries@.len() && self.entries@[j].account == who);
            }
        }
        0
    }

    /// Writes an account's balance, creating the row if absent. The caller
    /// keeps the sum of all balances within range.
    pub fn set_balance(&mut self, who: u64, amount: u128)
        requires
            old(self).wf(),
            old(self).total() - old(self).spec_balance(who) + amount <= u128::MAX,
        ensures
            final(self).wf(),
            final(self)@ == old(self)@.insert(who, amount),
            final(self).total() == old(self).total() - old(self).spec_balance(who) + amount,
    {
        let ghost s0 = self.entries@;
        let n = self.entries.len();
        let mut i: usize = 0;
        while i < n
            invariant
                n == self.entries@.len(),
                i <= n,
                self.wf(),
                self.entries@ == s0,
                s0 == old(self).entries@,
                old(self).total() - old(self).spec_balance(who) + amount <= u128::MAX,
                forall|j: int| 0 <= j < i ==> (#[trigger] self.entries@[j]).account != who,
            decreases n - i,
        {
            if self.entries[i].account == who {
                let e = BalanceEntry { account: who, amount };
                proof {
                    lemma_balance_row_at(s0, i as int);
                    lemma_balances_update(s0, i as int, e);
                }
                self.entries[i] = e;
                return ;
            }
            i = i + 1;
        }
        let e = BalanceEntry { account: who, amount };
        proof {
            if balances_contain(s0, who) {
                let j = balance_row_index(s0, who);
                assert(0 <= j < s0.len() && s0[j].account == who);
            }
            lemma_balances_push(s0, e);
        }
        self.entries.push(e);
    }

    /// Moves an amount from one account to another, atomically: on success
    /// the payer loses exactly the amount and the payee gains exactly the
    /// amount; on failure no balance changes. Fails exactly when the payer's
    /// balance is less than the amount. A transfer to oneself leaves the
    /// ledger unchanged. The sum of all balances is preserved.
    pub fn transfer(&mut self, from: u64, to: u64, amount: u128) -> (r: Result<(), ()>)
        requires
            old(self).wf(),
        ensures
            final(self).wf(),
            final(self).total() == old(self).total(),
            r.is_ok() <==> old(self).spec_balance(from) >= amount,
            r.is_err() ==> *final(self) == *old(self),
            r.is_ok() && from == to ==> final(self)@ == old(self)@,
            r.is_ok() && from != to ==> final(self)@ == old(self)@.insert(
                from,
                ((old(self).spec_balance(from) - amount) as u128),
            ).insert(to, ((old(self).spec_balance(to) + amount) as u128)),
    {
        let from_bal = self.free_balance(from);
        if from_bal < amount {
            return Err(());
        }
        if from == to {
            return Ok(());
        }
        let to_bal = self.free_balance(to);
        proof {
            self.lemma_pair_le_total(from, to);
        }
        self.set_balance(from, from_bal - amount);
        self.set_balance(to, to_bal + amount);
        Ok(())
    }
}

} // verus!
