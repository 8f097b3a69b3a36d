//! The owner record store: a pure keyed store from (asset identifier,
//! account) to that account's [`MetaData`] for the asset.
//!
//! Absence of a record is distinct from a record with zero shares: absence
//! means the account never interacted with the asset. Records are never
//! deleted. The store's view is the map of its rows; alongside it the store
//! exposes, for each asset, the sum of `shares` over all of the asset's
//! rows, which the operation layer uses to reason about the fixed total
//! supply.

use vstd::prelude::*;

use crate::types::MetaData;

verus! {

/// One row of the store.
#[derive(Clone, Copy, Debug, PartialEq, Eq, Structural)]
pub struct OwnerEntry {
    pub asset: u64,
    pub account: u64,
    pub meta: MetaData,
}

/// No two rows share a (asset, account) key.
pub open spec fn rows_unique(s: Seq<OwnerEntry>) -> bool {
    forall|i: int, j: int|
        0 <= i < j < s.len() ==> !((#[trigger] s[i]).asset == (#[trigger] s[j]).asset
            && s[i].account == s[j].account)
}

/// Some row carries the key.
pub open spec fn rows_contain(s: Seq<OwnerEntry>, asset: u64, account: u64) -> bool {
    exists|i: int| 0 <= i < s.len() && (#[trigger] s[i]).asset == asset && s[i].account == account
}

/// The index of the row carrying the key (meaningful only when one does).
pub open spec fn row_index(s: Seq<OwnerEntry>, asset: u64, account: u64) -> int {
    choose|i: int| 0 <= i < s.len() && (#[trigger] s[i]).asset == asset && s[i].account == account
}

/// The rows read as a map from key to metadata.
pub open spec fn rows_map(s: Seq<OwnerEntry>) -> Map<(u64, u64), MetaData> {
    Map::new(
        |k: (u64, u64)| rows_contain(s, k.0, k.1),
        |k: (u64, u64)| s[row_index(s, k.0, k.1)].meta,
    )
}

/// What one row adds to an asset's share total.
pub open spec fn row_contrib(e: OwnerEntry, asset: u64) -> int {
    if e.asset == asset {
        e.meta.shares as int
    } else {
        0
    }
}

/// The sum of `shares` over all rows of one asset.
pub open spec fn rows_sum(s: Seq<OwnerEntry>, asset: u64) -> int
    decreases s.len(),
{
    if s.len() == 0 {
        0
    } else {
        rows_sum(s.drop_last(), asset) + row_contrib(s.last(), asset)
    }
}

/// A row that carries a key determines the map at that key.
pub proof fn lemma_row_at(s: Seq<OwnerEntry>, i: int)
    requires
        rows_unique(s),
        0 <= i < s.len(),
    ensures
        rows_contain(s, s[i].asset, s[i].account),
        row_index(s, s[i].asset, s[i].account) == i,
        rows_map(s).dom().contains((s[i].asset, s[i].account)),
        rows_map(s)[(s[i].asset, s[i].account)] == s[i].meta,
{
    let asset = s[i].asset;
    let account = s[i].account;
    assert(rows_contain(s, asset, account));
    let j = row_index(s, asset, account);
    assert(0 <= j < s.len() && s[j].asset == asset && s[j].account == account);
    if j != i {
        assert(false);
    }
}

/// Replacing a row's metadata in place rewrites the map at its key and
/// shifts the asset's sum by the change in that row's contribution.
pub proof fn lemma_rows_update(s: Seq<OwnerEntry>, i: int, e: OwnerEntry)
    requires
        rows_unique(s),
        0 <= i < s.len(),
        e.asset == s[i].asset,
        e.account == s[i].account,
    ensures
        rows_unique(s.update(i, e)),
        rows_map(s.update(i, e)) == rows_map(s).insert((e.asset, e.account), e.meta),
        forall|a: u64| #[trigger] rows_sum(s.update(i, e), a)
            == rows_sum(s, a) - row_contrib(s[i], a) + row_contrib(e, a),
{
    let t = s.update(i, e);
    assert forall|p: int| 0 <= p < t.len() implies (#[trigger] t[p]).asset == s[p].asset
        && t[p].account == s[p].account by {}
    assert(rows_unique(t));
    let k = (e.asset, e.account);
    lemma_row_at(s, i);
    lemma_row_at(t, i);
    assert forall|k2: (u64, u64)|
        rows_map(t).dom().contains(k2) <==> rows_map(s).insert(k, e.meta).dom().contains(k2) by {
        if rows_contain(t, k2.0, k2.1) {
            let p = row_index(t, k2.0, k2.1);
            assert(0 <= p < t.len() && t[p].asset == k2.0 && t[p].account == k2.1);
            assert(s[p].asset == k2.0 && s[p].account == k2.1);
            assert(rows_contain(s, k2.0, k2.1));
        }
        if rows_contain(s, k2.0, k2.1) {
            let p = row_index(s, k2.0, k2.1);
            assert(0 <= p < s.len() && s[p].asset == k2.0 && s[p].account == k2.1);
            assert(t[p].asset == k2.0 && t[p].account == k2.1);
            assert(rows_contain(t, k2.0, k2.1));
        }
    }
    assert forall|k2: (u64, u64)| #[trigger] rows_map(t).dom().contains(k2)
        implies rows_map(t)[k2] == rows_map(s).insert(k, e.meta)[k2] by {
        let p = row_index(t, k2.0, k2.1);
        assert(0 <= p < t.len() && t[p].asset == k2.0 && t[p].account == k2.1);
        lemma_row_at(t, p);
        if k2 == k {
            lemma_row_at(t, i);
        } else {
            assert(p != i);
            lemma_row_at(s, p);
        }
    }
    assert(rows_map(t) =~= rows_map(s).insert(k, e.meta));
    assert forall|a: u64| #[trigger] rows_sum(t, a)
        == rows_sum(s, a) - row_contrib(s[i], a) + row_contrib(e, a) by {
        lemma_sum_update(s, i, e, a);
    }
}

/// The sum after an in-place update, for one asset.
proof fn lemma_sum_update(s: Seq<OwnerEntry>, i: int, e: OwnerEntry, a: u64)
    requires
        0 <= i < s.len(),
    ensures
        rows_sum(s.update(i, e), a) == rows_sum(s, a) - row_contrib(s[i], a) + row_contrib(e, a),
    decreases s.len(),
{
    let t = s.update(i, e);
    if i == s.len() - 1 {
        assert(t.drop_last() =~= s.drop_last());
        assert(t.last() == e);
    } else {
        assert(t.drop_last() =~= s.drop_last().update(i, e));
        assert(t.last() == s.last());
        lemma_sum_update(s.drop_last(), i, e, a);
    }
}

/// Appending a row with a fresh key inserts it into the map and adds its
/// contribution to the sums.
pub proof fn lemma_rows_push(s: Seq<OwnerEntry>, e: OwnerEntry)
    requires
        rows_unique(s),
        !rows_contain(s, e.asset, e.account),
    ensures
        rows_unique(s.push(e)),
        rows_map(s.push(e)) == rows_map(s).insert((e.asset, e.account), e.meta),
        forall|a: u64| #[trigger] rows_sum(s.push(e), a) == rows_sum(s, a) + row_contrib(e, a),
{
    let t = s.push(e);
    assert forall|p: int, q: int| 0 <= p < q < t.len() implies !((#[trigger] t[p]).asset
        == (#[trigger] t[q]).asset && t[p].account == t[q].account) by {
        if q == s.len() {
            if t[p].asset == e.asset && t[p].account == e.account {
                assert(s[p].asset == e.asset && s[p].account == e.account);
                assert(rows_contain(s, e.asset, e.account));
            }
        }
    }
    let k = (e.asset, e.account);
    assert(t[s.len() as int] == e);
    assert(rows_contain(t, k.0, k.1));
    assert forall|k2: (u64, u64)|
        rows_map(t).dom().contains(k2) <==> rows_map(s).insert(k, e.meta).dom().contains(k2) by {
        if rows_contain(t, k2.0, k2.1) {
            let p = row_index(t, k2.0, k2.1);
            assert(0 <= p < t.len() && t[p].asset == k2.0 && t[p].account == k2.1);
            if p < s.len() {
                assert(s[p].asset == k2.0 && s[p].account == k2.1);
                assert(rows_contain(s, k2.0, k2.1));
            } else {
                assert(k2 == k);
            }
        }
        if rows_contain(s, k2.0, k2.1) {
            let p = row_index(s, k2.0, k2.1);
            assert(t[p].asset == k2.0 && t[p].account == k2.1);
            assert(rows_contain(t, k2.0, k2.1));
        }
    }
    assert forall|k2: (u64, u64)| #[trigger] rows_map(t).dom().contains(k2)
        implies rows_map(t)[k2] == rows_map(s).insert(k, e.meta)[k2] by {
        let p = row_index(t, k2.0, k2.1);
        assert(0 <= p < t.len() && t[p].asset == k2.0 && t[p].account == k2.1);
        lemma_row_at(t, p);
        if k2 == k {
            lemma_row_at(t, s.len() as int);
        } else {
            assert(p < s.len());
            lemma_row_at(s, p);
        }
    }
    assert(rows_map(t) =~= rows_map(s).insert(k, e.meta));
    assert(t.drop_last() =~= s);
    assert forall|a: u64| #[trigger] rows_sum(t, a) == rows_sum(s, a) + row_contrib(e, a) by {
        assert(rows_sum(t, a) == rows_sum(t.drop_last(), a) + row_contrib(t.last(), a));
    }
}

/// An asset's sum is never negative.
pub proof fn lemma_sum_nonneg(s: Seq<OwnerEntry>, a: u64)
    ensures
        rows_sum(s, a) >= 0,
    decreases s.len(),
{
    if s.len() > 0 {
        lemma_sum_nonneg(s.drop_last(), a);
    }
}

/// One row's contribution never exceeds its asset's sum.
pub proof fn lemma_contrib_le_sum(s: Seq<OwnerEntry>, i: int, a: u64)
    requires
        0 <= i < s.len(),
    ensures
        row_contrib(s[i], a) <= rows_sum(s, a),
    decreases s.len(),
{
    if i == s.len() - 1 {
        lemma_sum_nonneg(s.drop_last(), a);
    } else {
        assert(s.drop_last()[i] == s[i]);
        lemma_contrib_le_sum(s.drop_last(), i, a);
    }
}

/// Two distinct rows together contribute at most their asset's sum.
pub proof fn lemma_two_contribs_le_sum(s: Seq<OwnerEntry>, i: int, j: int, a: u64)
    requires
        0 <= i < s.len(),
        0 <= j < s.len(),
        i != j,
    ensures
        row_contrib(s[i], a) + row_contrib(s[j], a) <= rows_sum(s, a),
    decreases s.len(),
{
    let last = s.len() - 1;
    if i == last {
        assert(s.drop_last()[j] == s[j]);
        lemma_contrib_le_sum(s.drop_last(), j, a);
    } else if j == last {
        assert(s.drop_last()[i] == s[i]);
        lemma_contrib_le_sum(s.drop_last(), i, a);
    } else {
        assert(s.drop_last()[i] == s[i]);
        assert(s.drop_last()[j] == s[j]);
        lemma_two_contribs_le_sum(s.drop_last(), i, j, a);
    }
}

/// An asset none of whose rows exist sums to zero.
pub proof fn lemma_sum_zero_absent(s: Seq<OwnerEntry>, a: u64)
    requires
        forall|i: int| 0 <= i < s.len() ==> (#[trigger] s[i]).asset != a,
    ensures
        rows_sum(s, a) == 0,
    decreases s.len(),
{
    if s.len() > 0 {
        assert forall|i: int| 0 <= i < s.drop_last().len()
            implies (#[trigger] s.drop_last()[i]).asset != a by {
            assert(s.drop_last()[i] == s[i]);
        }
        lemma_sum_zero_absent(s.drop_last(), a);
    }
}

/// The owner record store.
pub struct OwnerRecordStore {
    pub entries: Vec<OwnerEntry>,
}

impl View for OwnerRecordStore {
    type V = Map<(u64, u64), MetaData>;

    open spec fn view(&self) -> Map<(u64, u64), MetaData> {
        rows_map(self.entries@)
    }
}

impl OwnerRecordStore {
    /// The store's rows have pairwise distinct keys.
    pub open spec fn wf(self) -> bool {
        rows_unique(self.entries@)
    }

    /// The sum of `shares` over all of one asset's records.
    pub open spec fn sum_shares(self, asset: u64) -> int {
        rows_sum(self.entries@, asset)
    }

    /// A record's shares never exceed its asset's sum, which is never
    /// negative.
    pub proof fn lemma_record_le_sum(self, asset: u64, account: u64)
        requires
            self.wf(),
            self@.dom().contains((asset, account)),
        ensures
            self@[(asset, account)].shares <= self.sum_shares(asset),
            0 <= self.sum_shares(asset),
    {
        let s = self.entries@;
        let i = row_index(s, asset, account);
        assert(0 <= i < s.len() && s[i].asset == asset && s[i].account == account);
        lemma_row_at(s, i);
        lemma_contrib_le_sum(s, i, asset);
        lemma_sum_nonneg(s, asset);
    }

    /// Two records of one asset under distinct accounts together hold at
    /// most the asset's sum.
    pub proof fn lemma_two_records_le_sum(self, asset: u64, acct1: u64, acct2: u64)
        requires
            self.wf(),
            acct1 != acct2,
            self@.dom().contains((asset, acct1)),
            self@.dom().contains((asset, acct2)),
        ensures
            self@[(asset, acct1)].shares + self@[(asset, acct2)].shares <= self.sum_shares(asset),
    {
        let s = self.entries@;
        let i = row_index(s, asset, acct1);
        let j = row_index(s, asset, acct2);
        assert(0 <= i < s.len() && s[i].asset == asset && s[i].account == acct1);
        assert(0 <= j < s.len() && s[j].asset == asset && s[j].account == acct2);
        lemma_row_at(s, i);
        lemma_row_at(s, j);
        lemma_two_contribs_le_sum(s, i, j, asset);
    }

    /// An asset with no records at all sums to zero.
    pub proof fn lemma_absent_asset_sum_zero(self, asset: u64)
        requires
            self.wf(),
            forall|acct: u64| !self@.dom().contains((asset, acct)),
        ensures
            self.sum_shares(asset) == 0,
    {
        let s = self.entries@;
        assert forall|i: int| 0 <= i < s.len() implies (#[trigger] s[i]).asset != asset by {
            if s[i].asset == asset {
                lemma_row_at(s, i);
                assert(!self@.dom().contains((asset, s[i].account)));
            }
        }
        lemma_sum_zero_absent(s, asset);
    }

    /// An empty store.
    pub fn new() -> (r: OwnerRecordStore)
        ensures
            r.wf(),
            r@ == Map::<(u64, u64), MetaData>::empty(),
            forall|a: u64| #[trigger] r.sum_shares(a) == 0,
    {
        let r = OwnerRecordStore { entries: Vec::new() };
        proof {
            assert forall|k: (u64, u64)| !r@.dom().contains(k) by {}
            assert(r@ =~= Map::<(u64, u64), MetaData>::empty());
            assert forall|a: u64| #[trigger] r.sum_shares(a) == 0 by {}
        }
        r
    }

    /// Reads the record for a key, or reports that none exists.
    pub fn get(&self, asset: u64, account: u64) -> (r: Option<MetaData>)
        requires
            self.wf(),
        ensures
            r == (if self@.dom().contains((asset, account)) {
                Some(self@[(asset, account)])
            } else {
                None::<MetaData>
            }),
    {
        let n = self.entries.len();
        let mut i: usize = 0;
        while i < n
            invariant
                n == self.entries@.len(),
                i <= n,
                self.wf(),
                forall|j: int| 0 <= j < i ==> !((#[trigger] self.entries@[j]).asset == asset
                    && self.entries@[j].account == account),
            decreases n - i,
        {
            let e = &self.entries[i];
            if e.asset == asset && e.account == account {
                proof {
                    lemma_row_at(self.entries@, i as int);
                }
                return Some(e.meta);
            }
            i = i + 1;
        }
        proof {
            if rows_contain(self.entries@, asset, account) {
                let j = row_index(self.entries@, asset, account);
                assert(0 <= j < self.entries@.len() && self.entries@[j].asset == asset
                    && self.entries@[j].account == account);
            }
        }
        None
    }

    /// Writes the record for a key, creating the row if absent.
    pub fn set(&mut self, asset: u64, account: u64, meta: MetaData)
        requires
            old(self).wf(),
        ensures
            final(self).wf(),
            final(self)@ == old(self)@.insert((asset, account), meta),
            forall|a: u64| a != asset ==> #[trigger] final(self).sum_shares(a)
                == old(self).sum_shares(a),
            final(self).sum_shares(asset) == old(self).sum_shares(asset) + meta.shares - (
            if old(self)@.dom().contains((asset, account)) {
                old(self)@[(asset, account)].shares as int
            } else {
                0
            }),
    {
        let ghost s0 = self.entries@;
        let n = self.entries.len();
        let mut i: usize = 0;
        while i < n
            invariant
                n == self.entries@.len(),
                i <= n,
                self.wf(),
                self.entries@ == s0,
                s0 == old(self).entries@,
                forall|j: int| 0 <= j < i ==> !((#[trigger] self.entries@[j]).asset == asset
                    && self.entries@[j].account == account),
            decreases n - i,
        {
            let row_asset = self.entries[i].asset;
            let row_account = self.entries[i].account;
            if row_asset == asset && row_account == account {
                let e = OwnerEntry { asset, account, meta };
                proof {
                    assert(s0[i as int].asset == asset && s0[i as int].account == account);
                    lemma_row_at(s0, i as int);
                    lemma_rows_update(s0, i as int, e);
                }
                self.entries[i] = e;
                return ;
            }
            i = i + 1;
        }
        let e = OwnerEntry { asset, account, meta };
        proof {
            if rows_contain(s0, asset, account) {
                let j = row_index(s0, asset, account);
                assert(0 <= j < s0.len() && s0[j].asset == asset && s0[j].account == account);
            }
            lemma_rows_push(s0, e);
        }
        self.entries.push(e);
    }
}

} // verus!
