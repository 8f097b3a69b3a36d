//! The main-owner index: a pure keyed store from asset identifier to the
//! single account currently treated as the asset's main owner.
//!
//! The entry is created when the asset is created and afterwards changed
//! only by a successful ownership claim; it is never deleted.

use vstd::prelude::*;

verus! {

/// One row of the index.
#[derive(Clone, Copy, Debug, PartialEq, Eq, Structural)]
pub struct OwnerOf {
    pub asset: u64,
    pub owner: u64,
}

/// No two rows share an asset.
pub open spec fn owners_unique(s: Seq<OwnerOf>) -> bool {
    forall|i: int, j: int|
        0 <= i < j < s.len() ==> (#[trigger] s[i]).asset != (#[trigger] s[j]).asset
}

/// Some row carries the asset.
pub open spec fn owners_contain(s: Seq<OwnerOf>, asset: u64) -> bool {
    exists|i: int| 0 <= i < s.len() && (#[trigger] s[i]).asset == asset
}

/// The index of the row carrying the asset (meaningful only when one does).
pub open spec fn owner_row_index(s: Seq<OwnerOf>, asset: u64) -> int {
    choose|i: int| 0 <= i < s.len() && (#[trigger] s[i]).asset == asset
}

/// The rows read as a map from asset to main owner.
pub open spec fn owners_map(s: Seq<OwnerOf>) -> Map<u64, u64> {
    Map::new(
        |a: u64| owners_contain(s, a),
        |a: u64| s[owner_row_index(s, a)].owner,
    )
}

/// A row that carries an asset determines the map at that asset.
pub proof fn lemma_owner_row_at(s: Seq<OwnerOf>, i: int)
    requires
        owners_unique(s),
        0 <= i < s.len(),
    ensures
        owners_contain(s, s[i].asset),
        owner_row_index(s, s[i].asset) == i,
        owners_map(s).dom().contains(s[i].asset),
        owners_map(s)[s[i].asset] == s[i].owner,
{
    let a = s[i].asset;
    assert(owners_contain(s, a));
    let j = owner_row_index(s, a);
    assert(0 <= j < s.len() && s[j].asset == a);
    if j != i {
        assert(false);
    }
}

/// Replacing a row's owner in place rewrites the map at its asset.
pub proof fn lemma_owners_update(s: Seq<OwnerOf>, i: int, e: OwnerOf)
    requires
        owners_unique(s),
        0 <= i < s.len(),
        e.asset == s[i].asset,
    ensures
        owners_unique(s.update(i, e)),
        owners_map(s.update(i, e)) == owners_map(s).insert(e.asset, e.owner),
{
    let t = s.update(i, e);
    assert forall|p: int| 0 <= p < t.len() implies (#[trigger] t[p]).asset == s[p].asset by {}
    assert(owners_unique(t));
    lemma_owner_row_at(s, i);
    lemma_owner_row_at(t, i);
    assert forall|a: u64|
        owners_map(t).dom().contains(a) <==> owners_map(s).insert(e.asset, e.owner).dom().contains(
            a,
        ) by {
        if owners_contain(t, a) {
            let p = owner_row_index(t, a);
            assert(0 <= p < t.len() && t[p].asset == a);
            assert(s[p].asset == a);
            assert(owners_contain(s, a));
        }
        if owners_contain(s, a) {
            let p = owner_row_index(s, a);
            assert(0 <= p < s.len() && s[p].asset == a);
            assert(t[p].asset == a);
            assert(owners_contain(t, a));
        }
    }
    assert forall|a: u64| #[trigger] owners_map(t).dom().contains(a)
        implies owners_map(t)[a] == owners_map(s).insert(e.asset, e.owner)[a] by {
        let p = owner_row_index(t, a);
        assert(0 <= p < t.len() && t[p].asset == a);
        lemma_owner_row_at(t, p);
        if a == e.asset {
            lemma_owner_row_at(t, i);
        } else {
            assert(p != i);
            lemma_owner_row_at(s, p);
        }
    }
    assert(owners_map(t) =~= owners_map(s).insert(e.asset, e.owner));
}

/// Appending a row for a fresh asset inserts it into the map.
pub proof fn lemma_owners_push(s: Seq<OwnerOf>, e: OwnerOf)
    requires
        owners_unique(s),
        !owners_contain(s, e.asset),
    ensures
        owners_unique(s.push(e)),
        owners_map(s.push(e)) == owners_map(s).insert(e.asset, e.owner),
{
    let t = s.push(e);
    assert forall|p: int, q: int| 0 <= p < q < t.len() implies (#[trigger] t[p]).asset != (
    #[trigger] t[q]).asset by {
        if q == s.len() {
            if t[p].asset == e.asset {
                assert(s[p].asset == e.asset);
                assert(owners_contain(s, e.asset));
            }
        }
    }
    assert(t[s.len() as int] == e);
    assert(owners_contain(t, e.asset));
    assert forall|a: u64|
        owners_map(t).dom().contains(a) <==> owners_map(s).insert(e.asset, e.owner).dom().contains(
            a,
        ) by {
        if owners_contain(t, a) {
            let p = owner_row_index(t, a);
            assert(0 <= p < t.len() && t[p].asset == a);
            if p < s.len() {
                assert(s[p].asset == a);
                assert(owners_contain(s, a));
            } else {
                assert(a == e.asset);
            }
        }
        if owners_contain(s, a) {
            let p = owner_row_index(s, a);
            assert(t[p].asset == a);
            assert(owners_contain(t, a));
        }
    }
    assert forall|a: u64| #[trigger] owners_map(t).dom().contains(a)
        implies owners_map(t)[a] == owners_map(s).insert(e.asset, e.owner)[a] by {
        let p = owner_row_index(t, a);
        assert(0 <= p < t.len() && t[p].asset == a);
        lemma_owner_row_at(t, p);
        if a == e.asset {
            lemma_owner_row_at(t, s.len() as int);
        } else {
            assert(p < s.len());
            lemma_owner_row_at(s, p);
        }
    }
    assert(owners_map(t) =~= owners_map(s).insert(e.asset, e.owner));
}

/// The main-owner index.
pub struct MainOwnerIndex {
    pub entries: Vec<OwnerOf>,
}

impl View for MainOwnerIndex {
    type V = Map<u64, u64>;

    open spec fn view(&self) -> Map<u64, u64> {
        owners_map(self.entries@)
    }
}

impl MainOwnerIndex {
    /// The index's rows have pairwise distinct assets.
    pub open spec fn wf(self) -> bool {
        owners_unique(self.entries@)
    }

    /// An empty index.
    pub fn new() -> (r: MainOwnerIndex)
        ensures
            r.wf(),
            r@ == Map::<u64, u64>::empty(),
    {
        let r = MainOwnerIndex { entries: Vec::new() };
        proof {
            assert(r@ =~= Map::<u64, u64>::empty());
        }
        r
    }

    /// Reads the main owner of an asset, or reports that none is set.
    pub fn get(&self, asset: u64) -> (r: Option<u64>)
        requires
            self.wf(),
        ensures
            r == (if self@.dom().contains(asset) {
                Some(self@[asset])
            } else {
                None::<u64>
            }),
    {
        let n = self.entries.len();
        let mut i: usize = 0;
        while i < n
            invariant
                n == self.entries@.len(),
                i <= n,
                self.wf(),
                forall|j: int| 0 <= j < i ==> (#[trigger] self.entries@[j]).asset != asset,
            decreases n - i,
        {
            if self.entries[i].asset == asset {
                let owner = self.entries[i].owner;
                proof {
                    lemma_owner_row_at(self.entries@, i as int);
                }
                return Some(owner);
            }
            i = i + 1;
        }
        proof {
            if owners_contain(self.entries@, asset) {
                let j = owner_row_index(self.entries@, asset);
                assert(0 <= j < self.entries@.len() && self.entries@[j].asset == asset);
            }
        }
        None
    }

    /// Writes the main owner of an asset, creating the row if absent.
    pub fn set(&mut self, asset: u64, owner: u64)
        requires
            old(self).wf(),
        ensures
            final(self).wf(),
            final(self)@ == old(self)@.insert(asset, owner),
    {
        let ghost s0 = self.entries@;
        let n = self.entries.len();
        let mut i: usize = 0;
        while i < n
            invariant
                n == self.entries@.len(),
                i <= n,
                self.wf(),
                self.entries@ == s0,
                s0 == old(self).entries@,
                forall|j: int| 0 <= j < i ==> (#[trigger] self.entries@[j]).asset != asset,
            decreases n - i,
        {
            if self.entries[i].asset == asset {
                let e = OwnerOf { asset, owner };
                proof {
                    lemma_owners_update(s0, i as int, e);
                }
                self.entries[i] = e;
                return ;
            }
            i = i + 1;
        }
        let e = OwnerOf { asset, owner };
        proof {
            if owners_contain(s0, asset) {
                let j = owner_row_index(s0, asset);
                assert(0 <= j < s0.len() && s0[j].asset == asset);
            }
            lemma_owners_push(s0, e);
        }
        self.entries.push(e);
    }
}

} // verus!
