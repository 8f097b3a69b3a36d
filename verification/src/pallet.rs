//! The transfer engine: the five operations over the owner record store and
//! the main-owner index, each a total function from the current state and
//! the operation's inputs to either a new state plus a recorded event, or a
//! typed rejection with no mutation.
//!
//! Every validation runs before any store write, so an operation either
//! fully applies or leaves the ledger untouched.
//!
//! Once an asset exists, the sum of `shares` over its records is 100, and
//! every operation's contract says exactly how it preserves or moves that
//! sum. One quirk of the rules is kept deliberately and surfaces in the
//! contracts rather than being papered over: creation is checked per
//! (identifier, creator) rather than per identifier, so a second account
//! creating the same identifier adds another 100 shares to it.

use vstd::prelude::*;

use crate::balances::Balances;
use crate::identifier::derive_identifier;
use crate::identifier::identifier_of;
use crate::owners::MainOwnerIndex;
use crate::records::OwnerRecordStore;
use crate::types::Error;
use crate::types::Event;
use crate::types::MetaData;
use crate::types::TOTAL_SUPPLY;

verus! {

/// Addition clamped at the top of the type's range.
pub open spec fn sat_add_u64(a: u64, b: u64) -> u64 {
    if a + b > u64::MAX {
        u64::MAX
    } else {
        (a + b) as u64
    }
}

/// Multiplication clamped at the top of the type's range.
pub open spec fn sat_mul_u64(a: u64, b: u64) -> u64 {
    if a * b > u64::MAX {
        u64::MAX
    } else {
        (a * b) as u64
    }
}

/// Multiplies two share quantities, clamping at the top of the range.
fn saturating_mul_u64(a: u64, b: u64) -> (r: u64)
    ensures
        r == sat_mul_u64(a, b),
{
    proof {
        assert((a as int) * (b as int) <= 0xffff_ffff_ffff_ffff * 0xffff_ffff_ffff_ffff)
            by (nonlinear_arith)
            requires
                a <= 0xffff_ffff_ffff_ffffu64,
                b <= 0xffff_ffff_ffff_ffffu64,
        ;
    }
    let wide: u128 = (a as u128) * (b as u128);
    if wide > (u64::MAX as u128) {
        u64::MAX
    } else {
        wide as u64
    }
}

/// Converts a currency amount to the share-price type, or reports that it
/// does not fit.
fn balance_to_u64_option(input: u128) -> (r: Option<u64>)
    ensures
        r == (if input <= u64::MAX {
            Some(input as u64)
        } else {
            None::<u64>
        }),
{
    if input <= (u64::MAX as u128) {
        Some(input as u64)
    } else {
        None
    }
}

/// The proportional-ownership ledger: both stores and the recorded events.
pub struct Pallet {
    pub records: OwnerRecordStore,
    pub owners: MainOwnerIndex,
    pub events: Vec<Event>,
}

impl Pallet {
    /// Both stores are well formed.
    pub open spec fn wf(self) -> bool {
        &&& self.records.wf()
        &&& self.owners.wf()
    }

    /// The owner records, as a map from (asset, account) to metadata.
    pub open spec fn records_map(self) -> Map<(u64, u64), MetaData> {
        self.records@
    }

    /// The main owners, as a map from asset to account.
    pub open spec fn owners_map(self) -> Map<u64, u64> {
        self.owners@
    }

    /// Whether an account has ever interacted with an asset.
    pub open spec fn has_record(self, id: u64, who: u64) -> bool {
        self.records_map().dom().contains((id, who))
    }

    /// The metadata of an account for an asset (meaningful only when the
    /// record exists).
    pub open spec fn record_of(self, id: u64, who: u64) -> MetaData {
        self.records_map()[(id, who)]
    }

    /// Whether an account is the current main owner of an asset.
    pub open spec fn is_main_owner(self, who: u64, id: u64) -> bool {
        &&& self.owners_map().dom().contains(id)
        &&& self.owners_map()[id] == who
    }

    /// The sum of `shares` over all of an asset's records.
    pub open spec fn sum_shares(self, asset: u64) -> int {
        self.records.sum_shares(asset)
    }

    /// An existing asset's records hold exactly the total supply.
    pub open spec fn balanced(self, asset: u64) -> bool {
        self.sum_shares(asset) == TOTAL_SUPPLY
    }

    /// Every asset that exists — that has a main owner — is balanced: its
    /// records hold exactly the total supply. Each operation's contract
    /// says how it preserves this; the one deliberate exception is a
    /// creation of an identifier that another account already created.
    pub open spec fn supply_invariant(self) -> bool {
        forall|id: u64|
            #[trigger] self.owners_map().dom().contains(id) ==> self.balanced(id)
    }

    /// An empty ledger: no assets, no records, no events.
    pub fn new() -> (r: Pallet)
        ensures
            r.wf(),
            r.records_map() == Map::<(u64, u64), MetaData>::empty(),
            r.owners_map() == Map::<u64, u64>::empty(),
            r.events@ == Seq::<Event>::empty(),
            forall|a: u64| #[trigger] r.sum_shares(a) == 0,
    {
        Pallet { records: OwnerRecordStore::new(), owners: MainOwnerIndex::new(), events: Vec::new() }
    }

    /// The engine's own account identifier: the eight bytes of its label,
    /// read as a little-endian integer.
    pub fn account_id() -> (r: u64)
        ensures
            r == 0x212a_2374_6573_7341u64,
    {
        0x212a_2374_6573_7341u64
    }

    /// Reads the record for an asset and an account, or reports that none
    /// exists.
    pub fn get_metadata(&self, id: u64, who: u64) -> (r: Option<MetaData>)
        requires
            self.wf(),
        ensures
            r == (if self.has_record(id, who) {
                Some(self.record_of(id, who))
            } else {
                None::<MetaData>
            }),
    {
        self.records.get(id, who)
    }

    /// Reads the main owner of an asset, or reports that none is set.
    pub fn get_main_owner_by_asset(&self, id: u64) -> (r: Option<u64>)
        requires
            self.wf(),
        ensures
            r == (if self.owners_map().dom().contains(id) {
                Some(self.owners_map()[id])
            } else {
                None::<u64>
            }),
    {
        self.owners.get(id)
    }

    /// Whether an account is the current main owner of an asset.
    pub fn is_owner_of(&self, who: u64, id: u64) -> (r: bool)
        requires
            self.wf(),
        ensures
            r == self.is_main_owner(who, id),
    {
        match self.owners.get(id) {
            Some(owner) => owner == who,
            None => false,
        }
    }

    /// Sets the main owner of an asset.
    fn set_main_owner(&mut self, who: u64, id: u64)
        requires
            old(self).wf(),
        ensures
            final(self).wf(),
            final(self).owners_map() == old(self).owners_map().insert(id, who),
            final(self).records == old(self).records,
            final(self).events == old(self).events,
    {
        self.owners.set(id, who);
    }

    /// Creates a proportional asset from its descriptive payload.
    ///
    /// The payload's identifier is derived deterministically; the operation
    /// is rejected when the caller already holds a record for that
    /// identifier (the check is scoped to the caller, not to the identifier
    /// alone). On success the caller starts with all 100 shares, no offers
    /// and the given per-share price, becomes the asset's main owner, and
    /// an initialization event is recorded.
    pub fn create_proportional_asset(&mut self, who: u64, data: Vec<u8>, share_price: u64) -> (r:
        Result<(), Error>)
        requires
            old(self).wf(),
        ensures
            final(self).wf(),
            r.is_err() ==> *final(self) == *old(self),
            ({
                let id = identifier_of(data@);
                match r {
                    Err(e) => e == Error::AssetAlreadyExists && old(self).has_record(id, who),
                    Ok(()) => {
                        &&& !old(self).has_record(id, who)
                        &&& final(self).records_map() == old(self).records_map().insert(
                            (id, who),
                            (MetaData { offers: 0, shares: TOTAL_SUPPLY, price: share_price }),
                        )
                        &&& final(self).owners_map() == old(self).owners_map().insert(id, who)
                        &&& final(self).events@ == old(self).events@.push(
                            Event::ProportionalAssetInitialized(id, who),
                        )
                        &&& final(self).sum_shares(id) == old(self).sum_shares(id) + TOTAL_SUPPLY
                    },
                }
            }),
            forall|a: u64|
                a != identifier_of(data@) ==> #[trigger] final(self).sum_shares(a) == old(
                    self,
                ).sum_shares(a),
            r.is_ok() && (forall|acct: u64|
                !old(self).has_record(identifier_of(data@), acct)) ==> final(self).balanced(
                identifier_of(data@),
            ),
            old(self).supply_invariant() && (forall|acct: u64|
                !old(self).has_record(identifier_of(data@), acct))
                ==> final(self).supply_invariant(),
    {
        let id = derive_identifier(&data);
        match self.records.get(id, who) {
            Some(_) => Err(Error::AssetAlreadyExists),
            None => {
                proof {
                    if forall|acct: u64| !old(self).has_record(id, acct) {
                        assert forall|acct: u64| !self.records@.dom().contains((id, acct)) by {
                            assert(!old(self).has_record(id, acct));
                        }
                        self.records.lemma_absent_asset_sum_zero(id);
                    }
                }
                let metadata = MetaData { offers: 0, shares: TOTAL_SUPPLY, price: share_price };
                self.records.set(id, who, metadata);
                self.owners.set(id, who);
                self.events.push(Event::ProportionalAssetInitialized(id, who));
                proof {
                    if old(self).supply_invariant() && (forall|acct: u64|
                        !old(self).has_record(id, acct)) {
                        assert forall|id2: u64| #[trigger] self.owners_map().dom().contains(id2)
                            implies self.balanced(id2) by {
                            if id2 != id {
                                assert(old(self).owners_map().dom().contains(id2));
                                assert(old(self).balanced(id2));
                                assert(self.sum_shares(id2) == old(self).sum_shares(id2));
                            }
                        }
                    }
                }
                Ok(())
            },
        }
    }

    /// Advertises shares of an asset for sale.
    ///
    /// Only the asset's main owner may offer; the offered amount may not
    /// exceed the shares held. On success the caller's record keeps its
    /// shares and takes the offered amount and the new price — so the
    /// offered amount never exceeds the shares at the time of the call —
    /// and an offer event is recorded.
    pub fn offer_shares(&mut self, who: u64, id: u64, shares_to_offer: u64, share_price: u64) -> (r:
        Result<(), Error>)
        requires
            old(self).wf(),
        ensures
            final(self).wf(),
            r.is_err() ==> *final(self) == *old(self),
            (match r {
                Err(e) => {
                    ||| (e == Error::NotMainOwner && !old(self).is_main_owner(who, id))
                    ||| (e == Error::InvalidAccount && old(self).is_main_owner(who, id) && !old(
                        self,
                    ).has_record(id, who))
                    ||| (e == Error::InvalidOffers && old(self).is_main_owner(who, id) && old(
                        self,
                    ).has_record(id, who) && shares_to_offer > old(self).record_of(id, who).shares)
                },
                Ok(()) => {
                    &&& old(self).is_main_owner(who, id)
                    &&& old(self).has_record(id, who)
                    &&& shares_to_offer <= old(self).record_of(id, who).shares
                    &&& final(self).records_map() == old(self).records_map().insert(
                        (id, who),
                        (MetaData {
                            offers: shares_to_offer,
                            shares: old(self).record_of(id, who).shares,
                            price: share_price,
                        }),
                    )
                    &&& final(self).owners_map() == old(self).owners_map()
                    &&& final(self).events@ == old(self).events@.push(
                        Event::SharesOffered(id, share_price),
                    )
                },
            }),
            r.is_ok() ==> final(self).record_of(id, who).offers <= final(self).record_of(
                id,
                who,
            ).shares,
            forall|a: u64| #[trigger] final(self).sum_shares(a) == old(self).sum_shares(a),
            old(self).supply_invariant() ==> final(self).supply_invariant(),
    {
        if !self.is_owner_of(who, id) {
            return Err(Error::NotMainOwner);
        }
        match self.records.get(id, who) {
            None => Err(Error::InvalidAccount),
            Some(metadata) => {
                if shares_to_offer > metadata.shares {
                    return Err(Error::InvalidOffers);
                }
                let new_metadata = MetaData {
                    offers: shares_to_offer,
                    shares: metadata.shares,
                    price: share_price,
                };
                self.records.set(id, who, new_metadata);
                self.events.push(Event::SharesOffered(id, share_price));
                Ok(())
            },
        }
    }

    /// Transfers shares to an account for free.
    ///
    /// The caller must hold a record with at least the transferred amount.
    /// On success the caller's shares decrease by the amount while the
    /// caller's offers and price stay as they were — which can leave the
    /// caller's offers above its shares — the recipient's record is
    /// created with the amount (and no offers, price zero) or has the
    /// amount added to its shares, and a transfer event is recorded. For a
    /// transfer to oneself the decrease and the increase fall on the same
    /// record and cancel: the ledger is left unchanged.
    pub fn transfer_shares_to_account(&mut self, who: u64, id: u64, amount: u64, to: u64) -> (r:
        Result<(), Error>)
        requires
            old(self).wf(),
        ensures
            final(self).wf(),
            r.is_err() ==> *final(self) == *old(self),
            (match r {
                Err(e) => {
                    ||| (e == Error::InvalidAccount && !old(self).has_record(id, who))
                    ||| (e == Error::IncorrectSharesSelection && old(self).has_record(id, who)
                        && amount > old(self).record_of(id, who).shares)
                },
                Ok(()) => {
                    let m = old(self).record_of(id, who);
                    let to_meta = if old(self).has_record(id, to) {
                        let t = old(self).record_of(id, to);
                        MetaData {
                            offers: t.offers,
                            shares: sat_add_u64(t.shares, amount),
                            price: t.price,
                        }
                    } else {
                        MetaData { offers: 0, shares: amount, price: 0 }
                    };
                    &&& old(self).has_record(id, who)
                    &&& amount <= m.shares
                    &&& to == who ==> final(self).records_map() == old(self).records_map()
                    &&& to != who ==> final(self).records_map() == old(self).records_map().insert(
                        (id, who),
                        (MetaData {
                            offers: m.offers,
                            shares: (m.shares - amount) as u64,
                            price: m.price,
                        }),
                    ).insert((id, to), to_meta)
                    &&& final(self).owners_map() == old(self).owners_map()
                    &&& final(self).events@ == old(self).events@.push(
                        Event::SharesTransferred(who, to, amount),
                    )
                },
            }),
            forall|a: u64|
                a != id ==> #[trigger] final(self).sum_shares(a) == old(self).sum_shares(a),
            r.is_ok() && to == who ==> final(self).sum_shares(id) == old(self).sum_shares(id),
            r.is_ok() && old(self).balanced(id) ==> final(self).balanced(id),
            old(self).supply_invariant() ==> final(self).supply_invariant(),
    {
        match self.records.get(id, who) {
            None => Err(Error::InvalidAccount),
            Some(origin_metadata) => {
                if amount > origin_metadata.shares {
                    return Err(Error::IncorrectSharesSelection);
                }
                proof {
                    if old(self).balanced(id) {
                        self.records.lemma_record_le_sum(id, who);
                        if to != who && self.records@.dom().contains((id, to)) {
                            self.records.lemma_two_records_le_sum(id, who, to);
                        }
                    }
                }
                let new_origin_shares = origin_metadata.shares.saturating_sub(amount);
                let new_origin_metadata = MetaData {
                    offers: origin_metadata.offers,
                    shares: new_origin_shares,
                    price: origin_metadata.price,
                };
                self.records.set(id, who, new_origin_metadata);
                match self.records.get(id, to) {
                    None => {
                        let new_metadata = MetaData { offers: 0, shares: amount, price: 0 };
                        self.records.set(id, to, new_metadata);
                    },
                    Some(metadata) => {
                        let new_to_shares = metadata.shares.saturating_add(amount);
                        let new_metadata = MetaData {
                            offers: metadata.offers,
                            shares: new_to_shares,
                            price: metadata.price,
                        };
                        self.records.set(id, to, new_metadata);
                    },
                }
                self.events.push(Event::SharesTransferred(who, to, amount));
                proof {
                    if to == who {
                        assert(self.records_map() =~= old(self).records_map());
                    }
                    if old(self).supply_invariant() {
                        assert forall|id2: u64| #[trigger] self.owners_map().dom().contains(id2)
                            implies self.balanced(id2) by {
                            assert(old(self).owners_map().dom().contains(id2));
                            assert(old(self).balanced(id2));
                            if id2 != id {
                                assert(self.sum_shares(id2) == old(self).sum_shares(id2));
                            }
                        }
                    }
                }
                Ok(())
            },
        }
    }

    /// How a purchase is decided, checks in order: the caller may not be
    /// the seller; the seller must be the asset's main owner and hold a
    /// record with at least the requested shares; the amount sent must fit
    /// the share-price type and cover the seller's asking price for the
    /// requested shares; the request may not exceed the seller's offered
    /// portion; and the caller's spendable balance must cover the amount
    /// sent.
    pub open spec fn buy_outcome(
        self,
        gateway: Balances,
        who: u64,
        id: u64,
        shares_to_buy: u64,
        amount: u128,
        from: u64,
    ) -> Result<(), Error> {
        if who == from {
            Err(Error::IncorrectSeller)
        } else if !self.is_main_owner(from, id) {
            Err(Error::IncorrectSeller)
        } else if !self.has_record(id, from) {
            Err(Error::InvalidAccount)
        } else if shares_to_buy > self.record_of(id, from).shares {
            Err(Error::IncorrectAmount)
        } else if amount > u64::MAX {
            Err(Error::ConversionError)
        } else if (amount as u64) < sat_mul_u64(self.record_of(id, from).price, shares_to_buy) {
            Err(Error::IncorrectAmount)
        } else if shares_to_buy > self.record_of(id, from).offers {
            Err(Error::IncorrectSharesSelection)
        } else if gateway.spec_balance(who) < amount {
            Err(Error::InsufficientBalance)
        } else {
            Ok(())
        }
    }

    /// Buys offered shares of an asset from its main owner against a
    /// payment.
    ///
    /// All checks of [`Pallet::buy_outcome`] run first; exactly when they
    /// all pass, the full amount sent — not merely the asking price — moves
    /// from the caller's balance to the seller's, the seller's shares and
    /// offers each decrease by the purchased amount, the caller's record is
    /// created with the purchased shares or has them added while its offers
    /// and price stay as they were, and a transfer event is recorded. On
    /// any failure, including a payment failure, neither ledger changes.
    pub fn buy_shares(
        &mut self,
        balances: &mut Balances,
        who: u64,
        id: u64,
        shares_to_buy: u64,
        amount: u128,
        from: u64,
    ) -> (r: Result<(), Error>)
        requires
            old(self).wf(),
            old(balances).wf(),
        ensures
            final(self).wf(),
            final(balances).wf(),
            r == old(self).buy_outcome(*old(balances), who, id, shares_to_buy, amount, from),
            r.is_err() ==> *final(self) == *old(self) && *final(balances) == *old(balances),
            r.is_ok() ==> ({
                let m = old(self).record_of(id, from);
                let buyer = if old(self).has_record(id, who) {
                    let b = old(self).record_of(id, who);
                    MetaData {
                        offers: b.offers,
                        shares: sat_add_u64(b.shares, shares_to_buy),
                        price: b.price,
                    }
                } else {
                    MetaData { offers: 0, shares: shares_to_buy, price: 0 }
                };
                &&& final(self).records_map() == old(self).records_map().insert(
                    (id, who),
                    buyer,
                ).insert(
                    (id, from),
                    (MetaData {
                        offers: (m.offers - shares_to_buy) as u64,
                        shares: (m.shares - shares_to_buy) as u64,
                        price: m.price,
                    }),
                )
                &&& final(self).owners_map() == old(self).owners_map()
                &&& final(self).events@ == old(self).events@.push(
                    Event::SharesTransferred(from, who, shares_to_buy),
                )
                &&& final(balances)@ == old(balances)@.insert(
                    who,
                    ((old(balances).spec_balance(who) - amount) as u128),
                ).insert(from, ((old(balances).spec_balance(from) + amount) as u128))
                &&& final(balances).total() == old(balances).total()
            }),
            forall|a: u64|
                a != id ==> #[trigger] final(self).sum_shares(a) == old(self).sum_shares(a),
            r.is_ok() && old(self).balanced(id) ==> final(self).balanced(id),
            old(self).supply_invariant() ==> final(self).supply_invariant(),
    {
        if who == from {
            return Err(Error::IncorrectSeller);
        }
        if !self.is_owner_of(from, id) {
            return Err(Error::IncorrectSeller);
        }
        match self.records.get(id, from) {
            None => Err(Error::InvalidAccount),
            Some(from_metadata) => {
                if shares_to_buy > from_metadata.shares {
                    return Err(Error::IncorrectAmount);
                }
                let price = saturating_mul_u64(from_metadata.price, shares_to_buy);
                let parsed_amount_sent = match balance_to_u64_option(amount) {
                    None => {
                        return Err(Error::ConversionError);
                    },
                    Some(v) => v,
                };
                if parsed_amount_sent < price {
                    return Err(Error::IncorrectAmount);
                }
                if shares_to_buy > from_metadata.offers {
                    return Err(Error::IncorrectSharesSelection);
                }
                let new_from_metadata = MetaData {
                    offers: from_metadata.offers.saturating_sub(shares_to_buy),
                    shares: from_metadata.shares.saturating_sub(shares_to_buy),
                    price: from_metadata.price,
                };
                let new_origin_metadata = match self.records.get(id, who) {
                    None => MetaData { offers: 0, shares: shares_to_buy, price: 0 },
                    Some(old_origin_metadata) => MetaData {
                        offers: old_origin_metadata.offers,
                        shares: old_origin_metadata.shares.saturating_add(shares_to_buy),
                        price: old_origin_metadata.price,
                    },
                };
                if balances.free_balance(who) < amount {
                    return Err(Error::InsufficientBalance);
                }
                proof {
                    if old(self).balanced(id) {
                        self.records.lemma_record_le_sum(id, from);
                        if self.records@.dom().contains((id, who)) {
                            self.records.lemma_two_records_le_sum(id, from, who);
                        }
                    }
                }
                match balances.transfer(who, from, amount) {
                    Err(_) => {
                        // The payment cannot be refused here: the caller's
                        // balance was checked just above, and an
                        // insufficient balance is the gateway's only
                        // refusal. The abort is kept so that a payment
                        // failure leaves the share ledger untouched.
                        proof {
                            assert(false);
                        }
                        Err(Error::InsufficientBalance)
                    },
                    Ok(()) => {
                        self.records.set(id, who, new_origin_metadata);
                        self.records.set(id, from, new_from_metadata);
                        self.events.push(Event::SharesTransferred(from, who, shares_to_buy));
                        Ok(())
                    },
                }
            },
        }
    }

    /// Claims main ownership of an asset.
    ///
    /// The asset must exist, the caller must not already be its main owner,
    /// and the caller must hold strictly more than half of the total
    /// supply. Exactly then the claim succeeds: the main owner becomes the
    /// caller and an ownership event is recorded. No record changes.
    pub fn claim_onwership(&mut self, who: u64, id: u64) -> (r: Result<(), Error>)
        requires
            old(self).wf(),
        ensures
            final(self).wf(),
            r.is_err() ==> *final(self) == *old(self),
            (match r {
                Err(e) => {
                    ||| (e == Error::AssetDoesNotExist && !old(self).owners_map().dom().contains(
                        id,
                    ))
                    ||| (e == Error::AlreadyMainOwner && old(self).is_main_owner(who, id))
                    ||| (e == Error::NotEnoughShares && old(self).owners_map().dom().contains(id)
                        && !old(self).is_main_owner(who, id) && !(old(self).has_record(id, who)
                        && old(self).record_of(id, who).shares > 50))
                },
                Ok(()) => {
                    &&& final(self).owners_map() == old(self).owners_map().insert(id, who)
                    &&& final(self).records_map() == old(self).records_map()
                    &&& final(self).events@ == old(self).events@.push(Event::MainOwnerSet(who, id))
                },
            }),
            r.is_ok() <==> (old(self).owners_map().dom().contains(id) && !old(self).is_main_owner(
                who,
                id,
            ) && old(self).has_record(id, who) && old(self).record_of(id, who).shares > 50),
            forall|a: u64| #[trigger] final(self).sum_shares(a) == old(self).sum_shares(a),
            old(self).supply_invariant() ==> final(self).supply_invariant(),
    {
        let asset_owner = match self.get_main_owner_by_asset(id) {
            None => {
                return Err(Error::AssetDoesNotExist);
            },
            Some(owner) => owner,
        };
        if asset_owner == who {
            return Err(Error::AlreadyMainOwner);
        }
        match self.records.get(id, who) {
            None => Err(Error::NotEnoughShares),
            Some(origin_metadata) => {
                if origin_metadata.shares <= 50 {
                    return Err(Error::NotEnoughShares);
                }
                self.set_main_owner(who, id);
                self.events.push(Event::MainOwnerSet(who, id));
                Ok(())
            },
        }
    }
}

} // verus!
