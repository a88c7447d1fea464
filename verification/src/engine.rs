//! The swap engine: the user registry, the asset ledger and the open
//! offers in one structure, with user initialization and the three
//! operations — create, accept, cancel — each an atomic unit: it either
//! performs every step of its contract or reports an error and changes
//! nothing.
//!
//! Ledger accounts are addressed by (owner, asset-type), so a party's
//! paying and receiving accounts are the party's own by construction;
//! the one ownership check left is that only the maker may cancel. Every
//! operation assumes and preserves [`Exchange::wf`].

use vstd::prelude::*;

use crate::errors::ErrorCode;
use crate::ledger::AssetLedger;
use crate::ledger::lemma_bal_le_total;
use crate::ledger::lemma_two_bals_le_total;
use crate::offer::Offer;
use crate::offer::escrow_total_in;
use crate::offer::has_offer_in;
use crate::offer::is_offer_key;
use crate::offer::lemma_escrow_nonneg;
use crate::offer::lemma_escrow_push;
use crate::offer::lemma_escrow_remove;
use crate::offer::lemma_offer_escrow_le_total;
use crate::offer::lemma_offer_push;
use crate::offer::lemma_offer_remove;
use crate::offer::lemma_oidx_unique;
use crate::offer::offer_in;
use crate::offer::oidx_in;
use crate::offer::unique_offers;
use crate::profile::UserProfile;
use crate::profile::count_in;
use crate::profile::has_prof_in;
use crate::profile::is_prof;
use crate::profile::lemma_pidx_unique;
use crate::profile::lemma_prof_push;
use crate::profile::lemma_prof_update;
use crate::profile::unique_profiles;

verus! {

/// The whole exchange: profiles, balances and open offers.
pub struct Exchange {
    /// The asset ledger's balance book.
    pub ledger: AssetLedger,
    /// One record per registered user.
    pub profiles: Vec<UserProfile>,
    /// The open offers, each carrying its escrow vault.
    pub offers: Vec<Offer>,
}

impl Exchange {
    /// Whether `user` has been initialized.
    pub open spec fn has_profile(self, user: u64) -> bool {
        has_prof_in(self.profiles@, user)
    }

    /// The user's offer counter (zero when not initialized).
    pub open spec fn offer_count_of(self, user: u64) -> u64 {
        count_in(self.profiles@, user)
    }

    /// How many units of `mint` the owner holds in the ledger.
    pub open spec fn balance_of(self, owner: u64, mint: u64) -> u64 {
        self.ledger.balance_of(owner, mint)
    }

    /// Whether the offer (maker, offer_id) is open.
    pub open spec fn has_offer(self, maker: u64, offer_id: u64) -> bool {
        has_offer_in(self.offers@, maker, offer_id)
    }

    /// The open offer (maker, offer_id); meaningful only under `has_offer`.
    pub open spec fn offer_at(self, maker: u64, offer_id: u64) -> Offer {
        offer_in(self.offers@, maker, offer_id)
    }

    /// What the offer's vault holds; meaningful only under `has_offer`.
    pub open spec fn vault_balance_of(self, maker: u64, offer_id: u64) -> u64 {
        self.offer_at(maker, offer_id).escrow
    }

    /// Everything in existence of the asset `mint`: spendable balances
    /// plus units locked in vaults. Conserved by every swap operation.
    pub open spec fn supply_of(self, mint: u64) -> int {
        self.ledger.total_of(mint) + escrow_total_in(self.offers@, mint)
    }

    /// What holds of every open offer: positive fixed amounts, a vault
    /// holding exactly the offered amount, a registered maker, and an id
    /// below the maker's counter (so the next id is always fresh).
    pub open spec fn offer_ok(self, o: Offer) -> bool {
        &&& o.amount_offered > 0
        &&& o.amount_wanted > 0
        &&& o.escrow == o.amount_offered
        &&& self.has_profile(o.maker)
        &&& o.offer_id < self.offer_count_of(o.maker)
    }

    /// Well-formedness: unique keys everywhere, every open offer in shape,
    /// and every asset's supply within the 64-bit range.
    pub open spec fn wf(self) -> bool {
        &&& self.ledger.wf()
        &&& unique_profiles(self.profiles@)
        &&& unique_offers(self.offers@)
        &&& forall|i: int| 0 <= i < self.offers@.len() ==> self.offer_ok(#[trigger] self.offers@[i])
        &&& forall|m: u64| #[trigger] self.supply_of(m) <= u64::MAX
    }
}

/// Relation of a successful `create_offer`: the maker's counter advanced
/// by one, the new offer is open with the vault funded from the maker's
/// balance, and nothing else moved.
pub open spec fn created(
    pre: Exchange,
    post: Exchange,
    maker: u64,
    mint_offered: u64,
    mint_wanted: u64,
    amount_offered: u64,
    amount_wanted: u64,
    created_at: i64,
    vault_bump: u8,
    bump: u8,
) -> bool {
    let id = pre.offer_count_of(maker);
    &&& post.offer_count_of(maker) == id + 1
    &&& post.has_offer(maker, id)
    &&& post.offer_at(maker, id) == (Offer {
        offer_id: id,
        maker,
        mint_offered,
        mint_wanted,
        amount_offered,
        amount_wanted,
        vault_bump,
        bump,
        created_at,
        escrow: amount_offered,
    })
    &&& post.balance_of(maker, mint_offered) as int == pre.balance_of(maker, mint_offered)
        - amount_offered
    &&& forall|o: u64, m: u64|
        !(o == maker && m == mint_offered) ==> #[trigger] post.balance_of(o, m)
            == pre.balance_of(o, m)
    &&& forall|u: u64| u != maker ==> #[trigger] post.offer_count_of(u) == pre.offer_count_of(u)
    &&& forall|u: u64| #[trigger] post.has_profile(u) == pre.has_profile(u)
    &&& forall|mk: u64, oid: u64|
        !(mk == maker && oid == id) ==> #[trigger] post.has_offer(mk, oid) == pre.has_offer(
            mk,
            oid,
        ) && (pre.has_offer(mk, oid) ==> post.offer_at(mk, oid) == pre.offer_at(mk, oid))
    &&& forall|m: u64| #[trigger] post.supply_of(m) == pre.supply_of(m)
}

/// Relation of a successful `accept_offer`: the offer is gone, the taker
/// paid the wanted amount to the maker, the vault's holding went to the
/// taker, and nothing else moved.
pub open spec fn accepted(pre: Exchange, post: Exchange, taker: u64, maker: u64, offer_id: u64) -> bool {
    let o = pre.offer_at(maker, offer_id);
    &&& !post.has_offer(maker, offer_id)
    &&& forall|ow: u64, m: u64|
        #[trigger] post.balance_of(ow, m) as int == pre.balance_of(ow, m) - (if ow == taker && m
            == o.mint_wanted {
            o.amount_wanted as int
        } else {
            0
        }) + (if ow == maker && m == o.mint_wanted {
            o.amount_wanted as int
        } else {
            0
        }) + (if ow == taker && m == o.mint_offered {
            o.amount_offered as int
        } else {
            0
        })
    &&& forall|u: u64| #[trigger] post.offer_count_of(u) == pre.offer_count_of(u)
    &&& forall|u: u64| #[trigger] post.has_profile(u) == pre.has_profile(u)
    &&& forall|mk: u64, oid: u64|
        !(mk == maker && oid == offer_id) ==> #[trigger] post.has_offer(mk, oid) == pre.has_offer(
            mk,
            oid,
        ) && (pre.has_offer(mk, oid) ==> post.offer_at(mk, oid) == pre.offer_at(mk, oid))
    &&& forall|m: u64| #[trigger] post.supply_of(m) == pre.supply_of(m)
}

/// Relation of a successful `cancel_offer`: the offer is gone and the
/// vault's holding went back to the maker; nothing else moved.
pub open spec fn cancelled(pre: Exchange, post: Exchange, maker: u64, offer_id: u64) -> bool {
    let o = pre.offer_at(maker, offer_id);
    &&& !post.has_offer(maker, offer_id)
    &&& forall|ow: u64, m: u64|
        #[trigger] post.balance_of(ow, m) as int == pre.balance_of(ow, m) + (if ow == maker && m
            == o.mint_offered {
            o.amount_offered as int
        } else {
            0
        })
    &&& forall|u: u64| #[trigger] post.offer_count_of(u) == pre.offer_count_of(u)
    &&& forall|u: u64| #[trigger] post.has_profile(u) == pre.has_profile(u)
    &&& forall|mk: u64, oid: u64|
        !(mk == maker && oid == offer_id) ==> #[trigger] post.has_offer(mk, oid) == pre.has_offer(
            mk,
            oid,
        ) && (pre.has_offer(mk, oid) ==> post.offer_at(mk, oid) == pre.offer_at(mk, oid))
    &&& forall|m: u64| #[trigger] post.supply_of(m) == pre.supply_of(m)
}

impl Exchange {
    /// An empty exchange: nobody registered, nothing held, no offers.
    pub fn new() -> (r: Exchange)
        ensures
            r.wf(),
            forall|o: u64, m: u64| #[trigger] r.balance_of(o, m) == 0,
            forall|m: u64| #[trigger] r.supply_of(m) == 0,
            forall|u: u64| !(#[trigger] r.has_profile(u)),
            forall|mk: u64, oid: u64| !(#[trigger] r.has_offer(mk, oid)),
    {
        Exchange { ledger: AssetLedger::new(), profiles: Vec::new(), offers: Vec::new() }
    }

    /// Index of the profile of `user`, if one exists.
    fn find_profile(&self, user: u64) -> (r: Option<usize>)
        ensures
            match r {
                Some(i) => i < self.profiles@.len() && is_prof(self.profiles@[i as int], user),
                None => !has_prof_in(self.profiles@, user),
            },
    {
        let n = self.profiles.len();
        let mut i: usize = 0;
        while i < n
            invariant
                n == self.profiles@.len(),
                i <= n,
                forall|j: int| 0 <= j < i ==> !is_prof(#[trigger] self.profiles@[j], user),
            decreases n - i,
        {
            if self.profiles[i].authority == user {
                return Some(i);
            }
            i += 1;
        }
        None
    }

    /// Index of the offer (maker, offer_id), if it is open.
    fn find_offer(&self, maker: u64, offer_id: u64) -> (r: Option<usize>)
        ensures
            match r {
                Some(i) => i < self.offers@.len() && is_offer_key(
                    self.offers@[i as int],
                    maker,
                    offer_id,
                ),
                None => !has_offer_in(self.offers@, maker, offer_id),
            },
    {
        let n = self.offers.len();
        let mut i: usize = 0;
        while i < n
            invariant
                n == self.offers@.len(),
                i <= n,
                forall|j: int|
                    0 <= j < i ==> !is_offer_key(#[trigger] self.offers@[j], maker, offer_id),
            decreases n - i,
        {
            let o = &self.offers[i];
            if o.maker == maker && o.offer_id == offer_id {
                return Some(i);
            }
            i += 1;
        }
        None
    }

    /// Read a balance.
    pub fn balance(&self, owner: u64, mint: u64) -> (r: u64)
        requires
            self.wf(),
        ensures
            r == self.balance_of(owner, mint),
    {
        self.ledger.balance(owner, mint)
    }

    /// Read a user's offer counter, if the user is initialized.
    pub fn profile_count(&self, user: u64) -> (r: Option<u64>)
        requires
            self.wf(),
        ensures
            match r {
                Some(c) => self.has_profile(user) && c == self.offer_count_of(user),
                None => !self.has_profile(user),
            },
    {
        match self.find_profile(user) {
            Some(i) => {
                proof {
                    lemma_pidx_unique(self.profiles@, i as int, user);
                }
                Some(self.profiles[i].offer_count)
            },
            None => None,
        }
    }

    /// Read an open offer, if it exists.
    pub fn get_offer(&self, maker: u64, offer_id: u64) -> (r: Option<Offer>)
        requires
            self.wf(),
        ensures
            match r {
                Some(o) => self.has_offer(maker, offer_id) && o == self.offer_at(maker, offer_id),
                None => !self.has_offer(maker, offer_id),
            },
    {
        match self.find_offer(maker, offer_id) {
            Some(i) => {
                proof {
                    lemma_oidx_unique(self.offers@, i as int, maker, offer_id);
                }
                Some(self.offers[i])
            },
            None => None,
        }
    }

    /// Issue `amount` fresh units of `mint` to `owner`: the funding entry
    /// of the model, standing for the ledger's own issuance primitive.
    pub fn deposit(&mut self, owner: u64, mint: u64, amount: u64)
        requires
            old(self).wf(),
            old(self).supply_of(mint) + amount <= u64::MAX,
        ensures
            final(self).wf(),
            final(self).balance_of(owner, mint) == old(self).balance_of(owner, mint) + amount,
            forall|o: u64, m: u64|
                !(o == owner && m == mint) ==> #[trigger] final(self).balance_of(o, m) == old(
                    self,
                ).balance_of(o, m),
            forall|m: u64|
                #[trigger] final(self).supply_of(m) == old(self).supply_of(m) + if m == mint {
                    amount as int
                } else {
                    0
                },
            forall|u: u64|
                #[trigger] final(self).has_profile(u) == old(self).has_profile(u)
                    && final(self).offer_count_of(u) == old(self).offer_count_of(u),
            forall|mk: u64, oid: u64|
                #[trigger] final(self).has_offer(mk, oid) == old(self).has_offer(mk, oid) && (old(
                    self,
                ).has_offer(mk, oid) ==> final(self).offer_at(mk, oid) == old(self).offer_at(
                    mk,
                    oid,
                )),
    {
        proof {
            lemma_bal_le_total(self.ledger.accounts@, owner, mint);
            lemma_escrow_nonneg(self.offers@, mint);
            assert(old(self).supply_of(mint) + amount <= u64::MAX);
        }
        self.ledger.credit(owner, mint, amount);
        proof {
            assert forall|m: u64| #[trigger] self.supply_of(m) <= u64::MAX by {
                assert(old(self).supply_of(m) <= u64::MAX);
            }
        }
    }

    /// Create a record for `authority` with the counter at zero; rejected
    /// when one already exists.
    pub fn initialize_user(&mut self, authority: u64) -> (r: Result<(), ErrorCode>)
        requires
            old(self).wf(),
        ensures
            final(self).wf(),
            old(self).has_profile(authority) ==> r == Err::<(), ErrorCode>(
                ErrorCode::AlreadyInitialized,
            ) && *final(self) == *old(self),
            !old(self).has_profile(authority) ==> {
                &&& r == Ok::<(), ErrorCode>(())
                &&& final(self).has_profile(authority)
                &&& final(self).offer_count_of(authority) == 0
                &&& forall|u: u64|
                    u != authority ==> #[trigger] final(self).has_profile(u) == old(
                        self,
                    ).has_profile(u) && final(self).offer_count_of(u) == old(self).offer_count_of(u)
                &&& forall|o: u64, m: u64|
                    #[trigger] final(self).balance_of(o, m) == old(self).balance_of(o, m)
                &&& forall|m: u64| #[trigger] final(self).supply_of(m) == old(self).supply_of(m)
                &&& forall|mk: u64, oid: u64|
                    #[trigger] final(self).has_offer(mk, oid) == old(self).has_offer(mk, oid) && (
                    old(self).has_offer(mk, oid) ==> final(self).offer_at(mk, oid) == old(
                        self,
                    ).offer_at(mk, oid))
            },
    {
        match self.find_profile(authority) {
            Some(_) => Err(ErrorCode::AlreadyInitialized),
            None => {
                let p = UserProfile { authority, offer_count: 0 };
                self.profiles.push(p);
                proof {
                    assert forall|u: u64|
                        u != authority implies #[trigger] self.has_profile(u) == old(
                        self,
                    ).has_profile(u) && self.offer_count_of(u) == old(self).offer_count_of(u) by {
                        lemma_prof_push(old(self).profiles@, p, u);
                    }
                    lemma_prof_push(old(self).profiles@, p, authority);
                    assert forall|i: int|
                        0 <= i < self.offers@.len() implies self.offer_ok(
                        #[trigger] self.offers@[i],
                    ) by {
                        let o = self.offers@[i];
                        assert(old(self).offer_ok(o));
                        lemma_prof_push(old(self).profiles@, p, o.maker);
                    }
                    assert forall|m: u64| #[trigger] self.supply_of(m) <= u64::MAX by {
                        assert(old(self).supply_of(m) <= u64::MAX);
                    }
                }
                Ok(())
            },
        }
    }

    /// Lock `amount_offered` units of `mint_offered` from the maker into a
    /// fresh offer's vault, asking `amount_wanted` units of `mint_wanted`.
    /// Returns the new offer's id: the maker's counter before the call.
    pub fn create_offer(
        &mut self,
        maker: u64,
        mint_offered: u64,
        mint_wanted: u64,
        amount_offered: u64,
        amount_wanted: u64,
        created_at: i64,
        vault_bump: u8,
        bump: u8,
    ) -> (r: Result<u64, ErrorCode>)
        requires
            old(self).wf(),
        ensures
            final(self).wf(),
            (amount_offered == 0 || amount_wanted == 0) ==> r == Err::<u64, ErrorCode>(
                ErrorCode::InvalidAmount,
            ) && *final(self) == *old(self),
            amount_offered > 0 && amount_wanted > 0 && !old(self).has_profile(maker) ==> r == Err::<
                u64,
                ErrorCode,
            >(ErrorCode::UninitializedUserProfile) && *final(self) == *old(self),
            amount_offered > 0 && amount_wanted > 0 && old(self).has_profile(maker) && old(
                self,
            ).offer_count_of(maker) == u64::MAX ==> r == Err::<u64, ErrorCode>(
                ErrorCode::CounterOverflow,
            ) && *final(self) == *old(self),
            amount_offered > 0 && amount_wanted > 0 && old(self).has_profile(maker) && old(
                self,
            ).offer_count_of(maker) < u64::MAX && old(self).balance_of(maker, mint_offered)
                < amount_offered ==> r == Err::<u64, ErrorCode>(ErrorCode::InsufficientBalance)
                && *final(self) == *old(self),
            amount_offered > 0 && amount_wanted > 0 && old(self).has_profile(maker) && old(
                self,
            ).offer_count_of(maker) < u64::MAX && old(self).balance_of(maker, mint_offered)
                >= amount_offered ==> r == Ok::<u64, ErrorCode>(old(self).offer_count_of(maker))
                && created(
                *old(self),
                *final(self),
                maker,
                mint_offered,
                mint_wanted,
                amount_offered,
                amount_wanted,
                created_at,
                vault_bump,
                bump,
            ),
    {
        if amount_offered == 0 || amount_wanted == 0 {
            return Err(ErrorCode::InvalidAmount);
        }
        let pi = match self.find_profile(maker) {
            None => {
                return Err(ErrorCode::UninitializedUserProfile);
            },
            Some(i) => i,
        };
        proof {
            lemma_pidx_unique(self.profiles@, pi as int, maker);
        }
        let count = self.profiles[pi].offer_count;
        if count == u64::MAX {
            return Err(ErrorCode::CounterOverflow);
        }
        match self.ledger.debit(maker, mint_offered, amount_offered) {
            Err(e) => {
                return Err(e);
            },
            Ok(()) => {},
        }
        let newp = UserProfile { authority: maker, offer_count: count + 1 };
        self.profiles[pi] = newp;
        let o = Offer {
            offer_id: count,
            maker,
            mint_offered,
            mint_wanted,
            amount_offered,
            amount_wanted,
            vault_bump,
            bump,
            created_at,
            escrow: amount_offered,
        };
        proof {
            if has_offer_in(old(self).offers@, maker, count) {
                let w = oidx_in(old(self).offers@, maker, count);
                assert(0 <= w < old(self).offers@.len() && is_offer_key(
                    old(self).offers@[w],
                    maker,
                    count,
                ));
                assert(old(self).offer_ok(old(self).offers@[w]));
                assert(false);
            }
        }
        self.offers.push(o);
        proof {
            assert forall|u: u64|
                u != maker implies #[trigger] self.offer_count_of(u) == old(
                self,
            ).offer_count_of(u) && self.has_profile(u) == old(self).has_profile(u) by {
                lemma_prof_update(old(self).profiles@, pi as int, newp, u);
            }
            lemma_prof_update(old(self).profiles@, pi as int, newp, maker);
            assert forall|u: u64| #[trigger] self.has_profile(u) == old(self).has_profile(u) by {
                lemma_prof_update(old(self).profiles@, pi as int, newp, u);
            }
            assert forall|mk: u64, oid: u64|
                !(mk == maker && oid == count) implies #[trigger] self.has_offer(mk, oid) == old(
                self,
            ).has_offer(mk, oid) && (old(self).has_offer(mk, oid) ==> self.offer_at(mk, oid) == old(
                self,
            ).offer_at(mk, oid)) by {
                lemma_offer_push(old(self).offers@, o, mk, oid);
            }
            lemma_offer_push(old(self).offers@, o, maker, count);
            assert forall|m: u64|
                #[trigger] self.supply_of(m) == old(self).supply_of(m) && self.supply_of(m)
                    <= u64::MAX by {
                lemma_escrow_push(old(self).offers@, o, m);
                assert(old(self).supply_of(m) <= u64::MAX);
            }
            assert forall|i2: int|
                0 <= i2 < self.offers@.len() implies self.offer_ok(#[trigger] self.offers@[i2]) by {
                if i2 < old(self).offers@.len() {
                    assert(self.offers@[i2] == old(self).offers@[i2]);
                    let ob = old(self).offers@[i2];
                    assert(old(self).offer_ok(ob));
                    lemma_prof_update(old(self).profiles@, pi as int, newp, ob.maker);
                } else {
                    assert(self.offers@[i2] == o);
                    lemma_prof_update(old(self).profiles@, pi as int, newp, maker);
                }
            }
        }
        Ok(count)
    }

    /// Settle the open offer (maker, offer_id) as `taker`: pay the wanted
    /// amount to the maker, take the vault's holding, and retire the
    /// offer — all together or not at all. The supplied asset types must
    /// match what the offer records.
    pub fn accept_offer(
        &mut self,
        taker: u64,
        maker: u64,
        offer_id: u64,
        mint_offered: u64,
        mint_wanted: u64,
    ) -> (r: Result<(), ErrorCode>)
        requires
            old(self).wf(),
        ensures
            final(self).wf(),
            !old(self).has_offer(maker, offer_id) ==> r == Err::<(), ErrorCode>(
                ErrorCode::OfferNotFound,
            ) && *final(self) == *old(self),
            old(self).has_offer(maker, offer_id) && (mint_offered != old(self).offer_at(
                maker,
                offer_id,
            ).mint_offered || mint_wanted != old(self).offer_at(maker, offer_id).mint_wanted)
                ==> r == Err::<(), ErrorCode>(ErrorCode::InvalidMint) && *final(self) == *old(self),
            old(self).has_offer(maker, offer_id) && mint_offered == old(self).offer_at(
                maker,
                offer_id,
            ).mint_offered && mint_wanted == old(self).offer_at(maker, offer_id).mint_wanted && old(
                self,
            ).balance_of(taker, old(self).offer_at(maker, offer_id).mint_wanted) < old(
                self,
            ).offer_at(maker, offer_id).amount_wanted ==> r == Err::<(), ErrorCode>(
                ErrorCode::InsufficientBalance,
            ) && *final(self) == *old(self),
            old(self).has_offer(maker, offer_id) && mint_offered == old(self).offer_at(
                maker,
                offer_id,
            ).mint_offered && mint_wanted == old(self).offer_at(maker, offer_id).mint_wanted && old(
                self,
            ).balance_of(taker, old(self).offer_at(maker, offer_id).mint_wanted) >= old(
                self,
            ).offer_at(maker, offer_id).amount_wanted ==> r == Ok::<(), ErrorCode>(()) && accepted(
                *old(self),
                *final(self),
                taker,
                maker,
                offer_id,
            ),
    {
        let oi = match self.find_offer(maker, offer_id) {
            None => {
                return Err(ErrorCode::OfferNotFound);
            },
            Some(i) => i,
        };
        proof {
            lemma_oidx_unique(self.offers@, oi as int, maker, offer_id);
        }
        let o = self.offers[oi];
        if o.mint_offered != mint_offered {
            return Err(ErrorCode::InvalidMint);
        }
        if o.mint_wanted != mint_wanted {
            return Err(ErrorCode::InvalidMint);
        }
        proof {
            assert(old(self).offer_ok(o));
            if taker != maker && self.ledger.balance_of(taker, o.mint_wanted) >= o.amount_wanted {
                lemma_two_bals_le_total(self.ledger.accounts@, maker, taker, o.mint_wanted);
                lemma_escrow_nonneg(self.offers@, o.mint_wanted);
                assert(old(self).supply_of(o.mint_wanted) <= u64::MAX);
            }
        }
        match self.ledger.transfer(taker, maker, taker, o.mint_wanted, o.amount_wanted) {
            Err(e) => {
                return Err(e);
            },
            Ok(()) => {},
        }
        proof {
            lemma_bal_le_total(self.ledger.accounts@, taker, o.mint_offered);
            lemma_offer_escrow_le_total(self.offers@, oi as int, o.mint_offered);
            assert(old(self).supply_of(o.mint_offered) <= u64::MAX);
        }
        self.ledger.credit(taker, o.mint_offered, o.escrow);
        self.offers.remove(oi);
        proof {
            assert forall|mk: u64, oid: u64|
                !(mk == maker && oid == offer_id) implies #[trigger] self.has_offer(mk, oid) == old(
                self,
            ).has_offer(mk, oid) && (old(self).has_offer(mk, oid) ==> self.offer_at(mk, oid) == old(
                self,
            ).offer_at(mk, oid)) by {
                lemma_offer_remove(old(self).offers@, oi as int, mk, oid);
            }
            lemma_offer_remove(old(self).offers@, oi as int, maker, offer_id);
            assert forall|m: u64|
                #[trigger] self.supply_of(m) == old(self).supply_of(m) && self.supply_of(m)
                    <= u64::MAX by {
                lemma_escrow_remove(old(self).offers@, oi as int, m);
                assert(old(self).supply_of(m) <= u64::MAX);
            }
            assert forall|i2: int|
                0 <= i2 < self.offers@.len() implies self.offer_ok(#[trigger] self.offers@[i2]) by {
                let j2: int = if i2 < oi as int {
                    i2
                } else {
                    i2 + 1
                };
                assert(self.offers@[i2] == old(self).offers@[j2]);
                assert(old(self).offer_ok(old(self).offers@[j2]));
            }
        }
        Ok(())
    }

    /// Withdraw the open offer (maker, offer_id): only the maker may; the
    /// vault's holding returns to the maker and the offer is retired.
    pub fn cancel_offer(&mut self, caller: u64, maker: u64, offer_id: u64) -> (r: Result<
        (),
        ErrorCode,
    >)
        requires
            old(self).wf(),
        ensures
            final(self).wf(),
            !old(self).has_offer(maker, offer_id) ==> r == Err::<(), ErrorCode>(
                ErrorCode::OfferNotFound,
            ) && *final(self) == *old(self),
            old(self).has_offer(maker, offer_id) && caller != maker ==> r == Err::<(), ErrorCode>(
                ErrorCode::Unauthorized,
            ) && *final(self) == *old(self),
            old(self).has_offer(maker, offer_id) && caller == maker ==> r == Ok::<(), ErrorCode>(())
                && cancelled(*old(self), *final(self), maker, offer_id),
    {
        let oi = match self.find_offer(maker, offer_id) {
            None => {
                return Err(ErrorCode::OfferNotFound);
            },
            Some(i) => i,
        };
        proof {
            lemma_oidx_unique(self.offers@, oi as int, maker, offer_id);
        }
        let o = self.offers[oi];
        if caller != maker {
            return Err(ErrorCode::Unauthorized);
        }
        proof {
            assert(old(self).offer_ok(o));
            lemma_bal_le_total(self.ledger.accounts@, maker, o.mint_offered);
            lemma_offer_escrow_le_total(self.offers@, oi as int, o.mint_offered);
            assert(old(self).supply_of(o.mint_offered) <= u64::MAX);
        }
        self.ledger.credit(maker, o.mint_offered, o.escrow);
        self.offers.remove(oi);
        proof {
            assert forall|mk: u64, oid: u64|
                !(mk == maker && oid == offer_id) implies #[trigger] self.has_offer(mk, oid) == old(
                self,
            ).has_offer(mk, oid) && (old(self).has_offer(mk, oid) ==> self.offer_at(mk, oid) == old(
                self,
            ).offer_at(mk, oid)) by {
                lemma_offer_remove(old(self).offers@, oi as int, mk, oid);
            }
            lemma_offer_remove(old(self).offers@, oi as int, maker, offer_id);
            assert forall|m: u64|
                #[trigger] self.supply_of(m) == old(self).supply_of(m) && self.supply_of(m)
                    <= u64::MAX by {
                lemma_escrow_remove(old(self).offers@, oi as int, m);
                assert(old(self).supply_of(m) <= u64::MAX);
            }
            assert forall|i2: int|
                0 <= i2 < self.offers@.len() implies self.offer_ok(#[trigger] self.offers@[i2]) by {
                let j2: int = if i2 < oi as int {
                    i2
                } else {
                    i2 + 1
                };
                assert(self.offers@[i2] == old(self).offers@[j2]);
                assert(old(self).offer_ok(old(self).offers@[j2]));
            }
        }
        Ok(())
    }
}

} // verus!
