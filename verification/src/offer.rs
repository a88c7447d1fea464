//! Offer records and their escrow vaults. An offer is keyed by
//! (maker, offer_id); its vault holds the maker's locked units for the
//! offer's whole lifetime and vanishes with it.

use vstd::prelude::*;

verus! {

/// A standing offer. The maker locked `amount_offered` units of
/// `mint_offered` — held in `escrow`, the vault's balance — and asks
/// `amount_wanted` units of `mint_wanted` in return.
#[derive(Clone, Copy, Debug, PartialEq, Eq, Structural)]
pub struct Offer {
    /// Value of the maker's counter when the offer was created; together
    /// with `maker` it identifies the offer.
    pub offer_id: u64,
    /// The offer's creator, who supplied the locked units.
    pub maker: u64,
    /// Asset type being offered.
    pub mint_offered: u64,
    /// Asset type asked in return.
    pub mint_wanted: u64,
    /// How many units of `mint_offered` are offered; fixed at creation.
    pub amount_offered: u64,
    /// How many units of `mint_wanted` are asked; fixed at creation.
    pub amount_wanted: u64,
    /// Authority proof for the vault's derived address.
    pub vault_bump: u8,
    /// Authority proof for the offer record's own derived address.
    pub bump: u8,
    /// When the offer was created.
    pub created_at: i64,
    /// The vault: units of `mint_offered` locked for this offer.
    pub escrow: u64,
}

/// Whether `o` is the offer of `maker` numbered `offer_id`.
pub open spec fn is_offer_key(o: Offer, maker: u64, offer_id: u64) -> bool {
    o.maker == maker && o.offer_id == offer_id
}

/// Whether the offer (maker, offer_id) exists.
pub open spec fn has_offer_in(s: Seq<Offer>, maker: u64, offer_id: u64) -> bool {
    exists|i: int| 0 <= i < s.len() && is_offer_key(#[trigger] s[i], maker, offer_id)
}

/// Index of the offer (maker, offer_id); meaningful only under
/// `has_offer_in`.
pub open spec fn oidx_in(s: Seq<Offer>, maker: u64, offer_id: u64) -> int {
    choose|i: int| 0 <= i < s.len() && is_offer_key(#[trigger] s[i], maker, offer_id)
}

/// The offer (maker, offer_id); meaningful only under `has_offer_in`.
pub open spec fn offer_in(s: Seq<Offer>, maker: u64, offer_id: u64) -> Offer {
    s[oidx_in(s, maker, offer_id)]
}

/// How much the offer's vault holds of the asset `mint`.
pub open spec fn vault_amount(o: Offer, mint: u64) -> int {
    if o.mint_offered == mint {
        o.escrow as int
    } else {
        0
    }
}

/// Sum of all vault holdings of the asset `mint` over the offers.
pub open spec fn escrow_total_in(s: Seq<Offer>, mint: u64) -> int
    decreases s.len(),
{
    if s.len() == 0 {
        0
    } else {
        vault_amount(s[0], mint) + escrow_total_in(s.drop_first(), mint)
    }
}

/// No two offers share the same (maker, offer_id) key.
pub open spec fn unique_offers(s: Seq<Offer>) -> bool {
    forall|i: int, j: int|
        #![trigger s[i], s[j]]
        0 <= i < j < s.len() ==> !(s[i].maker == s[j].maker && s[i].offer_id == s[j].offer_id)
}

/// With unique keys, a matching index is the index `oidx_in` picks, and
/// the record read there is `offer_in`.
pub proof fn lemma_oidx_unique(s: Seq<Offer>, i: int, maker: u64, offer_id: u64)
    requires
        unique_offers(s),
        0 <= i < s.len(),
        is_offer_key(s[i], maker, offer_id),
    ensures
        has_offer_in(s, maker, offer_id),
        oidx_in(s, maker, offer_id) == i,
        offer_in(s, maker, offer_id) == s[i],
{
    assert(has_offer_in(s, maker, offer_id));
    let k = oidx_in(s, maker, offer_id);
    assert(0 <= k < s.len() && is_offer_key(s[k], maker, offer_id));
    if k != i {
        assert(false);
    }
}

/// The locked total of every asset is never negative.
pub proof fn lemma_escrow_nonneg(s: Seq<Offer>, mint: u64)
    ensures
        0 <= escrow_total_in(s, mint),
    decreases s.len(),
{
    if s.len() > 0 {
        lemma_escrow_nonneg(s.drop_first(), mint);
    }
}

/// Appending an offer adds its vault holding to the locked total.
pub proof fn lemma_escrow_push(s: Seq<Offer>, o: Offer, mint: u64)
    ensures
        escrow_total_in(s.push(o), mint) == escrow_total_in(s, mint) + vault_amount(o, mint),
    decreases s.len(),
{
    let t = s.push(o);
    if s.len() == 0 {
        assert(t.drop_first() =~= s);
    } else {
        assert(t.drop_first() =~= s.drop_first().push(o));
        lemma_escrow_push(s.drop_first(), o, mint);
    }
}

/// Removing the offer at `i` takes its vault holding out of the locked
/// total.
pub proof fn lemma_escrow_remove(s: Seq<Offer>, i: int, mint: u64)
    requires
        0 <= i < s.len(),
    ensures
        escrow_total_in(s.remove(i), mint) == escrow_total_in(s, mint) - vault_amount(s[i], mint),
    decreases s.len(),
{
    let t = s.remove(i);
    if i == 0 {
        assert(t =~= s.drop_first());
    } else {
        assert(t.drop_first() =~= s.drop_first().remove(i - 1));
        lemma_escrow_remove(s.drop_first(), i - 1, mint);
    }
}

/// A single vault holding of the asset never exceeds the locked total.
pub proof fn lemma_offer_escrow_le_total(s: Seq<Offer>, i: int, mint: u64)
    requires
        0 <= i < s.len(),
        s[i].mint_offered == mint,
    ensures
        s[i].escrow <= escrow_total_in(s, mint),
    decreases s.len(),
{
    if i == 0 {
        lemma_escrow_nonneg(s.drop_first(), mint);
    } else {
        lemma_offer_escrow_le_total(s.drop_first(), i - 1, mint);
    }
}

/// Appending an offer with a fresh key: every other offer is untouched.
pub proof fn lemma_offer_push(s: Seq<Offer>, o: Offer, mk: u64, id: u64)
    requires
        unique_offers(s),
        !has_offer_in(s, o.maker, o.offer_id),
    ensures
        unique_offers(s.push(o)),
        has_offer_in(s.push(o), mk, id) == (is_offer_key(o, mk, id) || has_offer_in(s, mk, id)),
        is_offer_key(o, mk, id) ==> offer_in(s.push(o), mk, id) == o,
        !is_offer_key(o, mk, id) && has_offer_in(s, mk, id) ==> offer_in(s.push(o), mk, id)
            == offer_in(s, mk, id),
{
    let t = s.push(o);
    assert forall|j: int, k: int|
        #![trigger t[j], t[k]]
        0 <= j < k < t.len() implies !(t[j].maker == t[k].maker && t[j].offer_id
        == t[k].offer_id) by {
        if k < s.len() {
            assert(t[j] == s[j] && t[k] == s[k]);
        } else {
            assert(t[k] == o);
            assert(t[j] == s[j]);
            assert(!is_offer_key(s[j], o.maker, o.offer_id));
        }
    }
    if is_offer_key(o, mk, id) {
        lemma_oidx_unique(t, s.len() as int, mk, id);
    } else {
        if has_offer_in(s, mk, id) {
            let w = oidx_in(s, mk, id);
            assert(is_offer_key(s[w], mk, id));
            assert(t[w] == s[w]);
            lemma_oidx_unique(t, w, mk, id);
            lemma_oidx_unique(s, w, mk, id);
        } else {
            if has_offer_in(t, mk, id) {
                let w = oidx_in(t, mk, id);
                assert(0 <= w < t.len() && is_offer_key(t[w], mk, id));
                assert(w != s.len());
                assert(is_offer_key(s[w], mk, id));
                assert(false);
            }
        }
    }
}

/// Removing the offer at `i`: its key is gone, every other offer is
/// untouched.
pub proof fn lemma_offer_remove(s: Seq<Offer>, i: int, mk: u64, id: u64)
    requires
        unique_offers(s),
        0 <= i < s.len(),
    ensures
        unique_offers(s.remove(i)),
        is_offer_key(s[i], mk, id) ==> !has_offer_in(s.remove(i), mk, id),
        !is_offer_key(s[i], mk, id) ==> has_offer_in(s.remove(i), mk, id) == has_offer_in(
            s,
            mk,
            id,
        ) && (has_offer_in(s, mk, id) ==> offer_in(s.remove(i), mk, id) == offer_in(s, mk, id)),
{
    let t = s.remove(i);
    assert(forall|j: int| 0 <= j < i ==> t[j] == s[j]);
    assert(forall|j: int| i <= j < t.len() ==> t[j] == s[j + 1]);
    assert forall|j: int, k: int|
        #![trigger t[j], t[k]]
        0 <= j < k < t.len() implies !(t[j].maker == t[k].maker && t[j].offer_id
        == t[k].offer_id) by {
        let j2: int = if j < i {
            j
        } else {
            j + 1
        };
        let k2: int = if k < i {
            k
        } else {
            k + 1
        };
        assert(t[j] == s[j2] && t[k] == s[k2]);
    }
    if is_offer_key(s[i], mk, id) {
        if has_offer_in(t, mk, id) {
            let w = oidx_in(t, mk, id);
            assert(0 <= w < t.len() && is_offer_key(t[w], mk, id));
            let w2: int = if w < i {
                w
            } else {
                w + 1
            };
            assert(is_offer_key(s[w2], mk, id));
            assert(w2 != i ==> false);
            assert(false);
        }
    } else {
        if has_offer_in(s, mk, id) {
            let w = oidx_in(s, mk, id);
            assert(0 <= w < s.len() && is_offer_key(s[w], mk, id));
            assert(w != i);
            let w2: int = if w < i {
                w
            } else {
                w - 1
            };
            assert(t[w2] == s[w]);
            lemma_oidx_unique(t, w2, mk, id);
            lemma_oidx_unique(s, w, mk, id);
        } else {
            if has_offer_in(t, mk, id) {
                let w = oidx_in(t, mk, id);
                assert(0 <= w < t.len() && is_offer_key(t[w], mk, id));
                let w2: int = if w < i {
                    w
                } else {
                    w + 1
                };
                assert(is_offer_key(s[w2], mk, id));
                assert(false);
            }
        }
    }
}

} // verus!
