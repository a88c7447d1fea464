//! Laws of the exchange, each proved from the operations' transition
//! relations: what holds across several operations in sequence.

use vstd::prelude::*;

use crate::engine::Exchange;
use crate::engine::accepted;
use crate::engine::cancelled;
use crate::engine::created;
use crate::offer::is_offer_key;
use crate::offer::oidx_in;

verus! {

/// The escrow vault invariant: between creation and resolution an open
/// offer's vault holds exactly the offered amount, and that amount is
/// positive.
pub proof fn lemma_vault_holds_offered_amount(s: Exchange, maker: u64, offer_id: u64)
    requires
        s.wf(),
        s.has_offer(maker, offer_id),
    ensures
        s.vault_balance_of(maker, offer_id) == s.offer_at(maker, offer_id).amount_offered,
        s.vault_balance_of(maker, offer_id) > 0,
{
    let w = oidx_in(s.offers@, maker, offer_id);
    assert(0 <= w < s.offers@.len() && is_offer_key(s.offers@[w], maker, offer_id));
    assert(s.offer_ok(s.offers@[w]));
}

/// The id `create_offer` would issue next is always fresh: no open offer
/// of the maker carries the counter's current value.
pub proof fn lemma_next_offer_id_fresh(s: Exchange, maker: u64)
    requires
        s.wf(),
    ensures
        !s.has_offer(maker, s.offer_count_of(maker)),
{
    let id = s.offer_count_of(maker);
    if s.has_offer(maker, id) {
        let w = oidx_in(s.offers@, maker, id);
        assert(0 <= w < s.offers@.len() && is_offer_key(s.offers@[w], maker, id));
        assert(s.offer_ok(s.offers@[w]));
        assert(false);
    }
}

/// Counter monotonicity: two successful creations by the same maker, one
/// after the other, issue consecutive — hence distinct and increasing —
/// ids, and both offers are open afterwards.
pub proof fn lemma_offer_ids_sequential(
    s0: Exchange,
    s1: Exchange,
    s2: Exchange,
    maker: u64,
    mo1: u64,
    mw1: u64,
    ao1: u64,
    aw1: u64,
    t1: i64,
    vb1: u8,
    b1: u8,
    mo2: u64,
    mw2: u64,
    ao2: u64,
    aw2: u64,
    t2: i64,
    vb2: u8,
    b2: u8,
)
    requires
        created(s0, s1, maker, mo1, mw1, ao1, aw1, t1, vb1, b1),
        created(s1, s2, maker, mo2, mw2, ao2, aw2, t2, vb2, b2),
    ensures
        s1.offer_count_of(maker) == s0.offer_count_of(maker) + 1,
        s2.offer_count_of(maker) == s0.offer_count_of(maker) + 2,
        s2.has_offer(maker, s0.offer_count_of(maker)),
        s2.has_offer(maker, s1.offer_count_of(maker)),
{
    let id1 = s0.offer_count_of(maker);
    assert(s1.has_offer(maker, id1));
    assert(s2.has_offer(maker, id1));
}

/// Cancelling an offer right after creating it restores every balance —
/// in particular the maker's — to its value before the creation, and the
/// offer is gone.
pub proof fn lemma_cancel_restores_balances(
    s0: Exchange,
    s1: Exchange,
    s2: Exchange,
    maker: u64,
    mint_offered: u64,
    mint_wanted: u64,
    amount_offered: u64,
    amount_wanted: u64,
    created_at: i64,
    vault_bump: u8,
    bump: u8,
)
    requires
        created(
            s0,
            s1,
            maker,
            mint_offered,
            mint_wanted,
            amount_offered,
            amount_wanted,
            created_at,
            vault_bump,
            bump,
        ),
        cancelled(s1, s2, maker, s0.offer_count_of(maker)),
    ensures
        forall|o: u64, m: u64| #[trigger] s2.balance_of(o, m) == s0.balance_of(o, m),
        !s2.has_offer(maker, s0.offer_count_of(maker)),
{
    let id = s0.offer_count_of(maker);
    let o1 = s1.offer_at(maker, id);
    assert(o1.amount_offered == amount_offered && o1.mint_offered == mint_offered);
    assert forall|o: u64, m: u64| #[trigger] s2.balance_of(o, m) == s0.balance_of(o, m) by {
        assert(s2.balance_of(o, m) as int == s1.balance_of(o, m) + (if o == maker && m
            == o1.mint_offered {
            o1.amount_offered as int
        } else {
            0
        }));
        if o == maker && m == mint_offered {
            assert(s1.balance_of(o, m) as int == s0.balance_of(o, m) - amount_offered);
        } else {
            assert(s1.balance_of(o, m) == s0.balance_of(o, m));
        }
    }
}

/// A settled or cancelled offer is terminal: the record no longer exists,
/// so any later `accept_offer` or `cancel_offer` addressing the same
/// (maker, offer_id) finds nothing.
pub proof fn lemma_settlement_terminal(
    pre: Exchange,
    post: Exchange,
    taker: u64,
    maker: u64,
    offer_id: u64,
)
    requires
        accepted(pre, post, taker, maker, offer_id) || cancelled(pre, post, maker, offer_id),
    ensures
        !post.has_offer(maker, offer_id),
{
}

/// Settlement moves exactly the agreed amounts: with distinct parties and
/// distinct asset types, the taker pays `amount_wanted` to the maker and
/// receives the vault's `amount_offered`, and the offer is gone.
pub proof fn lemma_settlement_balances(
    pre: Exchange,
    post: Exchange,
    taker: u64,
    maker: u64,
    offer_id: u64,
)
    requires
        pre.has_offer(maker, offer_id),
        accepted(pre, post, taker, maker, offer_id),
        taker != maker,
        pre.offer_at(maker, offer_id).mint_offered != pre.offer_at(maker, offer_id).mint_wanted,
    ensures
        post.balance_of(taker, pre.offer_at(maker, offer_id).mint_wanted) as int == pre.balance_of(
            taker,
            pre.offer_at(maker, offer_id).mint_wanted,
        ) - pre.offer_at(maker, offer_id).amount_wanted,
        post.balance_of(maker, pre.offer_at(maker, offer_id).mint_wanted) as int == pre.balance_of(
            maker,
            pre.offer_at(maker, offer_id).mint_wanted,
        ) + pre.offer_at(maker, offer_id).amount_wanted,
        post.balance_of(taker, pre.offer_at(maker, offer_id).mint_offered) as int == pre.balance_of(
            taker,
            pre.offer_at(maker, offer_id).mint_offered,
        ) + pre.offer_at(maker, offer_id).amount_offered,
        !post.has_offer(maker, offer_id),
{
    let o = pre.offer_at(maker, offer_id);
    assert(post.balance_of(taker, o.mint_wanted) as int == pre.balance_of(taker, o.mint_wanted)
        - o.amount_wanted);
    assert(post.balance_of(maker, o.mint_wanted) as int == pre.balance_of(maker, o.mint_wanted)
        + o.amount_wanted);
    assert(post.balance_of(taker, o.mint_offered) as int == pre.balance_of(taker, o.mint_offered)
        + o.amount_offered);
}

} // verus!
