//! The asset ledger: balances per (owner, asset-type) account. Moving units
//! between owners is only possible through `transfer`, `credit` and `debit`,
//! whose contracts account for every balance and for the circulating total
//! of every asset.

use vstd::prelude::*;

use crate::errors::ErrorCode;

verus! {

/// One ledger entry: `owner` holds `balance` units of the asset `mint`.
#[derive(Clone, Copy, Debug, PartialEq, Eq, Structural)]
pub struct TokenAccount {
    pub owner: u64,
    pub mint: u64,
    pub balance: u64,
}

/// Whether `a` is the entry of `owner` for the asset `mint`.
pub open spec fn is_acct(a: TokenAccount, owner: u64, mint: u64) -> bool {
    a.owner == owner && a.mint == mint
}

/// Whether an entry for (owner, mint) exists.
pub open spec fn has_in(s: Seq<TokenAccount>, owner: u64, mint: u64) -> bool {
    exists|i: int| 0 <= i < s.len() && is_acct(#[trigger] s[i], owner, mint)
}

/// Index of the entry for (owner, mint); meaningful only under `has_in`.
pub open spec fn idx_in(s: Seq<TokenAccount>, owner: u64, mint: u64) -> int {
    choose|i: int| 0 <= i < s.len() && is_acct(#[trigger] s[i], owner, mint)
}

/// Balance of the entry for (owner, mint), or zero when none exists.
pub open spec fn bal_in(s: Seq<TokenAccount>, owner: u64, mint: u64) -> u64 {
    if has_in(s, owner, mint) {
        s[idx_in(s, owner, mint)].balance
    } else {
        0
    }
}

/// How much the entry `a` contributes to the circulating total of `mint`.
pub open spec fn entry_amount(a: TokenAccount, mint: u64) -> int {
    if a.mint == mint {
        a.balance as int
    } else {
        0
    }
}

/// Sum of all balances of the asset `mint` over the ledger's entries.
pub open spec fn total_in(s: Seq<TokenAccount>, mint: u64) -> int
    decreases s.len(),
{
    if s.len() == 0 {
        0
    } else {
        entry_amount(s[0], mint) + total_in(s.drop_first(), mint)
    }
}

/// No two entries share the same (owner, mint) key.
pub open spec fn unique_accounts(s: Seq<TokenAccount>) -> bool {
    forall|i: int, j: int|
        #![trigger s[i], s[j]]
        0 <= i < j < s.len() ==> !(s[i].owner == s[j].owner && s[i].mint == s[j].mint)
}

/// With unique keys, a matching index is the index `idx_in` picks, and the
/// balance read there is `bal_in`.
pub proof fn lemma_idx_unique(s: Seq<TokenAccount>, i: int, owner: u64, mint: u64)
    requires
        unique_accounts(s),
        0 <= i < s.len(),
        is_acct(s[i], owner, mint),
    ensures
        has_in(s, owner, mint),
        idx_in(s, owner, mint) == i,
        bal_in(s, owner, mint) == s[i].balance,
{
    assert(has_in(s, owner, mint));
    let k = idx_in(s, owner, mint);
    assert(0 <= k < s.len() && is_acct(s[k], owner, mint));
    if k != i {
        assert(false);
    }
}

/// The total of every asset is never negative.
pub proof fn lemma_total_nonneg(s: Seq<TokenAccount>, mint: u64)
    ensures
        0 <= total_in(s, mint),
    decreases s.len(),
{
    if s.len() > 0 {
        lemma_total_nonneg(s.drop_first(), mint);
    }
}

/// Replacing the entry at `i` moves the total by the difference of the two
/// contributions.
pub proof fn lemma_total_update(s: Seq<TokenAccount>, i: int, a: TokenAccount, mint: u64)
    requires
        0 <= i < s.len(),
    ensures
        total_in(s.update(i, a), mint) == total_in(s, mint) - entry_amount(s[i], mint) + entry_amount(
            a,
            mint,
        ),
    decreases s.len(),
{
    let t = s.update(i, a);
    if i == 0 {
        assert(t.drop_first() =~= s.drop_first());
    } else {
        assert(t.drop_first() =~= s.drop_first().update(i - 1, a));
        lemma_total_update(s.drop_first(), i - 1, a, mint);
    }
}

/// Appending an entry adds its contribution to the total.
pub proof fn lemma_total_push(s: Seq<TokenAccount>, a: TokenAccount, mint: u64)
    ensures
        total_in(s.push(a), mint) == total_in(s, mint) + entry_amount(a, mint),
    decreases s.len(),
{
    let t = s.push(a);
    if s.len() == 0 {
        assert(t.drop_first() =~= s);
    } else {
        assert(t.drop_first() =~= s.drop_first().push(a));
        lemma_total_push(s.drop_first(), a, mint);
    }
}

/// A single entry of the asset never exceeds the asset's total.
pub proof fn lemma_acct_le_total(s: Seq<TokenAccount>, i: int, mint: u64)
    requires
        0 <= i < s.len(),
        s[i].mint == mint,
    ensures
        s[i].balance <= total_in(s, mint),
    decreases s.len(),
{
    if i == 0 {
        lemma_total_nonneg(s.drop_first(), mint);
    } else {
        lemma_acct_le_total(s.drop_first(), i - 1, mint);
    }
}

/// Two distinct entries of the asset together never exceed its total.
pub proof fn lemma_two_accts_le_total(s: Seq<TokenAccount>, i: int, j: int, mint: u64)
    requires
        0 <= i < s.len(),
        0 <= j < s.len(),
        i != j,
        s[i].mint == mint,
        s[j].mint == mint,
    ensures
        s[i].balance + s[j].balance <= total_in(s, mint),
    decreases s.len(),
{
    if i == 0 {
        lemma_acct_le_total(s.drop_first(), j - 1, mint);
    } else if j == 0 {
        lemma_acct_le_total(s.drop_first(), i - 1, mint);
    } else {
        lemma_two_accts_le_total(s.drop_first(), i - 1, j - 1, mint);
    }
}

/// A balance never exceeds the asset's total.
pub proof fn lemma_bal_le_total(s: Seq<TokenAccount>, owner: u64, mint: u64)
    requires
        unique_accounts(s),
    ensures
        bal_in(s, owner, mint) <= total_in(s, mint),
{
    if has_in(s, owner, mint) {
        lemma_acct_le_total(s, idx_in(s, owner, mint), mint);
    } else {
        lemma_total_nonneg(s, mint);
    }
}

/// The balances of two distinct owners together never exceed the asset's
/// total.
pub proof fn lemma_two_bals_le_total(s: Seq<TokenAccount>, o1: u64, o2: u64, mint: u64)
    requires
        unique_accounts(s),
        o1 != o2,
    ensures
        bal_in(s, o1, mint) + bal_in(s, o2, mint) <= total_in(s, mint),
{
    lemma_total_nonneg(s, mint);
    if has_in(s, o1, mint) && has_in(s, o2, mint) {
        lemma_two_accts_le_total(s, idx_in(s, o1, mint), idx_in(s, o2, mint), mint);
    } else if has_in(s, o1, mint) {
        lemma_acct_le_total(s, idx_in(s, o1, mint), mint);
    } else if has_in(s, o2, mint) {
        lemma_acct_le_total(s, idx_in(s, o2, mint), mint);
    }
}

/// Replacing the entry at `i` with one of the same key: every balance but
/// that key's is untouched.
pub proof fn lemma_bal_update(s: Seq<TokenAccount>, i: int, a: TokenAccount, o: u64, m: u64)
    requires
        unique_accounts(s),
        0 <= i < s.len(),
        a.owner == s[i].owner,
        a.mint == s[i].mint,
    ensures
        unique_accounts(s.update(i, a)),
        bal_in(s.update(i, a), o, m) == if is_acct(a, o, m) {
            a.balance
        } else {
            bal_in(s, o, m)
        },
{
    let t = s.update(i, a);
    assert forall|j: int, k: int|
        #![trigger t[j], t[k]]
        0 <= j < k < t.len() implies !(t[j].owner == t[k].owner && t[j].mint == t[k].mint) by {
        assert(s[j].owner == t[j].owner && s[j].mint == t[j].mint);
        assert(s[k].owner == t[k].owner && s[k].mint == t[k].mint);
    }
    if is_acct(a, o, m) {
        lemma_idx_unique(t, i, o, m);
    } else {
        if has_in(s, o, m) {
            let w = idx_in(s, o, m);
            assert(0 <= w < s.len() && is_acct(s[w], o, m));
            assert(w != i);
            assert(is_acct(t[w], o, m));
            lemma_idx_unique(t, w, o, m);
            lemma_idx_unique(s, w, o, m);
        } else {
            if has_in(t, o, m) {
                let w = idx_in(t, o, m);
                assert(0 <= w < t.len() && is_acct(t[w], o, m));
                assert(w != i);
                assert(is_acct(s[w], o, m));
                assert(false);
            }
        }
    }
}

/// Appending an entry with a fresh key: every balance but that key's is
/// untouched, and that key's balance was zero.
pub proof fn lemma_bal_push(s: Seq<TokenAccount>, a: TokenAccount, o: u64, m: u64)
    requires
        unique_accounts(s),
        !has_in(s, a.owner, a.mint),
    ensures
        unique_accounts(s.push(a)),
        bal_in(s, a.owner, a.mint) == 0,
        bal_in(s.push(a), o, m) == if is_acct(a, o, m) {
            a.balance
        } else {
            bal_in(s, o, m)
        },
{
    let t = s.push(a);
    assert forall|j: int, k: int|
        #![trigger t[j], t[k]]
        0 <= j < k < t.len() implies !(t[j].owner == t[k].owner && t[j].mint == t[k].mint) by {
        if k < s.len() {
            assert(t[j] == s[j] && t[k] == s[k]);
        } else {
            assert(t[k] == a);
            assert(t[j] == s[j]);
            assert(!is_acct(s[j], a.owner, a.mint));
        }
    }
    if is_acct(a, o, m) {
        lemma_idx_unique(t, s.len() as int, o, m);
    } else {
        if has_in(s, o, m) {
            let w = idx_in(s, o, m);
            assert(is_acct(s[w], o, m));
            assert(t[w] == s[w]);
            lemma_idx_unique(t, w, o, m);
            lemma_idx_unique(s, w, o, m);
        } else {
            if has_in(t, o, m) {
                let w = idx_in(t, o, m);
                assert(0 <= w < t.len() && is_acct(t[w], o, m));
                assert(w != s.len());
                assert(is_acct(s[w], o, m));
                assert(false);
            }
        }
    }
}

/// Balance book of the asset ledger: one entry per (owner, asset-type).
pub struct AssetLedger {
    pub accounts: Vec<TokenAccount>,
}

impl AssetLedger {
    /// One entry per key: the shape every operation preserves.
    pub open spec fn wf(self) -> bool {
        unique_accounts(self.accounts@)
    }

    /// How many units of `mint` the owner holds (zero without an entry).
    pub open spec fn balance_of(self, owner: u64, mint: u64) -> u64 {
        bal_in(self.accounts@, owner, mint)
    }

    /// Circulating total of `mint` over all entries.
    pub open spec fn total_of(self, mint: u64) -> int {
        total_in(self.accounts@, mint)
    }

    /// An empty ledger: no entries, every balance and total zero.
    pub fn new() -> (r: AssetLedger)
        ensures
            r.wf(),
            forall|o: u64, m: u64| r.balance_of(o, m) == 0,
            forall|m: u64| r.total_of(m) == 0,
    {
        AssetLedger { accounts: Vec::new() }
    }

    /// Index of the entry for (owner, mint), if one exists.
    fn find(&self, owner: u64, mint: u64) -> (r: Option<usize>)
        ensures
            match r {
                Some(i) => i < self.accounts@.len() && is_acct(
                    self.accounts@[i as int],
                    owner,
                    mint,
                ),
                None => !has_in(self.accounts@, owner, mint),
            },
    {
        let n = self.accounts.len();
        let mut i: usize = 0;
        while i < n
            invariant
                n == self.accounts@.len(),
                i <= n,
                forall|j: int| 0 <= j < i ==> !is_acct(#[trigger] self.accounts@[j], owner, mint),
            decreases n - i,
        {
            let a = self.accounts[i];
            if a.owner == owner && a.mint == mint {
                return Some(i);
            }
            i += 1;
        }
        None
    }

    /// Read a balance.
    pub fn balance(&self, owner: u64, mint: u64) -> (r: u64)
        requires
            self.wf(),
        ensures
            r == self.balance_of(owner, mint),
    {
        match self.find(owner, mint) {
            Some(i) => {
                proof {
                    lemma_idx_unique(self.accounts@, i as int, owner, mint);
                }
                self.accounts[i].balance
            },
            None => 0,
        }
    }

    /// Add `amount` units of `mint` to the owner's entry, creating the entry
    /// when it is missing.
    pub fn credit(&mut self, owner: u64, mint: u64, amount: u64)
        requires
            old(self).wf(),
            old(self).balance_of(owner, mint) + amount <= u64::MAX,
        ensures
            final(self).wf(),
            final(self).balance_of(owner, mint) == old(self).balance_of(owner, mint) + amount,
            forall|o: u64, m: u64|
                !(o == owner && m == mint) ==> final(self).balance_of(o, m) == old(
                    self,
                ).balance_of(o, m),
            forall|m: u64|
                final(self).total_of(m) == old(self).total_of(m) + if m == mint {
                    amount as int
                } else {
                    0
                },
    {
        let ghost s0 = self.accounts@;
        match self.find(owner, mint) {
            Some(i) => {
                proof {
                    lemma_idx_unique(s0, i as int, owner, mint);
                }
                let b = self.accounts[i].balance;
                let updated = TokenAccount { owner, mint, balance: b + amount };
                self.accounts[i] = updated;
                proof {
                    assert forall|o: u64, m: u64|
                        !(o == owner && m == mint) implies bal_in(self.accounts@, o, m) == bal_in(
                        s0,
                        o,
                        m,
                    ) by {
                        lemma_bal_update(s0, i as int, updated, o, m);
                    }
                    lemma_bal_update(s0, i as int, updated, owner, mint);
                    assert forall|m: u64|
                        total_in(self.accounts@, m) == total_in(s0, m) + (if m == mint {
                            amount as int
                        } else {
                            0
                        }) by {
                        lemma_total_update(s0, i as int, updated, m);
                    }
                }
            },
            None => {
                let a = TokenAccount { owner, mint, balance: amount };
                self.accounts.push(a);
                proof {
                    assert forall|o: u64, m: u64|
                        !(o == owner && m == mint) implies bal_in(self.accounts@, o, m) == bal_in(
                        s0,
                        o,
                        m,
                    ) by {
                        lemma_bal_push(s0, a, o, m);
                    }
                    lemma_bal_push(s0, a, owner, mint);
                    assert forall|m: u64|
                        total_in(self.accounts@, m) == total_in(s0, m) + (if m == mint {
                            amount as int
                        } else {
                            0
                        }) by {
                        lemma_total_push(s0, a, m);
                    }
                }
            },
        }
    }

    /// Take `amount` units of `mint` from the owner's entry; rejected with
    /// `InsufficientBalance` when the balance is smaller, changing nothing.
    pub fn debit(&mut self, owner: u64, mint: u64, amount: u64) -> (r: Result<(), ErrorCode>)
        requires
            old(self).wf(),
        ensures
            final(self).wf(),
            old(self).balance_of(owner, mint) < amount ==> r == Err::<(), ErrorCode>(
                ErrorCode::InsufficientBalance,
            ) && *final(self) == *old(self),
            old(self).balance_of(owner, mint) >= amount ==> {
                &&& r == Ok::<(), ErrorCode>(())
                &&& final(self).balance_of(owner, mint) == old(self).balance_of(owner, mint)
                    - amount
                &&& forall|o: u64, m: u64|
                    !(o == owner && m == mint) ==> final(self).balance_of(o, m) == old(
                        self,
                    ).balance_of(o, m)
                &&& forall|m: u64|
                    final(self).total_of(m) == old(self).total_of(m) - if m == mint {
                        amount as int
                    } else {
                        0
                    }
            },
    {
        let ghost s0 = self.accounts@;
        match self.find(owner, mint) {
            Some(i) => {
                proof {
                    lemma_idx_unique(s0, i as int, owner, mint);
                }
                let b = self.accounts[i].balance;
                if b < amount {
                    return Err(ErrorCode::InsufficientBalance);
                }
                let updated = TokenAccount { owner, mint, balance: b - amount };
                self.accounts[i] = updated;
                proof {
                    assert forall|o: u64, m: u64|
                        !(o == owner && m == mint) implies bal_in(self.accounts@, o, m) == bal_in(
                        s0,
                        o,
                        m,
                    ) by {
                        lemma_bal_update(s0, i as int, updated, o, m);
                    }
                    lemma_bal_update(s0, i as int, updated, owner, mint);
                    assert forall|m: u64|
                        total_in(self.accounts@, m) == total_in(s0, m) - (if m == mint {
                            amount as int
                        } else {
                            0
                        }) by {
                        lemma_total_update(s0, i as int, updated, m);
                    }
                }
                Ok(())
            },
            None => {
                if amount > 0 {
                    Err(ErrorCode::InsufficientBalance)
                } else {
                    Ok(())
                }
            },
        }
    }

    /// Move `amount` units of `mint` from `from` to `to`, authorized by
    /// `authority`: only the paying owner itself may authorize the move.
    /// The totals of every asset are conserved.
    pub fn transfer(
        &mut self,
        from: u64,
        to: u64,
        authority: u64,
        mint: u64,
        amount: u64,
    ) -> (r: Result<(), ErrorCode>)
        requires
            old(self).wf(),
            (authority == from && from != to && old(self).balance_of(from, mint) >= amount) ==> old(
                self,
            ).balance_of(to, mint) + amount <= u64::MAX,
        ensures
            final(self).wf(),
            authority != from ==> r == Err::<(), ErrorCode>(ErrorCode::Unauthorized)
                && *final(self) == *old(self),
            authority == from && old(self).balance_of(from, mint) < amount ==> r == Err::<
                (),
                ErrorCode,
            >(ErrorCode::InsufficientBalance) && *final(self) == *old(self),
            authority == from && old(self).balance_of(from, mint) >= amount ==> {
                &&& r == Ok::<(), ErrorCode>(())
                &&& forall|o: u64, m: u64|
                    final(self).balance_of(o, m) as int == old(self).balance_of(o, m) - (if o
                        == from && m == mint {
                        amount as int
                    } else {
                        0
                    }) + (if o == to && m == mint {
                        amount as int
                    } else {
                        0
                    })
                &&& forall|m: u64| final(self).total_of(m) == old(self).total_of(m)
            },
    {
        if authority != from {
            return Err(ErrorCode::Unauthorized);
        }
        if from == to {
            let b = self.balance(from, mint);
            if b < amount {
                return Err(ErrorCode::InsufficientBalance);
            }
            return Ok(());
        }
        match self.debit(from, mint, amount) {
            Err(e) => Err(e),
            Ok(()) => {
                self.credit(to, mint, amount);
                Ok(())
            },
        }
    }
}

} // verus!
