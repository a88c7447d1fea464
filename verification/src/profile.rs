//! User registry records: one profile per user, carrying the monotonic
//! counter that numbers the user's offers.

use vstd::prelude::*;

verus! {

/// One record per user: who it belongs to and how many offers the user has
/// created so far.
#[derive(Clone, Copy, Debug, PartialEq, Eq, Structural)]
pub struct UserProfile {
    /// The user this record belongs to.
    pub authority: u64,
    /// Counter numbering the user's offers; only ever increments.
    pub offer_count: u64,
}

/// Whether `p` is the profile of `user`.
pub open spec fn is_prof(p: UserProfile, user: u64) -> bool {
    p.authority == user
}

/// Whether a profile for `user` exists.
pub open spec fn has_prof_in(s: Seq<UserProfile>, user: u64) -> bool {
    exists|i: int| 0 <= i < s.len() && is_prof(#[trigger] s[i], user)
}

/// Index of the profile of `user`; meaningful only under `has_prof_in`.
pub open spec fn pidx_in(s: Seq<UserProfile>, user: u64) -> int {
    choose|i: int| 0 <= i < s.len() && is_prof(#[trigger] s[i], user)
}

/// Offer counter of `user`, or zero when no profile exists.
pub open spec fn count_in(s: Seq<UserProfile>, user: u64) -> u64 {
    if has_prof_in(s, user) {
        s[pidx_in(s, user)].offer_count
    } else {
        0
    }
}

/// No two profiles belong to the same user.
pub open spec fn unique_profiles(s: Seq<UserProfile>) -> bool {
    forall|i: int, j: int|
        #![trigger s[i], s[j]]
        0 <= i < j < s.len() ==> s[i].authority != s[j].authority
}

/// With unique users, a matching index is the index `pidx_in` picks, and
/// the counter read there is `count_in`.
pub proof fn lemma_pidx_unique(s: Seq<UserProfile>, i: int, user: u64)
    requires
        unique_profiles(s),
        0 <= i < s.len(),
        is_prof(s[i], user),
    ensures
        has_prof_in(s, user),
        pidx_in(s, user) == i,
        count_in(s, user) == s[i].offer_count,
{
    assert(has_prof_in(s, user));
    let k = pidx_in(s, user);
    assert(0 <= k < s.len() && is_prof(s[k], user));
    if k != i {
        assert(false);
    }
}

/// Replacing the profile at `i` with one of the same user: every other
/// user's record is untouched.
pub proof fn lemma_prof_update(s: Seq<UserProfile>, i: int, p: UserProfile, u: u64)
    requires
        unique_profiles(s),
        0 <= i < s.len(),
        p.authority == s[i].authority,
    ensures
        unique_profiles(s.update(i, p)),
        has_prof_in(s.update(i, p), u) == has_prof_in(s, u),
        count_in(s.update(i, p), u) == if is_prof(p, u) {
            p.offer_count
        } else {
            count_in(s, u)
        },
{
    let t = s.update(i, p);
    assert forall|j: int, k: int|
        #![trigger t[j], t[k]]
        0 <= j < k < t.len() implies t[j].authority != t[k].authority by {
        assert(s[j].authority == t[j].authority);
        assert(s[k].authority == t[k].authority);
    }
    if is_prof(p, u) {
        lemma_pidx_unique(t, i, u);
        lemma_pidx_unique(s, i, u);
    } else {
        if has_prof_in(s, u) {
            let w = pidx_in(s, u);
            assert(0 <= w < s.len() && is_prof(s[w], u));
            assert(w != i);
            assert(is_prof(t[w], u));
            lemma_pidx_unique(t, w, u);
            lemma_pidx_unique(s, w, u);
        } else {
            if has_prof_in(t, u) {
                let w = pidx_in(t, u);
                assert(0 <= w < t.len() && is_prof(t[w], u));
                assert(w != i);
                assert(is_prof(s[w], u));
                assert(false);
            }
        }
    }
}

/// Appending a profile of a user with none yet: every other user's record
/// is untouched, and the new user's counter reads as given.
pub proof fn lemma_prof_push(s: Seq<UserProfile>, p: UserProfile, u: u64)
    requires
        unique_profiles(s),
        !has_prof_in(s, p.authority),
    ensures
        unique_profiles(s.push(p)),
        has_prof_in(s.push(p), u) == (is_prof(p, u) || has_prof_in(s, u)),
        count_in(s.push(p), u) == if is_prof(p, u) {
            p.offer_count
        } else {
            count_in(s, u)
        },
{
    let t = s.push(p);
    assert forall|j: int, k: int|
        #![trigger t[j], t[k]]
        0 <= j < k < t.len() implies t[j].authority != t[k].authority by {
        if k < s.len() {
            assert(t[j] == s[j] && t[k] == s[k]);
        } else {
            assert(t[k] == p);
            assert(t[j] == s[j]);
            assert(!is_prof(s[j], p.authority));
        }
    }
    if is_prof(p, u) {
        lemma_pidx_unique(t, s.len() as int, u);
    } else {
        if has_prof_in(s, u) {
            let w = pidx_in(s, u);
            assert(is_prof(s[w], u));
            assert(t[w] == s[w]);
            lemma_pidx_unique(t, w, u);
            lemma_pidx_unique(s, w, u);
        } else {
            if has_prof_in(t, u) {
                let w = pidx_in(t, u);
                assert(0 <= w < t.len() && is_prof(t[w], u));
                assert(w != s.len());
                assert(is_prof(s[w], u));
                assert(false);
            }
        }
    }
}

} // verus!
