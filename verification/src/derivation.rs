//! Derived authorities: deterministic keyless addresses. A seed tuple is
//! hashed to an address that no private key controls, together with a
//! small "bump" proof value; re-supplying the same seeds reconstructs and
//! authenticates the same address. The hash itself is the outside
//! crate's; building the seed tuples and checking a claimed address
//! against a recomputation are verified here.

use vstd::prelude::*;

verus! {

/// What `Pubkey::try_find_program_address` returns for these seeds and
/// this program id: the derived 32-byte address and its bump, or `None`
/// in the statistically improbable event that no bump yields a valid
/// address. The result is a SHA-256-based function of the arguments
/// alone, so it is named rather than spelled out.
pub uninterp spec fn find_derived(seeds: Seq<Seq<u8>>, program_id: Seq<u8>) -> Option<(Seq<u8>, u8)>;

/// Byte view of a list of seeds.
pub open spec fn seeds_view(seeds: Seq<Vec<u8>>) -> Seq<Seq<u8>> {
    seeds.map_values(|s: Vec<u8>| s@)
}

/// Relies on anchor_lang's `Pubkey::try_find_program_address` (the
/// program-derived-address search): deterministic in the seeds and the
/// program id, never panicking, and any returned address is 32 bytes.
#[verifier::external_body]
fn try_find_address(seeds: &Vec<Vec<u8>>, program_id: &Vec<u8>) -> (r: Option<(Vec<u8>, u8)>)
    requires
        program_id@.len() == 32,
    ensures
        match r {
            Some(ab) => find_derived(seeds_view(seeds@), program_id@) == Some((ab.0@, ab.1))
                && ab.0@.len() == 32,
            None => find_derived(seeds_view(seeds@), program_id@) is None,
        },
{
    let mut pid = [0u8; 32];
    pid.copy_from_slice(program_id.as_slice());
    let pid = anchor_lang::prelude::Pubkey::new_from_array(pid);
    let refs: Vec<&[u8]> = seeds.iter().map(|s| s.as_slice()).collect();
    anchor_lang::prelude::Pubkey::try_find_program_address(&refs, &pid).map(
        |ab: (anchor_lang::prelude::Pubkey, u8)| (ab.0.to_bytes().to_vec(), ab.1),
    )
}

/// The fixed tag opening an offer record's seed tuple: the bytes of
/// "offer".
pub open spec fn offer_tag() -> Seq<u8> {
    seq![111u8, 102u8, 102u8, 101u8, 114u8]
}

/// The fixed tag opening a vault's seed tuple: the bytes of "vault".
pub open spec fn vault_tag() -> Seq<u8> {
    seq![118u8, 97u8, 117u8, 108u8, 116u8]
}

/// The fixed tag opening a user record's seed tuple: the bytes of
/// "user_profile".
pub open spec fn user_tag() -> Seq<u8> {
    seq![117u8, 115u8, 101u8, 114u8, 95u8, 112u8, 114u8, 111u8, 102u8, 105u8, 108u8, 101u8]
}

fn offer_tag_bytes() -> (r: Vec<u8>)
    ensures
        r@ == offer_tag(),
{
    let mut r: Vec<u8> = Vec::new();
    r.push(111u8);
    r.push(102u8);
    r.push(102u8);
    r.push(101u8);
    r.push(114u8);
    proof {
        assert(r@ =~= offer_tag());
    }
    r
}

fn vault_tag_bytes() -> (r: Vec<u8>)
    ensures
        r@ == vault_tag(),
{
    let mut r: Vec<u8> = Vec::new();
    r.push(118u8);
    r.push(97u8);
    r.push(117u8);
    r.push(108u8);
    r.push(116u8);
    proof {
        assert(r@ =~= vault_tag());
    }
    r
}

fn user_tag_bytes() -> (r: Vec<u8>)
    ensures
        r@ == user_tag(),
{
    let mut r: Vec<u8> = Vec::new();
    r.push(117u8);
    r.push(115u8);
    r.push(101u8);
    r.push(114u8);
    r.push(95u8);
    r.push(112u8);
    r.push(114u8);
    r.push(111u8);
    r.push(102u8);
    r.push(105u8);
    r.push(108u8);
    r.push(101u8);
    proof {
        assert(r@ =~= user_tag());
    }
    r
}

/// Little-endian bytes of a 64-bit offer id, as the seed tuples carry it.
pub open spec fn u64_le(x: u64) -> Seq<u8> {
    seq![
        (x & 0xff) as u8,
        ((x >> 8) & 0xff) as u8,
        ((x >> 16) & 0xff) as u8,
        ((x >> 24) & 0xff) as u8,
        ((x >> 32) & 0xff) as u8,
        ((x >> 40) & 0xff) as u8,
        ((x >> 48) & 0xff) as u8,
        ((x >> 56) & 0xff) as u8,
    ]
}

/// Encode a 64-bit value as its eight little-endian bytes.
pub fn u64_le_bytes(x: u64) -> (r: Vec<u8>)
    ensures
        r@ == u64_le(x),
{
    let mut r: Vec<u8> = Vec::new();
    r.push((x & 0xff) as u8);
    r.push(((x >> 8) & 0xff) as u8);
    r.push(((x >> 16) & 0xff) as u8);
    r.push(((x >> 24) & 0xff) as u8);
    r.push(((x >> 32) & 0xff) as u8);
    r.push(((x >> 40) & 0xff) as u8);
    r.push(((x >> 48) & 0xff) as u8);
    r.push(((x >> 56) & 0xff) as u8);
    proof {
        assert(r@ =~= u64_le(x));
    }
    r
}

/// The seed tuple of an offer record: tag, maker identity, little-endian
/// offer id.
pub open spec fn offer_seeds(maker: Seq<u8>, offer_id: u64) -> Seq<Seq<u8>> {
    seq![offer_tag(), maker, u64_le(offer_id)]
}

/// The seed tuple of an offer's vault: tag, offer record address, offered
/// asset identity.
pub open spec fn vault_seeds(offer_address: Seq<u8>, mint_offered: Seq<u8>) -> Seq<Seq<u8>> {
    seq![vault_tag(), offer_address, mint_offered]
}

/// The seed tuple of a user record: tag, user identity.
pub open spec fn user_seeds(authority: Seq<u8>) -> Seq<Seq<u8>> {
    seq![user_tag(), authority]
}

fn build_offer_seeds(maker: Vec<u8>, offer_id: u64) -> (r: Vec<Vec<u8>>)
    ensures
        seeds_view(r@) == offer_seeds(maker@, offer_id),
{
    let ghost m = maker@;
    let mut r: Vec<Vec<u8>> = Vec::new();
    r.push(offer_tag_bytes());
    r.push(maker);
    r.push(u64_le_bytes(offer_id));
    proof {
        assert(seeds_view(r@) =~= offer_seeds(m, offer_id));
    }
    r
}

fn build_vault_seeds(offer_address: Vec<u8>, mint_offered: Vec<u8>) -> (r: Vec<Vec<u8>>)
    ensures
        seeds_view(r@) == vault_seeds(offer_address@, mint_offered@),
{
    let ghost oa = offer_address@;
    let ghost mo = mint_offered@;
    let mut r: Vec<Vec<u8>> = Vec::new();
    r.push(vault_tag_bytes());
    r.push(offer_address);
    r.push(mint_offered);
    proof {
        assert(seeds_view(r@) =~= vault_seeds(oa, mo));
    }
    r
}

fn build_user_seeds(authority: Vec<u8>) -> (r: Vec<Vec<u8>>)
    ensures
        seeds_view(r@) == user_seeds(authority@),
{
    let ghost a = authority@;
    let mut r: Vec<Vec<u8>> = Vec::new();
    r.push(user_tag_bytes());
    r.push(authority);
    proof {
        assert(seeds_view(r@) =~= user_seeds(a));
    }
    r
}

/// Derive the offer record's keyless address and bump for
/// (maker, offer_id) under `program_id`.
pub fn derive_offer_address(program_id: &Vec<u8>, maker: Vec<u8>, offer_id: u64) -> (r: Option<
    (Vec<u8>, u8),
>)
    requires
        program_id@.len() == 32,
    ensures
        match r {
            Some(ab) => find_derived(offer_seeds(maker@, offer_id), program_id@) == Some(
                (ab.0@, ab.1),
            ) && ab.0@.len() == 32,
            None => find_derived(offer_seeds(maker@, offer_id), program_id@) is None,
        },
{
    let seeds = build_offer_seeds(maker, offer_id);
    try_find_address(&seeds, program_id)
}

/// Derive the vault's keyless address and bump for an offer record
/// address and the offered asset under `program_id`.
pub fn derive_vault_address(
    program_id: &Vec<u8>,
    offer_address: Vec<u8>,
    mint_offered: Vec<u8>,
) -> (r: Option<(Vec<u8>, u8)>)
    requires
        program_id@.len() == 32,
    ensures
        match r {
            Some(ab) => find_derived(vault_seeds(offer_address@, mint_offered@), program_id@)
                == Some((ab.0@, ab.1)) && ab.0@.len() == 32,
            None => find_derived(vault_seeds(offer_address@, mint_offered@), program_id@) is None,
        },
{
    let seeds = build_vault_seeds(offer_address, mint_offered);
    try_find_address(&seeds, program_id)
}

/// Derive the user record's keyless address and bump for `authority`
/// under `program_id`.
pub fn derive_user_address(program_id: &Vec<u8>, authority: Vec<u8>) -> (r: Option<(Vec<u8>, u8)>)
    requires
        program_id@.len() == 32,
    ensures
        match r {
            Some(ab) => find_derived(user_seeds(authority@), program_id@) == Some((ab.0@, ab.1))
                && ab.0@.len() == 32,
            None => find_derived(user_seeds(authority@), program_id@) is None,
        },
{
    let seeds = build_user_seeds(authority);
    try_find_address(&seeds, program_id)
}

/// Byte-for-byte comparison of two byte strings.
fn bytes_eq(a: &Vec<u8>, b: &Vec<u8>) -> (r: bool)
    ensures
        r == (a@ == b@),
{
    if a.len() != b.len() {
        return false;
    }
    let n = a.len();
    let mut i: usize = 0;
    while i < n
        invariant
            n == a@.len(),
            a@.len() == b@.len(),
            i <= n,
            forall|j: int| 0 <= j < i ==> a@[j] == b@[j],
        decreases n - i,
    {
        if a[i] != b[i] {
            return false;
        }
        i += 1;
    }
    proof {
        assert(a@ =~= b@);
    }
    true
}

/// Authenticate a claimed offer record address: re-derive it from
/// (maker, offer_id) and compare address and bump — authority is proved
/// by recomputation, not by any stored secret.
pub fn verify_offer_address(
    program_id: &Vec<u8>,
    maker: Vec<u8>,
    offer_id: u64,
    address: &Vec<u8>,
    bump: u8,
) -> (r: bool)
    requires
        program_id@.len() == 32,
    ensures
        r == (find_derived(offer_seeds(maker@, offer_id), program_id@) == Some((address@, bump))),
{
    match derive_offer_address(program_id, maker, offer_id) {
        None => false,
        Some(ab) => {
            let ok = bytes_eq(&ab.0, address);
            ok && ab.1 == bump
        },
    }
}

/// Authenticate a claimed vault address: re-derive it from the offer
/// record address and the offered asset and compare address and bump.
pub fn verify_vault_address(
    program_id: &Vec<u8>,
    offer_address: Vec<u8>,
    mint_offered: Vec<u8>,
    address: &Vec<u8>,
    bump: u8,
) -> (r: bool)
    requires
        program_id@.len() == 32,
    ensures
        r == (find_derived(vault_seeds(offer_address@, mint_offered@), program_id@) == Some(
            (address@, bump),
        )),
{
    match derive_vault_address(program_id, offer_address, mint_offered) {
        None => false,
        Some(ab) => {
            let ok = bytes_eq(&ab.0, address);
            ok && ab.1 == bump
        },
    }
}

} // verus!
