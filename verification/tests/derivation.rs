//! The derived-authority layer: determinism of the address derivation,
//! authentication by recomputation, and the little-endian id encoding.

use p2p_swap::derive_offer_address;
use p2p_swap::derive_user_address;
use p2p_swap::derive_vault_address;
use p2p_swap::u64_le_bytes;
use p2p_swap::verify_offer_address;
use p2p_swap::verify_vault_address;

fn program_id() -> Vec<u8> {
    vec![7u8; 32]
}

fn maker() -> Vec<u8> {
    vec![42u8; 32]
}

#[test]
fn u64_le_bytes_is_little_endian() {
    assert_eq!(u64_le_bytes(0), vec![0u8; 8]);
    let x: u64 = 0x0102030405060708;
    assert_eq!(u64_le_bytes(x), x.to_le_bytes().to_vec());
    assert_eq!(u64_le_bytes(1), vec![1, 0, 0, 0, 0, 0, 0, 0]);
}

#[test]
fn offer_address_is_deterministic() {
    let pid = program_id();
    let (a1, b1) = derive_offer_address(&pid, maker(), 5).unwrap();
    let (a2, b2) = derive_offer_address(&pid, maker(), 5).unwrap();
    assert_eq!(a1, a2);
    assert_eq!(b1, b2);
    assert_eq!(a1.len(), 32);
}

#[test]
fn offer_address_depends_on_the_seeds() {
    let pid = program_id();
    let (a0, _) = derive_offer_address(&pid, maker(), 0).unwrap();
    let (a1, _) = derive_offer_address(&pid, maker(), 1).unwrap();
    assert_ne!(a0, a1);
    assert_ne!(a0, maker());
}

#[test]
fn offer_address_verifies_by_recomputation() {
    let pid = program_id();
    let (addr, bump) = derive_offer_address(&pid, maker(), 9).unwrap();
    assert!(verify_offer_address(&pid, maker(), 9, &addr, bump));
    assert!(!verify_offer_address(&pid, maker(), 9, &addr, bump.wrapping_add(1)));
    assert!(!verify_offer_address(&pid, maker(), 8, &addr, bump));
    let wrong = vec![0u8; 32];
    assert!(!verify_offer_address(&pid, maker(), 9, &wrong, bump));
}

#[test]
fn vault_address_verifies_by_recomputation() {
    let pid = program_id();
    let (offer_addr, _) = derive_offer_address(&pid, maker(), 0).unwrap();
    let mint = vec![9u8; 32];
    let (vault, bump) = derive_vault_address(&pid, offer_addr.clone(), mint.clone()).unwrap();
    assert_eq!(vault.len(), 32);
    assert_ne!(vault, offer_addr);
    assert!(verify_vault_address(&pid, offer_addr.clone(), mint.clone(), &vault, bump));
    assert!(!verify_vault_address(&pid, offer_addr, mint, &vault, bump.wrapping_add(1)));
}

#[test]
fn user_address_is_deterministic() {
    let pid = program_id();
    let (a1, b1) = derive_user_address(&pid, maker()).unwrap();
    let (a2, b2) = derive_user_address(&pid, maker()).unwrap();
    assert_eq!((a1.clone(), b1), (a2, b2));
    assert_eq!(a1.len(), 32);
}
