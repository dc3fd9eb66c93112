use portfolio_program::{find_portfolio_address, id, Pubkey, Store};
use std::str::FromStr;

fn key(fill: u8) -> Pubkey {
    Pubkey::new_from_array([fill; 32])
}

#[test]
fn program_identity_is_the_declared_one() {
    let declared =
        anchor_lang::prelude::Pubkey::from_str("5WueEVLErzfDRck9tRxBijEfU8Q3XL2bLPXdoGEXLJTj")
            .unwrap();
    assert_eq!(id().to_bytes(), declared.to_bytes());
}

#[test]
fn derived_address_of_a_known_owner() {
    let (address, bump) = find_portfolio_address(&key(0), &id()).unwrap();
    assert_eq!(bump, 251);
    assert_eq!(
        address.to_bytes(),
        [
            98, 110, 41, 231, 39, 228, 38, 81, 135, 118, 209, 164, 193, 77, 7, 62, 157, 211, 207,
            121, 222, 235, 53, 233, 232, 136, 82, 136, 170, 20, 233, 128
        ]
    );
    let (address, bump) = find_portfolio_address(&key(2), &id()).unwrap();
    assert_eq!(bump, 253);
    assert_eq!(
        address.to_bytes(),
        [
            38, 255, 32, 103, 195, 224, 154, 16, 175, 120, 154, 172, 185, 102, 135, 124, 209,
            119, 44, 159, 229, 72, 170, 184, 106, 204, 122, 118, 122, 111, 5, 250
        ]
    );
}

#[test]
fn derived_address_agrees_with_the_derivation_on_its_seeds() {
    let program = anchor_lang::prelude::Pubkey::new_from_array(id().to_bytes());
    for fill in 0..20u8 {
        let owner = key(fill);
        let expected = anchor_lang::prelude::Pubkey::find_program_address(
            &[b"portfolio", &owner.to_bytes()],
            &program,
        );
        let (address, bump) = find_portfolio_address(&owner, &id()).unwrap();
        assert_eq!(address.to_bytes(), expected.0.to_bytes());
        assert_eq!(bump, expected.1);
        assert_ne!(address, owner);
    }
}

#[test]
fn derived_address_depends_on_owner_and_program() {
    let first = find_portfolio_address(&key(1), &id()).unwrap();
    let second = find_portfolio_address(&key(2), &id()).unwrap();
    let elsewhere = find_portfolio_address(&key(1), &key(1)).unwrap();
    assert_ne!(first.0, second.0);
    assert_ne!(first.0, elsewhere.0);
    assert_eq!(find_portfolio_address(&key(1), &id()).unwrap(), first);
}

#[test]
fn record_is_created_with_the_derived_bump() {
    let owner = key(0);
    let (_, bump) = find_portfolio_address(&owner, &id()).unwrap();
    let mut store = Store::new();
    assert_eq!(store.initialize(owner, bump), Ok(()));
    assert_eq!(store.load(&owner).unwrap().bump, 251);
}
