//! Where a record is kept: an address derived from the owner's identity, with
//! the bump that the derivation settles on.

use vstd::prelude::*;
use crate::identity::Pubkey;

verus! {

/// What `Pubkey::try_find_program_address` of `anchor_lang` returns for the
/// given seeds and program identity: the derived address with its bump, or
/// nothing where no address can be derived.
pub uninterp spec fn program_address(seeds: Seq<Seq<u8>>, program_id: Seq<u8>) -> Option<
    (Seq<u8>, u8),
>;

/// The bytes that set the addresses of profile records apart from all other
/// addresses of the program: the word "portfolio".
pub open spec fn portfolio_seed() -> Seq<u8> {
    seq![112u8, 111u8, 114u8, 116u8, 102u8, 111u8, 108u8, 105u8, 111u8]
}

/// The bytes of the program's identity.
pub open spec fn program_id() -> Seq<u8> {
    seq![
        67u8, 24u8, 29u8, 20u8, 239u8, 51u8, 183u8, 91u8, 191u8, 164u8, 202u8, 226u8, 150u8,
        102u8, 50u8, 140u8, 144u8, 172u8, 234u8, 4u8, 168u8, 204u8, 150u8, 139u8, 190u8, 119u8,
        69u8, 103u8, 88u8, 186u8, 216u8, 42u8,
    ]
}

/// The address of the record of `owner` under `program`, with its bump.
pub open spec fn portfolio_address(owner: Seq<u8>, program: Seq<u8>) -> Option<(Seq<u8>, u8)> {
    program_address(seq![portfolio_seed(), owner], program)
}

/// `Pubkey::try_find_program_address` of `anchor_lang`, on two seeds. The
/// call hashes the seeds, a bump and the program identity, and tries bumps
/// from 255 downwards until the hash is no point of the curve; it depends on
/// nothing but its arguments, and the contract only gives its result a name.
#[verifier::external_body]
fn try_find_program_address(first: &[u8], second: &[u8], program: &Pubkey) -> (found: Option<
    (Pubkey, u8),
>)
    ensures
        match found {
            Some((address, bump)) => program_address(seq![first@, second@], program@) == Some(
                (address@, bump),
            ),
            None => program_address(seq![first@, second@], program@) is None,
        },
{
    let id = anchor_lang::prelude::Pubkey::new_from_array(program.bytes);
    match anchor_lang::prelude::Pubkey::try_find_program_address(&[first, second], &id) {
        Some((address, bump)) => Some((Pubkey { bytes: address.to_bytes() }, bump)),
        None => None,
    }
}

/// The identity of the program under which records are kept.
pub fn id() -> (key: Pubkey)
    ensures
        key@ == program_id(),
{
    let bytes: [u8; 32] = [
        67, 24, 29, 20, 239, 51, 183, 91, 191, 164, 202, 226, 150, 102, 50, 140, 144, 172, 234, 4,
        168, 204, 150, 139, 190, 119, 69, 103, 88, 186, 216, 42,
    ];
    assert(bytes@ =~= program_id());
    Pubkey { bytes }
}

/// Derives the address of the record of `owner` under `program`, and the
/// bump that goes into the record when it is created.
pub fn find_portfolio_address(owner: &Pubkey, program: &Pubkey) -> (found: Option<(Pubkey, u8)>)
    ensures
        match found {
            Some((address, bump)) => portfolio_address(owner@, program@) == Some(
                (address@, bump),
            ),
            None => portfolio_address(owner@, program@) is None,
        },
{
    let seed: [u8; 9] = [112, 111, 114, 116, 102, 111, 108, 105, 111];
    assert(seed@ =~= portfolio_seed());
    try_find_program_address(seed.as_slice(), owner.bytes.as_slice(), program)
}

} // verus!
