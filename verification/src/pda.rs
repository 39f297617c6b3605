//! The program's address and the derivation of program addresses.
use vstd::prelude::*;
use solana_program::pubkey::Pubkey;
use crate::key::Key;

verus! {

/// The address of the donation program, `CVwg4yLYEW3WxHNPYo3ZtTcvYPnevm99DNwj8KeoVaAE`.
pub const ID: Key = [
    170, 218, 163, 115, 11, 16, 48, 163, 221, 9, 185, 221, 241, 39, 0, 8, 165, 4, 77, 85, 117, 160,
    25, 141, 134, 182, 212, 57, 229, 4, 189, 27,
];

/// The address of the donation program.
pub fn id() -> (r: Key)
    ensures
        r == ID,
{
    ID
}

/// The seed of the program's storage address.
pub const STORAGE_SEED: &'static str = "storage";

/// The program address that `Pubkey::try_find_program_address` derives from
/// the single seed `seed` (as UTF-8 bytes) and `program_id`, with its bump seed;
/// `None` where no bump seed from 255 down to 1 gives an address off the curve,
/// or where the seed is longer than 32 bytes.
pub uninterp spec fn spec_try_find_program_address(seed: Seq<char>, program_id: Seq<u8>) -> Option<
    (Seq<u8>, u8),
>;

/// A found program address, with its key read as bytes.
pub open spec fn found_address_view(r: Option<(Key, u8)>) -> Option<(Seq<u8>, u8)> {
    match r {
        Some(p) => Some((p.0@, p.1)),
        None => None,
    }
}

/// Calls `Pubkey::try_find_program_address` with the single seed `seed` and the
/// program `program_id`. The search hashes the seeds, the bump seed and the
/// program id, so its result depends on these alone; this item claims no more
/// than that the result is `spec_try_find_program_address` of its arguments.
#[verifier::external_body]
pub(crate) fn try_find_program_address(seed: &str, program_id: &Key) -> (r: Option<(Key, u8)>)
    ensures
        found_address_view(r) == spec_try_find_program_address(seed@, program_id@),
{
    match Pubkey::try_find_program_address(&[seed.as_bytes()], &Pubkey::new_from_array(*program_id)) {
        Some(p) => Some((p.0.to_bytes(), p.1)),
        None => None,
    }
}

} // verus!
