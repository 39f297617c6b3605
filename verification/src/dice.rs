//! The dice game program: a player bets lamports on a throw of a die; a six
//! pays five times the bet from the casino, any other throw loses the bet to it.
use vstd::prelude::*;
use crate::account::{AccountState, Action, ActionView, checked_outcome_view, outcome_view};
use crate::bytes::{
    borsh_read_u32, borsh_write_u32, le_u32, lemma_u32_bytes_roundtrip, lemma_u32_value_roundtrip,
    u32_le_bytes,
};
use crate::error::{DecodeError, ProgramError};
use crate::key::Key;

verus! {

/// A bet: the lamports staked and the die thrown. Its bytes are the
/// little-endian `u32` stake followed by the die.
#[derive(Debug, Clone, Copy, PartialEq, Eq, Structural)]
pub struct Bid {
    pub lamports: u32,
    pub dice: u8,
}

/// What decoding `b` as a bet gives.
pub open spec fn decode_bid(b: Seq<u8>) -> Result<Bid, DecodeError> {
    if b.len() < 5 {
        Err(DecodeError::UnexpectedLength)
    } else if b.len() > 5 {
        Err(DecodeError::NotAllBytesRead)
    } else {
        Ok(Bid { lamports: le_u32(b.subrange(0, 4)), dice: b[4] })
    }
}

/// The bytes of a bet.
pub open spec fn encode_bid(bid: Bid) -> Seq<u8> {
    u32_le_bytes(bid.lamports).push(bid.dice)
}

/// Decoding the bytes of a bet gives the bet.
pub proof fn lemma_bid_roundtrip(bid: Bid)
    ensures
        decode_bid(encode_bid(bid)) == Ok::<Bid, DecodeError>(bid),
{
    lemma_u32_value_roundtrip(bid.lamports);
    assert(encode_bid(bid).subrange(0, 4) =~= u32_le_bytes(bid.lamports));
}

/// Bytes that decode as a bet are the bytes of that bet.
pub proof fn lemma_bid_canonical(b: Seq<u8>)
    ensures
        decode_bid(b) matches Ok(bid) ==> encode_bid(bid) == b,
{
    if b.len() == 5 {
        lemma_u32_bytes_roundtrip(b.subrange(0, 4));
        assert(b.subrange(0, 4).push(b[4]) =~= b);
    }
}

impl Bid {
    /// Decodes a bet from the whole of `data`.
    pub fn try_from_slice(data: &[u8]) -> (r: Result<Bid, DecodeError>)
        ensures
            r == decode_bid(data@),
    {
        if data.len() < 5 {
            return Err(DecodeError::UnexpectedLength);
        }
        let lamports = match borsh_read_u32(data, 0) {
            Some(v) => v,
            None => {
                return Err(DecodeError::UnexpectedLength);
            },
        };
        if data.len() > 5 {
            return Err(DecodeError::NotAllBytesRead);
        }
        Ok(Bid { lamports, dice: data[4] })
    }

    /// The bytes of the bet.
    pub fn try_to_vec(&self) -> (r: Vec<u8>)
        ensures
            r@ == encode_bid(*self),
    {
        let mut out = borsh_write_u32(self.lamports);
        out.push(self.dice);
        out
    }
}

/// What the dice program does with `accounts` (player, casino) and instruction
/// data `data`; `None` where it aborts: a winning stake whose fivefold passes
/// `u32::MAX`.
pub open spec fn spec_dice(accounts: Seq<AccountState>, data: Seq<u8>) -> Option<
    Result<Seq<ActionView>, ProgramError>,
> {
    match decode_bid(data) {
        Err(e) => Some(Err(ProgramError::BorshIoError(e))),
        Ok(bid) => if accounts.len() < 2 {
            Some(Err(ProgramError::NotEnoughAccountKeys))
        } else if bid.dice != 6 {
            Some(
                Ok(
                    seq![
                        ActionView::Transfer {
                            from: 0,
                            to: 1,
                            lamports: bid.lamports as u64,
                            accounts: seq![0usize, 1usize],
                        },
                    ],
                ),
            )
        } else if bid.lamports * 5 > u32::MAX {
            None
        } else {
            Some(
                Ok(
                    seq![
                        ActionView::Transfer {
                            from: 1,
                            to: 0,
                            lamports: (bid.lamports * 5) as u64,
                            accounts: seq![1usize, 0usize],
                        },
                    ],
                ),
            )
        },
    }
}

/// A bet that plays settles with one transfer: a six makes the casino (account 1)
/// pay the player (account 0) five times the stake; any other throw makes the
/// player pay the stake to the casino.
pub proof fn lemma_dice_payout(accounts: Seq<AccountState>, data: Seq<u8>)
    ensures
        spec_dice(accounts, data) matches Some(Ok(acts)) ==> {
            let bid = decode_bid(data).unwrap();
            &&& decode_bid(data) is Ok
            &&& acts.len() == 1
            &&& bid.dice == 6 ==> (acts[0] matches ActionView::Transfer { from, to, lamports, .. }
                && from == 1 && to == 0 && lamports == 5 * bid.lamports)
            &&& bid.dice != 6 ==> (acts[0] matches ActionView::Transfer { from, to, lamports, .. }
                && from == 0 && to == 1 && lamports == bid.lamports)
        },
{
}

/// Every five-byte bet with at least two accounts plays: the stake is the
/// little-endian `u32` in the first four bytes and the die is the fifth. A throw
/// other than six makes account 0 (the player) pay the stake to account 1 (the
/// casino); a six makes the casino pay the player five times the stake, and the
/// program aborts only where that product passes `u32::MAX`. Bytes of any other
/// length are refused with a decoding error.
pub proof fn lemma_dice_complete(accounts: Seq<AccountState>, data: Seq<u8>)
    requires
        accounts.len() >= 2,
    ensures
        ({
            let stake = le_u32(data.subrange(0, 4));
            &&& data.len() == 5 && data[4] != 6 ==> spec_dice(accounts, data) == Some(
                Ok::<Seq<ActionView>, ProgramError>(
                    seq![
                        ActionView::Transfer {
                            from: 0,
                            to: 1,
                            lamports: stake as u64,
                            accounts: seq![0usize, 1usize],
                        },
                    ],
                ),
            )
            &&& data.len() == 5 && data[4] == 6 && 5 * stake <= u32::MAX ==> spec_dice(
                accounts,
                data,
            ) == Some(
                Ok::<Seq<ActionView>, ProgramError>(
                    seq![
                        ActionView::Transfer {
                            from: 1,
                            to: 0,
                            lamports: (5 * stake) as u64,
                            accounts: seq![1usize, 0usize],
                        },
                    ],
                ),
            )
            &&& data.len() == 5 && data[4] == 6 && 5 * stake > u32::MAX ==> spec_dice(
                accounts,
                data,
            ) is None
            &&& data.len() < 5 ==> spec_dice(accounts, data) == Some(
                Err::<Seq<ActionView>, ProgramError>(
                    ProgramError::BorshIoError(DecodeError::UnexpectedLength),
                ),
            )
            &&& data.len() > 5 ==> spec_dice(accounts, data) == Some(
                Err::<Seq<ActionView>, ProgramError>(
                    ProgramError::BorshIoError(DecodeError::NotAllBytesRead),
                ),
            )
        }),
{
}

/// Plays a bet: decodes it, and returns the transfer that settles it or the
/// error the instruction ends with.
pub fn process_instruction(
    _program_id: &Key,
    accounts: &[AccountState],
    instruction_data: &[u8],
) -> (r: Result<Vec<Action>, ProgramError>)
    requires
        spec_dice(accounts@, instruction_data@) is Some,
    ensures
        Some(outcome_view(r)) == spec_dice(accounts@, instruction_data@),
{
    let bid = match Bid::try_from_slice(instruction_data) {
        Ok(b) => b,
        Err(e) => {
            return Err(ProgramError::BorshIoError(e));
        },
    };
    if accounts.len() < 2 {
        return Err(ProgramError::NotEnoughAccountKeys);
    }
    let r = if bid.dice != 6 {
        vec![Action::Transfer { from: 0, to: 1, lamports: bid.lamports as u64, accounts: vec![0, 1] }]
    } else {
        vec![
            Action::Transfer {
                from: 1,
                to: 0,
                lamports: (bid.lamports * 5) as u64,
                accounts: vec![1, 0],
            },
        ]
    };
    proof {
        let s = spec_dice(accounts@, instruction_data@).unwrap().unwrap();
        assert(crate::account::actions_view(r@) =~= s);
    }
    Ok(r)
}

/// Plays a bet as `process_instruction` does, or returns `None` where the program
/// aborts instead (and `process_instruction` cannot be called).
pub fn try_process_instruction(
    program_id: &Key,
    accounts: &[AccountState],
    instruction_data: &[u8],
) -> (r: Option<Result<Vec<Action>, ProgramError>>)
    ensures
        checked_outcome_view(r) == spec_dice(accounts@, instruction_data@),
{
    if let Ok(bid) = Bid::try_from_slice(instruction_data) {
        if accounts.len() >= 2 && bid.dice == 6 && bid.lamports > u32::MAX / 5 {
            return None;
        }
    }
    Some(process_instruction(program_id, accounts, instruction_data))
}

} // verus!
