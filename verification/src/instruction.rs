//! Instructions of the donation program and their wire format.
//!
//! An instruction is a borsh enum: one tag byte (0 donate, 1 withdraw,
//! 2 initialize), then the little-endian `u64` amount of the first two; the data
//! must end exactly there.
use vstd::prelude::*;
use crate::bytes::{
    borsh_read_u64, borsh_write_u64, le_u64, lemma_u64_bytes_roundtrip,
    lemma_u64_value_roundtrip, u64_le_bytes,
};
use crate::error::DecodeError;

verus! {

/// An instruction of the donation program.
#[derive(Debug, Clone, PartialEq, Eq, Structural)]
pub enum DonationInstruction {
    /// Make a donation.
    /// Accounts:
    /// 0. `[signer]` donator account
    /// 1. `[writable]` donating account
    /// 2. `[writable]` storage account, PDA
    Donate { lamports: u64 },
    /// Withdraw donation.
    /// Accounts:
    /// 0. `[signer]` donating account
    /// 1. `[writable]` donating withdraw wallet account
    /// 2. `[]` storage account, PDA
    /// 3. `[]` system
    Withdraw { lamports: u64 },
    /// Initialize.
    /// Accounts:
    /// 0. `[signer]` donating account
    /// 1. `[writable]` donating withdraw wallet account
    /// 2. `[writable]` storage account, PDA
    /// 3. `[]` rent
    /// 4. `[]` system
    Initialize,
}

/// What decoding `b` as an instruction gives.
pub open spec fn decode_instruction(b: Seq<u8>) -> Result<DonationInstruction, DecodeError> {
    if b.len() == 0 {
        Err(DecodeError::UnexpectedLength)
    } else if b[0] == 0 || b[0] == 1 {
        if b.len() < 9 {
            Err(DecodeError::UnexpectedLength)
        } else if b.len() > 9 {
            Err(DecodeError::NotAllBytesRead)
        } else if b[0] == 0 {
            Ok(DonationInstruction::Donate { lamports: le_u64(b.subrange(1, 9)) })
        } else {
            Ok(DonationInstruction::Withdraw { lamports: le_u64(b.subrange(1, 9)) })
        }
    } else if b[0] == 2 {
        if b.len() > 1 {
            Err(DecodeError::NotAllBytesRead)
        } else {
            Ok(DonationInstruction::Initialize)
        }
    } else {
        Err(DecodeError::UnexpectedVariant(b[0]))
    }
}

/// The bytes of an instruction.
pub open spec fn encode_instruction(i: DonationInstruction) -> Seq<u8> {
    match i {
        DonationInstruction::Donate { lamports } => seq![0u8] + u64_le_bytes(lamports),
        DonationInstruction::Withdraw { lamports } => seq![1u8] + u64_le_bytes(lamports),
        DonationInstruction::Initialize => seq![2u8],
    }
}

/// Decoding the bytes of an instruction gives the instruction.
pub proof fn lemma_instruction_roundtrip(i: DonationInstruction)
    ensures
        decode_instruction(encode_instruction(i)) == Ok::<DonationInstruction, DecodeError>(i),
{
    match i {
        DonationInstruction::Donate { lamports } => {
            lemma_u64_value_roundtrip(lamports);
            assert((seq![0u8] + u64_le_bytes(lamports)).subrange(1, 9) =~= u64_le_bytes(lamports));
        },
        DonationInstruction::Withdraw { lamports } => {
            lemma_u64_value_roundtrip(lamports);
            assert((seq![1u8] + u64_le_bytes(lamports)).subrange(1, 9) =~= u64_le_bytes(lamports));
        },
        DonationInstruction::Initialize => {},
    }
}

/// The encoding is canonical: bytes that decode are the bytes of what they decode to.
pub proof fn lemma_instruction_canonical(b: Seq<u8>)
    ensures
        decode_instruction(b) matches Ok(i) ==> encode_instruction(i) == b,
{
    if b.len() == 9 && (b[0] == 0 || b[0] == 1) {
        lemma_u64_bytes_roundtrip(b.subrange(1, 9));
        assert(seq![b[0]] + b.subrange(1, 9) =~= b);
    } else if b.len() == 1 && b[0] == 2 {
        assert(seq![2u8] =~= b);
    }
}

impl DonationInstruction {
    /// Decodes an instruction from the whole of `data`.
    pub fn try_from_slice(data: &[u8]) -> (r: Result<DonationInstruction, DecodeError>)
        ensures
            r == decode_instruction(data@),
    {
        if data.len() == 0 {
            return Err(DecodeError::UnexpectedLength);
        }
        let tag = data[0];
        if tag == 0 || tag == 1 {
            if data.len() < 9 {
                return Err(DecodeError::UnexpectedLength);
            }
            let lamports = match borsh_read_u64(data, 1) {
                Some(v) => v,
                None => {
                    return Err(DecodeError::UnexpectedLength);
                },
            };
            if data.len() > 9 {
                return Err(DecodeError::NotAllBytesRead);
            }
            if tag == 0 {
                Ok(DonationInstruction::Donate { lamports })
            } else {
                Ok(DonationInstruction::Withdraw { lamports })
            }
        } else if tag == 2 {
            if data.len() > 1 {
                Err(DecodeError::NotAllBytesRead)
            } else {
                Ok(DonationInstruction::Initialize)
            }
        } else {
            Err(DecodeError::UnexpectedVariant(tag))
        }
    }

    /// The bytes of the instruction.
    pub fn try_to_vec(&self) -> (r: Vec<u8>)
        ensures
            r@ == encode_instruction(*self),
    {
        let (tag, amount): (u8, Option<u64>) = match self {
            DonationInstruction::Donate { lamports } => (0, Some(*lamports)),
            DonationInstruction::Withdraw { lamports } => (1, Some(*lamports)),
            DonationInstruction::Initialize => (2, None),
        };
        let mut out: Vec<u8> = Vec::new();
        out.push(tag);
        if let Some(l) = amount {
            let mut b = borsh_write_u64(l);
            out.append(&mut b);
        }
        assert(out@ =~= encode_instruction(*self));
        out
    }
}

} // verus!
