//! Error values of the programs.
use vstd::prelude::*;

verus! {

/// Why a byte string could not be read as a borsh value.
#[derive(Debug, Clone, Copy, PartialEq, Eq, Structural)]
pub enum DecodeError {
    /// The input ended before the value did.
    UnexpectedLength,
    /// The value was read but input bytes were left over.
    NotAllBytesRead,
    /// An enum tag that names no variant.
    UnexpectedVariant(u8),
}

/// The errors of the donation program that carry their own code.
#[derive(Debug, Copy, Clone, PartialEq, Eq, Structural)]
pub enum DonateError {
    /// The storage names another donating account.
    DonatingRequired,
    /// The storage account is not the program's storage address.
    WrongStoragePDA,
    /// The signer is not the donating account recorded in the storage.
    WrongDonatingAccount,
}

impl DonateError {
    /// The custom error code of the error: its position in the declaration.
    pub open spec fn spec_code(self) -> u32 {
        match self {
            DonateError::DonatingRequired => 0,
            DonateError::WrongStoragePDA => 1,
            DonateError::WrongDonatingAccount => 2,
        }
    }

    /// The custom error code of the error.
    pub fn code(&self) -> (r: u32)
        ensures
            r == self.spec_code(),
    {
        match self {
            DonateError::DonatingRequired => 0,
            DonateError::WrongStoragePDA => 1,
            DonateError::WrongDonatingAccount => 2,
        }
    }
}

/// The outcome of a failed instruction, as the runtime reports it.
#[derive(Debug, Clone, Copy, PartialEq, Eq, Structural)]
pub enum ProgramError {
    /// A program-defined error code.
    Custom(u32),
    /// A required signature is missing.
    MissingRequiredSignature,
    /// Fewer accounts were passed than the instruction reads.
    NotEnoughAccountKeys,
    /// Instruction or account data could not be decoded.
    BorshIoError(DecodeError),
}

impl From<DonateError> for ProgramError {
    fn from(e: DonateError) -> (r: Self) {
        ProgramError::Custom(e.code())
    }
}

impl vstd::std_specs::convert::FromSpecImpl<DonateError> for ProgramError {
    open spec fn obeys_from_spec() -> bool {
        true
    }

    open spec fn from_spec(e: DonateError) -> ProgramError {
        ProgramError::Custom(e.spec_code())
    }
}

} // verus!
