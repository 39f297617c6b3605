//! What a program reads of the accounts passed to it, and the effects it asks the
//! runtime to carry out.
use vstd::prelude::*;
use crate::error::ProgramError;
use crate::key::Key;

verus! {

/// The part of an account that the programs read.
#[derive(Debug, Clone)]
pub struct AccountState {
    /// The account's address.
    pub key: Key,
    /// Whether the account signed the transaction.
    pub is_signer: bool,
    /// The account's data.
    pub data: Vec<u8>,
}

/// An effect of an instruction. Accounts are named by their position in the
/// accounts passed to the instruction. Effects are carried out in order; the
/// first that fails ends the instruction with its error.
#[derive(Debug, Clone, PartialEq, Eq)]
pub enum Action {
    /// Replace the data of `account` with `data` (of the same length).
    WriteData { account: usize, data: Vec<u8> },
    /// Invoke the system program to move `lamports` from `from` to `to`, handing it
    /// the accounts `accounts`.
    Transfer { from: usize, to: usize, lamports: u64, accounts: Vec<usize> },
    /// Invoke the system program, signing for the program address of the storage
    /// seed and `bump`, to create `new_account` with `space` zeroed bytes owned by
    /// `owner`, funded by `payer` with the rent-exempt minimum that the rent
    /// sysvar account `rent` gives for `space`; the system program is handed the
    /// accounts `accounts`.
    CreateAccount {
        payer: usize,
        new_account: usize,
        rent: usize,
        space: u64,
        owner: Key,
        bump: u8,
        accounts: Vec<usize>,
    },
}

/// An effect, with its byte strings and account lists as sequences.
pub enum ActionView {
    WriteData { account: usize, data: Seq<u8> },
    Transfer { from: usize, to: usize, lamports: u64, accounts: Seq<usize> },
    CreateAccount {
        payer: usize,
        new_account: usize,
        rent: usize,
        space: u64,
        owner: Seq<u8>,
        bump: u8,
        accounts: Seq<usize>,
    },
}

impl View for Action {
    type V = ActionView;

    open spec fn view(&self) -> ActionView {
        match self {
            Action::WriteData { account, data } => ActionView::WriteData {
                account: *account,
                data: data@,
            },
            Action::Transfer { from, to, lamports, accounts } => ActionView::Transfer {
                from: *from,
                to: *to,
                lamports: *lamports,
                accounts: accounts@,
            },
            Action::CreateAccount { payer, new_account, rent, space, owner, bump, accounts } =>
                ActionView::CreateAccount {
                payer: *payer,
                new_account: *new_account,
                rent: *rent,
                space: *space,
                owner: owner@,
                bump: *bump,
                accounts: accounts@,
            },
        }
    }
}

/// A list of effects, viewed.
pub open spec fn actions_view(v: Seq<Action>) -> Seq<ActionView> {
    v.map_values(|a: Action| a@)
}

/// The outcome of an instruction, viewed.
pub open spec fn outcome_view(r: Result<Vec<Action>, ProgramError>) -> Result<
    Seq<ActionView>,
    ProgramError,
> {
    match r {
        Ok(v) => Ok(actions_view(v@)),
        Err(e) => Err(e),
    }
}

/// The outcome of an instruction that may abort (`None`), viewed.
pub open spec fn checked_outcome_view(r: Option<Result<Vec<Action>, ProgramError>>) -> Option<
    Result<Seq<ActionView>, ProgramError>,
> {
    match r {
        Some(o) => Some(outcome_view(o)),
        None => None,
    }
}

} // verus!
