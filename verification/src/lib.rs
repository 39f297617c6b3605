//! Verified core of two small Solana programs: a donation registry and a
//! dice game. The on-chain decisions (instruction decoding, storage layout,
//! account checks, bookkeeping and the transfers to perform) live here; the
//! runtime glue that performs the transfers lives outside the library.

pub mod account;
pub mod bid_text;
pub mod bytes;
pub mod dice;
pub mod error;
pub mod instruction;
pub mod key;
pub mod map;
pub mod pda;
pub mod processor;
pub mod state;
