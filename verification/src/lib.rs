//! The decision-making core of a small command-line wallet: it creates
//! and reloads keypairs, validates addresses, converts whole-currency
//! amounts to integer minor units, keeps the persisted configuration
//! document, and turns the outcome of each remote call into the report
//! or the error the command shows.  Everything here is verified; the
//! thin shell around it does the file reads, the terminal and the
//! remote calls, and hands plain values in and out.

use vstd::prelude::*;

pub mod amount;
pub mod config;
pub mod errors;
pub mod keys;
pub mod ops;
pub mod text;

verus! {

/// One lamport is the smallest indivisible unit of the currency;
/// this many lamports make one whole SOL.
pub const LAMPORTS_PER_SOL: u64 = 1_000_000_000;

} // verus!
