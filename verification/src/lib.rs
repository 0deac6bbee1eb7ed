use vstd::prelude::*;

pub mod account;
pub mod binary64;
pub mod broker;
pub mod bytes;
pub mod cli;
pub mod client;
pub mod clock;
pub mod codec;
pub mod connection;
pub mod duration;
pub mod environment;
pub mod framing;
pub mod guarantees;
pub mod json;
pub mod process;
pub mod protocol;
pub mod records;
pub mod runtime;
pub mod signals;
pub mod spawn;
pub mod startup;
pub mod status;

pub use crate::cli::run;

verus! {

/// The version of the program, which the broker reports.
pub const VERSION: &'static str = "0.1.0";

} // verus!
