//! The signals that requests and children are ended with.
use vstd::prelude::*;

verus! {

/// The signals that a caller of `opp` can end its command with: hang-up,
/// interrupt, quit and terminate.
pub open spec fn caller_signal(signal: i32) -> bool {
    signal == 1 || signal == 2 || signal == 3 || signal == 15
}

/// `libc::SIGHUP`, which is 1 on macOS and on Linux.
#[verifier::external_body]
fn sighup() -> (signal: i32)
    ensures
        signal == 1,
{
    libc::SIGHUP
}

/// `libc::SIGINT`, which is 2 on macOS and on Linux.
#[verifier::external_body]
fn sigint() -> (signal: i32)
    ensures
        signal == 2,
{
    libc::SIGINT
}

/// `libc::SIGQUIT`, which is 3 on macOS and on Linux.
#[verifier::external_body]
fn sigquit() -> (signal: i32)
    ensures
        signal == 3,
{
    libc::SIGQUIT
}

/// `libc::SIGKILL`, which is 9 on macOS and on Linux.
#[verifier::external_body]
pub(crate) fn sigkill() -> (signal: i32)
    ensures
        signal == 9,
{
    libc::SIGKILL
}

/// `libc::SIGTERM`, which is 15 on macOS and on Linux.
#[verifier::external_body]
pub(crate) fn sigterm() -> (signal: i32)
    ensures
        signal == 15,
{
    libc::SIGTERM
}

/// A caller can send hang-up, interrupt, quit and terminate, and can send no
/// signal that cannot be caught.
pub proof fn callers_send_four_signals(signal: i32)
    ensures
        caller_signal(1) && caller_signal(2) && caller_signal(3) && caller_signal(15),
        caller_signal(signal) ==> 0 < signal < 16 && signal != 9,
        caller_signal(signal) ==> signal == 1 || signal == 2 || signal == 3 || signal == 15,
{
}

/// Whether a caller of `opp` can end its command with this signal.
pub fn is_caller_signal(signal: i32) -> (allowed: bool)
    ensures
        allowed == caller_signal(signal),
{
    signal == sighup() || signal == sigint() || signal == sigquit() || signal == sigterm()
}

} // verus!
