//! Start-up checks on the command line flags.

use vstd::prelude::*;

verus! {

/// Why the flags were refused.
#[derive(Clone, Copy, Debug, PartialEq, Eq, Structural)]
pub enum FlagsError {
    /// Neither transport was switched on, so the server could not listen at all.
    NoTransport,
}

impl FlagsError {
    /// The text shown to the operator.
    pub fn message(&self) -> (text: String)
        ensures
            text@ == "at least one of TCP or UDP must be enabled"@,
    {
        "at least one of TCP or UDP must be enabled".to_owned()
    }
}

/// Accepts the flags when at least one of the two transports is enabled.
pub fn check_flags(tcp: bool, udp: bool) -> (checked: Result<(), FlagsError>)
    ensures
        checked.is_ok() <==> tcp || udp,
        checked.is_err() ==> checked == Err::<(), FlagsError>(FlagsError::NoTransport),
{
    if !tcp && !udp {
        return Err(FlagsError::NoTransport);
    }
    Ok(())
}

} // verus!
