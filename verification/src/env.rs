use vstd::prelude::*;

verus! {

/// The outcome of the environment's identity check for the identity that a
/// mutating operation acts for.
#[derive(Clone, Copy, Debug, PartialEq, Eq, Structural)]
pub enum Authorization {
    /// The caller proved to be that identity.
    Granted,
    /// The caller did not.
    Denied,
}

/// What the environment supplies to one call: the outcome of the caller's
/// identity check and the reading of its clock.
#[derive(Clone, Copy, Debug, PartialEq, Eq, Structural)]
pub struct Env {
    pub authorization: Authorization,
    pub timestamp: u64,
}

impl Env {
    /// The environment of a call whose caller was checked with the given
    /// outcome at the given time.
    pub fn new(authorization: Authorization, timestamp: u64) -> (env: Self)
        ensures
            env.authorization == authorization,
            env.timestamp == timestamp,
    {
        Env { authorization, timestamp }
    }
}

} // verus!
