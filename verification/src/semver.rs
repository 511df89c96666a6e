//! Protocol versions and the compatibility gate.
//!
//! A stored contract carries the protocol version it was stored under.
//! Before such a contract runs, the engine compares the major
//! component of the caller's requested version against the stored major
//! component: equal majors are compatible, anything else aborts the call
//! before any code runs. Minor and patch differences never matter.

use vstd::prelude::*;

verus! {

/// A protocol version: a (major, minor, patch) triple identifying a ruleset.
#[derive(Debug, Clone, Copy, PartialEq, Eq, Structural)]
pub struct ProtocolVersion {
    pub major: u32,
    pub minor: u32,
    pub patch: u32,
}

/// Raised when a stored contract has a different major
/// version than the one the caller requested. `expected` is the requested
/// major, `actual` the stored major.
#[derive(Debug, Clone, Copy, PartialEq, Eq, Structural)]
pub enum GateError {
    IncompatibleProtocolMajorVersion { expected: u32, actual: u32 },
}

impl ProtocolVersion {
    /// Builds the version `major.minor.patch`.
    pub fn new(major: u32, minor: u32, patch: u32) -> (v: ProtocolVersion)
        ensures
            v == (ProtocolVersion { major, minor, patch }),
    {
        ProtocolVersion { major, minor, patch }
    }

    /// True iff code stored under version `self` may run at requested version `requested`:
    /// the majors are equal. Minor and patch mismatches are always compatible.
    pub fn is_compatible_with(&self, requested: &ProtocolVersion) -> (r: bool)
        ensures
            r == (self.major == requested.major),
    {
        self.major == requested.major
    }
}

/// The compatibility gate. `requested` is the protocol version the deploy
/// asks for, `stored_version` the one the stored contract or payment module was
/// stored under. Returns `Ok` exactly when the majors agree; otherwise the
/// structured error carries the requested major as `expected` and the
/// stored major as `actual`.
pub fn check_compatibility(requested: &ProtocolVersion, stored_version: &ProtocolVersion) -> (r: Result<
    (),
    GateError,
>)
    ensures
        r is Ok <==> stored_version.major == requested.major,
        r matches Err(e) ==> e == (GateError::IncompatibleProtocolMajorVersion {
            expected: requested.major,
            actual: stored_version.major,
        }),
{
    if stored_version.major == requested.major {
        Ok(())
    } else {
        Err(
            GateError::IncompatibleProtocolMajorVersion {
                expected: requested.major,
                actual: stored_version.major,
            },
        )
    }
}

} // verus!
