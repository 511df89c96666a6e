//! Stored-code addressing and the version check in front of it.
//!
//! A deploy may name its session or payment code by the contract's hash, by
//! a name in the caller's named keys, or by a capability reference it
//! holds. A single resolution step turns any of the three into the
//! contract's hash, and only then does the compatibility check compare the
//! caller's requested protocol version against the version the contract was
//! stored under — the addressing mode never influences the decision. Each
//! executed deploy yields an [`ExecutionResult`]: its transforms log with
//! the gas cost, or the error that stopped it with the cost charged so far.

use vstd::prelude::*;

use crate::protocol_data::{hash_eq, ContractHash};
use crate::semver::{check_compatibility, GateError, ProtocolVersion};
use crate::transform::Transform;

verus! {

/// How a deploy addresses stored code: by the contract's hash, by a name in
/// the caller's named keys, or by a capability reference the caller holds.
#[derive(Debug)]
pub enum DeployTarget {
    ByHash(ContractHash),
    ByName(String),
    ByUref(u64),
}

/// Why a stored-code call was rejected before any code ran.
#[derive(Debug, Clone, Copy, PartialEq, Eq, Structural)]
pub enum DeployError {
    /// The target resolved to nothing, or the resolved contract is not
    /// stored.
    NotFound,
    /// The contract was stored under a different major version than the
    /// deploy requested.
    IncompatibleProtocolMajorVersion { expected: u32, actual: u32 },
}

/// The hash `target` denotes: itself for direct addressing, the first
/// binding of the name among the named keys, or the first binding of the
/// capability reference.
pub open spec fn spec_resolve_target(
    named_keys: Seq<(Seq<char>, ContractHash)>,
    uref_keys: Seq<(u64, ContractHash)>,
    target: DeployTarget,
) -> Option<ContractHash> {
    match target {
        DeployTarget::ByHash(h) => Some(h),
        DeployTarget::ByName(n) => spec_assoc_find(named_keys, n@),
        DeployTarget::ByUref(u) => spec_assoc_find(uref_keys, u),
    }
}

/// The first value bound to `key`, if any.
pub open spec fn spec_assoc_find<K, V>(entries: Seq<(K, V)>, key: K) -> Option<V>
    decreases entries.len(),
{
    if entries.len() == 0 {
        None
    } else if entries[0].0 == key {
        Some(entries[0].1)
    } else {
        spec_assoc_find(entries.drop_first(), key)
    }
}

/// The version recorded for the contract at `hash`, compared by the
/// hash's bytes.
pub open spec fn spec_find_stored_version(
    store: Seq<(ContractHash, ProtocolVersion)>,
    hash: ContractHash,
) -> Option<ProtocolVersion>
    decreases store.len(),
{
    if store.len() == 0 {
        None
    } else if store[0].0@ == hash@ {
        Some(store[0].1)
    } else {
        spec_find_stored_version(store.drop_first(), hash)
    }
}

/// What gating a stored call yields: the resolved contract hash when the
/// target resolves, the contract is stored, and its stored major version
/// equals the requested one; otherwise the exact rejection.
pub open spec fn spec_gate_stored_call(
    store: Seq<(ContractHash, ProtocolVersion)>,
    named_keys: Seq<(Seq<char>, ContractHash)>,
    uref_keys: Seq<(u64, ContractHash)>,
    target: DeployTarget,
    requested: ProtocolVersion,
) -> Result<ContractHash, DeployError> {
    match spec_resolve_target(named_keys, uref_keys, target) {
        None => Err(DeployError::NotFound),
        Some(h) => match spec_find_stored_version(store, h) {
            None => Err(DeployError::NotFound),
            Some(stored_version) => if stored_version.major == requested.major {
                Ok(h)
            } else {
                Err(
                    DeployError::IncompatibleProtocolMajorVersion {
                        expected: requested.major,
                        actual: stored_version.major,
                    },
                )
            },
        },
    }
}

/// The mathematical content of the caller's named keys.
pub open spec fn named_keys_view(s: Seq<(String, ContractHash)>) -> Seq<(Seq<char>, ContractHash)> {
    s.map_values(|p: (String, ContractHash)| (p.0@, p.1))
}

/// Resolves a deploy target to the contract hash it denotes: the hash
/// itself, the hash bound to the name among the caller's named keys, or the
/// hash bound to the capability reference.
pub fn resolve_target(
    named_keys: &Vec<(String, ContractHash)>,
    uref_keys: &Vec<(u64, ContractHash)>,
    target: &DeployTarget,
) -> (r: Option<ContractHash>)
    ensures
        target matches DeployTarget::ByHash(h) ==> r == Some::<ContractHash>(*h),
        target matches DeployTarget::ByName(n) ==> r == spec_assoc_find(
            named_keys_view(named_keys@),
            n@,
        ),
        target matches DeployTarget::ByUref(u) ==> r == spec_assoc_find(uref_keys@, *u),
{
    match target {
        DeployTarget::ByHash(h) => Some(*h),
        DeployTarget::ByName(n) => {
            let ghost entries = named_keys_view(named_keys@);
            proof {
                assert(entries.skip(0) =~= entries);
            }
            let mut i: usize = 0;
            while i < named_keys.len()
                invariant
                    target matches DeployTarget::ByName(x) && x == n,
                    i <= named_keys@.len(),
                    entries == named_keys_view(named_keys@),
                    entries.len() == named_keys@.len(),
                    forall|idx: int| 0 <= idx < named_keys@.len() ==> entries[idx] == (
                        named_keys@[idx].0@,
                        named_keys@[idx].1,
                    ),
                    spec_assoc_find(entries, n@) == spec_assoc_find(
                        entries.skip(i as int),
                        n@,
                    ),
                decreases named_keys@.len() - i,
            {
                proof {
                    assert(entries.skip(i as int)[0] == entries[i as int]);
                    assert(entries.skip(i as int).drop_first() =~= entries.skip(i as int + 1));
                }
                if named_keys[i].0 == *n {
                    proof {
                        assert(entries.skip(i as int)[0].0 == n@);
                        assert(spec_assoc_find(entries.skip(i as int), n@) == Some::<ContractHash>(
                            named_keys@[i as int].1,
                        ));
                    }
                    return Some(named_keys[i].1);
                }
                i = i + 1;
            }
            proof {
                assert(entries.skip(named_keys@.len() as int) =~= Seq::<
                    (Seq<char>, ContractHash),
                >::empty());
            }
            None
        },
        DeployTarget::ByUref(u) => {
            proof {
                assert(uref_keys@.skip(0) =~= uref_keys@);
            }
            let mut i: usize = 0;
            while i < uref_keys.len()
                invariant
                    target matches DeployTarget::ByUref(x) && x == u,
                    i <= uref_keys@.len(),
                    spec_assoc_find(uref_keys@, *u) == spec_assoc_find(
                        uref_keys@.skip(i as int),
                        *u,
                    ),
                decreases uref_keys@.len() - i,
            {
                proof {
                    assert(uref_keys@.skip(i as int)[0] == uref_keys@[i as int]);
                    assert(uref_keys@.skip(i as int).drop_first() =~= uref_keys@.skip(
                        i as int + 1,
                    ));
                }
                if uref_keys[i].0 == *u {
                    proof {
                        assert(spec_assoc_find(uref_keys@.skip(i as int), *u) == Some::<
                            ContractHash,
                        >(uref_keys@[i as int].1));
                    }
                    return Some(uref_keys[i].1);
                }
                i = i + 1;
            }
            proof {
                assert(uref_keys@.skip(uref_keys@.len() as int) =~= Seq::<
                    (u64, ContractHash),
                >::empty());
            }
            None
        },
    }
}

/// The version the store records for the contract at `hash`.
pub fn find_stored_version(store: &Vec<(ContractHash, ProtocolVersion)>, hash: &ContractHash) -> (r: Option<
    ProtocolVersion,
>)
    ensures
        r == spec_find_stored_version(store@, *hash),
{
    proof {
        assert(store@.skip(0) =~= store@);
    }
    let mut i: usize = 0;
    while i < store.len()
        invariant
            i <= store@.len(),
            spec_find_stored_version(store@, *hash) == spec_find_stored_version(store@.skip(i as int), *hash),
        decreases store@.len() - i,
    {
        proof {
            assert(store@.skip(i as int)[0] == store@[i as int]);
            assert(store@.skip(i as int).drop_first() =~= store@.skip(i as int + 1));
        }
        if hash_eq(&store[i].0, hash) {
            return Some(store[i].1);
        }
        i = i + 1;
    }
    proof {
        assert(store@.skip(store@.len() as int) =~= Seq::<(ContractHash, ProtocolVersion)>::empty());
    }
    None
}

/// Gates a call to stored code, whatever its addressing mode.
///
/// The target is resolved to a contract hash, the version it was stored under is looked
/// up, and the call is admitted exactly when the stored major version
/// equals the requested one. Rejection happens before any code runs: an
/// unresolvable or unstored target is `NotFound`, a major-version mismatch
/// carries the requested major as `expected` and the stored one as `actual`.
pub fn gate_stored_call(
    store: &Vec<(ContractHash, ProtocolVersion)>,
    named_keys: &Vec<(String, ContractHash)>,
    uref_keys: &Vec<(u64, ContractHash)>,
    target: &DeployTarget,
    requested: &ProtocolVersion,
) -> (r: Result<ContractHash, DeployError>)
    ensures
        r == spec_gate_stored_call(
            store@,
            named_keys_view(named_keys@),
            uref_keys@,
            *target,
            *requested,
        ),
{
    let resolved = match resolve_target(named_keys, uref_keys, target) {
        None => {
            return Err(DeployError::NotFound);
        },
        Some(h) => h,
    };
    let stored_version = match find_stored_version(store, &resolved) {
        None => {
            return Err(DeployError::NotFound);
        },
        Some(s) => s,
    };
    match check_compatibility(requested, &stored_version) {
        Ok(()) => Ok(resolved),
        Err(GateError::IncompatibleProtocolMajorVersion { expected, actual }) => Err(
            DeployError::IncompatibleProtocolMajorVersion { expected, actual },
        ),
    }
}

/// What one executed deploy came to: on success its transforms log — the
/// deploy's externally observable effect, immutable once committed — with
/// the gas cost; on failure the error kind with the cost charged up to the
/// failure point.
#[derive(Debug)]
pub enum ExecutionResult {
    Success { transforms: Vec<(u64, Transform)>, cost: u64 },
    Failure { error: DeployError, cost: u64 },
}

impl ExecutionResult {
    /// Whether the deploy succeeded.
    pub fn is_success(&self) -> (r: bool)
        ensures
            r == (self is Success),
    {
        match self {
            ExecutionResult::Success { .. } => true,
            ExecutionResult::Failure { .. } => false,
        }
    }

    /// The gas cost charged for the deploy, up to its failure point if it
    /// failed.
    pub fn cost(&self) -> (r: u64)
        ensures
            self matches ExecutionResult::Success { cost, .. } ==> r == cost,
            self matches ExecutionResult::Failure { cost, .. } ==> r == cost,
    {
        match self {
            ExecutionResult::Success { cost, .. } => *cost,
            ExecutionResult::Failure { cost, .. } => *cost,
        }
    }
}

} // verus!
