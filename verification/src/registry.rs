//! The versioned store of protocol records: one record per protocol version
//! ever activated, each with the activation point from which it is
//! authoritative, retained forever. Upgrade activation reads the current
//! version's record, applies the installer's address remap to a copy, and
//! files the copy under the new version — the prior record is never touched,
//! and a remap naming an unknown address fails the activation closed.

use vstd::prelude::*;

use crate::protocol_data::{spec_update_from, ContractHash, ProtocolData};
use crate::semver::ProtocolVersion;

verus! {

/// Why a registry operation failed. `NotFound`: no record was ever
/// activated for the version asked about. `AlreadyActivated`: a record for
/// the version exists and records are never overwritten. `InvalidUpgrade`:
/// the installer's remap named an address that is not a current system
/// contract, so the activation failed closed.
#[derive(Debug, Clone, Copy, PartialEq, Eq, Structural)]
pub enum RegistryError {
    NotFound,
    AlreadyActivated,
    InvalidUpgrade,
}

/// What an upgrade-orchestration collaborator hands over to activate a new
/// protocol version: the target version, the point (block height) from
/// which it is authoritative, and the address remapping its installer
/// reported — empty when no system contract was redeployed.
#[derive(Debug)]
pub struct UpgradeRequest {
    pub new_protocol_version: ProtocolVersion,
    pub activation_point: u64,
    pub remaps: Vec<(ContractHash, ContractHash)>,
}

/// The entry filed for `version`: its record and its activation point.
pub open spec fn spec_find(
    entries: Seq<(ProtocolVersion, ProtocolData, u64)>,
    version: ProtocolVersion,
) -> Option<(ProtocolData, u64)>
    decreases entries.len(),
{
    if entries.len() == 0 {
        None
    } else if entries[0].0 == version {
        Some((entries[0].1, entries[0].2))
    } else {
        spec_find(entries.drop_first(), version)
    }
}

/// The versioned registry: every protocol version ever activated, with its
/// record and activation point, in activation order.
pub struct ProtocolRegistry {
    entries: Vec<(ProtocolVersion, ProtocolData, u64)>,
}

impl View for ProtocolRegistry {
    type V = Seq<(ProtocolVersion, ProtocolData, u64)>;

    closed spec fn view(&self) -> Seq<(ProtocolVersion, ProtocolData, u64)> {
        self.entries@
    }
}

impl ProtocolRegistry {
    /// The empty registry: nothing activated yet.
    pub fn new() -> (r: ProtocolRegistry)
        ensures
            r@ == Seq::<(ProtocolVersion, ProtocolData, u64)>::empty(),
    {
        ProtocolRegistry { entries: Vec::new() }
    }

    /// The record activated for `version`, or `NotFound` if that version
    /// was never activated.
    pub fn get(&self, version: &ProtocolVersion) -> (r: Result<&ProtocolData, RegistryError>)
        ensures
            r matches Ok(d) ==> (spec_find(self@, *version) matches Some(e) && e.0 == *d),
            r is Err <==> spec_find(self@, *version) is None,
            r matches Err(e) ==> e == RegistryError::NotFound,
    {
        match self.find(version) {
            Some(i) => Ok(&self.entries[i].1),
            None => Err(RegistryError::NotFound),
        }
    }

    /// The activation point of `version`: the block height from which its
    /// record is authoritative.
    pub fn activation_point(&self, version: &ProtocolVersion) -> (r: Result<u64, RegistryError>)
        ensures
            r matches Ok(p) ==> (spec_find(self@, *version) matches Some(e) && e.1 == p),
            r is Err <==> spec_find(self@, *version) is None,
            r matches Err(e) ==> e == RegistryError::NotFound,
    {
        match self.find(version) {
            Some(i) => Ok(self.entries[i].2),
            None => Err(RegistryError::NotFound),
        }
    }

    /// The index of `version`'s entry, scanning in activation order.
    fn find(&self, version: &ProtocolVersion) -> (r: Option<usize>)
        ensures
            r matches Some(i) ==> i < self@.len() && self@[i as int].0 == *version && spec_find(
                self@,
                *version,
            ) == Some::<(ProtocolData, u64)>((self@[i as int].1, self@[i as int].2)),
            r is None <==> spec_find(self@, *version) is None,
    {
        proof {
            assert(self.entries@.skip(0) =~= self.entries@);
        }
        let mut i: usize = 0;
        while i < self.entries.len()
            invariant
                i <= self.entries@.len(),
                self@ == self.entries@,
                spec_find(self@, *version) == spec_find(self.entries@.skip(i as int), *version),
            decreases self.entries@.len() - i,
        {
            proof {
                assert(self.entries@.skip(i as int)[0] == self.entries@[i as int]);
                assert(self.entries@.skip(i as int).drop_first() =~= self.entries@.skip(
                    i as int + 1,
                ));
            }
            if self.entries[i].0 == *version {
                return Some(i);
            }
            i = i + 1;
        }
        proof {
            assert(self.entries@.skip(self.entries@.len() as int) =~= Seq::<
                (ProtocolVersion, ProtocolData, u64),
            >::empty());
        }
        None
    }

    /// Whether a record was ever activated for `version`.
    pub fn contains(&self, version: &ProtocolVersion) -> (r: bool)
        ensures
            r == (spec_find(self@, *version) is Some),
    {
        match self.find(version) {
            Some(_) => true,
            None => false,
        }
    }

    /// Files `data` as the record of `version`, authoritative from
    /// `activation_point`. A version is activated at most once: if it
    /// already has a record, nothing changes and `AlreadyActivated` is
    /// returned.
    pub fn activate(
        &mut self,
        version: ProtocolVersion,
        data: ProtocolData,
        activation_point: u64,
    ) -> (r: Result<(), RegistryError>)
        ensures
            r is Ok <==> spec_find(old(self)@, version) is None,
            r is Ok ==> final(self)@ == old(self)@.push((version, data, activation_point)),
            r is Err ==> final(self)@ == old(self)@ && r == Err::<(), RegistryError>(
                RegistryError::AlreadyActivated,
            ),
    {
        if self.contains(&version) {
            return Err(RegistryError::AlreadyActivated);
        }
        self.entries.push((version, data, activation_point));
        Ok(())
    }

    /// Activates the requested new version by upgrading the record of
    /// `current_version`: the installer's remap pairs are applied to a copy
    /// of the current record, and the copy is filed under the new version
    /// with the requested activation point.
    ///
    /// The prior record is never modified. The activation fails closed,
    /// changing nothing: with `NotFound` when no record exists for
    /// `current_version`, with `InvalidUpgrade` when the remap names an
    /// address that is not a current system contract (a broken installer),
    /// and with `AlreadyActivated` when the new version already has a
    /// record.
    pub fn activate_upgrade(
        &mut self,
        current_version: &ProtocolVersion,
        request: &UpgradeRequest,
    ) -> (r: Result<(), RegistryError>)
        ensures
            r is Ok <==> (spec_find(old(self)@, *current_version) matches Some(e)
                && spec_update_from(e.0, request.remaps@) is Some && spec_find(
                old(self)@,
                request.new_protocol_version,
            ) is None),
            r is Ok ==> (spec_find(old(self)@, *current_version) matches Some(e)
                && spec_update_from(e.0, request.remaps@) matches Some(d2) && final(self)@ == old(
                self,
            )@.push((request.new_protocol_version, d2, request.activation_point))),
            r is Err ==> final(self)@ == old(self)@,
            r == Err::<(), RegistryError>(RegistryError::NotFound) <==> spec_find(
                old(self)@,
                *current_version,
            ) is None,
            r == Err::<(), RegistryError>(RegistryError::InvalidUpgrade) <==> (spec_find(
                old(self)@,
                *current_version,
            ) matches Some(e) && spec_update_from(e.0, request.remaps@) is None),
    {
        let mut upgraded: ProtocolData = match self.get(current_version) {
            Ok(d) => *d,
            Err(_) => {
                return Err(RegistryError::NotFound);
            },
        };
        if !upgraded.update_from(&request.remaps) {
            return Err(RegistryError::InvalidUpgrade);
        }
        match self.activate(request.new_protocol_version, upgraded, request.activation_point) {
            Ok(()) => Ok(()),
            Err(e) => Err(e),
        }
    }

    /// The record of `current_version` survives any upgrade activation
    /// untouched: new versions are additive. Finding it after an appended
    /// activation gives exactly what finding it gave before.
    pub proof fn lemma_prior_record_untouched(
        entries: Seq<(ProtocolVersion, ProtocolData, u64)>,
        current_version: ProtocolVersion,
        new_version: ProtocolVersion,
        data: ProtocolData,
        activation_point: u64,
    )
        requires
            current_version != new_version,
        ensures
            spec_find(entries.push((new_version, data, activation_point)), current_version)
                == spec_find(entries, current_version),
        decreases entries.len(),
    {
        let pushed = entries.push((new_version, data, activation_point));
        if entries.len() == 0 {
            assert(pushed[0] == (new_version, data, activation_point));
            assert(pushed[0].0 != current_version);
            assert(pushed.drop_first() =~= Seq::<(ProtocolVersion, ProtocolData, u64)>::empty());
            assert(spec_find(pushed.drop_first(), current_version) is None);
            assert(spec_find(pushed, current_version) is None);
            assert(spec_find(entries, current_version) is None);
        } else {
            Self::lemma_prior_record_untouched(
                entries.drop_first(),
                current_version,
                new_version,
                data,
                activation_point,
            );
            assert(pushed[0] == entries[0]);
            assert(pushed.drop_first() =~= entries.drop_first().push(
                (new_version, data, activation_point),
            ));
        }
    }
}

} // verus!
