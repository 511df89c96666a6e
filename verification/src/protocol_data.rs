//! The registry record of one protocol version: the addresses of the three
//! system contracts plus the version's cost table, with its fixed-length
//! byte form and the all-or-nothing address-remap operation applied at
//! upgrade activation.
//!
//! An all-zero address is the sentinel for "not yet assigned"; records with
//! sentinels are legal only while bootstrap is still installing the system
//! contracts.

use vstd::prelude::*;

use crate::bytesrepr::{read_hash, write_hash, Error, KEY_HASH_LENGTH};
use crate::wasm_costs::{
    spec_deserialize_wasm_costs, spec_serialize_wasm_costs, WasmCosts,
    WASM_COSTS_SERIALIZED_LENGTH,
};

verus! {

/// Length in bytes of a serialized protocol record: the cost table followed
/// by the three 32-byte addresses.
pub const PROTOCOL_DATA_SERIALIZED_LENGTH: usize = WASM_COSTS_SERIALIZED_LENGTH + 3
    * KEY_HASH_LENGTH;

/// A fixed content-identifying address of a stored contract.
pub type ContractHash = [u8; 32];

/// Whether an address is the all-zero "not yet assigned" sentinel.
pub open spec fn is_zero_address(s: Seq<u8>) -> bool {
    forall|i: int| 0 <= i < s.len() ==> s[i] == 0
}

/// The all-zero sentinel address.
pub fn zero_address() -> (r: ContractHash)
    ensures
        is_zero_address(r@),
{
    [0u8; 32]
}

/// Whether `hash` is the all-zero sentinel.
pub fn is_sentinel(hash: &ContractHash) -> (r: bool)
    ensures
        r == is_zero_address(hash@),
{
    let mut i: usize = 0;
    while i < KEY_HASH_LENGTH
        invariant
            i <= KEY_HASH_LENGTH,
            forall|j: int| 0 <= j < i ==> hash@[j] == 0,
        decreases KEY_HASH_LENGTH - i,
    {
        if hash[i] != 0 {
            return false;
        }
        i = i + 1;
    }
    true
}

/// Whether two addresses hold the same 32 bytes.
pub fn hash_eq(a: &ContractHash, b: &ContractHash) -> (r: bool)
    ensures
        r == (a@ == b@),
{
    let mut i: usize = 0;
    while i < KEY_HASH_LENGTH
        invariant
            i <= KEY_HASH_LENGTH,
            forall|j: int| 0 <= j < i ==> a@[j] == b@[j],
        decreases KEY_HASH_LENGTH - i,
    {
        if a[i] != b[i] {
            return false;
        }
        i = i + 1;
    }
    proof {
        assert(a@ =~= b@);
    }
    true
}

/// One protocol version's registry record. Created at genesis or at upgrade
/// activation; immutable afterwards except through [`ProtocolData::update_from`];
/// superseded, never deleted, when a later version activates.
#[derive(Debug, Clone, Copy, PartialEq, Eq)]
pub struct ProtocolData {
    pub wasm_costs: WasmCosts,
    pub mint: ContractHash,
    pub proof_of_stake: ContractHash,
    pub standard_payment: ContractHash,
}

/// The byte form of a record: the cost table's bytes, then the mint,
/// proof-of-stake and standard-payment addresses, in that fixed order.
pub open spec fn spec_serialize_protocol_data(d: ProtocolData) -> Seq<u8> {
    spec_serialize_wasm_costs(d.wasm_costs) + d.mint@ + d.proof_of_stake@ + d.standard_payment@
}

/// The record denoted by the first 136 bytes of `s`.
pub open spec fn spec_deserialize_protocol_data(s: Seq<u8>) -> ProtocolData {
    ProtocolData {
        wasm_costs: spec_deserialize_wasm_costs(s),
        mint: ProtocolData::hash_from(s.subrange(40, 72)),
        proof_of_stake: ProtocolData::hash_from(s.subrange(72, 104)),
        standard_payment: ProtocolData::hash_from(s.subrange(104, 136)),
    }
}

/// The addresses of the system contracts still assigned in `d`, in the
/// fixed canonical order mint, proof-of-stake, standard-payment, skipping
/// any address still equal to the zero sentinel.
pub open spec fn spec_system_contracts(d: ProtocolData) -> Seq<ContractHash> {
    let with_mint: Seq<ContractHash> = if is_zero_address(d.mint@) {
        Seq::empty()
    } else {
        seq![d.mint]
    };
    let with_pos: Seq<ContractHash> = if is_zero_address(d.proof_of_stake@) {
        with_mint
    } else {
        with_mint.push(d.proof_of_stake)
    };
    if is_zero_address(d.standard_payment@) {
        with_pos
    } else {
        with_pos.push(d.standard_payment)
    }
}

/// The record after applying the remap pairs left to right: each pair's old
/// address must equal the current mint, proof-of-stake or standard-payment
/// address, which it replaces; one pair that matches none of the three
/// sinks the whole batch.
pub open spec fn spec_update_from(
    d: ProtocolData,
    updates: Seq<(ContractHash, ContractHash)>,
) -> Option<ProtocolData>
    decreases updates.len(),
{
    if updates.len() == 0 {
        Some(d)
    } else {
        let old_hash = updates[0].0;
        let new_hash = updates[0].1;
        let next: Option<ProtocolData> = if old_hash@ == d.mint@ {
            Some(ProtocolData { mint: new_hash, ..d })
        } else if old_hash@ == d.proof_of_stake@ {
            Some(ProtocolData { proof_of_stake: new_hash, ..d })
        } else if old_hash@ == d.standard_payment@ {
            Some(ProtocolData { standard_payment: new_hash, ..d })
        } else {
            None
        };
        match next {
            Some(d2) => spec_update_from(d2, updates.drop_first()),
            None => None,
        }
    }
}

impl Default for ProtocolData {
    /// The all-sentinel record with the empty cost table: the state before
    /// any system contract is installed. For bootstrap use only.
    fn default() -> (r: ProtocolData)
        ensures
            r.wasm_costs == WasmCosts::spec_default(),
            is_zero_address(r.mint@),
            is_zero_address(r.proof_of_stake@),
            is_zero_address(r.standard_payment@),
    {
        ProtocolData {
            wasm_costs: WasmCosts::default(),
            mint: zero_address(),
            proof_of_stake: zero_address(),
            standard_payment: zero_address(),
        }
    }
}

impl ProtocolData {
    /// The address whose bytes are `s`; meaningful for 32-byte `s`.
    pub open spec fn hash_from(s: Seq<u8>) -> ContractHash {
        choose|h: ContractHash| h@ == s
    }

    /// A record with every field explicit; the complete record of an
    /// activated protocol version.
    pub fn new(
        wasm_costs: WasmCosts,
        mint: ContractHash,
        proof_of_stake: ContractHash,
        standard_payment: ContractHash,
    ) -> (r: ProtocolData)
        ensures
            r == (ProtocolData { wasm_costs, mint, proof_of_stake, standard_payment }),
    {
        ProtocolData { wasm_costs, mint, proof_of_stake, standard_payment }
    }

    /// The partial record known before proof-of-stake and standard payment
    /// are installed: only the mint address is set, everything else is the
    /// sentinel and the empty cost table.
    pub fn partial_with_mint(mint: ContractHash) -> (r: ProtocolData)
        ensures
            r.wasm_costs == WasmCosts::spec_default(),
            r.mint == mint,
            is_zero_address(r.proof_of_stake@),
            is_zero_address(r.standard_payment@),
    {
        ProtocolData { mint, ..Default::default() }
    }

    /// The partial record known once only standard payment remains to be
    /// installed: its address is still the sentinel.
    pub fn partial_without_standard_payment(
        wasm_costs: WasmCosts,
        mint: ContractHash,
        proof_of_stake: ContractHash,
    ) -> (r: ProtocolData)
        ensures
            r.wasm_costs == wasm_costs,
            r.mint == mint,
            r.proof_of_stake == proof_of_stake,
            is_zero_address(r.standard_payment@),
    {
        ProtocolData { wasm_costs, mint, proof_of_stake, ..Default::default() }
    }

    /// The record's cost table.
    pub fn wasm_costs(&self) -> (r: &WasmCosts)
        ensures
            *r == self.wasm_costs,
    {
        &self.wasm_costs
    }

    /// The mint contract's address.
    pub fn mint(&self) -> (r: ContractHash)
        ensures
            r == self.mint,
    {
        self.mint
    }

    /// The proof-of-stake contract's address.
    pub fn proof_of_stake(&self) -> (r: ContractHash)
        ensures
            r == self.proof_of_stake,
    {
        self.proof_of_stake
    }

    /// The standard-payment contract's address.
    pub fn standard_payment(&self) -> (r: ContractHash)
        ensures
            r == self.standard_payment,
    {
        self.standard_payment
    }

    /// Whether the record is complete: no address is still the sentinel.
    pub fn is_complete(&self) -> (r: bool)
        ensures
            r == (!is_zero_address(self.mint@) && !is_zero_address(self.proof_of_stake@)
                && !is_zero_address(self.standard_payment@)),
    {
        !is_sentinel(&self.mint) && !is_sentinel(&self.proof_of_stake) && !is_sentinel(
            &self.standard_payment,
        )
    }

    /// The addresses of the system contracts assigned so far, in the fixed
    /// order mint, proof-of-stake, standard-payment, skipping sentinels.
    pub fn system_contracts(&self) -> (r: Vec<ContractHash>)
        ensures
            r@ == spec_system_contracts(*self),
    {
        let mut vec: Vec<ContractHash> = Vec::new();
        if !is_sentinel(&self.mint) {
            vec.push(self.mint);
        }
        if !is_sentinel(&self.proof_of_stake) {
            vec.push(self.proof_of_stake);
        }
        if !is_sentinel(&self.standard_payment) {
            vec.push(self.standard_payment);
        }
        proof {
            assert(vec@ =~= spec_system_contracts(*self));
        }
        vec
    }

    /// Applies an upgrade installer's address remap, all or nothing.
    ///
    /// Each `(old, new)` pair replaces the record's current mint,
    /// proof-of-stake or standard-payment address equal to `old` with `new`,
    /// in order. A pair whose `old` matches none of the three current
    /// addresses marks a broken installer: the whole batch is rejected, the
    /// record keeps every field it had, and `false` is returned.
    pub fn update_from(&mut self, updates: &Vec<(ContractHash, ContractHash)>) -> (ok: bool)
        ensures
            ok == (spec_update_from(*old(self), updates@) is Some),
            *final(self) == (match spec_update_from(*old(self), updates@) {
                Some(d) => d,
                None => *old(self)
            }),
    {
        let mut current: ProtocolData = *self;
        proof {
            assert(updates@.skip(0) =~= updates@);
        }
        let mut i: usize = 0;
        while i < updates.len()
            invariant
                i <= updates@.len(),
                spec_update_from(*old(self), updates@) == spec_update_from(
                    current,
                    updates@.skip(i as int),
                ),
                *self == *old(self),
            decreases updates@.len() - i,
        {
            proof {
                assert(updates@.skip(i as int).len() > 0);
                assert(updates@.skip(i as int)[0] == updates@[i as int]);
                assert(updates@.skip(i as int).drop_first() =~= updates@.skip(i as int + 1));
            }
            let old_hash = &updates[i].0;
            let new_hash = updates[i].1;
            if hash_eq(old_hash, &current.mint) {
                current.mint = new_hash;
            } else if hash_eq(old_hash, &current.proof_of_stake) {
                current.proof_of_stake = new_hash;
            } else if hash_eq(old_hash, &current.standard_payment) {
                current.standard_payment = new_hash;
            } else {
                return false;
            }
            i = i + 1;
        }
        proof {
            assert(updates@.skip(updates@.len() as int) =~= Seq::<
                (ContractHash, ContractHash),
            >::empty());
        }
        *self = current;
        true
    }

    /// The fixed length of the record's byte form.
    pub fn serialized_length(&self) -> (r: usize)
        ensures
            r == PROTOCOL_DATA_SERIALIZED_LENGTH,
    {
        PROTOCOL_DATA_SERIALIZED_LENGTH
    }

    /// The 136-byte form of the record: cost table, then mint,
    /// proof-of-stake and standard-payment addresses.
    pub fn to_bytes(&self) -> (r: Vec<u8>)
        ensures
            r@ == spec_serialize_protocol_data(*self),
            r@.len() == PROTOCOL_DATA_SERIALIZED_LENGTH,
    {
        let mut out: Vec<u8> = Vec::new();
        self.wasm_costs.write_bytes(&mut out);
        write_hash(&mut out, &self.mint);
        write_hash(&mut out, &self.proof_of_stake);
        write_hash(&mut out, &self.standard_payment);
        proof {
            assert(out@ =~= spec_serialize_protocol_data(*self));
            lemma_protocol_data_round_trip(*self);
        }
        out
    }

    /// Decodes a record from the front of `bytes` and returns it with the
    /// unconsumed remainder. Fails with `EarlyEndOfStream` exactly when
    /// fewer than 136 bytes are given.
    pub fn from_bytes<'a>(bytes: &'a [u8]) -> (r: Result<(ProtocolData, &'a [u8]), Error>)
        ensures
            r matches Ok((d, rest)) ==> bytes@.len() >= PROTOCOL_DATA_SERIALIZED_LENGTH && d
                == spec_deserialize_protocol_data(bytes@) && rest@ == bytes@.skip(
                PROTOCOL_DATA_SERIALIZED_LENGTH as int,
            ),
            r is Err <==> bytes@.len() < PROTOCOL_DATA_SERIALIZED_LENGTH,
            r matches Err(e) ==> e == Error::EarlyEndOfStream,
    {
        let n = bytes.len();
        let wasm_costs = match WasmCosts::read_bytes(bytes, 0) {
            Ok(c) => c,
            Err(e) => {
                return Err(e);
            },
        };
        if n < PROTOCOL_DATA_SERIALIZED_LENGTH {
            return Err(Error::EarlyEndOfStream);
        }
        let mint = read_hash(bytes, WASM_COSTS_SERIALIZED_LENGTH);
        let proof_of_stake = read_hash(bytes, WASM_COSTS_SERIALIZED_LENGTH + 32);
        let standard_payment = read_hash(bytes, WASM_COSTS_SERIALIZED_LENGTH + 64);
        let rest = vstd::slice::slice_subrange(bytes, PROTOCOL_DATA_SERIALIZED_LENGTH, n);
        let d = ProtocolData { wasm_costs, mint, proof_of_stake, standard_payment };
        proof {
            assert(bytes@.skip(0) =~= bytes@);
            assert(d.mint == ProtocolData::hash_from(bytes@.subrange(40, 72))) by {
                assert(d.mint@ == bytes@.subrange(40, 72));
                let h = ProtocolData::hash_from(bytes@.subrange(40, 72));
                assert(h@ == bytes@.subrange(40, 72));
                assert(d.mint =~= h);
            }
            assert(d.proof_of_stake == ProtocolData::hash_from(bytes@.subrange(72, 104))) by {
                assert(d.proof_of_stake@ == bytes@.subrange(72, 104));
                let h = ProtocolData::hash_from(bytes@.subrange(72, 104));
                assert(h@ == bytes@.subrange(72, 104));
                assert(d.proof_of_stake =~= h);
            }
            assert(d.standard_payment == ProtocolData::hash_from(bytes@.subrange(104, 136))) by {
                assert(d.standard_payment@ == bytes@.subrange(104, 136));
                let h = ProtocolData::hash_from(bytes@.subrange(104, 136));
                assert(h@ == bytes@.subrange(104, 136));
                assert(d.standard_payment =~= h);
            }
        }
        Ok((d, rest))
    }
}

impl ProtocolData {
    /// Decodes a record from a buffer that must hold exactly its 136-byte
    /// form: a shorter buffer is `EarlyEndOfStream`, unconsumed trailing
    /// bytes are `LeftOverBytes` — the persisted form never carries slack.
    pub fn deserialize(bytes: &[u8]) -> (r: Result<ProtocolData, Error>)
        ensures
            r is Ok <==> bytes@.len() == PROTOCOL_DATA_SERIALIZED_LENGTH,
            r matches Ok(d) ==> d == spec_deserialize_protocol_data(bytes@),
            bytes@.len() < PROTOCOL_DATA_SERIALIZED_LENGTH ==> r == Err::<ProtocolData, Error>(
                Error::EarlyEndOfStream,
            ),
            bytes@.len() > PROTOCOL_DATA_SERIALIZED_LENGTH ==> r == Err::<ProtocolData, Error>(
                Error::LeftOverBytes,
            ),
    {
        match ProtocolData::from_bytes(bytes) {
            Ok((d, rest)) => {
                if rest.len() == 0 {
                    Ok(d)
                } else {
                    Err(Error::LeftOverBytes)
                }
            },
            Err(e) => Err(e),
        }
    }
}

/// The round trip is the identity: a record's 136-byte form decodes back to
/// the record, and encoding always yields exactly the cost table's length
/// plus 96 bytes.
pub proof fn lemma_protocol_data_round_trip(d: ProtocolData)
    ensures
        spec_serialize_protocol_data(d).len() == PROTOCOL_DATA_SERIALIZED_LENGTH,
        spec_deserialize_protocol_data(spec_serialize_protocol_data(d)) == d,
{
    crate::wasm_costs::lemma_wasm_costs_round_trip(d.wasm_costs);
    let s = spec_serialize_protocol_data(d);
    let c = spec_serialize_wasm_costs(d.wasm_costs);
    assert forall|k: int| 0 <= k <= 36 implies #[trigger] s.subrange(k, k + 4) =~= c.subrange(
        k,
        k + 4,
    ) by {}
    assert(spec_deserialize_wasm_costs(s) == spec_deserialize_wasm_costs(c)) by {
        assert(s.subrange(0, 4) == c.subrange(0, 4));
        assert(s.subrange(4, 8) == c.subrange(4, 8));
        assert(s.subrange(8, 12) == c.subrange(8, 12));
        assert(s.subrange(12, 16) == c.subrange(12, 16));
        assert(s.subrange(16, 20) == c.subrange(16, 20));
        assert(s.subrange(20, 24) == c.subrange(20, 24));
        assert(s.subrange(24, 28) == c.subrange(24, 28));
        assert(s.subrange(28, 32) == c.subrange(28, 32));
        assert(s.subrange(32, 36) == c.subrange(32, 36));
        assert(s.subrange(36, 40) == c.subrange(36, 40));
    }
    assert(s.subrange(40, 72) =~= d.mint@);
    assert(s.subrange(72, 104) =~= d.proof_of_stake@);
    assert(s.subrange(104, 136) =~= d.standard_payment@);
    let d2 = spec_deserialize_protocol_data(s);
    assert(d2.mint@ == d.mint@ && d2.mint =~= d.mint) by {
        let h = ProtocolData::hash_from(s.subrange(40, 72));
        assert(d.mint@ == s.subrange(40, 72));
        assert(h@ == s.subrange(40, 72));
    }
    assert(d2.proof_of_stake =~= d.proof_of_stake) by {
        let h = ProtocolData::hash_from(s.subrange(72, 104));
        assert(d.proof_of_stake@ == s.subrange(72, 104));
        assert(h@ == s.subrange(72, 104));
    }
    assert(d2.standard_payment =~= d.standard_payment) by {
        let h = ProtocolData::hash_from(s.subrange(104, 136));
        assert(d.standard_payment@ == s.subrange(104, 136));
        assert(h@ == s.subrange(104, 136));
    }
}

} // verus!
