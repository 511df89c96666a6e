//! The cost table embedded in a protocol record. Its ten 32-bit entries are
//! opaque to this layer's logic: they are carried, compared and serialized,
//! never interpreted. The byte form is ten little-endian 32-bit integers in
//! field order.

use vstd::prelude::*;

use vstd::bytes::{spec_u32_from_le_bytes, spec_u32_to_le_bytes};

use crate::bytesrepr::{read_u32, write_u32, Error};

verus! {

/// Length in bytes of a serialized cost table.
pub const WASM_COSTS_SERIALIZED_LENGTH: usize = 40;

/// Per-operation execution cost weights for interpreted code.
#[derive(Debug, Clone, Copy, PartialEq, Eq, Structural)]
pub struct WasmCosts {
    /// Default opcode cost.
    pub regular: u32,
    /// Division operation cost.
    pub div: u32,
    /// Multiplication operation cost.
    pub mul: u32,
    /// Memory access cost.
    pub mem: u32,
    /// Initial memory size, in pages.
    pub initial_mem: u32,
    /// Cost of growing memory by one page.
    pub grow_mem: u32,
    /// Cost of copying one byte of memory.
    pub memcpy: u32,
    /// Maximum interpreter stack height.
    pub max_stack_height: u32,
    /// Multiplier applied to opcode costs.
    pub opcodes_mul: u32,
    /// Divisor applied to opcode costs.
    pub opcodes_div: u32,
}

impl Default for WasmCosts {
    /// The empty cost table: every entry zero.
    fn default() -> (r: WasmCosts)
        ensures
            r == WasmCosts::spec_default(),
    {
        WasmCosts {
            regular: 0,
            div: 0,
            mul: 0,
            mem: 0,
            initial_mem: 0,
            grow_mem: 0,
            memcpy: 0,
            max_stack_height: 0,
            opcodes_mul: 0,
            opcodes_div: 0,
        }
    }
}

/// The byte form of a cost table: its ten entries, each as four
/// little-endian bytes, in field order.
pub open spec fn spec_serialize_wasm_costs(c: WasmCosts) -> Seq<u8> {
    spec_u32_to_le_bytes(c.regular) + spec_u32_to_le_bytes(c.div) + spec_u32_to_le_bytes(c.mul)
        + spec_u32_to_le_bytes(c.mem) + spec_u32_to_le_bytes(c.initial_mem) + spec_u32_to_le_bytes(
        c.grow_mem,
    ) + spec_u32_to_le_bytes(c.memcpy) + spec_u32_to_le_bytes(c.max_stack_height)
        + spec_u32_to_le_bytes(c.opcodes_mul) + spec_u32_to_le_bytes(c.opcodes_div)
}

/// The cost table denoted by the first forty bytes of `s`.
pub open spec fn spec_deserialize_wasm_costs(s: Seq<u8>) -> WasmCosts {
    WasmCosts {
        regular: spec_u32_from_le_bytes(s.subrange(0, 4)),
        div: spec_u32_from_le_bytes(s.subrange(4, 8)),
        mul: spec_u32_from_le_bytes(s.subrange(8, 12)),
        mem: spec_u32_from_le_bytes(s.subrange(12, 16)),
        initial_mem: spec_u32_from_le_bytes(s.subrange(16, 20)),
        grow_mem: spec_u32_from_le_bytes(s.subrange(20, 24)),
        memcpy: spec_u32_from_le_bytes(s.subrange(24, 28)),
        max_stack_height: spec_u32_from_le_bytes(s.subrange(28, 32)),
        opcodes_mul: spec_u32_from_le_bytes(s.subrange(32, 36)),
        opcodes_div: spec_u32_from_le_bytes(s.subrange(36, 40)),
    }
}

impl WasmCosts {
    /// The empty cost table, as a specification value.
    pub open spec fn spec_default() -> WasmCosts {
        WasmCosts {
            regular: 0,
            div: 0,
            mul: 0,
            mem: 0,
            initial_mem: 0,
            grow_mem: 0,
            memcpy: 0,
            max_stack_height: 0,
            opcodes_mul: 0,
            opcodes_div: 0,
        }
    }

    /// Appends the forty-byte form of the table to `out`.
    pub fn write_bytes(&self, out: &mut Vec<u8>)
        ensures
            final(out)@ == old(out)@ + spec_serialize_wasm_costs(*self),
    {
        write_u32(out, self.regular);
        write_u32(out, self.div);
        write_u32(out, self.mul);
        write_u32(out, self.mem);
        write_u32(out, self.initial_mem);
        write_u32(out, self.grow_mem);
        write_u32(out, self.memcpy);
        write_u32(out, self.max_stack_height);
        write_u32(out, self.opcodes_mul);
        write_u32(out, self.opcodes_div);
        proof {
            assert(out@ =~= old(out)@ + spec_serialize_wasm_costs(*self));
        }
    }

    /// The forty-byte form of the table.
    pub fn to_bytes(&self) -> (r: Vec<u8>)
        ensures
            r@ == spec_serialize_wasm_costs(*self),
            r@.len() == WASM_COSTS_SERIALIZED_LENGTH,
    {
        let mut out: Vec<u8> = Vec::new();
        self.write_bytes(&mut out);
        proof {
            assert(out@ =~= spec_serialize_wasm_costs(*self));
            vstd::bytes::lemma_auto_spec_u32_to_from_le_bytes();
        }
        out
    }

    /// Decodes a cost table from the bytes at `offset`, which fails exactly
    /// when fewer than forty bytes remain.
    pub fn read_bytes(bytes: &[u8], offset: usize) -> (r: Result<WasmCosts, Error>)
        ensures
            r matches Ok(c) ==> offset + WASM_COSTS_SERIALIZED_LENGTH <= bytes@.len() && c
                == spec_deserialize_wasm_costs(bytes@.skip(offset as int)),
            r is Err <==> offset + WASM_COSTS_SERIALIZED_LENGTH > bytes@.len(),
            r matches Err(e) ==> e == Error::EarlyEndOfStream,
    {
        let n = bytes.len();
        if offset > n || n - offset < WASM_COSTS_SERIALIZED_LENGTH {
            return Err(Error::EarlyEndOfStream);
        }
        let ghost tail = bytes@.skip(offset as int);
        let c = WasmCosts {
            regular: read_u32(bytes, offset),
            div: read_u32(bytes, offset + 4),
            mul: read_u32(bytes, offset + 8),
            mem: read_u32(bytes, offset + 12),
            initial_mem: read_u32(bytes, offset + 16),
            grow_mem: read_u32(bytes, offset + 20),
            memcpy: read_u32(bytes, offset + 24),
            max_stack_height: read_u32(bytes, offset + 28),
            opcodes_mul: read_u32(bytes, offset + 32),
            opcodes_div: read_u32(bytes, offset + 36),
        };
        proof {
            assert forall|k: int| 0 <= k <= 36 implies #[trigger] tail.subrange(k, k + 4)
                =~= bytes@.subrange(offset + k, offset + k + 4) by {}
            assert(tail.subrange(0, 4) == bytes@.subrange(offset as int, offset as int + 4));
            assert(tail.subrange(4, 8) == bytes@.subrange(offset + 4, offset + 8));
            assert(tail.subrange(8, 12) == bytes@.subrange(offset + 8, offset + 12));
            assert(tail.subrange(12, 16) == bytes@.subrange(offset + 12, offset + 16));
            assert(tail.subrange(16, 20) == bytes@.subrange(offset + 16, offset + 20));
            assert(tail.subrange(20, 24) == bytes@.subrange(offset + 20, offset + 24));
            assert(tail.subrange(24, 28) == bytes@.subrange(offset + 24, offset + 28));
            assert(tail.subrange(28, 32) == bytes@.subrange(offset + 28, offset + 32));
            assert(tail.subrange(32, 36) == bytes@.subrange(offset + 32, offset + 36));
            assert(tail.subrange(36, 40) == bytes@.subrange(offset + 36, offset + 40));
        }
        Ok(c)
    }
}

/// Encoding then decoding a cost table gives the table back: the forty-byte
/// form loses nothing.
pub proof fn lemma_wasm_costs_round_trip(c: WasmCosts)
    ensures
        spec_serialize_wasm_costs(c).len() == WASM_COSTS_SERIALIZED_LENGTH,
        spec_deserialize_wasm_costs(spec_serialize_wasm_costs(c)) == c,
{
    vstd::bytes::lemma_auto_spec_u32_to_from_le_bytes();
    let s = spec_serialize_wasm_costs(c);
    assert(s.subrange(0, 4) =~= spec_u32_to_le_bytes(c.regular));
    assert(s.subrange(4, 8) =~= spec_u32_to_le_bytes(c.div));
    assert(s.subrange(8, 12) =~= spec_u32_to_le_bytes(c.mul));
    assert(s.subrange(12, 16) =~= spec_u32_to_le_bytes(c.mem));
    assert(s.subrange(16, 20) =~= spec_u32_to_le_bytes(c.initial_mem));
    assert(s.subrange(20, 24) =~= spec_u32_to_le_bytes(c.grow_mem));
    assert(s.subrange(24, 28) =~= spec_u32_to_le_bytes(c.memcpy));
    assert(s.subrange(28, 32) =~= spec_u32_to_le_bytes(c.max_stack_height));
    assert(s.subrange(32, 36) =~= spec_u32_to_le_bytes(c.opcodes_mul));
    assert(s.subrange(36, 40) =~= spec_u32_to_le_bytes(c.opcodes_div));
}

} // verus!
