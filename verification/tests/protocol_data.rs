use engine_state::bytesrepr::Error;
use engine_state::protocol_data::ProtocolData;
use engine_state::wasm_costs::WasmCosts;

fn wasm_costs_mock() -> WasmCosts {
    WasmCosts {
        regular: 1,
        div: 16,
        mul: 4,
        mem: 2,
        initial_mem: 4096,
        grow_mem: 8192,
        memcpy: 1,
        max_stack_height: 64 * 1024,
        opcodes_mul: 3,
        opcodes_div: 8,
    }
}

fn wasm_costs_free() -> WasmCosts {
    WasmCosts {
        regular: 0,
        div: 0,
        mul: 0,
        mem: 0,
        initial_mem: 4096,
        grow_mem: 8192,
        memcpy: 0,
        max_stack_height: 64 * 1024,
        opcodes_mul: 1,
        opcodes_div: 1,
    }
}

fn assert_serialization_roundtrip(data: &ProtocolData) {
    let bytes = data.to_bytes();
    assert_eq!(bytes.len(), data.serialized_length());
    let (decoded, rest) = ProtocolData::from_bytes(&bytes).expect("should deserialize");
    assert_eq!(&decoded, data);
    assert!(rest.is_empty());
}

#[test]
fn should_serialize_and_deserialize() {
    let mock = {
        let costs = wasm_costs_mock();
        let mint_reference = [1u8; 32];
        let proof_of_stake_reference = [2u8; 32];
        let standard_payment_reference = [3u8; 32];
        ProtocolData::new(
            costs,
            mint_reference,
            proof_of_stake_reference,
            standard_payment_reference,
        )
    };
    let free = {
        let costs = wasm_costs_free();
        let mint_reference = [0u8; 32];
        let proof_of_stake_reference = [1u8; 32];
        let standard_payment_reference = [2u8; 32];
        ProtocolData::new(
            costs,
            mint_reference,
            proof_of_stake_reference,
            standard_payment_reference,
        )
    };
    assert_serialization_roundtrip(&mock);
    assert_serialization_roundtrip(&free);
}

#[test]
fn should_return_all_system_contracts() {
    let mint_reference = [1u8; 32];
    let proof_of_stake_reference = [2u8; 32];
    let standard_payment_reference = [3u8; 32];
    let protocol_data = {
        let costs = wasm_costs_mock();
        ProtocolData::new(
            costs,
            mint_reference,
            proof_of_stake_reference,
            standard_payment_reference,
        )
    };

    let actual = {
        let mut items = protocol_data.system_contracts();
        items.sort();
        items
    };

    assert_eq!(actual.len(), 3);
    assert_eq!(actual[0], mint_reference);
    assert_eq!(actual[1], proof_of_stake_reference);
    assert_eq!(actual[2], standard_payment_reference);
}

#[test]
fn should_return_only_valid_system_contracts() {
    let expected: Vec<[u8; 32]> = vec![];
    assert_eq!(ProtocolData::default().system_contracts(), expected);

    let mint_reference = [0u8; 32]; // <-- invalid addr
    let proof_of_stake_reference = [2u8; 32];
    let standard_payment_reference = [3u8; 32];
    let protocol_data = {
        let costs = wasm_costs_mock();
        ProtocolData::new(
            costs,
            mint_reference,
            proof_of_stake_reference,
            standard_payment_reference,
        )
    };

    let actual = {
        let mut items = protocol_data.system_contracts();
        items.sort();
        items
    };

    assert_eq!(actual.len(), 2);
    assert_eq!(actual[0], proof_of_stake_reference);
    assert_eq!(actual[1], standard_payment_reference);
}

#[test]
fn serialized_form_is_cost_table_plus_96_bytes() {
    let data = ProtocolData::new(wasm_costs_mock(), [7u8; 32], [8u8; 32], [9u8; 32]);
    let bytes = data.to_bytes();
    // Ten 32-bit cost entries, then three 32-byte addresses.
    assert_eq!(bytes.len(), 40 + 96);
    assert_eq!(&bytes[40..72], &[7u8; 32]);
    assert_eq!(&bytes[72..104], &[8u8; 32]);
    assert_eq!(&bytes[104..136], &[9u8; 32]);
}

#[test]
fn decode_rejects_short_buffer() {
    let data = ProtocolData::new(wasm_costs_mock(), [7u8; 32], [8u8; 32], [9u8; 32]);
    let bytes = data.to_bytes();
    let short = &bytes[..bytes.len() - 1];
    assert!(ProtocolData::from_bytes(short).is_err());
}

#[test]
fn exact_length_decode_rejects_leftover_bytes() {
    let data = ProtocolData::new(wasm_costs_mock(), [7u8; 32], [8u8; 32], [9u8; 32]);
    let mut bytes = data.to_bytes();
    assert_eq!(ProtocolData::deserialize(&bytes), Ok(data));

    bytes.push(0);
    assert_eq!(ProtocolData::deserialize(&bytes), Err(Error::LeftOverBytes));

    bytes.truncate(10);
    assert_eq!(ProtocolData::deserialize(&bytes), Err(Error::EarlyEndOfStream));
}

#[test]
fn partial_records_keep_sentinels() {
    let mint = [5u8; 32];
    let partial = ProtocolData::partial_with_mint(mint);
    assert_eq!(partial.mint(), mint);
    assert_eq!(partial.proof_of_stake(), [0u8; 32]);
    assert_eq!(partial.standard_payment(), [0u8; 32]);
    assert!(!partial.is_complete());
    assert_eq!(partial.system_contracts(), vec![mint]);

    let pos = [6u8; 32];
    let almost = ProtocolData::partial_without_standard_payment(wasm_costs_mock(), mint, pos);
    assert_eq!(almost.system_contracts(), vec![mint, pos]);
    assert!(!almost.is_complete());

    let complete = ProtocolData::new(wasm_costs_mock(), mint, pos, [7u8; 32]);
    assert!(complete.is_complete());
    // The canonical enumeration order: mint, proof-of-stake, standard payment.
    assert_eq!(complete.system_contracts(), vec![mint, pos, [7u8; 32]]);
}

#[test]
fn update_from_remaps_matching_addresses() {
    let a = [1u8; 32];
    let b = [9u8; 32];
    let mut data = ProtocolData::new(wasm_costs_mock(), a, [2u8; 32], [3u8; 32]);
    let ok = data.update_from(&vec![(a, b)]);
    assert!(ok);
    assert_eq!(data.mint(), b);
    assert_eq!(data.proof_of_stake(), [2u8; 32]);
    assert_eq!(data.standard_payment(), [3u8; 32]);
}

#[test]
fn update_from_is_all_or_nothing() {
    let a = [1u8; 32];
    let b = [9u8; 32];
    let x = [42u8; 32]; // matches none of the three current addresses
    let y = [43u8; 32];
    let original = ProtocolData::new(wasm_costs_mock(), a, [2u8; 32], [3u8; 32]);
    let mut data = original;
    let ok = data.update_from(&vec![(a, b), (x, y)]);
    assert!(!ok);
    // No partial update: the record is completely unchanged.
    assert_eq!(data, original);
    assert_eq!(data.mint(), a);
}
