use parsec_core::operations::{
    Convert, ConvertOperation, ConvertResult, KeyInfo, OpKey, OpListOpcodes, OpPing,
    ProtobufConverter, ResultKey, ResultListClients, ResultListKeys, ResultListOpcodes, ResultPing,
};
use parsec_core::requests::{Opcode, ProviderID};
use parsec_core::status::ResponseStatus;

#[test]
fn ping_result_encoding() {
    let conv = ProtobufConverter {};
    let result = ConvertResult::Ping(ResultPing { wire_protocol_version_maj: 1, wire_protocol_version_min: 0 });
    let body = conv.body_from_result(&result).unwrap();
    assert_eq!(body, vec![0x08, 0x01]);
    let back = conv.body_to_result(&body, Opcode::Ping).unwrap();
    assert_eq!(back, result);
}

#[test]
fn ping_result_both_fields() {
    let result = ConvertResult::Ping(ResultPing { wire_protocol_version_maj: 200, wire_protocol_version_min: 3 });
    let body = ProtobufConverter::encode_result(&result);
    assert_eq!(body, vec![0x08, 0xc8, 0x01, 0x10, 0x03]);
    assert_eq!(ProtobufConverter::decode_result(&body, Opcode::Ping), Ok(result));
}

#[test]
fn ping_result_out_of_range_fails() {
    assert_eq!(
        ProtobufConverter::decode_result(&[0x08, 0x80, 0x02], Opcode::Ping),
        Err(ResponseStatus::DeserializingBodyFailed)
    );
}

#[test]
fn ping_operation_is_empty() {
    let conv = ProtobufConverter {};
    let body = conv.body_from_operation(&ConvertOperation::Ping(OpPing {})).unwrap();
    assert!(body.is_empty());
    assert_eq!(conv.body_to_operation(&[], Opcode::Ping), Ok(ConvertOperation::Ping(OpPing {})));
}

#[test]
fn unknown_fields_are_skipped() {
    assert_eq!(
        ProtobufConverter::decode_operation(&[0x18, 0x05, 0x22, 0x01, 0x41], Opcode::Ping),
        Ok(ConvertOperation::Ping(OpPing {}))
    );
}

#[test]
fn malformed_body_fails() {
    assert_eq!(
        ProtobufConverter::decode_operation(&[0x08], Opcode::Ping),
        Err(ResponseStatus::DeserializingBodyFailed)
    );
    assert_eq!(
        ProtobufConverter::decode_operation(&[0x0a, 0x05, 0x01], Opcode::Ping),
        Err(ResponseStatus::DeserializingBodyFailed)
    );
}

#[test]
fn list_opcodes_operation_round_trip() {
    let op = ConvertOperation::ListOpcodes(OpListOpcodes { provider_id: ProviderID::Tpm });
    let body = ProtobufConverter::encode_operation(&op).unwrap();
    assert_eq!(body, vec![0x08, 0x03]);
    assert_eq!(ProtobufConverter::decode_operation(&body, Opcode::ListOpcodes), Ok(op));
    let core = ConvertOperation::ListOpcodes(OpListOpcodes { provider_id: ProviderID::Core });
    assert!(ProtobufConverter::encode_operation(&core).unwrap().is_empty());
    assert_eq!(ProtobufConverter::decode_operation(&[], Opcode::ListOpcodes), Ok(core));
}

#[test]
fn list_opcodes_operation_unknown_provider_fails() {
    assert_eq!(
        ProtobufConverter::decode_operation(&[0x08, 0x63], Opcode::ListOpcodes),
        Err(ResponseStatus::DeserializingBodyFailed)
    );
}

#[test]
fn list_opcodes_result_is_packed() {
    let result = ConvertResult::ListOpcodes(ResultListOpcodes {
        opcodes: vec![Opcode::Ping, Opcode::ListOpcodes, Opcode::ListClients],
    });
    let body = ProtobufConverter::encode_result(&result);
    assert_eq!(body, vec![0x0a, 0x03, 0x01, 0x09, 0x1b]);
    assert_eq!(ProtobufConverter::decode_result(&body, Opcode::ListOpcodes), Ok(result));
}

#[test]
fn list_opcodes_result_unpacked_is_accepted() {
    let expected = ConvertResult::ListOpcodes(ResultListOpcodes { opcodes: vec![Opcode::Ping, Opcode::PsaSignHash] });
    assert_eq!(ProtobufConverter::decode_result(&[0x08, 0x01, 0x08, 0x04], Opcode::ListOpcodes), Ok(expected));
}

#[test]
fn list_opcodes_result_with_unknown_opcode_fails() {
    assert_eq!(
        ProtobufConverter::decode_result(&[0x0a, 0x01, 0x0c], Opcode::ListOpcodes),
        Err(ResponseStatus::DeserializingBodyFailed)
    );
}

#[test]
fn sign_hash_operation_round_trip() {
    let op = ConvertOperation::Key(OpKey {
        opcode: Opcode::PsaSignHash,
        key_name: "k1".to_string(),
        args: vec![vec![0x08, 0x05], vec![0xaa, 0xbb]],
    });
    let body = ProtobufConverter::encode_operation(&op).unwrap();
    assert_eq!(body, vec![0x0a, 0x02, b'k', b'1', 0x12, 0x02, 0x08, 0x05, 0x1a, 0x02, 0xaa, 0xbb]);
    assert_eq!(ProtobufConverter::decode_operation(&body, Opcode::PsaSignHash), Ok(op));
}

#[test]
fn key_operation_with_wrong_arity_is_not_encoded() {
    let op = ConvertOperation::Key(OpKey { opcode: Opcode::PsaDestroyKey, key_name: "k".to_string(), args: vec![vec![1]] });
    assert_eq!(ProtobufConverter::encode_operation(&op), Err(ResponseStatus::SerializingBodyFailed));
    let not_key = ConvertOperation::Key(OpKey { opcode: Opcode::Ping, key_name: "k".to_string(), args: vec![] });
    assert_eq!(ProtobufConverter::encode_operation(&not_key), Err(ResponseStatus::SerializingBodyFailed));
}

#[test]
fn destroy_key_decodes_name_only() {
    let expected = ConvertOperation::Key(OpKey { opcode: Opcode::PsaDestroyKey, key_name: "k".to_string(), args: vec![] });
    assert_eq!(ProtobufConverter::decode_operation(&[0x0a, 0x01, b'k', 0x12, 0x01, 0x00], Opcode::PsaDestroyKey), Ok(expected));
    assert_eq!(
        ProtobufConverter::decode_operation(&[0x0a, 0x01, 0xff], Opcode::PsaDestroyKey),
        Err(ResponseStatus::DeserializingBodyFailed)
    );
}

#[test]
fn export_result_and_list_results_round_trip() {
    let export = ConvertResult::Key(ResultKey { opcode: Opcode::PsaExportPublicKey, output: vec![0x30, 0x82] });
    let body = ProtobufConverter::encode_result(&export);
    assert_eq!(body, vec![0x0a, 0x02, 0x30, 0x82]);
    assert_eq!(ProtobufConverter::decode_result(&body, Opcode::PsaExportPublicKey), Ok(export));
    let clients = ConvertResult::ListClients(ResultListClients { clients: vec!["alice".to_string(), String::new()] });
    let body = ProtobufConverter::encode_result(&clients);
    assert_eq!(body, vec![0x0a, 0x05, b'a', b'l', b'i', b'c', b'e', 0x0a, 0x00]);
    assert_eq!(ProtobufConverter::decode_result(&body, Opcode::ListClients), Ok(clients));
    let keys = ConvertResult::ListKeys(ResultListKeys {
        keys: vec![KeyInfo { provider_id: ProviderID::MbedCrypto, name: "k".to_string(), attributes: vec![0x08, 0x01] }],
    });
    let body = ProtobufConverter::encode_result(&keys);
    assert_eq!(body, vec![0x0a, 0x09, 0x08, 0x01, 0x12, 0x01, b'k', 0x1a, 0x02, 0x08, 0x01]);
    assert_eq!(ProtobufConverter::decode_result(&body, Opcode::ListKeys), Ok(keys));
}

#[test]
fn empty_ping_result_and_truncated_key_body() {
    assert_eq!(
        ProtobufConverter::decode_result(&[], Opcode::Ping),
        Ok(ConvertResult::Ping(ResultPing { wire_protocol_version_maj: 0, wire_protocol_version_min: 0 }))
    );
    assert_eq!(
        ProtobufConverter::decode_operation(&[0x0a, 0x01], Opcode::PsaSignHash),
        Err(ResponseStatus::DeserializingBodyFailed)
    );
}

#[test]
fn large_varint_round_trip_through_unknown_field() {
    let body = [0x18, 0xff, 0xff, 0xff, 0xff, 0xff, 0xff, 0xff, 0xff, 0xff, 0x01];
    assert_eq!(ProtobufConverter::decode_operation(&body, Opcode::Ping), Ok(ConvertOperation::Ping(OpPing {})));
    let overflow = [0x18, 0xff, 0xff, 0xff, 0xff, 0xff, 0xff, 0xff, 0xff, 0xff, 0x02];
    assert_eq!(
        ProtobufConverter::decode_operation(&overflow, Opcode::Ping),
        Err(ResponseStatus::DeserializingBodyFailed)
    );
}
