use nt::codec::{encode_text, encode_raw};
use nt::varint::{decode_varint, encode_varint};
use nt::{DecodeError, EntryType, EntryValue, Parameter, RPCDefinitionData, RpcResult};

fn varint(n: u64) -> Vec<u8> {
    let mut out = Vec::new();
    encode_varint(n, &mut out);
    out
}

#[test]
fn varint_known_encodings() {
    assert_eq!(varint(0), vec![0x00]);
    assert_eq!(varint(127), vec![0x7f]);
    assert_eq!(varint(128), vec![0x80, 0x01]);
    assert_eq!(varint(300), vec![0xac, 0x02]);
    assert_eq!(varint(u64::MAX).len(), 10);
}

#[test]
fn varint_round_trip_with_minimal_length() {
    for n in [0u64, 1, 127, 128, 255, 16383, 16384, 1 << 35, u64::MAX - 1, u64::MAX] {
        let mut bytes = varint(n);
        let len = bytes.len();
        let minimal = if n == 0 { 1 } else { (64 - n.leading_zeros() as usize + 6) / 7 };
        assert_eq!(len, minimal);
        bytes.push(0xEE);
        assert_eq!(decode_varint(&bytes), Ok((n, len)));
    }
}

#[test]
fn varint_truncated_and_too_wide() {
    assert_eq!(decode_varint(&[]), Err(DecodeError::TruncatedInput));
    assert_eq!(decode_varint(&[0x80]), Err(DecodeError::TruncatedInput));
    assert_eq!(decode_varint(&[0xff; 11]), Err(DecodeError::TruncatedInput));
    let mut over = vec![0xff; 9];
    over.push(0x02);
    assert_eq!(decode_varint(&over), Err(DecodeError::TruncatedInput));
}

#[test]
fn type_tags() {
    assert_eq!(EntryType::decode(&[0x11, 0x00]), Ok((EntryType::DoubleArray, 1)));
    assert_eq!(EntryType::decode(&[0x20]), Ok((EntryType::RPCDefinition, 1)));
    assert_eq!(EntryType::decode(&[0x04]), Err(DecodeError::UnknownTypeTag));
    assert_eq!(EntryType::decode(&[]), Err(DecodeError::TruncatedInput));
    for t in [
        EntryType::Boolean,
        EntryType::Double,
        EntryType::String,
        EntryType::Raw,
        EntryType::BooleanArray,
        EntryType::DoubleArray,
        EntryType::StringArray,
        EntryType::RPCDefinition,
    ] {
        let mut out = Vec::new();
        t.encode(&mut out);
        assert_eq!(EntryType::decode(&out), Ok((t, 1)));
    }
}

fn round_trip(v: &EntryValue) -> usize {
    let mut out = Vec::new();
    v.encode(&mut out);
    let (back, used) = v.entry_type().decode_value(&out).unwrap();
    assert_eq!(used, out.len());
    let mut again = Vec::new();
    back.encode(&mut again);
    assert_eq!(again, out);
    assert_eq!(format!("{:?}", back), format!("{:?}", v));
    out.len()
}

#[test]
fn value_round_trips() {
    assert_eq!(round_trip(&EntryValue::Boolean(true)), 1);
    assert_eq!(round_trip(&EntryValue::Boolean(false)), 1);
    assert_eq!(round_trip(&EntryValue::Double(1.5f64.to_bits())), 8);
    assert_eq!(round_trip(&EntryValue::String("héllo".to_string())), 7);
    assert_eq!(round_trip(&EntryValue::String(String::new())), 1);
    assert_eq!(round_trip(&EntryValue::Raw(vec![1, 2, 3])), 4);
    assert_eq!(round_trip(&EntryValue::BooleanArray(vec![true, false, true])), 4);
    assert_eq!(round_trip(&EntryValue::DoubleArray(vec![0.0f64.to_bits(), (-2.25f64).to_bits()])), 17);
    assert_eq!(round_trip(&EntryValue::StringArray(vec!["a".to_string(), "".to_string()])), 4);
    assert_eq!(round_trip(&EntryValue::StringArray(vec![])), 1);
    assert_eq!(round_trip(&EntryValue::RPCDefinition(sum_definition())), 1 + sum_blob().len());
}

#[test]
fn double_is_big_endian() {
    let mut out = Vec::new();
    EntryValue::Double(1.0f64.to_bits()).encode(&mut out);
    assert_eq!(out, vec![0x3f, 0xf0, 0, 0, 0, 0, 0, 0]);
    let (v, n) = EntryType::Double.decode_value(&out).unwrap();
    assert_eq!(n, 8);
    match v {
        EntryValue::Double(bits) => assert_eq!(f64::from_bits(bits), 1.0),
        _ => panic!("wrong kind"),
    }
}

#[test]
fn text_fields() {
    let mut out = Vec::new();
    encode_text(&"abc".to_string(), &mut out);
    assert_eq!(out, vec![3, b'a', b'b', b'c']);
    let (v, n) = EntryType::String.decode_value(&[2, 0xc3, 0xa9, 9]).unwrap();
    assert_eq!(n, 3);
    match v {
        EntryValue::String(s) => assert_eq!(s, "é"),
        _ => panic!("wrong kind"),
    }
    assert_eq!(
        EntryType::String.decode_value(&[2, 0xc3, 0x28]).unwrap_err(),
        DecodeError::InvalidEncoding
    );
    assert_eq!(EntryType::String.decode_value(&[3, b'a']).unwrap_err(), DecodeError::TruncatedInput);
    let mut raw = Vec::new();
    encode_raw(&vec![9, 8], &mut raw);
    assert_eq!(raw, vec![2, 9, 8]);
}

#[test]
fn nonzero_boolean_bytes_read_true() {
    let (v, n) = EntryType::Boolean.decode_value(&[7]).unwrap();
    assert_eq!(n, 1);
    assert!(matches!(v, EntryValue::Boolean(true)));
}

#[test]
fn truncation_fails_for_every_kind() {
    let values = vec![
        EntryValue::Boolean(true),
        EntryValue::Double(3.0f64.to_bits()),
        EntryValue::String("xyz".to_string()),
        EntryValue::String(String::new()),
        EntryValue::Raw(vec![5; 4]),
        EntryValue::BooleanArray(vec![true, true]),
        EntryValue::BooleanArray(vec![]),
        EntryValue::DoubleArray(vec![1, 2]),
        EntryValue::StringArray(vec!["p".to_string(), "".to_string()]),
        EntryValue::RPCDefinition(sum_definition()),
        EntryValue::RPCDefinition(RPCDefinitionData::empty()),
    ];
    for v in values.iter() {
        let mut out = Vec::new();
        v.encode(&mut out);
        out.pop();
        assert_eq!(v.entry_type().decode_value(&out).unwrap_err(), DecodeError::TruncatedInput);
    }
}

fn sum_blob() -> Vec<u8> {
    let mut b = vec![0x01, 3, b's', b'u', b'm', 2];
    b.extend_from_slice(&[0x01, 1, b'a', 0, 0, 0, 0, 0, 0, 0, 0]);
    b.extend_from_slice(&[0x01, 1, b'b', 0, 0, 0, 0, 0, 0, 0, 0]);
    b.extend_from_slice(&[1, 0x01, 6, b'r', b'e', b's', b'u', b'l', b't']);
    b
}

fn sum_definition() -> RPCDefinitionData {
    RPCDefinitionData {
        version: 1,
        procedure_name: "sum".to_string(),
        parameters: vec![
            Parameter {
                parameter_type: EntryType::Double,
                parameter_name: "a".to_string(),
                parameter_default: EntryValue::Double(0.0f64.to_bits()),
            },
            Parameter {
                parameter_type: EntryType::Double,
                parameter_name: "b".to_string(),
                parameter_default: EntryValue::Double(0.0f64.to_bits()),
            },
        ],
        results: vec![RpcResult { result_type: EntryType::Double, result_name: "result".to_string() }],
    }
}

#[test]
fn sum_definition_decodes_and_reencodes() {
    let blob = sum_blob();
    let mut wire = vec![blob.len() as u8];
    wire.extend_from_slice(&blob);
    let (d, n) = RPCDefinitionData::decode(&wire).unwrap();
    assert_eq!(n, wire.len());
    assert_eq!(d.version, 1);
    assert_eq!(d.procedure_name, "sum");
    assert_eq!(d.parameters.len(), 2);
    assert_eq!(d.results.len(), 1);
    assert_eq!(d.parameters[1].parameter_name, "b");
    assert_eq!(d.results[0].result_name, "result");
    let mut again = Vec::new();
    d.encode(&mut again);
    assert_eq!(again, wire);
}

#[test]
fn version_zero_definition_ignores_trailing_bytes() {
    let wire = vec![4, 0x00, 0xAA, 0xBB, 0xCC, 0x99];
    let (d, n) = RPCDefinitionData::decode(&wire).unwrap();
    assert_eq!(n, 5);
    assert_eq!(d.version, 0);
    assert_eq!(d.procedure_name, "");
    assert!(d.parameters.is_empty());
    assert!(d.results.is_empty());
}

#[test]
fn nonzero_version_is_read_as_one() {
    let mut blob = sum_blob();
    blob[0] = 0x07;
    let mut wire = vec![blob.len() as u8];
    wire.extend_from_slice(&blob);
    let (d, _) = RPCDefinitionData::decode(&wire).unwrap();
    assert_eq!(d.version, 1);
}

#[test]
fn definition_consumes_declared_length() {
    let mut blob = sum_blob();
    blob.extend_from_slice(&[0xde, 0xad]);
    let mut wire = vec![blob.len() as u8];
    wire.extend_from_slice(&blob);
    wire.push(0x42);
    let (d, n) = RPCDefinitionData::decode(&wire).unwrap();
    assert_eq!(n, wire.len() - 1);
    assert_eq!(d.parameters.len(), 2);
}

#[test]
fn definition_errors() {
    assert_eq!(RPCDefinitionData::decode(&[]).unwrap_err(), DecodeError::TruncatedInput);
    assert_eq!(RPCDefinitionData::decode(&[0]).unwrap_err(), DecodeError::TruncatedInput);
    assert_eq!(RPCDefinitionData::decode(&[5, 0]).unwrap_err(), DecodeError::TruncatedInput);
    let mut blob = sum_blob();
    blob[6] = 0x05;
    let mut wire = vec![blob.len() as u8];
    wire.extend_from_slice(&blob);
    assert_eq!(RPCDefinitionData::decode(&wire).unwrap_err(), DecodeError::UnknownTypeTag);
    let short = sum_blob()[..sum_blob().len() - 3].to_vec();
    let mut wire = vec![short.len() as u8];
    wire.extend_from_slice(&short);
    assert_eq!(RPCDefinitionData::decode(&wire).unwrap_err(), DecodeError::TruncatedInput);
}

#[test]
fn parameter_and_result_records() {
    let bytes = [0x00, 2, b'o', b'n', 1, 0xff];
    let (p, n) = Parameter::decode(&bytes).unwrap();
    assert_eq!(n, 5);
    assert_eq!(p.parameter_type, EntryType::Boolean);
    assert_eq!(p.parameter_name, "on");
    assert!(matches!(p.parameter_default, EntryValue::Boolean(true)));
    let mut out = Vec::new();
    p.encode(&mut out);
    assert_eq!(out, bytes[..5].to_vec());
    let (r, n) = RpcResult::decode(&[0x12, 1, b'z']).unwrap();
    assert_eq!(n, 3);
    assert_eq!(r.result_type, EntryType::StringArray);
    assert_eq!(r.result_name, "z");
}
