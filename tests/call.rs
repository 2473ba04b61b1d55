use nt::{
    DecodeError, EntryType, EntryValue, Parameter, RPCDefinitionData, RPCExecutionBody,
    RPCResponseBody, RPCV0ExecuteBody, RPCV1ExecuteBody, RpcResult,
};

fn adder() -> RPCDefinitionData {
    RPCDefinitionData::new(
        "add".to_string(),
        vec![
            Parameter {
                parameter_type: EntryType::Double,
                parameter_name: "a".to_string(),
                parameter_default: EntryValue::Double(0),
            },
            Parameter {
                parameter_type: EntryType::String,
                parameter_name: "label".to_string(),
                parameter_default: EntryValue::String(String::new()),
            },
        ],
        vec![
            RpcResult { result_type: EntryType::Boolean, result_name: "ok".to_string() },
            RpcResult { result_type: EntryType::Raw, result_name: "data".to_string() },
        ],
    )
}

#[test]
fn execution_v0_writes_bytes_verbatim() {
    let body = RPCExecutionBody::V0(RPCV0ExecuteBody { bytes: vec![1, 2, 3] });
    let mut out = vec![0xAA];
    body.encode(&mut out);
    assert_eq!(out, vec![0xAA, 1, 2, 3]);
}

#[test]
fn execution_v1_writes_values_in_order_and_reads_back() {
    let body = RPCExecutionBody::V1(RPCV1ExecuteBody {
        parameters: vec![EntryValue::Double(2.5f64.to_bits()), EntryValue::String("hi".to_string())],
    });
    let mut out = Vec::new();
    body.encode(&mut out);
    let mut expected = 2.5f64.to_bits().to_be_bytes().to_vec();
    expected.extend_from_slice(&[2, b'h', b'i']);
    assert_eq!(out, expected);
    let (back, n) = RPCExecutionBody::decode(&out, &adder()).unwrap();
    assert_eq!(n, out.len());
    match back {
        RPCExecutionBody::V1(b) => {
            assert_eq!(b.parameters.len(), 2);
            assert!(matches!(&b.parameters[1], EntryValue::String(s) if s == "hi"));
        },
        RPCExecutionBody::V0(_) => panic!("wrong version"),
    }
}

#[test]
fn response_v1_decodes_against_definition() {
    let bytes = vec![1, 3, 7, 8, 9, 0xFF];
    let (r, n) = RPCResponseBody::decode(&bytes, &adder()).unwrap();
    assert_eq!(n, 5);
    match r {
        RPCResponseBody::V1(b) => {
            assert_eq!(b.results.len(), 2);
            assert!(matches!(b.results[0], EntryValue::Boolean(true)));
            assert!(matches!(&b.results[1], EntryValue::Raw(x) if *x == vec![7, 8, 9]));
        },
        RPCResponseBody::V0(_) => panic!("wrong version"),
    }
    assert_eq!(RPCResponseBody::decode(&bytes[..4], &adder()).unwrap_err(), DecodeError::TruncatedInput);
}

#[test]
fn response_v0_takes_whole_buffer() {
    let (r, n) = RPCResponseBody::decode(&[4, 5, 6], &RPCDefinitionData::empty()).unwrap();
    assert_eq!(n, 3);
    match r {
        RPCResponseBody::V0(b) => assert_eq!(b.bytes, vec![4, 5, 6]),
        RPCResponseBody::V1(_) => panic!("wrong version"),
    }
}
