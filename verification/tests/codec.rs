//! Registry, decoder and encoder behaviour on concrete payloads, including
//! cross-checks against a general-purpose JSON library.

use opstream::DecodeError;
use opstream::NumberText;
use opstream::Operation;
use opstream::PayloadResponse;
use opstream::Request;
use opstream::RequiredField;
use opstream::ResultValue;
use opstream::Topic;
use opstream::parse_request;

fn decode(bytes: &[u8]) -> Result<Request, DecodeError> {
    parse_request(&Topic::Minus, bytes)
}

fn num(text: &str) -> NumberText {
    NumberText::new(text.as_bytes().to_vec()).expect("valid number token")
}

#[test]
fn registry_resolves_known_channel() {
    let t = Topic::from_name(b"MINUS").expect("known channel");
    assert_eq!(t, Topic::Minus);
    assert_eq!(t.output_topic(), "MINUS_RESULT");
    assert_eq!(t.output_name(), b"MINUS_RESULT".to_vec());
}

#[test]
fn registry_rejects_unknown_channels() {
    assert!(Topic::from_name(b"PLUS").is_err());
    assert!(Topic::from_name(b"minus").is_err());
    assert!(Topic::from_name(b"MINUS ").is_err());
    assert!(Topic::from_name(b" MINUS").is_err());
    assert!(Topic::from_name(b"MINU").is_err());
    assert!(Topic::from_name(b"MINUSX").is_err());
    assert!(Topic::from_name(b"").is_err());
    assert!(Topic::from_name(b"MINUS_RESULT").is_err());
}

#[test]
fn decodes_valid_payload() {
    let req = decode(br#"{"id": 42, "operands": [10.5, 3.25]}"#).expect("decodes");
    assert_eq!(req.id, 42);
    let Operation::Minus(l, r) = req.op;
    assert_eq!(l.bytes, b"10.5".to_vec());
    assert_eq!(r.bytes, b"3.25".to_vec());
}

#[test]
fn decodes_members_in_either_order() {
    let req = decode(br#"{"operands": [1, 2], "id": 7}"#).expect("decodes");
    assert_eq!(req.id, 7);
    let Operation::Minus(l, r) = req.op;
    assert_eq!(l.bytes, b"1".to_vec());
    assert_eq!(r.bytes, b"2".to_vec());
}

#[test]
fn decodes_with_arbitrary_whitespace() {
    let req = decode(b" \t{\r\n \"id\" : 9 , \"operands\" : [ -1.5e2 , 0 ] }\n").expect("decodes");
    assert_eq!(req.id, 9);
    let Operation::Minus(l, r) = req.op;
    assert_eq!(l.bytes, b"-1.5e2".to_vec());
    assert_eq!(r.bytes, b"0".to_vec());
}

#[test]
fn extra_operands_are_ignored() {
    let req = decode(br#"{"id": 1, "operands": [5, 6, 7, 8]}"#).expect("decodes");
    let Operation::Minus(l, r) = req.op;
    assert_eq!(l.bytes, b"5".to_vec());
    assert_eq!(r.bytes, b"6".to_vec());
}

#[test]
fn one_operand_is_an_arity_error() {
    assert_eq!(decode(br#"{"id": 7, "operands": [5]}"#).err(), Some(DecodeError::Arity { found: 1 }));
}

#[test]
fn zero_operands_is_an_arity_error() {
    assert_eq!(decode(br#"{"id": 7, "operands": []}"#).err(), Some(DecodeError::Arity { found: 0 }));
}

#[test]
fn empty_object_misses_id_first() {
    assert_eq!(decode(b"{}").err(), Some(DecodeError::MissingField(RequiredField::Id)));
    assert_eq!(decode(b" { } ").err(), Some(DecodeError::MissingField(RequiredField::Id)));
}

#[test]
fn missing_operands_is_reported() {
    assert_eq!(
        decode(br#"{"id": 1}"#).err(),
        Some(DecodeError::MissingField(RequiredField::Operands))
    );
}

#[test]
fn missing_id_is_reported() {
    assert_eq!(
        decode(br#"{"operands": [1, 2]}"#).err(),
        Some(DecodeError::MissingField(RequiredField::Id))
    );
}

#[test]
fn malformed_payloads_are_rejected() {
    let cases: Vec<&[u8]> = vec![
        b"",
        b"   ",
        b"not json",
        br#"["id", 1]"#,
        br#"{"id": 1, "operands": [1, 2]"#,
        br#"{"id": 1, "operands": [1, 2]} trailing"#,
        br#"{"id": -1, "operands": [1, 2]}"#,
        br#"{"id": 1.5, "operands": [1, 2]}"#,
        br#"{"id": 007, "operands": [1, 2]}"#,
        br#"{"id": "1", "operands": [1, 2]}"#,
        br#"{"id": 1, "operands": [1, 2], "extra": 3}"#,
        br#"{"id": 1, "id": 2}"#,
        br#"{"id": 1, "id": 2, "operands": [1, 2]}"#,
        br#"{"operands": [1], "operands": [2]}"#,
        br#"{"ops": [1, 2], "id": 1}"#,
        br#"{"id": 1, "operands": [1,]}"#,
        br#"{"id": 1, "operands": [01]}"#,
        br#"{"id": 1, "operands": [+1, 2]}"#,
        br#"{"id": 1, "operands": [1., 2]}"#,
        br#"{"id": 1, "operands": [.5, 2]}"#,
        br#"{"id": 1, "operands": [1e, 2]}"#,
        br#"{"id": 1, "operands": 5}"#,
        br#"{"id": 1, "operands": ["1", "2"]}"#,
    ];
    for c in cases {
        assert_eq!(
            decode(c).err(),
            Some(DecodeError::Malformed),
            "payload {:?}",
            String::from_utf8_lossy(c)
        );
    }
}

#[test]
fn id_covers_the_full_128_bit_range() {
    let max = br#"{"id": 340282366920938463463374607431768211455, "operands": [1, 2]}"#;
    let req = decode(max).expect("decodes");
    assert_eq!(req.id, u128::MAX);
    let over = br#"{"id": 340282366920938463463374607431768211456, "operands": [1, 2]}"#;
    assert_eq!(decode(over).err(), Some(DecodeError::Malformed));
    let zero = decode(br#"{"id": 0, "operands": [1, 2]}"#).expect("decodes");
    assert_eq!(zero.id, 0);
}

#[test]
fn decoding_is_deterministic() {
    let cases: Vec<&[u8]> = vec![
        br#"{"id": 3, "operands": [4, 5]}"#,
        br#"{"id": 3, "operands": [4]}"#,
        br#"{"id": 3}"#,
        b"garbage",
    ];
    for c in cases {
        let first = decode(c);
        let second = decode(c);
        match (first, second) {
            (Ok(a), Ok(b)) => {
                assert_eq!(a.id, b.id);
                let Operation::Minus(al, ar) = a.op;
                let Operation::Minus(bl, br_) = b.op;
                assert_eq!(al.bytes, bl.bytes);
                assert_eq!(ar.bytes, br_.bytes);
            },
            (Err(a), Err(b)) => assert_eq!(a, b),
            _ => panic!("two decodes of the same bytes disagreed"),
        }
    }
}

#[test]
fn number_token_validation() {
    for good in ["0", "-0.5", "1e10", "1E+3", "12.34", "-7", "2e-8", "10.5"] {
        assert!(NumberText::new(good.as_bytes().to_vec()).is_some(), "token {:?}", good);
    }
    for bad in ["", "01", "+1", "1.", ".5", "1e", "--2", "5 ", " 5", "1..2", "NaN", "null"] {
        assert!(NumberText::new(bad.as_bytes().to_vec()).is_none(), "token {:?}", bad);
    }
}

#[test]
fn encodes_number_result() {
    let out = PayloadResponse::new(42, ResultValue::Number(num("7.25"))).encode();
    assert_eq!(out, br#"{"id":42,"result":7.25}"#.to_vec());
}

#[test]
fn encodes_null_for_unrepresentable_results() {
    let out = PayloadResponse::new(7, ResultValue::Null).encode();
    assert_eq!(out, br#"{"id":7,"result":null}"#.to_vec());
}

#[test]
fn encodes_extreme_ids() {
    let out = PayloadResponse::new(0, ResultValue::Null).encode();
    assert_eq!(out, br#"{"id":0,"result":null}"#.to_vec());
    let out = PayloadResponse::new(u128::MAX, ResultValue::Number(num("1"))).encode();
    assert_eq!(
        out,
        br#"{"id":340282366920938463463374607431768211455,"result":1}"#.to_vec()
    );
}

#[test]
fn encoded_output_reads_back_with_a_json_library() {
    let out = PayloadResponse::new(42, ResultValue::Number(num("7.25"))).encode();
    let v: serde_json::Value = serde_json::from_slice(&out).expect("well-formed JSON");
    assert_eq!(v.get("id").and_then(|x| x.as_u64()), Some(42));
    assert_eq!(v.get("result").and_then(|x| x.as_f64()), Some(7.25));
    let out = PayloadResponse::new(9, ResultValue::Null).encode();
    let v: serde_json::Value = serde_json::from_slice(&out).expect("well-formed JSON");
    assert!(v.get("result").expect("member present").is_null());
}

#[test]
fn json_library_output_decodes() {
    let mut obj = serde_json::Map::new();
    obj.insert("id".to_string(), serde_json::Value::from(42u64));
    obj.insert(
        "operands".to_string(),
        serde_json::Value::Array(vec![
            serde_json::Value::from(10.5f64),
            serde_json::Value::from(3.25f64),
        ]),
    );
    let text = serde_json::to_string(&serde_json::Value::Object(obj)).expect("serializes");
    let req = decode(text.as_bytes()).expect("decodes");
    assert_eq!(req.id, 42);
    let Operation::Minus(l, r) = req.op;
    let lv: f64 = std::str::from_utf8(&l.bytes).unwrap().parse().unwrap();
    let rv: f64 = std::str::from_utf8(&r.bytes).unwrap().parse().unwrap();
    assert_eq!(lv, 10.5);
    assert_eq!(rv, 3.25);
}
