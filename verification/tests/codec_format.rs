//! The wire format: values, mappings and records, held against the
//! reference CBOR encoder where the value model allows it.

use std::collections::BTreeMap;

use uplog::codec::{decode_kv, decode_value, encode_kv, encode_value};
use uplog::kv::{Value, KV};
use uplog::record::{decode_record, encode_record, Level, Metadata, Record};

fn kv_bytes(kv: &KV) -> Vec<u8> {
    let mut out = Vec::new();
    encode_kv(kv, &mut out);
    out
}

fn reference_bytes(entries: Vec<(&str, serde_cbor::Value)>) -> Vec<u8> {
    let mut m: BTreeMap<String, serde_cbor::Value> = BTreeMap::new();
    for (k, v) in entries {
        m.insert(k.to_string(), v);
    }
    serde_cbor::to_vec(&m).unwrap()
}

#[test]
fn test_integer() {
    let mut kv = KV::new();
    kv.insert("i8".to_string(), Value::I64(1));
    kv.insert("i16".to_string(), Value::I64(42));
    kv.insert("i32".to_string(), Value::I64(72));
    kv.insert("i64".to_string(), Value::I64(i64::MIN));
    kv.insert("u8".to_string(), Value::U64(0));
    kv.insert("u16".to_string(), Value::U64(138));
    kv.insert("u32".to_string(), Value::U64(2568));
    kv.insert("u64".to_string(), Value::U64(3313));

    let buf = kv_bytes(&kv);
    assert_eq!(buf[0], 0xa8); // 8 entry map
    assert_eq!(buf.len(), 54);

    // the reference encoder produces the same bytes
    let expect = reference_bytes(vec![
        ("i8", serde_cbor::Value::Integer(1)),
        ("i16", serde_cbor::Value::Integer(42)),
        ("i32", serde_cbor::Value::Integer(72)),
        ("i64", serde_cbor::Value::Integer(i64::MIN as i128)),
        ("u8", serde_cbor::Value::Integer(0)),
        ("u16", serde_cbor::Value::Integer(138)),
        ("u32", serde_cbor::Value::Integer(2568)),
        ("u64", serde_cbor::Value::Integer(3313)),
    ]);
    assert_eq!(buf, expect);

    let (data, used) = decode_kv(&buf, 0).unwrap();
    assert_eq!(used, buf.len());
    match data.get("i64") {
        Some(Value::I64(x)) => assert_eq!(*x, i64::MIN),
        _ => unreachable!(),
    }
    match data.get("u64") {
        Some(Value::U64(x)) => assert_eq!(*x, 3313),
        _ => unreachable!(),
    }
    // non-negative signed integers widen to the unsigned variant
    match data.get("i8") {
        Some(Value::U64(x)) => assert_eq!(*x, 1),
        _ => unreachable!(),
    }
}

#[test]
fn test_float() {
    let testdata_f32 = -1.558_751_7_f32;
    let mut kv = KV::new();
    kv.insert("f32".to_string(), Value::F32Bits(testdata_f32.to_bits()));
    kv.insert("f64".to_string(), Value::F64Bits(f64::MAX.to_bits()));

    let buf = kv_bytes(&kv);
    assert_eq!(buf[0], 0xa2);
    assert_eq!(buf.len(), 23);
    assert_eq!(buf[5], 0xfa); // single precision keeps its width
    assert_eq!(buf[14], 0xfb); // double precision keeps its width

    let (data, _) = decode_kv(&buf, 0).unwrap();
    match data.get("f32") {
        Some(Value::F32Bits(x)) => assert_eq!(f32::from_bits(*x), testdata_f32),
        _ => unreachable!(),
    }
    match data.get("f64") {
        Some(Value::F64Bits(x)) => assert_eq!(f64::from_bits(*x), f64::MAX),
        _ => unreachable!(),
    }
}

#[test]
fn test_bool_null() {
    let mut kv = KV::new();
    kv.insert("t".to_string(), Value::Bool(true));
    kv.insert("f".to_string(), Value::Bool(false));
    kv.insert("unit".to_string(), Value::Null);

    let buf = kv_bytes(&kv);
    assert_eq!(buf[0], 0xa3);
    assert_eq!(buf.len(), 13);

    let expect = reference_bytes(vec![
        ("t", serde_cbor::Value::Bool(true)),
        ("f", serde_cbor::Value::Bool(false)),
        ("unit", serde_cbor::Value::Null),
    ]);
    assert_eq!(buf, expect);

    let (data, _) = decode_kv(&buf, 0).unwrap();
    match data.get("t") {
        Some(Value::Bool(x)) => assert_eq!(*x, true),
        _ => unreachable!(),
    }
    match data.get("f") {
        Some(Value::Bool(x)) => assert_eq!(*x, false),
        _ => unreachable!(),
    }
    match data.get("unit") {
        Some(Value::Null) => {}
        _ => unreachable!(),
    }
}

#[test]
fn test_string() {
    let testdata_str = "static ligetime str";
    let testdata_string = format!("owned String {}", 123);
    let mut kv = KV::new();
    kv.insert("str".to_string(), Value::text(testdata_str));
    kv.insert("String".to_string(), Value::Text(testdata_string.clone()));

    let buf = kv_bytes(&kv);
    assert_eq!(buf[0], 0xa2);
    assert_eq!(buf.len(), 49);

    let expect = reference_bytes(vec![
        ("str", serde_cbor::Value::Text(testdata_str.to_string())),
        ("String", serde_cbor::Value::Text(testdata_string.clone())),
    ]);
    assert_eq!(buf, expect);

    let (data, _) = decode_kv(&buf, 0).unwrap();
    match data.get("str") {
        Some(Value::Text(x)) => assert_eq!(x, testdata_str),
        _ => unreachable!(),
    }
    match data.get("String") {
        Some(Value::Text(x)) => assert_eq!(x, &testdata_string),
        _ => unreachable!(),
    }
}

#[test]
fn test_bytes() {
    let testdata = vec![64_u8; 512];
    let mut kv = KV::new();
    kv.insert("byte_slice".to_string(), Value::bytes(&testdata[0..32]));
    kv.insert("byte_array".to_string(), Value::bytes(&testdata));
    kv.insert("byte_owned".to_string(), Value::Bytes(vec![16_u8; 1024]));

    let buf = kv_bytes(&kv);
    assert_eq!(buf[0], 0xa3);

    let expect = reference_bytes(vec![
        ("byte_slice", serde_cbor::Value::Bytes(testdata[0..32].to_vec())),
        ("byte_array", serde_cbor::Value::Bytes(testdata.clone())),
        ("byte_owned", serde_cbor::Value::Bytes(vec![16_u8; 1024])),
    ]);
    assert_eq!(buf, expect);

    let (data, _) = decode_kv(&buf, 0).unwrap();
    match data.get("byte_slice") {
        Some(Value::Bytes(x)) => {
            assert_eq!(x.len(), 32);
            assert_eq!(x[0..32], testdata[0..32]);
        }
        _ => unreachable!(),
    }
    match data.get("byte_array") {
        Some(Value::Bytes(x)) => {
            assert_eq!(x.len(), 512);
            assert_eq!(x, &testdata);
        }
        _ => unreachable!(),
    }
    match data.get("byte_owned") {
        Some(Value::Bytes(x)) => {
            assert_eq!(x.len(), 1024);
            assert_eq!(x[0], 16);
        }
        _ => unreachable!(),
    }
}

#[test]
fn test_array() {
    let mut kv = KV::new();
    kv.insert(
        "str_vec".to_string(),
        Value::Array(vec![Value::text("hello"), Value::text("world")]),
    );
    kv.insert(
        "String_vec".to_string(),
        Value::Array(vec![
            Value::Text("hello".to_string()),
            Value::Text("world".to_string()),
        ]),
    );
    kv.insert(
        "float_vec".to_string(),
        Value::Array(vec![
            Value::F32Bits(1.0_f32.to_bits()),
            Value::F32Bits(8.6_f32.to_bits()),
            Value::F32Bits(778.68_f32.to_bits()),
        ]),
    );
    kv.insert(
        "uint_vec".to_string(),
        Value::Array(vec![Value::U64(0), Value::U64(5), Value::U64(8)]),
    );

    let buf = kv_bytes(&kv);
    assert_eq!(buf[0], 0xa4);
    // every single-precision member keeps its four-byte width on the
    // wire, so the exactly-representable 1.0 is not narrowed
    assert_eq!(buf.len(), 85);

    let (data, _) = decode_kv(&buf, 0).unwrap();
    match data.get("float_vec") {
        Some(Value::Array(x)) => {
            assert_eq!(x.len(), 3);
            let expect = [1.0_f32, 8.6, 778.68];
            for (actual, e) in x.iter().zip(expect.iter()) {
                match actual {
                    Value::F32Bits(b) => assert_eq!(f32::from_bits(*b), *e),
                    _ => unreachable!(),
                }
            }
        }
        _ => unreachable!(),
    }
    match data.get("uint_vec") {
        Some(Value::Array(x)) => {
            assert_eq!(x.len(), 3);
            let expect = [0_u64, 5, 8];
            for (actual, e) in x.iter().zip(expect.iter()) {
                match actual {
                    Value::U64(b) => assert_eq!(b, e),
                    _ => unreachable!(),
                }
            }
        }
        _ => unreachable!(),
    }
}

#[test]
fn test_value_widening_round_trip() {
    // decode of encode returns the value with non-negative signed
    // integers widened, and reports the exact number of bytes consumed
    let mut buf = Vec::new();
    encode_value(&Value::I64(5), &mut buf);
    let used_i = buf.len();
    encode_value(&Value::I64(-5), &mut buf);
    let (v1, p1) = decode_value(&buf, 0).unwrap();
    assert_eq!(v1, Value::U64(5));
    assert_eq!(p1, used_i);
    let (v2, p2) = decode_value(&buf, p1).unwrap();
    assert_eq!(v2, Value::I64(-5));
    assert_eq!(p2, buf.len());
}

#[test]
fn test_decode_truncated_fails() {
    let mut buf = Vec::new();
    encode_value(&Value::text("hello world"), &mut buf);
    buf.truncate(buf.len() - 1);
    assert!(decode_value(&buf, 0).is_err());
    // an unknown tag fails as well
    let bad = vec![0xc0_u8, 0x00];
    assert!(decode_value(&bad, 0).is_err());
}

fn sample_record(kv: Option<KV>) -> Record {
    Record {
        metadata: Metadata::new(Level::Info, "tests".to_string()),
        elapsed_secs: 12,
        elapsed_nanos: 345_600_000,
        category: "test.category".to_string(),
        modpath: Some("tests".to_string()),
        file: Some("uplog/src/lib.rs".to_string()),
        line: Some(360),
        message: "test_message".to_string(),
        kv,
    }
}

#[test]
fn test_metadata() {
    let target = "xxx";
    let metadata = Metadata::new(Level::Info, target.to_string());
    let mut rec = sample_record(None);
    rec.metadata = metadata;
    let mut buf = Vec::new();
    encode_record(&rec, &mut buf);
    let (decoded, _) = decode_record(&buf, 0).unwrap();
    assert_eq!(rec.metadata, decoded.metadata);
    assert_eq!(decoded.metadata.target(), target);
}

#[test]
fn test_record() {
    let record = sample_record(None);
    let mut encoded = Vec::new();
    encode_record(&record, &mut encoded);
    let (decoded, used) = decode_record(&encoded, 0).unwrap();
    assert_eq!(record, decoded);
    assert_eq!(used, encoded.len());
}

#[test]
fn test_record_kv() {
    let mut kv = KV::new();
    kv.insert("u8".to_string(), Value::U64(42));
    kv.insert("i64".to_string(), Value::I64(i64::MIN));
    kv.insert("property".to_string(), Value::text("alice"));
    let record = sample_record(Some(kv));
    let mut encoded = Vec::new();
    encode_record(&record, &mut encoded);
    let (decoded, _) = decode_record(&encoded, 0).unwrap();
    assert_eq!(record, decoded);

    // check display format
    let actual = uplog::render::render(&record);
    let expect = r#"{i64 = -9223372036854775808, property = "alice", u8 = 42, }"#;
    assert!(actual.contains("[Info]"));
    assert!(actual.contains("[test.category] test_message (uplog/src/lib.rs"));
    assert!(actual.contains(expect));
}

#[test]
fn test_kv_insert_replaces_and_sorts() {
    let mut kv = KV::new();
    kv.insert("b".to_string(), Value::U64(1));
    kv.insert("a".to_string(), Value::U64(2));
    kv.insert("b".to_string(), Value::U64(3));
    assert_eq!(kv.len(), 2);
    match kv.get("b") {
        Some(Value::U64(x)) => assert_eq!(*x, 3),
        _ => unreachable!(),
    }
    let buf = kv_bytes(&kv);
    // keys come out sorted: "a" before "b"
    assert_eq!(buf[1], 0x61); // text of length 1
    assert_eq!(buf[2], b'a');
}
