//! Concrete instances of the laws the library proves, one error case per error
//! variant, and the edges the codec handles.

use sparkplug_b::compress::{compress, decompress, Compression};
use sparkplug_b::sequence::{bdseq_text, parse_bdseq};
use sparkplug_b::topic::validate_id;
use sparkplug_b::value::{DataSetValue, MetricValue, PropertyValue};
use sparkplug_b::{
    decode, encode, AliasRegistry, DataSet, DataType, EncodeOptions, GroupId, MessageType, Metric,
    MetricKey, Payload, PropertySet, SparkplugError, SparkplugTopic, StatePayload,
};

fn mixed_payload() -> Payload {
    Payload::new()
        .with_timestamp(1_700_000_000_000)
        .with_seq(3)
        .with_metric(Metric::new("t", MetricValue::Double(21.5f64.to_bits())).with_alias(1))
        .with_metric(Metric::new("on", MetricValue::Boolean(true)).with_alias(2))
        .with_metric(Metric::new("arr", MetricValue::UInt16Array(vec![1, 2, 65535])).with_alias(3))
        .with_metric(Metric::new("n", MetricValue::Null(DataType::Int64)).with_alias(4))
}

fn registry_for(p: &Payload) -> AliasRegistry {
    let mut reg = AliasRegistry::new();
    for m in &p.metrics {
        reg.bind(m.name.as_deref().unwrap_or(""), m.alias, m.datatype());
    }
    reg
}

#[test]
fn birth_roundtrip_without_registry() {
    let p = mixed_payload();
    let bytes = encode(&p, EncodeOptions::birth());
    assert_eq!(decode(&bytes, None).unwrap(), p);
}

#[test]
fn data_roundtrip_with_birth_registry() {
    let p = mixed_payload();
    let reg = registry_for(&p);
    let bytes = encode(&p, EncodeOptions::data());
    assert_eq!(decode(&bytes, Some(&reg)).unwrap(), p);
}

#[test]
fn stripped_encoding_is_shorter_than_birth_encoding() {
    let p = mixed_payload();
    assert!(encode(&p, EncodeOptions::data()).len() < encode(&p, EncodeOptions::birth()).len());
}

#[test]
fn empty_payload_encodes_to_nothing_and_back() {
    let p = Payload::new();
    let bytes = encode(&p, EncodeOptions::birth());
    assert!(bytes.is_empty());
    assert_eq!(decode(&bytes, None).unwrap(), p);
}

#[test]
fn unknown_fields_are_skipped() {
    // field 6 (varint 1) is not part of the payload message; field 3 is seq = 9.
    let bytes = [0x30, 0x01, 0x18, 0x09];
    let p = decode(&bytes, None).unwrap();
    assert_eq!(p.seq, Some(9));
    assert!(p.metrics.is_empty());
}

#[test]
fn reserved_wire_type_is_refused() {
    // field 1 with wire type 3 (start group).
    let bytes = [0x0B];
    assert!(matches!(decode(&bytes, None), Err(SparkplugError::InvalidWireType(3))));
}

#[test]
fn dataset_shape_error_on_decode() {
    // A DataSet metric whose dataset has one column name and no column type.
    // metric: datatype 16 (DataSet), dataset_value (17) = { columns: "a" }
    let ds = [0x12, 0x01, 0x61];
    let mut metric = vec![0x20, 0x10, 0x8A, 0x01, ds.len() as u8];
    metric.extend_from_slice(&ds);
    let mut bytes = vec![0x12, metric.len() as u8];
    bytes.extend_from_slice(&metric);
    assert!(matches!(decode(&bytes, None), Err(SparkplugError::DataSetShape(_))));
}

#[test]
fn dataset_new_rejects_ragged_rows() {
    let bad = DataSet::new(vec!["a".into(), "b".into()], vec![DataType::Int8, DataType::Int8], vec![vec![]]);
    assert!(matches!(bad, Err(SparkplugError::DataSetShape(_))));
    let short = DataSet::new(vec!["a".into()], vec![], vec![]);
    assert!(matches!(short, Err(SparkplugError::DataSetShape(_))));
}

#[test]
fn property_set_lookup_finds_first_match() {
    let ps = PropertySet::new()
        .with("k", PropertyValue::Int32(1))
        .with("k", PropertyValue::Int32(2));
    assert_eq!(ps.len(), 2);
    assert_eq!(ps.get("k"), Some(&PropertyValue::Int32(1)));
    assert_eq!(ps.get("missing"), None);
    assert!(PropertySet::new().is_empty());
}

#[test]
fn topic_parse_and_format_undo_each_other() {
    for s in ["spBv1.0/G/NDEATH/E", "spBv1.0/G/DBIRTH/E/D", "spBv1.0/STATE/h"] {
        let t = SparkplugTopic::parse(s).unwrap();
        assert_eq!(t.to_string(), s);
        assert_eq!(SparkplugTopic::parse(&t.to_string()).unwrap(), t);
    }
}

#[test]
fn topic_errors_name_their_kind() {
    assert!(matches!(SparkplugTopic::parse("spBv1.0/G/NBIRTH/"), Err(SparkplugError::InvalidId(_))));
    assert!(matches!(SparkplugTopic::parse("spBv1.0/G/XYZ/E"), Err(SparkplugError::InvalidTopic(_))));
    assert!(matches!(SparkplugTopic::parse("spBv1.0/STATE/a+b"), Err(SparkplugError::InvalidId(_))));
    assert!(validate_id("ok").is_ok());
    assert!(matches!(validate_id(""), Err(SparkplugError::InvalidId(_))));
    assert!(GroupId::new("g/1").is_err());
    assert_eq!(MessageType::NCmd.as_str(), "NCMD");
    assert!(MessageType::DCmd.is_command());
    assert!(!MessageType::NData.is_command());
    assert_eq!("DDEATH".parse::<MessageType>().unwrap(), MessageType::DDeath);
}

#[test]
fn topic_constructors_check_the_message_type() {
    let g = GroupId::new("g").unwrap();
    let e = sparkplug_b::EdgeNodeId::new("e").unwrap();
    assert!(SparkplugTopic::node(g.clone(), e.clone(), MessageType::DData).is_err());
    let t = SparkplugTopic::node(g, e, MessageType::NData).unwrap();
    assert_eq!(t.to_string(), "spBv1.0/g/NDATA/e");
}

#[test]
fn state_json_roundtrips_negative_and_extreme_timestamps() {
    for ts in [i64::MIN, -1, 0, 9, i64::MAX] {
        for online in [true, false] {
            let s = StatePayload::new(online, ts);
            assert_eq!(StatePayload::parse(&s.to_json()).unwrap(), s);
        }
    }
    assert_eq!(StatePayload::new(false, -42).to_json(), r#"{"online":false,"timestamp":-42}"#);
    assert!(matches!(StatePayload::parse("{}"), Err(SparkplugError::InvalidState(_))));
    assert!(StatePayload::parse(r#"{"online":true,"timestamp":9223372036854775808}"#).is_err());
    assert_eq!(
        StatePayload::parse(r#"{"online":true,"timestamp":+7}"#).unwrap(),
        StatePayload::new(true, 7)
    );
}

#[test]
fn bdseq_text_reads_back() {
    for v in [0u8, 7, 200, 255] {
        assert_eq!(parse_bdseq(&bdseq_text(v)), Some(v));
    }
    assert_eq!(parse_bdseq(" 12\n"), Some(12));
    assert_eq!(parse_bdseq("256"), None);
    assert_eq!(parse_bdseq("-1"), None);
    assert_eq!(parse_bdseq(""), None);
}

#[test]
fn compression_envelope_roundtrips_stripped_payloads() {
    let p = mixed_payload();
    let reg = registry_for(&p);
    for algo in [Compression::Deflate, Compression::Gzip] {
        let env = compress(&p, EncodeOptions::data(), algo).unwrap();
        assert_eq!(decompress(&env, Some(&reg)).unwrap(), p);
    }
}

#[test]
fn decompress_reports_corrupt_bodies_as_io() {
    let mut env = Payload::new();
    env.uuid = Some(sparkplug_b::COMPRESSED_PAYLOAD_UUID.to_owned());
    env.body = Some(vec![0xFF, 0xFF, 0xFF]);
    assert!(matches!(decompress(&env, None), Err(SparkplugError::Io(_))));
}

#[test]
fn alias_registry_lookups_and_clear() {
    let mut reg = AliasRegistry::new();
    reg.bind("temp", Some(10), DataType::Float);
    reg.bind("name-only", None, DataType::String);
    assert_eq!(reg.datatype_for_name("temp"), Some(DataType::Float));
    assert_eq!(reg.datatype_for_alias(10), Some(DataType::Float));
    assert_eq!(reg.datatype_for(&MetricKey::Alias(10)), Some(DataType::Float));
    assert_eq!(reg.datatype_for(&MetricKey::Name("name-only".into())), Some(DataType::String));
    assert_eq!(reg.alias_for_name("temp"), Some(10));
    assert_eq!(reg.alias_for_name("name-only"), None);
    assert!(reg.alias_exists(10));
    reg.clear();
    assert!(!reg.alias_exists(10));
    assert_eq!(reg.datatype_for_name("temp"), None);
}

#[test]
fn state_keys_must_be_quoted() {
    assert!(matches!(
        StatePayload::parse("{online:true,timestamp:1}"),
        Err(SparkplugError::InvalidState(_))
    ));
    assert!(matches!(
        StatePayload::parse("{\"online:true,\"timestamp\":1}"),
        Err(SparkplugError::InvalidState(_))
    ));
    let s = StatePayload::parse(" { \"timestamp\" : -5 , \"online\" : false } ").unwrap();
    assert!(!s.online);
    assert_eq!(s.timestamp, -5);
}

#[test]
fn compress_succeeds_with_either_algorithm() {
    for algo in [Compression::Deflate, Compression::Gzip] {
        let p = mixed_payload();
        let env = compress(&p, EncodeOptions::birth(), algo).unwrap();
        assert_eq!(env.uuid.as_deref(), Some("SPBV1.0_COMPRESSED"));
        assert_eq!(env.seq, p.seq);
        assert_eq!(env.timestamp, None);
        assert_eq!(env.metrics.len(), if algo == Compression::Gzip { 1 } else { 0 });
        assert_eq!(decompress(&env, None).unwrap(), p);
    }
}

#[test]
fn ids_and_message_types_print_their_text() {
    assert_eq!(MessageType::DData.to_string(), "DDATA");
    assert_eq!(GroupId::new("Plant1").unwrap().to_string(), "Plant1");
}

#[test]
fn dataset_clone_is_equal() {
    let ds = DataSet::new(
        vec!["a".to_string(), "b".to_string()],
        vec![DataType::Int32, DataType::String],
        vec![vec![DataSetValue::Int32(7), DataSetValue::String("x".to_string())], vec![DataSetValue::Null, DataSetValue::Null]],
    )
    .unwrap();
    assert_eq!(ds.clone(), ds);
}

#[test]
fn property_set_key_value_count_mismatch_names_both_counts() {
    // PropertySet { keys: ["a", "b"], values: [] }
    let bytes: Vec<u8> = vec![0x0a, 0x01, b'a', 0x0a, 0x01, b'b'];
    match sparkplug_b::codec::decode::decode_property_set(&bytes, 0) {
        Err(SparkplugError::ValueTypeMismatch(msg)) => assert_eq!(msg, "PropertySet has 2 keys but 0 values"),
        other => panic!("unexpected {other:?}"),
    }
}
