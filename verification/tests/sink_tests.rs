use compute_telemetry::ids::GlobalId;
use compute_telemetry::sink::{
    derive_topic_configs, key_schema_plan, parse_i32, resolve_topic_options, ConfigEntry,
    NumberError, ProgressKey, SchemaPlanError, SchemaType, TopicConfigError, TopicConfigs,
};

fn entry(name: &str, value: Option<&str>) -> ConfigEntry {
    ConfigEntry { name: name.to_string(), value: value.map(|v| v.to_string()) }
}

#[test]
fn progress_key_renders_the_sink_id() {
    assert_eq!(ProgressKey::new(GlobalId::User(42)).as_str(), "mz-sink-u42");
    assert_eq!(ProgressKey::new(GlobalId::System(0)).as_str(), "mz-sink-s0");
    assert_eq!(ProgressKey::new(GlobalId::Transient(1200)).as_str(), "mz-sink-t1200");
    assert_eq!(ProgressKey::new(GlobalId::Explain).as_str(), "mz-sink-Explained");
}

#[test]
fn progress_key_bytes_match_its_text() {
    let key = ProgressKey::new(GlobalId::User(7));
    assert_eq!(key.to_bytes(), b"mz-sink-u7");
}

#[test]
fn parse_accepts_signed_decimals() {
    assert_eq!(parse_i32("42"), Ok(42));
    assert_eq!(parse_i32("+13"), Ok(13));
    assert_eq!(parse_i32("-7"), Ok(-7));
    assert_eq!(parse_i32("0"), Ok(0));
    assert_eq!(parse_i32("2147483647"), Ok(i32::MAX));
    assert_eq!(parse_i32("-2147483648"), Ok(i32::MIN));
}

#[test]
fn parse_rejects_bad_shapes_and_overflow() {
    assert_eq!(parse_i32(""), Err(NumberError::Invalid));
    assert_eq!(parse_i32("-"), Err(NumberError::Invalid));
    assert_eq!(parse_i32("12x"), Err(NumberError::Invalid));
    assert_eq!(parse_i32(" 7"), Err(NumberError::Invalid));
    assert_eq!(parse_i32("2147483648"), Err(NumberError::OutOfRange));
    assert_eq!(parse_i32("-2147483649"), Err(NumberError::OutOfRange));
    assert_eq!(parse_i32("99999999999999999999"), Err(NumberError::OutOfRange));
}

#[test]
fn topic_configs_take_the_first_valued_entry() {
    let entries = vec![
        entry("num.partitions", None),
        entry("other", Some("9")),
        entry("num.partitions", Some("4")),
        entry("default.replication.factor", Some("2")),
        entry("num.partitions", Some("8")),
    ];
    let c = derive_topic_configs(1, 1, &entries).unwrap();
    assert_eq!(c, TopicConfigs { partition_count: 4, replication_factor: 2 });
}

#[test]
fn topic_configs_default_to_minus_one() {
    let entries = vec![entry("other", Some("9"))];
    let c = derive_topic_configs(2, 1, &entries).unwrap();
    assert_eq!(c, TopicConfigs { partition_count: -1, replication_factor: -1 });
}

#[test]
fn topic_configs_validate_the_answer() {
    let entries = vec![entry("num.partitions", Some("4"))];
    assert_eq!(derive_topic_configs(0, 1, &entries), Err(TopicConfigError::NoBrokers));
    assert_eq!(derive_topic_configs(1, 2, &entries), Err(TopicConfigError::WrongConfigCount));
    assert_eq!(derive_topic_configs(1, 1, &vec![]), Err(TopicConfigError::EmptyConfig));
    let bad = vec![entry("num.partitions", Some("many"))];
    assert_eq!(derive_topic_configs(1, 1, &bad), Err(TopicConfigError::BadPartitionCount));
    let bad = vec![entry("default.replication.factor", Some("3.5"))];
    assert_eq!(derive_topic_configs(1, 1, &bad), Err(TopicConfigError::BadReplicationFactor));
}

#[test]
fn topic_options_prefer_fixed_then_discovered() {
    let discovered = TopicConfigs { partition_count: 6, replication_factor: 2 };
    assert_eq!(resolve_topic_options(Some(3), None, Some(&discovered)), (3, 2));
    assert_eq!(resolve_topic_options(None, Some(1), Some(&discovered)), (6, 1));
    assert_eq!(resolve_topic_options(None, None, None), (-1, -1));
}

#[test]
fn key_schema_requires_its_type() {
    assert_eq!(key_schema_plan(None, None), Ok(None));
    assert_eq!(
        key_schema_plan(Some("k".to_string()), None),
        Err(SchemaPlanError::MissingKeySchemaType)
    );
    assert_eq!(
        key_schema_plan(Some("k".to_string()), Some(SchemaType::Avro)),
        Ok(Some(("k".to_string(), SchemaType::Avro)))
    );
}
