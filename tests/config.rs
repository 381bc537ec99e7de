use lakesoul_io::config::{check_fs_type_enabled, lookup_option, s3_settings, LakeSoulReaderConfigBuilder};
use lakesoul_io::error::EngineError;

fn opts(pairs: &[(&str, &str)]) -> Vec<(String, String)> {
    pairs.iter().map(|(k, v)| (k.to_string(), v.to_string())).collect()
}

#[test]
fn file_system_is_on_only_when_enabled_reads_true() {
    assert!(check_fs_type_enabled(&opts(&[("fs.s3.enabled", "true")]), "s3"));
    assert!(!check_fs_type_enabled(&opts(&[("fs.s3.enabled", "yes")]), "s3"));
    assert!(!check_fs_type_enabled(&opts(&[("fs.s3.enabled", "true")]), "hdfs"));
    assert!(!check_fs_type_enabled(&opts(&[]), "s3"));
    assert!(!check_fs_type_enabled(
        &opts(&[("fs.s3.enabled", "true"), ("fs.s3.enabled", "false")]),
        "s3"
    ));
}

#[test]
fn later_option_overrides_earlier() {
    let o = opts(&[("k", "1"), ("k", "2")]);
    let key: Vec<char> = "k".chars().collect();
    assert_eq!(lookup_option(&o, &key), Some("2".to_string()));
}

#[test]
fn s3_off_needs_nothing() {
    assert!(matches!(s3_settings(&opts(&[])), Ok(None)));
}

#[test]
fn s3_without_region_or_bucket_is_a_configuration_error() {
    let r = s3_settings(&opts(&[("fs.s3.enabled", "true"), ("fs.s3.bucket", "b")]));
    assert_eq!(r.err(), Some(EngineError::ConfigurationError));
    let r = s3_settings(&opts(&[("fs.s3.enabled", "true"), ("fs.s3.region", "r")]));
    assert_eq!(r.err(), Some(EngineError::ConfigurationError));
}

#[test]
fn s3_settings_take_each_option() {
    let r = s3_settings(&opts(&[
        ("fs.s3.enabled", "true"),
        ("fs.s3.region", "us-east-1"),
        ("fs.s3.bucket", "lake"),
        ("fs.s3.access.key", "minioadmin1"),
        ("fs.s3.endpoint", "http://localhost:9000"),
    ]))
    .unwrap()
    .unwrap();
    assert_eq!(r.region, "us-east-1");
    assert_eq!(r.bucket, "lake");
    assert_eq!(r.access_key, Some("minioadmin1".to_string()));
    assert_eq!(r.secret, None);
    assert_eq!(r.endpoint, Some("http://localhost:9000".to_string()));
}

#[test]
fn reader_config_builder_sets_each_field() {

    let c = LakeSoulReaderConfigBuilder::new()
        .with_file("a.parquet".to_string())
        .with_file("b.parquet".to_string())
        .with_primary_keys(vec!["id".to_string()])
        .with_column("id".to_string())
        .with_batch_size(256)
        .with_object_store_option("fs.s3.region".to_string(), "r1".to_string())
        .with_object_store_option("fs.s3.region".to_string(), "r2".to_string())
        .with_thread_num(4)
        .build();
    assert_eq!(c.files, vec!["a.parquet".to_string(), "b.parquet".to_string()]);
    assert_eq!(c.primary_keys, vec!["id".to_string()]);
    assert_eq!(c.columns, vec!["id".to_string()]);
    assert_eq!(c.batch_size, 256);
    assert_eq!(c.thread_num, 4);
    let key: Vec<char> = "fs.s3.region".chars().collect();
    assert_eq!(lookup_option(&c.object_store_options, &key), Some("r2".to_string()));
}

#[test]
fn reader_config_defaults_to_two_threads() {

    let c = LakeSoulReaderConfigBuilder::new().with_files(vec!["x".to_string()]).build();
    assert_eq!(c.thread_num, 2);
    assert_eq!(c.batch_size, 0);
    assert!(c.filters.is_empty());
}
