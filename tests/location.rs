use lakesoul_io::error::EngineError;
use lakesoul_io::location::{destination_from, resolve_destination, Destination, UrlError};

#[test]
fn absolute_url_names_a_store_and_a_path() {
    assert_eq!(
        resolve_destination("s3://lakesoul-test-bucket/data/native-io-test/large_file.parquet".to_string()),
        Ok(Destination::ObjectStore {
            store_url: "s3://lakesoul-test-bucket".to_string(),
            path: "/data/native-io-test/large_file.parquet".to_string(),
        })
    );
}

#[test]
fn plain_path_is_a_local_file() {
    assert_eq!(
        resolve_destination("/tmp/test.parquet".to_string()),
        Ok(Destination::LocalFile { path: "/tmp/test.parquet".to_string() })
    );
}

#[test]
fn malformed_url_is_a_configuration_error() {
    assert_eq!(
        resolve_destination("http://[::1/x".to_string()),
        Err(EngineError::ConfigurationError)
    );
}

#[test]
fn destination_follows_each_parse_outcome() {
    assert_eq!(
        destination_from(
            "s3://b/k".to_string(),
            Ok(("s3://b".to_string(), "/k".to_string()))
        ),
        Ok(Destination::ObjectStore { store_url: "s3://b".to_string(), path: "/k".to_string() })
    );
    assert_eq!(
        destination_from("rel/k".to_string(), Err(UrlError::RelativeWithoutBase)),
        Ok(Destination::LocalFile { path: "rel/k".to_string() })
    );
    assert_eq!(
        destination_from("x".to_string(), Err(UrlError::Invalid)),
        Err(EngineError::ConfigurationError)
    );
}
