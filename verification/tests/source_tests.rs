use lakepipe::ErrorKind;
use lakepipe::FetchRequest;
use lakepipe::SourceRef;
use lakepipe::resolve;

fn default_region() -> Vec<u8> {
    b"us-east-1".to_vec()
}

#[test]
fn resolve_populated_remote_defaults_region() {
    let src = SourceRef::Remote {
        container_id: b"avalanche-data-platform".to_vec(),
        object_key: b"lakehouse/transfers".to_vec(),
        region: None,
    };
    match resolve(&default_region(), &src) {
        Ok(FetchRequest::Remote { container_id, object_key, region }) => {
            assert_eq!(container_id, b"avalanche-data-platform".to_vec());
            assert_eq!(object_key, b"lakehouse/transfers".to_vec());
            assert_eq!(region, b"us-east-1".to_vec());
        }
        other => panic!("expected a remote request, got {:?}", other),
    }
}

#[test]
fn resolve_keeps_explicit_region() {
    let src = SourceRef::Remote {
        container_id: b"bucket".to_vec(),
        object_key: b"key".to_vec(),
        region: Some(b"eu-west-2".to_vec()),
    };
    match resolve(&default_region(), &src) {
        Ok(FetchRequest::Remote { region, .. }) => {
            assert_eq!(region, b"eu-west-2".to_vec());
        }
        other => panic!("expected a remote request, got {:?}", other),
    }
}

#[test]
fn resolve_empty_container_is_invalid() {
    let src = SourceRef::Remote {
        container_id: Vec::new(),
        object_key: b"key".to_vec(),
        region: None,
    };
    assert_eq!(resolve(&default_region(), &src).unwrap_err(), ErrorKind::InvalidReference);
}

#[test]
fn resolve_empty_key_is_invalid() {
    let src = SourceRef::Remote {
        container_id: b"bucket".to_vec(),
        object_key: Vec::new(),
        region: None,
    };
    assert_eq!(resolve(&default_region(), &src).unwrap_err(), ErrorKind::InvalidReference);
}

#[test]
fn resolve_local_path() {
    let src = SourceRef::Local { path: b"tests/fixtures/transfers.csv".to_vec() };
    match resolve(&default_region(), &src) {
        Ok(FetchRequest::Local { path }) => {
            assert_eq!(path, b"tests/fixtures/transfers.csv".to_vec());
        }
        other => panic!("expected a local request, got {:?}", other),
    }
}

#[test]
fn resolve_empty_path_is_invalid() {
    let src = SourceRef::Local { path: Vec::new() };
    assert_eq!(resolve(&default_region(), &src).unwrap_err(), ErrorKind::InvalidReference);
}
