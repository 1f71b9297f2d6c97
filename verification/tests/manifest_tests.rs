use wrap_client::uri::str_chars;
use wrap_client::error::WrapError;
use wrap_client::manifest::{deserialize_polywrap_manifest, DeserializeManifestOptions};
use wrap_client::package::{InMemoryFileReader, WasmPackage, WrapPackage};

#[test]
fn deserialize_json_manifest() {
    let m = deserialize_polywrap_manifest("{\"format\": \"0.1.0\", \"name\": \"x\"}", None)
        .unwrap();
    assert!(m.format == str_chars("0.1.0"));
}

#[test]
fn deserialize_yaml_manifest() {
    let m = deserialize_polywrap_manifest("format: 0.1.0\nname: x\n", None).unwrap();
    assert!(m.format == str_chars("0.1.0"));
}

#[test]
fn deserialize_with_options() {
    let m = deserialize_polywrap_manifest(
        "{\"format\": \"0.1.0\"}",
        Some(DeserializeManifestOptions { no_validate: true }),
    )
    .unwrap();
    assert!(m.format == str_chars("0.1.0"));
}

#[test]
fn deserialize_rejects_unsupported_version() {
    let out = deserialize_polywrap_manifest("{\"format\": \"0.2.0\"}", None);
    match out {
        Err(WrapError::ManifestError(m)) => {
            assert!(m == str_chars("unsupported manifest version"));
        },
        _ => panic!("expected a manifest error"),
    }
}

#[test]
fn deserialize_rejects_older_version() {
    let out = deserialize_polywrap_manifest("{\"format\": \"0.0.1\"}", None);
    assert!(matches!(out, Err(WrapError::ManifestError(_))));
}

#[test]
fn deserialize_rejects_invalid_version() {
    let out = deserialize_polywrap_manifest("{\"format\": \"not-a-version\"}", None);
    match out {
        Err(WrapError::ManifestError(m)) => {
            assert!(m == str_chars("the manifest format is not a valid version"));
        },
        _ => panic!("expected a manifest error"),
    }
}

#[test]
fn deserialize_rejects_garbage() {
    let out = deserialize_polywrap_manifest("{{{{", None);
    assert!(matches!(out, Err(WrapError::ManifestError(_))));
}

#[test]
fn deserialize_rejects_missing_format() {
    let out = deserialize_polywrap_manifest("{\"name\": \"x\"}", None);
    assert!(matches!(out, Err(WrapError::ManifestError(_))));
}

#[test]
fn wasm_package_serves_module_from_memory() {
    let p = WasmPackage::new(InMemoryFileReader::new(), None, Some(vec![0, 0x61, 0x73, 0x6d]));
    assert_eq!(p.get_wasm_module().unwrap(), vec![0, 0x61, 0x73, 0x6d]);
}

#[test]
fn wasm_package_reads_module_from_files() {
    let mut reader = InMemoryFileReader::new();
    reader.add_file(str_chars("wrap.wasm"), vec![1, 2, 3]);
    let p = WasmPackage::new(reader, None, None);
    assert_eq!(p.get_wasm_module().unwrap(), vec![1, 2, 3]);
}

#[test]
fn wasm_package_without_module_reports_not_found() {
    let p = WasmPackage::new(InMemoryFileReader::new(), None, None);
    assert!(matches!(p.get_wasm_module(), Err(WrapError::NotFound)));
}

#[test]
fn wasm_package_manifest_from_memory() {
    let p = WasmPackage::new(
        InMemoryFileReader::new(),
        Some("{\"format\": \"0.1.0\"}".as_bytes().to_vec()),
        Some(vec![0]),
    );
    let m = p.get_manifest(None).unwrap();
    assert!(m.format == str_chars("0.1.0"));
}

#[test]
fn wasm_package_manifest_from_files() {
    let mut reader = InMemoryFileReader::new();
    reader.add_file(str_chars("wrap.info"), "format: 0.1.0\n".as_bytes().to_vec());
    let p = WasmPackage::new(reader, None, Some(vec![0]));
    let m = p.get_manifest(None).unwrap();
    assert!(m.format == str_chars("0.1.0"));
}

#[test]
fn wasm_package_manifest_rejects_invalid_utf8() {
    let p = WasmPackage::new(InMemoryFileReader::new(), Some(vec![0xff, 0xfe]), Some(vec![0]));
    let out = p.get_manifest(None);
    match out {
        Err(WrapError::ManifestError(m)) => {
            assert!(m == str_chars("the manifest is not valid UTF-8"));
        },
        _ => panic!("expected a manifest error"),
    }
}

#[test]
fn wasm_package_create_wrapper_carries_module() {
    let p = WasmPackage::new(
        InMemoryFileReader::new(),
        Some("{\"format\": \"0.1.0\"}".as_bytes().to_vec()),
        Some(vec![9, 9]),
    );
    let w = p.create_wrapper().unwrap();
    assert_eq!(w.module, Some(vec![9, 9]));
    assert_eq!(w.methods.len(), 0);
}

#[test]
fn wasm_package_create_wrapper_propagates_manifest_failure() {
    // module bytes alone are not enough: the missing manifest fails the
    // factory, and a malformed one fails it with the manifest's own error
    let p = WasmPackage::new(InMemoryFileReader::new(), None, Some(vec![9, 9]));
    assert!(matches!(p.create_wrapper(), Err(WrapError::NotFound)));
    let q = WasmPackage::new(
        InMemoryFileReader::new(),
        Some("{\"format\": \"9.9.9\"}".as_bytes().to_vec()),
        Some(vec![9, 9]),
    );
    assert!(matches!(q.create_wrapper(), Err(WrapError::ManifestError(_))));
}
