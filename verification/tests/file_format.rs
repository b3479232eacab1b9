use cata::file::{classify_path, File, FileFormat};

#[test]
fn yaml_extensions_are_yaml() {
    assert_eq!(classify_path("values.yaml"), FileFormat::Yaml);
    assert_eq!(classify_path("values.yml"), FileFormat::Yaml);
    assert_eq!(classify_path("/some/dir/deep.yaml"), FileFormat::Yaml);
}

#[test]
fn json_extension_is_json() {
    assert_eq!(classify_path("values.json"), FileFormat::Json);
    assert_eq!(classify_path("/some/dir/deep.json"), FileFormat::Json);
}

#[test]
fn other_extensions_are_unsupported() {
    assert_eq!(classify_path("values.txt"), FileFormat::Unsupported);
    assert_eq!(classify_path("values.toml"), FileFormat::Unsupported);
    assert_eq!(classify_path("no_extension"), FileFormat::Unsupported);
}

#[test]
fn file_marker_default_exists() {
    let f: File<u64> = Default::default();
    let _ = f.clone();
}

#[test]
fn equivalent_yaml_and_json_deserialize_equal() {
    let yaml = "name: demo\ncount: 3\nnested:\n  flag: true\nitems:\n  - a\n  - b\n";
    let json = r#"{"name":"demo","count":3,"nested":{"flag":true},"items":["a","b"]}"#;
    let from_yaml: serde_json::Value = serde_yaml::from_str(yaml).unwrap();
    let from_json: serde_json::Value = serde_json::from_str(json).unwrap();
    assert_eq!(from_yaml, from_json);
}
