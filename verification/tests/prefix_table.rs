use uuid_service::prefix_mappings::{LoadError, PrefixMappings};

#[test]
fn table_is_parsed_from_yaml() {
    let table = PrefixMappings::new("usr: U\norg: O\n").unwrap();
    assert_eq!(table.get("usr"), Some(&"U".to_string()));
    assert_eq!(table.get("org"), Some(&"O".to_string()));
    assert_eq!(table.get("xyz"), None);
    assert_eq!(table.get("U"), None);
}

#[test]
fn quoted_yaml_strings_are_taken_as_strings() {
    let table = PrefixMappings::new("\"a b\": \"C D\"\n'1': '2'\n").unwrap();
    assert_eq!(table.get("a b"), Some(&"C D".to_string()));
    assert_eq!(table.get("1"), Some(&"2".to_string()));
}

#[test]
fn empty_yaml_mapping_gives_an_empty_table() {
    let table = PrefixMappings::new("{}").unwrap();
    assert_eq!(table.get("usr"), None);
    assert_eq!(table.get(""), None);
}

#[test]
fn yaml_sequence_is_a_parse_error() {
    let error = PrefixMappings::new("- usr\n- org\n").err().unwrap();
    assert!(matches!(error, LoadError::ParseError(_)));
    assert_eq!(error.message(), "failed to parse the YAML file");
}

#[test]
fn yaml_with_a_nested_value_is_a_parse_error() {
    let loaded = PrefixMappings::new("usr:\n  code: U\n");
    assert!(matches!(loaded, Err(LoadError::ParseError(_))));
}

#[test]
fn broken_yaml_is_a_parse_error() {
    let loaded = PrefixMappings::new("usr: [U\n");
    assert!(matches!(loaded, Err(LoadError::ParseError(_))));
}

#[test]
fn read_error_has_its_message() {
    let error = LoadError::ReadError(std::io::Error::new(std::io::ErrorKind::NotFound, "gone"));
    assert_eq!(error.message(), "failed to read the YAML file");
}

#[test]
fn table_is_built_from_pairs() {
    let table = PrefixMappings::from_entries(vec![
        ("usr".to_string(), "U".to_string()),
        ("org".to_string(), "O".to_string()),
    ]);
    assert_eq!(table.get("usr"), Some(&"U".to_string()));
    assert_eq!(table.get("org"), Some(&"O".to_string()));
    assert_eq!(table.get("us"), None);
}

#[test]
fn later_pair_replaces_an_earlier_one() {
    let table = PrefixMappings::from_entries(vec![
        ("usr".to_string(), "U".to_string()),
        ("org".to_string(), "O".to_string()),
        ("usr".to_string(), "V".to_string()),
    ]);
    assert_eq!(table.get("usr"), Some(&"V".to_string()));
    assert_eq!(table.get("org"), Some(&"O".to_string()));
}

#[test]
fn table_without_pairs_is_empty() {
    let table = PrefixMappings::from_entries(Vec::new());
    assert_eq!(table.get("usr"), None);
}
