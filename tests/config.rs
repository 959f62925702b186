use amino::config::Config;

#[test]
fn config_builder() {
    let mut config = Config::new();
    assert!(config.prost_types);
    assert!(config.strip_enum_prefix);
    config
        .btree_map(&[".my_messages", "my_map_field"])
        .field_attribute("in", "#[serde(rename = \"in\")]")
        .type_attribute(".", "#[derive(Eq)]")
        .compile_well_known_types()
        .retain_enum_prefix();
    assert_eq!(config.btree_map, vec![".my_messages".to_string(), "my_map_field".to_string()]);
    assert_eq!(
        config.field_attributes,
        vec![("in".to_string(), "#[serde(rename = \"in\")]".to_string())]
    );
    assert_eq!(config.type_attributes, vec![(".".to_string(), "#[derive(Eq)]".to_string())]);
    assert!(!config.prost_types);
    assert!(!config.strip_enum_prefix);
    config.btree_map(&["."]);
    assert_eq!(config.btree_map, vec![".".to_string()]);
}
