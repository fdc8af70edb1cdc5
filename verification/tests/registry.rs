use vigilator::field_name::{all_field_names, FieldName};

#[test]
fn the_registry_lists_each_field_once_in_its_order() {
    assert_eq!(
        all_field_names(),
        vec![
            FieldName::UUID,
            FieldName::Timestamp,
            FieldName::Text,
            FieldName::TokenIds,
            FieldName::Logits,
        ]
    );
}

#[test]
fn each_field_has_its_column_name() {
    assert_eq!(FieldName::Text.to_string(), "text");
    assert_eq!(FieldName::TokenIds.to_string(), "token_ids");
    assert_eq!(FieldName::Logits.to_string(), "logits");
    assert_eq!(FieldName::UUID.to_string(), "uuid");
    assert_eq!(FieldName::Timestamp.to_string(), "timestamp");
    for name in all_field_names() {
        assert_eq!(name.to_string(), name.as_str());
    }
}

#[test]
fn column_names_are_distinct_identifiers() {
    let names: Vec<String> = all_field_names().iter().map(|n| n.to_string()).collect();
    for (i, a) in names.iter().enumerate() {
        assert!(!a.is_empty());
        assert!(a.chars().all(|c| c.is_ascii_lowercase() || c == '_'));
        for b in names.iter().skip(i + 1) {
            assert_ne!(a, b);
        }
    }
}
