use nongoose::{Document, Error, Value};

#[test]
fn value_display() {
    assert_eq!(Value::Null.to_display_string(), "null".to_string());
    assert_eq!(Value::Bool(true).to_display_string(), "true".to_string());
    assert_eq!(Value::Bool(false).to_display_string(), "false".to_string());
    assert_eq!(Value::Int(0).to_display_string(), "0".to_string());
    assert_eq!(Value::Int(7).to_display_string(), "7".to_string());
    assert_eq!(Value::Int(1234567).to_display_string(), "1234567".to_string());
    assert_eq!(Value::Int(-45).to_display_string(), "-45".to_string());
    assert_eq!(
        Value::Int(i64::MAX).to_display_string(),
        "9223372036854775807".to_string()
    );
    assert_eq!(
        Value::Int(i64::MIN).to_display_string(),
        "-9223372036854775808".to_string()
    );
    assert_eq!(
        Value::Str("nongoose".to_string()).to_display_string(),
        "nongoose".to_string()
    );
}

#[test]
fn value_equality() {
    assert!(Value::Int(3).eq_value(&Value::Int(3)));
    assert!(!Value::Int(3).eq_value(&Value::Int(4)));
    assert!(!Value::Int(3).eq_value(&Value::Str("3".to_string())));
    assert!(Value::Str("a".to_string()).eq_value(&Value::Str("a".to_string())));
    assert!(Value::Null.eq_value(&Value::Null));
    assert_eq!(Value::Bool(true).dup(), Value::Bool(true));
}

#[test]
fn error_messages() {
    assert_eq!(
        Error::Decode("bad".to_string()).message(),
        "Decode error: bad".to_string()
    );
    assert_eq!(
        Error::Encode("bad".to_string()).message(),
        "Encode error: bad".to_string()
    );
    assert_eq!(
        Error::Store("down".to_string()).message(),
        "Store error: down".to_string()
    );
    assert_eq!(
        Error::DuplicatedSchemaField("name".to_string(), "dog".to_string()).message(),
        "Duplicated schema field (name): dog".to_string()
    );
    assert_eq!(Error::NoImplemented.message(), "No implemented".to_string());
    assert_eq!(
        Error::NotRegistered.message(),
        "Schema is not registered".to_string()
    );
}

#[test]
fn document_get_and_set() {
    let mut doc = Document::new();
    assert_eq!(doc.get("a"), None);
    doc.set_field("a", Value::Int(1));
    doc.set_field("b", Value::Int(2));
    assert_eq!(doc.get("a"), Some(&Value::Int(1)));
    assert_eq!(doc.get("b"), Some(&Value::Int(2)));
    doc.set_field("a", Value::Int(9));
    assert_eq!(doc.get("a"), Some(&Value::Int(9)));
    assert_eq!(doc.entries.len(), 2, "setting an existing field replaces it");
    assert_eq!(doc.dup(), doc);
    assert!(doc.like(&doc.dup()));
}
