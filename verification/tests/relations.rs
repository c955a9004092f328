use nongoose::types::{SchemaRelation, SchemaRelationType};
use nongoose::{Error, FindByIdOptions, Value};

#[test]
fn parse_str_known_kinds() {
    let one_to_one = SchemaRelationType::parse_str("one_to_one");
    assert!(one_to_one.is_ok());
    assert_eq!(one_to_one.unwrap(), SchemaRelationType::OneToOne);

    let one_to_many = SchemaRelationType::parse_str("one_to_many");
    assert_eq!(one_to_many.unwrap(), SchemaRelationType::OneToMany);

    let many_to_one = SchemaRelationType::parse_str("many_to_one");
    assert_eq!(many_to_one.unwrap(), SchemaRelationType::ManyToOne);
}

#[test]
fn parse_str_unknown_kind() {
    let no_implemented = SchemaRelationType::parse_str("other_relation");
    assert!(no_implemented.is_err());
    assert_eq!(no_implemented.unwrap_err(), Error::NoImplemented);
    assert_eq!(
        SchemaRelationType::parse_str("").unwrap_err(),
        Error::NoImplemented
    );
}

#[test]
fn field_id_appends_suffix() {
    let relation = SchemaRelation {
        field_ident: "author".to_string(),
        field_value: Value::Int(7),
        relation_type: SchemaRelationType::ManyToOne,
        schema_ident: "User".to_string(),
        schema_name: "users".to_string(),
    };
    assert_eq!(relation.field_id(), "author_id".to_string());
    assert_eq!(relation.dup(), relation);
}

#[test]
fn find_by_id_options() {
    let options = FindByIdOptions::build();
    assert_eq!(options.with_relations, false);
    let options = options.with_relations(true);
    assert_eq!(options.with_relations, true);
    assert_eq!(FindByIdOptions::default(), FindByIdOptions::build());
}
