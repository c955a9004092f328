use nongoose::types::{SchemaRelation, SchemaRelationType};
use nongoose::{DefaultBefore, Instance, Nongoose, Populated, SchemaData, Store, Value};

fn author_relations() -> Vec<SchemaRelation> {
    vec![SchemaRelation {
        field_ident: "posts".to_string(),
        field_value: Value::Null,
        relation_type: SchemaRelationType::OneToMany,
        schema_ident: "Post".to_string(),
        schema_name: "posts".to_string(),
    }]
}

fn post_relations(author_id: i64) -> Vec<SchemaRelation> {
    vec![SchemaRelation {
        field_ident: "author".to_string(),
        field_value: Value::Int(author_id),
        relation_type: SchemaRelationType::ManyToOne,
        schema_ident: "Author".to_string(),
        schema_name: "authors".to_string(),
    }]
}

fn author(id: i64, name: &str) -> Instance {
    Instance {
        collection_name: "authors".to_string(),
        id: Value::Int(id),
        fields: vec![("name".to_string(), Value::Str(name.to_string()))],
        unique_fields: vec![],
        relations: author_relations(),
        populated: vec![],
    }
}

fn post(id: i64, author_id: i64, title: &str) -> Instance {
    Instance {
        collection_name: "posts".to_string(),
        id: Value::Int(id),
        fields: vec![
            ("title".to_string(), Value::Str(title.to_string())),
            ("author_id".to_string(), Value::Int(author_id)),
        ],
        unique_fields: vec![],
        relations: post_relations(author_id),
        populated: vec![],
    }
}

/// A mapping instance with both schemas registered, so reverse links
/// can be resolved in either direction.
fn instance() -> Nongoose {
    Nongoose::builder(Store::new())
        .add_schema(SchemaData::new("authors".to_string(), author_relations()))
        .add_schema(SchemaData::new(
            "posts".to_string(),
            vec![SchemaRelation {
                field_ident: "author".to_string(),
                field_value: Value::Null,
                relation_type: SchemaRelationType::ManyToOne,
                schema_ident: "Author".to_string(),
                schema_name: "authors".to_string(),
            }],
        ))
        .build()
}

#[test]
fn populate_many_to_one() {
    let mut nongoose = instance();
    let hooks = DefaultBefore;

    let alice = author(1, "alice");
    nongoose.save(&hooks, alice.clone()).unwrap();
    let entry = nongoose.save(&hooks, post(10, 1, "intro")).unwrap();

    let populated = nongoose.populate(entry.clone(), "author").unwrap();
    assert_eq!(
        populated.populated,
        vec![("author".to_string(), Populated::One(alice.to_document()))]
    );
    // everything else is untouched
    assert_eq!(populated.id, entry.id);
    assert_eq!(populated.fields, entry.fields);
}

#[test]
fn populate_many_to_one_missing_target() {
    let mut nongoose = instance();
    let hooks = DefaultBefore;

    // no author with identity 42 exists
    let entry = nongoose.save(&hooks, post(11, 42, "orphan")).unwrap();
    let populated = nongoose.populate(entry.clone(), "author").unwrap();
    assert_eq!(populated, entry, "the field stays unset, and no error is raised");
}

#[test]
fn populate_one_to_many() {
    let mut nongoose = instance();
    let hooks = DefaultBefore;

    let alice = author(1, "alice");
    nongoose.save(&hooks, alice.clone()).unwrap();
    let first = nongoose.save(&hooks, post(10, 1, "one")).unwrap();
    let second = nongoose.save(&hooks, post(11, 1, "two")).unwrap();
    let third = nongoose.save(&hooks, post(12, 1, "three")).unwrap();
    // a post of someone else is not collected
    nongoose.save(&hooks, post(13, 2, "other")).unwrap();

    let populated = nongoose.populate(alice, "posts").unwrap();
    assert_eq!(
        populated.populated,
        vec![(
            "posts".to_string(),
            Populated::Many(vec![
                first.to_document(),
                second.to_document(),
                third.to_document(),
            ])
        )]
    );
}

#[test]
fn populate_one_to_many_empty() {
    let mut nongoose = instance();
    let hooks = DefaultBefore;

    let bare = author(5, "bob");
    nongoose.save(&hooks, bare.clone()).unwrap();
    let populated = nongoose.populate(bare, "posts").unwrap();
    assert_eq!(
        populated.populated,
        vec![("posts".to_string(), Populated::Many(vec![]))],
        "no matching posts populate to an empty list"
    );
}

#[test]
fn populate_unregistered_target_is_noop() {
    // the posts schema is never registered: reverse-link resolution
    // has nothing to consult and populating must not crash
    let mut nongoose = Nongoose::builder(Store::new())
        .add_schema(SchemaData::new("authors".to_string(), author_relations()))
        .build();
    let hooks = DefaultBefore;

    let alice = author(1, "alice");
    nongoose.save(&hooks, alice.clone()).unwrap();
    let populated = nongoose.populate(alice.clone(), "posts").unwrap();
    assert_eq!(populated, alice);
}

#[test]
fn populate_no_reverse_link_is_noop() {
    // the posts schema is registered, but with no many-to-one relation
    // pointing back at authors
    let mut nongoose = Nongoose::builder(Store::new())
        .add_schema(SchemaData::new("authors".to_string(), author_relations()))
        .add_schema(SchemaData::new("posts".to_string(), vec![]))
        .build();
    let hooks = DefaultBefore;

    let alice = author(1, "alice");
    nongoose.save(&hooks, alice.clone()).unwrap();
    let populated = nongoose.populate(alice.clone(), "posts").unwrap();
    assert_eq!(populated, alice);
}

#[test]
fn populate_unknown_field_returns_instance_unchanged() {
    let mut nongoose = instance();
    let hooks = DefaultBefore;

    let alice = author(1, "alice");
    nongoose.save(&hooks, alice.clone()).unwrap();
    let populated = nongoose.populate(alice.clone(), "nonexistent_field").unwrap();
    assert_eq!(populated, alice);
}

#[test]
fn populate_twice_replaces_the_entry() {
    let mut nongoose = instance();
    let hooks = DefaultBefore;

    let alice = author(1, "alice");
    nongoose.save(&hooks, alice.clone()).unwrap();
    let entry = nongoose.save(&hooks, post(10, 1, "intro")).unwrap();

    let once = nongoose.populate(entry, "author").unwrap();
    let twice = nongoose.populate(once.clone(), "author").unwrap();
    assert_eq!(twice, once, "repopulating resolves to the same value");
    assert_eq!(twice.populated.len(), 1);
}
