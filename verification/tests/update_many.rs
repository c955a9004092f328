use nongoose::{Cond, DefaultBefore, Filter, Instance, Nongoose, SchemaData, Store, UpdateSpec, Value};

fn post(id: i64, title: &str, content: &str) -> Instance {
    Instance {
        collection_name: "posts".to_string(),
        id: Value::Int(id),
        fields: vec![
            ("title".to_string(), Value::Str(title.to_string())),
            ("content".to_string(), Value::Str(content.to_string())),
        ],
        unique_fields: vec![],
        relations: vec![],
        populated: vec![],
    }
}

fn instance() -> Nongoose {
    Nongoose::builder(Store::new())
        .add_schema(SchemaData::new("posts".to_string(), vec![]))
        .build()
}

#[test]
fn update_many() {
    let mut nongoose = instance();
    let hooks = DefaultBefore;

    let post1 = nongoose.save(&hooks, post(1, "Title 1", "Content 1")).unwrap();
    assert_eq!(post1.fields[0].1, Value::Str("Title 1".to_string()));
    assert_eq!(post1.fields[1].1, Value::Str("Content 1".to_string()));
    let post2 = nongoose.save(&hooks, post(2, "Title 2", "Content 2")).unwrap();
    assert_eq!(post2.fields[0].1, Value::Str("Title 2".to_string()));
    assert_eq!(post2.fields[1].1, Value::Str("Content 2".to_string()));
    let post3 = nongoose.save(&hooks, post(3, "Title 3", "Content 3 old")).unwrap();

    let conditions = Filter {
        clauses: vec![(
            "_id".to_string(),
            Cond::In(vec![post1.id.clone(), post2.id.clone()]),
        )],
    };
    let data = UpdateSpec::set_field("content", Value::Str("Content 3".to_string()));

    let result = nongoose.update_many("posts", &conditions, &data);
    assert!(result.is_ok());
    let result = result.unwrap();
    assert_eq!(result.matched_count, 2);
    assert_eq!(result.modified_count, 2);

    let first = nongoose.find_by_id("posts", &post1.id).unwrap().unwrap();
    assert_eq!(first.get("content"), Some(&Value::Str("Content 3".to_string())));
    let second = nongoose.find_by_id("posts", &post2.id).unwrap().unwrap();
    assert_eq!(second.get("content"), Some(&Value::Str("Content 3".to_string())));
    let third = nongoose.find_by_id("posts", &post3.id).unwrap().unwrap();
    assert_eq!(
        third.get("content"),
        Some(&Value::Str("Content 3 old".to_string())),
        "a document outside the filter is untouched"
    );
    assert_eq!(third.get("title"), Some(&Value::Str("Title 3".to_string())));
}

#[test]
fn update_many_counts_only_real_changes() {
    let mut nongoose = instance();
    let hooks = DefaultBefore;

    nongoose.save(&hooks, post(1, "Title 1", "same")).unwrap();
    nongoose.save(&hooks, post(2, "Title 2", "other")).unwrap();

    let data = UpdateSpec::set_field("content", Value::Str("same".to_string()));
    let result = nongoose.update_many("posts", &Filter::empty(), &data).unwrap();
    assert_eq!(result.matched_count, 2);
    assert_eq!(result.modified_count, 1, "setting an equal value modifies nothing");
}

#[test]
fn update_many_appends_missing_field() {
    let mut nongoose = instance();
    let hooks = DefaultBefore;

    nongoose.save(&hooks, post(1, "Title 1", "Content 1")).unwrap();
    let data = UpdateSpec::set_field("draft", Value::Bool(false));
    let result = nongoose.update_many("posts", &Filter::empty(), &data).unwrap();
    assert_eq!(result.modified_count, 1);

    let doc = nongoose.find_by_id("posts", &Value::Int(1)).unwrap().unwrap();
    assert_eq!(doc.get("draft"), Some(&Value::Bool(false)));
}

#[test]
fn update_many_unregistered_collection() {
    let mut nongoose = instance();
    let data = UpdateSpec::set_field("content", Value::Null);
    let result = nongoose.update_many("users", &Filter::empty(), &data);
    assert_eq!(result.unwrap_err(), nongoose::Error::NotRegistered);
}
