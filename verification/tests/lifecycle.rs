use nongoose::{DefaultBefore, Filter, Instance, Nongoose, SchemaData, Store, Value};

fn user(id: i64, name: &str, age: i64) -> Instance {
    Instance {
        collection_name: "users".to_string(),
        id: Value::Int(id),
        fields: vec![
            ("username".to_string(), Value::Str(name.to_string())),
            ("age".to_string(), Value::Int(age)),
        ],
        unique_fields: vec![("username".to_string(), Value::Str(name.to_string()))],
        relations: vec![],
        populated: vec![],
    }
}

fn instance() -> Nongoose {
    Nongoose::builder(Store::new())
        .add_schema(SchemaData::new("users".to_string(), vec![]))
        .build()
}

#[test]
fn remove_returns_true_then_false() {
    let mut nongoose = instance();
    let hooks = DefaultBefore;

    let nia = user(1, "nia", 30);
    nongoose.save(&hooks, nia.clone()).unwrap();
    assert_eq!(nongoose.find_by_id("users", &nia.id).unwrap().is_some(), true);

    assert_eq!(nongoose.remove(&nia).unwrap(), true);
    assert_eq!(
        nongoose.find_by_id("users", &nia.id).unwrap(),
        None,
        "an identity lookup after the removal finds nothing"
    );
    assert_eq!(nongoose.remove(&nia).unwrap(), false, "already absent");
}

#[test]
fn create_is_save() {
    let mut nongoose = instance();
    let hooks = DefaultBefore;

    let nia = user(2, "nia", 30);
    let created = nongoose.create(&hooks, nia.clone()).unwrap();
    assert_eq!(created, nia);
    assert_eq!(nongoose.count("users", &Filter::empty()).unwrap(), 1);
}

#[test]
fn duplicate_unique_field_is_refused() {
    let mut nongoose = instance();
    let hooks = DefaultBefore;

    nongoose.save(&hooks, user(1, "nongoose", 1)).unwrap();
    let duplicate = nongoose.save(&hooks, user(2, "nongoose", 2));
    let error = duplicate.unwrap_err();
    assert_eq!(
        error,
        nongoose::Error::DuplicatedSchemaField("username".to_string(), "nongoose".to_string())
    );
    assert_eq!(
        error.message(),
        "Duplicated schema field (username): nongoose".to_string()
    );
    // the refused save wrote nothing
    assert_eq!(nongoose.count("users", &Filter::empty()).unwrap(), 1);
}

#[test]
fn find_and_count() {
    let mut nongoose = instance();
    let hooks = DefaultBefore;

    nongoose.save(&hooks, user(1, "ana", 17)).unwrap();
    nongoose.save(&hooks, user(2, "bo", 30)).unwrap();
    nongoose.save(&hooks, user(3, "cy", 30)).unwrap();

    let thirty = Filter::by_field("age", Value::Int(30));
    assert_eq!(nongoose.count("users", &thirty).unwrap(), 2);

    let found = nongoose.find("users", &thirty).unwrap();
    assert_eq!(found.len(), 2);
    assert_eq!(found[0].get("username"), Some(&Value::Str("bo".to_string())));
    assert_eq!(found[1].get("username"), Some(&Value::Str("cy".to_string())));

    let one = nongoose.find_one("users", &thirty).unwrap().unwrap();
    assert_eq!(one.get("username"), Some(&Value::Str("bo".to_string())));

    assert_eq!(nongoose.find_one("users", &Filter::by_field("age", Value::Int(99))).unwrap(), None);
}

#[test]
fn operations_on_unregistered_collection_are_refused() {
    let nongoose = instance();
    assert_eq!(
        nongoose.count("animals", &Filter::empty()).unwrap_err(),
        nongoose::Error::NotRegistered
    );
    assert_eq!(
        nongoose.find("animals", &Filter::empty()).unwrap_err(),
        nongoose::Error::NotRegistered
    );
    assert_eq!(
        nongoose.find_one("animals", &Filter::empty()).unwrap_err(),
        nongoose::Error::NotRegistered
    );
    assert_eq!(
        nongoose.find_by_id("animals", &Value::Int(1)).unwrap_err(),
        nongoose::Error::NotRegistered
    );
}

#[test]
fn registry_first_registration_wins() {
    let builder = Nongoose::builder(Store::new())
        .add_schema(SchemaData::new("users".to_string(), vec![]))
        .add_schema(SchemaData::new("users".to_string(), vec![]));
    assert_eq!(builder.schemas.len(), 1, "a second registration is ignored");
    assert!(builder.has_schema("users"));
    assert!(!builder.has_schema("posts"));
    assert!(builder.get_schema("users").is_some());
    assert_eq!(builder.get_schema("users").unwrap().get_name(), "users".to_string());
    assert!(builder.get_schema("posts").is_none());
}
