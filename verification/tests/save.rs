use nongoose::{DefaultBefore, Instance, Nongoose, SchemaData, Store, Value};

fn animal(id: i64, animal_type: &str, name: &str) -> Instance {
    Instance {
        collection_name: "animals".to_string(),
        id: Value::Int(id),
        fields: vec![
            ("type".to_string(), Value::Str(animal_type.to_string())),
            ("name".to_string(), Value::Str(name.to_string())),
        ],
        unique_fields: vec![("name".to_string(), Value::Str(name.to_string()))],
        relations: vec![],
        populated: vec![],
    }
}

fn instance() -> Nongoose {
    Nongoose::builder(Store::new())
        .add_schema(SchemaData::new("animals".to_string(), vec![]))
        .build()
}

#[test]
fn save() {
    let mut nongoose = instance();
    let hooks = DefaultBefore;

    let dog = animal(1, "DOG", "dog");

    let dog_saved = nongoose.save(&hooks, dog.clone());
    assert!(dog_saved.is_ok());

    let mut dog_saved = dog_saved.unwrap();
    assert_eq!(dog, dog_saved);

    let duplicated_dog = nongoose.save(&hooks, animal(2, "DOG", "dog"));
    assert!(duplicated_dog.is_err());
    assert_eq!(
        duplicated_dog.unwrap_err().message(),
        String::from("Duplicated schema field (name): dog")
    );

    dog_saved.fields[1].1 = Value::Str("dog1".to_string());
    dog_saved.unique_fields[0].1 = Value::Str("dog1".to_string());
    assert!(nongoose.save(&hooks, dog_saved.clone()).is_ok());

    dog_saved.fields[1].1 = Value::Str("dog1".to_string());
    dog_saved.unique_fields[0].1 = Value::Str("dog1".to_string());
    assert!(nongoose.save(&hooks, dog_saved).is_ok());

    let cat = animal(3, "CAT", "cat");

    let cat_saved = nongoose.save(&hooks, cat.clone());
    assert!(cat_saved.is_ok());
    assert_eq!(cat, cat_saved.unwrap());
}

#[test]
fn save_then_save_keeps_one_document() {
    let mut nongoose = instance();
    let hooks = DefaultBefore;

    let first = animal(5, "DOG", "rex");
    nongoose.save(&hooks, first.clone()).unwrap();

    let mut renamed = first.clone();
    renamed.fields[0].1 = Value::Str("WOLF".to_string());
    nongoose.save(&hooks, renamed.clone()).unwrap();

    let found = nongoose.find_by_id("animals", &Value::Int(5)).unwrap();
    let doc = found.expect("the document must still exist");
    assert_eq!(doc.get("type"), Some(&Value::Str("WOLF".to_string())));
    assert_eq!(
        nongoose.count("animals", &renamed.id_query()).unwrap(),
        1,
        "exactly one document under the identity"
    );
}

#[test]
fn check_unique_trivial_without_unique_fields() {
    let mut nongoose = instance();
    let hooks = DefaultBefore;

    let mut plain = animal(7, "DOG", "a");
    plain.unique_fields = vec![];
    nongoose.save(&hooks, plain.clone()).unwrap();

    // a second instance with the same field values but no unique
    // fields always passes the uniqueness check
    let mut twin = animal(8, "DOG", "a");
    twin.unique_fields = vec![];
    assert!(nongoose.check_unique(&twin).is_ok());
    assert!(nongoose.save(&hooks, twin).is_ok());
    assert_eq!(nongoose.count("animals", &nongoose::Filter::empty()).unwrap(), 2);
}

#[test]
fn resaving_same_identity_is_no_conflict() {
    let mut nongoose = instance();
    let hooks = DefaultBefore;

    let dog = animal(9, "DOG", "bingo");
    nongoose.save(&hooks, dog.clone()).unwrap();

    // same identity, same unique value: an update, not a conflict
    assert!(nongoose.check_unique(&dog).is_ok());
    assert!(nongoose.save(&hooks, dog).is_ok());
}
