use nongoose::{Error, Instance, Nongoose, SchemaBefore, SchemaData, Store, Value};

/// Hooks of the user schema: creation shifts the password's letters by
/// three before the document is stored.
struct UserBefore;

fn change_password(password: &str) -> String {
    password
        .chars()
        .map(|c| {
            let case = if c.is_uppercase() { 'A' } else { 'a' } as u8;
            if c.is_alphabetic() {
                (((c as u8 - case + 3) % 26) + case) as char
            } else {
                c
            }
        })
        .collect::<String>()
}

impl SchemaBefore for UserBefore {
    fn before_create_spec(&self, i: Instance) -> Result<Instance, Error> {
        let mut out = i;
        let _ = self.before_create(&mut out);
        Ok(out)
    }

    fn before_update_spec(&self, i: Instance) -> Result<Instance, Error> {
        Ok(i)
    }

    fn before_delete_spec(&self, i: Instance) -> Result<(Instance, bool), Error> {
        Ok((i, true))
    }

    fn before_create(&self, i: &mut Instance) -> Result<(), Error> {
        for entry in i.fields.iter_mut() {
            if entry.0 == "password" {
                if let Value::Str(p) = &entry.1 {
                    entry.1 = Value::Str(change_password(p));
                }
            }
        }
        Ok(())
    }

    fn before_update(&self, _i: &mut Instance) -> Result<(), Error> {
        Ok(())
    }

    fn before_delete(&self, _i: &mut Instance) -> Result<bool, Error> {
        Ok(true)
    }
}

fn new_user(id: i64, username: &str, password: &str) -> Instance {
    Instance {
        collection_name: "users".to_string(),
        id: Value::Int(id),
        fields: vec![
            ("username".to_string(), Value::Str(username.to_string())),
            ("password".to_string(), Value::Str(password.to_string())),
        ],
        unique_fields: vec![("username".to_string(), Value::Str(username.to_string()))],
        relations: vec![],
        populated: vec![],
    }
}

fn get_instance() -> Nongoose {
    Nongoose::builder(Store::new())
        .add_schema(SchemaData::new("users".to_string(), vec![]))
        .build()
}

#[test]
fn before_create() {
    let mut nongoose = get_instance();

    let user = nongoose.save(&UserBefore, new_user(1, "nongoose", "password"));
    assert!(user.is_ok());

    let user = user.unwrap();
    assert_eq!(user.fields[1].1, Value::Str(String::from("sdvvzrug")));

    let check_user = nongoose.find_by_id("users", &user.id);
    assert!(check_user.is_ok());

    let check_user = check_user.unwrap();
    assert!(check_user.is_some());

    let check_user = check_user.unwrap();
    assert_eq!(check_user.get("password"), Some(&user.fields[1].1));
}

#[test]
fn before_create_only_on_insert() {
    let mut nongoose = get_instance();

    let stored = nongoose
        .save(&UserBefore, new_user(2, "ada", "password"))
        .unwrap();
    assert_eq!(stored.fields[1].1, Value::Str("sdvvzrug".to_string()));

    // a re-save replaces the existing document: the update hook runs,
    // which leaves the password alone
    let again = nongoose.save(&UserBefore, stored.clone()).unwrap();
    assert_eq!(again.fields[1].1, Value::Str("sdvvzrug".to_string()));
}
