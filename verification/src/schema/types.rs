use vstd::prelude::*;
use vstd::string::StringExecFns;

use crate::error::Error;
use crate::value::Value;

verus! {

/// Kind of the relation a field declares towards another record type.
///
/// Every `OneToMany` field on type A logically pairs with a `ManyToOne`
/// field on type B; the pairing is not stored but discovered at
/// population time by scanning B's relation metadata.
#[derive(Clone, Copy, Debug, Eq, PartialEq, Structural)]
pub enum SchemaRelationType {
    /// One-to-one relationship.
    OneToOne,
    /// One-to-many relationship (the reverse side of many-to-one).
    OneToMany,
    /// Many-to-one relationship.
    ManyToOne,
}

impl SchemaRelationType {
    /// Parse the annotation text naming a relation kind: exactly
    /// `one_to_one`, `one_to_many` or `many_to_one`; anything else is
    /// `NoImplemented`.
    pub fn parse_str(text: &str) -> (r: Result<SchemaRelationType, Error>)
        ensures
            r is Ok <==> (text@ == "one_to_one"@ || text@ == "one_to_many"@ || text@
                == "many_to_one"@),
            text@ == "one_to_one"@ ==> r == Ok::<SchemaRelationType, Error>(
                SchemaRelationType::OneToOne,
            ),
            text@ == "one_to_many"@ ==> r == Ok::<SchemaRelationType, Error>(
                SchemaRelationType::OneToMany,
            ),
            text@ == "many_to_one"@ ==> r == Ok::<SchemaRelationType, Error>(
                SchemaRelationType::ManyToOne,
            ),
            r is Err ==> r == Err::<SchemaRelationType, Error>(Error::NoImplemented),
    {
        proof {
            reveal_strlit("one_to_one");
            reveal_strlit("one_to_many");
            reveal_strlit("many_to_one");
            assert("one_to_one"@.len() == 10);
            assert("one_to_many"@.len() == 11);
            assert("many_to_one"@.len() == 11);
            assert("one_to_one"@ != "one_to_many"@);
            assert("one_to_one"@ != "many_to_one"@);
            assert("one_to_many"@[0] == 'o' && "many_to_one"@[0] == 'm');
            assert("one_to_many"@ != "many_to_one"@);
        }
        let t: String = text.to_owned();
        if t == String::from_str("one_to_one") {
            Ok(SchemaRelationType::OneToOne)
        } else if t == String::from_str("one_to_many") {
            Ok(SchemaRelationType::OneToMany)
        } else if t == String::from_str("many_to_one") {
            Ok(SchemaRelationType::ManyToOne)
        } else {
            Err(Error::NoImplemented)
        }
    }
}

/// One relation-annotated field of a record type: static metadata
/// consulted by the population engine.
#[derive(Clone, Debug, PartialEq)]
pub struct SchemaRelation {
    /// Name of the field inside the record struct.
    pub field_ident: String,
    /// The raw foreign-key value, for one-to-one and many-to-one
    /// relations; unused for one-to-many.
    pub field_value: Value,
    /// Kind of the relation.
    pub relation_type: SchemaRelationType,
    /// Declared name of the related record type.
    pub schema_ident: String,
    /// Collection name of the related record type in the store.
    pub schema_name: String,
}

/// Specification-level image of a [`SchemaRelation`].
pub struct RelationView {
    pub field_ident: Seq<char>,
    pub field_value: Value,
    pub relation_type: SchemaRelationType,
    pub schema_ident: Seq<char>,
    pub schema_name: Seq<char>,
}

impl View for SchemaRelation {
    type V = RelationView;

    open spec fn view(&self) -> RelationView {
        RelationView {
            field_ident: self.field_ident@,
            field_value: self.field_value,
            relation_type: self.relation_type,
            schema_ident: self.schema_ident@,
            schema_name: self.schema_name@,
        }
    }
}

impl SchemaRelation {
    /// Name of the foreign-key field in the store: `<field_ident>_id`.
    pub fn field_id(&self) -> (r: String)
        ensures
            r@ == self.field_ident@ + "_id"@,
    {
        self.field_ident.clone().concat("_id")
    }

    /// A fresh descriptor carrying the same metadata.
    pub fn dup(&self) -> (r: SchemaRelation)
        ensures
            r@ == self@,
    {
        SchemaRelation {
            field_ident: self.field_ident.clone(),
            field_value: self.field_value.dup(),
            relation_type: self.relation_type,
            schema_ident: self.schema_ident.clone(),
            schema_name: self.schema_name.clone(),
        }
    }
}

} // verus!
