use vstd::prelude::*;

use crate::schema::types::{RelationView, SchemaRelation};

verus! {

/// Per-record-type metadata, registered once with a mapping instance:
/// the type's collection name and its ordered relation descriptors.
/// The code-generation layer derives these from the type's static
/// declaration; the engine never re-derives them.
#[derive(Clone, Debug, PartialEq)]
pub struct SchemaData {
    /// Collection name the record type maps to.
    pub name: String,
    /// The type's relation descriptors, in declaration order.
    pub relations: Vec<SchemaRelation>,
}

/// Specification-level image of a [`SchemaData`].
pub struct DataView {
    pub name: Seq<char>,
    pub relations: Seq<RelationView>,
}

/// The views of a sequence of relation descriptors.
pub open spec fn relations_views(rels: Seq<SchemaRelation>) -> Seq<RelationView> {
    rels.map_values(|r: SchemaRelation| r@)
}

impl View for SchemaData {
    type V = DataView;

    open spec fn view(&self) -> DataView {
        DataView { name: self.name@, relations: relations_views(self.relations@) }
    }
}

impl SchemaData {
    /// Metadata for one record type, as the code-generation layer
    /// supplies it.
    pub fn new(name: String, relations: Vec<SchemaRelation>) -> (r: SchemaData)
        ensures
            r@.name == name@,
            r@.relations == relations_views(relations@),
    {
        SchemaData { name, relations }
    }

    /// The collection name this metadata was registered under.
    pub fn get_name(&self) -> (r: String)
        ensures
            r@ == self@.name,
    {
        self.name.clone()
    }

    /// Whether this metadata is registered under `wanted`.
    pub fn name_is(&self, wanted: &String) -> (r: bool)
        ensures
            r == (self@.name == wanted@),
    {
        self.name == *wanted
    }

    /// The record type's relation descriptors.
    pub fn get_relations(&self) -> (r: Vec<SchemaRelation>)
        ensures
            relations_views(r@) == self@.relations,
    {
        let mut out: Vec<SchemaRelation> = Vec::new();
        let n = self.relations.len();
        for i in 0..n
            invariant
                n == self.relations@.len(),
                out@.len() == i,
                forall|j: int| 0 <= j < i ==> (#[trigger] out@[j])@ == self.relations@[j]@,
        {
            out.push(self.relations[i].dup());
        }
        proof {
            assert(relations_views(out@) =~= relations_views(self.relations@));
        }
        out
    }

    /// A fresh copy of this metadata.
    pub fn dup(&self) -> (r: SchemaData)
        ensures
            r@ == self@,
    {
        SchemaData { name: self.name.clone(), relations: self.get_relations() }
    }
}

} // verus!
