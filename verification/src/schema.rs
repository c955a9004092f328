use vstd::prelude::*;
use vstd::string::StringExecFns;

mod before;
mod data;

/// Schema types: the kind of a relation, and the per-field relation
/// descriptor.
pub mod types;

pub use before::{DefaultBefore, SchemaBefore};
pub use data::{relations_views, DataView, SchemaData};

use crate::document::{doc_index_of, doc_set, lemma_doc_index_of, pairs_views, Document};
use crate::store::{docs_views, CondView, Filter};
use crate::schema::types::{RelationView, SchemaRelation};
use crate::value::Value;

verus! {

/// A relation field's in-memory resolved target: one document for
/// one-to-one and many-to-one relations, a list for one-to-many.
/// Populated values live only in the instance, never in storage.
#[derive(Clone, Debug, PartialEq)]
pub enum Populated {
    One(Document),
    Many(Vec<Document>),
}

/// Specification-level image of a [`Populated`] value.
pub enum PopulatedView {
    One(Seq<(Seq<char>, Value)>),
    Many(Seq<Seq<(Seq<char>, Value)>>),
}

impl View for Populated {
    type V = PopulatedView;

    open spec fn view(&self) -> PopulatedView {
        match self {
            Populated::One(d) => PopulatedView::One(d@),
            Populated::Many(ds) => PopulatedView::Many(docs_views(ds@)),
        }
    }
}

/// The views of a sequence of populated relation entries.
pub open spec fn populated_views(s: Seq<(String, Populated)>) -> Seq<(Seq<char>, PopulatedView)> {
    s.map_values(|e: (String, Populated)| (e.0@, e.1@))
}

/// A record instance, reified: what the code-generation layer derives
/// from an application-defined record type. It carries the identity
/// value, the persisted scalar fields (foreign keys included), the
/// uniqueness probes, the relation descriptors, and the in-memory
/// populated relation values.
#[derive(Clone, Debug, PartialEq)]
pub struct Instance {
    /// Collection name of the instance's record type.
    pub collection_name: String,
    /// The identity (`_id`) value.
    pub id: Value,
    /// Persisted scalar fields other than `_id`, in order.
    pub fields: Vec<(String, Value)>,
    /// Uniqueness probes: each unique field's name with the value to
    /// compare (after any declared conversion).
    pub unique_fields: Vec<(String, Value)>,
    /// The record type's relation descriptors.
    pub relations: Vec<SchemaRelation>,
    /// Resolved relation values, in memory only.
    pub populated: Vec<(String, Populated)>,
}

/// Specification-level image of an [`Instance`].
pub struct InstanceView {
    pub collection_name: Seq<char>,
    pub id: Value,
    pub fields: Seq<(Seq<char>, Value)>,
    pub unique_fields: Seq<(Seq<char>, Value)>,
    pub relations: Seq<RelationView>,
    pub populated: Seq<(Seq<char>, PopulatedView)>,
}

impl View for Instance {
    type V = InstanceView;

    open spec fn view(&self) -> InstanceView {
        InstanceView {
            collection_name: self.collection_name@,
            id: self.id,
            fields: pairs_views(self.fields@),
            unique_fields: pairs_views(self.unique_fields@),
            relations: relations_views(self.relations@),
            populated: populated_views(self.populated@),
        }
    }
}

/// The persisted form of an instance: its `_id` followed by its scalar
/// fields. Populated relation values are never stored.
pub open spec fn instance_doc(i: InstanceView) -> Seq<(Seq<char>, Value)> {
    seq![("_id"@, i.id)] + i.fields
}

impl Instance {
    /// The document this instance persists as.
    pub fn to_document(&self) -> (r: Document)
        ensures
            r@ == instance_doc(self@),
    {
        let mut entries: Vec<(String, Value)> = Vec::new();
        entries.push((String::from_str("_id"), self.id.dup()));
        let n = self.fields.len();
        for i in 0..n
            invariant
                n == self.fields@.len(),
                entries@.len() == i + 1,
                entries@[0].0@ == "_id"@,
                entries@[0].1 == self.id,
                forall|j: int|
                    1 <= j < i + 1 ==> (#[trigger] entries@[j]).0@ == self.fields@[j - 1].0@
                        && entries@[j].1 == self.fields@[j - 1].1,
        {
            entries.push((self.fields[i].0.clone(), self.fields[i].1.dup()));
        }
        let r = Document { entries };
        proof {
            assert(r@ =~= instance_doc(self@));
        }
        r
    }

    /// The identity filter `_id == ` this instance's id.
    pub fn id_query(&self) -> (r: Filter)
        ensures
            r@ == seq![("_id"@, CondView::Eq(self.id))],
    {
        let r = Filter::by_id(self.id.dup());
        proof {
            assert(r@ =~= seq![("_id"@, CondView::Eq(self.id))]);
        }
        r
    }

    /// Index of the populated entry for `field`, if any.
    fn populated_position(&self, field: &str) -> (r: Option<usize>)
        ensures
            match r {
                Some(j) => j < self.populated@.len() && doc_index_of(
                    populated_views(self.populated@),
                    field@,
                ) == j as int,
                None => doc_index_of(populated_views(self.populated@), field@)
                    == -1,
            },
    {
        proof {
            lemma_doc_index_of::<PopulatedView>(populated_views(self.populated@), field@);
        }
        let wanted: String = field.to_owned();
        let n = self.populated.len();
        for i in 0..n
            invariant
                wanted@ == field@,
                n == self.populated@.len(),
                forall|j: int|
                    0 <= j < i ==> (#[trigger] populated_views(self.populated@)[j]).0 != field@,
                doc_index_of(populated_views(self.populated@), field@) >= -1,
                doc_index_of(populated_views(self.populated@), field@) == -1
                    ==> forall|j: int|
                    0 <= j < self.populated@.len() ==> (#[trigger] populated_views(
                        self.populated@,
                    )[j]).0 != field@,
                doc_index_of(populated_views(self.populated@), field@) >= 0
                    ==> doc_index_of(populated_views(self.populated@), field@)
                    < self.populated@.len() && populated_views(
                    self.populated@,
                )[doc_index_of(populated_views(self.populated@), field@)].0
                    == field@ && forall|j: int|
                    0 <= j < doc_index_of(populated_views(self.populated@), field@)
                        ==> (#[trigger] populated_views(self.populated@)[j]).0 != field@,
        {
            if self.populated[i].0 == wanted {
                proof {
                    assert(populated_views(self.populated@)[i as int].0 == field@);
                    let idx = doc_index_of(
                        populated_views(self.populated@),
                        field@,
                    );
                    if 0 <= idx < i as int {
                        assert(populated_views(self.populated@)[idx].0 != field@);
                    } else if idx > i as int {
                        assert(populated_views(self.populated@)[i as int].0 != field@);
                    }
                    assert(idx == i as int);
                }
                return Some(i);
            }
        }
        None
    }

    /// Write a resolved relation value into the instance: the entry for
    /// `field` is replaced, or appended if the field was never populated.
    /// Every other part of the instance is untouched.
    pub fn set_populated(&mut self, field: &str, p: Populated)
        ensures
            final(self).collection_name == old(self).collection_name,
            final(self).id == old(self).id,
            final(self).fields == old(self).fields,
            final(self).unique_fields == old(self).unique_fields,
            final(self).relations == old(self).relations,
            populated_views(final(self).populated@) == doc_set(
                populated_views(old(self).populated@),
                field@,
                p@,
            ),
    {
        proof {
            lemma_doc_index_of::<PopulatedView>(populated_views(self.populated@), field@);
        }
        match self.populated_position(field) {
            Some(j) => {
                let kept = self.populated[j].0.clone();
                self.populated[j] = (kept, p);
                proof {
                    assert(populated_views(self.populated@) =~= doc_set(
                        populated_views(old(self).populated@),
                        field@,
                        p@,
                    ));
                }
            },
            None => {
                self.populated.push((field.to_owned(), p));
                proof {
                    assert(populated_views(self.populated@) =~= doc_set(
                        populated_views(old(self).populated@),
                        field@,
                        p@,
                    ));
                }
            },
        }
    }
}

} // verus!
