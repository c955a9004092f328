use vstd::prelude::*;

use crate::document::Document;
use crate::error::Error;
use crate::nongoose::Nongoose;
use crate::schema::{DataView, SchemaData};
use crate::store::{docs_of, docs_views, matching, modified_count_of, Filter, Store, UpdateResult, UpdateSpec};

verus! {

/// Builder and registry of a mapping instance: the store it operates
/// on, and the schemas registered with it so far. The registry is
/// explicit, dependency-injected state, so isolated registries can
/// coexist; one-to-many population consults it to discover reverse
/// links.
#[derive(Clone, Debug, PartialEq)]
pub struct NongooseBuilder {
    /// The document store this mapping instance operates on.
    pub store: Store,
    /// Registered schema metadata, first registration first.
    pub schemas: Vec<SchemaData>,
}

/// The views of a sequence of registered schemas.
pub open spec fn reg_views(schemas: Seq<SchemaData>) -> Seq<DataView> {
    schemas.map_values(|d: SchemaData| d@)
}

/// Index of the first registered schema for collection `name`, or `-1`.
pub open spec fn schema_index_of(reg: Seq<DataView>, name: Seq<char>) -> int
    decreases reg.len(),
{
    if reg.len() == 0 {
        -1
    } else if reg[0].name == name {
        0
    } else {
        let rest = schema_index_of(reg.drop_first(), name);
        if rest == -1 {
            -1
        } else {
            rest + 1
        }
    }
}

/// The registered metadata for collection `name`, if any. First
/// registration wins: a later registration under the same name is
/// never looked up.
pub open spec fn schema_of(reg: Seq<DataView>, name: Seq<char>) -> Option<DataView> {
    let i = schema_index_of(reg, name);
    if i >= 0 {
        Some(reg[i])
    } else {
        None
    }
}

/// What `schema_index_of` finds: either nothing is registered under
/// `name`, or the index of the first registration that is.
pub proof fn lemma_schema_index_of(reg: Seq<DataView>, name: Seq<char>)
    ensures
        ({
            let i = schema_index_of(reg, name);
            &&& -1 <= i
            &&& i == -1 ==> forall|j: int| 0 <= j < reg.len() ==> (#[trigger] reg[j]).name != name
            &&& i >= 0 ==> i < reg.len() && reg[i].name == name && forall|j: int|
                0 <= j < i ==> (#[trigger] reg[j]).name != name
        }),
    decreases reg.len(),
{
    if reg.len() > 0 && reg[0].name != name {
        let rest = reg.drop_first();
        lemma_schema_index_of(rest, name);
        let ri = schema_index_of(rest, name);
        assert(forall|j: int| 1 <= j < reg.len() ==> (#[trigger] reg[j]) == rest[j - 1]);
        if ri == -1 {
            assert forall|j: int| 0 <= j < reg.len() implies (#[trigger] reg[j]).name != name by {
                if j >= 1 {
                    assert(rest[j - 1].name != name);
                }
            }
        } else {
            assert(reg[ri + 1] == rest[ri]);
            assert forall|j: int| 0 <= j < ri + 1 implies (#[trigger] reg[j]).name != name by {
                if j >= 1 {
                    assert(rest[j - 1].name != name);
                }
            }
        }
    }
}

impl NongooseBuilder {
    /// Register a schema if its collection name was not registered
    /// before: the first registration wins, a second one is ignored.
    pub fn add_schema(self, data: SchemaData) -> (r: NongooseBuilder)
        ensures
            schema_index_of(reg_views(self.schemas@), data@.name) >= 0 ==> r == self,
            schema_index_of(reg_views(self.schemas@), data@.name) == -1 ==> r.store == self.store
                && r.schemas@ == self.schemas@.push(data),
    {
        proof {
            lemma_schema_index_of(reg_views(self.schemas@), data@.name);
        }
        let name = data.get_name();
        if self.has_schema(name.as_str()) {
            self
        } else {
            let mut out = self;
            out.schemas.push(data);
            out
        }
    }

    /// Whether collection `name` was registered with this mapping
    /// instance.
    pub fn has_schema(&self, name: &str) -> (r: bool)
        ensures
            r == (schema_index_of(reg_views(self.schemas@), name@) >= 0),
    {
        match self.get_schema(name) {
            Some(_) => true,
            None => {
                proof {
                    lemma_schema_index_of(reg_views(self.schemas@), name@);
                }
                false
            },
        }
    }

    /// The registered metadata for collection `name`, if any.
    pub fn get_schema(&self, name: &str) -> (r: Option<&SchemaData>)
        ensures
            match r {
                Some(d) => schema_of(reg_views(self.schemas@), name@) == Some(d@),
                None => schema_of(reg_views(self.schemas@), name@) is None,
            },
    {
        proof {
            lemma_schema_index_of(reg_views(self.schemas@), name@);
        }
        let wanted: String = name.to_owned();
        let n = self.schemas.len();
        for i in 0..n
            invariant
                wanted@ == name@,
                n == self.schemas@.len(),
                forall|j: int|
                    0 <= j < i ==> (#[trigger] reg_views(self.schemas@)[j]).name != name@,
                schema_index_of(reg_views(self.schemas@), name@) >= -1,
                schema_index_of(reg_views(self.schemas@), name@) == -1 ==> forall|j: int|
                    0 <= j < self.schemas@.len() ==> (#[trigger] reg_views(self.schemas@)[j]).name
                        != name@,
                schema_index_of(reg_views(self.schemas@), name@) >= 0 ==> schema_index_of(
                    reg_views(self.schemas@),
                    name@,
                ) < self.schemas@.len() && reg_views(self.schemas@)[schema_index_of(
                    reg_views(self.schemas@),
                    name@,
                )].name == name@ && forall|j: int|
                    0 <= j < schema_index_of(reg_views(self.schemas@), name@) ==> (
                    #[trigger] reg_views(self.schemas@)[j]).name != name@,
        {
            if self.schemas[i].name_is(&wanted) {
                proof {
                    assert(reg_views(self.schemas@)[i as int].name == name@);
                    let idx = schema_index_of(reg_views(self.schemas@), name@);
                    if 0 <= idx < i as int {
                        assert(reg_views(self.schemas@)[idx].name != name@);
                    } else if idx > i as int {
                        assert(reg_views(self.schemas@)[i as int].name != name@);
                    }
                    assert(idx == i as int);
                }
                return Some(&self.schemas[i]);
            }
        }
        None
    }

    /// A fresh builder with the same registry and an equal store.
    pub fn dup(&self) -> (r: NongooseBuilder)
        ensures
            reg_views(r.schemas@) == reg_views(self.schemas@),
            forall|n: Seq<char>| docs_of(r.store, n) == docs_of(self.store, n),
    {
        let store = self.store.dup();
        let mut schemas: Vec<SchemaData> = Vec::new();
        let n = self.schemas.len();
        for i in 0..n
            invariant
                n == self.schemas@.len(),
                schemas@.len() == i,
                forall|j: int| 0 <= j < i ==> (#[trigger] schemas@[j])@ == self.schemas@[j]@,
        {
            schemas.push(self.schemas[i].dup());
        }
        proof {
            assert(reg_views(schemas@) =~= reg_views(self.schemas@));
        }
        NongooseBuilder { store, schemas }
    }

    /// The mapping facade sharing this builder's registry and an equal
    /// store.
    pub fn build(&self) -> (r: Nongoose)
        ensures
            reg_views(r.builder.schemas@) == reg_views(self.schemas@),
            forall|n: Seq<char>| docs_of(r.builder.store, n) == docs_of(self.store, n),
    {
        Nongoose { builder: self.dup() }
    }

    /// Count the documents of `collection` matching `conditions`; an
    /// unregistered collection is refused.
    pub fn count_sync(&self, collection: &str, conditions: &Filter) -> (r: Result<u64, Error>)
        ensures
            r is Ok <==> schema_index_of(reg_views(self.schemas@), collection@) >= 0,
            r is Err ==> r == Err::<u64, Error>(Error::NotRegistered),
            r is Ok ==> r->Ok_0 as nat == matching(
                docs_of(self.store, collection@),
                conditions@,
            ).len(),
    {
        if !self.has_schema(collection) {
            return Err(Error::NotRegistered);
        }
        Ok(self.store.count_docs(collection, conditions))
    }

    /// Every document of `collection` matching `conditions`, in store
    /// order; an unregistered collection is refused.
    pub fn find_sync(&self, collection: &str, conditions: &Filter) -> (r: Result<
        Vec<Document>,
        Error,
    >)
        ensures
            r is Ok <==> schema_index_of(reg_views(self.schemas@), collection@) >= 0,
            r is Err ==> r == Err::<Vec<Document>, Error>(Error::NotRegistered),
            r is Ok ==> docs_views(r->Ok_0@) == matching(
                docs_of(self.store, collection@),
                conditions@,
            ),
    {
        if !self.has_schema(collection) {
            return Err(Error::NotRegistered);
        }
        Ok(self.store.find_many(collection, conditions))
    }

    /// The first document of `collection` matching `conditions`, if
    /// any; an unregistered collection is refused.
    pub fn find_one_sync(&self, collection: &str, conditions: &Filter) -> (r: Result<
        Option<Document>,
        Error,
    >)
        ensures
            r is Ok <==> schema_index_of(reg_views(self.schemas@), collection@) >= 0,
            r is Err ==> r == Err::<Option<Document>, Error>(Error::NotRegistered),
            r is Ok ==> ({
                let m = matching(docs_of(self.store, collection@), conditions@);
                match r->Ok_0 {
                    Some(d) => m.len() > 0 && d@ == m[0],
                    None => m.len() == 0,
                }
            }),
    {
        if !self.has_schema(collection) {
            return Err(Error::NotRegistered);
        }
        Ok(self.store.find_one(collection, conditions))
    }

    /// Apply `data` to every document of `collection` matching
    /// `conditions`; an unregistered collection is refused and the
    /// store left untouched. Update hooks are not fired.
    pub fn update_many_sync(&mut self, collection: &str, conditions: &Filter, data: &UpdateSpec)
        -> (r: Result<UpdateResult, Error>)
        ensures
            r is Ok <==> schema_index_of(reg_views(old(self).schemas@), collection@) >= 0,
            r is Err ==> r == Err::<UpdateResult, Error>(Error::NotRegistered) && *final(self)
                == *old(self),
            final(self).schemas == old(self).schemas,
            r is Ok ==> ({
                let docs = docs_of(old(self).store, collection@);
                let docs2 = docs_of(final(self).store, collection@);
                &&& docs2.len() == docs.len()
                &&& forall|i: int|
                    0 <= i < docs.len() ==> docs2[i] == (if crate::store::filter_matches(
                        conditions@,
                        #[trigger] docs[i],
                    ) {
                        crate::store::apply_update(docs[i], data@)
                    } else {
                        docs[i]
                    })
                &&& forall|n: Seq<char>|
                    n != collection@ ==> docs_of(final(self).store, n) == docs_of(
                        old(self).store,
                        n,
                    )
                &&& r->Ok_0.matched_count as nat == matching(docs, conditions@).len()
                &&& r->Ok_0.modified_count as nat == modified_count_of(docs, conditions@, data@)
            }),
    {
        if !self.has_schema(collection) {
            return Err(Error::NotRegistered);
        }
        Ok(self.store.update_many(collection, conditions, data))
    }
}

} // verus!
