use vstd::prelude::*;

mod builder;

/// Options of the lookup operations.
pub mod options;

pub use builder::{lemma_schema_index_of, reg_views, schema_index_of, schema_of, NongooseBuilder};

use crate::document::{doc_get, doc_set, Document};
use crate::error::Error;
use crate::schema::types::{RelationView, SchemaRelationType};
use crate::schema::{populated_views, DataView, Instance, InstanceView, Populated, PopulatedView,
    SchemaBefore, SchemaData};
use crate::schema::instance_doc;
use crate::store::{docs_of, docs_views, first_match_index, matching, CondView, Filter, Store,
    UpdateResult, UpdateSpec};
use crate::value::{display_of, value_eq, Value};

verus! {

/// The mapping facade: owns the registry and the store, and carries
/// every operation a caller issues against registered record types.
#[derive(Clone, Debug, PartialEq)]
pub struct Nongoose {
    /// The registry and store this facade operates on.
    pub builder: NongooseBuilder,
}

/// Index of the first relation descriptor for field `field`, or `-1`.
pub open spec fn rel_index_of(rels: Seq<RelationView>, field: Seq<char>) -> int
    decreases rels.len(),
{
    if rels.len() == 0 {
        -1
    } else if rels[0].field_ident == field {
        0
    } else {
        let rest = rel_index_of(rels.drop_first(), field);
        if rest == -1 {
            -1
        } else {
            rest + 1
        }
    }
}

/// What `rel_index_of` finds.
pub proof fn lemma_rel_index_of(rels: Seq<RelationView>, field: Seq<char>)
    ensures
        ({
            let i = rel_index_of(rels, field);
            &&& -1 <= i
            &&& i == -1 ==> forall|j: int|
                0 <= j < rels.len() ==> (#[trigger] rels[j]).field_ident != field
            &&& i >= 0 ==> i < rels.len() && rels[i].field_ident == field && forall|j: int|
                0 <= j < i ==> (#[trigger] rels[j]).field_ident != field
        }),
    decreases rels.len(),
{
    if rels.len() > 0 && rels[0].field_ident != field {
        let rest = rels.drop_first();
        lemma_rel_index_of(rest, field);
        let ri = rel_index_of(rest, field);
        assert(forall|j: int| 1 <= j < rels.len() ==> (#[trigger] rels[j]) == rest[j - 1]);
        if ri == -1 {
            assert forall|j: int| 0 <= j < rels.len() implies (#[trigger] rels[j]).field_ident
                != field by {
                if j >= 1 {
                    assert(rest[j - 1].field_ident != field);
                }
            }
        } else {
            assert(rels[ri + 1] == rest[ri]);
            assert forall|j: int| 0 <= j < ri + 1 implies (#[trigger] rels[j]).field_ident
                != field by {
                if j >= 1 {
                    assert(rest[j - 1].field_ident != field);
                }
            }
        }
    }
}

/// Whether a relation descriptor is the reverse link sought by
/// one-to-many population: a many-to-one relation whose target is the
/// source type's own collection.
pub open spec fn is_back_rel(r: RelationView, source: Seq<char>) -> bool {
    r.relation_type == SchemaRelationType::ManyToOne && r.schema_name == source
}

/// Index of the first reverse link towards `source`, or `-1`.
pub open spec fn back_rel_index_of(rels: Seq<RelationView>, source: Seq<char>) -> int
    decreases rels.len(),
{
    if rels.len() == 0 {
        -1
    } else if is_back_rel(rels[0], source) {
        0
    } else {
        let rest = back_rel_index_of(rels.drop_first(), source);
        if rest == -1 {
            -1
        } else {
            rest + 1
        }
    }
}

/// What `back_rel_index_of` finds.
pub proof fn lemma_back_rel_index_of(rels: Seq<RelationView>, source: Seq<char>)
    ensures
        ({
            let i = back_rel_index_of(rels, source);
            &&& -1 <= i
            &&& i == -1 ==> forall|j: int|
                0 <= j < rels.len() ==> !is_back_rel(#[trigger] rels[j], source)
            &&& i >= 0 ==> i < rels.len() && is_back_rel(rels[i], source) && forall|j: int|
                0 <= j < i ==> !is_back_rel(#[trigger] rels[j], source)
        }),
    decreases rels.len(),
{
    if rels.len() > 0 && !is_back_rel(rels[0], source) {
        let rest = rels.drop_first();
        lemma_back_rel_index_of(rest, source);
        let ri = back_rel_index_of(rest, source);
        assert(forall|j: int| 1 <= j < rels.len() ==> (#[trigger] rels[j]) == rest[j - 1]);
        if ri == -1 {
            assert forall|j: int| 0 <= j < rels.len() implies !is_back_rel(
                #[trigger] rels[j],
                source,
            ) by {
                if j >= 1 {
                    assert(!is_back_rel(rest[j - 1], source));
                }
            }
        } else {
            assert(rels[ri + 1] == rest[ri]);
            assert forall|j: int| 0 <= j < ri + 1 implies !is_back_rel(
                #[trigger] rels[j],
                source,
            ) by {
                if j >= 1 {
                    assert(!is_back_rel(rest[j - 1], source));
                }
            }
        }
    }
}

/// What populating one field requires of the store: nothing, one
/// identity lookup, or one reverse foreign-key query.
#[derive(Clone, Debug, PartialEq)]
pub enum PopulatePlan {
    /// Nothing to populate: unknown field, unregistered target type,
    /// or no reverse link.
    Noop,
    /// Fetch the first document of `collection` matching `filter` and
    /// store it under `field`.
    FetchOne { collection: String, filter: Filter, field: String },
    /// Fetch every document of `collection` matching `filter` and
    /// store the list under `field`.
    FetchMany { collection: String, filter: Filter, field: String },
}

/// Specification-level image of a [`PopulatePlan`].
pub enum PlanView {
    Noop,
    FetchOne { collection: Seq<char>, filter: Seq<(Seq<char>, CondView)>, field: Seq<char> },
    FetchMany { collection: Seq<char>, filter: Seq<(Seq<char>, CondView)>, field: Seq<char> },
}

impl View for PopulatePlan {
    type V = PlanView;

    open spec fn view(&self) -> PlanView {
        match self {
            PopulatePlan::Noop => PlanView::Noop,
            PopulatePlan::FetchOne { collection, filter, field } => PlanView::FetchOne {
                collection: collection@,
                filter: filter@,
                field: field@,
            },
            PopulatePlan::FetchMany { collection, filter, field } => PlanView::FetchMany {
                collection: collection@,
                filter: filter@,
                field: field@,
            },
        }
    }
}

/// The population decision, from the instance's own relation metadata
/// and the registry: a direct relation becomes an identity lookup on
/// the foreign key; a one-to-many relation needs the target type's
/// registered metadata and a many-to-one relation of it pointing back,
/// and queries the target's `<field>_id` foreign key for the source's
/// own identity; everything else is a silent no-op.
pub open spec fn populate_plan_view(reg: Seq<DataView>, i: InstanceView, field: Seq<char>)
    -> PlanView {
    let ri = rel_index_of(i.relations, field);
    if ri < 0 {
        PlanView::Noop
    } else {
        let rel = i.relations[ri];
        if rel.relation_type == SchemaRelationType::OneToOne || rel.relation_type
            == SchemaRelationType::ManyToOne {
            PlanView::FetchOne {
                collection: rel.schema_name,
                filter: seq![("_id"@, CondView::Eq(rel.field_value))],
                field,
            }
        } else {
            match schema_of(reg, rel.schema_name) {
                Option::None => PlanView::Noop,
                Option::Some(data) => {
                    let bi = back_rel_index_of(data.relations, i.collection_name);
                    if bi < 0 {
                        PlanView::Noop
                    } else {
                        PlanView::FetchMany {
                            collection: rel.schema_name,
                            filter: seq![
                                (data.relations[bi].field_ident + "_id"@, CondView::Eq(i.id)),
                            ],
                            field,
                        }
                    }
                },
            }
        }
    }
}

/// Index of the first relation of `rels` for field `field`, if any.
fn rel_position(rels: &Vec<crate::schema::types::SchemaRelation>, field: &str) -> (r: Option<
    usize,
>)
    ensures
        match r {
            Some(j) => j < rels@.len() && rel_index_of(
                crate::schema::relations_views(rels@),
                field@,
            ) == j as int,
            None => rel_index_of(crate::schema::relations_views(rels@), field@) == -1,
        },
{
    proof {
        lemma_rel_index_of(crate::schema::relations_views(rels@), field@);
    }
    let ghost rv = crate::schema::relations_views(rels@);
    let wanted: String = field.to_owned();
    let n = rels.len();
    for i in 0..n
        invariant
            wanted@ == field@,
            n == rels@.len(),
            rv == crate::schema::relations_views(rels@),
            forall|j: int| 0 <= j < i ==> (#[trigger] rv[j]).field_ident != field@,
            rel_index_of(rv, field@) >= -1,
            rel_index_of(rv, field@) == -1 ==> forall|j: int|
                0 <= j < rv.len() ==> (#[trigger] rv[j]).field_ident != field@,
            rel_index_of(rv, field@) >= 0 ==> rel_index_of(rv, field@) < rv.len() && rv[rel_index_of(
                rv,
                field@,
            )].field_ident == field@ && forall|j: int|
                0 <= j < rel_index_of(rv, field@) ==> (#[trigger] rv[j]).field_ident != field@,
    {
        if rels[i].field_ident == wanted {
            proof {
                assert(rv[i as int].field_ident == field@);
                let idx = rel_index_of(rv, field@);
                if 0 <= idx < i as int {
                    assert(rv[idx].field_ident != field@);
                } else if idx > i as int {
                    assert(rv[i as int].field_ident != field@);
                }
                assert(idx == i as int);
            }
            return Some(i);
        }
    }
    None
}

/// Index of the first reverse link towards `source` in `rels`, if any.
fn back_rel_position(rels: &Vec<crate::schema::types::SchemaRelation>, source: &String) -> (r:
    Option<usize>)
    ensures
        match r {
            Some(j) => j < rels@.len() && back_rel_index_of(
                crate::schema::relations_views(rels@),
                source@,
            ) == j as int,
            None => back_rel_index_of(crate::schema::relations_views(rels@), source@) == -1,
        },
{
    proof {
        lemma_back_rel_index_of(crate::schema::relations_views(rels@), source@);
    }
    let ghost rv = crate::schema::relations_views(rels@);
    let n = rels.len();
    for i in 0..n
        invariant
            n == rels@.len(),
            rv == crate::schema::relations_views(rels@),
            forall|j: int| 0 <= j < i ==> !is_back_rel(#[trigger] rv[j], source@),
            back_rel_index_of(rv, source@) >= -1,
            back_rel_index_of(rv, source@) == -1 ==> forall|j: int|
                0 <= j < rv.len() ==> !is_back_rel(#[trigger] rv[j], source@),
            back_rel_index_of(rv, source@) >= 0 ==> back_rel_index_of(rv, source@) < rv.len()
                && is_back_rel(rv[back_rel_index_of(rv, source@)], source@) && forall|j: int|
                0 <= j < back_rel_index_of(rv, source@) ==> !is_back_rel(
                    #[trigger] rv[j],
                    source@,
                ),
    {
        let is_many_to_one = match rels[i].relation_type {
            SchemaRelationType::ManyToOne => true,
            _ => false,
        };
        if is_many_to_one && rels[i].schema_name == *source {
            proof {
                assert(is_back_rel(rv[i as int], source@));
                let idx = back_rel_index_of(rv, source@);
                if 0 <= idx < i as int {
                    assert(!is_back_rel(rv[idx], source@));
                } else if idx > i as int {
                    assert(!is_back_rel(rv[i as int], source@));
                }
                assert(idx == i as int);
            }
            return Some(i);
        }
        proof {
            assert(!is_back_rel(rv[i as int], source@));
        }
    }
    None
}

/// Whether one uniqueness probe conflicts in store `s`: some document
/// of collection `cn` matches the probe, and the first such document's
/// identity is not `id`. Finding the instance's own document is no
/// conflict: that is a re-save.
pub open spec fn probe_conflict(s: Store, cn: Seq<char>, id: Value, probe: (Seq<char>, Value))
    -> bool {
    let m = matching(docs_of(s, cn), seq![(probe.0, CondView::Eq(probe.1))]);
    &&& m.len() > 0
    &&& match doc_get(m[0], "_id"@) {
        Option::Some(v) => !value_eq(v, id),
        Option::None => true,
    }
}

/// Index of the first conflicting uniqueness probe, or `-1`.
pub open spec fn first_conflict(
    s: Store,
    cn: Seq<char>,
    id: Value,
    probes: Seq<(Seq<char>, Value)>,
) -> int
    decreases probes.len(),
{
    if probes.len() == 0 {
        -1
    } else if probe_conflict(s, cn, id, probes[0]) {
        0
    } else {
        let rest = first_conflict(s, cn, id, probes.drop_first());
        if rest == -1 {
            -1
        } else {
            rest + 1
        }
    }
}

/// What `first_conflict` finds.
pub proof fn lemma_first_conflict(
    s: Store,
    cn: Seq<char>,
    id: Value,
    probes: Seq<(Seq<char>, Value)>,
)
    ensures
        ({
            let c = first_conflict(s, cn, id, probes);
            &&& -1 <= c
            &&& c == -1 ==> forall|j: int|
                0 <= j < probes.len() ==> !probe_conflict(s, cn, id, #[trigger] probes[j])
            &&& c >= 0 ==> c < probes.len() && probe_conflict(s, cn, id, probes[c]) && forall|
                j: int,
            |
                0 <= j < c ==> !probe_conflict(s, cn, id, #[trigger] probes[j])
        }),
    decreases probes.len(),
{
    if probes.len() > 0 && !probe_conflict(s, cn, id, probes[0]) {
        let rest = probes.drop_first();
        lemma_first_conflict(s, cn, id, rest);
        let ri = first_conflict(s, cn, id, rest);
        assert(forall|j: int| 1 <= j < probes.len() ==> (#[trigger] probes[j]) == rest[j - 1]);
        if ri == -1 {
            assert forall|j: int| 0 <= j < probes.len() implies !probe_conflict(
                s,
                cn,
                id,
                #[trigger] probes[j],
            ) by {
                if j >= 1 {
                    assert(!probe_conflict(s, cn, id, rest[j - 1]));
                }
            }
        } else {
            assert(probes[ri + 1] == rest[ri]);
            assert forall|j: int| 0 <= j < ri + 1 implies !probe_conflict(
                s,
                cn,
                id,
                #[trigger] probes[j],
            ) by {
                if j >= 1 {
                    assert(!probe_conflict(s, cn, id, rest[j - 1]));
                }
            }
        }
    }
}

/// Everything `save` promises. The uniqueness enforcer runs first and
/// aborts on a conflict, before any write. Otherwise the store is
/// probed for the instance's identity: if a document exists, the
/// update hook runs and the first identity match is replaced (the
/// replacement is an upsert, keyed by the hook-mutated identity); if
/// not, the create hook runs and the document is inserted. A failing
/// hook aborts the save with its error, before any write. The saved
/// document is the persisted form of the hook-mutated instance, which
/// is also what the call returns.
pub open spec fn save_outcome<H: SchemaBefore>(
    hooks: H,
    pre: Store,
    post: Store,
    instance: Instance,
    r: Result<Instance, Error>,
) -> bool {
    let cn = instance@.collection_name;
    let conflict = first_conflict(pre, cn, instance@.id, instance@.unique_fields);
    if conflict >= 0 {
        &&& r is Err
        &&& r->Err_0 is DuplicatedSchemaField
        &&& r->Err_0->DuplicatedSchemaField_0@ == instance@.unique_fields[conflict].0
        &&& r->Err_0->DuplicatedSchemaField_1@ == display_of(instance@.unique_fields[conflict].1)
        &&& post == pre
    } else {
        let docs = docs_of(pre, cn);
        let already = matching(docs, seq![("_id"@, CondView::Eq(instance@.id))]).len() > 0;
        if already {
            match hooks.before_update_spec(instance) {
                Result::Err(e) => r == Err::<Instance, Error>(e) && post == pre,
                Result::Ok(m) => {
                    let fi = first_match_index(docs, seq![("_id"@, CondView::Eq(m@.id))]);
                    &&& r == Ok::<Instance, Error>(m)
                    &&& fi >= 0 ==> docs_of(post, cn) == docs.update(fi, instance_doc(m@))
                    &&& fi < 0 ==> docs_of(post, cn) == docs.push(instance_doc(m@))
                    &&& forall|n: Seq<char>| n != cn ==> docs_of(post, n) == docs_of(pre, n)
                },
            }
        } else {
            match hooks.before_create_spec(instance) {
                Result::Err(e) => r == Err::<Instance, Error>(e) && post == pre,
                Result::Ok(m) => {
                    &&& r == Ok::<Instance, Error>(m)
                    &&& docs_of(post, cn) == docs.push(instance_doc(m@))
                    &&& forall|n: Seq<char>| n != cn ==> docs_of(post, n) == docs_of(pre, n)
                },
            }
        }
    }
}

impl Nongoose {
    /// Start building a mapping instance over `store`: register each
    /// record type's metadata on the builder, then call `build`.
    pub fn builder(store: Store) -> (r: NongooseBuilder)
        ensures
            r.store == store,
            r.schemas@ =~= Seq::<SchemaData>::empty(),
    {
        NongooseBuilder { store, schemas: Vec::new() }
    }

    /// Check every uniqueness probe of `instance` against the store: a
    /// stored document matching a probe whose identity differs from the
    /// instance's own is a conflict. Read-only; an instance with no
    /// unique fields always passes.
    pub fn check_unique(&self, instance: &Instance) -> (r: Result<(), Error>)
        ensures
            ({
                let c = first_conflict(
                    self.builder.store,
                    instance@.collection_name,
                    instance@.id,
                    instance@.unique_fields,
                );
                &&& -1 <= c
                &&& (r is Ok <==> c == -1)
                &&& instance@.unique_fields.len() == 0 ==> r is Ok
                &&& c >= 0 ==> r is Err && r->Err_0 is DuplicatedSchemaField
                    && r->Err_0->DuplicatedSchemaField_0@ == instance@.unique_fields[c].0
                    && r->Err_0->DuplicatedSchemaField_1@ == display_of(
                    instance@.unique_fields[c].1,
                )
            }),
    {
        proof {
            lemma_first_conflict(
                self.builder.store,
                instance@.collection_name,
                instance@.id,
                instance@.unique_fields,
            );
        }
        let ghost st = self.builder.store;
        let ghost cn = instance@.collection_name;
        let ghost idv = instance@.id;
        let ghost probes = instance@.unique_fields;
        let n = instance.unique_fields.len();
        for k in 0..n
            invariant
                st == self.builder.store,
                cn == instance@.collection_name,
                idv == instance@.id,
                probes == instance@.unique_fields,
                n == instance.unique_fields@.len(),
                forall|j: int|
                    0 <= j < k ==> !probe_conflict(st, cn, idv, #[trigger] probes[j]),
                first_conflict(st, cn, idv, probes) >= -1,
                first_conflict(st, cn, idv, probes) == -1 ==> forall|j: int|
                    0 <= j < probes.len() ==> !probe_conflict(st, cn, idv, #[trigger] probes[j]),
                first_conflict(st, cn, idv, probes) >= 0 ==> first_conflict(st, cn, idv, probes)
                    < probes.len() && probe_conflict(
                    st,
                    cn,
                    idv,
                    probes[first_conflict(st, cn, idv, probes)],
                ) && forall|j: int|
                    0 <= j < first_conflict(st, cn, idv, probes) ==> !probe_conflict(
                        st,
                        cn,
                        idv,
                        #[trigger] probes[j],
                    ),
        {
            let filter = Filter::by_field(
                instance.unique_fields[k].0.as_str(),
                instance.unique_fields[k].1.dup(),
            );
            proof {
                assert(filter@ =~= seq![(probes[k as int].0, CondView::Eq(probes[k as int].1))]);
            }
            let conflict = match self.builder.store.find_one(
                instance.collection_name.as_str(),
                &filter,
            ) {
                None => false,
                Some(d) => match d.get("_id") {
                    Some(v) => !v.eq_value(&instance.id),
                    None => true,
                },
            };
            if conflict {
                proof {
                    assert(probe_conflict(st, cn, idv, probes[k as int]));
                    let c = first_conflict(st, cn, idv, probes);
                    if 0 <= c < k as int {
                        assert(!probe_conflict(st, cn, idv, probes[c]));
                    } else if c > k as int {
                        assert(!probe_conflict(st, cn, idv, probes[k as int]));
                    }
                    assert(c == k as int);
                }
                return Err(
                    Error::DuplicatedSchemaField(
                        instance.unique_fields[k].0.clone(),
                        instance.unique_fields[k].1.to_display_string(),
                    ),
                );
            }
            proof {
                assert(!probe_conflict(st, cn, idv, probes[k as int]));
            }
        }
        proof {
            let c = first_conflict(st, cn, idv, probes);
            if c >= 0 {
                assert(!probe_conflict(st, cn, idv, probes[c]));
            }
        }
        Ok(())
    }

    /// Populate one relation field of `instance` from the store.
    /// Exactly that field's resolved value may change; everything else
    /// of the instance is returned untouched. Unknown fields,
    /// unregistered target types and missing reverse links are silent
    /// no-ops; a direct relation whose target document is absent leaves
    /// the field unset. Against the in-memory store this never fails.
    pub fn populate(&self, instance: Instance, field: &str) -> (r: Result<Instance, Error>)
        ensures
            r is Ok,
            ({
                let out = r->Ok_0;
                &&& out.collection_name == instance.collection_name
                &&& out.id == instance.id
                &&& out.fields == instance.fields
                &&& out.unique_fields == instance.unique_fields
                &&& out.relations == instance.relations
                &&& match populate_plan_view(
                    reg_views(self.builder.schemas@),
                    instance@,
                    field@,
                ) {
                    PlanView::Noop => out.populated == instance.populated,
                    PlanView::FetchOne { collection, filter, field: pf } => ({
                        let m = matching(docs_of(self.builder.store, collection), filter);
                        if m.len() > 0 {
                            populated_views(out.populated@) == doc_set(
                                populated_views(instance.populated@),
                                pf,
                                PopulatedView::One(m[0]),
                            )
                        } else {
                            out.populated == instance.populated
                        }
                    }),
                    PlanView::FetchMany { collection, filter, field: pf } => populated_views(
                        out.populated@,
                    ) == doc_set(
                        populated_views(instance.populated@),
                        pf,
                        PopulatedView::Many(
                            matching(docs_of(self.builder.store, collection), filter),
                        ),
                    ),
                }
            }),
    {
        let plan = self.builder.populate_plan(&instance, field);
        match plan {
            PopulatePlan::Noop => Ok(instance),
            PopulatePlan::FetchOne { collection, filter, field: pf } => {
                match self.builder.store.find_one(collection.as_str(), &filter) {
                    Some(d) => {
                        let mut out = instance;
                        out.set_populated(pf.as_str(), Populated::One(d));
                        Ok(out)
                    },
                    None => Ok(instance),
                }
            },
            PopulatePlan::FetchMany { collection, filter, field: pf } => {
                let docs = self.builder.store.find_many(collection.as_str(), &filter);
                let mut out = instance;
                out.set_populated(pf.as_str(), Populated::Many(docs));
                Ok(out)
            },
        }
    }

    /// Save `instance`: enforce uniqueness, probe for its identity,
    /// run the matching pre-persistence hook, then insert or replace
    /// its document. Returns the hook-mutated instance.
    pub fn save<H: SchemaBefore>(&mut self, hooks: &H, instance: Instance) -> (r: Result<
        Instance,
        Error,
    >)
        ensures
            save_outcome(*hooks, old(self).builder.store, final(self).builder.store, instance, r),
            final(self).builder.schemas == old(self).builder.schemas,
    {
        match self.check_unique(&instance) {
            Err(e) => {
                return Err(e);
            },
            Ok(()) => {},
        }
        let cn = instance.collection_name.clone();
        let idq = instance.id_query();
        let already = match self.builder.store.find_one(cn.as_str(), &idq) {
            Some(_) => true,
            None => false,
        };
        let mut inst = instance;
        if already {
            match hooks.before_update(&mut inst) {
                Err(e) => {
                    return Err(e);
                },
                Ok(()) => {},
            }
            let idq2 = inst.id_query();
            let doc = inst.to_document();
            self.builder.store.replace_one(cn.as_str(), &idq2, doc);
            Ok(inst)
        } else {
            match hooks.before_create(&mut inst) {
                Err(e) => {
                    return Err(e);
                },
                Ok(()) => {},
            }
            let doc = inst.to_document();
            self.builder.store.insert_one(cn.as_str(), doc);
            Ok(inst)
        }
    }

    /// Shortcut for saving one new document: `create` does `save`.
    pub fn create<H: SchemaBefore>(&mut self, hooks: &H, data: Instance) -> (r: Result<
        Instance,
        Error,
    >)
        ensures
            save_outcome(*hooks, old(self).builder.store, final(self).builder.store, data, r),
            final(self).builder.schemas == old(self).builder.schemas,
    {
        self.save(hooks, data)
    }

    /// Delete the document matching the instance's identity; reports
    /// whether exactly one document was deleted. Related documents are
    /// not cleaned up: cascading deletes are the caller's business.
    pub fn remove(&mut self, instance: &Instance) -> (r: Result<bool, Error>)
        ensures
            ({
                let cn = instance@.collection_name;
                let docs = docs_of(old(self).builder.store, cn);
                let fi = first_match_index(docs, seq![("_id"@, CondView::Eq(instance@.id))]);
                &&& r is Ok
                &&& r->Ok_0 == (fi >= 0)
                &&& fi >= 0 ==> docs_of(final(self).builder.store, cn) == docs.remove(fi)
                &&& fi < 0 ==> *final(self) == *old(self)
                &&& forall|n: Seq<char>|
                    n != cn ==> docs_of(final(self).builder.store, n) == docs_of(
                        old(self).builder.store,
                        n,
                    )
            }),
            final(self).builder.schemas == old(self).builder.schemas,
    {
        let idq = instance.id_query();
        let deleted = self.builder.store.delete_one(instance.collection_name.as_str(), &idq);
        Ok(deleted)
    }

    /// Count the documents of `collection` matching `conditions`.
    pub fn count(&self, collection: &str, conditions: &Filter) -> (r: Result<u64, Error>)
        ensures
            r is Ok <==> schema_index_of(reg_views(self.builder.schemas@), collection@) >= 0,
            r is Err ==> r == Err::<u64, Error>(Error::NotRegistered),
            r is Ok ==> r->Ok_0 as nat == matching(
                docs_of(self.builder.store, collection@),
                conditions@,
            ).len(),
    {
        self.builder.count_sync(collection, conditions)
    }

    /// Every document of `collection` matching `conditions`, in store
    /// order.
    pub fn find(&self, collection: &str, conditions: &Filter) -> (r: Result<Vec<Document>, Error>)
        ensures
            r is Ok <==> schema_index_of(reg_views(self.builder.schemas@), collection@) >= 0,
            r is Err ==> r == Err::<Vec<Document>, Error>(Error::NotRegistered),
            r is Ok ==> docs_views(r->Ok_0@) == matching(
                docs_of(self.builder.store, collection@),
                conditions@,
            ),
    {
        self.builder.find_sync(collection, conditions)
    }

    /// The first document of `collection` matching `conditions`, if
    /// any.
    pub fn find_one(&self, collection: &str, conditions: &Filter) -> (r: Result<
        Option<Document>,
        Error,
    >)
        ensures
            r is Ok <==> schema_index_of(reg_views(self.builder.schemas@), collection@) >= 0,
            r is Err ==> r == Err::<Option<Document>, Error>(Error::NotRegistered),
            r is Ok ==> ({
                let m = matching(docs_of(self.builder.store, collection@), conditions@);
                match r->Ok_0 {
                    Some(d) => m.len() > 0 && d@ == m[0],
                    None => m.len() == 0,
                }
            }),
    {
        self.builder.find_one_sync(collection, conditions)
    }

    /// The document of `collection` whose identity is `id`, if any.
    pub fn find_by_id(&self, collection: &str, id: &Value) -> (r: Result<Option<Document>, Error>)
        ensures
            r is Ok <==> schema_index_of(reg_views(self.builder.schemas@), collection@) >= 0,
            r is Err ==> r == Err::<Option<Document>, Error>(Error::NotRegistered),
            r is Ok ==> ({
                let m = matching(
                    docs_of(self.builder.store, collection@),
                    seq![("_id"@, CondView::Eq(*id))],
                );
                match r->Ok_0 {
                    Some(d) => m.len() > 0 && d@ == m[0],
                    None => m.len() == 0,
                }
            }),
    {
        let f = Filter::by_id(id.dup());
        proof {
            assert(f@ =~= seq![("_id"@, CondView::Eq(*id))]);
        }
        self.builder.find_one_sync(collection, &f)
    }

    /// Apply `data` to every document of `collection` matching
    /// `conditions`, without returning them. Update hooks are not
    /// fired.
    pub fn update_many(&mut self, collection: &str, conditions: &Filter, data: &UpdateSpec) -> (r:
        Result<UpdateResult, Error>)
        ensures
            r is Ok <==> schema_index_of(reg_views(old(self).builder.schemas@), collection@) >= 0,
            r is Err ==> r == Err::<UpdateResult, Error>(Error::NotRegistered) && *final(self)
                == *old(self),
            final(self).builder.schemas == old(self).builder.schemas,
            r is Ok ==> ({
                let docs = docs_of(old(self).builder.store, collection@);
                let docs2 = docs_of(final(self).builder.store, collection@);
                &&& docs2.len() == docs.len()
                &&& forall|i: int|
                    0 <= i < docs.len() ==> docs2[i] == (if crate::store::filter_matches(
                        conditions@,
                        #[trigger] docs[i],
                    ) {
                        crate::store::apply_update(docs[i], data@)
                    } else {
                        docs[i]
                    })
                &&& forall|n: Seq<char>|
                    n != collection@ ==> docs_of(final(self).builder.store, n) == docs_of(
                        old(self).builder.store,
                        n,
                    )
                &&& r->Ok_0.matched_count as nat == matching(docs, conditions@).len()
                &&& r->Ok_0.modified_count as nat == crate::store::modified_count_of(
                    docs,
                    conditions@,
                    data@,
                )
            }),
    {
        self.builder.update_many_sync(collection, conditions, data)
    }
}

impl NongooseBuilder {
    /// Decide what populating `field` of `instance` requires of the
    /// store. Pure: an adapter driving a real document store can issue
    /// the returned query itself and write the result back through
    /// [`Instance::set_populated`].
    pub fn populate_plan(&self, instance: &Instance, field: &str) -> (r: PopulatePlan)
        ensures
            r@ == populate_plan_view(reg_views(self.schemas@), instance@, field@),
    {
        let ri = match rel_position(&instance.relations, field) {
            None => {
                return PopulatePlan::Noop;
            },
            Some(ri) => ri,
        };
        let rel = &instance.relations[ri];
        let is_one_to_many = match rel.relation_type {
            SchemaRelationType::OneToMany => true,
            _ => false,
        };
        if !is_one_to_many {
            let r = PopulatePlan::FetchOne {
                collection: rel.schema_name.clone(),
                filter: Filter::by_id(rel.field_value.dup()),
                field: field.to_owned(),
            };
            proof {
                assert(r@ =~~= populate_plan_view(reg_views(self.schemas@), instance@, field@));
            }
            r
        } else {
            match self.get_schema(rel.schema_name.as_str()) {
                None => PopulatePlan::Noop,
                Some(data) => {
                    match back_rel_position(&data.relations, &instance.collection_name) {
                        None => PopulatePlan::Noop,
                        Some(bi) => {
                            let fk = data.relations[bi].field_id();
                            let r = PopulatePlan::FetchMany {
                                collection: rel.schema_name.clone(),
                                filter: Filter::by_field(fk.as_str(), instance.id.dup()),
                                field: field.to_owned(),
                            };
                            proof {
                                assert(r@ =~~= populate_plan_view(
                                    reg_views(self.schemas@),
                                    instance@,
                                    field@,
                                ));
                            }
                            r
                        },
                    }
                },
            }
        }
    }
}

} // verus!
