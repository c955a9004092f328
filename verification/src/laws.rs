//! The engine's cross-operation guarantees, stated over the
//! specification functions that the operations' own contracts use and
//! proved once and for all.

use vstd::prelude::*;

use crate::document::{doc_get, doc_index_of};
use crate::error::Error;
use crate::nongoose::{back_rel_index_of, first_conflict, lemma_first_conflict,
    populate_plan_view, probe_conflict, rel_index_of, lemma_rel_index_of, save_outcome, schema_of,
    PlanView};
use crate::schema::types::SchemaRelationType;
use crate::schema::{instance_doc, DataView, DefaultBefore, Instance, InstanceView, SchemaBefore};
use crate::store::{clause_matches, docs_of, filter_matches, first_match_index,
    lemma_first_match_index, lemma_matching_push, matching, CondView, Store};
use crate::value::{lemma_value_eq_refl, value_eq, Value};

verus! {

/// The persisted form of an instance matches its own identity filter.
proof fn lemma_instance_doc_matches_id(i: InstanceView, id: Value)
    requires
        value_eq(i.id, id),
    ensures
        doc_get(instance_doc(i), "_id"@) == Some(i.id),
        filter_matches(seq![("_id"@, CondView::Eq(id))], instance_doc(i)),
{
    let d = instance_doc(i);
    assert(d[0] == ("_id"@, i.id));
    assert(doc_index_of(d, "_id"@) == 0);
    let f = seq![("_id"@, CondView::Eq(id))];
    assert(clause_matches(f[0], d));
    assert forall|j: int| 0 <= j < f.len() implies clause_matches(#[trigger] f[j], d) by {
        assert(j == 0);
    }
}

/// Law: population of a field that no relation descriptor names is a
/// silent no-op; combined with `populate`'s contract, the instance
/// comes back unchanged.
pub proof fn lemma_populate_unknown_field_noop(
    reg: Seq<DataView>,
    i: InstanceView,
    field: Seq<char>,
)
    requires
        forall|j: int| 0 <= j < i.relations.len() ==> (#[trigger] i.relations[j]).field_ident
            != field,
    ensures
        populate_plan_view(reg, i, field) == PlanView::Noop,
{
    lemma_rel_index_of(i.relations, field);
    let ri = rel_index_of(i.relations, field);
    if ri >= 0 {
        assert(i.relations[ri].field_ident != field);
    }
}

/// Law: population of a one-to-many field is a silent no-op when the
/// target type was never registered in the schema registry; combined
/// with `populate`'s contract, the instance comes back unchanged and
/// nothing fails.
pub proof fn lemma_populate_unregistered_noop(
    reg: Seq<DataView>,
    i: InstanceView,
    field: Seq<char>,
)
    requires
        ({
            let ri = rel_index_of(i.relations, field);
            &&& ri >= 0
            &&& i.relations[ri].relation_type == SchemaRelationType::OneToMany
            &&& schema_of(reg, i.relations[ri].schema_name) is None
        }),
    ensures
        populate_plan_view(reg, i, field) == PlanView::Noop,
{
}

/// Law: populating a one-to-one or many-to-one field is an identity
/// lookup of the relation's foreign key against the target collection;
/// combined with `populate`'s contract, the field is set to the first
/// stored document with that identity, and stays untouched - without
/// an error - when no such document exists.
pub proof fn lemma_populate_direct_relation(
    reg: Seq<DataView>,
    i: InstanceView,
    field: Seq<char>,
)
    requires
        ({
            let ri = rel_index_of(i.relations, field);
            &&& ri >= 0
            &&& (i.relations[ri].relation_type == SchemaRelationType::OneToOne
                || i.relations[ri].relation_type == SchemaRelationType::ManyToOne)
        }),
    ensures
        ({
            let rel = i.relations[rel_index_of(i.relations, field)];
            populate_plan_view(reg, i, field) == PlanView::FetchOne {
                collection: rel.schema_name,
                filter: seq![("_id"@, CondView::Eq(rel.field_value))],
                field,
            }
        }),
{
}

/// Law: populating a one-to-many field whose target type is registered
/// and carries a many-to-one relation back to the source collection
/// queries the target's `<field>_id` foreign key for the source's own
/// identity; combined with `populate`'s contract, the field is set to
/// exactly the matching documents in store order - the empty list when
/// none match.
pub proof fn lemma_populate_reverse_relation(
    reg: Seq<DataView>,
    i: InstanceView,
    field: Seq<char>,
)
    requires
        ({
            let ri = rel_index_of(i.relations, field);
            &&& ri >= 0
            &&& i.relations[ri].relation_type == SchemaRelationType::OneToMany
            &&& schema_of(reg, i.relations[ri].schema_name) is Some
            &&& back_rel_index_of(
                schema_of(reg, i.relations[ri].schema_name)->Some_0.relations,
                i.collection_name,
            ) >= 0
        }),
    ensures
        ({
            let rel = i.relations[rel_index_of(i.relations, field)];
            let data = schema_of(reg, rel.schema_name)->Some_0;
            let back = data.relations[back_rel_index_of(data.relations, i.collection_name)];
            populate_plan_view(reg, i, field) == PlanView::FetchMany {
                collection: rel.schema_name,
                filter: seq![(back.field_ident + "_id"@, CondView::Eq(i.id))],
                field,
            }
        }),
{
}

/// Two distinct matching positions force at least two results.
proof fn lemma_matching_two(
    docs: Seq<Seq<(Seq<char>, Value)>>,
    f: Seq<(Seq<char>, CondView)>,
    a: int,
    b: int,
)
    requires
        0 <= a < b < docs.len(),
        filter_matches(f, docs[a]),
        filter_matches(f, docs[b]),
    ensures
        matching(docs, f).len() >= 2,
    decreases docs.len(),
{
    let rest = docs.drop_first();
    assert(rest[b - 1] == docs[b]);
    if a == 0 {
        lemma_first_match_index(rest, f);
        if first_match_index(rest, f) == -1 {
            assert(!filter_matches(f, rest[b - 1]));
        }
        assert(matching(docs, f) == seq![docs[0]] + matching(rest, f));
    } else {
        assert(rest[a - 1] == docs[a]);
        lemma_matching_two(rest, f, a - 1, b - 1);
    }
}

/// Law: deleting by a filter clears it, in a collection holding at
/// most one matching document - which the save lifecycle maintains for
/// identity filters. The first match exists exactly when one document
/// matches, and after its removal nothing matches any more; `remove`'s
/// contract then reports `true` and subsequent identity lookups return
/// nothing, while with no match the store is untouched and `remove`
/// reports `false`.
pub proof fn lemma_delete_clears(docs: Seq<Seq<(Seq<char>, Value)>>, f: Seq<(Seq<char>, CondView)>)
    requires
        matching(docs, f).len() <= 1,
    ensures
        ({
            let fi = first_match_index(docs, f);
            &&& (fi >= 0 <==> matching(docs, f).len() == 1)
            &&& fi >= 0 ==> matching(docs.remove(fi), f).len() == 0
        }),
{
    lemma_first_match_index(docs, f);
    let fi = first_match_index(docs, f);
    if fi >= 0 {
        docs.remove_ensures(fi);
        assert forall|j: int| 0 <= j < docs.len() && j != fi implies !filter_matches(
            f,
            #[trigger] docs[j],
        ) by {
            if j > fi && filter_matches(f, docs[j]) {
                lemma_matching_two(docs, f, fi, j);
            }
        }
        let shorter = docs.remove(fi);
        assert forall|j: int| 0 <= j < shorter.len() implies !filter_matches(
            f,
            #[trigger] shorter[j],
        ) by {
            if j < fi {
                assert(shorter[j] == docs[j]);
            } else {
                assert(shorter[j] == docs[j + 1]);
            }
        }
        lemma_first_match_index(shorter, f);
        if first_match_index(shorter, f) >= 0 {
            assert(!filter_matches(f, shorter[first_match_index(shorter, f)]));
        }
    }
}

/// Law: a freshly saved instance is found under its identity, and
/// deleting the first identity match afterwards leaves nothing under
/// it. Combined with `remove`'s contract: removing a saved instance
/// reports `true` and subsequent identity lookups return nothing,
/// while removing it again reports `false`. Stated for the default
/// (no-op) hooks.
pub proof fn lemma_save_then_remove(s0: Store, s1: Store, i: Instance, r1: Result<Instance, Error>)
    requires
        save_outcome(DefaultBefore, s0, s1, i, r1),
        matching(docs_of(s0, i@.collection_name), seq![("_id"@, CondView::Eq(i@.id))]).len() == 0,
        first_conflict(s0, i@.collection_name, i@.id, i@.unique_fields) == -1,
    ensures
        r1 == Ok::<Instance, Error>(i),
        ({
            let docs1 = docs_of(s1, i@.collection_name);
            let idf = seq![("_id"@, CondView::Eq(i@.id))];
            let fi = first_match_index(docs1, idf);
            &&& matching(docs1, idf).len() == 1
            &&& fi >= 0
            &&& matching(docs1.remove(fi), idf).len() == 0
        }),
{
    let cn = i@.collection_name;
    let idf = seq![("_id"@, CondView::Eq(i@.id))];
    let docs0 = docs_of(s0, cn);
    let d = instance_doc(i@);
    lemma_value_eq_refl(i@.id);
    lemma_instance_doc_matches_id(i@, i@.id);
    assert(DefaultBefore.before_create_spec(i) == Ok::<Instance, Error>(i));
    assert(docs_of(s1, cn) == docs0.push(d));
    lemma_matching_push(docs0, idf, d);
    assert(matching(docs0, idf) =~= Seq::<Seq<(Seq<char>, Value)>>::empty());
    assert(matching(docs_of(s1, cn), idf) =~= seq![d]);
    lemma_delete_clears(docs_of(s1, cn), idf);
}

/// Law: the save lifecycle is insert-or-replace by identity. From a
/// store holding no document under the instance's identity and no
/// uniqueness conflict, saving an instance and then saving a variant
/// of it with the same identity and the same uniqueness probes - as
/// after mutating a non-unique field - succeeds both times and leaves
/// exactly one document under that identity: the persisted form of the
/// later instance. Stated for the default (no-op) hooks.
pub proof fn lemma_save_replaces(
    s0: Store,
    s1: Store,
    s2: Store,
    i1: Instance,
    i2: Instance,
    r1: Result<Instance, Error>,
    r2: Result<Instance, Error>,
)
    requires
        save_outcome(DefaultBefore, s0, s1, i1, r1),
        save_outcome(DefaultBefore, s1, s2, i2, r2),
        i2@.collection_name == i1@.collection_name,
        i2@.id == i1@.id,
        i2@.unique_fields == i1@.unique_fields,
        matching(docs_of(s0, i1@.collection_name), seq![("_id"@, CondView::Eq(i1@.id))]).len()
            == 0,
        first_conflict(s0, i1@.collection_name, i1@.id, i1@.unique_fields) == -1,
    ensures
        r1 == Ok::<Instance, Error>(i1),
        r2 == Ok::<Instance, Error>(i2),
        matching(docs_of(s2, i1@.collection_name), seq![("_id"@, CondView::Eq(i1@.id))])
            =~= seq![instance_doc(i2@)],
{
    let cn = i1@.collection_name;
    let idf = seq![("_id"@, CondView::Eq(i1@.id))];
    let docs0 = docs_of(s0, cn);
    let d1 = instance_doc(i1@);
    let d2 = instance_doc(i2@);
    lemma_value_eq_refl(i1@.id);
    lemma_instance_doc_matches_id(i1@, i1@.id);
    lemma_instance_doc_matches_id(i2@, i1@.id);

    // the first save inserted: no conflict, no identity match
    assert(DefaultBefore.before_create_spec(i1) == Ok::<Instance, Error>(i1));
    assert(r1 == Ok::<Instance, Error>(i1));
    let docs1 = docs_of(s1, cn);
    assert(docs1 == docs0.push(d1));

    // the uniqueness enforcer still passes on the grown store
    lemma_first_conflict(s0, cn, i1@.id, i1@.unique_fields);
    lemma_first_conflict(s1, cn, i2@.id, i2@.unique_fields);
    let c = first_conflict(s1, cn, i2@.id, i2@.unique_fields);
    if c >= 0 {
        let p = i2@.unique_fields[c];
        assert(!probe_conflict(s0, cn, i1@.id, p));
        let pf = seq![(p.0, CondView::Eq(p.1))];
        lemma_matching_push(docs0, pf, d1);
        let m0 = matching(docs0, pf);
        let m1 = matching(docs1, pf);
        if m0.len() > 0 {
            assert(m1[0] == m0[0]);
        } else {
            assert(m1.len() > 0);
            assert(m1 == m0.push(d1));
            assert(m1[0] == d1);
            assert(doc_get(d1, "_id"@) == Some(i1@.id));
        }
        assert(false);
    }

    // the identity probe now finds the inserted document
    lemma_matching_push(docs0, idf, d1);
    assert(matching(docs0, idf) =~= Seq::<Seq<(Seq<char>, Value)>>::empty());
    assert(matching(docs1, idf) =~= seq![d1]);

    // so the second save replaced the first match
    assert(DefaultBefore.before_update_spec(i2) == Ok::<Instance, Error>(i2));
    assert(r2 == Ok::<Instance, Error>(i2));
    lemma_first_match_index(docs0, idf);
    lemma_first_match_index(docs1, idf);
    let fi = first_match_index(docs1, idf);
    assert(fi >= 0);
    if fi < docs0.len() {
        assert(docs1[fi] == docs0[fi]);
        assert(!filter_matches(idf, docs0[fi]));
    }
    assert(fi == docs0.len());
    assert(docs_of(s2, cn) == docs1.update(fi, d2));
    assert(docs1.update(fi, d2) =~= docs0.push(d2));
    lemma_matching_push(docs0, idf, d2);
    assert(matching(docs_of(s2, cn), idf) =~= seq![d2]);
}

} // verus!
