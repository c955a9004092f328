use vstd::prelude::*;
use vstd::string::StringExecFns;

use crate::document::{doc_get, doc_like, doc_set, Document};
use crate::value::{value_eq, Value};

verus! {

/// One condition on a field: equal to a value, or member of a list.
#[derive(Clone, Debug, PartialEq)]
pub enum Cond {
    Eq(Value),
    In(Vec<Value>),
}

/// Specification-level image of a [`Cond`].
pub enum CondView {
    Eq(Value),
    In(Seq<Value>),
}

impl View for Cond {
    type V = CondView;

    open spec fn view(&self) -> CondView {
        match self {
            Cond::Eq(v) => CondView::Eq(*v),
            Cond::In(vs) => CondView::In(vs@),
        }
    }
}

/// Whether a field value satisfies a condition.
pub open spec fn cond_matches(c: CondView, v: Value) -> bool {
    match c {
        CondView::Eq(w) => value_eq(w, v),
        CondView::In(ws) => exists|k: int| 0 <= k < ws.len() && #[trigger] value_eq(ws[k], v),
    }
}

/// Whether a document satisfies one filter clause: the named field must
/// be present and satisfy the clause's condition. (A document without
/// the field never matches.)
pub open spec fn clause_matches(cl: (Seq<char>, CondView), d: Seq<(Seq<char>, Value)>) -> bool {
    match doc_get(d, cl.0) {
        Some(v) => cond_matches(cl.1, v),
        None => false,
    }
}

/// A conjunction of per-field conditions; the empty filter matches
/// every document.
#[derive(Clone, Debug, PartialEq)]
pub struct Filter {
    pub clauses: Vec<(String, Cond)>,
}

impl View for Filter {
    type V = Seq<(Seq<char>, CondView)>;

    open spec fn view(&self) -> Seq<(Seq<char>, CondView)> {
        self.clauses@.map_values(|c: (String, Cond)| (c.0@, c.1@))
    }
}

/// Whether a document satisfies every clause of a filter.
pub open spec fn filter_matches(f: Seq<(Seq<char>, CondView)>, d: Seq<(Seq<char>, Value)>) -> bool {
    forall|i: int| 0 <= i < f.len() ==> clause_matches(#[trigger] f[i], d)
}

impl Cond {
    /// Whether `v` satisfies this condition.
    pub fn matches_value(&self, v: &Value) -> (r: bool)
        ensures
            r == cond_matches(self@, *v),
    {
        match self {
            Cond::Eq(w) => w.eq_value(v),
            Cond::In(ws) => {
                let n = ws.len();
                for i in 0..n
                    invariant
                        *self == Cond::In(*ws),
                        n == ws.len(),
                        forall|j: int| 0 <= j < i ==> !value_eq(#[trigger] ws@[j], *v),
                {
                    if ws[i].eq_value(v) {
                        proof {
                            assert(self@ == CondView::In(ws@));
                            let wsv = self@->In_0;
                            assert(wsv == ws@);
                            assert((i as int) < wsv.len() && value_eq(wsv[i as int], *v));
                            assert(cond_matches(self@, *v));
                        }
                        return true;
                    }
                }
                false
            },
        }
    }
}

impl Filter {
    /// The filter with no clauses: matches every document.
    pub fn empty() -> (r: Filter)
        ensures
            r@ =~= Seq::<(Seq<char>, CondView)>::empty(),
    {
        Filter { clauses: Vec::new() }
    }

    /// The filter `name == v`.
    pub fn by_field(name: &str, v: Value) -> (r: Filter)
        ensures
            r@ =~= seq![(name@, CondView::Eq(v))],
    {
        let mut clauses: Vec<(String, Cond)> = Vec::new();
        clauses.push((name.to_owned(), Cond::Eq(v)));
        Filter { clauses }
    }

    /// The filter `name` is one of `vs`.
    pub fn by_field_in(name: &str, vs: Vec<Value>) -> (r: Filter)
        ensures
            r@ =~= seq![(name@, CondView::In(vs@))],
    {
        let mut clauses: Vec<(String, Cond)> = Vec::new();
        clauses.push((name.to_owned(), Cond::In(vs)));
        Filter { clauses }
    }

    /// The identity filter `_id == v`.
    pub fn by_id(v: Value) -> (r: Filter)
        ensures
            r@ =~= seq![("_id"@, CondView::Eq(v))],
    {
        Filter::by_field("_id", v)
    }

    /// Whether `d` satisfies every clause of this filter.
    pub fn matches(&self, d: &Document) -> (r: bool)
        ensures
            r == filter_matches(self@, d@),
    {
        let n = self.clauses.len();
        for i in 0..n
            invariant
                n == self.clauses.len(),
                forall|j: int| 0 <= j < i ==> clause_matches(#[trigger] self@[j], d@),
        {
            let ok = match d.get(self.clauses[i].0.as_str()) {
                Some(v) => self.clauses[i].1.matches_value(v),
                None => false,
            };
            if !ok {
                proof {
                    assert(!clause_matches(self@[i as int], d@));
                }
                return false;
            }
            proof {
                assert(clause_matches(self@[i as int], d@));
            }
        }
        true
    }
}

/// A `$set`-style update: each named field is set to the given value,
/// in order; fields not present are appended.
#[derive(Clone, Debug, PartialEq)]
pub struct UpdateSpec {
    pub set: Vec<(String, Value)>,
}

impl View for UpdateSpec {
    type V = Seq<(Seq<char>, Value)>;

    open spec fn view(&self) -> Seq<(Seq<char>, Value)> {
        self.set@.map_values(|e: (String, Value)| (e.0@, e.1))
    }
}

/// The document after applying every `set` pair in order.
pub open spec fn apply_update(
    d: Seq<(Seq<char>, Value)>,
    u: Seq<(Seq<char>, Value)>,
) -> Seq<(Seq<char>, Value)>
    decreases u.len(),
{
    if u.len() == 0 {
        d
    } else {
        apply_update(doc_set(d, u[0].0, u[0].1), u.drop_first())
    }
}

impl UpdateSpec {
    /// The update that sets the single field `name` to `v`.
    pub fn set_field(name: &str, v: Value) -> (r: UpdateSpec)
        ensures
            r@ =~= seq![(name@, v)],
    {
        let mut set: Vec<(String, Value)> = Vec::new();
        set.push((name.to_owned(), v));
        UpdateSpec { set }
    }

    /// A fresh document with this update applied to `d`.
    pub fn apply_to(&self, d: &Document) -> (r: Document)
        ensures
            r@ == apply_update(d@, self@),
    {
        let mut r = d.dup();
        proof {
            assert(self@.skip(0) =~= self@);
        }
        let n = self.set.len();
        for i in 0..n
            invariant
                n == self.set.len(),
                apply_update(d@, self@) == apply_update(r@, self@.skip(i as int)),
        {
            proof {
                assert(self@.skip(i as int).drop_first() =~= self@.skip(i as int + 1));
                assert(self@.skip(i as int)[0] == self@[i as int]);
            }
            let v = self.set[i].1.dup();
            r.set_field(self.set[i].0.as_str(), v);
        }
        proof {
            assert(self@.skip(n as int) =~= Seq::<(Seq<char>, Value)>::empty());
        }
        r
    }
}

/// What `update_many` reports: how many documents matched the filter,
/// and how many of those actually changed.
#[derive(Clone, Copy, Debug, PartialEq, Eq, Structural)]
pub struct UpdateResult {
    pub matched_count: u64,
    pub modified_count: u64,
}

/// The views of a sequence of documents.
pub open spec fn docs_views(docs: Seq<Document>) -> Seq<Seq<(Seq<char>, Value)>> {
    docs.map_values(|d: Document| d@)
}

/// The subsequence of document views satisfying a filter, in order.
pub open spec fn matching(
    docs: Seq<Seq<(Seq<char>, Value)>>,
    f: Seq<(Seq<char>, CondView)>,
) -> Seq<Seq<(Seq<char>, Value)>>
    decreases docs.len(),
{
    if docs.len() == 0 {
        Seq::empty()
    } else {
        let rest = matching(docs.drop_first(), f);
        if filter_matches(f, docs[0]) {
            seq![docs[0]] + rest
        } else {
            rest
        }
    }
}

/// Index of the first document view satisfying `f`, or `-1`.
pub open spec fn first_match_index(
    docs: Seq<Seq<(Seq<char>, Value)>>,
    f: Seq<(Seq<char>, CondView)>,
) -> int
    decreases docs.len(),
{
    if docs.len() == 0 {
        -1
    } else if filter_matches(f, docs[0]) {
        0
    } else {
        let rest = first_match_index(docs.drop_first(), f);
        if rest == -1 {
            -1
        } else {
            rest + 1
        }
    }
}

/// How `matching` grows when one more document is appended.
pub proof fn lemma_matching_push(
    docs: Seq<Seq<(Seq<char>, Value)>>,
    f: Seq<(Seq<char>, CondView)>,
    d: Seq<(Seq<char>, Value)>,
)
    ensures
        matching(docs.push(d), f) == if filter_matches(f, d) {
            matching(docs, f).push(d)
        } else {
            matching(docs, f)
        },
    decreases docs.len(),
{
    if docs.len() == 0 {
        assert(docs.push(d).drop_first() =~= Seq::<Seq<(Seq<char>, Value)>>::empty());
        assert(docs.push(d)[0] == d);
        assert(matching(docs, f) == Seq::<Seq<(Seq<char>, Value)>>::empty());
        if filter_matches(f, d) {
            assert(matching(docs.push(d), f) == seq![d] + matching(
                docs.push(d).drop_first(),
                f,
            ));
            assert(seq![d] + Seq::<Seq<(Seq<char>, Value)>>::empty() =~= matching(
                docs,
                f,
            ).push(d));
        } else {
            assert(matching(docs.push(d), f) == matching(docs.push(d).drop_first(), f));
        }
    } else {
        let rest = docs.drop_first();
        assert(docs.push(d).drop_first() =~= rest.push(d));
        assert(docs.push(d)[0] == docs[0]);
        lemma_matching_push(rest, f, d);
        assert(matching(docs.push(d).drop_first(), f) == matching(rest.push(d), f));
        if filter_matches(f, docs[0]) {
            assert(matching(docs.push(d), f) == seq![docs[0]] + matching(rest.push(d), f));
            assert(matching(docs, f) == seq![docs[0]] + matching(rest, f));
            if filter_matches(f, d) {
                assert(matching(rest.push(d), f) == matching(rest, f).push(d));
                assert(seq![docs[0]] + matching(rest, f).push(d) =~= (seq![docs[0]] + matching(
                    rest,
                    f,
                )).push(d));
            }
        } else {
            assert(matching(docs.push(d), f) == matching(rest.push(d), f));
            assert(matching(docs, f) == matching(rest, f));
        }
    }
}

/// `matching` never returns more documents than it was given.
pub proof fn lemma_matching_len(docs: Seq<Seq<(Seq<char>, Value)>>, f: Seq<(Seq<char>, CondView)>)
    ensures
        matching(docs, f).len() <= docs.len(),
    decreases docs.len(),
{
    if docs.len() > 0 {
        lemma_matching_len(docs.drop_first(), f);
    }
}

/// What `first_match_index` finds, and how it relates to `matching`:
/// `-1` means nothing matches; otherwise it is the index of the first
/// match, which heads the matching subsequence.
pub proof fn lemma_first_match_index(
    docs: Seq<Seq<(Seq<char>, Value)>>,
    f: Seq<(Seq<char>, CondView)>,
)
    ensures
        ({
            let i = first_match_index(docs, f);
            &&& -1 <= i
            &&& i == -1 ==> matching(docs, f) == Seq::<Seq<(Seq<char>, Value)>>::empty()
            &&& i == -1 ==> forall|j: int|
                0 <= j < docs.len() ==> !filter_matches(f, #[trigger] docs[j])
            &&& i >= 0 ==> i < docs.len() && filter_matches(f, docs[i]) && matching(docs, f).len()
                > 0 && matching(docs, f)[0] == docs[i] && forall|j: int|
                0 <= j < i ==> !filter_matches(f, #[trigger] docs[j])
        }),
    decreases docs.len(),
{
    if docs.len() > 0 {
        let rest = docs.drop_first();
        lemma_first_match_index(rest, f);
        assert(forall|j: int| 1 <= j < docs.len() ==> (#[trigger] docs[j]) == rest[j - 1]);
        if !filter_matches(f, docs[0]) {
            let ri = first_match_index(rest, f);
            if ri == -1 {
                assert forall|j: int| 0 <= j < docs.len() implies !filter_matches(
                    f,
                    #[trigger] docs[j],
                ) by {
                    if j >= 1 {
                        assert(!filter_matches(f, rest[j - 1]));
                    }
                }
            } else {
                assert(docs[ri + 1] == rest[ri]);
                assert forall|j: int| 0 <= j < ri + 1 implies !filter_matches(
                    f,
                    #[trigger] docs[j],
                ) by {
                    if j >= 1 {
                        assert(!filter_matches(f, rest[j - 1]));
                    }
                }
            }
        }
    }
}

/// How many of the documents matching `f` the update `u` actually
/// changes (a matched document counts when its updated image differs).
pub open spec fn modified_count_of(
    docs: Seq<Seq<(Seq<char>, Value)>>,
    f: Seq<(Seq<char>, CondView)>,
    u: Seq<(Seq<char>, Value)>,
) -> nat
    decreases docs.len(),
{
    if docs.len() == 0 {
        0
    } else {
        (if filter_matches(f, docs[0]) && !doc_like(apply_update(docs[0], u), docs[0]) {
            1nat
        } else {
            0nat
        }) + modified_count_of(docs.drop_first(), f, u)
    }
}

/// How `modified_count_of` grows when one more document is appended.
pub proof fn lemma_modified_push(
    docs: Seq<Seq<(Seq<char>, Value)>>,
    f: Seq<(Seq<char>, CondView)>,
    u: Seq<(Seq<char>, Value)>,
    d: Seq<(Seq<char>, Value)>,
)
    ensures
        modified_count_of(docs.push(d), f, u) == modified_count_of(docs, f, u) + (
        if filter_matches(f, d) && !doc_like(apply_update(d, u), d) {
            1nat
        } else {
            0nat
        }),
    decreases docs.len(),
{
    if docs.len() == 0 {
        assert(docs.push(d).drop_first() =~= Seq::<Seq<(Seq<char>, Value)>>::empty());
        assert(docs.push(d)[0] == d);
    } else {
        let rest = docs.drop_first();
        assert(docs.push(d).drop_first() =~= rest.push(d));
        assert(docs.push(d)[0] == docs[0]);
        lemma_modified_push(rest, f, u, d);
        assert(modified_count_of(docs.push(d).drop_first(), f, u) == modified_count_of(
            rest.push(d),
            f,
            u,
        ));
    }
}

/// A named collection of documents, in insertion order.
#[derive(Clone, Debug, PartialEq)]
pub struct Collection {
    pub name: String,
    pub docs: Vec<Document>,
}

/// The in-memory document store: named collections, created on first
/// insert. This is the engine's model of the underlying store; every
/// operation of the interface boundary (find, insert, replace, delete,
/// count, update) is specified against it.
#[derive(Clone, Debug, PartialEq)]
pub struct Store {
    pub collections: Vec<Collection>,
}

/// Index of the first collection named `name`, or `-1`.
pub open spec fn coll_index_of(cols: Seq<Collection>, name: Seq<char>) -> int
    decreases cols.len(),
{
    if cols.len() == 0 {
        -1
    } else if cols[0].name@ == name {
        0
    } else {
        let rest = coll_index_of(cols.drop_first(), name);
        if rest == -1 {
            -1
        } else {
            rest + 1
        }
    }
}

/// The document views held by collection `name`; a collection that does
/// not exist holds nothing.
pub open spec fn docs_of(s: Store, name: Seq<char>) -> Seq<Seq<(Seq<char>, Value)>> {
    let i = coll_index_of(s.collections@, name);
    if i >= 0 {
        docs_views(s.collections@[i].docs@)
    } else {
        Seq::empty()
    }
}

/// What `coll_index_of` finds: either no collection has the name, or
/// the index of the first one that does.
pub proof fn lemma_coll_index_of(cols: Seq<Collection>, name: Seq<char>)
    ensures
        ({
            let i = coll_index_of(cols, name);
            &&& -1 <= i
            &&& i == -1 ==> forall|j: int| 0 <= j < cols.len() ==> (#[trigger] cols[j]).name@ != name
            &&& i >= 0 ==> i < cols.len() && cols[i].name@ == name && forall|j: int|
                0 <= j < i ==> (#[trigger] cols[j]).name@ != name
        }),
    decreases cols.len(),
{
    if cols.len() > 0 && cols[0].name@ != name {
        let rest = cols.drop_first();
        lemma_coll_index_of(rest, name);
        let ri = coll_index_of(rest, name);
        assert(forall|j: int| 1 <= j < cols.len() ==> (#[trigger] cols[j]) == rest[j - 1]);
        if ri == -1 {
            assert forall|j: int| 0 <= j < cols.len() implies (#[trigger] cols[j]).name@
                != name by {
                if j >= 1 {
                    assert(rest[j - 1].name@ != name);
                }
            }
        } else {
            assert(cols[ri + 1] == rest[ri]);
            assert forall|j: int| 0 <= j < ri + 1 implies (#[trigger] cols[j]).name@ != name by {
                if j >= 1 {
                    assert(rest[j - 1].name@ != name);
                }
            }
        }
    }
}

/// Collections with pairwise equal names are found at the same index.
pub proof fn lemma_index_same_names(a: Seq<Collection>, b: Seq<Collection>, name: Seq<char>)
    requires
        a.len() == b.len(),
        forall|j: int| 0 <= j < a.len() ==> (#[trigger] a[j]).name@ == b[j].name@,
    ensures
        coll_index_of(a, name) == coll_index_of(b, name),
{
    lemma_coll_index_of(a, name);
    lemma_coll_index_of(b, name);
    let ia = coll_index_of(a, name);
    let ib = coll_index_of(b, name);
    if ia == -1 && ib >= 0 {
        assert(a[ib].name@ != name);
    } else if ia >= 0 && ib == -1 {
        assert(b[ia].name@ != name);
    } else if ia >= 0 && ib >= 0 && ia < ib {
        assert(b[ia].name@ != name);
    } else if ia >= 0 && ib >= 0 && ib < ia {
        assert(a[ib].name@ != name);
    }
}

/// Appending a collection leaves every other name's lookup unchanged.
pub proof fn lemma_index_push(cols: Seq<Collection>, c: Collection, name: Seq<char>)
    requires
        name != c.name@,
    ensures
        coll_index_of(cols.push(c), name) == coll_index_of(cols, name),
    decreases cols.len(),
{
    if cols.len() == 0 {
        assert(cols.push(c)[0] == c);
        assert(cols.push(c).drop_first() =~= Seq::<Collection>::empty());
        assert(coll_index_of(cols.push(c).drop_first(), name) == -1);
    } else {
        assert(cols.push(c)[0] == cols[0]);
        assert(cols.push(c).drop_first() =~= cols.drop_first().push(c));
        lemma_index_push(cols.drop_first(), c, name);
        assert(coll_index_of(cols.push(c).drop_first(), name) == coll_index_of(
            cols.drop_first(),
            name,
        ));
    }
}

/// A collection whose name is not yet present is found at the end once
/// appended.
pub proof fn lemma_index_push_found(cols: Seq<Collection>, c: Collection)
    requires
        coll_index_of(cols, c.name@) == -1,
    ensures
        coll_index_of(cols.push(c), c.name@) == cols.len(),
    decreases cols.len(),
{
    if cols.len() == 0 {
        assert(cols.push(c)[0] == c);
    } else {
        assert(cols.push(c)[0] == cols[0]);
        assert(cols.push(c).drop_first() =~= cols.drop_first().push(c));
        lemma_coll_index_of(cols.drop_first(), c.name@);
        lemma_index_push_found(cols.drop_first(), c);
        assert(coll_index_of(cols.push(c).drop_first(), c.name@) == coll_index_of(
            cols.drop_first().push(c),
            c.name@,
        ));
    }
}

/// Index of the first document in `docs` matching `filter`.
fn position_of_match(docs: &Vec<Document>, filter: &Filter) -> (r: Option<usize>)
    ensures
        match r {
            Some(j) => j < docs@.len() && first_match_index(docs_views(docs@), filter@) == j as int,
            None => first_match_index(docs_views(docs@), filter@) == -1,
        },
{
    proof {
        lemma_first_match_index(docs_views(docs@), filter@);
    }
    let n = docs.len();
    for j in 0..n
        invariant
            n == docs.len(),
            forall|k: int| 0 <= k < j ==> !filter_matches(filter@, #[trigger] docs_views(docs@)[k]),
            first_match_index(docs_views(docs@), filter@) >= -1,
            first_match_index(docs_views(docs@), filter@) == -1 ==> forall|k: int|
                0 <= k < docs@.len() ==> !filter_matches(filter@, #[trigger] docs_views(docs@)[k]),
            first_match_index(docs_views(docs@), filter@) >= 0 ==> first_match_index(
                docs_views(docs@),
                filter@,
            ) < docs@.len() && filter_matches(
                filter@,
                docs_views(docs@)[first_match_index(docs_views(docs@), filter@)],
            ) && forall|k: int|
                0 <= k < first_match_index(docs_views(docs@), filter@) ==> !filter_matches(
                    filter@,
                    #[trigger] docs_views(docs@)[k],
                ),
    {
        if filter.matches(&docs[j]) {
            proof {
                assert(docs_views(docs@)[j as int] == docs@[j as int]@);
                let idx = first_match_index(docs_views(docs@), filter@);
                if 0 <= idx < j as int {
                    assert(!filter_matches(filter@, docs_views(docs@)[idx]));
                } else if idx > j as int {
                    assert(!filter_matches(filter@, docs_views(docs@)[j as int]));
                }
                assert(idx == j as int);
            }
            return Some(j);
        }
        proof {
            assert(docs_views(docs@)[j as int] == docs@[j as int]@);
        }
    }
    None
}

impl Store {
    /// A store with no collections.
    pub fn new() -> (r: Store)
        ensures
            forall|n: Seq<char>| docs_of(r, n) == Seq::<Seq<(Seq<char>, Value)>>::empty(),
    {
        let r = Store { collections: Vec::new() };
        proof {
            assert forall|n: Seq<char>| docs_of(r, n) == Seq::<Seq<(Seq<char>, Value)>>::empty() by {
                assert(coll_index_of(r.collections@, n) == -1);
            }
        }
        r
    }

    /// Index of the first collection named `name`, if any.
    fn coll_position(&self, name: &str) -> (r: Option<usize>)
        ensures
            match r {
                Some(i) => i < self.collections@.len() && coll_index_of(self.collections@, name@)
                    == i as int,
                None => coll_index_of(self.collections@, name@) == -1,
            },
    {
        proof {
            lemma_coll_index_of(self.collections@, name@);
        }
        let wanted: String = name.to_owned();
        let n = self.collections.len();
        for i in 0..n
            invariant
                wanted@ == name@,
                n == self.collections.len(),
                forall|j: int| 0 <= j < i ==> (#[trigger] self.collections@[j]).name@ != name@,
                coll_index_of(self.collections@, name@) >= -1,
                coll_index_of(self.collections@, name@) == -1 ==> forall|j: int|
                    0 <= j < self.collections@.len() ==> (#[trigger] self.collections@[j]).name@
                        != name@,
                coll_index_of(self.collections@, name@) >= 0 ==> coll_index_of(
                    self.collections@,
                    name@,
                ) < self.collections@.len() && self.collections@[coll_index_of(
                    self.collections@,
                    name@,
                )].name@ == name@ && forall|j: int|
                    0 <= j < coll_index_of(self.collections@, name@) ==> (
                    #[trigger] self.collections@[j]).name@ != name@,
        {
            if self.collections[i].name == wanted {
                proof {
                    assert(self.collections@[i as int].name@ == name@);
                    let idx = coll_index_of(self.collections@, name@);
                    if 0 <= idx < i as int {
                        assert(self.collections@[idx].name@ != name@);
                    } else if idx > i as int {
                        assert(self.collections@[i as int].name@ != name@);
                    }
                    assert(idx == i as int);
                }
                return Some(i);
            }
        }
        None
    }

    /// The first document of `collection` matching `filter`, if any.
    pub fn find_one(&self, collection: &str, filter: &Filter) -> (r: Option<Document>)
        ensures
            ({
                let m = matching(docs_of(*self, collection@), filter@);
                match r {
                    Some(d) => m.len() > 0 && d@ == m[0],
                    None => m.len() == 0,
                }
            }),
    {
        match self.coll_position(collection) {
            None => None,
            Some(ci) => {
                proof {
                    lemma_first_match_index(
                        docs_views(self.collections@[ci as int].docs@),
                        filter@,
                    );
                }
                match position_of_match(&self.collections[ci].docs, filter) {
                    None => None,
                    Some(j) => Some(self.collections[ci].docs[j].dup()),
                }
            },
        }
    }

    /// Every document of `collection` matching `filter`, in store order.
    pub fn find_many(&self, collection: &str, filter: &Filter) -> (r: Vec<Document>)
        ensures
            docs_views(r@) == matching(docs_of(*self, collection@), filter@),
    {
        let mut out: Vec<Document> = Vec::new();
        let ci = match self.coll_position(collection) {
            None => {
                proof {
                    assert(docs_views(out@) =~= matching(docs_of(*self, collection@), filter@));
                }
                return out;
            },
            Some(ci) => ci,
        };
        let n = self.collections[ci].docs.len();
        for j in 0..n
            invariant
                ci < self.collections@.len(),
                coll_index_of(self.collections@, collection@) == ci as int,
                n == self.collections@[ci as int].docs@.len(),
                docs_views(out@) == matching(
                    docs_views(self.collections@[ci as int].docs@.subrange(0, j as int)),
                    filter@,
                ),
        {
            let ghost prefix = docs_views(self.collections@[ci as int].docs@.subrange(0, j as int));
            let ghost dv = self.collections@[ci as int].docs@[j as int]@;
            proof {
                lemma_matching_push(prefix, filter@, dv);
                assert(docs_views(self.collections@[ci as int].docs@.subrange(0, j as int + 1))
                    =~= prefix.push(dv));
            }
            if filter.matches(&self.collections[ci].docs[j]) {
                out.push(self.collections[ci].docs[j].dup());
                proof {
                    assert(docs_views(out@) =~= matching(prefix.push(dv), filter@));
                }
            } else {
                proof {
                    assert(docs_views(out@) =~= matching(prefix.push(dv), filter@));
                }
            }
        }
        proof {
            assert(self.collections@[ci as int].docs@.subrange(0, n as int) =~= self.collections@[ci
                as int].docs@);
        }
        out
    }

    /// How many documents of `collection` match `filter`.
    pub fn count_docs(&self, collection: &str, filter: &Filter) -> (r: u64)
        ensures
            r as nat == matching(docs_of(*self, collection@), filter@).len(),
    {
        let found = self.find_many(collection, filter);
        proof {
            assert(docs_views(found@).len() == found@.len());
        }
        found.len() as u64
    }

    /// Append `doc` to `collection`, creating the collection on first
    /// insert.
    pub fn insert_one(&mut self, collection: &str, doc: Document)
        ensures
            docs_of(*final(self), collection@) == docs_of(*old(self), collection@).push(doc@),
            forall|n: Seq<char>|
                n != collection@ ==> docs_of(*final(self), n) == docs_of(*old(self), n),
    {
        let ghost oldcols = self.collections@;
        match self.coll_position(collection) {
            Some(ci) => {
                self.collections[ci].docs.push(doc);
                proof {
                    self.lemma_frame_after_update(*old(self), ci as int, collection@);
                    assert(docs_views(self.collections@[ci as int].docs@) =~= docs_views(
                        oldcols[ci as int].docs@,
                    ).push(doc@));
                }
            },
            None => {
                let mut docs: Vec<Document> = Vec::new();
                docs.push(doc);
                let c = Collection { name: collection.to_owned(), docs };
                self.collections.push(c);
                proof {
                    let cv = self.collections@[oldcols.len() as int];
                    lemma_index_push_found(oldcols, cv);
                    assert(docs_of(*self, collection@) =~= docs_of(
                        *old(self),
                        collection@,
                    ).push(doc@));
                    assert forall|n: Seq<char>| n != collection@ implies docs_of(*self, n)
                        == docs_of(*old(self), n) by {
                        lemma_index_push(oldcols, cv, n);
                        lemma_coll_index_of(oldcols, n);
                    }
                }
            },
        }
    }

    /// Replace the first document of `collection` matching `filter`
    /// with `doc`, or append `doc` if nothing matches (upsert). Returns
    /// whether an existing document was replaced.
    pub fn replace_one(&mut self, collection: &str, filter: &Filter, doc: Document) -> (r: bool)
        ensures
            ({
                let docs = docs_of(*old(self), collection@);
                let i = first_match_index(docs, filter@);
                &&& r == (i >= 0)
                &&& i >= 0 ==> docs_of(*final(self), collection@) == docs.update(i, doc@)
                &&& i < 0 ==> docs_of(*final(self), collection@) == docs.push(doc@)
                &&& forall|n: Seq<char>|
                    n != collection@ ==> docs_of(*final(self), n) == docs_of(*old(self), n)
            }),
    {
        proof {
            lemma_first_match_index(docs_of(*self, collection@), filter@);
        }
        let ghost oldcols = self.collections@;
        match self.coll_position(collection) {
            None => {
                self.insert_one(collection, doc);
                false
            },
            Some(ci) => {
                match position_of_match(&self.collections[ci].docs, filter) {
                    None => {
                        self.collections[ci].docs.push(doc);
                        proof {
                            self.lemma_frame_after_update(*old(self), ci as int, collection@);
                            assert(docs_views(self.collections@[ci as int].docs@) =~= docs_views(
                                oldcols[ci as int].docs@,
                            ).push(doc@));
                        }
                        false
                    },
                    Some(j) => {
                        self.collections[ci].docs[j] = doc;
                        proof {
                            self.lemma_frame_after_update(*old(self), ci as int, collection@);
                            assert(docs_views(self.collections@[ci as int].docs@) =~= docs_views(
                                oldcols[ci as int].docs@,
                            ).update(j as int, doc@));
                        }
                        true
                    },
                }
            },
        }
    }

    /// Delete the first document of `collection` matching `filter`;
    /// returns whether one was deleted.
    pub fn delete_one(&mut self, collection: &str, filter: &Filter) -> (r: bool)
        ensures
            ({
                let docs = docs_of(*old(self), collection@);
                let i = first_match_index(docs, filter@);
                &&& r == (i >= 0)
                &&& i >= 0 ==> docs_of(*final(self), collection@) == docs.remove(i)
                &&& i < 0 ==> *final(self) == *old(self)
                &&& forall|n: Seq<char>|
                    n != collection@ ==> docs_of(*final(self), n) == docs_of(*old(self), n)
            }),
    {
        proof {
            lemma_first_match_index(docs_of(*self, collection@), filter@);
        }
        let ghost oldcols = self.collections@;
        match self.coll_position(collection) {
            None => false,
            Some(ci) => {
                match position_of_match(&self.collections[ci].docs, filter) {
                    None => false,
                    Some(j) => {
                        self.collections[ci].docs.remove(j);
                        proof {
                            self.lemma_frame_after_update(*old(self), ci as int, collection@);
                            assert(docs_views(self.collections@[ci as int].docs@) =~= docs_views(
                                oldcols[ci as int].docs@,
                            ).remove(j as int));
                        }
                        true
                    },
                }
            },
        }
    }

    /// Apply `update` to every document of `collection` matching
    /// `filter`; reports how many matched and how many changed.
    pub fn update_many(&mut self, collection: &str, filter: &Filter, update: &UpdateSpec) -> (r:
        UpdateResult)
        ensures
            ({
                let docs = docs_of(*old(self), collection@);
                let docs2 = docs_of(*final(self), collection@);
                &&& docs2.len() == docs.len()
                &&& forall|i: int|
                    0 <= i < docs.len() ==> docs2[i] == (if filter_matches(
                        filter@,
                        #[trigger] docs[i],
                    ) {
                        apply_update(docs[i], update@)
                    } else {
                        docs[i]
                    })
                &&& forall|n: Seq<char>|
                    n != collection@ ==> docs_of(*final(self), n) == docs_of(*old(self), n)
                &&& r.matched_count as nat == matching(docs, filter@).len()
                &&& r.modified_count as nat == modified_count_of(docs, filter@, update@)
            }),
    {
        let ghost oldcols = self.collections@;
        let ci = match self.coll_position(collection) {
            None => {
                return UpdateResult { matched_count: 0, modified_count: 0 };
            },
            Some(ci) => ci,
        };
        let mut newdocs: Vec<Document> = Vec::new();
        let mut matched: usize = 0;
        let mut modified: usize = 0;
        let n = self.collections[ci].docs.len();
        for j in 0..n
            invariant
                *self == *old(self),
                ci < self.collections@.len(),
                coll_index_of(self.collections@, collection@) == ci as int,
                n == self.collections@[ci as int].docs@.len(),
                newdocs@.len() == j,
                forall|k: int|
                    0 <= k < j ==> (#[trigger] newdocs@[k])@ == (if filter_matches(
                        filter@,
                        self.collections@[ci as int].docs@[k]@,
                    ) {
                        apply_update(self.collections@[ci as int].docs@[k]@, update@)
                    } else {
                        self.collections@[ci as int].docs@[k]@
                    }),
                matched as nat == matching(
                    docs_views(self.collections@[ci as int].docs@.subrange(0, j as int)),
                    filter@,
                ).len(),
                matched <= j,
                modified as nat == modified_count_of(
                    docs_views(self.collections@[ci as int].docs@.subrange(0, j as int)),
                    filter@,
                    update@,
                ),
                modified <= j,
        {
            let ghost prefix = docs_views(self.collections@[ci as int].docs@.subrange(0, j as int));
            let ghost dv = self.collections@[ci as int].docs@[j as int]@;
            proof {
                lemma_matching_push(prefix, filter@, dv);
                lemma_matching_len(prefix, filter@);
                lemma_modified_push(prefix, filter@, update@, dv);
                assert(docs_views(self.collections@[ci as int].docs@.subrange(0, j as int + 1))
                    =~= prefix.push(dv));
            }
            if filter.matches(&self.collections[ci].docs[j]) {
                let updated = update.apply_to(&self.collections[ci].docs[j]);
                if !updated.like(&self.collections[ci].docs[j]) {
                    modified = modified + 1;
                }
                newdocs.push(updated);
                matched = matched + 1;
            } else {
                newdocs.push(self.collections[ci].docs[j].dup());
            }
        }
        proof {
            assert(self.collections@[ci as int].docs@.subrange(0, n as int) =~= self.collections@[ci
                as int].docs@);
        }
        let kept_name = self.collections[ci].name.clone();
        let result = UpdateResult { matched_count: matched as u64, modified_count: modified as u64 };
        self.collections[ci] = Collection { name: kept_name, docs: newdocs };
        proof {
            self.lemma_frame_after_update(*old(self), ci as int, collection@);
            assert(docs_of(*self, collection@) =~= docs_views(self.collections@[ci as int].docs@));
        }
        result
    }

    /// A fresh store holding the same collections and documents.
    pub fn dup(&self) -> (r: Store)
        ensures
            forall|n: Seq<char>| docs_of(r, n) == docs_of(*self, n),
    {
        let mut collections: Vec<Collection> = Vec::new();
        let cn = self.collections.len();
        for i in 0..cn
            invariant
                cn == self.collections@.len(),
                collections@.len() == i,
                forall|j: int|
                    0 <= j < i ==> (#[trigger] collections@[j]).name@
                        == self.collections@[j].name@ && docs_views(collections@[j].docs@)
                        == docs_views(self.collections@[j].docs@),
        {
            let mut docs: Vec<Document> = Vec::new();
            let dn = self.collections[i].docs.len();
            for k in 0..dn
                invariant
                    i < self.collections@.len(),
                    dn == self.collections@[i as int].docs@.len(),
                    docs@.len() == k,
                    forall|m: int|
                        0 <= m < k ==> (#[trigger] docs@[m])@ == self.collections@[i as
                            int].docs@[m]@,
            {
                docs.push(self.collections[i].docs[k].dup());
            }
            proof {
                assert(docs_views(docs@) =~= docs_views(self.collections@[i as int].docs@));
            }
            let name = self.collections[i].name.clone();
            collections.push(Collection { name, docs });
        }
        let r = Store { collections };
        proof {
            assert forall|n: Seq<char>| docs_of(r, n) == docs_of(*self, n) by {
                lemma_index_same_names(r.collections@, self.collections@, n);
                lemma_coll_index_of(self.collections@, n);
            }
        }
        r
    }

    /// Frame lemma for in-place collection edits: when only the
    /// collection at `ci` (the first one named `target`) changed, and
    /// kept its name, every other name's documents are untouched.
    proof fn lemma_frame_after_update(&self, prev: Store, ci: int, target: Seq<char>)
        requires
            0 <= ci < prev.collections@.len(),
            self.collections@.len() == prev.collections@.len(),
            coll_index_of(prev.collections@, target) == ci,
            self.collections@[ci].name@ == prev.collections@[ci].name@,
            forall|j: int|
                0 <= j < prev.collections@.len() && j != ci ==> #[trigger] self.collections@[j]
                    == prev.collections@[j],
        ensures
            coll_index_of(self.collections@, target) == ci,
            docs_of(*self, target) == docs_views(self.collections@[ci].docs@),
            forall|n: Seq<char>| n != target ==> docs_of(*self, n) == docs_of(prev, n),
    {
        lemma_coll_index_of(prev.collections@, target);
        assert(forall|j: int|
            0 <= j < prev.collections@.len() ==> (#[trigger] self.collections@[j]).name@
                == prev.collections@[j].name@);
        lemma_index_same_names(self.collections@, prev.collections@, target);
        assert forall|n: Seq<char>| n != target implies docs_of(*self, n) == docs_of(prev, n) by {
            lemma_index_same_names(self.collections@, prev.collections@, n);
            lemma_coll_index_of(prev.collections@, n);
            let idx = coll_index_of(prev.collections@, n);
            if idx >= 0 {
                assert(prev.collections@[idx].name@ == n);
                assert(idx != ci);
                assert(self.collections@[idx] == prev.collections@[idx]);
            }
        }
    }
}

} // verus!
