use vstd::prelude::*;
use vstd::string::StringExecFns;

use crate::value::{value_eq, Value};

verus! {

/// One stored record: named scalar fields in insertion order. A document
/// is viewed as the sequence of its (field name, value) pairs; field
/// lookups resolve to the first pair with the requested name.
#[derive(Clone, Debug, PartialEq)]
pub struct Document {
    pub entries: Vec<(String, Value)>,
}

/// The views of a sequence of named-value pairs.
pub open spec fn pairs_views(s: Seq<(String, Value)>) -> Seq<(Seq<char>, Value)> {
    s.map_values(|e: (String, Value)| (e.0@, e.1))
}

impl View for Document {
    type V = Seq<(Seq<char>, Value)>;

    open spec fn view(&self) -> Seq<(Seq<char>, Value)> {
        pairs_views(self.entries@)
    }
}

/// Index of the first pair named `name`, or `-1` if there is none.
pub open spec fn doc_index_of<T>(d: Seq<(Seq<char>, T)>, name: Seq<char>) -> int
    decreases d.len(),
{
    if d.len() == 0 {
        -1
    } else if d[0].0 == name {
        0
    } else {
        let rest = doc_index_of(d.drop_first(), name);
        if rest == -1 {
            -1
        } else {
            rest + 1
        }
    }
}

/// The value of the first pair named `name`, if any.
pub open spec fn doc_get<T>(d: Seq<(Seq<char>, T)>, name: Seq<char>) -> Option<T> {
    let i = doc_index_of(d, name);
    if i >= 0 {
        Some(d[i].1)
    } else {
        None
    }
}

/// The document after setting field `name` to `v`: the first pair with
/// that name has its value replaced, or a new pair is appended.
pub open spec fn doc_set<T>(d: Seq<(Seq<char>, T)>, name: Seq<char>, v: T) -> Seq<
    (Seq<char>, T),
> {
    let i = doc_index_of(d, name);
    if i >= 0 {
        d.update(i, (d[i].0, v))
    } else {
        d.push((name, v))
    }
}

/// Two document views carry the same data: equal field names in the same
/// order, and pairwise equal values.
pub open spec fn doc_like(a: Seq<(Seq<char>, Value)>, b: Seq<(Seq<char>, Value)>) -> bool {
    &&& a.len() == b.len()
    &&& forall|i: int|
        0 <= i < a.len() ==> (#[trigger] a[i]).0 == b[i].0 && value_eq(a[i].1, b[i].1)
}

/// What `doc_index_of` finds: either nothing is named `name`, or the
/// index of the first pair that is.
pub proof fn lemma_doc_index_of<T>(d: Seq<(Seq<char>, T)>, name: Seq<char>)
    ensures
        ({
            let i = doc_index_of(d, name);
            &&& -1 <= i
            &&& i == -1 ==> forall|j: int| 0 <= j < d.len() ==> (#[trigger] d[j]).0 != name
            &&& i >= 0 ==> i < d.len() && d[i].0 == name && forall|j: int|
                0 <= j < i ==> (#[trigger] d[j]).0 != name
        }),
    decreases d.len(),
{
    if d.len() > 0 && d[0].0 != name {
        let rest = d.drop_first();
        lemma_doc_index_of::<T>(rest, name);
        let ri = doc_index_of(rest, name);
        assert(forall|j: int| 1 <= j < d.len() ==> (#[trigger] d[j]) == rest[j - 1]);
        if ri == -1 {
            assert forall|j: int| 0 <= j < d.len() implies (#[trigger] d[j]).0 != name by {
                if j >= 1 {
                    assert(rest[j - 1].0 != name);
                }
            }
        } else {
            let i = ri + 1;
            assert(0 <= ri < rest.len());
            assert(rest[ri].0 == name);
            assert(d[i] == rest[ri]);
            assert forall|j: int| 0 <= j < i implies (#[trigger] d[j]).0 != name by {
                if j >= 1 {
                    assert(rest[j - 1].0 != name);
                }
            }
        }
    }
}

impl Document {
    /// A document with no fields.
    pub fn new() -> (r: Document)
        ensures
            r@ =~= Seq::<(Seq<char>, Value)>::empty(),
    {
        Document { entries: Vec::new() }
    }

    /// A fresh document carrying the same data.
    pub fn dup(&self) -> (r: Document)
        ensures
            r@ == self@,
    {
        let mut entries: Vec<(String, Value)> = Vec::new();
        let n = self.entries.len();
        for i in 0..n
            invariant
                n == self.entries.len(),
                entries.len() == i,
                forall|j: int|
                    0 <= j < i ==> (#[trigger] entries@[j]).0@ == self.entries@[j].0@
                        && entries@[j].1 == self.entries@[j].1,
        {
            let name = self.entries[i].0.clone();
            let v = self.entries[i].1.dup();
            entries.push((name, v));
        }
        let r = Document { entries };
        proof {
            assert(r@ =~= self@);
        }
        r
    }

    /// The value of the first field named `name`, if any.
    pub fn get<'a>(&'a self, name: &str) -> (r: Option<&'a Value>)
        ensures
            match r {
                Some(v) => doc_get(self@, name@) == Some(*v),
                None => doc_get(self@, name@) is None,
            },
    {
        proof {
            lemma_doc_index_of(self@, name@);
        }
        let wanted: String = name.to_owned();
        let n = self.entries.len();
        for i in 0..n
            invariant
                wanted@ == name@,
                n == self.entries.len(),
                forall|j: int| 0 <= j < i ==> (#[trigger] self@[j]).0 != name@,
                doc_index_of(self@, name@) >= -1,
                doc_index_of(self@, name@) == -1 ==> forall|j: int|
                    0 <= j < self@.len() ==> (#[trigger] self@[j]).0 != name@,
                doc_index_of(self@, name@) >= 0 ==> doc_index_of(self@, name@) < self@.len()
                    && self@[doc_index_of(self@, name@)].0 == name@ && forall|j: int|
                    0 <= j < doc_index_of(self@, name@) ==> (#[trigger] self@[j]).0 != name@,
        {
            if self.entries[i].0 == wanted {
                proof {
                    assert(self@[i as int].0 == name@);
                    let idx = doc_index_of(self@, name@);
                    if 0 <= idx < i as int {
                        assert(self@[idx].0 != name@);
                    } else if idx > i as int {
                        assert(self@[i as int].0 != name@);
                    }
                    assert(idx == i as int);
                }
                return Some(&self.entries[i].1);
            }
        }
        None
    }

    /// Set field `name` to `v`: replace the value of the first field with
    /// that name, or append a new field.
    pub fn set_field(&mut self, name: &str, v: Value)
        ensures
            final(self)@ == doc_set(old(self)@, name@, v),
    {
        proof {
            lemma_doc_index_of(self@, name@);
        }
        let wanted: String = name.to_owned();
        let n = self.entries.len();
        for i in 0..n
            invariant
                wanted@ == name@,
                n == self.entries.len(),
                *self == *old(self),
                forall|j: int| 0 <= j < i ==> (#[trigger] self@[j]).0 != name@,
                doc_index_of(self@, name@) >= -1,
                doc_index_of(self@, name@) == -1 ==> forall|j: int|
                    0 <= j < self@.len() ==> (#[trigger] self@[j]).0 != name@,
                doc_index_of(self@, name@) >= 0 ==> doc_index_of(self@, name@) < self@.len()
                    && self@[doc_index_of(self@, name@)].0 == name@ && forall|j: int|
                    0 <= j < doc_index_of(self@, name@) ==> (#[trigger] self@[j]).0 != name@,
        {
            if self.entries[i].0 == wanted {
                proof {
                    assert(self@[i as int].0 == name@);
                    let idx = doc_index_of(self@, name@);
                    if 0 <= idx < i as int {
                        assert(self@[idx].0 != name@);
                    } else if idx > i as int {
                        assert(self@[i as int].0 != name@);
                    }
                    assert(idx == i as int);
                }
                let kept = self.entries[i].0.clone();
                self.entries[i] = (kept, v);
                proof {
                    assert(self@ =~= doc_set(old(self)@, name@, v));
                }
                return ;
            }
        }
        self.entries.push((wanted, v));
        proof {
            assert(self@ =~= doc_set(old(self)@, name@, v));
        }
    }

    /// Whether this document carries the same data as `other`.
    pub fn like(&self, other: &Document) -> (r: bool)
        ensures
            r == doc_like(self@, other@),
    {
        if self.entries.len() != other.entries.len() {
            return false;
        }
        let n = self.entries.len();
        for i in 0..n
            invariant
                n == self.entries.len() == other.entries.len(),
                forall|j: int|
                    0 <= j < i ==> (#[trigger] self@[j]).0 == other@[j].0 && value_eq(
                        self@[j].1,
                        other@[j].1,
                    ),
        {
            let names_equal = self.entries[i].0 == other.entries[i].0;
            if !names_equal || !self.entries[i].1.eq_value(&other.entries[i].1) {
                proof {
                    assert(!(self@[i as int].0 == other@[i as int].0 && value_eq(
                        self@[i as int].1,
                        other@[i as int].1,
                    )));
                }
                return false;
            }
        }
        true
    }
}

} // verus!
