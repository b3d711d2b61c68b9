use vstd::prelude::*;
use core::cmp::Ordering;
use crate::condition::{passes, Condition};
use crate::order::{compare_values, value_cmp};
use crate::path::Query;
use crate::value::{value_wf, entry_of, get_value, lookup, resolve, Value, NULL_VALUE};

verus! {

/// A document that has front matter: where it was read from, and the mapping
/// its front matter holds.
#[derive(Debug)]
pub struct Document {
    pub location: String,
    pub metadata: Value,
}

impl Document {
    /// Whether the metadata is a mapping, as front matter always is, and every
    /// mapping in it has unique keys.
    pub open spec fn wf(&self) -> bool {
        &&& self.metadata is Mapping
        &&& value_wf(self.metadata)
    }

    /// A document with the given location and front-matter entries.
    pub fn new(location: String, entries: Vec<(String, Value)>) -> (r: Document)
        requires
            value_wf(Value::Mapping(entries)),
        ensures
            r.location == location,
            r.metadata == Value::Mapping(entries),
            r.wf(),
    {
        Document { location, metadata: Value::Mapping(entries) }
    }
}

/// The value a document is sorted by: its top-level entry for `key`, or null.
pub open spec fn order_value(d: Document, key: Seq<char>) -> Value {
    match d.metadata {
        Value::Mapping(entries) => match entry_of(entries@, key) {
            Some(v) => v,
            None => Value::Null,
        },
        _ => Value::Null,
    }
}

/// Where a stable insertion puts `d` into `s`: after every element that does
/// not sort after it, counting from the end.
pub open spec fn insertion_point(s: Seq<Document>, d: Document, key: Seq<char>) -> int
    decreases s.len(),
{
    if s.len() == 0 {
        0
    } else if value_cmp(order_value(s.last(), key), order_value(d, key)) == Ordering::Greater {
        insertion_point(s.drop_last(), d, key)
    } else {
        s.len() as int
    }
}

/// `docs` stably sorted by the value of their `key` entries: each document in
/// turn is inserted after the documents before it that do not sort after it.
pub open spec fn sorted_by(docs: Seq<Document>, key: Seq<char>) -> Seq<Document>
    decreases docs.len(),
{
    if docs.len() == 0 {
        docs
    } else {
        let s = sorted_by(docs.drop_last(), key);
        s.insert(insertion_point(s, docs.last(), key), docs.last())
    }
}

/// The documents that pass a condition, in their order.
pub open spec fn kept(docs: Seq<Document>, c: Condition) -> Seq<Document>
    decreases docs.len(),
{
    if docs.len() == 0 {
        docs
    } else {
        let rest = kept(docs.drop_last(), c);
        if passes(c.query@, c.op, c.value@, docs.last().metadata) {
            rest.push(docs.last())
        } else {
            rest
        }
    }
}

pub proof fn lemma_insertion_point_bounds(s: Seq<Document>, d: Document, key: Seq<char>)
    ensures
        0 <= insertion_point(s, d, key) <= s.len(),
        forall|j: int|
            insertion_point(s, d, key) <= j < s.len() ==> value_cmp(
                order_value(#[trigger] s[j], key),
                order_value(d, key),
            ) == Ordering::Greater,
        insertion_point(s, d, key) > 0 ==> value_cmp(
            order_value(s[insertion_point(s, d, key) - 1], key),
            order_value(d, key),
        ) != Ordering::Greater,
    decreases s.len(),
{
    if s.len() > 0 {
        lemma_insertion_point_bounds(s.drop_last(), d, key);
        if insertion_point(s, d, key) < s.len() && insertion_point(s, d, key) > 0 {
            assert(s[insertion_point(s, d, key) - 1] == s.drop_last()[insertion_point(s, d, key) - 1]);
        }
        let t = s.drop_last();
        assert forall|j: int|
            insertion_point(s, d, key) <= j < s.len() implies value_cmp(
                order_value(#[trigger] s[j], key),
                order_value(d, key),
            ) == Ordering::Greater by {
            if j < s.len() - 1 {
                assert(s[j] == t[j]);
            }
        }
    }
}

/// The value `d` is sorted by.
pub fn order_key<'a>(d: &'a Document, key: &str) -> (r: &'a Value)
    ensures
        *r == order_value(*d, key@),
{
    match &d.metadata {
        Value::Mapping(entries) => match lookup(entries, key) {
            Some(v) => v,
            None => &NULL_VALUE,
        },
        _ => &NULL_VALUE,
    }
}

/// Sorts documents by the value of their top-level entry `key` (null where
/// absent); documents whose values compare equal keep their order.
pub fn sort_documents(docs: Vec<Document>, key: &str) -> (r: Vec<Document>)
    ensures
        r@ == sorted_by(docs@, key@),
{
    let ghost orig = docs@;
    let mut rest = docs;
    let mut out: Vec<Document> = Vec::new();
    let mut k: usize = 0;
    let n = rest.len();
    assert(orig.subrange(0, 0) =~= Seq::<Document>::empty());
    assert(orig.subrange(0, n as int) =~= orig);
    while rest.len() > 0
        invariant
            n == orig.len(),
            k + rest@.len() == n,
            rest@ == orig.subrange(k as int, n as int),
            out@ == sorted_by(orig.subrange(0, k as int), key@),
        decreases rest@.len(),
    {
        let d = rest.remove(0);
        let ghost prefix = orig.subrange(0, k + 1);
        assert(prefix.drop_last() =~= orig.subrange(0, k as int));
        assert(prefix.last() == d);
        let mut p = out.len();
        assert(out@.subrange(0, out@.len() as int) =~= out@);
        while p > 0
            invariant
                p <= out@.len(),
                insertion_point(out@, d, key@) == insertion_point(out@.subrange(0, p as int), d, key@),
            ensures
                insertion_point(out@, d, key@) == p,
            decreases p,
        {
            let c = compare_values(order_key(&out[p - 1], key), order_key(&d, key));
            let ghost sub = out@.subrange(0, p as int);
            assert(sub.drop_last() =~= out@.subrange(0, p - 1));
            if !matches!(c, Ordering::Greater) {
                break;
            }
            if p == 1 {
                assert(out@.subrange(0, 0) =~= Seq::<Document>::empty());
            }
            p = p - 1;
        }
        out.insert(p, d);
        k = k + 1;
        assert(rest@ =~= orig.subrange(k as int, n as int));
    }
    assert(orig.subrange(0, k as int) =~= orig);
    out
}

/// The documents that pass `c`, in their order.
pub fn filter_documents(docs: Vec<Document>, c: &Condition) -> (r: Vec<Document>)
    ensures
        r@ == kept(docs@, *c),
{
    let ghost orig = docs@;
    let mut rest = docs;
    let mut out: Vec<Document> = Vec::new();
    let mut k: usize = 0;
    let n = rest.len();
    assert(orig.subrange(0, 0) =~= Seq::<Document>::empty());
    assert(orig.subrange(0, n as int) =~= orig);
    while rest.len() > 0
        invariant
            n == orig.len(),
            k + rest@.len() == n,
            rest@ == orig.subrange(k as int, n as int),
            out@ == kept(orig.subrange(0, k as int), *c),
        decreases rest@.len(),
    {
        let d = rest.remove(0);
        let ghost prefix = orig.subrange(0, k + 1);
        assert(prefix.drop_last() =~= orig.subrange(0, k as int));
        assert(prefix.last() == d);
        if c.evaluate(&d.metadata) {
            out.push(d);
        }
        k = k + 1;
        assert(rest@ =~= orig.subrange(k as int, n as int));
    }
    assert(orig.subrange(0, k as int) =~= orig);
    out
}

/// The documents of a run, as they are to be output: those that pass the
/// condition, if one is given, sorted by the `order_by` entry, if one is given.
pub fn select_documents(docs: Vec<Document>, condition: Option<&Condition>, order_by: Option<&str>) -> (r: Vec<Document>)
    ensures
        ({
            let f = match condition {
                Some(c) => kept(docs@, *c),
                None => docs@,
            };
            r@ == match order_by {
                Some(key) => sorted_by(f, key@),
                None => f,
            }
        }),
{
    let filtered = match condition {
        Some(c) => filter_documents(docs, c),
        None => docs,
    };
    match order_by {
        Some(key) => sort_documents(filtered, key),
        None => filtered,
    }
}

/// The values that each path leads to in a document, in the order of the
/// paths; `None` where a path stops.
pub fn project<'a>(d: &'a Document, queries: &Vec<Query>) -> (r: Vec<Option<&'a Value>>)
    ensures
        r@.len() == queries@.len(),
        forall|i: int|
            0 <= i < queries@.len() ==> match resolve(queries@[i]@, d.metadata) {
                Some(v) => #[trigger] r@[i] == Some(&v),
                None => r@[i].is_none(),
            },
{
    let mut out: Vec<Option<&'a Value>> = Vec::new();
    let mut i: usize = 0;
    while i < queries.len()
        invariant
            i <= queries@.len(),
            out@.len() == i,
            forall|j: int|
                0 <= j < i ==> match resolve(queries@[j]@, d.metadata) {
                    Some(v) => #[trigger] out@[j] == Some(&v),
                    None => out@[j].is_none(),
                },
        decreases queries@.len() - i,
    {
        out.push(get_value(&queries[i], &d.metadata));
        i = i + 1;
    }
    out
}

} // verus!
