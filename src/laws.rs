use vstd::prelude::*;
use core::cmp::Ordering;
use crate::condition::{lemma_text_cmp_equal, passes, Ops};
use crate::order::{lemma_value_cmp_antisymmetric, lemma_value_cmp_order, lemma_value_cmp_reflexive, value_cmp};
use crate::path::Step;
use crate::pipeline::{insertion_point, lemma_insertion_point_bounds, order_value, sorted_by, Document};
use crate::value::{entry_of, resolve, Value};

verus! {

/// Resolution is a function of the path and the root: walking the same path
/// from the same root twice gives the same outcome.
pub proof fn law_resolution_repeatable(steps: Seq<Step>, root: Value, first: Option<Value>, second: Option<Value>)
    requires
        first == resolve(steps, root),
        second == resolve(steps, root),
    ensures
        first == second,
{
}

/// A key that a mapping does not hold resolves to null, not to "not found".
pub proof fn law_missing_key_is_null(entries: Vec<(String, Value)>, key: Seq<char>)
    requires
        entry_of(entries@, key).is_none(),
    ensures
        resolve(seq![Step::Key(key)], Value::Mapping(entries)) == Some(Value::Null),
{
    let steps = seq![Step::Key(key)];
    assert(steps.drop_first() =~= Seq::<Step>::empty());
    assert(resolve(steps.drop_first(), Value::Null) == Some(Value::Null));
}

/// An index past the end of a sequence resolves to null.
pub proof fn law_index_past_end_is_null(items: Vec<Value>, i: usize)
    requires
        i >= items@.len(),
    ensures
        resolve(seq![Step::Index(i)], Value::Sequence(items)) == Some(Value::Null),
{
    let steps = seq![Step::Index(i)];
    assert(steps.drop_first() =~= Seq::<Step>::empty());
    assert(resolve(steps.drop_first(), Value::Null) == Some(Value::Null));
}

/// An index on anything but a sequence is "not found".
pub proof fn law_index_on_non_sequence(v: Value, i: usize)
    requires
        !(v is Sequence),
    ensures
        resolve(seq![Step::Index(i)], v) is None,
{
}

/// A condition with `==` passes exactly when the path leads to a text equal to
/// the literal, or to a value that is not a text; a path that stops rejects,
/// whatever the operator.
pub proof fn law_equality_condition(steps: Seq<Step>, literal: Seq<char>, root: Value, op: Ops)
    ensures
        passes(steps, Ops::Eq, literal, root) == match resolve(steps, root) {
            None => false,
            Some(Value::String(s)) => s@ == literal,
            Some(_) => true,
        },
        resolve(steps, root) is None ==> !passes(steps, op, literal, root),
{
    match resolve(steps, root) {
        Some(Value::String(s)) => lemma_text_cmp_equal(s@, literal),
        _ => {},
    }
}

/// The documents of `docs` whose sort value is `v`, in their order.
pub open spec fn with_order_value(docs: Seq<Document>, key: Seq<char>, v: Value) -> Seq<Document>
    decreases docs.len(),
{
    if docs.len() == 0 {
        docs
    } else {
        let rest = with_order_value(docs.drop_last(), key, v);
        if order_value(docs.last(), key) == v {
            rest.push(docs.last())
        } else {
            rest
        }
    }
}

proof fn lemma_with_order_value_concat(a: Seq<Document>, b: Seq<Document>, key: Seq<char>, v: Value)
    ensures
        with_order_value(a + b, key, v) == with_order_value(a, key, v) + with_order_value(b, key, v),
    decreases b.len(),
{
    if b.len() == 0 {
        assert(a + b =~= a);
        assert(with_order_value(a, key, v) + with_order_value(b, key, v) =~= with_order_value(a, key, v));
    } else {
        lemma_with_order_value_concat(a, b.drop_last(), key, v);
        assert((a + b).drop_last() =~= a + b.drop_last());
        assert((a + b).last() == b.last());
        let wa = with_order_value(a, key, v);
        let wb = with_order_value(b.drop_last(), key, v);
        assert((wa + wb).push(b.last()) =~= wa + wb.push(b.last()));
    }
}

proof fn lemma_with_order_value_none(s: Seq<Document>, key: Seq<char>, v: Value)
    requires
        forall|j: int| 0 <= j < s.len() ==> order_value(#[trigger] s[j], key) != v,
    ensures
        with_order_value(s, key, v) == Seq::<Document>::empty(),
    decreases s.len(),
{
    if s.len() > 0 {
        let t = s.drop_last();
        assert forall|j: int| 0 <= j < t.len() implies order_value(#[trigger] t[j], key) != v by {
            assert(t[j] == s[j]);
        }
        lemma_with_order_value_none(t, key, v);
    }
}

/// What one stable insertion does to the documents that have sort value `v`.
proof fn lemma_with_order_value_insert(t: Seq<Document>, d: Document, key: Seq<char>, v: Value)
    ensures
        with_order_value(t.insert(insertion_point(t, d, key), d), key, v) == if order_value(d, key) == v {
            with_order_value(t, key, v).push(d)
        } else {
            with_order_value(t, key, v)
        },
{
    let p = insertion_point(t, d, key);
    lemma_insertion_point_bounds(t, d, key);
    let front = t.subrange(0, p);
    let back = t.subrange(p, t.len() as int);
    let single = seq![d];
    assert(t.insert(p, d) =~= (front + single) + back);
    assert(t =~= front + back);
    lemma_with_order_value_concat(front + single, back, key, v);
    lemma_with_order_value_concat(front, single, key, v);
    lemma_with_order_value_concat(front, back, key, v);
    assert(single.drop_last() =~= Seq::<Document>::empty());
    assert(single.last() == d);
    assert(with_order_value(single.drop_last(), key, v) =~= Seq::<Document>::empty());
    let wf = with_order_value(front, key, v);
    let ws = with_order_value(single, key, v);
    let wb = with_order_value(back, key, v);
    if order_value(d, key) == v {
        lemma_value_cmp_reflexive(v);
        assert forall|j: int| 0 <= j < back.len() implies order_value(#[trigger] back[j], key) != v by {
            assert(back[j] == t[p + j]);
        }
        lemma_with_order_value_none(back, key, v);
        assert(ws =~= seq![d]);
        assert(wf + ws + wb =~= (wf + wb).push(d));
    } else {
        assert(ws =~= Seq::<Document>::empty());
        assert(wf + ws + wb =~= wf + wb);
    }
}

/// Sorting is stable: for each sort value, the documents that have it come
/// out in the order they went in.
pub proof fn law_sort_stable(docs: Seq<Document>, key: Seq<char>, v: Value)
    ensures
        with_order_value(sorted_by(docs, key), key, v) == with_order_value(docs, key, v),
    decreases docs.len(),
{
    if docs.len() > 0 {
        law_sort_stable(docs.drop_last(), key, v);
        lemma_with_order_value_insert(sorted_by(docs.drop_last(), key), docs.last(), key, v);
    }
}

/// Whether no document of `docs` sorts after a later one.
pub open spec fn in_order(docs: Seq<Document>, key: Seq<char>) -> bool {
    forall|i: int, j: int|
        0 <= i < j < docs.len() ==> value_cmp(
            order_value(#[trigger] docs[i], key),
            order_value(#[trigger] docs[j], key),
        ) != Ordering::Greater
}

/// Sorting puts the documents in order of their sort values.
pub proof fn law_sort_in_order(docs: Seq<Document>, key: Seq<char>)
    ensures
        in_order(sorted_by(docs, key), key),
    decreases docs.len(),
{
    if docs.len() > 0 {
        law_sort_in_order(docs.drop_last(), key);
        let t = sorted_by(docs.drop_last(), key);
        let d = docs.last();
        let p = insertion_point(t, d, key);
        lemma_insertion_point_bounds(t, d, key);
        let u = t.insert(p, d);
        assert(u == sorted_by(docs, key));
        let vd = order_value(d, key);
        assert forall|i: int, j: int| 0 <= i < j < u.len() implies value_cmp(
            order_value(#[trigger] u[i], key),
            order_value(#[trigger] u[j], key),
        ) != Ordering::Greater by {
            if j < p {
                assert(u[i] == t[i] && u[j] == t[j]);
            } else if j == p {
                assert(u[i] == t[i] && u[j] == d);
                if i < p - 1 {
                    lemma_value_cmp_order(order_value(t[i], key), order_value(t[p - 1], key), vd);
                }
            } else if i > p {
                assert(u[i] == t[i - 1] && u[j] == t[j - 1]);
            } else if i == p {
                assert(u[i] == d && u[j] == t[j - 1]);
                lemma_value_cmp_antisymmetric(order_value(t[j - 1], key), vd);
            } else {
                assert(u[i] == t[i] && u[j] == t[j - 1]);
                lemma_value_cmp_antisymmetric(order_value(t[j - 1], key), vd);
                if i < p - 1 {
                    lemma_value_cmp_order(order_value(t[i], key), order_value(t[p - 1], key), vd);
                }
                lemma_value_cmp_order(order_value(t[i], key), vd, order_value(t[j - 1], key));
            }
        }
    }
}

} // verus!
