use vstd::prelude::*;
use crate::path::{Query, QueryAccessor, Step};

verus! {

/// A node of the metadata tree read from a document's front matter.
///
/// Integers keep their exact value; a number that is not an integer is kept
/// by its textual form, and is ordered by that text (see `value_cmp`).
#[derive(Debug, PartialEq)]
pub enum Value {
    Null,
    Bool(bool),
    Integer(i128),
    Real(String),
    String(String),
    Sequence(Vec<Value>),
    Mapping(Vec<(String, Value)>),
}

/// The null value, shared by every lookup that finds nothing.
pub const NULL_VALUE: Value = Value::Null;

/// The value bound to `key` in a list of mapping entries: the first entry
/// whose key is `key`.
pub open spec fn entry_of(entries: Seq<(String, Value)>, key: Seq<char>) -> Option<Value>
    decreases entries.len(),
{
    if entries.len() == 0 {
        None
    } else if entries[0].0@ == key {
        Some(entries[0].1)
    } else {
        entry_of(entries.drop_first(), key)
    }
}

/// Whether no two entries have the same key.
pub open spec fn keys_unique(entries: Seq<(String, Value)>) -> bool {
    forall|i: int, j: int| 0 <= i < j < entries.len() ==> entries[i].0@ != entries[j].0@
}

/// Whether every mapping inside `v`, `v` included, has unique keys.
pub open spec fn value_wf(v: Value) -> bool
    decreases v,
{
    match v {
        Value::Sequence(x) => items_wf(x@),
        Value::Mapping(e) => keys_unique(e@) && entries_wf(e@),
        _ => true,
    }
}

pub open spec fn items_wf(xs: Seq<Value>) -> bool
    decreases xs,
{
    xs.len() == 0 || (value_wf(xs[0]) && items_wf(xs.subrange(1, xs.len() as int)))
}

pub open spec fn entries_wf(es: Seq<(String, Value)>) -> bool
    decreases es,
{
    es.len() == 0 || (value_wf(es[0].1) && entries_wf(es.subrange(1, es.len() as int)))
}

/// An element of a sequence, or the value of a mapping entry, is smaller
/// than the sequence or mapping that holds it.
pub proof fn lemma_child_decreases(v: Value, i: int)
    requires
        v is Sequence ==> 0 <= i < v->Sequence_0@.len(),
        v is Mapping ==> 0 <= i < v->Mapping_0@.len(),
    ensures
        v is Sequence ==> decreases_to!(v => v->Sequence_0@[i]),
        v is Mapping ==> decreases_to!(v => v->Mapping_0@[i].1),
{
    broadcast use vstd::std_specs::vec::axiom_vec_decreases_to_view;
    if v is Sequence {
        let x = v->Sequence_0;
        assert(decreases_to!(v => x));
        assert(decreases_to!(x => x@));
        assert(decreases_to!(x@ => x@[i]));
    }
    if v is Mapping {
        let x = v->Mapping_0;
        assert(decreases_to!(v => x));
        assert(decreases_to!(x => x@));
        assert(decreases_to!(x@ => x@[i]));
        assert(decreases_to!(x@[i] => x@[i].1));
    }
}

/// Whether the entries have unique keys.
fn unique_keys(entries: &Vec<(String, Value)>) -> (r: bool)
    ensures
        r == keys_unique(entries@),
{
    let n = entries.len();
    let mut j: usize = 0;
    while j < n
        invariant
            j <= n,
            n == entries@.len(),
            forall|a: int, b: int| 0 <= a < b < j ==> entries@[a].0@ != entries@[b].0@,
        decreases n - j,
    {
        let mut i: usize = 0;
        while i < j
            invariant
                i <= j < n,
                n == entries@.len(),
                forall|a: int, b: int| 0 <= a < b < j ==> entries@[a].0@ != entries@[b].0@,
                forall|a: int| 0 <= a < i ==> entries@[a].0@ != entries@[j as int].0@,
            decreases j - i,
        {
            if text_equal(entries[i].0.as_str(), entries[j].0.as_str()) {
                return false;
            }
            i = i + 1;
        }
        j = j + 1;
    }
    true
}

/// Whether every mapping inside `v`, `v` included, has unique keys.
pub fn well_formed(v: &Value) -> (r: bool)
    ensures
        r == value_wf(*v),
    decreases v,
{
    match v {
        Value::Sequence(x) => {
            let n = x.len();
            let mut i: usize = 0;
            assert(x@.subrange(0, n as int) =~= x@);
            while i < n
                invariant
                    *v == Value::Sequence(*x),
                    i <= n,
                    n == x@.len(),
                    value_wf(*v) == items_wf(x@.subrange(i as int, n as int)),
                decreases n - i,
            {
                proof {
                    lemma_child_decreases(*v, i as int);
                    let xs = x@.subrange(i as int, n as int);
                    assert(xs.subrange(1, xs.len() as int) =~= x@.subrange(i + 1, n as int));
                    assert(xs[0] == x@[i as int]);
                }
                if !well_formed(&x[i]) {
                    return false;
                }
                i = i + 1;
            }
            true
        },
        Value::Mapping(x) => {
            if !unique_keys(x) {
                return false;
            }
            let n = x.len();
            let mut i: usize = 0;
            assert(x@.subrange(0, n as int) =~= x@);
            while i < n
                invariant
                    *v == Value::Mapping(*x),
                    keys_unique(x@),
                    i <= n,
                    n == x@.len(),
                    value_wf(*v) == entries_wf(x@.subrange(i as int, n as int)),
                decreases n - i,
            {
                proof {
                    lemma_child_decreases(*v, i as int);
                    let xs = x@.subrange(i as int, n as int);
                    assert(xs.subrange(1, xs.len() as int) =~= x@.subrange(i + 1, n as int));
                    assert(xs[0] == x@[i as int]);
                }
                if !well_formed(&x[i].1) {
                    return false;
                }
                i = i + 1;
            }
            true
        },
        _ => true,
    }
}

/// The value reached by one step: a key on a mapping gives its entry, or null
/// when there is none; a key on anything else gives null. An index on a
/// sequence gives its element, or null past the end; an index on anything else
/// stops the walk.
pub open spec fn step_into(v: Value, step: Step) -> Option<Value> {
    match step {
        Step::Key(k) => match v {
            Value::Mapping(entries) => match entry_of(entries@, k) {
                Some(x) => Some(x),
                None => Some(Value::Null),
            },
            _ => Some(Value::Null),
        },
        Step::Index(i) => match v {
            Value::Sequence(items) => if i < items@.len() {
                Some(items@[i as int])
            } else {
                Some(Value::Null)
            },
            _ => None,
        },
    }
}

/// The value that a path leads to from `v`, or `None` where the walk stopped.
pub open spec fn resolve(steps: Seq<Step>, v: Value) -> Option<Value>
    decreases steps.len(),
{
    if steps.len() == 0 {
        Some(v)
    } else {
        match step_into(v, steps[0]) {
            Some(w) => resolve(steps.drop_first(), w),
            None => None,
        }
    }
}

/// The entry bound to `key`, if any.
pub fn lookup<'a>(entries: &'a Vec<(String, Value)>, key: &str) -> (r: Option<&'a Value>)
    ensures
        match entry_of(entries@, key@) {
            Some(x) => r == Some(&x),
            None => r.is_none(),
        },
{
    let mut i: usize = 0;
    assert(entries@.subrange(0, entries@.len() as int) =~= entries@);
    while i < entries.len()
        invariant
            i <= entries@.len(),
            entry_of(entries@.subrange(i as int, entries@.len() as int), key@) == entry_of(entries@, key@),
        decreases entries@.len() - i,
    {
        let ghost rest = entries@.subrange(i as int, entries@.len() as int);
        assert(rest.drop_first() =~= entries@.subrange(i + 1, entries@.len() as int));
        if text_equal(entries[i].0.as_str(), key) {
            return Some(&entries[i].1);
        }
        i = i + 1;
    }
    None
}

/// Whether two texts hold the same characters.
pub fn text_equal(a: &str, b: &str) -> (r: bool)
    ensures
        r == (a@ == b@),
{
    let n = a.unicode_len();
    let m = b.unicode_len();
    if n != m {
        return false;
    }
    let mut i: usize = 0;
    while i < n
        invariant
            i <= n,
            n == a@.len(),
            m == b@.len(),
            n == m,
            a@.subrange(0, i as int) == b@.subrange(0, i as int),
        decreases n - i,
    {
        if a.get_char(i) != b.get_char(i) {
            return false;
        }
        assert(a@.subrange(0, i + 1) =~= a@.subrange(0, i as int).push(a@[i as int]));
        assert(b@.subrange(0, i + 1) =~= b@.subrange(0, i as int).push(b@[i as int]));
        i = i + 1;
    }
    assert(a@ =~= a@.subrange(0, n as int));
    assert(b@ =~= b@.subrange(0, n as int));
    true
}

/// Walks a path from `root`: the value it leads to, or `None` where an index
/// met something other than a sequence.
pub fn get_value<'a>(query: &Query, root: &'a Value) -> (r: Option<&'a Value>)
    ensures
        match resolve(query@, *root) {
            Some(v) => r == Some(&v),
            None => r.is_none(),
        },
{
    let steps = &query.0;
    let mut cur: &'a Value = root;
    let mut i: usize = 0;
    assert(query@.subrange(0, query@.len() as int) =~= query@);
    while i < steps.len()
        invariant
            i <= steps@.len(),
            query@.len() == steps@.len(),
            steps@ == query.0@,
            resolve(query@, *root) == resolve(query@.subrange(i as int, query@.len() as int), *cur),
        decreases steps@.len() - i,
    {
        let ghost rest = query@.subrange(i as int, query@.len() as int);
        assert(rest.drop_first() =~= query@.subrange(i + 1, query@.len() as int));
        assert(query@[i as int] == query.0@[i as int]@);
        assert(rest[0] == steps@[i as int]@);
        match &steps[i] {
            QueryAccessor::Key(k) => {
                match cur {
                    Value::Mapping(entries) => {
                        match lookup(entries, k.as_str()) {
                            Some(v) => {
                                cur = v;
                            },
                            None => {
                                cur = &NULL_VALUE;
                            },
                        }
                    },
                    _ => {
                        cur = &NULL_VALUE;
                    },
                }
            },
            QueryAccessor::Index(n) => {
                match cur {
                    Value::Sequence(items) => {
                        if *n < items.len() {
                            cur = &items[*n];
                        } else {
                            cur = &NULL_VALUE;
                        }
                    },
                    _ => {
                        return None;
                    },
                }
            },
        }
        i = i + 1;
    }
    assert(query@.subrange(i as int, query@.len() as int) =~= Seq::<Step>::empty());
    Some(cur)
}

} // verus!
