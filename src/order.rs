use vstd::prelude::*;
use core::cmp::Ordering;
use crate::condition::{
    compare_text, lemma_text_cmp_antisymmetric, lemma_text_cmp_equal, lemma_text_cmp_order, text_cmp,
};
use crate::value::{lemma_child_decreases, Value};

verus! {

/// The place of each kind of value in the order: null, booleans, integers,
/// other numbers, texts, sequences, mappings.
pub open spec fn rank(v: Value) -> int {
    match v {
        Value::Null => 0,
        Value::Bool(_) => 1,
        Value::Integer(_) => 2,
        Value::Real(_) => 3,
        Value::String(_) => 4,
        Value::Sequence(_) => 5,
        Value::Mapping(_) => 6,
    }
}

pub open spec fn int_cmp(a: int, b: int) -> Ordering {
    if a < b {
        Ordering::Less
    } else if a > b {
        Ordering::Greater
    } else {
        Ordering::Equal
    }
}

/// The total order used to sort documents. Values of different kinds go by
/// kind; booleans put `false` first; integers go by value; texts go by their
/// characters; sequences go element by element, and mappings entry by entry
/// (key, then value), a proper prefix first.
///
/// Numbers that are not integers are not ordered by value: they come after
/// every integer, and among themselves go by their text (so `10.5` comes
/// before `9.5`). They are held as text, and a numeric order on them is not
/// provided here.
pub open spec fn value_cmp(a: Value, b: Value) -> Ordering
    decreases a,
{
    if rank(a) != rank(b) {
        int_cmp(rank(a), rank(b))
    } else {
        match a {
            Value::Bool(x) => match b {
                Value::Bool(y) => int_cmp(if x { 1 } else { 0 }, if y { 1 } else { 0 }),
                _ => Ordering::Equal,
            },
            Value::Integer(x) => match b {
                Value::Integer(y) => int_cmp(x as int, y as int),
                _ => Ordering::Equal,
            },
            Value::Real(x) => match b {
                Value::Real(y) => text_cmp(x@, y@),
                _ => Ordering::Equal,
            },
            Value::String(x) => match b {
                Value::String(y) => text_cmp(x@, y@),
                _ => Ordering::Equal,
            },
            Value::Sequence(x) => match b {
                Value::Sequence(y) => items_cmp(x@, y@),
                _ => Ordering::Equal,
            },
            Value::Mapping(x) => match b {
                Value::Mapping(y) => entries_cmp(x@, y@),
                _ => Ordering::Equal,
            },
            Value::Null => Ordering::Equal,
        }
    }
}

/// Sequences of values, element by element; a proper prefix comes first.
pub open spec fn items_cmp(xs: Seq<Value>, ys: Seq<Value>) -> Ordering
    decreases xs,
{
    if xs.len() == 0 {
        if ys.len() == 0 {
            Ordering::Equal
        } else {
            Ordering::Less
        }
    } else if ys.len() == 0 {
        Ordering::Greater
    } else {
        let c = value_cmp(xs[0], ys[0]);
        if c != Ordering::Equal {
            c
        } else {
            items_cmp(xs.subrange(1, xs.len() as int), ys.subrange(1, ys.len() as int))
        }
    }
}

/// Mapping entries, entry by entry: by key, then by value; a proper prefix
/// comes first.
pub open spec fn entries_cmp(es: Seq<(String, Value)>, fs: Seq<(String, Value)>) -> Ordering
    decreases es,
{
    if es.len() == 0 {
        if fs.len() == 0 {
            Ordering::Equal
        } else {
            Ordering::Less
        }
    } else if fs.len() == 0 {
        Ordering::Greater
    } else {
        let k = text_cmp(es[0].0@, fs[0].0@);
        let c = value_cmp(es[0].1, fs[0].1);
        if k != Ordering::Equal {
            k
        } else if c != Ordering::Equal {
            c
        } else {
            entries_cmp(es.subrange(1, es.len() as int), fs.subrange(1, fs.len() as int))
        }
    }
}

fn rank_of(v: &Value) -> (r: u8)
    ensures
        r as int == rank(*v),
{
    match v {
        Value::Null => 0,
        Value::Bool(_) => 1,
        Value::Integer(_) => 2,
        Value::Real(_) => 3,
        Value::String(_) => 4,
        Value::Sequence(_) => 5,
        Value::Mapping(_) => 6,
    }
}

fn compare_usize(a: usize, b: usize) -> (r: Ordering)
    ensures
        r == int_cmp(a as int, b as int),
{
    if a < b {
        Ordering::Less
    } else if a > b {
        Ordering::Greater
    } else {
        Ordering::Equal
    }
}

/// Compares two values in the order used for sorting; never fails.
pub fn compare_values(a: &Value, b: &Value) -> (r: Ordering)
    ensures
        r == value_cmp(*a, *b),
    decreases a,
{
    let ra = rank_of(a);
    let rb = rank_of(b);
    if ra != rb {
        return compare_usize(ra as usize, rb as usize);
    }
    match (a, b) {
        (Value::Bool(x), Value::Bool(y)) => compare_usize(
            if *x { 1 } else { 0 },
            if *y { 1 } else { 0 },
        ),
        (Value::Integer(x), Value::Integer(y)) => {
            if *x < *y {
                Ordering::Less
            } else if *x > *y {
                Ordering::Greater
            } else {
                Ordering::Equal
            }
        },
        (Value::Real(x), Value::Real(y)) => compare_text(x.as_str(), y.as_str()),
        (Value::String(x), Value::String(y)) => compare_text(x.as_str(), y.as_str()),
        (Value::Sequence(x), Value::Sequence(y)) => {
            let n = x.len();
            let m = y.len();
            let mut i: usize = 0;
            assert(x@.subrange(0, n as int) =~= x@);
            assert(y@.subrange(0, m as int) =~= y@);
            while i < n && i < m
                invariant
                    *a == Value::Sequence(*x),
                    *b == Value::Sequence(*y),
                    i <= n,
                    i <= m,
                    n == x@.len(),
                    m == y@.len(),
                    value_cmp(*a, *b) == items_cmp(x@.subrange(i as int, n as int), y@.subrange(i as int, m as int)),
                decreases n - i,
            {
                proof {
                    lemma_child_decreases(*a, i as int);
                    let xs = x@.subrange(i as int, n as int);
                    let ys = y@.subrange(i as int, m as int);
                    assert(xs.subrange(1, xs.len() as int) =~= x@.subrange(i + 1, n as int));
                    assert(ys.subrange(1, ys.len() as int) =~= y@.subrange(i + 1, m as int));
                    assert(xs[0] == x@[i as int]);
                    assert(ys[0] == y@[i as int]);
                }
                let c = compare_values(&x[i], &y[i]);
                if !matches!(c, Ordering::Equal) {
                    return c;
                }
                i = i + 1;
            }
            compare_usize(n - i, m - i)
        },
        (Value::Mapping(x), Value::Mapping(y)) => {
            let n = x.len();
            let m = y.len();
            let mut i: usize = 0;
            assert(x@.subrange(0, n as int) =~= x@);
            assert(y@.subrange(0, m as int) =~= y@);
            while i < n && i < m
                invariant
                    *a == Value::Mapping(*x),
                    *b == Value::Mapping(*y),
                    i <= n,
                    i <= m,
                    n == x@.len(),
                    m == y@.len(),
                    value_cmp(*a, *b) == entries_cmp(x@.subrange(i as int, n as int), y@.subrange(i as int, m as int)),
                decreases n - i,
            {
                proof {
                    lemma_child_decreases(*a, i as int);
                    let xs = x@.subrange(i as int, n as int);
                    let ys = y@.subrange(i as int, m as int);
                    assert(xs.subrange(1, xs.len() as int) =~= x@.subrange(i + 1, n as int));
                    assert(ys.subrange(1, ys.len() as int) =~= y@.subrange(i + 1, m as int));
                    assert(xs[0] == x@[i as int]);
                    assert(ys[0] == y@[i as int]);
                }
                let k = compare_text(x[i].0.as_str(), y[i].0.as_str());
                if !matches!(k, Ordering::Equal) {
                    return k;
                }
                let c = compare_values(&x[i].1, &y[i].1);
                if !matches!(c, Ordering::Equal) {
                    return c;
                }
                i = i + 1;
            }
            compare_usize(n - i, m - i)
        },
        _ => Ordering::Equal,
    }
}

/// Every value compares equal to itself.
pub proof fn lemma_value_cmp_reflexive(v: Value)
    ensures
        value_cmp(v, v) == Ordering::Equal,
    decreases v,
{
    match v {
        Value::Real(t) => lemma_text_cmp_equal(t@, t@),
        Value::String(t) => lemma_text_cmp_equal(t@, t@),
        Value::Sequence(x) => lemma_items_cmp_reflexive(x@),
        Value::Mapping(x) => lemma_entries_cmp_reflexive(x@),
        _ => {},
    }
}

proof fn lemma_items_cmp_reflexive(xs: Seq<Value>)
    ensures
        items_cmp(xs, xs) == Ordering::Equal,
    decreases xs,
{
    if xs.len() > 0 {
        lemma_value_cmp_reflexive(xs[0]);
        lemma_items_cmp_reflexive(xs.subrange(1, xs.len() as int));
    }
}

proof fn lemma_entries_cmp_reflexive(es: Seq<(String, Value)>)
    ensures
        entries_cmp(es, es) == Ordering::Equal,
    decreases es,
{
    if es.len() > 0 {
        lemma_text_cmp_equal(es[0].0@, es[0].0@);
        lemma_value_cmp_reflexive(es[0].1);
        lemma_entries_cmp_reflexive(es.subrange(1, es.len() as int));
    }
}

/// Swapping two values swaps `Greater` and `Less`.
pub proof fn lemma_value_cmp_antisymmetric(a: Value, b: Value)
    ensures
        (value_cmp(a, b) == Ordering::Greater) == (value_cmp(b, a) == Ordering::Less),
        (value_cmp(a, b) == Ordering::Less) == (value_cmp(b, a) == Ordering::Greater),
    decreases a,
{
    match (a, b) {
        (Value::Real(x), Value::Real(y)) => lemma_text_cmp_antisymmetric(x@, y@),
        (Value::String(x), Value::String(y)) => lemma_text_cmp_antisymmetric(x@, y@),
        (Value::Sequence(x), Value::Sequence(y)) => lemma_items_cmp_antisymmetric(x@, y@),
        (Value::Mapping(x), Value::Mapping(y)) => lemma_entries_cmp_antisymmetric(x@, y@),
        _ => {},
    }
}

proof fn lemma_items_cmp_antisymmetric(xs: Seq<Value>, ys: Seq<Value>)
    ensures
        (items_cmp(xs, ys) == Ordering::Greater) == (items_cmp(ys, xs) == Ordering::Less),
        (items_cmp(xs, ys) == Ordering::Less) == (items_cmp(ys, xs) == Ordering::Greater),
    decreases xs,
{
    if xs.len() > 0 && ys.len() > 0 {
        lemma_value_cmp_antisymmetric(xs[0], ys[0]);
        lemma_items_cmp_antisymmetric(xs.subrange(1, xs.len() as int), ys.subrange(1, ys.len() as int));
    }
}

proof fn lemma_entries_cmp_antisymmetric(es: Seq<(String, Value)>, fs: Seq<(String, Value)>)
    ensures
        (entries_cmp(es, fs) == Ordering::Greater) == (entries_cmp(fs, es) == Ordering::Less),
        (entries_cmp(es, fs) == Ordering::Less) == (entries_cmp(fs, es) == Ordering::Greater),
    decreases es,
{
    if es.len() > 0 && fs.len() > 0 {
        lemma_text_cmp_antisymmetric(es[0].0@, fs[0].0@);
        lemma_value_cmp_antisymmetric(es[0].1, fs[0].1);
        lemma_entries_cmp_antisymmetric(es.subrange(1, es.len() as int), fs.subrange(1, fs.len() as int));
    }
}

/// The order of values is transitive: "not after" chains, strictly where
/// either step is strict, and equal where both steps are equal.
pub proof fn lemma_value_cmp_order(a: Value, b: Value, c: Value)
    ensures
        value_cmp(a, b) != Ordering::Greater && value_cmp(b, c) != Ordering::Greater ==> value_cmp(a, c)
            != Ordering::Greater,
        (value_cmp(a, b) == Ordering::Less && value_cmp(b, c) != Ordering::Greater)
            || (value_cmp(a, b) != Ordering::Greater && value_cmp(b, c) == Ordering::Less)
            ==> value_cmp(a, c) == Ordering::Less,
        value_cmp(a, b) == Ordering::Equal && value_cmp(b, c) == Ordering::Equal ==> value_cmp(a, c)
            == Ordering::Equal,
    decreases a,
{
    if rank(a) == rank(b) && rank(b) == rank(c) {
        match (a, b, c) {
            (Value::Real(x), Value::Real(y), Value::Real(z)) => lemma_text_cmp_order(x@, y@, z@),
            (Value::String(x), Value::String(y), Value::String(z)) => lemma_text_cmp_order(x@, y@, z@),
            (Value::Sequence(x), Value::Sequence(y), Value::Sequence(z)) => lemma_items_cmp_order(x@, y@, z@),
            (Value::Mapping(x), Value::Mapping(y), Value::Mapping(z)) => lemma_entries_cmp_order(x@, y@, z@),
            _ => {},
        }
    }
}

proof fn lemma_items_cmp_order(xs: Seq<Value>, ys: Seq<Value>, zs: Seq<Value>)
    ensures
        (items_cmp(xs, ys) == Ordering::Less && items_cmp(ys, zs) != Ordering::Greater)
            || (items_cmp(xs, ys) != Ordering::Greater && items_cmp(ys, zs) == Ordering::Less)
            ==> items_cmp(xs, zs) == Ordering::Less,
        items_cmp(xs, ys) == Ordering::Equal && items_cmp(ys, zs) == Ordering::Equal ==> items_cmp(xs, zs)
            == Ordering::Equal,
    decreases xs,
{
    if xs.len() > 0 && ys.len() > 0 && zs.len() > 0 {
        lemma_value_cmp_order(xs[0], ys[0], zs[0]);
        lemma_items_cmp_order(
            xs.subrange(1, xs.len() as int),
            ys.subrange(1, ys.len() as int),
            zs.subrange(1, zs.len() as int),
        );
    }
}

proof fn lemma_entries_cmp_order(es: Seq<(String, Value)>, fs: Seq<(String, Value)>, gs: Seq<(String, Value)>)
    ensures
        (entries_cmp(es, fs) == Ordering::Less && entries_cmp(fs, gs) != Ordering::Greater)
            || (entries_cmp(es, fs) != Ordering::Greater && entries_cmp(fs, gs) == Ordering::Less)
            ==> entries_cmp(es, gs) == Ordering::Less,
        entries_cmp(es, fs) == Ordering::Equal && entries_cmp(fs, gs) == Ordering::Equal
            ==> entries_cmp(es, gs) == Ordering::Equal,
    decreases es,
{
    if es.len() > 0 && fs.len() > 0 && gs.len() > 0 {
        lemma_text_cmp_order(es[0].0@, fs[0].0@, gs[0].0@);
        lemma_value_cmp_order(es[0].1, fs[0].1, gs[0].1);
        lemma_entries_cmp_order(
            es.subrange(1, es.len() as int),
            fs.subrange(1, fs.len() as int),
            gs.subrange(1, gs.len() as int),
        );
    }
}

} // verus!
