use vstd::prelude::*;
use core::cmp::Ordering;
use crate::path::{parse_path, PathFault, Query, QueryError, Step};
use crate::value::{get_value, resolve, text_equal, Value};

verus! {

/// A comparison operator of a condition.
#[derive(Debug, Clone, Copy, PartialEq, Eq, Structural)]
pub enum Ops {
    Eq,
    Neq,
    Gt,
    Gte,
    Lt,
    Lte,
}

/// A filter: the value at `query` is compared with the text `value`.
#[derive(Debug)]
pub struct Condition {
    pub query: Query,
    pub op: Ops,
    pub value: String,
}

/// Why a condition text was refused.
#[derive(Debug, PartialEq, Eq)]
pub enum ConditionError {
    /// No space after the path.
    MissingOperator,
    /// No space after the operator.
    MissingValue,
    /// The path part does not parse.
    Query(QueryError),
    /// The operator part is none of the six operators; the token is kept.
    UnknownOperator(String),
}

/// The mathematical form of a condition error.
pub enum ConditionFault {
    MissingOperator,
    MissingValue,
    Query(PathFault),
    UnknownOperator(Seq<char>),
}

impl View for ConditionError {
    type V = ConditionFault;

    open spec fn view(&self) -> ConditionFault {
        match self {
            ConditionError::MissingOperator => ConditionFault::MissingOperator,
            ConditionError::MissingValue => ConditionFault::MissingValue,
            ConditionError::Query(e) => ConditionFault::Query(e@),
            ConditionError::UnknownOperator(t) => ConditionFault::UnknownOperator(t@),
        }
    }
}

/// The operator written by a token.
pub open spec fn op_of(t: Seq<char>) -> Option<Ops> {
    if t == seq!['=', '='] {
        Some(Ops::Eq)
    } else if t == seq!['!', '='] {
        Some(Ops::Neq)
    } else if t == seq!['>'] {
        Some(Ops::Gt)
    } else if t == seq!['>', '='] {
        Some(Ops::Gte)
    } else if t == seq!['<'] {
        Some(Ops::Lt)
    } else if t == seq!['<', '='] {
        Some(Ops::Lte)
    } else {
        None
    }
}

/// Lexicographic order of texts, character by character by code point; a
/// proper prefix comes first.
pub open spec fn text_cmp(a: Seq<char>, b: Seq<char>) -> Ordering
    decreases a.len(),
{
    if a.len() == 0 {
        if b.len() == 0 {
            Ordering::Equal
        } else {
            Ordering::Less
        }
    } else if b.len() == 0 {
        Ordering::Greater
    } else if a[0] < b[0] {
        Ordering::Less
    } else if a[0] > b[0] {
        Ordering::Greater
    } else {
        text_cmp(a.drop_first(), b.drop_first())
    }
}

/// Whether an operator accepts the outcome of comparing a value with the literal.
pub open spec fn op_holds(op: Ops, ord: Ordering) -> bool {
    match op {
        Ops::Eq => ord == Ordering::Equal,
        Ops::Neq => ord != Ordering::Equal,
        Ops::Gt => ord == Ordering::Greater,
        Ops::Gte => ord != Ordering::Less,
        Ops::Lt => ord == Ordering::Less,
        Ops::Lte => ord != Ordering::Greater,
    }
}

/// Whether a condition lets a document through: a path that stops rejects;
/// a text is compared with the literal; any other value passes.
pub open spec fn passes(steps: Seq<Step>, op: Ops, literal: Seq<char>, root: Value) -> bool {
    match resolve(steps, root) {
        None => false,
        Some(Value::String(s)) => op_holds(op, text_cmp(s@, literal)),
        Some(_) => true,
    }
}

/// The first position at or after `i` that holds a space, or the length.
pub open spec fn space_from(s: Seq<char>, i: int) -> int
    decreases s.len() - i,
{
    if i >= s.len() {
        s.len() as int
    } else if s[i] == ' ' {
        i
    } else {
        space_from(s, i + 1)
    }
}

/// A condition text split at its first two spaces into path, operator and
/// literal, each part read.
pub open spec fn parse_condition(s: Seq<char>) -> Result<(Seq<Step>, Ops, Seq<char>), ConditionFault> {
    let a = space_from(s, 0);
    let b = space_from(s, a + 1);
    if a >= s.len() {
        Err(ConditionFault::MissingOperator)
    } else if b >= s.len() {
        Err(ConditionFault::MissingValue)
    } else {
        match parse_path(s.subrange(0, a)) {
            Err(e) => Err(ConditionFault::Query(e)),
            Ok(q) => match op_of(s.subrange(a + 1, b)) {
                None => Err(ConditionFault::UnknownOperator(s.subrange(a + 1, b))),
                Some(op) => Ok((q, op, s.subrange(b + 1, s.len() as int))),
            },
        }
    }
}

proof fn lemma_space_from_bounds(s: Seq<char>, i: int)
    requires
        0 <= i,
    ensures
        i <= space_from(s, i) || i > s.len(),
        space_from(s, i) <= s.len(),
    decreases s.len() - i,
{
    if i < s.len() && s[i] != ' ' {
        lemma_space_from_bounds(s, i + 1);
    }
}

/// Two texts compare equal exactly when they are the same text.
pub proof fn lemma_text_cmp_equal(a: Seq<char>, b: Seq<char>)
    ensures
        (text_cmp(a, b) == Ordering::Equal) == (a == b),
    decreases a.len(),
{
    if a.len() == 0 || b.len() == 0 {
        if a.len() == 0 && b.len() == 0 {
            assert(a =~= b);
        }
    } else {
        lemma_text_cmp_equal(a.drop_first(), b.drop_first());
        if a[0] == b[0] && a.drop_first() == b.drop_first() {
            assert(a =~= seq![a[0]] + a.drop_first());
            assert(b =~= seq![b[0]] + b.drop_first());
        }
        if a == b {
            assert(a.drop_first() == b.drop_first());
        }
    }
}

/// Swapping two texts swaps `Greater` and `Less`.
pub proof fn lemma_text_cmp_antisymmetric(a: Seq<char>, b: Seq<char>)
    ensures
        (text_cmp(a, b) == Ordering::Greater) == (text_cmp(b, a) == Ordering::Less),
        (text_cmp(a, b) == Ordering::Less) == (text_cmp(b, a) == Ordering::Greater),
    decreases a.len(),
{
    if a.len() > 0 && b.len() > 0 {
        lemma_text_cmp_antisymmetric(a.drop_first(), b.drop_first());
    }
}

/// The order of texts is transitive: strictly where either step is strict,
/// and equal where both steps are equal.
pub proof fn lemma_text_cmp_order(a: Seq<char>, b: Seq<char>, c: Seq<char>)
    ensures
        (text_cmp(a, b) == Ordering::Less && text_cmp(b, c) != Ordering::Greater)
            || (text_cmp(a, b) != Ordering::Greater && text_cmp(b, c) == Ordering::Less)
            ==> text_cmp(a, c) == Ordering::Less,
        text_cmp(a, b) == Ordering::Equal && text_cmp(b, c) == Ordering::Equal ==> text_cmp(a, c)
            == Ordering::Equal,
    decreases a.len(),
{
    if a.len() > 0 && b.len() > 0 && c.len() > 0 {
        if a[0] == b[0] && b[0] == c[0] {
            lemma_text_cmp_order(a.drop_first(), b.drop_first(), c.drop_first());
        }
    }
}

/// The first space at or after `from`, or the length of `s`.
fn find_space(s: &str, from: usize) -> (r: usize)
    requires
        from <= s@.len(),
    ensures
        r == space_from(s@, from as int),
        from <= r <= s@.len(),
{
    let len = s.unicode_len();
    let mut i = from;
    while i < len
        invariant
            from <= i <= len,
            len == s@.len(),
            space_from(s@, i as int) == space_from(s@, from as int),
        decreases len - i,
    {
        if s.get_char(i) == ' ' {
            return i;
        }
        i = i + 1;
    }
    i
}

/// Compares two texts lexicographically by code point.
pub fn compare_text(a: &str, b: &str) -> (r: Ordering)
    ensures
        r == text_cmp(a@, b@),
{
    let n = a.unicode_len();
    let m = b.unicode_len();
    let mut i: usize = 0;
    assert(a@.subrange(0, n as int) =~= a@);
    assert(b@.subrange(0, m as int) =~= b@);
    while i < n && i < m
        invariant
            i <= n,
            i <= m,
            n == a@.len(),
            m == b@.len(),
            text_cmp(a@, b@) == text_cmp(a@.subrange(i as int, n as int), b@.subrange(i as int, m as int)),
        decreases n - i,
    {
        let x = a.get_char(i);
        let y = b.get_char(i);
        assert(a@.subrange(i as int, n as int).drop_first() =~= a@.subrange(i + 1, n as int));
        assert(b@.subrange(i as int, m as int).drop_first() =~= b@.subrange(i + 1, m as int));
        if x < y {
            return Ordering::Less;
        }
        if x > y {
            return Ordering::Greater;
        }
        i = i + 1;
    }
    if i < n {
        Ordering::Greater
    } else if i < m {
        Ordering::Less
    } else {
        Ordering::Equal
    }
}

impl Ops {
    /// The operator written by a token, if it is one of the six.
    pub fn from_token(t: &str) -> (r: Option<Ops>)
        ensures
            r == op_of(t@),
    {
        proof {
            reveal_strlit("==");
            reveal_strlit("!=");
            reveal_strlit(">");
            reveal_strlit(">=");
            reveal_strlit("<");
            reveal_strlit("<=");
            assert("=="@ =~= seq!['=', '=']);
            assert("!="@ =~= seq!['!', '=']);
            assert(">"@ =~= seq!['>']);
            assert(">="@ =~= seq!['>', '=']);
            assert("<"@ =~= seq!['<']);
            assert("<="@ =~= seq!['<', '=']);
        }
        if text_equal(t, "==") {
            Some(Ops::Eq)
        } else if text_equal(t, "!=") {
            Some(Ops::Neq)
        } else if text_equal(t, ">") {
            Some(Ops::Gt)
        } else if text_equal(t, ">=") {
            Some(Ops::Gte)
        } else if text_equal(t, "<") {
            Some(Ops::Lt)
        } else if text_equal(t, "<=") {
            Some(Ops::Lte)
        } else {
            None
        }
    }

    /// Whether this operator accepts the outcome of a comparison.
    pub fn accepts(self, ord: Ordering) -> (r: bool)
        ensures
            r == op_holds(self, ord),
    {
        match self {
            Ops::Eq => matches!(ord, Ordering::Equal),
            Ops::Neq => !matches!(ord, Ordering::Equal),
            Ops::Gt => matches!(ord, Ordering::Greater),
            Ops::Gte => !matches!(ord, Ordering::Less),
            Ops::Lt => matches!(ord, Ordering::Less),
            Ops::Lte => !matches!(ord, Ordering::Greater),
        }
    }
}

impl Condition {
    /// Parses `<path> <operator> <literal>`: the text is split at its first
    /// two spaces, so the literal may hold spaces of its own.
    pub fn parse(input: &str) -> (r: Result<Condition, ConditionError>)
        ensures
            match r {
                Ok(c) => parse_condition(input@) == Ok::<(Seq<Step>, Ops, Seq<char>), ConditionFault>(
                    (c.query@, c.op, c.value@),
                ),
                Err(e) => parse_condition(input@) == Err::<(Seq<Step>, Ops, Seq<char>), ConditionFault>(e@),
            },
    {
        let len = input.unicode_len();
        let a = find_space(input, 0);
        if a >= len {
            return Err(ConditionError::MissingOperator);
        }
        let b = find_space(input, a + 1);
        if b >= len {
            return Err(ConditionError::MissingValue);
        }
        let query = match Query::parse(input.substring_char(0, a)) {
            Ok(q) => q,
            Err(e) => {
                return Err(ConditionError::Query(e));
            },
        };
        let token = input.substring_char(a + 1, b);
        let op = match Ops::from_token(token) {
            Some(op) => op,
            None => {
                return Err(ConditionError::UnknownOperator(String::from_str(token)));
            },
        };
        let value = String::from_str(input.substring_char(b + 1, len));
        Ok(Condition { query, op, value })
    }

    /// Whether the document with metadata `root` passes this condition.
    pub fn evaluate(&self, root: &Value) -> (r: bool)
        ensures
            r == passes(self.query@, self.op, self.value@, *root),
    {
        match get_value(&self.query, root) {
            None => false,
            Some(v) => match v {
                Value::String(s) => self.op.accepts(compare_text(s.as_str(), self.value.as_str())),
                _ => true,
            },
        }
    }
}

} // verus!
