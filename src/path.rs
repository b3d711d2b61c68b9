use vstd::prelude::*;

verus! {

/// One step of a path: a mapping entry by key, or a sequence element by position.
#[derive(Debug, PartialEq, Eq)]
pub enum QueryAccessor {
    Key(String),
    Index(usize),
}

/// A parsed path: the steps to take from the root, in order.
#[derive(Debug, PartialEq, Eq)]
pub struct Query(pub Vec<QueryAccessor>);

/// Why a path text was refused.
#[derive(Debug, PartialEq, Eq)]
pub enum QueryError {
    /// `[` with nothing before the next `]`, or with no `]` after it.
    UnclosedBracket,
    /// Bracket contents that are not an unsigned index; the contents are kept.
    InvalidIndex(String),
}

/// The mathematical form of a step.
pub enum Step {
    Key(Seq<char>),
    Index(usize),
}

/// The mathematical form of a path error.
pub enum PathFault {
    UnclosedBracket,
    InvalidIndex(Seq<char>),
}

impl View for QueryAccessor {
    type V = Step;

    open spec fn view(&self) -> Step {
        match self {
            QueryAccessor::Key(k) => Step::Key(k@),
            QueryAccessor::Index(i) => Step::Index(*i),
        }
    }
}

impl View for Query {
    type V = Seq<Step>;

    open spec fn view(&self) -> Seq<Step> {
        self.0@.map_values(|a: QueryAccessor| a@)
    }
}

impl View for QueryError {
    type V = PathFault;

    open spec fn view(&self) -> PathFault {
        match self {
            QueryError::UnclosedBracket => PathFault::UnclosedBracket,
            QueryError::InvalidIndex(t) => PathFault::InvalidIndex(t@),
        }
    }
}

pub open spec fn is_digit(c: char) -> bool {
    '0' <= c && c <= '9'
}

pub open spec fn digit_value(c: char) -> nat {
    (c as u32 - '0' as u32) as nat
}

/// The number written by a string of decimal digits.
pub open spec fn digits_value(d: Seq<char>) -> nat
    decreases d.len(),
{
    if d.len() == 0 {
        0
    } else {
        digits_value(d.drop_last()) * 10 + digit_value(d.last())
    }
}

/// The index written by bracket contents: one or more decimal digits, and
/// nothing else, whose value fits in `usize`.
pub open spec fn index_value(t: Seq<char>) -> Option<usize> {
    let d = t;
    if d.len() > 0 && (forall|k: int| 0 <= k < d.len() ==> is_digit(#[trigger] d[k]))
        && digits_value(d) <= usize::MAX {
        Some(digits_value(d) as usize)
    } else {
        None
    }
}

/// `acc` with a key step for `key` appended, unless `key` is empty.
pub open spec fn with_key(acc: Seq<Step>, key: Seq<char>) -> Seq<Step> {
    if key.len() > 0 {
        acc.push(Step::Key(key))
    } else {
        acc
    }
}

/// The scan of a path text from position `i`. `start` is where the current
/// key (or, inside brackets, the current index text) began, and `acc` holds
/// the steps found so far.
pub open spec fn scan_path(s: Seq<char>, i: int, start: int, in_bracket: bool, acc: Seq<Step>) -> Result<Seq<Step>, PathFault>
    decreases s.len() - i,
{
    if i >= s.len() {
        if in_bracket {
            Err(PathFault::UnclosedBracket)
        } else {
            Ok(with_key(acc, s.subrange(start, s.len() as int)))
        }
    } else if in_bracket {
        if s[i] == ']' {
            let t = s.subrange(start, i);
            if t.len() == 0 {
                Err(PathFault::UnclosedBracket)
            } else {
                match index_value(t) {
                    Some(n) => scan_path(s, i + 1, i + 1, false, acc.push(Step::Index(n))),
                    None => Err(PathFault::InvalidIndex(t)),
                }
            }
        } else {
            scan_path(s, i + 1, start, true, acc)
        }
    } else if s[i] == '.' {
        scan_path(s, i + 1, i + 1, false, with_key(acc, s.subrange(start, i)))
    } else if s[i] == '[' {
        scan_path(s, i + 1, i + 1, true, with_key(acc, s.subrange(start, i)))
    } else {
        scan_path(s, i + 1, start, false, acc)
    }
}

/// The steps written by a path text, or why it is refused.
pub open spec fn parse_path(s: Seq<char>) -> Result<Seq<Step>, PathFault> {
    scan_path(s, 0, 0, false, Seq::empty())
}

proof fn lemma_digits_value_grows(d: Seq<char>, k: int)
    requires
        0 <= k < d.len(),
    ensures
        digits_value(d.subrange(0, k)) <= digits_value(d.subrange(0, k + 1)),
{
    assert(d.subrange(0, k + 1).drop_last() =~= d.subrange(0, k));
}

proof fn lemma_digits_value_prefix_bound(d: Seq<char>, k: int)
    requires
        0 <= k <= d.len(),
    ensures
        digits_value(d.subrange(0, k)) <= digits_value(d),
    decreases d.len() - k,
{
    if k < d.len() {
        lemma_digits_value_grows(d, k);
        lemma_digits_value_prefix_bound(d, k + 1);
    } else {
        assert(d.subrange(0, k) =~= d);
    }
}

/// Reads bracket contents as an index.
pub fn parse_index(t: &str) -> (r: Option<usize>)
    ensures
        r == index_value(t@),
{
    let len = t.unicode_len();
    let mut i: usize = 0;
    let first = i;
    let ghost d = t@;
    assert(d =~= t@.subrange(first as int, len as int));
    if i == len {
        return None;
    }
    let mut acc: usize = 0;
    while i < len
        invariant
            first <= i <= len,
            len == t@.len(),
            d == t@.subrange(first as int, len as int),
            d == t@,
            first == 0,
            acc as nat == digits_value(d.subrange(0, i - first)),
            forall|k: int| 0 <= k < i - first ==> is_digit(#[trigger] d[k]),
        decreases len - i,
    {
        let c = t.get_char(i);
        if !('0' <= c && c <= '9') {
            assert(!is_digit(d[i - first]));
            return None;
        }
        let ghost k = i - first;
        assert(d.subrange(0, k + 1).drop_last() =~= d.subrange(0, k));
        let dv = (c as u32 - '0' as u32) as usize;
        let step = acc.checked_mul(10);
        match step {
            Some(m) => {
                match m.checked_add(dv) {
                    Some(v) => {
                        acc = v;
                    },
                    None => {
                        proof {
                            lemma_digits_value_prefix_bound(d, k + 1);
                        }
                        return None;
                    },
                }
            },
            None => {
                proof {
                    assert(digits_value(d.subrange(0, k + 1)) >= acc * 10) by (nonlinear_arith)
                        requires
                            digits_value(d.subrange(0, k + 1)) == digits_value(d.subrange(0, k)) * 10 + digit_value(c),
                            acc as nat == digits_value(d.subrange(0, k)),
                    ;
                    lemma_digits_value_prefix_bound(d, k + 1);
                }
                return None;
            },
        }
        i = i + 1;
    }
    assert(d.subrange(0, len - first) =~= d);
    Some(acc)
}

proof fn lemma_push_view(v: Seq<QueryAccessor>, a: QueryAccessor)
    ensures
        v.push(a).map_values(|x: QueryAccessor| x@) == v.map_values(|x: QueryAccessor| x@).push(a@),
{
    assert(v.push(a).map_values(|x: QueryAccessor| x@) =~= v.map_values(|x: QueryAccessor| x@).push(a@));
}

/// Appends a key step for `s[start..end]` unless that range is empty.
fn push_key(res: &mut Vec<QueryAccessor>, s: &str, start: usize, end: usize)
    requires
        start <= end <= s@.len(),
    ensures
        final(res)@.map_values(|x: QueryAccessor| x@) == with_key(
            old(res)@.map_values(|x: QueryAccessor| x@),
            s@.subrange(start as int, end as int),
        ),
{
    if start < end {
        let key = String::from_str(s.substring_char(start, end));
        proof {
            lemma_push_view(res@, QueryAccessor::Key(key));
        }
        res.push(QueryAccessor::Key(key));
    }
}

impl Query {
    /// Parses a path text: keys separated by `.`, each optionally followed by
    /// `[n]` index suffixes.
    pub fn parse(input: &str) -> (r: Result<Query, QueryError>)
        ensures
            match r {
                Ok(q) => parse_path(input@) == Ok::<Seq<Step>, PathFault>(q@),
                Err(e) => parse_path(input@) == Err::<Seq<Step>, PathFault>(e@),
            },
    {
        let len = input.unicode_len();
        let mut res: Vec<QueryAccessor> = Vec::new();
        let mut i: usize = 0;
        let mut start: usize = 0;
        let mut in_bracket = false;
        proof {
            assert(res@.map_values(|x: QueryAccessor| x@) =~= Seq::<Step>::empty());
        }
        while i < len
            invariant
                len == input@.len(),
                start <= i <= len,
                scan_path(input@, i as int, start as int, in_bracket, res@.map_values(|x: QueryAccessor| x@))
                    == parse_path(input@),
            decreases len - i,
        {
            let c = input.get_char(i);
            if in_bracket {
                if c == ']' {
                    if start == i {
                        return Err(QueryError::UnclosedBracket);
                    }
                    let text = input.substring_char(start, i);
                    match parse_index(text) {
                        Some(n) => {
                            proof {
                                lemma_push_view(res@, QueryAccessor::Index(n));
                            }
                            res.push(QueryAccessor::Index(n));
                            start = i + 1;
                            in_bracket = false;
                        },
                        None => {
                            return Err(QueryError::InvalidIndex(String::from_str(text)));
                        },
                    }
                }
            } else if c == '.' {
                push_key(&mut res, input, start, i);
                start = i + 1;
            } else if c == '[' {
                push_key(&mut res, input, start, i);
                start = i + 1;
                in_bracket = true;
            }
            i = i + 1;
        }
        if in_bracket {
            return Err(QueryError::UnclosedBracket);
        }
        push_key(&mut res, input, start, len);
        Ok(Query(res))
    }
}

/// The scan of a selection text: paths separated by single spaces, each read
/// as a path. `start` is where the current path began; `acc` holds the paths
/// read so far. The first path that does not parse decides the error.
pub open spec fn scan_selection(s: Seq<char>, start: int, i: int, acc: Seq<Seq<Step>>) -> Result<Seq<Seq<Step>>, PathFault>
    decreases s.len() - i,
{
    if i >= s.len() {
        match parse_path(s.subrange(start, s.len() as int)) {
            Ok(q) => Ok(acc.push(q)),
            Err(e) => Err(e),
        }
    } else if s[i] == ' ' {
        match parse_path(s.subrange(start, i)) {
            Ok(q) => scan_selection(s, i + 1, i + 1, acc.push(q)),
            Err(e) => Err(e),
        }
    } else {
        scan_selection(s, start, i + 1, acc)
    }
}

/// The paths of a selection text, in order.
pub open spec fn parse_selection_spec(s: Seq<char>) -> Result<Seq<Seq<Step>>, PathFault> {
    scan_selection(s, 0, 0, Seq::empty())
}

proof fn lemma_push_query_view(v: Seq<Query>, q: Query)
    ensures
        v.push(q).map_values(|x: Query| x@) == v.map_values(|x: Query| x@).push(q@),
{
    assert(v.push(q).map_values(|x: Query| x@) =~= v.map_values(|x: Query| x@).push(q@));
}

/// Reads the paths of a selection: the text is split at each space and every
/// piece is read as a path (an empty piece is the empty path).
pub fn parse_selection(input: &str) -> (r: Result<Vec<Query>, QueryError>)
    ensures
        match r {
            Ok(qs) => parse_selection_spec(input@) == Ok::<Seq<Seq<Step>>, PathFault>(
                qs@.map_values(|x: Query| x@),
            ),
            Err(e) => parse_selection_spec(input@) == Err::<Seq<Seq<Step>>, PathFault>(e@),
        },
{
    let len = input.unicode_len();
    let mut out: Vec<Query> = Vec::new();
    let mut start: usize = 0;
    let mut i: usize = 0;
    assert(out@.map_values(|x: Query| x@) =~= Seq::<Seq<Step>>::empty());
    while i < len
        invariant
            start <= i <= len,
            len == input@.len(),
            scan_selection(input@, start as int, i as int, out@.map_values(|x: Query| x@))
                == parse_selection_spec(input@),
        decreases len - i,
    {
        if input.get_char(i) == ' ' {
            match Query::parse(input.substring_char(start, i)) {
                Ok(q) => {
                    proof {
                        lemma_push_query_view(out@, q);
                    }
                    out.push(q);
                },
                Err(e) => {
                    return Err(e);
                },
            }
            start = i + 1;
        }
        i = i + 1;
    }
    match Query::parse(input.substring_char(start, len)) {
        Ok(q) => {
            proof {
                lemma_push_query_view(out@, q);
            }
            out.push(q);
            Ok(out)
        },
        Err(e) => Err(e),
    }
}

} // verus!
