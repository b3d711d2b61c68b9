use vstd::prelude::*;
use crate::value::text_equal;

verus! {

pub open spec fn delimiter() -> Seq<char> {
    seq!['-', '-', '-']
}

/// A line as `str::lines` gives it: without a `\r` that stood right before
/// its `\n`.
pub open spec fn strip_cr(line: Seq<char>) -> Seq<char> {
    if line.len() > 0 && line.last() == '\r' {
        line.drop_last()
    } else {
        line
    }
}

/// The scan of the lines after the opening one. The current line began at
/// `start`, `i` is the position read next, and `acc` holds the lines kept so
/// far, each followed by `\n`. The block ends at the first line that is
/// exactly `---`; without one there is no front matter.
pub open spec fn scan_block(s: Seq<char>, start: int, i: int, acc: Seq<char>) -> Option<Seq<char>>
    decreases s.len() - i,
{
    if i >= s.len() {
        if s.subrange(start, s.len() as int) == delimiter() {
            Some(acc)
        } else {
            None
        }
    } else if s[i] == '\n' {
        let line = strip_cr(s.subrange(start, i));
        if line == delimiter() {
            Some(acc)
        } else {
            scan_block(s, i + 1, i + 1, acc + line + seq!['\n'])
        }
    } else {
        scan_block(s, start, i + 1, acc)
    }
}

/// The scan of the opening line, from position `i`, up to its end: the line
/// must be exactly `---`, and the block follows it.
pub open spec fn skip_opening(s: Seq<char>, i: int) -> Option<Seq<char>>
    decreases s.len() - i,
{
    if i >= s.len() {
        None
    } else if s[i] == '\n' {
        if strip_cr(s.subrange(0, i)) == delimiter() {
            scan_block(s, i + 1, i + 1, Seq::empty())
        } else {
            None
        }
    } else {
        skip_opening(s, i + 1)
    }
}

/// The front matter of a text: when its first line is exactly `---`, the
/// lines after it up to the next line that is exactly `---`, each followed by
/// `\n`.
pub open spec fn front_matter_of(s: Seq<char>) -> Option<Seq<char>> {
    skip_opening(s, 0)
}

/// Whether `s[start..end]` is exactly `---`.
fn is_delimiter(s: &str, start: usize, end: usize) -> (r: bool)
    requires
        start <= end <= s@.len(),
    ensures
        r == (s@.subrange(start as int, end as int) == delimiter()),
{
    proof {
        reveal_strlit("---");
        assert("---"@ =~= delimiter());
    }
    text_equal(s.substring_char(start, end), "---")
}

/// Cuts the front matter out of a document's text: `None` when its first
/// line is not exactly `---` or no closing `---` line follows.
pub fn extract_front_matter(input: &str) -> (r: Option<String>)
    ensures
        match r {
            Some(x) => front_matter_of(input@) == Some(x@),
            None => front_matter_of(input@).is_none(),
        },
{
    let len = input.unicode_len();
    let mut i: usize = 0;
    while i < len && input.get_char(i) != '\n'
        invariant
            i <= len,
            len == input@.len(),
            skip_opening(input@, i as int) == skip_opening(input@, 0),
        decreases len - i,
    {
        i = i + 1;
    }
    if i >= len {
        return None;
    }
    let mut opening_end = i;
    if opening_end > 0 && input.get_char(opening_end - 1) == '\r' {
        opening_end = opening_end - 1;
    }
    proof {
        assert(strip_cr(input@.subrange(0, i as int)) =~= input@.subrange(0, opening_end as int));
    }
    if !is_delimiter(input, 0, opening_end) {
        return None;
    }
    let mut start = i + 1;
    let mut j = i + 1;
    let mut acc = String::new();
    while j < len
        invariant
            start <= j <= len,
            len == input@.len(),
            scan_block(input@, start as int, j as int, acc@) == front_matter_of(input@),
        decreases len - j,
    {
        if input.get_char(j) == '\n' {
            let mut end = j;
            if end > start && input.get_char(end - 1) == '\r' {
                end = end - 1;
            }
            proof {
                let line = input@.subrange(start as int, j as int);
                if end < j {
                    assert(strip_cr(line) =~= input@.subrange(start as int, end as int));
                } else {
                    assert(strip_cr(line) =~= input@.subrange(start as int, end as int));
                }
            }
            if is_delimiter(input, start, end) {
                return Some(acc);
            }
            proof {
                reveal_strlit("\n");
                assert("\n"@ =~= seq!['\n']);
            }
            acc.append(input.substring_char(start, end));
            acc.append("\n");
            start = j + 1;
        }
        j = j + 1;
    }
    if is_delimiter(input, start, len) {
        Some(acc)
    } else {
        None
    }
}

} // verus!
