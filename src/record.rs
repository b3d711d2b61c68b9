use vstd::prelude::*;

verus! {

/// A lowercase hexadecimal digit.
pub open spec fn hex_digit(n: nat) -> char
    recommends
        n < 16,
{
    seq!['0', '1', '2', '3', '4', '5', '6', '7', '8', '9', 'a', 'b', 'c', 'd', 'e', 'f'][n as int]
}

/// A number in lowercase hexadecimal, without leading zeros.
pub open spec fn hex_of(n: nat) -> Seq<char>
    decreases n,
{
    if n < 16 {
        seq![hex_digit(n)]
    } else {
        hex_of(n / 16) + seq![hex_digit(n % 16)]
    }
}

/// The escaped form of one character: tab, carriage return and line feed as
/// `\t`, `\r`, `\n`; a backslash before `\`, `'` and `"`; other printable
/// ASCII characters (space to `~`) as they are; anything else as `\u{hex}`.
pub open spec fn escape_char(c: char) -> Seq<char> {
    if c == '\t' {
        seq!['\\', 't']
    } else if c == '\r' {
        seq!['\\', 'r']
    } else if c == '\n' {
        seq!['\\', 'n']
    } else if c == '\\' || c == '\'' || c == '"' {
        seq!['\\', c]
    } else if ' ' <= c && c <= '~' {
        seq![c]
    } else {
        seq!['\\', 'u', '{'] + hex_of(c as u32 as nat) + seq!['}']
    }
}

/// The escaped form of a text: each character escaped in turn.
pub open spec fn escape_text(s: Seq<char>) -> Seq<char>
    decreases s.len(),
{
    if s.len() == 0 {
        Seq::empty()
    } else {
        escape_text(s.drop_last()) + escape_char(s.last())
    }
}

/// Relies on `str::escape_default`, which escapes each character with
/// `char::escape_default`.
#[verifier::external_body]
fn escape_default_text(s: &str) -> (r: String)
    ensures
        r@ == escape_text(s@),
{
    s.escape_default().collect()
}

pub open spec fn separator() -> Seq<char> {
    seq![',', ' ']
}

/// How a selected field reads in a record: its rendered text, or `null` where
/// its path stopped.
pub open spec fn field_text(f: Option<String>) -> Seq<char> {
    match f {
        Some(s) => s@,
        None => seq!['n', 'u', 'l', 'l'],
    }
}

/// The fields of a record joined by `", "`.
pub open spec fn joined(fields: Seq<Option<String>>) -> Seq<char>
    decreases fields.len(),
{
    if fields.len() == 0 {
        Seq::empty()
    } else if fields.len() == 1 {
        field_text(fields[0])
    } else {
        joined(fields.drop_last()) + separator() + field_text(fields.last())
    }
}

/// The fields of a record, `null` for each that was not found, joined by `", "`.
pub fn join_fields(fields: &Vec<Option<String>>) -> (r: String)
    ensures
        r@ == joined(fields@),
{
    let mut out = String::new();
    let mut i: usize = 0;
    assert(fields@.subrange(0, 0) =~= Seq::<Option<String>>::empty());
    while i < fields.len()
        invariant
            i <= fields@.len(),
            out@ == joined(fields@.subrange(0, i as int)),
        decreases fields@.len() - i,
    {
        proof {
            reveal_strlit(", ");
            reveal_strlit("null");
            assert(", "@ =~= separator());
            assert("null"@ =~= seq!['n', 'u', 'l', 'l']);
        }
        let ghost next = fields@.subrange(0, i + 1);
        assert(next.drop_last() =~= fields@.subrange(0, i as int));
        if i > 0 {
            out.append(", ");
        }
        match &fields[i] {
            Some(s) => out.append(s.as_str()),
            None => out.append("null"),
        }
        proof {
            if i == 0 {
                assert(out@ =~= joined(next));
            }
        }
        i = i + 1;
    }
    assert(fields@.subrange(0, i as int) =~= fields@);
    out
}

/// A record line from its location and its escaped fields: `<location>, <fields>`.
pub fn record_line(location: &str, escaped: &str) -> (r: String)
    ensures
        r@ == location@ + separator() + escaped@,
{
    proof {
        reveal_strlit(", ");
        assert(", "@ =~= separator());
    }
    let mut out = String::from_str(location);
    out.append(", ");
    out.append(escaped);
    out
}

/// The output line of a document: its location, then its fields joined by
/// `", "` and escaped for display on one line.
pub fn format_record(location: &str, fields: &Vec<Option<String>>) -> (r: String)
    ensures
        r@ == location@ + separator() + escape_text(joined(fields@)),
{
    let joined_text = join_fields(fields);
    let escaped = escape_default_text(joined_text.as_str());
    record_line(location, escaped.as_str())
}

} // verus!
