//! Canonical JSON text of the values that content addresses are taken over:
//! quoted strings, arrays of strings, optional strings and unsigned numbers, as
//! compact `serde_json` output writes them.
use vstd::prelude::*;
use crate::digest::hex_digit;
use crate::text::push_char;

verus! {

#[verifier::external_type_specification]
#[verifier::external_body]
pub struct ExJsonError(serde_json::Error);

/// How one character stands inside a JSON string: `"` and `\` behind a backslash,
/// the control characters below U+0020 as `\b`, `\t`, `\n`, `\f`, `\r` or `\u00`
/// and two lower-case hexadecimal digits, every other character as itself.
pub open spec fn escaped(c: char) -> Seq<char> {
    if c == '"' {
        seq!['\\', '"']
    } else if c == '\\' {
        seq!['\\', '\\']
    } else if c == '\x08' {
        seq!['\\', 'b']
    } else if c == '\t' {
        seq!['\\', 't']
    } else if c == '\n' {
        seq!['\\', 'n']
    } else if c == '\x0c' {
        seq!['\\', 'f']
    } else if c == '\r' {
        seq!['\\', 'r']
    } else if (c as u32) < 0x20 {
        seq!['\\', 'u', '0', '0', hex_digit((c as u32) as int / 16), hex_digit((c as u32) as int % 16)]
    } else {
        seq![c]
    }
}

/// A string as a JSON string literal.
pub open spec fn quoted(s: Seq<char>) -> Seq<char> {
    seq!['"'] + s.map_values(|c: char| escaped(c)).flatten() + seq!['"']
}

/// The comma-separated JSON string literals of a list of strings.
pub open spec fn quoted_items(v: Seq<Seq<char>>) -> Seq<char>
    decreases v.len(),
{
    if v.len() == 0 {
        Seq::empty()
    } else if v.len() == 1 {
        quoted(v[0])
    } else {
        quoted_items(v.drop_last()) + seq![','] + quoted(v.last())
    }
}

/// A list of strings as a JSON array.
pub open spec fn string_array(v: Seq<Seq<char>>) -> Seq<char> {
    seq!['['] + quoted_items(v) + seq![']']
}

/// An optional string: `null`, or the string literal.
pub open spec fn optional_string(o: Option<Seq<char>>) -> Seq<char> {
    match o {
        Some(s) => quoted(s),
        None => seq!['n', 'u', 'l', 'l'],
    }
}

/// The decimal digit of a value below 10.
pub open spec fn digit(d: int) -> char {
    ((d + 48) as u8) as char
}

/// A natural number in decimal, with no leading zero.
pub open spec fn decimal(n: nat) -> Seq<char>
    decreases n,
{
    if n < 10 {
        seq![digit(n as int)]
    } else {
        decimal(n / 10).push(digit((n % 10) as int))
    }
}

pub open spec fn text_of(o: Option<String>) -> Option<Seq<char>> {
    match o {
        Some(s) => Some(s@),
        None => None,
    }
}

/// `serde_json::to_string` on a string slice: the string literal `quoted` states.
/// Writing a string literal into memory cannot fail, so the result is `Ok`.
#[verifier::external_body]
fn json_string_literal(s: &str) -> (r: Result<String, serde_json::Error>)
    ensures
        r is Ok,
        r matches Ok(t) ==> t@ == quoted(s@),
{
    serde_json::to_string(s)
}

/// Appends the characters of a string slice.
pub fn append(out: &mut String, s: &str)
    ensures
        final(out)@ == old(out)@ + s@,
{
    let ghost start = out@;
    let v = crate::text::chars_of(s);
    let mut i: usize = 0;
    while i < v.len()
        invariant
            i <= v@.len(),
            v@ == s@,
            out@ == start + v@.take(i as int),
        decreases v@.len() - i,
    {
        proof {
            assert(v@.take(i + 1) == v@.take(i as int).push(v@[i as int]));
        }
        push_char(out, v[i]);
        i += 1;
    }
    proof {
        assert(v@.take(i as int) == v@);
    }
}

/// Appends a string as a JSON string literal.
pub fn push_quoted(out: &mut String, s: &str)
    ensures
        final(out)@ == old(out)@ + quoted(s@),
{
    match json_string_literal(s) {
        Ok(t) => append(out, t.as_str()),
        Err(_) => {},
    }
}

/// Appends a list of strings as a JSON array.
pub fn push_string_array(out: &mut String, v: &Vec<String>)
    ensures
        final(out)@ == old(out)@ + string_array(v@.map_values(|s: String| s@)),
{
    let ghost start = out@;
    let ghost items = v@.map_values(|s: String| s@);
    push_char(out, '[');
    let mut i: usize = 0;
    while i < v.len()
        invariant
            i <= v@.len(),
            items == v@.map_values(|s: String| s@),
            out@ == start + seq!['['] + quoted_items(items.take(i as int)),
        decreases v@.len() - i,
    {
        let ghost before = out@;
        if i > 0 {
            push_char(out, ',');
        }
        push_quoted(out, v[i].as_str());
        proof {
            let t = items.take(i + 1);
            assert(t.drop_last() == items.take(i as int));
            assert(t.last() == v@[i as int]@);
            if i == 0 {
                assert(quoted_items(items.take(0)) == Seq::<char>::empty());
                assert(quoted_items(t) == quoted(t[0]));
            }
        }
        i += 1;
    }
    proof {
        assert(items.take(i as int) == items);
    }
    push_char(out, ']');
}

/// Appends an optional string: `null`, or the string literal.
pub fn push_optional_string(out: &mut String, o: &Option<String>)
    ensures
        final(out)@ == old(out)@ + optional_string(text_of(*o)),
{
    match o {
        Some(s) => push_quoted(out, s.as_str()),
        None => {
            let ghost start = out@;
            push_char(out, 'n');
            push_char(out, 'u');
            push_char(out, 'l');
            push_char(out, 'l');
            proof {
                assert(out@ == start + seq!['n', 'u', 'l', 'l']);
            }
        },
    }
}

/// Appends a number in decimal.
pub fn push_decimal(out: &mut String, n: u64)
    ensures
        final(out)@ == old(out)@ + decimal(n as nat),
    decreases n,
{
    let ghost start = out@;
    if n >= 10 {
        push_decimal(out, n / 10);
    }
    let d: u8 = (n % 10) as u8;
    let c: char = (d + 48) as char;
    push_char(out, c);
    proof {
        assert(c == digit((n % 10) as int));
        if n < 10 {
            assert(n % 10 == n);
        }
    }
}

} // verus!
