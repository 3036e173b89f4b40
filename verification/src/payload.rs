//! The serialized payload a resource is stored under: a small JSON object
//! holding the identifier, the escaped originating path, and the capture
//! timestamp. The encoding is defined character by character, so the payload
//! of a resource is pinned exactly by the specification.

use vstd::prelude::*;

use vstd::string::StrSliceExecFns;
use vstd::string::StringExecFns;

use crate::model::Resource;
use crate::text::dec_spec;
use crate::text::digit_char;
use crate::text::digit_to_char;
use crate::text::push_decimal;

verus! {

/// How one character of a path appears inside a JSON string literal:
/// quote and backslash are escaped, control characters become `\u00XX`,
/// everything else stands for itself.
pub open spec fn escape_char(c: char) -> Seq<char> {
    if c == '"' {
        seq!['\\', '"']
    } else if c == '\\' {
        seq!['\\', '\\']
    } else if (c as u32) < 32 {
        seq![
            '\\',
            'u',
            '0',
            '0',
            digit_char((c as u32 / 16) as int),
            digit_char((c as u32 % 16) as int),
        ]
    } else {
        seq![c]
    }
}

/// A whole string escaped for use inside a JSON string literal.
pub open spec fn escape_spec(s: Seq<char>) -> Seq<char>
    decreases s.len(),
{
    if s.len() == 0 {
        Seq::empty()
    } else {
        escape_spec(s.drop_last()) + escape_char(s.last())
    }
}

/// The text of the `captured_at` field: the decimal timestamp, or `null`
/// where augmentation established none.
pub open spec fn captured_field(captured_at: Option<u64>) -> Seq<char> {
    match captured_at {
        Some(n) => dec_spec(n as int),
        None => "null"@,
    }
}

/// The payload stored for a resource with the given identifier, path and
/// capture timestamp.
pub open spec fn payload_of(id: Seq<char>, path: Seq<char>, captured_at: Option<u64>) -> Seq<
    char,
> {
    "{\"id\":\""@ + id + "\",\"path\":\""@ + escape_spec(path) + "\",\"captured_at\":"@
        + captured_field(captured_at) + "}"@
}

/// Appends the escaped form of one character to `s`.
fn push_escaped_char(s: &mut String, c: char)
    ensures
        final(s)@ == old(s)@ + escape_char(c),
{
    if c == '"' {
        s.push('\\');
        s.push('"');
    } else if c == '\\' {
        s.push('\\');
        s.push('\\');
    } else if (c as u32) < 32 {
        let v = c as u32;
        s.push('\\');
        s.push('u');
        s.push('0');
        s.push('0');
        s.push(digit_to_char(v / 16));
        s.push(digit_to_char(v % 16));
    } else {
        s.push(c);
    }
    proof {
        assert(final(s)@ =~= old(s)@ + escape_char(c));
    }
}

/// Appends the escaped form of a whole string to `s`.
fn push_escaped_str(s: &mut String, text: &str)
    ensures
        final(s)@ == old(s)@ + escape_spec(text@),
{
    let n = text.unicode_len();
    let mut i: usize = 0;
    proof {
        assert(old(s)@ + escape_spec(text@.take(0)) =~= old(s)@);
    }
    while i < n
        invariant
            n == text@.len(),
            i <= n,
            s@ == old(s)@ + escape_spec(text@.take(i as int)),
        decreases n - i,
    {
        let c = text.get_char(i);
        push_escaped_char(s, c);
        proof {
            assert(text@.take(i + 1 as int).drop_last() =~= text@.take(i as int));
            assert(text@.take(i + 1 as int).last() == text@[i as int]);
            assert((old(s)@ + escape_spec(text@.take(i as int))) + escape_char(text@[i as int])
                =~= old(s)@ + escape_spec(text@.take(i + 1 as int)));
        }
        i += 1;
    }
    proof {
        assert(text@.take(n as int) =~= text@);
    }
}

/// Serializes one resource to the payload installed in the store.
pub fn encode_resource(r: &Resource) -> (s: String)
    ensures
        s@ == payload_of(r.id@, r.path@, r.captured_at),
{
    let mut s = String::new();
    s.append("{\"id\":\"");
    s.append(r.id.as_str());
    s.append("\",\"path\":\"");
    push_escaped_str(&mut s, r.path.as_str());
    s.append("\",\"captured_at\":");
    match r.captured_at {
        Some(n) => push_decimal(&mut s, n),
        None => s.append("null"),
    }
    s.append("}");
    proof {
        assert(s@ =~= payload_of(r.id@, r.path@, r.captured_at));
    }
    s
}

} // verus!
