//! The stable resource identifier: a fingerprint derived deterministically
//! from the path a file was discovered under. Each character of the path is
//! rendered as six lowercase hexadecimal digits of its code point, so the
//! identifier depends on the path alone and is the same in every run.

use vstd::prelude::*;

use vstd::string::StrSliceExecFns;

use crate::text::digit_char;
use crate::text::digit_to_char;

verus! {

/// The six hexadecimal digits of one character's code point, most
/// significant first.
pub open spec fn char_hex(c: char) -> Seq<char> {
    let v = c as u32;
    seq![
        digit_char((v / 0x100000 % 16) as int),
        digit_char((v / 0x10000 % 16) as int),
        digit_char((v / 0x1000 % 16) as int),
        digit_char((v / 0x100 % 16) as int),
        digit_char((v / 0x10 % 16) as int),
        digit_char((v % 16) as int),
    ]
}

/// The identifier derived from a path: the concatenation of the six-digit
/// renderings of its characters.
pub open spec fn id_spec(path: Seq<char>) -> Seq<char>
    decreases path.len(),
{
    if path.len() == 0 {
        Seq::empty()
    } else {
        id_spec(path.drop_last()) + char_hex(path.last())
    }
}

/// Appends the six-digit rendering of `c` to `s`.
fn push_char_hex(s: &mut String, c: char)
    ensures
        final(s)@ == old(s)@ + char_hex(c),
{
    let v = c as u32;
    s.push(digit_to_char(v / 0x100000 % 16));
    s.push(digit_to_char(v / 0x10000 % 16));
    s.push(digit_to_char(v / 0x1000 % 16));
    s.push(digit_to_char(v / 0x100 % 16));
    s.push(digit_to_char(v / 0x10 % 16));
    s.push(digit_to_char(v % 16));
    proof {
        assert(final(s)@ =~= old(s)@ + char_hex(c));
    }
}

/// Computes the stable identifier for a path.
pub fn resource_id(path: &str) -> (r: String)
    ensures
        r@ == id_spec(path@),
{
    let mut r = String::new();
    let n = path.unicode_len();
    let mut i: usize = 0;
    while i < n
        invariant
            n == path@.len(),
            i <= n,
            r@ == id_spec(path@.take(i as int)),
        decreases n - i,
    {
        let c = path.get_char(i);
        push_char_hex(&mut r, c);
        proof {
            assert(path@.take(i + 1 as int).drop_last() =~= path@.take(i as int));
            assert(path@.take(i + 1 as int).last() == path@[i as int]);
        }
        i += 1;
    }
    proof {
        assert(path@.take(n as int) =~= path@);
    }
    r
}

/// Law: the identifier is stable. Re-scanning the same unmodified path in any
/// later run derives the same identifier again, because the identifier is a
/// function of the path's characters alone.
pub proof fn lemma_stable_identifier(p1: Seq<char>, p2: Seq<char>)
    requires
        p1 == p2,
    ensures
        id_spec(p1) == id_spec(p2),
{
}

/// Below sixteen, distinct digit values render as distinct characters.
proof fn lemma_digit_char_injective(v1: int, v2: int)
    requires
        0 <= v1 < 16,
        0 <= v2 < 16,
        digit_char(v1) == digit_char(v2),
    ensures
        v1 == v2,
{
}

/// Two characters with the same six-digit rendering are the same character.
proof fn lemma_char_hex_injective(c1: char, c2: char)
    requires
        char_hex(c1) == char_hex(c2),
    ensures
        c1 == c2,
{
    vstd::utf8::char_is_scalar(c1);
    vstd::utf8::char_is_scalar(c2);
    let v1 = c1 as u32;
    let v2 = c2 as u32;
    assert(char_hex(c1)[0] == char_hex(c2)[0]);
    assert(char_hex(c1)[1] == char_hex(c2)[1]);
    assert(char_hex(c1)[2] == char_hex(c2)[2]);
    assert(char_hex(c1)[3] == char_hex(c2)[3]);
    assert(char_hex(c1)[4] == char_hex(c2)[4]);
    assert(char_hex(c1)[5] == char_hex(c2)[5]);
    lemma_digit_char_injective((v1 / 0x100000 % 16) as int, (v2 / 0x100000 % 16) as int);
    lemma_digit_char_injective((v1 / 0x10000 % 16) as int, (v2 / 0x10000 % 16) as int);
    lemma_digit_char_injective((v1 / 0x1000 % 16) as int, (v2 / 0x1000 % 16) as int);
    lemma_digit_char_injective((v1 / 0x100 % 16) as int, (v2 / 0x100 % 16) as int);
    lemma_digit_char_injective((v1 / 0x10 % 16) as int, (v2 / 0x10 % 16) as int);
    lemma_digit_char_injective((v1 % 16) as int, (v2 % 16) as int);
    assert(v1 == v2) by (bit_vector)
        requires
            v1 / 0x100000 % 16 == v2 / 0x100000 % 16,
            v1 / 0x10000 % 16 == v2 / 0x10000 % 16,
            v1 / 0x1000 % 16 == v2 / 0x1000 % 16,
            v1 / 0x100 % 16 == v2 / 0x100 % 16,
            v1 / 0x10 % 16 == v2 / 0x10 % 16,
            v1 % 16 == v2 % 16,
            v1 < 0x110000,
            v2 < 0x110000,
    ;
    vstd::utf8::char_u32_cast(c1, v1);
    vstd::utf8::char_u32_cast(c2, v2);
}

/// An identifier determines the length of the path it came from.
proof fn lemma_id_spec_len(p: Seq<char>)
    ensures
        id_spec(p).len() == 6 * p.len(),
    decreases p.len(),
{
    if p.len() > 0 {
        lemma_id_spec_len(p.drop_last());
    }
}

/// Law: the identifier is injective. Two paths with the same identifier are
/// the same path, so an identifier collision between two distinct files is
/// impossible and the last-write-wins assembly policy can only ever merge a
/// file with itself.
pub proof fn lemma_id_injective(p1: Seq<char>, p2: Seq<char>)
    requires
        id_spec(p1) == id_spec(p2),
    ensures
        p1 == p2,
    decreases p1.len(),
{
    lemma_id_spec_len(p1);
    lemma_id_spec_len(p2);
    assert(p1.len() == p2.len());
    if p1.len() == 0 {
        assert(p1 =~= p2);
    } else {
        let a1 = id_spec(p1.drop_last());
        let b1 = char_hex(p1.last());
        let a2 = id_spec(p2.drop_last());
        let b2 = char_hex(p2.last());
        lemma_id_spec_len(p1.drop_last());
        lemma_id_spec_len(p2.drop_last());
        assert(a1 =~= (a1 + b1).subrange(0, a1.len() as int));
        assert(a2 =~= (a2 + b2).subrange(0, a2.len() as int));
        assert(b1 =~= (a1 + b1).subrange(a1.len() as int, (a1 + b1).len() as int));
        assert(b2 =~= (a2 + b2).subrange(a2.len() as int, (a2 + b2).len() as int));
        lemma_char_hex_injective(p1.last(), p2.last());
        lemma_id_injective(p1.drop_last(), p2.drop_last());
        assert forall|i: int| 0 <= i < p1.len() implies p1[i] == p2[i] by {
            if i < p1.len() - 1 {
                assert(p1.drop_last()[i] == p1[i]);
                assert(p2.drop_last()[i] == p2[i]);
            } else {
                assert(p1.last() == p2.last());
            }
        }
        assert(p1 =~= p2);
    }
}

} // verus!
