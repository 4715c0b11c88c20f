//! Characters and strings: the character classes of the grammar, decimal
//! numbers, and the link between character positions and UTF-8 offsets.
use vstd::prelude::*;
use vstd::std_specs::iter::IteratorSpec;
use vstd::utf8::{encode_utf8, encode_scalar, is_char_boundary, pop_first_scalar, length_of_first_scalar};

verus! {

/// The low byte of a character's code point (what `c as u8` keeps).
pub open spec fn low_byte(c: char) -> u8 {
    (c as u32 % 256) as u8
}

pub open spec fn alphabetic(b: u8) -> bool {
    (0x41 <= b && b <= 0x5A) || (0x61 <= b && b <= 0x7A)
}

pub open spec fn digit(b: u8) -> bool {
    0x30 <= b && b <= 0x39
}

pub open spec fn alphanumeric(b: u8) -> bool {
    alphabetic(b) || digit(b)
}

/// An ASCII letter, as nom's `is_alphabetic` decides it.
pub fn is_alphabetic(chr: u8) -> (r: bool)
    ensures
        r == alphabetic(chr),
{
    (chr >= 0x41 && chr <= 0x5A) || (chr >= 0x61 && chr <= 0x7A)
}

/// An ASCII decimal digit, as nom's `is_digit` decides it.
pub fn is_digit(chr: u8) -> (r: bool)
    ensures
        r == digit(chr),
{
    chr >= 0x30 && chr <= 0x39
}

/// An ASCII letter or digit, as nom's `is_alphanumeric` decides it.
pub fn is_alphanumeric(chr: u8) -> (r: bool)
    ensures
        r == alphanumeric(chr),
{
    is_alphabetic(chr) || is_digit(chr)
}

pub fn low_byte_of(c: char) -> (r: u8)
    ensures
        r == low_byte(c),
{
    (c as u32 % 256) as u8
}

/// The characters of `text`, in order.
pub fn chars_of(text: &str) -> (r: Vec<char>)
    ensures
        r@ == text@,
{
    broadcast use vstd::string::group_string_axioms;

    let mut it = text.chars();
    let mut v: Vec<char> = Vec::new();
    loop
        invariant
            v@ + it.remaining() == text@,
            it.decrease() is Some,
        ensures
            v@ == text@,
        decreases it.decrease()->0,
    {
        match it.next() {
            Some(c) => v.push(c),
            None => {
                assert(v@ =~= v@ + it.remaining());
                break ;
            },
        }
    }
    v
}

/// Relies on `String::push`: appends one character.
#[verifier::external_body]
pub(crate) fn push_char(s: &mut String, c: char)
    ensures
        final(s)@ == old(s)@.push(c),
{
    s.push(c);
}

/// The characters `s[from..to]` as a new string.
pub fn string_of(s: &Vec<char>, from: usize, to: usize) -> (r: String)
    requires
        from <= to <= s@.len(),
    ensures
        r@ == s@.subrange(from as int, to as int),
{
    let mut r = String::new();
    let mut i = from;
    while i < to
        invariant
            from <= i <= to <= s@.len(),
            r@ == s@.subrange(from as int, i as int),
        decreases to - i,
    {
        push_char(&mut r, s[i]);
        assert(s@.subrange(from as int, i + 1) =~= s@.subrange(from as int, i as int).push(s@[i as int]));
        i += 1;
    }
    r
}

/// The number that a string of decimal digits denotes.
pub open spec fn digits_value(d: Seq<char>) -> nat
    decreases d.len(),
{
    if d.len() == 0 {
        0
    } else {
        digits_value(d.drop_last()) * 10 + ((d.last() as u32 - '0' as u32) as nat)
    }
}

/// The decimal digits of `n`, without leading zeros (`0` for zero).
pub open spec fn decimal(n: nat) -> Seq<char>
    decreases n,
{
    if n < 10 {
        seq![('0' as u32 + n) as char]
    } else {
        decimal(n / 10).push(('0' as u32 + n % 10) as char)
    }
}

/// Length in bytes of the UTF-8 encoding of `s`.
pub open spec fn utf8_len(s: Seq<char>) -> nat {
    encode_utf8(s).len()
}

pub proof fn lemma_encode_utf8_concat(a: Seq<char>, b: Seq<char>)
    ensures
        encode_utf8(a + b) == encode_utf8(a) + encode_utf8(b),
    decreases a.len(),
{
    if a.len() == 0 {
        assert(a + b =~= b);
        assert(encode_utf8(a) + encode_utf8(b) =~= encode_utf8(b));
    } else {
        assert((a + b).drop_first() =~= a.drop_first() + b);
        lemma_encode_utf8_concat(a.drop_first(), b);
        assert(encode_utf8(a + b) =~= encode_utf8(a) + encode_utf8(b));
    }
}

/// Each prefix of a character sequence ends at a character boundary of its encoding.
pub proof fn lemma_prefix_is_boundary(s: Seq<char>, p: int)
    requires
        0 <= p <= s.len(),
    ensures
        is_char_boundary(encode_utf8(s), utf8_len(s.take(p)) as int),
        utf8_len(s.take(p)) <= utf8_len(s),
    decreases p,
{
    broadcast use vstd::utf8::encode_utf8_valid_utf8;

    assert(s =~= s.take(p) + s.skip(p));
    lemma_encode_utf8_concat(s.take(p), s.skip(p));
    if p > 0 {
        let bytes = encode_utf8(s);
        vstd::utf8::encode_utf8_first_scalar(s);
        assert(pop_first_scalar(bytes) =~= encode_utf8(s.drop_first()));
        assert(s.take(p).drop_first() =~= s.drop_first().take(p - 1));
        lemma_prefix_is_boundary(s.drop_first(), p - 1);
        assert(length_of_first_scalar(bytes) == encode_scalar(s[0] as u32).len());
    }
}

/// Number of bytes in the UTF-8 encoding of `c`.
pub fn utf8_width(c: char) -> (w: usize)
    ensures
        w == encode_scalar(c as u32).len(),
{
    let v = c as u32;
    if v <= 0x7F {
        1
    } else if v <= 0x7FF {
        2
    } else if v <= 0xFFFF {
        proof {
            vstd::utf8::char_is_scalar(c);
        }
        3
    } else {
        4
    }
}

/// Byte offset, in the UTF-8 encoding of `s`, of the character at position `p`.
pub fn utf8_offset(s: &Vec<char>, p: usize) -> (r: usize)
    requires
        p <= s@.len(),
        utf8_len(s@) <= usize::MAX,
    ensures
        r == utf8_len(s@.take(p as int)),
{
    let mut off: usize = 0;
    let mut i: usize = 0;
    while i < p
        invariant
            i <= p <= s@.len(),
            utf8_len(s@) <= usize::MAX,
            off == utf8_len(s@.take(i as int)),
        decreases p - i,
    {
        let c = s[i];
        let w = utf8_width(c);
        proof {
            assert(s@.take(i + 1) =~= s@.take(i as int) + seq![c]);
            lemma_encode_utf8_concat(s@.take(i as int), seq![c]);
            assert(seq![c].drop_first() =~= Seq::<char>::empty());
            assert(encode_utf8(seq![c].drop_first()) =~= Seq::<u8>::empty());
            assert(seq![c][0] == c);
            assert(encode_utf8(seq![c]) =~= encode_scalar(c as u32) + encode_utf8(seq![c].drop_first()));
            lemma_prefix_is_boundary(s@, i + 1);
        }
        off = off + w;
        i = i + 1;
    }
    off
}

} // verus!
