//! Character-level text building blocks: hexadecimal and decimal digits,
//! and appending single characters to strings.
use vstd::prelude::*;
use vstd::string::StringExecFns;

verus! {

/// The hexadecimal digit for one value below sixteen; for values below
/// ten this is also the decimal digit.
pub open spec fn hex_char(n: u8) -> char
    recommends
        n < 16,
{
    if n == 0 { '0' } else if n == 1 { '1' } else if n == 2 { '2' } else if n == 3 { '3' }
    else if n == 4 { '4' } else if n == 5 { '5' } else if n == 6 { '6' } else if n == 7 { '7' }
    else if n == 8 { '8' } else if n == 9 { '9' } else if n == 10 { 'a' } else if n == 11 { 'b' }
    else if n == 12 { 'c' } else if n == 13 { 'd' } else if n == 14 { 'e' } else { 'f' }
}

/// The two lowercase hexadecimal digits of one byte.
pub open spec fn byte_hex(b: u8) -> Seq<char> {
    seq![hex_char(b / 16), hex_char(b % 16)]
}

/// The lowercase hexadecimal digits of a byte sequence.
pub open spec fn bytes_hex(s: Seq<u8>) -> Seq<char>
    decreases s.len(),
{
    if s.len() == 0 {
        Seq::empty()
    } else {
        byte_hex(s[0]) + bytes_hex(s.drop_first())
    }
}

/// The decimal digits of a non-negative number, most significant first,
/// without leading zeros.
pub open spec fn dec_chars(n: int) -> Seq<char>
    recommends
        n >= 0,
    decreases n,
{
    if n < 10 {
        seq![hex_char(n as u8)]
    } else {
        dec_chars(n / 10) + seq![hex_char((n % 10) as u8)]
    }
}

/// A hexadecimal rendering has two digits per byte.
pub proof fn lemma_bytes_hex_len(s: Seq<u8>)
    ensures
        bytes_hex(s).len() == 2 * s.len(),
    decreases s.len(),
{
    if s.len() > 0 {
        lemma_bytes_hex_len(s.drop_first());
    }
}

/// Whether a character is a decimal digit.
pub open spec fn is_digit(c: char) -> bool {
    c == '0' || c == '1' || c == '2' || c == '3' || c == '4' || c == '5' || c == '6' || c == '7'
        || c == '8' || c == '9'
}

/// The shape of a decimal numeral: at least one character, every one a
/// digit, and no leading zero unless the number is zero itself.
pub proof fn lemma_dec_chars_shape(n: int)
    requires
        n >= 0,
    ensures
        dec_chars(n).len() >= 1,
        forall|i: int| 0 <= i < dec_chars(n).len() ==> is_digit(#[trigger] dec_chars(n)[i]),
        n >= 1 ==> dec_chars(n)[0] != '0',
        n < 10 ==> dec_chars(n).len() == 1,
    decreases n,
{
    if n < 10 {
    } else {
        lemma_dec_chars_shape(n / 10);
        assert forall|i: int| 0 <= i < dec_chars(n).len() implies is_digit(
            #[trigger] dec_chars(n)[i],
        ) by {
            if i < dec_chars(n / 10).len() {
                assert(dec_chars(n)[i] == dec_chars(n / 10)[i]);
            } else {
                assert(dec_chars(n)[i] == hex_char((n % 10) as u8));
            }
        }
        assert(dec_chars(n)[0] == dec_chars(n / 10)[0]);
    }
}

/// Two numbers with the same numeral are the same number.
pub proof fn lemma_dec_chars_injective(a: int, b: int)
    requires
        a >= 0,
        b >= 0,
        dec_chars(a) == dec_chars(b),
    ensures
        a == b,
    decreases a,
{
    lemma_dec_chars_shape(a);
    lemma_dec_chars_shape(b);
    if a < 10 && b < 10 {
        assert(dec_chars(a)[0] == hex_char(a as u8));
        assert(dec_chars(b)[0] == hex_char(b as u8));
    } else if a < 10 {
        assert(dec_chars(b).len() == dec_chars(b / 10).len() + 1);
        lemma_dec_chars_shape(b / 10);
    } else if b < 10 {
        assert(dec_chars(a).len() == dec_chars(a / 10).len() + 1);
        lemma_dec_chars_shape(a / 10);
    } else {
        assert(dec_chars(a).drop_last() =~= dec_chars(a / 10));
        assert(dec_chars(b).drop_last() =~= dec_chars(b / 10));
        assert(dec_chars(a).last() == hex_char((a % 10) as u8));
        assert(dec_chars(b).last() == hex_char((b % 10) as u8));
        assert(a % 10 == b % 10);
        lemma_dec_chars_injective(a / 10, b / 10);
    }
}

/// Every nonempty prefix of a numeral is itself the numeral of a number
/// no greater than the original.
pub proof fn lemma_dec_prefix_le(v: int, k: int)
    requires
        v >= 0,
        1 <= k <= dec_chars(v).len(),
    ensures
        exists|w: int| 0 <= w <= v && dec_chars(v).take(k) == dec_chars(#[trigger] (w + 0)),
    decreases v,
{
    lemma_dec_chars_shape(v);
    if k == dec_chars(v).len() {
        assert(dec_chars(v).take(k) =~= dec_chars(v));
        assert(0 <= v <= v && dec_chars(v).take(k) == dec_chars(v + 0));
    } else {
        assert(v >= 10);
        assert(dec_chars(v).take(k) =~= dec_chars(v / 10).take(k));
        lemma_dec_prefix_le(v / 10, k);
        let w = choose|w: int| 0 <= w <= v / 10 && dec_chars(v / 10).take(k) == dec_chars(
            #[trigger] (w + 0),
        );
        assert(0 <= w <= v && dec_chars(v).take(k) == dec_chars(w + 0));
    }
}

/// Relies on `std::string::String::push`: appends exactly the one
/// character.
#[verifier::external_body]
pub fn push_char(s: &mut String, c: char)
    ensures
        final(s)@ == old(s)@ + seq![c],
{
    s.push(c);
}

pub proof fn lemma_bytes_hex_push(s: Seq<u8>, b: u8)
    ensures
        bytes_hex(s.push(b)) == bytes_hex(s) + byte_hex(b),
    decreases s.len(),
{
    if s.len() == 0 {
        assert(s.push(b).drop_first() =~= s);
        assert(s.push(b)[0] == b);
        assert(bytes_hex(s.push(b)) == byte_hex(b) + bytes_hex(s));
        assert(byte_hex(b) + bytes_hex(s) =~= byte_hex(b));
        assert(bytes_hex(s) + byte_hex(b) =~= byte_hex(b));
    } else {
        assert(s.push(b).drop_first() =~= s.drop_first().push(b));
        lemma_bytes_hex_push(s.drop_first(), b);
        assert(bytes_hex(s.push(b)) =~= bytes_hex(s) + byte_hex(b));
    }
}

/// Relies on `char::from_u32`: the character with this scalar value,
/// present for every value below the surrogate range.
#[verifier::external_body]
pub fn char_from_u32(v: u32) -> (r: Option<char>)
    ensures
        r matches Some(c) ==> c as u32 == v,
        v < 0xD800 ==> r is Some,
{
    char::from_u32(v)
}

/// Appends one hexadecimal (or decimal, below ten) digit.
pub fn push_hex_digit(s: &mut String, n: u8)
    requires
        n < 16,
    ensures
        final(s)@ == old(s)@ + seq![hex_char(n)],
{
    let c: char = if n == 0 { '0' } else if n == 1 { '1' } else if n == 2 { '2' }
    else if n == 3 { '3' } else if n == 4 { '4' } else if n == 5 { '5' } else if n == 6 { '6' }
    else if n == 7 { '7' } else if n == 8 { '8' } else if n == 9 { '9' } else if n == 10 { 'a' }
    else if n == 11 { 'b' } else if n == 12 { 'c' } else if n == 13 { 'd' } else if n == 14 { 'e' }
    else { 'f' };
    push_char(s, c);
}

/// Appends the two hexadecimal digits of one byte.
pub fn push_byte_hex(s: &mut String, b: u8)
    ensures
        final(s)@ == old(s)@ + byte_hex(b),
{
    push_hex_digit(s, b / 16);
    push_hex_digit(s, b % 16);
}

/// Appends the hexadecimal form of a byte range.
pub fn push_bytes_hex(s: &mut String, b: &Vec<u8>, from: usize, to: usize)
    requires
        from <= to <= b@.len(),
    ensures
        final(s)@ == old(s)@ + bytes_hex(b@.subrange(from as int, to as int)),
{
    let mut i: usize = from;
    while i < to
        invariant
            from <= i <= to <= b@.len(),
            s@ == old(s)@ + bytes_hex(b@.subrange(from as int, i as int)),
        decreases to - i,
    {
        push_byte_hex(s, b[i]);
        proof {
            let pre = b@.subrange(from as int, i as int);
            let post = b@.subrange(from as int, i + 1 as int);
            assert(post.drop_last() =~= pre);
            assert(post.last() == b@[i as int]);
            lemma_bytes_hex_push(pre, b@[i as int]);
            assert(post =~= pre.push(b@[i as int]));
        }
        i = i + 1;
    }
    proof {
        assert(b@.subrange(from as int, to as int) =~= b@.subrange(from as int, i as int));
    }
}

/// Appends the decimal form of a number.
pub fn push_u64(s: &mut String, n: u64)
    ensures
        final(s)@ == old(s)@ + dec_chars(n as int),
    decreases n,
{
    if n < 10 {
        push_hex_digit(s, n as u8);
    } else {
        push_u64(s, n / 10);
        push_hex_digit(s, (n % 10) as u8);
    }
}

} // verus!
