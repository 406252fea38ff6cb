//! Decimal and percent-encoded renderings of numbers and bytes, and the
//! passage from ASCII bytes to `String`.
use vstd::prelude::*;
use vstd::utf8::*;

verus! {

/// The ASCII digit for `d` in `0..10`.
pub open spec fn digit(d: int) -> u8 {
    (48 + d) as u8
}

/// Decimal digits of `n`, most significant first, without leading zeros.
pub open spec fn decimal(n: nat) -> Seq<u8>
    decreases n,
{
    if n < 10 {
        seq![digit(n as int)]
    } else {
        decimal(n / 10).push(digit((n % 10) as int))
    }
}

/// The uppercase hexadecimal digit for `v` in `0..16`.
pub open spec fn hex_digit(v: int) -> u8 {
    if v < 10 {
        (48 + v) as u8
    } else {
        (55 + v) as u8
    }
}

/// An uppercase hexadecimal digit: `0-9` or `A-F`.
pub open spec fn is_upper_hex(c: u8) -> bool {
    (48 <= c <= 57) || (65 <= c <= 70)
}

/// The value of an uppercase hexadecimal digit.
pub open spec fn hex_value(c: u8) -> int {
    if c <= 57 {
        c - 48
    } else {
        c - 55
    }
}

/// The `%XX` escape of one byte.
pub open spec fn escape(b: u8) -> Seq<u8> {
    seq![37u8, hex_digit(b as int / 16), hex_digit(b as int % 16)]
}

/// Every byte escaped, in order.
pub open spec fn percent_encoded(s: Seq<u8>) -> Seq<u8>
    decreases s.len(),
{
    if s.len() == 0 {
        seq![]
    } else {
        percent_encoded(s.drop_last()) + escape(s.last())
    }
}

/// Bytes below 128.
pub open spec fn is_ascii_bytes(s: Seq<u8>) -> bool {
    forall|i: int| 0 <= i < s.len() ==> s[i] < 128
}

/// The characters that ASCII bytes stand for.
pub open spec fn ascii_chars(s: Seq<u8>) -> Seq<char> {
    Seq::new(s.len(), |i: int| (s[i] as u32) as char)
}

/// Every byte value has an escape of exactly three bytes: `%` and two
/// uppercase hexadecimal digits that read back as the byte.
pub proof fn lemma_escape_exact(b: u8)
    ensures
        escape(b).len() == 3,
        escape(b)[0] == 37u8,
        is_upper_hex(escape(b)[1]),
        is_upper_hex(escape(b)[2]),
        hex_value(escape(b)[1]) * 16 + hex_value(escape(b)[2]) == b,
{
}

/// The percent-encoding of `s` is three bytes per input byte, each triple
/// being the escape of that byte.
pub proof fn lemma_percent_encoded_layout(s: Seq<u8>)
    ensures
        percent_encoded(s).len() == 3 * s.len(),
        forall|i: int|
            0 <= i < s.len() ==> #[trigger] percent_encoded(s).subrange(3 * i, 3 * i + 3)
                == escape(s[i]),
    decreases s.len(),
{
    if s.len() > 0 {
        let p = s.drop_last();
        lemma_percent_encoded_layout(p);
        assert forall|i: int| 0 <= i < s.len() implies #[trigger] percent_encoded(s).subrange(
            3 * i,
            3 * i + 3,
        ) == escape(s[i]) by {
            if i < p.len() {
                assert(percent_encoded(s).subrange(3 * i, 3 * i + 3) =~= percent_encoded(p).subrange(
                    3 * i,
                    3 * i + 3,
                ));
            } else {
                assert(percent_encoded(s).subrange(3 * i, 3 * i + 3) =~= escape(s.last()));
            }
        }
    }
}

/// The decimal rendering of a number is made of ASCII digits.
pub proof fn lemma_decimal_ascii(n: nat)
    ensures
        is_ascii_bytes(decimal(n)),
        decimal(n).len() >= 1,
    decreases n,
{
    if n >= 10 {
        lemma_decimal_ascii(n / 10);
    }
}

/// The percent-encoding of any bytes is ASCII.
pub proof fn lemma_percent_encoded_ascii(s: Seq<u8>)
    ensures
        is_ascii_bytes(percent_encoded(s)),
    decreases s.len(),
{
    if s.len() > 0 {
        lemma_percent_encoded_ascii(s.drop_last());
    }
}

proof fn lemma_ascii_byte_bits(b: u8)
    requires
        b < 128,
    ensures
        (b & 0x7F) as u32 == b as u32,
{
    assert(b < 128 ==> (b & 0x7F) as u32 == b as u32) by (bit_vector);
}

/// ASCII bytes are valid UTF-8 and decode to one character per byte.
pub proof fn lemma_ascii_utf8(s: Seq<u8>)
    requires
        is_ascii_bytes(s),
    ensures
        valid_utf8(s),
        decode_utf8(s) == ascii_chars(s),
    decreases s.len(),
{
    if s.len() > 0 {
        lemma_ascii_byte_bits(s[0]);
        let rest = s.subrange(1, s.len() as int);
        assert(pop_first_scalar(s) =~= rest);
        lemma_ascii_utf8(rest);
        assert(decode_utf8(s) =~= ascii_chars(s));
    }
}

/// Appends the decimal digits of `n` to `out`.
pub(crate) fn push_decimal(out: &mut Vec<u8>, n: u64)
    ensures
        final(out)@ == old(out)@ + decimal(n as nat),
    decreases n,
{
    if n >= 10 {
        push_decimal(out, n / 10);
    }
    out.push((48 + n % 10) as u8);
    assert(n < 10 ==> decimal(n as nat) =~= seq![digit(n as int)]);
}

/// Appends `%XX` for every byte of `src`.
pub(crate) fn push_percent_encoded(out: &mut Vec<u8>, src: &[u8])
    ensures
        final(out)@ == old(out)@ + percent_encoded(src@),
{
    let ghost init = out@;
    let mut i: usize = 0;
    while i < src.len()
        invariant
            i <= src@.len(),
            out@ == init + percent_encoded(src@.subrange(0, i as int)),
        decreases src@.len() - i,
    {
        let b = src[i];
        let hi = b / 16;
        let lo = b % 16;
        out.push(37u8);
        out.push(if hi < 10 { 48 + hi } else { 55 + hi });
        out.push(if lo < 10 { 48 + lo } else { 55 + lo });
        i = i + 1;
        assert(src@.subrange(0, i as int).drop_last() =~= src@.subrange(0, (i - 1) as int));
        assert(out@ =~= init + percent_encoded(src@.subrange(0, i as int)));
    }
    assert(src@.subrange(0, src@.len() as int) =~= src@);
}

/// The bytes of `s` percent-encoded, as a new vector.
pub fn percent_encode(s: &[u8]) -> (r: Vec<u8>)
    ensures
        r@ == percent_encoded(s@),
{
    let mut r: Vec<u8> = Vec::new();
    push_percent_encoded(&mut r, s);
    assert(r@ =~= percent_encoded(s@));
    r
}

/// Relies on `String::from_utf8`: it succeeds exactly on valid UTF-8, and
/// the string then holds the characters those bytes encode.
#[verifier::external_body]
pub(crate) fn string_from_utf8(bytes: Vec<u8>) -> (r: Option<String>)
    ensures
        r is Some <==> valid_utf8(bytes@),
        r matches Some(s) ==> s@ == decode_utf8(bytes@),
{
    String::from_utf8(bytes).ok()
}

/// A `String` holding the characters of ASCII bytes.
pub(crate) fn ascii_string(bytes: Vec<u8>) -> (r: String)
    requires
        is_ascii_bytes(bytes@),
    ensures
        r@ == ascii_chars(bytes@),
{
    proof {
        lemma_ascii_utf8(bytes@);
    }
    match string_from_utf8(bytes) {
        Some(s) => s,
        None => {
            assert(false);
            String::new()
        },
    }
}

} // verus!

verus! {

/// The decimal text of `n`.
pub fn decimal_string(n: u64) -> (r: String)
    ensures
        r@ == ascii_chars(decimal(n as nat)),
{
    let mut d: Vec<u8> = Vec::new();
    push_decimal(&mut d, n);
    proof {
        lemma_decimal_ascii(n as nat);
        assert(d@ =~= decimal(n as nat));
    }
    ascii_string(d)
}

/// The text that UTF-8 bytes encode; `None` when they are not valid UTF-8.
pub fn utf8_text(bytes: &Vec<u8>) -> (r: Option<String>)
    ensures
        r is Some <==> valid_utf8(bytes@),
        r matches Some(s) ==> s@ == decode_utf8(bytes@),
{
    string_from_utf8(bytes.clone())
}

} // verus!
