//! Byte and text encodings used to build hash inputs and hash strings:
//! decimal rendering of integers, lowercase hexadecimal rendering of bytes.

use vstd::prelude::*;
use vstd::utf8::{encode_utf8, encode_utf8_decode_utf8};

verus! {

/// The ASCII code of the decimal digit `d` (`d < 10`).
pub open spec fn decimal_digit(d: nat) -> u8 {
    (48 + d) as u8
}

/// The ASCII bytes of the decimal rendering of `n`, without sign or leading zeros,
/// as `format!("{}", n)` writes it.
pub open spec fn decimal(n: nat) -> Seq<u8>
    decreases n,
{
    if n < 10 {
        seq![decimal_digit(n)]
    } else {
        decimal(n / 10).push(decimal_digit(n % 10))
    }
}

/// The character that renders the nibble `d` (`d < 16`) in lowercase hexadecimal.
pub open spec fn hex_digit(d: nat) -> char {
    if d < 10 {
        (48 + d) as char
    } else {
        (87 + d) as char
    }
}

/// The lowercase hexadecimal rendering of `bytes`: two characters per byte,
/// high nibble first.
pub open spec fn hex_chars(bytes: Seq<u8>) -> Seq<char>
    decreases bytes.len(),
{
    if bytes.len() == 0 {
        Seq::empty()
    } else {
        let b = bytes.last();
        hex_chars(bytes.drop_last()) + seq![hex_digit(b as nat / 16), hex_digit(b as nat % 16)]
    }
}

/// Every rendering has two characters per byte.
pub proof fn lemma_hex_chars_len(bytes: Seq<u8>)
    ensures
        hex_chars(bytes).len() == 2 * bytes.len(),
    decreases bytes.len(),
{
    if bytes.len() > 0 {
        lemma_hex_chars_len(bytes.drop_last());
    }
}

/// The sixteen lowercase hexadecimal digits, in order of value.
pub open spec fn lower_hex_alphabet() -> Seq<char> {
    seq!['0', '1', '2', '3', '4', '5', '6', '7', '8', '9', 'a', 'b', 'c', 'd', 'e', 'f']
}

/// The number that a string of ASCII decimal digits spells, most significant
/// digit first.
pub open spec fn digits_value(s: Seq<u8>) -> int
    decreases s.len(),
{
    if s.len() == 0 {
        0
    } else {
        digits_value(s.drop_last()) * 10 + (s.last() - 48)
    }
}

/// Decimal rendering: `decimal(n)` is a non-empty string of ASCII digits
/// without a leading zero (unless `n` is zero) that spells `n`.
pub proof fn lemma_decimal_spells_value(n: nat)
    ensures
        decimal(n).len() >= 1,
        forall|i: int| 0 <= i < decimal(n).len() ==> 48 <= #[trigger] decimal(n)[i] <= 57,
        digits_value(decimal(n)) == n,
        decimal(n)[0] == 48 ==> n == 0,
    decreases n,
{
    if n >= 10 {
        let m = n / 10;
        lemma_decimal_spells_value(m);
        assert(decimal(n).drop_last() =~= decimal(m));
        assert(m * 10 + n % 10 == n);
        assert(decimal(n)[0] == decimal(m)[0]);
        assert(decimal(n).last() == (48 + n % 10) as u8);
        assert(digits_value(decimal(n)) == digits_value(decimal(m)) * 10 + (n % 10));
        assert(digits_value(decimal(n)) == n);
    } else {
        assert(decimal(n).drop_last() =~= Seq::<u8>::empty());
        assert(decimal(n).last() == (48 + n) as u8);
        assert(digits_value(Seq::<u8>::empty()) == 0);
        assert(digits_value(decimal(n)) == n);
    }
}

/// Different numbers have different decimal renderings.
pub proof fn lemma_decimal_injective(a: nat, b: nat)
    requires
        decimal(a) == decimal(b),
    ensures
        a == b,
{
    lemma_decimal_spells_value(a);
    lemma_decimal_spells_value(b);
}

/// The character of a nibble is the nibble's entry in the lowercase alphabet.
pub proof fn lemma_hex_digit_in_alphabet(d: nat)
    requires
        d < 16,
    ensures
        hex_digit(d) == lower_hex_alphabet()[d as int],
{
    if d == 0 { assert(hex_digit(0) == '0'); }
    else if d == 1 { assert(hex_digit(1) == '1'); }
    else if d == 2 { assert(hex_digit(2) == '2'); }
    else if d == 3 { assert(hex_digit(3) == '3'); }
    else if d == 4 { assert(hex_digit(4) == '4'); }
    else if d == 5 { assert(hex_digit(5) == '5'); }
    else if d == 6 { assert(hex_digit(6) == '6'); }
    else if d == 7 { assert(hex_digit(7) == '7'); }
    else if d == 8 { assert(hex_digit(8) == '8'); }
    else if d == 9 { assert(hex_digit(9) == '9'); }
    else if d == 10 { assert(hex_digit(10) == 'a'); }
    else if d == 11 { assert(hex_digit(11) == 'b'); }
    else if d == 12 { assert(hex_digit(12) == 'c'); }
    else if d == 13 { assert(hex_digit(13) == 'd'); }
    else if d == 14 { assert(hex_digit(14) == 'e'); }
    else { assert(hex_digit(15) == 'f'); }
}

/// Hex rendering: byte `k` becomes characters `2k` and `2k + 1`, the
/// lowercase digits of its high and its low nibble.
pub proof fn lemma_hex_chars_spell_bytes(bytes: Seq<u8>)
    ensures
        hex_chars(bytes).len() == 2 * bytes.len(),
        forall|k: int|
            0 <= k < bytes.len() ==> {
                &&& hex_chars(bytes)[2 * k] == lower_hex_alphabet()[#[trigger] bytes[k] as int / 16]
                &&& hex_chars(bytes)[2 * k + 1] == lower_hex_alphabet()[bytes[k] as int % 16]
            },
    decreases bytes.len(),
{
    if bytes.len() > 0 {
        let front = bytes.drop_last();
        lemma_hex_chars_spell_bytes(front);
        let b = bytes.last();
        lemma_hex_digit_in_alphabet(b as nat / 16);
        lemma_hex_digit_in_alphabet(b as nat % 16);
        assert forall|k: int| 0 <= k < bytes.len() implies {
            &&& hex_chars(bytes)[2 * k] == lower_hex_alphabet()[#[trigger] bytes[k] as int / 16]
            &&& hex_chars(bytes)[2 * k + 1] == lower_hex_alphabet()[bytes[k] as int % 16]
        } by {
            if k < front.len() {
                assert(bytes[k] == front[k]);
            }
        }
    }
}

/// Appends `c` to `s` with `String::push`. Trusted: the string afterwards is the
/// old string followed by `c`, as the standard library documents.
#[verifier::external_body]
fn push_char(s: &mut String, c: char)
    ensures
        final(s)@ == old(s)@.push(c),
{
    s.push(c);
}

/// The character of the nibble `d`.
fn hex_digit_char(d: u8) -> (c: char)
    requires
        d < 16,
    ensures
        c == hex_digit(d as nat),
{
    if d < 10 {
        (48u8 + d) as char
    } else {
        (87u8 + d) as char
    }
}

/// Renders `bytes` in lowercase hexadecimal, two characters per byte.
pub fn hex_encode(bytes: &[u8]) -> (res: String)
    ensures
        res@ == hex_chars(bytes@),
{
    let mut res = String::new();
    let mut i: usize = 0;
    while i < bytes.len()
        invariant
            i <= bytes@.len(),
            res@ == hex_chars(bytes@.subrange(0, i as int)),
        decreases bytes@.len() - i,
    {
        let b = bytes[i];
        push_char(&mut res, hex_digit_char(b / 16));
        push_char(&mut res, hex_digit_char(b % 16));
        assert(bytes@.subrange(0, i + 1).drop_last() =~= bytes@.subrange(0, i as int));
        i = i + 1;
    }
    assert(bytes@.subrange(0, bytes@.len() as int) =~= bytes@);
    res
}

/// The decimal rendering of `n` as ASCII bytes.
pub fn decimal_bytes(n: u128) -> (res: Vec<u8>)
    ensures
        res@ == decimal(n as nat),
{
    let mut m: u128 = n;
    let mut acc: Vec<u8> = Vec::new();
    while m >= 10
        invariant
            decimal(n as nat) == decimal(m as nat) + acc@,
        decreases m,
    {
        let d: u8 = (m % 10) as u8;
        acc.insert(0, 48u8 + d);
        assert(decimal(m as nat) == decimal((m / 10) as nat).push(decimal_digit((m % 10) as nat)));
        m = m / 10;
    }
    acc.insert(0, 48u8 + (m as u8));
    acc
}

/// Appends the bytes of `src` to `dst`.
pub fn append_bytes(dst: &mut Vec<u8>, src: &[u8])
    ensures
        final(dst)@ == old(dst)@ + src@,
{
    let mut i: usize = 0;
    while i < src.len()
        invariant
            i <= src@.len(),
            dst@ == old(dst)@ + src@.subrange(0, i as int),
        decreases src@.len() - i,
    {
        dst.push(src[i]);
        assert(src@.subrange(0, i + 1) =~= src@.subrange(0, i as int).push(src@[i as int]));
        i = i + 1;
    }
    assert(src@.subrange(0, src@.len() as int) =~= src@);
}

/// Compares two strings character by character.
pub fn str_eq(a: &str, b: &str) -> (res: bool)
    ensures
        res == (a@ == b@),
{
    let x = a.as_bytes();
    let y = b.as_bytes();
    proof {
        encode_utf8_decode_utf8(a@);
        encode_utf8_decode_utf8(b@);
    }
    if x.len() != y.len() {
        return false;
    }
    let mut i: usize = 0;
    while i < x.len()
        invariant
            x@ == encode_utf8(a@),
            y@ == encode_utf8(b@),
            x@.len() == y@.len(),
            i <= x@.len(),
            forall|j: int| 0 <= j < i ==> x@[j] == y@[j],
        decreases x@.len() - i,
    {
        if x[i] != y[i] {
            return false;
        }
        i = i + 1;
    }
    assert(x@ =~= y@);
    true
}

} // verus!
