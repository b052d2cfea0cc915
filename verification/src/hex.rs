//! Bytes as hexadecimal text.

use vstd::prelude::*;

verus! {

/// The character of one hexadecimal digit.
pub open spec fn hex_digit(d: int) -> char {
    if d < 10 {
        ('0' as int + d) as char
    } else {
        ('a' as int + d - 10) as char
    }
}

/// Each byte as two lower-case hexadecimal digits.
pub open spec fn hex(bytes: Seq<u8>) -> Seq<char> {
    Seq::new(
        2 * bytes.len(),
        |i: int|
            hex_digit(
                if i % 2 == 0 {
                    bytes[i / 2] as int / 16
                } else {
                    bytes[i / 2] as int % 16
                },
            ),
    )
}

/// Whether a character is a lower-case hexadecimal digit.
pub open spec fn lower_hex(c: char) -> bool {
    ('0' <= c && c <= '9') || ('a' <= c && c <= 'f')
}

/// Whether every character is a lower-case hexadecimal digit.
pub open spec fn all_lower_hex(s: Seq<char>) -> bool {
    forall|i: int| 0 <= i < s.len() ==> lower_hex(#[trigger] s[i])
}

fn digit_char(d: u8) -> (r: char)
    requires
        d < 16,
    ensures
        r == hex_digit(d as int),
{
    if d < 10 {
        (48u8 + d) as char
    } else {
        (87u8 + d) as char
    }
}

/// Each byte as two lower-case hexadecimal digits.
pub fn hex_text(bytes: &[u8]) -> (r: String)
    ensures
        r@ == hex(bytes@),
{
    let mut r = String::new();
    let mut i: usize = 0;
    let ghost all = hex(bytes@);
    assert(r@ =~= all.take(0));
    while i < bytes.len()
        invariant
            i <= bytes@.len(),
            all == hex(bytes@),
            r@ == all.take(2 * i),
        decreases bytes@.len() - i,
    {
        let b: u8 = bytes[i];
        r.push(digit_char(b / 16));
        r.push(digit_char(b % 16));
        assert(all[2 * i] == hex_digit(b as int / 16));
        assert(all[2 * i + 1] == hex_digit(b as int % 16));
        assert(all.take(2 * (i + 1)) =~= all.take(2 * i).push(all[2 * i]).push(all[2 * i + 1]));
        i += 1;
    }
    assert(all.take(all.len() as int) =~= all);
    r
}

/// The text of bytes holds two lower-case digits for each.
pub proof fn law_hex_is_lower_case(bytes: Seq<u8>)
    ensures
        hex(bytes).len() == 2 * bytes.len(),
        all_lower_hex(hex(bytes)),
{
}

proof fn lemma_digits_differ(x: int, y: int)
    requires
        0 <= x < 16,
        0 <= y < 16,
        hex_digit(x) == hex_digit(y),
    ensures
        x == y,
{
    assert(hex_digit(x) as int == if x < 10 { 48 + x } else { 87 + x });
    assert(hex_digit(y) as int == if y < 10 { 48 + y } else { 87 + y });
}

/// Different bytes have different texts.
pub proof fn law_hex_tells_bytes_apart(a: Seq<u8>, b: Seq<u8>)
    requires
        hex(a) == hex(b),
    ensures
        a == b,
{
    assert(hex(a).len() == 2 * a.len());
    assert(hex(b).len() == 2 * b.len());
    assert forall|i: int| 0 <= i < a.len() implies a[i] == b[i] by {
        assert(hex(a)[2 * i] == hex_digit(a[i] as int / 16));
        assert(hex(b)[2 * i] == hex_digit(b[i] as int / 16));
        assert(hex(a)[2 * i + 1] == hex_digit(a[i] as int % 16));
        assert(hex(b)[2 * i + 1] == hex_digit(b[i] as int % 16));
        lemma_digits_differ(a[i] as int / 16, b[i] as int / 16);
        lemma_digits_differ(a[i] as int % 16, b[i] as int % 16);
    }
    assert(a =~= b);
}

} // verus!
