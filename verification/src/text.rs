//! Text building blocks: decimal and hexadecimal digits, and the few
//! standard-library and `alloy_primitives` calls that produce them.

use vstd::prelude::*;

verus! {

/// The decimal digit character for `d` (`d < 10`).
pub open spec fn decimal_digit(d: nat) -> char {
    if d == 0 { '0' }
    else if d == 1 { '1' }
    else if d == 2 { '2' }
    else if d == 3 { '3' }
    else if d == 4 { '4' }
    else if d == 5 { '5' }
    else if d == 6 { '6' }
    else if d == 7 { '7' }
    else if d == 8 { '8' }
    else { '9' }
}

/// The decimal representation of `n`, most significant digit first, without
/// leading zeros (`0` is written `"0"`).
pub open spec fn decimal(n: nat) -> Seq<char>
    decreases n,
{
    if n < 10 {
        seq![decimal_digit(n)]
    } else {
        decimal(n / 10).push(decimal_digit(n % 10))
    }
}

/// The lower-case hexadecimal digit for `d` (`d < 16`).
pub open spec fn hex_digit(d: nat) -> char {
    if d < 10 { decimal_digit(d) }
    else if d == 10 { 'a' }
    else if d == 11 { 'b' }
    else if d == 12 { 'c' }
    else if d == 13 { 'd' }
    else if d == 14 { 'e' }
    else { 'f' }
}

/// Lower-case hexadecimal encoding of `bytes`: two digits per byte, high
/// nibble first, no prefix.
pub open spec fn hex_lower(bytes: Seq<u8>) -> Seq<char> {
    Seq::new(
        2 * bytes.len(),
        |i: int|
            if i % 2 == 0 {
                hex_digit((bytes[i / 2] / 16) as nat)
            } else {
                hex_digit((bytes[i / 2] % 16) as nat)
            },
    )
}

/// `n` copies of `unit` one after the other.
pub open spec fn repeat(unit: Seq<char>, n: nat) -> Seq<char>
    decreases n,
{
    if n == 0 {
        Seq::empty()
    } else {
        repeat(unit, (n - 1) as nat) + unit
    }
}

/// `String::push` of the standard library: appends one character.
#[verifier::external_body]
pub(crate) fn push_char(s: &mut String, c: char)
    ensures
        final(s)@ == old(s)@.push(c),
{
    s.push(c);
}

/// `alloy_primitives::hex::encode`: the lower-case hexadecimal digits of
/// `bytes`, two per byte, without a `0x` prefix.
#[verifier::external_body]
pub(crate) fn hex_encode(bytes: &[u8]) -> (r: String)
    ensures
        r@ == hex_lower(bytes@),
{
    alloy_primitives::hex::encode(bytes)
}

/// The value of the hexadecimal digit `c` (`0`-`9`, `a`-`f`, `A`-`F`), or -1
/// when `c` is not one.
pub open spec fn hex_nibble(c: char) -> int {
    let v = c as int;
    if 48 <= v <= 57 {
        v - 48
    } else if 97 <= v <= 102 {
        v - 87
    } else if 65 <= v <= 70 {
        v - 55
    } else {
        -1
    }
}

/// `s` without a leading `0x` or `0X`.
pub open spec fn without_hex_prefix(s: Seq<char>) -> Seq<char> {
    if s.len() >= 2 && s[0] == '0' && (s[1] == 'x' || s[1] == 'X') {
        s.skip(2)
    } else {
        s
    }
}

/// The 32 bytes that `s` writes as exactly 64 hexadecimal digits (either
/// case, high nibble first), optionally after `0x` or `0X`; `None` for any
/// other text.
pub open spec fn hash_from_hex(s: Seq<char>) -> Option<Seq<u8>> {
    let d = without_hex_prefix(s);
    if d.len() == 64 && forall|i: int| 0 <= i < 64 ==> #[trigger] hex_nibble(d[i]) >= 0 {
        Some(Seq::new(32, |k: int| (hex_nibble(d[2 * k]) * 16 + hex_nibble(d[2 * k + 1])) as u8))
    } else {
        None
    }
}

/// `FromStr` of `alloy_primitives::B256` (`FixedBytes::<32>::from_hex`, which
/// strips one `0x`/`0X` prefix and decodes exactly 64 hexadecimal digits of
/// either case): the bytes when the text is such a hash, else `None`.
#[verifier::external_body]
pub(crate) fn parse_b256(text: &str) -> (r: Option<[u8; 32]>)
    ensures
        match r {
            Some(h) => hash_from_hex(text@) == Some(h@),
            None => hash_from_hex(text@) is None,
        },
{
    match text.parse::<alloy_primitives::B256>() {
        Ok(h) => Some(h.0),
        Err(_) => None,
    }
}

/// The decimal digit character for `d`.
pub(crate) fn decimal_digit_char(d: u128) -> (c: char)
    requires
        d < 10,
    ensures
        c == decimal_digit(d as nat),
{
    if d == 0 { '0' }
    else if d == 1 { '1' }
    else if d == 2 { '2' }
    else if d == 3 { '3' }
    else if d == 4 { '4' }
    else if d == 5 { '5' }
    else if d == 6 { '6' }
    else if d == 7 { '7' }
    else if d == 8 { '8' }
    else { '9' }
}

/// Appends the decimal representation of `n` to `out`.
pub fn push_decimal(out: &mut String, n: u128)
    ensures
        final(out)@ == old(out)@ + decimal(n as nat),
    decreases n,
{
    if n >= 10 {
        push_decimal(out, n / 10);
    }
    push_char(out, decimal_digit_char(n % 10));
    proof {
        if n < 10 {
            assert(decimal(n as nat) == seq![decimal_digit(n as nat)]);
        }
    }
    assert(final(out)@ =~= old(out)@ + decimal(n as nat));
}

/// The decimal representation of `n` as a new string.
pub fn decimal_string(n: u128) -> (r: String)
    ensures
        r@ == decimal(n as nat),
{
    let mut s = String::new();
    push_decimal(&mut s, n);
    assert(s@ =~= decimal(n as nat));
    s
}

/// Appends `n` copies of two spaces to `out`.
pub fn push_indent(out: &mut String, n: usize)
    ensures
        final(out)@ == old(out)@ + repeat(seq![' ', ' '], n as nat),
{
    let mut i: usize = 0;
    while i < n
        invariant
            i <= n,
            out@ == old(out)@ + repeat(seq![' ', ' '], i as nat),
        decreases n - i,
    {
        push_char(out, ' ');
        push_char(out, ' ');
        i = i + 1;
        assert(out@ =~= old(out)@ + repeat(seq![' ', ' '], i as nat));
    }
}

} // verus!
