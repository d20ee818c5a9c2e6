//! Character-level helpers shared by the parsers and formatters of this
//! crate: string equality, decimal and hexadecimal digits, and rendering
//! of unsigned numbers into strings.
use vstd::prelude::*;

verus! {

/// A decimal digit `'0'..='9'`.
pub open spec fn is_dec_digit(c: char) -> bool {
    '0' <= c && c <= '9'
}

/// Numeric value of a decimal digit.
pub open spec fn dec_digit_val(c: char) -> nat
    recommends
        is_dec_digit(c),
{
    (c as nat - '0' as nat) as nat
}

/// Value of a sequence of decimal digits, most significant first.
pub open spec fn dec_val(s: Seq<char>) -> nat
    decreases s.len(),
{
    if s.len() == 0 {
        0
    } else {
        dec_val(s.drop_last()) * 10 + dec_digit_val(s.last())
    }
}

/// The digit character for a value below ten.
pub open spec fn dec_digit_char(d: nat) -> char
    recommends
        d < 10,
{
    if d == 0 { '0' }
    else if d == 1 { '1' }
    else if d == 2 { '2' }
    else if d == 3 { '3' }
    else if d == 4 { '4' }
    else if d == 5 { '5' }
    else if d == 6 { '6' }
    else if d == 7 { '7' }
    else if d == 8 { '8' }
    else { '9' }
}

/// Decimal rendering of a natural number, without leading zeros
/// (a lone zero renders as "0").
pub open spec fn dec_of(n: nat) -> Seq<char>
    decreases n,
{
    if n < 10 {
        seq![dec_digit_char(n)]
    } else {
        dec_of(n / 10) + seq![dec_digit_char(n % 10)]
    }
}

/// The digit character for a value below sixteen, lower case.
pub open spec fn hex_digit_char(d: nat) -> char
    recommends
        d < 16,
{
    if d < 10 { dec_digit_char(d) }
    else if d == 10 { 'a' }
    else if d == 11 { 'b' }
    else if d == 12 { 'c' }
    else if d == 13 { 'd' }
    else if d == 14 { 'e' }
    else { 'f' }
}

/// Fixed-width hexadecimal rendering of a natural number, most
/// significant digit first, lower case, zero padded.
pub open spec fn hex_of_width(n: nat, width: nat) -> Seq<char>
    decreases width,
{
    if width == 0 {
        Seq::empty()
    } else {
        hex_of_width(n / 16, (width - 1) as nat) + seq![hex_digit_char(n % 16)]
    }
}

/// Compare two string slices character by character.
pub fn str_eq(a: &str, b: &str) -> (r: bool)
    ensures
        r == (a@ == b@),
{
    let alen = a.unicode_len();
    let blen = b.unicode_len();
    if alen != blen {
        assert(a@ != b@);
        return false;
    }
    let mut i: usize = 0;
    while i < alen
        invariant
            alen == a@.len(),
            alen == b@.len(),
            i <= alen,
            forall|j: int| 0 <= j < i ==> a@[j] == b@[j],
        decreases alen - i,
    {
        if a.get_char(i) != b.get_char(i) {
            return false;
        }
        i = i + 1;
    }
    proof {
        assert(a@ =~= b@);
    }
    true
}

/// The one-character string for a decimal digit value.
pub fn dec_digit_str(d: u8) -> (r: &'static str)
    requires
        d < 10,
    ensures
        r@ =~= seq![dec_digit_char(d as nat)],
{
    proof {
        reveal_strlit("0");
        reveal_strlit("1");
        reveal_strlit("2");
        reveal_strlit("3");
        reveal_strlit("4");
        reveal_strlit("5");
        reveal_strlit("6");
        reveal_strlit("7");
        reveal_strlit("8");
        reveal_strlit("9");
    }
    match d {
        0 => "0",
        1 => "1",
        2 => "2",
        3 => "3",
        4 => "4",
        5 => "5",
        6 => "6",
        7 => "7",
        8 => "8",
        _ => "9",
    }
}

/// The one-character string for a hexadecimal digit value, lower case.
pub fn hex_digit_str(d: u8) -> (r: &'static str)
    requires
        d < 16,
    ensures
        r@ =~= seq![hex_digit_char(d as nat)],
{
    proof {
        reveal_strlit("a");
        reveal_strlit("b");
        reveal_strlit("c");
        reveal_strlit("d");
        reveal_strlit("e");
        reveal_strlit("f");
    }
    if d < 10 {
        dec_digit_str(d)
    } else {
        match d {
            10 => "a",
            11 => "b",
            12 => "c",
            13 => "d",
            14 => "e",
            _ => "f",
        }
    }
}

/// Append the decimal rendering of `n` to `out`.
pub fn append_dec_u64(out: &mut String, n: u64)
    ensures
        final(out)@ == old(out)@ + dec_of(n as nat),
    decreases n,
{
    if n < 10 {
        out.append(dec_digit_str(n as u8));
    } else {
        append_dec_u64(out, n / 10);
        out.append(dec_digit_str((n % 10) as u8));
        proof {
            assert(final(out)@ =~= old(out)@ + dec_of(n as nat));
        }
    }
}

/// Append the 16-digit hexadecimal rendering of `n` to `out`.
pub fn append_hex16_u64(out: &mut String, n: u64)
    ensures
        final(out)@ == old(out)@ + hex_of_width(n as nat, 16),
{
    append_hex_width(out, n, 16);
}

/// Append the `width`-digit hexadecimal rendering of `n` to `out`.
pub fn append_hex_width(out: &mut String, n: u64, width: u8)
    ensures
        final(out)@ == old(out)@ + hex_of_width(n as nat, width as nat),
    decreases width,
{
    if width == 0 {
        proof {
            assert(final(out)@ =~= old(out)@ + hex_of_width(n as nat, 0));
        }
    } else {
        append_hex_width(out, n / 16, width - 1);
        out.append(hex_digit_str((n % 16) as u8));
        proof {
            assert(final(out)@ =~= old(out)@ + hex_of_width(n as nat, width as nat));
        }
    }
}

/// The canonical hyphenated text of a 128-bit UUID value: five groups
/// of lower-case hexadecimal digits, 8-4-4-4-12.
pub open spec fn uuid_text(n: u128) -> Seq<char> {
    hex_of_width((n / 0x1000000000000000000000000) as nat, 8) + seq!['-'] + hex_of_width(
        ((n / 0x100000000000000000000) % 0x10000) as nat,
        4,
    ) + seq!['-'] + hex_of_width(((n / 0x10000000000000000) % 0x10000) as nat, 4) + seq!['-']
        + hex_of_width(((n / 0x1000000000000) % 0x10000) as nat, 4) + seq!['-'] + hex_of_width(
        (n % 0x1000000000000) as nat,
        12,
    )
}

/// Append the hyphenated UUID text of `n` to `out`.
pub fn append_uuid(out: &mut String, n: u128)
    ensures
        final(out)@ == old(out)@ + uuid_text(n),
{
    let g0: u64 = (n / 0x1000000000000000000000000) as u64;
    let g1: u64 = ((n / 0x100000000000000000000) % 0x10000) as u64;
    let g2: u64 = ((n / 0x10000000000000000) % 0x10000) as u64;
    let g3: u64 = ((n / 0x1000000000000) % 0x10000) as u64;
    let g4: u64 = (n % 0x1000000000000) as u64;
    append_hex_width(out, g0, 8);
    out.append("-");
    append_hex_width(out, g1, 4);
    out.append("-");
    append_hex_width(out, g2, 4);
    out.append("-");
    append_hex_width(out, g3, 4);
    out.append("-");
    append_hex_width(out, g4, 12);
    proof {
        reveal_strlit("-");
        assert("-"@ =~= seq!['-']);
        assert(final(out)@ =~= old(out)@ + uuid_text(n));
    }
}

/// The UUID text of `n` as a fresh string.
pub fn uuid_string(n: u128) -> (r: String)
    ensures
        r@ == uuid_text(n),
{
    let mut out = String::new();
    append_uuid(&mut out, n);
    proof {
        assert(out@ =~= uuid_text(n));
    }
    out
}

/// The digit characters of a decimal number string: everything after an
/// optional leading `'+'`.
pub open spec fn dec_digits_of(s: Seq<char>) -> Seq<char> {
    if s.len() > 0 && s[0] == '+' {
        s.drop_first()
    } else {
        s
    }
}

/// Parse an unsigned 32-bit decimal number as `str::parse::<u32>` reads
/// it: an optional leading `'+'`, then one or more decimal digits, whose
/// value fits in the type.
pub open spec fn u32_dec_parses(s: Seq<char>) -> bool {
    &&& dec_digits_of(s).len() > 0
    &&& forall|i: int|
        0 <= i < dec_digits_of(s).len() ==> is_dec_digit(#[trigger] dec_digits_of(s)[i])
    &&& dec_val(dec_digits_of(s)) <= u32::MAX
}

/// The value such a string denotes.
pub open spec fn u32_dec_value(s: Seq<char>) -> nat {
    dec_val(dec_digits_of(s))
}

/// The value of a digit string does not go down when digits are appended.
pub proof fn lemma_dec_val_prefix_bound(s: Seq<char>, k: int)
    requires
        0 <= k <= s.len(),
    ensures
        dec_val(s.subrange(0, k)) <= dec_val(s),
    decreases s.len() - k,
{
    if k < s.len() {
        lemma_dec_val_prefix_bound(s, k + 1);
        assert(s.subrange(0, k + 1).drop_last() =~= s.subrange(0, k));
        assert(dec_val(s.subrange(0, k)) * 10 <= dec_val(s.subrange(0, k + 1)) * 10);
    } else {
        assert(s.subrange(0, k) =~= s);
    }
}

} // verus!
