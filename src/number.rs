use vstd::prelude::*;

verus! {

/// The value of `c` as a digit, for digits `0-9`, `a-z` and `A-Z`; 36 for any
/// other character, which no radix admits.
pub open spec fn digit_of(c: char) -> int {
    let u = c as u32;
    if 48 <= u <= 57 {
        u - 48
    } else if 97 <= u <= 122 {
        u - 97 + 10
    } else if 65 <= u <= 90 {
        u - 65 + 10
    } else {
        36
    }
}

/// Whether every character of `ds` is a digit in base `radix`.
pub open spec fn all_digits(ds: Seq<char>, radix: int) -> bool {
    forall|i: int| 0 <= i < ds.len() ==> digit_of(#[trigger] ds[i]) < radix
}

/// The value of the digit string `ds` in base `radix`, most significant first.
pub open spec fn digits_value(ds: Seq<char>, radix: int) -> int
    decreases ds.len(),
{
    if ds.len() == 0 {
        0
    } else {
        digits_value(ds.drop_last(), radix) * radix + digit_of(ds.last())
    }
}

/// The integer that `s` writes in base `radix`: an optional `+` or `-` followed
/// by at least one digit, and nothing else.
pub open spec fn int_text(s: Seq<char>, radix: int) -> Option<int> {
    if s.len() > 0 && (s[0] == '+' || s[0] == '-') {
        let ds = s.drop_first();
        if ds.len() > 0 && all_digits(ds, radix) {
            if s[0] == '-' {
                Some(-digits_value(ds, radix))
            } else {
                Some(digits_value(ds, radix))
            }
        } else {
            None
        }
    } else if s.len() > 0 && all_digits(s, radix) {
        Some(digits_value(s, radix))
    } else {
        None
    }
}

/// Whether `s` writes, in base `radix`, an integer in `lo..=hi`.
pub open spec fn int_text_within(s: Seq<char>, radix: int, lo: int, hi: int) -> bool {
    int_text(s, radix) is Some && lo <= int_text(s, radix)->0 <= hi
}

/// Relies on `i64::from_str_radix` with radix 16: it accepts exactly an optional
/// sign followed by one or more hexadecimal digits whose value fits in `i64`.
#[verifier::external_body]
pub(crate) fn parse_hex_i64(s: &str) -> (r: Option<i64>)
    ensures
        r is Some <==> int_text_within(s@, 16, i64::MIN as int, i64::MAX as int),
        r is Some ==> r->0 as int == int_text(s@, 16)->0,
{
    i64::from_str_radix(s, 16).ok()
}

/// Relies on `<i32 as FromStr>::from_str` (base 10): it accepts exactly an
/// optional sign followed by one or more decimal digits whose value fits in `i32`.
#[verifier::external_body]
pub(crate) fn parse_decimal_i32(s: &str) -> (r: Option<i32>)
    ensures
        r is Some <==> int_text_within(s@, 10, i32::MIN as int, i32::MAX as int),
        r is Some ==> r->0 as int == int_text(s@, 10)->0,
{
    s.parse::<i32>().ok()
}

/// The lowercase hexadecimal digit for `d` in `0..16`.
pub open spec fn hex_digit(d: int) -> char {
    seq!['0', '1', '2', '3', '4', '5', '6', '7', '8', '9', 'a', 'b', 'c', 'd', 'e', 'f'][d]
}

/// `n` in lowercase hexadecimal, without leading zeros (zero is `0`).
pub open spec fn lower_hex(n: nat) -> Seq<char>
    decreases n,
{
    if n < 16 {
        seq![hex_digit(n as int)]
    } else {
        lower_hex(n / 16).push(hex_digit((n % 16) as int))
    }
}

/// The bits of `v` read as an unsigned number (two's complement).
pub open spec fn unsigned_bits(v: i64) -> nat {
    if v >= 0 {
        v as nat
    } else {
        (v + 0x1_0000_0000_0000_0000int) as nat
    }
}

/// Relies on the `LowerHex` formatting of `i64` (`{:x}`): lowercase digits, no
/// prefix, no leading zeros, and a negative value written as its two's complement.
#[verifier::external_body]
pub(crate) fn hex_text(v: i64) -> (r: String)
    ensures
        r@ == lower_hex(unsigned_bits(v)),
{
    format!("{:x}", v)
}

} // verus!
