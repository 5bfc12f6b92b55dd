use vstd::prelude::*;

verus! {

/// The lowercase hexadecimal digit of `d`, for `d < 16`.
pub open spec fn hex_digit(d: u128) -> char {
    if d < 10 {
        (48 + d) as char
    } else {
        (87 + d) as char
    }
}

/// The `i`-th of the 32 hexadecimal digits of `id`, most significant first.
pub open spec fn hex_nibble(id: u128, i: int) -> u128 {
    (id >> ((124 - 4 * i) as u128)) & 0xf
}

/// The position among the 32 hexadecimal digits of the `j`-th character of
/// the hyphenated form.
pub open spec fn digit_position(j: int) -> int {
    if j < 8 {
        j
    } else if j < 13 {
        j - 1
    } else if j < 18 {
        j - 2
    } else if j < 23 {
        j - 3
    } else {
        j - 4
    }
}

/// The hyphenated form of a UUID whose 128 bits, most significant first,
/// are `id`: 32 lowercase hexadecimal digits in groups of 8, 4, 4, 4 and 12
/// joined by '-'.
pub open spec fn uuid_text(id: u128) -> Seq<char> {
    Seq::new(
        36,
        |j: int|
            if j == 8 || j == 13 || j == 18 || j == 23 {
                '-'
            } else {
                hex_digit(hex_nibble(id, digit_position(j)))
            },
    )
}

/// `uuid::Uuid::from_u128` followed by `to_string`: the UUID's `Display`
/// form, which the uuid crate writes as the lowercase hyphenated form of the
/// big-endian bytes.
#[verifier::external_body]
pub(crate) fn uuid_string(id: u128) -> (s: String)
    ensures
        s@ == uuid_text(id),
{
    uuid::Uuid::from_u128(id).to_string()
}

} // verus!
