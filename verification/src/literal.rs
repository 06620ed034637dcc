//! Reading and writing the text of literals.
//!
//! The lexical rules of literals are those of `proc-macro2` and `syn`; the
//! functions here are the only places where the library calls them.

use vstd::prelude::*;

verus! {

/// The bytes that `text` denotes when it is a byte-string literal (`b"..."`,
/// `br"..."`, `br#"..."#`, with or without a suffix), and `None` when it is
/// anything else.
pub uninterp spec fn byte_string_value(text: Seq<char>) -> Option<Seq<u8>>;

/// The characters that `text` denotes when it is a string literal (`"..."`,
/// `r"..."`, `r#"..."#`, with or without a suffix), and `None` when it is
/// anything else.
pub uninterp spec fn string_value(text: Seq<char>) -> Option<Seq<char>>;

/// The text of the character literal that denotes `ch`: `ch` between single
/// quotes, escaped where it has to be.
pub uninterp spec fn character_text(ch: char) -> Seq<char>;

/// The character that stands for the decimal digit `d`.
pub open spec fn decimal_digit(d: int) -> char
    recommends
        0 <= d <= 9,
{
    (d + 48) as char
}

/// The decimal digits of `value`, without leading zeros.
pub open spec fn decimal_text(value: u8) -> Seq<char> {
    if value >= 100 {
        seq![
            decimal_digit(value as int / 100),
            decimal_digit(value as int / 10 % 10),
            decimal_digit(value as int % 10),
        ]
    } else if value >= 10 {
        seq![decimal_digit(value as int / 10), decimal_digit(value as int % 10)]
    } else {
        seq![decimal_digit(value as int)]
    }
}

/// The text of the integer literal of type `u8` that denotes `value`: its
/// decimal digits followed by `u8`.
pub open spec fn u8_suffixed_text(value: u8) -> Seq<char> {
    decimal_text(value) + seq!['u', '8']
}

/// Reads `text` as a byte-string literal.
///
/// Trusted: lexes `text` with `proc_macro2::Literal::from_str`, parses the
/// token with `syn::parse2::<syn::LitByteStr>` and decodes it with
/// `syn::LitByteStr::value`. The contract claims that the outcome depends on
/// `text` alone, and names it [`byte_string_value`]; it is `None` where either
/// step fails.
#[verifier::external_body]
pub(crate) fn read_byte_string(text: &str) -> (bytes: Option<Vec<u8>>)
    ensures
        match bytes {
            Some(value) => byte_string_value(text@) == Some(value@),
            None => byte_string_value(text@) is None,
        },
{
    match text.parse::<proc_macro2::Literal>() {
        Ok(token) => match syn::parse2::<syn::LitByteStr>(proc_macro2::TokenTree::from(token).into()) {
            Ok(literal) => Some(literal.value()),
            Err(_) => None,
        },
        Err(_) => None,
    }
}

/// Reads `text` as a string literal.
///
/// Trusted: lexes `text` with `proc_macro2::Literal::from_str`, parses the
/// token with `syn::parse2::<syn::LitStr>` and decodes it with
/// `syn::LitStr::value`. The contract claims that the outcome depends on
/// `text` alone, and names it [`string_value`]; it is `None` where either step
/// fails.
#[verifier::external_body]
pub(crate) fn read_string(text: &str) -> (chars: Option<String>)
    ensures
        match chars {
            Some(value) => string_value(text@) == Some(value@),
            None => string_value(text@) is None,
        },
{
    match text.parse::<proc_macro2::Literal>() {
        Ok(token) => match syn::parse2::<syn::LitStr>(proc_macro2::TokenTree::from(token).into()) {
            Ok(literal) => Some(literal.value()),
            Err(_) => None,
        },
        Err(_) => None,
    }
}

/// Writes the `u8` literal for `value`.
///
/// Trusted: the text of `proc_macro2::Literal::u8_suffixed(value)`, which that
/// crate formats as the decimal value directly followed by `u8`.
#[verifier::external_body]
pub(crate) fn write_u8_suffixed(value: u8) -> (text: String)
    ensures
        text@ == u8_suffixed_text(value),
{
    proc_macro2::Literal::u8_suffixed(value).to_string()
}

/// Writes the character literal for `ch`.
///
/// Trusted: the text of `proc_macro2::Literal::character(ch)`. The contract
/// claims that it depends on `ch` alone, and names it [`character_text`].
#[verifier::external_body]
pub(crate) fn write_character(ch: char) -> (text: String)
    ensures
        text@ == character_text(ch),
{
    proc_macro2::Literal::character(ch).to_string()
}

} // verus!
