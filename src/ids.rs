//! Record identifiers: numbers below 10000 are written with four digits, larger ones as they are.

use vstd::prelude::*;
use crate::decimal::{
    all_digits, decimal, digits_value, lemma_decimal_digits, lemma_decimal_len, lemma_zeros_value,
    padded, parse_u32_chars, parse_u32_spec, push_padded, without_plus, zeros, is_digit,
};
use crate::text::{chars_of, string_of};

verus! {

/// The identifier text of the number `n`.
pub open spec fn id_text(n: nat) -> Seq<char> {
    padded(n, 4)
}

/// Writes `n` as an identifier.
pub fn format_id(n: u32) -> (r: String)
    ensures
        r@ == id_text(n as nat),
{
    let mut out: Vec<char> = Vec::new();
    push_padded(&mut out, n as u64, 4);
    assert(out@ =~= id_text(n as nat));
    string_of(out.as_slice())
}

/// Reads an identifier column as an unsigned number.
pub fn parse_id(s: &str) -> (r: Option<u32>)
    ensures
        r == parse_u32_spec(s@),
{
    let cs = chars_of(s);
    parse_u32_chars(cs.as_slice())
}

/// Reading back what `format_id` wrote gives the number again; the text has four digits
/// exactly when the number is below 10000, and otherwise no leading zeros.
pub proof fn lemma_id_round_trip(n: u32)
    ensures
        parse_u32_spec(id_text(n as nat)) == Some(n),
        n < 10000 ==> id_text(n as nat).len() == 4,
        n >= 10000 ==> id_text(n as nat) == decimal(n as nat),
{
    let d = decimal(n as nat);
    lemma_decimal_len(n as nat);
    lemma_decimal_digits(n as nat);
    let t = id_text(n as nat);
    if d.len() < 4 {
        lemma_zeros_value((4 - d.len()) as nat, d);
    }
    assert(all_digits(t));
    assert(digits_value(t) == n);
    assert(is_digit(t[0]));
    assert(without_plus(t) == t);
}

} // verus!
