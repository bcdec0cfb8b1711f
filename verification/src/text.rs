//! Numbers as decimal text.

use crate::storage::keys::{decimal, lemma_decimal, parse_decimal, parse_decimal_spec};
use vstd::prelude::*;
use vstd::string::{StringExecFns, StringSliceAdditionalSpecFns};
use vstd::utf8::{encode_utf8, is_ascii_chars, is_ascii_chars_encode_utf8};

verus! {

/// The decimal digits of a number as characters.
pub open spec fn decimal_text(n: nat) -> Seq<char> {
    decimal(n).map_values(|b: u8| b as char)
}

/// The text that one digit is written as.
fn digit_str(d: u8) -> (r: &'static str)
    requires
        d < 10,
    ensures
        r@ == seq![(48 + d) as u8 as char],
{
    proof {
        reveal_strlit("0");
        reveal_strlit("1");
        reveal_strlit("2");
        reveal_strlit("3");
        reveal_strlit("4");
        reveal_strlit("5");
        reveal_strlit("6");
        reveal_strlit("7");
        reveal_strlit("8");
        reveal_strlit("9");
    }
    let r = if d == 0 {
        "0"
    } else if d == 1 {
        "1"
    } else if d == 2 {
        "2"
    } else if d == 3 {
        "3"
    } else if d == 4 {
        "4"
    } else if d == 5 {
        "5"
    } else if d == 6 {
        "6"
    } else if d == 7 {
        "7"
    } else if d == 8 {
        "8"
    } else {
        "9"
    };
    assert(r@ =~= seq![(48 + d) as u8 as char]);
    r
}

/// Appends the decimal digits of `n` to a text.
pub fn push_decimal_text(out: &mut String, n: u64)
    ensures
        final(out)@ == old(out)@ + decimal_text(n as nat),
    decreases n,
{
    if n >= 10 {
        push_decimal_text(out, n / 10);
        out.append(digit_str((n % 10) as u8));
        assert(out@ =~= old(out)@ + decimal_text(n as nat));
    } else {
        out.append(digit_str(n as u8));
        assert(out@ =~= old(out)@ + decimal_text(n as nat));
    }
}

/// The decimal digits of `n` as a text.
pub fn decimal_string(n: u64) -> (r: String)
    ensures
        r@ == decimal_text(n as nat),
{
    let mut out = String::new();
    push_decimal_text(&mut out, n);
    assert(out@ =~= decimal_text(n as nat));
    out
}

/// The UTF-8 bytes of a number's text are its digits.
pub proof fn lemma_decimal_text_bytes(n: nat)
    ensures
        encode_utf8(decimal_text(n)) == decimal(n),
{
    lemma_decimal(n);
    let t = decimal_text(n);
    assert(is_ascii_chars(t)) by {
        assert forall|i: int| 0 <= i < t.len() implies 0 <= #[trigger] (t[i] as nat) < 128 by {
            assert(crate::storage::keys::is_digit(decimal(n)[i]));
        }
    }
    is_ascii_chars_encode_utf8(t);
    assert(encode_utf8(t) =~= decimal(n)) by {
        assert forall|i: int| 0 <= i < t.len() implies encode_utf8(t)[i] == decimal(n)[i] by {
            assert(crate::storage::keys::is_digit(decimal(n)[i]));
        }
    }
}

/// What reading a text as a decimal number gives.
pub open spec fn parse_text_spec(t: Seq<char>) -> Option<u64> {
    parse_decimal_spec(encode_utf8(t))
}

/// Reading the text of a 64-bit number gives the number back.
pub proof fn lemma_parse_text(n: u64)
    ensures
        parse_text_spec(decimal_text(n as nat)) == Some(n),
{
    lemma_decimal_text_bytes(n as nat);
    crate::storage::keys::lemma_parse_decimal(n);
}

/// Reads a text as a decimal number.
pub fn parse_decimal_str(s: &str) -> (r: Option<u64>)
    ensures
        r == parse_text_spec(s@),
{
    parse_decimal(s.as_bytes())
}

} // verus!
