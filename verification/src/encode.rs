//! Percent-encoding of characters that may not appear raw inside a URL
//! written into a document.

use vstd::prelude::*;
use vstd::string::*;

use crate::render::common_text::push_char;

verus! {

/// The sixteen uppercase hexadecimal digits.
pub open spec fn hex_digit(n: int) -> char {
    if n == 0 {
        '0'
    } else if n == 1 {
        '1'
    } else if n == 2 {
        '2'
    } else if n == 3 {
        '3'
    } else if n == 4 {
        '4'
    } else if n == 5 {
        '5'
    } else if n == 6 {
        '6'
    } else if n == 7 {
        '7'
    } else if n == 8 {
        '8'
    } else if n == 9 {
        '9'
    } else if n == 10 {
        'A'
    } else if n == 11 {
        'B'
    } else if n == 12 {
        'C'
    } else if n == 13 {
        'D'
    } else if n == 14 {
        'E'
    } else {
        'F'
    }
}

/// The characters that are percent-encoded: ASCII controls and the
/// characters that would break out of the markup around a URL.
pub open spec fn must_encode(c: char) -> bool {
    ||| (c as u32) < 0x20
    ||| (c as u32) == 0x7f
    ||| c == ' '
    ||| c == '<'
    ||| c == '>'
    ||| c == '\''
    ||| c == '"'
    ||| c == '`'
    ||| c == '\\'
    ||| c == '['
    ||| c == ']'
    ||| c == '('
    ||| c == ')'
    ||| c == '&'
}

/// How one character is written: encoded characters become `%` and two
/// uppercase hex digits, all others pass through.
pub open spec fn encode_char(c: char) -> Seq<char> {
    if must_encode(c) {
        seq!['%', hex_digit((c as u32) as int / 16), hex_digit((c as u32) as int % 16)]
    } else {
        seq![c]
    }
}

/// A whole string percent-encoded, character by character.
pub open spec fn percent_encoded(s: Seq<char>) -> Seq<char>
    decreases s.len(),
{
    if s.len() == 0 {
        Seq::empty()
    } else {
        percent_encoded(s.drop_last()) + encode_char(s.last())
    }
}

/// Relies on `percent_encoding::percent_encode_byte`: the `%XX` form of
/// the byte, with uppercase hexadecimal digits.
#[verifier::external_body]
fn encode_byte(b: u8) -> (r: &'static str)
    ensures
        r@ == seq!['%', hex_digit(b as int / 16), hex_digit(b as int % 16)],
{
    percent_encoding::percent_encode_byte(b)
}

/// Appends the percent-encoded form of `input` to `out`.
pub fn append_encoded(input: &str, out: &mut String)
    ensures
        final(out)@ == old(out)@ + percent_encoded(input@),
{
    let ghost s = input@;
    let n = input.unicode_len();
    let mut i: usize = 0;
    proof {
        assert(out@ =~= old(out)@ + percent_encoded(s.take(0)));
    }
    while i < n
        invariant
            s == input@,
            n == s.len(),
            0 <= i <= n,
            out@ == old(out)@ + percent_encoded(s.take(i as int)),
        decreases n - i,
    {
        let c = input.get_char(i);
        let u = c as u32;
        if u < 0x20 || u == 0x7f || c == ' ' || c == '<' || c == '>' || c == '\'' || c == '"'
            || c == '`' || c == '\\' || c == '[' || c == ']' || c == '(' || c == ')'
            || c == '&' {
            out.append(encode_byte(u as u8));
        } else {
            push_char(out, c);
        }
        proof {
            assert(s.take(i + 1).drop_last() =~= s.take(i as int));
            assert(s.take(i + 1).last() == s[i as int]);
            assert(out@ =~= old(out)@ + percent_encoded(s.take(i + 1)));
        }
        i += 1;
    }
    proof {
        assert(s.take(n as int) =~= s);
    }
}

/// The percent-encoded form of `input`.
pub fn percent_encode_str(input: &str) -> (r: String)
    ensures
        r@ == percent_encoded(input@),
{
    let mut out = String::new();
    append_encoded(input, &mut out);
    out
}

} // verus!
