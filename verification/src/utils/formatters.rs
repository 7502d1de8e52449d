//! The canonical text of a value: no zero digits at the end, no point
//! without decimals, and a sign where one is asked for.

use crate::utils::ascii::{LOWER_A, MINUS, PLUS, POINT, UPPER_N, ZERO};
use crate::utils::parser::{
    digits_end, is_decimal, is_digit, is_number, is_number_literal, is_sign,
    lemma_digits_prefix, lemma_digits_run, lemma_plus_before_literal, lemma_words, lower,
    mantissa_end,
    sign_len, spells, word_inf, word_nan,
};
use crate::utils::text::{is_span, slice, substring};
use vstd::prelude::*;
use vstd::string::*;
use vstd::utf8::*;

verus! {

/// The count of decimals with which a value is rendered before it is
/// brought into its canonical form.
pub const DECIMALS: usize = 10;

/// The index at which the run of zero digits that ends the bytes starts.
pub open spec fn zeros_start(s: Seq<u8>) -> int
    decreases s.len(),
{
    if s.len() > 0 && s.last() == ZERO {
        zeros_start(s.drop_last())
    } else {
        s.len() as int
    }
}

/// The number of bytes that stay when the zero digits at the end have been
/// taken off, and then a decimal point if one has come to stand at the end.
pub open spec fn trimmed_len(s: Seq<u8>) -> int {
    let kept = zeros_start(s);
    if kept > 0 && s[kept - 1] == POINT {
        kept - 1
    } else {
        kept
    }
}

/// The canonical form of a number rendered with a fixed count of decimals.
pub open spec fn trimmed(rendered: Seq<char>) -> Seq<char> {
    slice(rendered, 0, trimmed_len(encode_utf8(rendered)))
}

/// The bytes `NaN`, as which a value that is no number is rendered.
pub open spec fn not_a_number() -> Seq<u8> {
    seq![UPPER_N, LOWER_A, UPPER_N]
}

/// The bytes of `NaN`, one by one.
pub proof fn lemma_not_a_number()
    ensures
        not_a_number().len() == 3,
        not_a_number()[0] == UPPER_N && not_a_number()[1] == LOWER_A && not_a_number()[2]
            == UPPER_N,
{
}

/// Whether a canonical form needs a `+` put before it to carry a sign: it
/// does unless it shows a `-` already or stands for no number.
pub open spec fn lacks_sign(canonical: Seq<char>) -> bool {
    let bytes = encode_utf8(canonical);
    !(bytes.len() > 0 && bytes[0] == MINUS) && bytes != not_a_number()
}

/// The canonical form with its sign always shown.
pub open spec fn signed(rendered: Seq<char>) -> Seq<char> {
    if lacks_sign(trimmed(rendered)) {
        seq!['+'] + trimmed(rendered)
    } else {
        trimmed(rendered)
    }
}

/// The zero digits at the end are zero digits, and what stands before
/// them is none.
pub proof fn lemma_zeros_run(s: Seq<u8>)
    ensures
        0 <= zeros_start(s) <= s.len(),
        forall|i: int| zeros_start(s) <= i < s.len() ==> #[trigger] s[i] == ZERO,
        zeros_start(s) > 0 ==> s[zeros_start(s) - 1] != ZERO,
    decreases s.len(),
{
    if s.len() > 0 && s.last() == ZERO {
        let rest = s.drop_last();
        lemma_zeros_run(rest);
        assert forall|i: int| zeros_start(s) <= i < s.len() implies #[trigger] s[i] == ZERO by {
            if i < rest.len() {
                assert(rest[i] == s[i]);
            }
        }
        if zeros_start(s) > 0 {
            assert(rest[zeros_start(s) - 1] == s[zeros_start(s) - 1]);
        }
    }
}

/// Trimming cuts bytes off the end and never cuts a character: the bytes
/// of the canonical form are the first bytes of what was rendered.
pub proof fn lemma_trimmed_bytes(rendered: Seq<char>)
    ensures
        is_span(rendered, 0, trimmed_len(encode_utf8(rendered))),
        encode_utf8(trimmed(rendered)) == encode_utf8(rendered).subrange(
            0,
            trimmed_len(encode_utf8(rendered)),
        ),
{
    let bytes = encode_utf8(rendered);
    let end = trimmed_len(bytes);
    lemma_zeros_run(bytes);
    encode_utf8_valid_utf8(rendered);
    is_char_boundary_start_end_of_seq(bytes);
    if end < bytes.len() {
        assert(bytes[end] == ZERO || bytes[end] == POINT);
        is_char_boundary_iff_not_is_continuation_byte(bytes, end);
    }
    valid_utf8_split(bytes, end);
    decode_utf8_encode_utf8(bytes.subrange(0, end));
}

/// A finite value as it is rendered with a fixed count of decimals: a `-`
/// if it is negative, digits, a point, and digits to the end.
pub open spec fn is_fixed_point(s: Seq<u8>) -> bool {
    let from: int = if s.len() > 0 && s[0] == MINUS {
        1
    } else {
        0
    };
    let point = digits_end(s, from);
    &&& from < point < s.len()
    &&& s[point] == POINT
    &&& point + 1 < s.len()
    &&& digits_end(s, point + 1) == s.len()
}

/// What a value is rendered as: a fixed-point number, `inf`, `-inf` or
/// `NaN`.
pub open spec fn is_rendering(s: Seq<u8>) -> bool {
    ||| is_fixed_point(s)
    ||| s == word_inf()
    ||| s == seq![MINUS] + word_inf()
    ||| s == not_a_number()
}

proof fn lemma_trimmed_fixed_point(s: Seq<u8>)
    requires
        is_fixed_point(s),
    ensures
        is_number_literal(s.subrange(0, trimmed_len(s))),
        trimmed_len(s) > 0,
        !is_sign(s[0]) || s[0] == MINUS,
{
    let from: int = if s[0] == MINUS {
        1
    } else {
        0
    };
    let point = digits_end(s, from);
    let kept = trimmed_len(s);
    let prefix = s.subrange(0, kept);
    lemma_zeros_run(s);
    lemma_digits_run(s, from);
    lemma_digits_run(s, point + 1);
    assert(zeros_start(s) > point);
    if zeros_start(s) - 1 != point {
        assert(is_digit(s[zeros_start(s) - 1]));
    }
    assert(kept >= point);
    assert(prefix[0] == s[0]);
    assert(is_digit(s[from]));
    assert(sign_len(prefix, 0) == from);
    lemma_digits_prefix(s, kept, from);
    assert(digits_end(prefix, from) == point);
    if kept > point {
        assert(kept >= point + 2);
        assert(prefix[point] == s[point]);
        lemma_digits_prefix(s, kept, point + 1);
        assert(digits_end(prefix, point + 1) == kept);
        assert(mantissa_end(prefix, from) == kept);
    } else {
        assert(mantissa_end(prefix, from) == kept);
    }
    assert(is_decimal(prefix, from));
}

/// The canonical forms can be read back: what is made of a rendered value,
/// with its sign shown or without, is a number literal.
pub proof fn lemma_canonical_text_is_a_number(rendered: Seq<char>)
    requires
        is_rendering(encode_utf8(rendered)),
    ensures
        is_number(trimmed(rendered)),
        is_number(signed(rendered)),
{
    let bytes = encode_utf8(rendered);
    let kept = bytes.subrange(0, trimmed_len(bytes));
    lemma_trimmed_bytes(rendered);
    lemma_zeros_run(bytes);
    let inf = word_inf();
    let nan = not_a_number();
    let low = word_nan();
    lemma_words();
    lemma_not_a_number();
    if is_fixed_point(bytes) {
        lemma_trimmed_fixed_point(bytes);
        assert(kept[0] == bytes[0]);
    } else {
        assert(bytes.last() != ZERO && bytes.last() != POINT);
        assert(kept =~= bytes);
        if bytes == inf {
            assert(spells(bytes, 0, inf));
        } else if bytes == nan {
            assert(spells(bytes, 0, low));
        } else {
            assert(bytes[0] == MINUS);
            assert forall|i: int| 0 <= i < inf.len() implies lower(bytes[1 + i])
                == #[trigger] inf[i] by {
                assert(bytes[1 + i] == inf[i]);
            }
            assert(spells(bytes, 1, inf));
        }
    }
    assert(is_number_literal(kept));
    if lacks_sign(trimmed(rendered)) {
        let with_sign = seq!['+'] + trimmed(rendered);
        let plus = seq!['+'];
        assert(is_ascii_chars(plus));
        is_ascii_chars_encode_utf8(plus);
        assert(plus.drop_first() =~= Seq::<char>::empty());
        assert(with_sign.drop_first() =~= trimmed(rendered));
        assert(with_sign[0] == '+');
        assert(encode_utf8(plus) =~= seq![PLUS]);
        assert(encode_utf8(with_sign) =~= seq![PLUS] + kept);
        lemma_plus_before_literal(kept);
    }
}

fn kept_len(s: &[u8]) -> (end: usize)
    ensures
        end == trimmed_len(s@),
        end <= s@.len(),
        end < s@.len() ==> s@[end as int] == ZERO || s@[end as int] == POINT,
{
    let mut end: usize = s.len();
    proof {
        assert(s@.take(end as int) =~= s@);
    }
    while end > 0 && s[end - 1] == ZERO
        invariant
            end <= s@.len(),
            zeros_start(s@) == zeros_start(s@.take(end as int)),
            end < s@.len() ==> s@[end as int] == ZERO,
        decreases end,
    {
        proof {
            assert(s@.take(end as int).drop_last() =~= s@.take(end as int - 1));
        }
        end -= 1;
    }
    proof {
        lemma_zeros_run(s@);
        assert(zeros_start(s@.take(end as int)) == end);
    }
    if end > 0 && s[end - 1] == POINT {
        end -= 1;
    }
    end
}

/// Brings a number that was rendered with a fixed count of decimals into
/// its canonical form: the zero digits at its end are dropped, and then the
/// decimal point if nothing is left behind it.
pub fn format_and_trim(rendered: &str) -> (r: String)
    ensures
        r@ == trimmed(rendered@),
{
    let end: usize = kept_len(rendered.as_bytes());
    proof {
        lemma_trimmed_bytes(rendered@);
    }
    String::from_str(substring(rendered, 0, end))
}

/// The canonical form of a rendered number with its sign always shown: a
/// `+` stands before a value that shows no `-`, so that the text stays one
/// token wherever it is put. A value that is no number carries no sign.
pub fn format_signed_and_trim(rendered: &str) -> (r: String)
    ensures
        r@ == signed(rendered@),
{
    let canonical: String = format_and_trim(rendered);
    if needs_sign(canonical.as_str()) {
        proof {
            reveal_strlit("+");
            assert("+"@ =~= seq!['+']);
        }
        let mut result = String::from_str("+");
        result.append(canonical.as_str());
        result
    } else {
        canonical
    }
}

fn needs_sign(canonical: &str) -> (r: bool)
    ensures
        r == lacks_sign(canonical@),
{
    let s: &[u8] = canonical.as_bytes();
    if s.len() > 0 && s[0] == MINUS {
        return false;
    }
    proof {
        let word = not_a_number();
        lemma_not_a_number();
        if s@.len() == 3 && s@[0] == UPPER_N && s@[1] == LOWER_A && s@[2] == UPPER_N {
            assert(s@ =~= word);
        }
    }
    !(s.len() == 3 && s[0] == UPPER_N && s[1] == LOWER_A && s[2] == UPPER_N)
}

} // verus!
