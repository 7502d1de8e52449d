//! Number literals: which tokens are accepted as numbers.

use crate::evaluator::EvaluationError;
use crate::utils::ascii::{
    LOWER_A, LOWER_E, LOWER_F, LOWER_I, LOWER_N, LOWER_T, LOWER_Y, LOWER_Z, MINUS, NINE, PLUS,
    POINT, UPPER_A, UPPER_E, UPPER_Z, ZERO,
};
use vstd::prelude::*;
use vstd::utf8::encode_utf8;

verus! {

/// A decimal digit, as a byte.
pub open spec fn is_digit(b: u8) -> bool {
    ZERO <= b <= NINE
}

/// A sign, as a byte.
pub open spec fn is_sign(b: u8) -> bool {
    b == PLUS || b == MINUS
}

/// The index at which the run of digits that starts at `from` ends.
pub open spec fn digits_end(s: Seq<u8>, from: int) -> int
    decreases s.len() - from,
{
    if 0 <= from < s.len() && is_digit(s[from]) {
        digits_end(s, from + 1)
    } else {
        from
    }
}

fn scan_digits(s: &[u8], from: usize) -> (end: usize)
    requires
        from <= s@.len(),
    ensures
        end == digits_end(s@, from as int),
        from <= end <= s@.len(),
{
    let mut i: usize = from;
    while i < s.len() && s[i] >= ZERO && s[i] <= NINE
        invariant
            from <= i <= s@.len(),
            digits_end(s@, from as int) == digits_end(s@, i as int),
        decreases s@.len() - i,
    {
        i += 1;
    }
    i
}


/// The byte with an upper-case ASCII letter folded to lower case.
pub open spec fn lower(b: u8) -> u8 {
    if UPPER_A <= b <= UPPER_Z {
        (b + 32) as u8
    } else {
        b
    }
}

/// Whether `s`, from `from` to its end, spells `word` when case is ignored.
pub open spec fn spells(s: Seq<u8>, from: int, word: Seq<u8>) -> bool {
    &&& s.len() - from == word.len()
    &&& forall|i: int| 0 <= i < word.len() ==> lower(s[from + i]) == #[trigger] word[i]
}

/// The three words that stand for values which are no decimal numbers.
pub open spec fn word_inf() -> Seq<u8> {
    seq![LOWER_I, LOWER_N, LOWER_F]
}

pub open spec fn word_infinity() -> Seq<u8> {
    seq![LOWER_I, LOWER_N, LOWER_F, LOWER_I, LOWER_N, LOWER_I, LOWER_T, LOWER_Y]
}

pub open spec fn word_nan() -> Seq<u8> {
    seq![LOWER_N, LOWER_A, LOWER_N]
}

/// `inf`, `infinity` or `nan` in any mix of cases, from `from` to the end.
pub open spec fn is_special(s: Seq<u8>, from: int) -> bool {
    spells(s, from, word_inf()) || spells(s, from, word_infinity()) || spells(s, from, word_nan())
}

/// The number of bytes that a sign takes at `from`: one or none.
pub open spec fn sign_len(s: Seq<u8>, from: int) -> int {
    if 0 <= from < s.len() && is_sign(s[from]) {
        1
    } else {
        0
    }
}

/// The exponent's value: an optional sign and at least one digit, up to the
/// end of the token.
pub open spec fn is_exponent(s: Seq<u8>, from: int) -> bool {
    let digits = from + sign_len(s, from);
    digits < s.len() && digits_end(s, digits) == s.len()
}

/// The index behind the mantissa that starts at `from`: digits, then
/// possibly a point and more digits.
pub open spec fn mantissa_end(s: Seq<u8>, from: int) -> int {
    let point = digits_end(s, from);
    if point < s.len() && s[point] == POINT {
        digits_end(s, point + 1)
    } else {
        point
    }
}

/// The number of digits in the mantissa that starts at `from`.
pub open spec fn mantissa_digits(s: Seq<u8>, from: int) -> int {
    let point = digits_end(s, from);
    if point < s.len() && s[point] == POINT {
        mantissa_end(s, from) - from - 1
    } else {
        point - from
    }
}

/// A decimal number from `from` to the end: a mantissa with at least one
/// digit, then possibly `e` or `E` and an exponent.
pub open spec fn is_decimal(s: Seq<u8>, from: int) -> bool {
    let end = mantissa_end(s, from);
    &&& mantissa_digits(s, from) > 0
    &&& end == s.len() || ((s[end] == LOWER_E || s[end] == UPPER_E) && is_exponent(s, end + 1))
}

/// Whether the bytes are a number literal: an optional sign, then a decimal
/// number or one of the special words, and nothing before or behind.
pub open spec fn is_number_literal(s: Seq<u8>) -> bool {
    let from = sign_len(s, 0);
    from < s.len() && (is_decimal(s, from) || is_special(s, from))
}

/// Whether the text is a number literal.
pub open spec fn is_number(text: Seq<char>) -> bool {
    is_number_literal(encode_utf8(text))
}

/// The letters of the three words, one by one.
pub proof fn lemma_words()
    ensures
        word_inf().len() == 3,
        word_inf()[0] == LOWER_I && word_inf()[1] == LOWER_N && word_inf()[2] == LOWER_F,
        word_nan().len() == 3,
        word_nan()[0] == LOWER_N && word_nan()[1] == LOWER_A && word_nan()[2] == LOWER_N,
        word_infinity().len() == 8,
        word_infinity()[0] == LOWER_I && word_infinity()[1] == LOWER_N && word_infinity()[2]
            == LOWER_F && word_infinity()[3] == LOWER_I,
        word_infinity()[4] == LOWER_N && word_infinity()[5] == LOWER_I && word_infinity()[6]
            == LOWER_T && word_infinity()[7] == LOWER_Y,
{
}

fn scan_sign(s: &[u8], from: usize) -> (next: usize)
    requires
        from <= s@.len(),
    ensures
        next == from + sign_len(s@, from as int),
        next <= s@.len(),
{
    if from < s.len() && (s[from] == PLUS || s[from] == MINUS) {
        from + 1
    } else {
        from
    }
}

fn fold(b: u8) -> (r: u8)
    ensures
        r == lower(b),
{
    if b >= UPPER_A && b <= UPPER_Z {
        b + 32
    } else {
        b
    }
}

fn check_special(s: &[u8], from: usize) -> (r: bool)
    requires
        from <= s@.len(),
    ensures
        r == is_special(s@, from as int),
{
    let n: usize = s.len() - from;
    proof {
        lemma_words();
    }
    if n == 3 {
        let a: u8 = fold(s[from]);
        let b: u8 = fold(s[from + 1]);
        let c: u8 = fold(s[from + 2]);
        (a == LOWER_I && b == LOWER_N && c == LOWER_F) || (a == LOWER_N && b == LOWER_A && c == LOWER_N)
    } else if n == 8 {
        fold(s[from]) == LOWER_I && fold(s[from + 1]) == LOWER_N && fold(s[from + 2]) == LOWER_F && fold(
            s[from + 3],
        ) == LOWER_I && fold(s[from + 4]) == LOWER_N && fold(s[from + 5]) == LOWER_I && fold(s[from + 6])
            == LOWER_T && fold(s[from + 7]) == LOWER_Y
    } else {
        false
    }
}

fn check_decimal(s: &[u8], from: usize) -> (r: bool)
    requires
        from <= s@.len(),
    ensures
        r == is_decimal(s@, from as int),
{
    let point: usize = scan_digits(s, from);
    let mut end: usize = point;
    let mut digits: usize = point - from;
    if point < s.len() && s[point] == POINT {
        end = scan_digits(s, point + 1);
        digits = end - from - 1;
    }
    if digits == 0 {
        return false;
    }
    if end == s.len() {
        return true;
    }
    if s[end] != LOWER_E && s[end] != UPPER_E {
        return false;
    }
    let first: usize = scan_sign(s, end + 1);
    first < s.len() && scan_digits(s, first) == s.len()
}

/// Decides whether `token` is a number literal.
pub fn is_number_token(token: &str) -> (r: bool)
    ensures
        r == is_number(token@),
{
    let s: &[u8] = token.as_bytes();
    let from: usize = scan_sign(s, 0);
    from < s.len() && (check_decimal(s, from) || check_special(s, from))
}

/// Accepts a token that is a number literal and hands it back unchanged;
/// any other token is refused with the token itself as the error's payload.
pub fn parse_value(input: String) -> (r: Result<String, EvaluationError>)
    ensures
        is_number(input@) ==> r == Ok::<String, EvaluationError>(input),
        !is_number(input@) ==> r == Err::<String, EvaluationError>(
            EvaluationError::ParseError(input),
        ),
{
    if is_number_token(input.as_str()) {
        Ok(input)
    } else {
        Err(EvaluationError::ParseError(input))
    }
}

/// An ASCII letter.
pub open spec fn is_letter(b: u8) -> bool {
    UPPER_A <= b <= UPPER_Z || LOWER_A <= b <= LOWER_Z
}

/// A byte that can stand in a number literal at all.
pub open spec fn is_literal_byte(b: u8) -> bool {
    is_digit(b) || is_sign(b) || b == POINT || is_letter(b)
}

/// The exponent's mark, in either case.
pub open spec fn is_exponent_mark(b: u8) -> bool {
    b == LOWER_E || b == UPPER_E
}

/// A run of digits is made of digits, lies inside the bytes, and stops at
/// what is no digit.
pub proof fn lemma_digits_run(s: Seq<u8>, from: int)
    requires
        0 <= from <= s.len(),
    ensures
        from <= digits_end(s, from) <= s.len(),
        forall|i: int| from <= i < digits_end(s, from) ==> is_digit(#[trigger] s[i]),
        digits_end(s, from) < s.len() ==> !is_digit(s[digits_end(s, from)]),
    decreases s.len() - from,
{
    if from < s.len() && is_digit(s[from]) {
        lemma_digits_run(s, from + 1);
    }
}

/// How a decimal number is laid out: digits, then possibly a point and more
/// digits, then possibly the exponent's mark, a sign and digits to the end.
pub open spec fn is_laid_out_as_decimal(s: Seq<u8>, from: int) -> bool {
    let point = digits_end(s, from);
    let end = mantissa_end(s, from);
    &&& from <= point <= end <= s.len()
    &&& from < end
    &&& forall|i: int| from <= i < point ==> is_digit(#[trigger] s[i])
    &&& point < end ==> s[point] == POINT
    &&& forall|i: int| point < i < end ==> is_digit(#[trigger] s[i])
    &&& end < s.len() ==> {
        let digits = end + 1 + sign_len(s, end + 1);
        &&& is_exponent_mark(s[end])
        &&& digits < s.len()
        &&& end + 1 < digits ==> is_sign(s[end + 1])
        &&& forall|i: int| digits <= i < s.len() ==> is_digit(#[trigger] s[i])
    }
}

/// How a special word is laid out: letters to the end, the last of them an
/// `f`, a `y` or an `n` in either case.
pub open spec fn is_laid_out_as_word(s: Seq<u8>, from: int) -> bool {
    &&& from < s.len()
    &&& forall|i: int| from <= i < s.len() ==> is_letter(#[trigger] s[i])
    &&& lower(s.last()) == LOWER_F || lower(s.last()) == LOWER_Y || lower(s.last()) == LOWER_N
}

/// A decimal number is laid out as one.
pub proof fn lemma_decimal_shape(s: Seq<u8>, from: int)
    requires
        0 <= from <= s.len(),
        is_decimal(s, from),
    ensures
        is_laid_out_as_decimal(s, from),
{
    let point = digits_end(s, from);
    lemma_digits_run(s, from);
    if point < s.len() && s[point] == POINT {
        lemma_digits_run(s, point + 1);
    }
    let end = mantissa_end(s, from);
    if end < s.len() {
        let digits = end + 1 + sign_len(s, end + 1);
        lemma_digits_run(s, digits);
    }
}

/// The letters of a special word are letters in the token too.
proof fn lemma_spelled_letters(s: Seq<u8>, from: int, word: Seq<u8>)
    requires
        0 <= from <= s.len(),
        spells(s, from, word),
        forall|k: int| 0 <= k < word.len() ==> LOWER_A <= #[trigger] word[k] <= LOWER_Z,
    ensures
        forall|i: int| from <= i < s.len() ==> is_letter(#[trigger] s[i]),
{
    assert forall|i: int| from <= i < s.len() implies is_letter(#[trigger] s[i]) by {
        let k = i - from;
        assert(lower(s[from + k]) == word[k]);
    }
}

/// A special word is laid out as one.
proof fn lemma_special_letters(s: Seq<u8>, from: int)
    requires
        0 <= from <= s.len(),
        is_special(s, from),
    ensures
        is_laid_out_as_word(s, from),
{
    let inf = word_inf();
    let infinity = word_infinity();
    let nan = word_nan();
    lemma_words();
    if spells(s, from, inf) {
        lemma_spelled_letters(s, from, inf);
        assert(lower(s[from + 2]) == inf[2]);
    } else if spells(s, from, infinity) {
        lemma_spelled_letters(s, from, infinity);
        assert(lower(s[from + 7]) == infinity[7]);
    } else {
        lemma_spelled_letters(s, from, nan);
        assert(lower(s[from + 2]) == nan[2]);
    }
}

/// What every number literal looks like: behind its sign, if it has one,
/// it is laid out as a decimal number or as a special word.
pub proof fn lemma_literal_shape(s: Seq<u8>)
    requires
        is_number_literal(s),
    ensures
        sign_len(s, 0) == 1 ==> is_sign(s[0]),
        is_laid_out_as_decimal(s, sign_len(s, 0)) || is_laid_out_as_word(s, sign_len(s, 0)),
{
    let from = sign_len(s, 0);
    if is_decimal(s, from) {
        lemma_decimal_shape(s, from);
    } else {
        lemma_special_letters(s, from);
    }
}

/// The empty token is no number literal.
pub proof fn lemma_empty_is_refused()
    ensures
        !is_number_literal(Seq::<u8>::empty()),
{
}

/// A number literal is made of digits, signs, points and letters: a token
/// with anything else in it, a blank before or behind it for one, is none.
pub proof fn lemma_foreign_byte_is_refused(s: Seq<u8>, at: int)
    requires
        0 <= at < s.len(),
        !is_literal_byte(s[at]),
    ensures
        !is_number_literal(s),
{
    if is_number_literal(s) {
        lemma_literal_shape(s);
    }
}

/// A token with two decimal points is no number literal.
pub proof fn lemma_second_point_is_refused(s: Seq<u8>, first: int, second: int)
    requires
        0 <= first < second < s.len(),
        s[first] == POINT,
        s[second] == POINT,
    ensures
        !is_number_literal(s),
{
    if is_number_literal(s) {
        lemma_literal_shape(s);
    }
}

/// A token that breaks off in its exponent, behind the mark or behind the
/// exponent's sign, is no number literal.
pub proof fn lemma_open_exponent_is_refused(s: Seq<u8>)
    requires
        s.len() > 0,
        is_exponent_mark(s.last()) || is_sign(s.last()),
    ensures
        !is_number_literal(s),
{
    if is_number_literal(s) {
        lemma_literal_shape(s);
    }
}

/// A run of digits in the bytes behind one more byte is the same run,
/// one place further on.
pub proof fn lemma_digits_shift(first: u8, s: Seq<u8>, from: int)
    requires
        0 <= from <= s.len(),
    ensures
        digits_end(seq![first] + s, from + 1) == digits_end(s, from) + 1,
    decreases s.len() - from,
{
    let shifted = seq![first] + s;
    if from < s.len() {
        assert(shifted[from + 1] == s[from]);
        if is_digit(s[from]) {
            lemma_digits_shift(first, s, from + 1);
        }
    }
}

/// A run of digits in the first bytes of a token is the run in the token,
/// cut where the first bytes end.
pub proof fn lemma_digits_prefix(s: Seq<u8>, len: int, from: int)
    requires
        0 <= from <= len <= s.len(),
    ensures
        digits_end(s.subrange(0, len), from) == if digits_end(s, from) <= len {
            digits_end(s, from)
        } else {
            len
        },
    decreases len - from,
{
    lemma_digits_run(s, from);
    if from < len && is_digit(s[from]) {
        lemma_digits_prefix(s, len, from + 1);
    }
}

/// A number literal that shows no sign is one with a `+` before it too.
pub proof fn lemma_plus_before_literal(s: Seq<u8>)
    requires
        is_number_literal(s),
        !is_sign(s[0]),
    ensures
        is_number_literal(seq![PLUS] + s),
{
    let shifted = seq![PLUS] + s;
    assert(shifted[0] == PLUS);
    assert forall|i: int| 0 <= i < s.len() implies shifted[i + 1] == s[i] by {}
    if is_decimal(s, 0) {
        lemma_digits_run(s, 0);
        lemma_digits_shift(PLUS, s, 0);
        let point = digits_end(s, 0);
        if point < s.len() && s[point] == POINT {
            lemma_digits_run(s, point + 1);
            lemma_digits_shift(PLUS, s, point + 1);
        }
        let end = mantissa_end(s, 0);
        assert(mantissa_end(shifted, 1) == end + 1);
        assert(mantissa_digits(shifted, 1) == mantissa_digits(s, 0));
        if end < s.len() {
            let digits = end + 1 + sign_len(s, end + 1);
            assert(shifted[end + 1] == s[end]);
            if end + 1 < s.len() {
                assert(shifted[end + 2] == s[end + 1]);
            }
            assert(sign_len(shifted, end + 2) == sign_len(s, end + 1));
            lemma_digits_shift(PLUS, s, digits);
        }
        assert(is_decimal(shifted, 1));
    } else {
        assert(is_special(s, 0));
        let word = if spells(s, 0, word_inf()) {
            word_inf()
        } else if spells(s, 0, word_infinity()) {
            word_infinity()
        } else {
            word_nan()
        };
        assert forall|i: int| 0 <= i < word.len() implies lower(shifted[1 + i])
            == #[trigger] word[i] by {
            assert(shifted[1 + i] == s[0 + i]);
        }
        assert(spells(shifted, 1, word));
        assert(is_special(shifted, 1));
    }
}

} // verus!
