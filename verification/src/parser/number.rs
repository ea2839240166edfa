//! Decimal number literals, decoded into their exact parts.
//!
//! A literal is an optional `-`, a run of integer digits, an optional `.` with
//! a run of fraction digits, and an optional `e` or `E` followed by another
//! literal that is the exponent. The parts are kept as written, so no
//! precision is lost before a consumer turns them into a machine number.

use vstd::prelude::*;
use crate::utils::string_utils::StringBuilder;
use crate::utils::string_utils::push_char;

verus! {

/// The exact parts of a decimal literal.
#[derive(Debug)]
pub struct Number {
    /// Whether the literal starts with `-`.
    pub negative: bool,
    /// The digits before the decimal point, most significant first.
    pub int_part: String,
    /// The digits after the decimal point.
    pub frac_part: String,
    /// The power of ten the mantissa is scaled by, if one is written.
    pub exponent: Option<Box<Number>>,
}

/// The mathematical value of a [`Number`].
pub ghost struct NumberView {
    pub negative: bool,
    pub int_part: Seq<char>,
    pub frac_part: Seq<char>,
    pub exponent: Option<Box<NumberView>>,
}

impl View for Number {
    type V = NumberView;

    open spec fn view(&self) -> NumberView
        decreases self,
    {
        NumberView {
            negative: self.negative,
            int_part: self.int_part@,
            frac_part: self.frac_part@,
            exponent: match self.exponent {
                Some(e) => Some(Box::new((*e).view())),
                None => None,
            },
        }
    }
}

pub open spec fn is_digit(c: char) -> bool {
    '0' <= c && c <= '9'
}

/// The end of the longest run of digits of `s` that starts at `from`.
pub open spec fn digit_run(s: Seq<char>, from: int) -> int
    decreases s.len() - from,
{
    if 0 <= from < s.len() && is_digit(s[from]) {
        digit_run(s, from + 1)
    } else {
        from
    }
}

/// The number that the text `s[from..]` denotes, or `None` where that text is
/// empty, holds a character that is out of place, or has an exponent mark
/// with no exponent after it.
pub open spec fn decode_from(s: Seq<char>, from: int) -> Option<NumberView>
    decreases s.len() - from,
{
    if from < 0 || from >= s.len() {
        None
    } else {
        let negative = s[from] == '-';
        let a = if negative { from + 1 } else { from };
        let b = digit_run(s, a);
        let has_point = b < s.len() && s[b] == '.';
        let c = if has_point { b + 1 } else { b };
        let d = digit_run(s, c);
        if d < from || d > s.len() {
            None
        } else if d == s.len() {
            Some(NumberView {
                negative,
                int_part: s.subrange(a, b),
                frac_part: s.subrange(c, d),
                exponent: None,
            })
        } else if s[d] == 'e' || s[d] == 'E' {
            match decode_from(s, d + 1) {
                Some(e) => Some(NumberView {
                    negative,
                    int_part: s.subrange(a, b),
                    frac_part: s.subrange(c, d),
                    exponent: Some(Box::new(e)),
                }),
                None => None,
            }
        } else {
            None
        }
    }
}

/// The number that the whole text `s` denotes.
pub open spec fn decode(s: Seq<char>) -> Option<NumberView> {
    decode_from(s, 0)
}

/// Whether a number is written with a point: it has fraction digits, or
/// it has neither a sign nor integer digits, so that without the point
/// its text would be empty or start with the exponent mark.
pub open spec fn has_point(n: NumberView) -> bool {
    n.frac_part.len() > 0 || (!n.negative && n.int_part.len() == 0)
}

/// The text of a number: its sign, its integer digits, a point and its
/// fraction digits where it is written with a point, and `e` with the text
/// of its exponent where it has one.
pub open spec fn number_text(n: NumberView) -> Seq<char>
    decreases n,
{
    (if n.negative {
        seq!['-']
    } else {
        Seq::<char>::empty()
    }) + n.int_part + (if has_point(n) {
        seq!['.'] + n.frac_part
    } else {
        Seq::<char>::empty()
    }) + (match n.exponent {
        Some(e) => seq!['e'] + number_text(*e),
        None => Seq::<char>::empty(),
    })
}

/// Whether a text holds digits only.
pub open spec fn all_digits(s: Seq<char>) -> bool {
    forall|i: int| 0 <= i < s.len() ==> is_digit(#[trigger] s[i])
}

/// Whether the parts of a number, and those of its exponent, hold digits
/// only.
pub open spec fn number_wf(n: NumberView) -> bool
    decreases n,
{
    &&& all_digits(n.int_part)
    &&& all_digits(n.frac_part)
    &&& match n.exponent {
        Some(e) => number_wf(*e),
        None => true,
    }
}

/// A run of digits that ends at the text's end or before a character that
/// is no digit is the longest run from its start.
pub proof fn lemma_digit_run_over(s: Seq<char>, from: int, to: int)
    requires
        0 <= from <= to <= s.len(),
        forall|i: int| from <= i < to ==> is_digit(#[trigger] s[i]),
        to < s.len() ==> !is_digit(s[to]),
    ensures
        digit_run(s, from) == to,
    decreases to - from,
{
    if from < to {
        lemma_digit_run_over(s, from + 1, to);
    }
}

/// The longest run of digits in a text does not depend on what stands
/// before its start.
pub proof fn lemma_digit_run_shift(p: Seq<char>, x: Seq<char>, k: int)
    requires
        0 <= k <= x.len(),
    ensures
        digit_run(p + x, p.len() + k) == p.len() + digit_run(x, k),
    decreases x.len() - k,
{
    if k < x.len() && is_digit(x[k]) {
        assert((p + x)[p.len() + k] == x[k]);
        lemma_digit_run_shift(p, x, k + 1);
    } else if k < x.len() {
        assert((p + x)[p.len() + k] == x[k]);
    }
}

/// What a text decodes to from a position on does not depend on what
/// stands before that position.
#[verifier::rlimit(50)]
pub proof fn lemma_decode_shift(p: Seq<char>, x: Seq<char>, k: int)
    requires
        0 <= k <= x.len(),
    ensures
        decode_from(p + x, p.len() + k) == decode_from(x, k),
    decreases x.len() - k,
{
    let s = p + x;
    let n = p.len() as int;
    if k < x.len() {
        assert(s[n + k] == x[k]);
        let negative = x[k] == '-';
        let a = if negative { k + 1 } else { k };
        lemma_digit_run_bounds(x, a);
        lemma_digit_run_shift(p, x, a);
        let b = digit_run(x, a);
        if b < x.len() {
            assert(s[n + b] == x[b]);
        }
        let has_point = b < x.len() && x[b] == '.';
        let c = if has_point { b + 1 } else { b };
        lemma_digit_run_bounds(x, c);
        lemma_digit_run_shift(p, x, c);
        let d = digit_run(x, c);
        assert(s.subrange(n + a, n + b) =~= x.subrange(a, b));
        assert(s.subrange(n + c, n + d) =~= x.subrange(c, d));
        if d < x.len() {
            assert(s[n + d] == x[d]);
            if x[d] == 'e' || x[d] == 'E' {
                lemma_decode_shift(p, x, d + 1);
            }
        }
    }
}

/// Where the mantissa of a number stands in its text: the sign, the
/// integer digits, the point and the fraction digits, in this order, and
/// after them the text's end or the exponent mark.
#[verifier::rlimit(50)]
proof fn lemma_mantissa_layout(n: NumberView)
    requires
        all_digits(n.int_part),
        all_digits(n.frac_part),
    ensures
        number_text(n).len() > 0,
        ({
            let s = number_text(n);
            let a: int = if n.negative { 1 } else { 0 };
            let b = a + n.int_part.len();
            let c = if has_point(n) { b + 1 } else { b };
            let d = c + n.frac_part.len();
            &&& (s[0] == '-') == n.negative
            &&& digit_run(s, a) == b
            &&& (b < s.len() && s[b] == '.') == has_point(n)
            &&& digit_run(s, c) == d
            &&& s.subrange(a, b) == n.int_part
            &&& s.subrange(c, d) == n.frac_part
            &&& d <= s.len()
            &&& (n.exponent is None ==> d == s.len())
            &&& (n.exponent is Some ==> d < s.len() && s[d] == 'e' && s == s.subrange(0, d + 1)
                + number_text(*n.exponent->0))
        }),
{
    let s = number_text(n);
    let sign = if n.negative { seq!['-'] } else { Seq::<char>::empty() };
    let point = if has_point(n) { seq!['.'] + n.frac_part } else { Seq::<char>::empty() };
    let tail = match n.exponent {
        Some(e) => seq!['e'] + number_text(*e),
        None => Seq::<char>::empty(),
    };
    assert(s == sign + n.int_part + point + tail);
    let a = sign.len() as int;
    let b = a + n.int_part.len();
    assert forall|i: int| a <= i < b implies is_digit(#[trigger] s[i]) by {
        assert(s[i] == n.int_part[i - a]);
    }
    if has_point(n) {
        assert(s[b] == '.');
    } else if n.exponent is Some {
        assert(s[b] == 'e');
    }
    lemma_digit_run_over(s, a, b);
    if !n.negative {
        if n.int_part.len() > 0 {
            assert(s[0] == n.int_part[0]);
        }
    } else {
        assert(s[0] == '-');
    }
    let c = if has_point(n) { b + 1 } else { b };
    let d = c + n.frac_part.len();
    assert forall|i: int| c <= i < d implies is_digit(#[trigger] s[i]) by {
        assert(s[i] == n.frac_part[i - c]);
    }
    if n.exponent is Some {
        assert(s[d] == 'e');
        assert(s =~= s.subrange(0, d + 1) + number_text(*n.exponent->0));
    }
    lemma_digit_run_over(s, c, d);
    assert(s.subrange(a, b) =~= n.int_part);
    assert(s.subrange(c, d) =~= n.frac_part);
}

/// The text of a number whose parts hold digits only decodes to that
/// number.
#[verifier::rlimit(50)]
pub proof fn law_number_text_decodes(n: NumberView)
    requires
        number_wf(n),
    ensures
        decode(number_text(n)) == Some(n),
    decreases n,
{
    let s = number_text(n);
    lemma_mantissa_layout(n);
    let a: int = if n.negative { 1 } else { 0 };
    let b = a + n.int_part.len();
    let c = if has_point(n) { b + 1 } else { b };
    let d = c + n.frac_part.len();
    match n.exponent {
        Some(e) => {
            law_number_text_decodes(*e);
            lemma_decode_shift(s.subrange(0, d + 1), number_text(*e), 0);
            assert(decode_from(s, d + 1) == Some(*e));
            assert(Box::new(*e) == e);
        },
        None => {},
    }
}

/// A run of digits ends within the text, holds digits only, and ends
/// before a character that is no digit.
pub proof fn lemma_digit_run_bounds(s: Seq<char>, from: int)
    requires
        0 <= from <= s.len(),
    ensures
        from <= digit_run(s, from) <= s.len(),
        forall|i: int| from <= i < digit_run(s, from) ==> is_digit(#[trigger] s[i]),
        digit_run(s, from) < s.len() ==> !is_digit(s[digit_run(s, from)]),
    decreases s.len() - from,
{
    if from < s.len() && is_digit(s[from]) {
        lemma_digit_run_bounds(s, from + 1);
    }
}

/// Copies the digits of `text` from `from` on into a fresh string and returns
/// it with the index of the first character that is no digit.
fn take_digits(text: &[char], from: usize) -> (r: (String, usize))
    requires
        from <= text@.len(),
    ensures
        r.1 == digit_run(text@, from as int),
        r.0@ == text@.subrange(from as int, r.1 as int),
        from <= r.1 <= text@.len(),
{
    let mut digits = String::new();
    let mut i: usize = from;
    proof {
        lemma_digit_run_bounds(text@, from as int);
    }
    while i < text.len() && text[i] >= '0' && text[i] <= '9'
        invariant
            from <= i <= text@.len(),
            digit_run(text@, from as int) == digit_run(text@, i as int),
            digits@ == text@.subrange(from as int, i as int),
        decreases text@.len() - i,
    {
        push_char(&mut digits, text[i]);
        i += 1;
        assert(digits@ =~= text@.subrange(from as int, i as int));
    }
    assert(digits@ =~= text@.subrange(from as int, i as int));
    (digits, i)
}

/// Decodes the literal that starts at `from` in `text`.
pub fn to_num_from(text: &[char], from: usize) -> (r: Option<Number>)
    ensures
        match r {
            Some(n) => decode_from(text@, from as int) == Some(n@),
            None => decode_from(text@, from as int) is None,
        },
    decreases text@.len() - from,
{
    if from >= text.len() {
        return None;
    }
    let negative = text[from] == '-';
    let a: usize = if negative { from + 1 } else { from };
    let (int_part, b) = take_digits(text, a);
    let has_point = b < text.len() && text[b] == '.';
    let c: usize = if has_point { b + 1 } else { b };
    let (frac_part, d) = take_digits(text, c);
    if d == text.len() {
        Some(Number { negative, int_part, frac_part, exponent: None })
    } else if text[d] == 'e' || text[d] == 'E' {
        match to_num_from(text, d + 1) {
            Some(e) => Some(Number { negative, int_part, frac_part, exponent: Some(Box::new(e)) }),
            None => None,
        }
    } else {
        None
    }
}

/// Decodes a whole literal: sign, integer digits, fraction digits and, after
/// an `e` or `E`, the exponent, which is a literal of its own.
pub fn to_num(input: &String) -> (r: Option<Number>)
    ensures
        match r {
            Some(n) => decode(input@) == Some(n@),
            None => decode(input@) is None,
        },
{
    let mut buffer = StringBuilder::new(0);
    buffer.append_string(input);
    to_num_from(buffer.as_slice(), 0)
}

impl Number {
    /// The value of [`Number::zero`].
    pub open spec fn zero_view() -> NumberView {
        NumberView {
            negative: false,
            int_part: seq!['0'],
            frac_part: Seq::<char>::empty(),
            exponent: None,
        }
    }

    /// The number zero, written `0`.
    pub fn zero() -> (r: Self)
        ensures
            r@ == Self::zero_view(),
    {
        let mut int_part = String::new();
        push_char(&mut int_part, '0');
        Number { negative: false, int_part, frac_part: String::new(), exponent: None }
    }
}

} // verus!
