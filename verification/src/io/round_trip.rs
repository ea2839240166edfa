//! Reading back what the writer wrote.
//!
//! The lemmas here say what the lexer reads where a token's text stands in
//! a longer text, and what the parser reads where a written document does.

use vstd::prelude::*;
use crate::parser::lexer::LexError;
use crate::parser::lexer::NumberScan;
use crate::parser::lexer::is_ascii_letter;
use crate::parser::lexer::is_structural;
use crate::parser::lexer::is_whitespace;
use crate::parser::lexer::is_word_char;
use crate::parser::lexer::lex_at;
use crate::parser::lexer::scan_number;
use crate::parser::lexer::scan_string;
use crate::parser::lexer::skip_whitespace;
use crate::parser::lexer::word_end;
use crate::parser::lexer::word_token;
use crate::parser::number::NumberView;
use crate::parser::number::all_digits;
use crate::parser::number::decode;
use crate::parser::number::has_point;
use crate::parser::number::is_digit;
use crate::parser::number::law_number_text_decodes;
use crate::parser::number::number_text;
use crate::parser::number::number_wf;
use crate::io::writer::deeper;
use crate::io::writer::render;
use crate::io::writer::render_entries;
use crate::io::writer::render_items;
use crate::io::writer::spaces;
use crate::parser::parser::parse_array;
use crate::parser::parser::parse_document;
use crate::parser::parser::parse_object;
use crate::parser::parser::parse_value;
use crate::parser::token::TokenView;
use crate::rnodes::rnode::RNodeView;
use crate::rnodes::rnode_object::insert_position_view;
use crate::rnodes::rnode_object::put_entry_view;
use crate::rnodes::rnode_object::lemma_text_less_total;
use crate::rnodes::rnode_object::lemma_text_less_transitive;
use crate::rnodes::rnode_object::text_less;

verus! {

/// Whether the text `r` stands in `t` from the position `p` on.
pub open spec fn sits_at(t: Seq<char>, p: int, r: Seq<char>) -> bool {
    &&& 0 <= p
    &&& p + r.len() <= t.len()
    &&& forall|i: int| 0 <= i < r.len() ==> t[p + i] == #[trigger] r[i]
}

/// Whether `t` holds nothing but whitespace from `q` up to `m`, and
/// something else, or its end, at `m`.
pub open spec fn blank(t: Seq<char>, q: int, m: int) -> bool {
    &&& 0 <= q <= m <= t.len()
    &&& forall|i: int| q <= i < m ==> is_whitespace(#[trigger] t[i])
    &&& (m < t.len() ==> !is_whitespace(t[m]))
}

/// Whether a word or a number that ends before `at` ends there for the
/// lexer too: the text ends at `at`, or holds there a character that
/// continues neither.
pub open spec fn stops(t: Seq<char>, at: int) -> bool {
    at >= t.len() || (0 <= at && !is_word_char(t[at]) && t[at] != '.' && t[at] != '-')
}

/// Where two texts stand one after the other, each of them stands.
pub proof fn lemma_sits_split(t: Seq<char>, p: int, a: Seq<char>, b: Seq<char>)
    requires
        sits_at(t, p, a + b),
    ensures
        sits_at(t, p, a),
        sits_at(t, p + a.len(), b),
{
    assert forall|i: int| 0 <= i < a.len() implies t[p + i] == #[trigger] a[i] by {
        assert((a + b)[i] == a[i]);
    }
    assert forall|i: int| 0 <= i < b.len() implies t[p + a.len() + i] == #[trigger] b[i] by {
        assert((a + b)[a.len() + i] == b[i]);
    }
}

/// Skipping whitespace from the start of a blank stretch leads to its end.
pub proof fn lemma_skip_blank(t: Seq<char>, q: int, m: int)
    requires
        blank(t, q, m),
    ensures
        skip_whitespace(t, q) == m,
    decreases m - q,
{
    if q < m {
        lemma_skip_blank(t, q + 1, m);
    }
}

/// After a blank stretch, one of `{ } [ ] , :` is read as that symbol.
pub proof fn lemma_lex_symbol_at(t: Seq<char>, q: int, m: int, stringify: bool)
    requires
        blank(t, q, m),
        m < t.len(),
        is_structural(t[m]),
    ensures
        lex_at(t, q, stringify) == Ok::<(TokenView, int), LexError>(
            (TokenView::Symbol(seq![t[m]]), m + 1),
        ),
{
    lemma_skip_blank(t, q, m);
}

proof fn lemma_word_end_run(t: Seq<char>, from: int, to: int)
    requires
        0 <= from <= to <= t.len(),
        forall|i: int| from <= i < to ==> is_word_char(#[trigger] t[i]),
        to < t.len() ==> !is_word_char(t[to]),
    ensures
        word_end(t, from) == to,
    decreases to - from,
{
    if from < to {
        lemma_word_end_run(t, from + 1, to);
    }
}

/// After a blank stretch, a word of letters and digits that starts with
/// an ASCII letter and is followed by no further letter or digit is read as
/// the token of that word.
pub proof fn lemma_lex_word_at(t: Seq<char>, q: int, m: int, word: Seq<char>, stringify: bool)
    requires
        blank(t, q, m),
        sits_at(t, m, word),
        word.len() > 0,
        is_ascii_letter(word[0]),
        forall|i: int| 0 <= i < word.len() ==> is_word_char(#[trigger] word[i]),
        m + word.len() < t.len() ==> !is_word_char(t[m + word.len()]),
    ensures
        lex_at(t, q, stringify) == Ok::<(TokenView, int), LexError>(
            (word_token(word), m + word.len()),
        ),
{
    lemma_skip_blank(t, q, m);
    let end = m + word.len();
    assert(t[m] == word[0]);
    assert forall|i: int| m + 1 <= i < end implies is_word_char(#[trigger] t[i]) by {
        assert(t[m + (i - m)] == word[i - m]);
    }
    lemma_word_end_run(t, m + 1, end);
    assert(t.subrange(m, end) =~= word);
}

/// Whether a text holds neither a quote nor a backslash.
pub open spec fn plain_text(text: Seq<char>) -> bool {
    forall|i: int| 0 <= i < text.len() ==> #[trigger] text[i] != '"' && text[i] != '\\'
}

proof fn lemma_scan_plain(t: Seq<char>, from: int, to: int, stringify: bool)
    requires
        0 <= from <= to < t.len(),
        forall|i: int| from <= i < to ==> #[trigger] t[i] != '"' && t[i] != '\\',
        t[to] == '"',
    ensures
        scan_string(t, from, stringify) == Ok::<(Seq<char>, int), LexError>(
            (t.subrange(from, to), to + 1),
        ),
    decreases to - from,
{
    if from < to {
        lemma_scan_plain(t, from + 1, to, stringify);
        assert(seq![t[from]] + t.subrange(from + 1, to) =~= t.subrange(from, to));
    } else {
        assert(t.subrange(from, to) =~= Seq::<char>::empty());
    }
}

/// After a blank stretch, a plain text between quotes is read as the
/// string of that text.
pub proof fn lemma_lex_string_at(t: Seq<char>, q: int, m: int, text: Seq<char>, stringify: bool)
    requires
        blank(t, q, m),
        sits_at(t, m, seq!['"'] + text + seq!['"']),
        plain_text(text),
    ensures
        lex_at(t, q, stringify) == Ok::<(TokenView, int), LexError>(
            (TokenView::String(text), m + text.len() + 2),
        ),
{
    lemma_skip_blank(t, q, m);
    let whole = seq!['"'] + text + seq!['"'];
    let close: int = m + 1 + text.len();
    assert(t[m + 0] == whole[0]);
    assert(t[m + (text.len() + 1)] == whole[text.len() + 1 as int]);
    assert forall|i: int| m + 1 <= i < close implies #[trigger] t[i] != '"' && t[i] != '\\' by {
        assert(t[m + (i - m)] == whole[i - m]);
        assert(whole[i - m] == text[i - m - 1]);
    }
    lemma_scan_plain(t, m + 1, close, stringify);
    assert forall|i: int| 0 <= i < text.len() implies t.subrange(m + 1, close)[i] == text[i] by {
        assert(t[m + (i + 1)] == whole[i + 1]);
    }
    assert(t.subrange(m + 1, close) =~= text);
}

/// Whether the lexer reads the text of a number as that number: the parts
/// hold digits only, of which there is at least one; the exponent has no
/// exponent of its own; and no more than one of mantissa and exponent is
/// written with a point.
pub open spec fn lexable_number(n: NumberView) -> bool {
    &&& all_digits(n.int_part)
    &&& all_digits(n.frac_part)
    &&& match n.exponent {
        None => n.int_part.len() + n.frac_part.len() > 0,
        Some(e) => {
            &&& e.exponent is None
            &&& all_digits(e.int_part)
            &&& all_digits(e.frac_part)
            &&& !(has_point(n) && has_point(*e))
            &&& n.int_part.len() + n.frac_part.len() + e.int_part.len() + e.frac_part.len() > 0
        },
    }
}

/// Where a scan of a number stands at `at`, in a number that starts at `m`
/// with its point at `point` and its exponent mark at `mark`.
pub open spec fn scan_state(t: Seq<char>, m: int, point: int, mark: int, at: int) -> NumberScan {
    NumberScan {
        pos: at,
        seen_point: m <= point < at,
        seen_exponent: m <= mark < at,
        seen_digit: exists|k: int| m <= k < at && is_digit(#[trigger] t[k]),
        after_exponent: m <= mark && mark == at - 1,
    }
}

/// Whether the characters of `t` from `m` up to `end` are digits but for a
/// `.` at `point`, an `e` at `mark`, and a `-` at `m` or right after `mark`.
pub open spec fn number_shaped(t: Seq<char>, m: int, end: int, point: int, mark: int) -> bool {
    &&& 0 <= m < end <= t.len()
    &&& mark != m
    &&& point != mark
    &&& (m <= point < end ==> t[point] == '.')
    &&& (m <= mark < end ==> t[mark] == 'e')
    &&& forall|k: int|
        m <= k < end ==> {
            ||| is_digit(#[trigger] t[k])
            ||| (k == point && t[k] == '.')
            ||| (k == mark && t[k] == 'e')
            ||| (k == m && t[k] == '-')
            ||| (k == mark + 1 && m < mark && t[k] == '-')
        }
}

#[verifier::rlimit(50)]
proof fn lemma_scan_number_shaped(
    t: Seq<char>,
    m: int,
    end: int,
    point: int,
    mark: int,
    at: int,
)
    requires
        number_shaped(t, m, end, point, mark),
        m < at <= end,
        stops(t, end),
    ensures
        scan_number(t, scan_state(t, m, point, mark, at)) == Ok::<NumberScan, LexError>(
            scan_state(t, m, point, mark, end),
        ),
    decreases end - at,
{
    let here = scan_state(t, m, point, mark, at);
    if at < end {
        let c = t[at];
        let next = scan_state(t, m, point, mark, at + 1);
        lemma_scan_number_shaped(t, m, end, point, mark, at + 1);
        if is_digit(c) {
            assert(next.seen_digit);
        } else {
            if next.seen_digit {
                let k = choose|k: int| m <= k < at + 1 && is_digit(#[trigger] t[k]);
                assert(m <= k < at && is_digit(t[k]));
            }
            if here.seen_digit {
                let k = choose|k: int| m <= k < at && is_digit(#[trigger] t[k]);
                assert(m <= k < at + 1 && is_digit(t[k]));
            }
            assert(next.seen_digit == here.seen_digit);
        }
    }
}

/// Whether a digit stands in `t` from `m` up to `end`.
pub open spec fn has_digit(t: Seq<char>, m: int, end: int) -> bool {
    exists|k: int| m <= k < end && is_digit(#[trigger] t[k])
}

#[verifier::rlimit(50)]
proof fn lemma_shape_without_exponent(t: Seq<char>, m: int, n: NumberView) -> (r: (int, int))
    requires
        sits_at(t, m, number_text(n)),
        lexable_number(n),
        n.exponent is None,
    ensures
        number_text(n).len() > 0,
        number_shaped(t, m, m + number_text(n).len(), r.0, r.1),
        has_digit(t, m, m + number_text(n).len()),
        t[m] != 'e',
{
    let x = number_text(n);
    let sign = if n.negative { seq!['-'] } else { Seq::<char>::empty() };
    let frac = if has_point(n) { seq!['.'] + n.frac_part } else { Seq::<char>::empty() };
    let a = sign.len() as int;
    let b = a + n.int_part.len();
    assert(x =~= sign + n.int_part + frac);
    let point = if has_point(n) { m + b } else { -1 };
    let mark = -2;
    assert forall|i: int| 0 <= i < x.len() implies {
        ||| is_digit(#[trigger] x[i])
        ||| (i == b && has_point(n) && x[i] == '.')
        ||| (i == 0 && x[i] == '-')
    } by {
        if i < a {
        } else if i < b {
            assert(x[i] == n.int_part[i - a]);
        } else if i == b {
        } else {
            assert(x[i] == n.frac_part[i - b - 1]);
        }
    }
    assert forall|k: int| m <= k < m + x.len() implies {
        ||| is_digit(#[trigger] t[k])
        ||| (k == point && t[k] == '.')
        ||| (k == mark && t[k] == 'e')
        ||| (k == m && t[k] == '-')
        ||| (k == mark + 1 && m < mark && t[k] == '-')
    } by {
        assert(t[m + (k - m)] == x[k - m]);
    }
    if has_point(n) {
        assert(t[m + b] == x[b]);
    }
    let w = if n.int_part.len() > 0 { a } else { b + 1 };
    assert(t[m + w] == x[w]);
    assert(is_digit(x[w])) by {
        if n.int_part.len() > 0 {
            assert(x[w] == n.int_part[0]);
        } else {
            assert(x[w] == n.frac_part[0]);
        }
    }
    assert(is_digit(t[m + w]));
    assert(t[m + 0] == x[0]);
    (point, mark)
}

#[verifier::rlimit(50)]
proof fn lemma_shape_with_exponent(t: Seq<char>, m: int, n: NumberView) -> (r: (int, int))
    requires
        sits_at(t, m, number_text(n)),
        lexable_number(n),
        n.exponent is Some,
    ensures
        number_text(n).len() > 0,
        number_shaped(t, m, m + number_text(n).len(), r.0, r.1),
        has_digit(t, m, m + number_text(n).len()),
        t[m] != 'e',
{
    reveal_with_fuel(number_text, 2);
    let e = n.exponent->0;
    let x = number_text(n);
    let sign = if n.negative { seq!['-'] } else { Seq::<char>::empty() };
    let frac = if has_point(n) { seq!['.'] + n.frac_part } else { Seq::<char>::empty() };
    let a = sign.len() as int;
    let b = a + n.int_part.len();
    let d = b + frac.len();
    let esign = if e.negative { seq!['-'] } else { Seq::<char>::empty() };
    let efrac = if has_point(*e) { seq!['.'] + e.frac_part } else { Seq::<char>::empty() };
    assert(number_text(*e) =~= esign + e.int_part + efrac);
    assert(x =~= sign + n.int_part + frac + (seq!['e'] + (esign + e.int_part + efrac)));
    let g = d + 1 + esign.len();
    let h = g + e.int_part.len();
    let dot = if has_point(n) {
        b
    } else if has_point(*e) {
        h
    } else {
        -1 - m
    };
    assert forall|i: int| 0 <= i < x.len() implies {
        ||| is_digit(#[trigger] x[i])
        ||| (i == dot && x[i] == '.')
        ||| (i == d && x[i] == 'e')
        ||| (i == 0 && x[i] == '-')
        ||| (i == d + 1 && x[i] == '-')
    } by {
        if i < a {
        } else if i < b {
            assert(x[i] == n.int_part[i - a]);
        } else if i < d {
            if i == b {
            } else {
                assert(x[i] == n.frac_part[i - b - 1]);
            }
        } else if i == d {
        } else if i < g {
        } else if i < h {
            assert(x[i] == e.int_part[i - g]);
        } else if i == h {
        } else {
            assert(x[i] == e.frac_part[i - h - 1]);
        }
    }
    let point = m + dot;
    let mark = m + d;
    assert(x[d] == 'e');
    assert(t[m + d] == x[d]);
    if dot >= 0 {
        assert(x[dot] == '.');
        assert(t[m + dot] == x[dot]);
    }
    assert(t[m + 0] == x[0]);
    assert(x[0] != 'e') by {
        if n.negative {
        } else if n.int_part.len() > 0 {
            assert(x[0] == n.int_part[0]);
        } else {
        }
    }
    assert forall|k: int| m <= k < m + x.len() implies {
        ||| is_digit(#[trigger] t[k])
        ||| (k == point && t[k] == '.')
        ||| (k == mark && t[k] == 'e')
        ||| (k == m && t[k] == '-')
        ||| (k == mark + 1 && m < mark && t[k] == '-')
    } by {
        assert(t[m + (k - m)] == x[k - m]);
    }
    let w = if n.int_part.len() > 0 {
        a
    } else if n.frac_part.len() > 0 {
        b + 1
    } else if e.int_part.len() > 0 {
        g
    } else {
        h + 1
    };
    assert(is_digit(x[w])) by {
        if n.int_part.len() > 0 {
            assert(x[w] == n.int_part[0]);
        } else if n.frac_part.len() > 0 {
            assert(x[w] == n.frac_part[0]);
        } else if e.int_part.len() > 0 {
            assert(x[w] == e.int_part[0]);
        } else {
            assert(x[w] == e.frac_part[0]);
        }
    }
    assert(t[m + w] == x[w]);
    assert(is_digit(t[m + w]));
    (point, mark)
}

/// After a blank stretch, the text of a number that the lexer can read,
/// followed by nothing that continues a number or a word, is read as
/// that number.
#[verifier::rlimit(50)]
pub proof fn lemma_lex_number_at(t: Seq<char>, q: int, m: int, n: NumberView, stringify: bool)
    requires
        blank(t, q, m),
        sits_at(t, m, number_text(n)),
        lexable_number(n),
        stops(t, m + number_text(n).len()),
    ensures
        number_text(n).len() > 0,
        lex_at(t, q, stringify) == Ok::<(TokenView, int), LexError>(
            (TokenView::Double(n), m + number_text(n).len()),
        ),
{
    lemma_skip_blank(t, q, m);
    let x = number_text(n);
    let (point, mark) = if n.exponent is None {
        lemma_shape_without_exponent(t, m, n)
    } else {
        lemma_shape_with_exponent(t, m, n)
    };
    let end = m + x.len();
    lemma_scan_number_shaped(t, m, end, point, mark, m + 1);
    assert(scan_state(t, m, point, mark, m + 1).seen_digit == is_digit(t[m])) by {
        if scan_state(t, m, point, mark, m + 1).seen_digit {
            let k = choose|k: int| m <= k < m + 1 && is_digit(#[trigger] t[k]);
            assert(k == m);
        }
    }
    assert(scan_state(t, m, point, mark, end).seen_digit);
    assert(number_wf(n)) by {
        reveal_with_fuel(number_wf, 2);
        reveal_with_fuel(number_text, 2);
    }
    law_number_text_decodes(n);
    assert(t.subrange(m, end) =~= x);
}

/// Whether a character is `e` or `E`.
pub open spec fn is_mark(c: char) -> bool {
    c == 'e' || c == 'E'
}

/// What a scan of a number that succeeds says of the characters it went
/// over, from the position of `st` up to that of `fin`: each is a digit, a
/// point, an exponent mark or a `-`; there is one point at most, and none
/// if one was seen before; the same holds of the exponent mark; a `-`
/// follows an exponent mark directly; and a digit was seen in the end
/// exactly if one had been seen before or one is among them.
pub open spec fn scan_facts(t: Seq<char>, st: NumberScan, fin: NumberScan) -> bool {
    &&& st.pos <= fin.pos <= t.len()
    &&& forall|k: int|
        st.pos <= k < fin.pos ==> is_digit(#[trigger] t[k]) || t[k] == '.' || is_mark(t[k]) || t[k]
            == '-'
    &&& (st.seen_point ==> forall|k: int| st.pos <= k < fin.pos ==> #[trigger] t[k] != '.')
    &&& forall|j: int, k: int|
        #![trigger t[j], t[k]]
        st.pos <= j < k < fin.pos ==> !(t[j] == '.' && t[k] == '.')
    &&& (st.seen_exponent ==> forall|k: int| st.pos <= k < fin.pos ==> !is_mark(#[trigger] t[k]))
    &&& forall|j: int, k: int|
        #![trigger t[j], t[k]]
        st.pos <= j < k < fin.pos ==> !(is_mark(t[j]) && is_mark(t[k]))
    &&& forall|k: int|
        st.pos <= k < fin.pos && #[trigger] t[k] == '-' ==> (if k == st.pos {
            st.after_exponent
        } else {
            is_mark(t[k - 1])
        })
    &&& fin.seen_digit == (st.seen_digit || has_digit(t, st.pos, fin.pos))
}

#[verifier::rlimit(50)]
proof fn lemma_scan_facts(t: Seq<char>, st: NumberScan)
    requires
        scan_number(t, st) is Ok,
        0 <= st.pos <= t.len(),
    ensures
        scan_facts(t, st, scan_number(t, st)->Ok_0),
    decreases t.len() - st.pos,
{
    let fin = scan_number(t, st)->Ok_0;
    if st.pos < t.len() {
        let c = t[st.pos];
        if is_digit(c) || c == '.' || is_mark(c) || c == '-' {
            let next = NumberScan {
                pos: st.pos + 1,
                seen_point: st.seen_point || c == '.',
                seen_exponent: st.seen_exponent || is_mark(c),
                seen_digit: st.seen_digit || is_digit(c),
                after_exponent: is_mark(c),
            };
            assert(scan_number(t, st) == scan_number(t, next));
            lemma_scan_facts(t, next);
            assert(scan_facts(t, next, fin));
            if has_digit(t, next.pos, fin.pos) {
                let k = choose|k: int| next.pos <= k < fin.pos && is_digit(#[trigger] t[k]);
                assert(st.pos <= k < fin.pos && is_digit(t[k]));
            }
            if has_digit(t, st.pos, fin.pos) && !is_digit(c) {
                let k = choose|k: int| st.pos <= k < fin.pos && is_digit(#[trigger] t[k]);
                assert(next.pos <= k < fin.pos && is_digit(t[k]));
            }
            if is_digit(c) {
                assert(st.pos <= st.pos < fin.pos && is_digit(t[st.pos]));
            }
            assert(fin.seen_digit == (st.seen_digit || has_digit(t, st.pos, fin.pos)));
            assert forall|k: int| st.pos <= k < fin.pos && #[trigger] t[k] == '-' implies (if k
                == st.pos {
                st.after_exponent
            } else {
                is_mark(t[k - 1])
            }) by {
                if k == st.pos + 1 {
                    assert(next.after_exponent);
                }
            }
        } else {
            assert(!has_digit(t, st.pos, fin.pos));
        }
    } else {
        assert(!has_digit(t, st.pos, fin.pos));
    }
}

/// Every number that the lexer reads is one whose text it reads back:
/// a number token that starts with a digit, a point or a `-` holds a
/// [`lexable_number`].
#[verifier::rlimit(50)]
pub proof fn law_lexed_number_reads_back(t: Seq<char>, start: int, n: NumberView, end: int)
    requires
        0 <= start < t.len(),
        is_digit(t[start]) || t[start] == '.' || t[start] == '-',
        crate::parser::lexer::lex_number(t, start) == Ok::<(TokenView, int), LexError>(
            (TokenView::Double(n), end),
        ),
    ensures
        lexable_number(n),
{
    let first = NumberScan {
        pos: start + 1,
        seen_point: t[start] == '.',
        seen_exponent: false,
        seen_digit: is_digit(t[start]),
        after_exponent: false,
    };
    lemma_scan_facts(t, first);
    let fin = scan_number(t, first)->Ok_0;
    assert(fin.pos == end);
    let x = t.subrange(start, end);
    let len = end - start;
    assert(decode(x) == Some(n));
    assert forall|i: int| 0 <= i < len implies #[trigger] x[i] == t[start + i] by {}
    // what the scan says, told of the number's own text
    assert forall|i: int| 0 <= i < len implies is_digit(#[trigger] x[i]) || x[i] == '.' || is_mark(
        x[i],
    ) || x[i] == '-' by {
        if i > 0 {
            assert(is_digit(t[start + i]) || t[start + i] == '.' || is_mark(t[start + i]) || t[start
                + i] == '-');
        }
    }
    assert forall|i: int, j: int| 0 <= i < j < len implies !(#[trigger] x[i] == '.' && #[trigger] x[j]
        == '.') by {
        if i == 0 {
            if t[start] == '.' {
                assert(t[start + j] != '.');
            }
        } else {
            assert(!(t[start + i] == '.' && t[start + j] == '.'));
        }
    }
    assert forall|i: int, j: int| 0 <= i < j < len implies !(is_mark(#[trigger] x[i]) && is_mark(
        #[trigger] x[j],
    )) by {
        if i > 0 {
            assert(!(is_mark(t[start + i]) && is_mark(t[start + j])));
        }
    }
    assert forall|i: int| 0 < i < len && #[trigger] x[i] == '-' implies is_mark(x[i - 1]) by {
        assert(t[start + i] == '-');
        if i == 1 {
            assert(first.after_exponent);
        } else {
            assert(is_mark(t[start + i - 1]));
        }
    }
    let w = choose|w: int| 0 <= w < len && is_digit(#[trigger] x[w]);
    assert(exists|w: int| 0 <= w < len && is_digit(#[trigger] x[w])) by {
        if is_digit(t[start]) {
            assert(is_digit(x[0]));
        } else {
            let k = choose|k: int| start + 1 <= k < end && is_digit(#[trigger] t[k]);
            assert(is_digit(x[k - start]));
        }
    }
    let point = if exists|i: int| 0 <= i < len && #[trigger] x[i] == '.' {
        choose|i: int| 0 <= i < len && #[trigger] x[i] == '.'
    } else {
        -1
    };
    let mark = if exists|i: int| 0 <= i < len && is_mark(#[trigger] x[i]) {
        choose|i: int| 0 <= i < len && is_mark(#[trigger] x[i])
    } else {
        -1
    };
    assert forall|i: int| 0 <= i < len && #[trigger] x[i] == '.' implies i == point by {
        if i < point {
            assert(!(x[i] == '.' && x[point] == '.'));
        } else if point < i {
            assert(!(x[point] == '.' && x[i] == '.'));
        }
    }
    assert forall|i: int| 0 <= i < len && is_mark(#[trigger] x[i]) implies i == mark by {
        if i < mark {
            assert(!(is_mark(x[i]) && is_mark(x[mark])));
        } else if mark < i {
            assert(!(is_mark(x[mark]) && is_mark(x[i])));
        }
    }
    lemma_decoded_is_lexable(x, n, point, mark);
}

/// A text of digits, points, exponent marks and `-` signs that holds a
/// digit, no point but at `point` and no exponent mark but at `mark`, and a
/// `-` only at its start or right after the exponent mark, and that does
/// not start with the exponent mark, decodes to nothing but a
/// [`lexable_number`].
#[verifier::rlimit(50)]
proof fn lemma_decoded_is_lexable(x: Seq<char>, n: NumberView, point: int, mark: int)
    requires
        decode(x) == Some(n),
        x.len() > 0,
        !is_mark(x[0]),
        forall|i: int|
            0 <= i < x.len() ==> is_digit(#[trigger] x[i]) || x[i] == '.' || is_mark(x[i]) || x[i]
                == '-',
        forall|i: int| 0 <= i < x.len() && #[trigger] x[i] == '.' ==> i == point,
        forall|i: int| 0 <= i < x.len() && is_mark(#[trigger] x[i]) ==> i == mark,
        forall|i: int| 0 < i < x.len() && #[trigger] x[i] == '-' ==> is_mark(x[i - 1]),
        exists|w: int| 0 <= w < x.len() && is_digit(#[trigger] x[w]),
    ensures
        lexable_number(n),
{
    reveal_with_fuel(crate::parser::number::decode_from, 2);
    let len = x.len() as int;
    let w = choose|w: int| 0 <= w < x.len() && is_digit(#[trigger] x[w]);
    let negative = x[0] == '-';
    let a: int = if negative { 1 } else { 0 };
    crate::parser::number::lemma_digit_run_bounds(x, a);
    let b = crate::parser::number::digit_run(x, a);
    let pointed = b < len && x[b] == '.';
    let c = if pointed { b + 1 } else { b };
    crate::parser::number::lemma_digit_run_bounds(x, c);
    let d = crate::parser::number::digit_run(x, c);
    assert(n.int_part == x.subrange(a, b));
    assert(n.frac_part == x.subrange(c, d));
    assert forall|i: int| 0 <= i < n.int_part.len() implies is_digit(#[trigger] n.int_part[i]) by {
        assert(is_digit(x[a + i]));
    }
    assert forall|i: int| 0 <= i < n.frac_part.len() implies is_digit(#[trigger] n.frac_part[i]) by {
        assert(is_digit(x[c + i]));
    }
    if has_point(n) {
        // the text holds a point at `b`
        assert(pointed) by {
            if !pointed {
                assert(d == b);
            }
        }
    }
    if d == len {
        assert(a <= w < b || c <= w < d) by {
            if w < a {
                assert(x[0] == '-');
            } else if w >= b && w < c {
                assert(x[b] == '.');
            }
        }
    } else {
        assert(is_mark(x[d]));
        let from = d + 1;
        let e = *n.exponent->0;
        assert(crate::parser::number::decode_from(x, from) == Some(e));
        let e_negative = x[from] == '-';
        let ea: int = if e_negative { from + 1 } else { from };
        crate::parser::number::lemma_digit_run_bounds(x, ea);
        let eb = crate::parser::number::digit_run(x, ea);
        let e_pointed = eb < len && x[eb] == '.';
        let ec = if e_pointed { eb + 1 } else { eb };
        crate::parser::number::lemma_digit_run_bounds(x, ec);
        let ed = crate::parser::number::digit_run(x, ec);
        if ed < len {
            assert(is_mark(x[ed]));
        }
        assert(ed == len);
        assert(e.int_part == x.subrange(ea, eb));
        assert(e.frac_part == x.subrange(ec, ed));
        assert forall|i: int| 0 <= i < e.int_part.len() implies is_digit(#[trigger] e.int_part[i]) by {
            assert(is_digit(x[ea + i]));
        }
        assert forall|i: int| 0 <= i < e.frac_part.len() implies is_digit(
            #[trigger] e.frac_part[i],
        ) by {
            assert(is_digit(x[ec + i]));
        }
        if has_point(e) {
            assert(e_pointed) by {
                if !e_pointed {
                    assert(ed == eb);
                }
            }
            if has_point(n) {
                assert(x[b] == '.' && x[eb] == '.');
            }
        }
        assert(a <= w < b || c <= w < d || ea <= w < eb || ec <= w < ed) by {
            if w < a {
                assert(x[0] == '-');
            } else if w >= b && w < c {
                assert(x[b] == '.');
            } else if w == d {
            } else if w > d && w < ea {
                assert(x[from] == '-');
            } else if w >= eb && w < ec {
                assert(x[eb] == '.');
            }
        }
    }
}

/// Whether each of the first `count` of `items` is read back as written.
pub open spec fn items_round_trip(items: Seq<RNodeView>, count: nat) -> bool
    decreases items, count,
{
    count == 0 || count > items.len() || (items_round_trip(items, (count - 1) as nat)
        && round_trips(items[count - 1]))
}

/// Whether each of the first `count` of `entries` has a plain key and a
/// value that is read back as written.
pub open spec fn entries_round_trip(entries: Seq<(Seq<char>, RNodeView)>, count: nat) -> bool
    decreases entries, count,
{
    count == 0 || count > entries.len() || (entries_round_trip(entries, (count - 1) as nat)
        && plain_text(entries[count - 1].0) && round_trips(entries[count - 1].1))
}

/// Whether the keys of `entries` ascend strictly.
pub open spec fn keys_ascend_view(entries: Seq<(Seq<char>, RNodeView)>) -> bool {
    forall|i: int, j: int|
        0 <= i < j < entries.len() ==> text_less(#[trigger] entries[i].0, #[trigger] entries[j].0)
}

/// Whether a document is read back as it was written: its numbers are
/// such as the lexer reads, its strings and keys hold neither quote nor
/// backslash, the keys of each object ascend, and no array has an object
/// as its first item.
pub open spec fn round_trips(node: RNodeView) -> bool
    decreases node, 0nat,
{
    match node {
        RNodeView::Array(items) => items_round_trip(items, items.len()) && (items.len() > 0
            ==> !(items[0] is Object)),
        RNodeView::Bool(_) => true,
        RNodeView::Double(n) => lexable_number(n),
        RNodeView::Null => true,
        RNodeView::Object(entries) => entries_round_trip(entries, entries.len())
            && keys_ascend_view(entries),
        RNodeView::String(text) => plain_text(text),
    }
}

/// How much of its text the parser reads for a document: all of it, but
/// for the line end after the `}` of an object.
pub open spec fn consumed(node: RNodeView, step: nat, depth: nat) -> int {
    if node is Object {
        render(node, step, depth).len() - 1
    } else {
        render(node, step, depth).len() as int
    }
}

proof fn lemma_items_round_trip(items: Seq<RNodeView>, count: nat)
    requires
        count <= items.len(),
        items_round_trip(items, count),
    ensures
        forall|i: int| 0 <= i < count ==> round_trips(#[trigger] items[i]),
    decreases count,
{
    if count > 0 {
        lemma_items_round_trip(items, (count - 1) as nat);
    }
}

proof fn lemma_entries_round_trip(entries: Seq<(Seq<char>, RNodeView)>, count: nat)
    requires
        count <= entries.len(),
        entries_round_trip(entries, count),
    ensures
        forall|i: int|
            0 <= i < count ==> plain_text((#[trigger] entries[i]).0) && round_trips(entries[i].1),
    decreases count,
{
    if count > 0 {
        lemma_entries_round_trip(entries, (count - 1) as nat);
    }
}

/// The text of a document that is read back as written starts with a
/// character that is no whitespace, and the text of an object ends in `}`
/// and a line end.
proof fn lemma_render_ends(node: RNodeView, step: nat, depth: nat)
    requires
        round_trips(node),
    ensures
        render(node, step, depth).len() > 0,
        !is_whitespace(render(node, step, depth)[0]),
        node is Object ==> render(node, step, depth).len() >= 4 && render(node, step, depth)[render(
            node,
            step,
            depth,
        ).len() - 1] == '\n' && render(node, step, depth)[render(node, step, depth).len() - 2]
            == '}',
{
    match node {
        RNodeView::Double(n) => {
            let x = number_text(n);
            assert(x.len() > 0) by {
                if n.exponent is Some {
                    assert(x.len() >= 1);
                }
            }
            assert(sits_at(x, 0, x));
            let r = if n.exponent is None {
                lemma_shape_without_exponent(x, 0, n)
            } else {
                lemma_shape_with_exponent(x, 0, n)
            };
            assert(is_digit(x[0]) || x[0] == '.' || x[0] == '-');
        },
        _ => {},
    }
}

/// The node that a scalar token gives.
pub open spec fn scalar_node(token: TokenView) -> RNodeView {
    match token {
        TokenView::Bool(b) => RNodeView::Bool(b),
        TokenView::Double(n) => RNodeView::Double(n),
        TokenView::String(x) => RNodeView::String(x),
        _ => RNodeView::Null,
    }
}

/// Whether a token is a boolean, a number, null or a string.
pub open spec fn is_scalar(token: TokenView) -> bool {
    token is Bool || token is Double || token is Null || token is String
}

proof fn lemma_value_of_scalar(t: Seq<char>, q: int, token: TokenView, next: int, stringify: bool)
    requires
        lex_at(t, q, stringify) == Ok::<(TokenView, int), LexError>((token, next)),
        q < next <= t.len(),
        is_scalar(token),
    ensures
        parse_value(t, q, stringify) == Some((scalar_node(token), next)),
{
}

proof fn lemma_value_of_array(t: Seq<char>, q: int, next: int, stringify: bool)
    requires
        lex_at(t, q, stringify) == Ok::<(TokenView, int), LexError>(
            (TokenView::Symbol(seq!['[']), next),
        ),
        q < next <= t.len(),
    ensures
        parse_value(t, q, stringify) == parse_array(t, next, stringify, false, Seq::empty()),
{
}

proof fn lemma_value_of_object(t: Seq<char>, q: int, next: int, stringify: bool)
    requires
        lex_at(t, q, stringify) == Ok::<(TokenView, int), LexError>(
            (TokenView::Symbol(seq!['{']), next),
        ),
        q < next <= t.len(),
    ensures
        parse_value(t, q, stringify) == parse_object(t, next, stringify, true, Seq::empty()),
{
    assert(seq!['{'] != seq!['[']) by {
        assert(seq!['{'][0] != seq!['['][0]);
    }
}

proof fn lemma_array_closes(
    t: Seq<char>,
    q: int,
    next: int,
    done: Seq<RNodeView>,
    stringify: bool,
)
    requires
        lex_at(t, q, stringify) == Ok::<(TokenView, int), LexError>(
            (TokenView::Symbol(seq![']']), next),
        ),
        q < next <= t.len(),
    ensures
        parse_array(t, q, stringify, false, done) == Some((RNodeView::Array(done), next)),
{
}

proof fn lemma_array_after_comma(
    t: Seq<char>,
    q: int,
    next: int,
    item: RNodeView,
    after: int,
    done: Seq<RNodeView>,
    stringify: bool,
)
    requires
        lex_at(t, q, stringify) == Ok::<(TokenView, int), LexError>(
            (TokenView::Symbol(seq![',']), next),
        ),
        q < next <= t.len(),
        parse_value(t, next, stringify) == Some((item, after)),
        next < after <= t.len(),
    ensures
        parse_array(t, q, stringify, false, done) == parse_array(
            t,
            after,
            stringify,
            false,
            done.push(item),
        ),
{
    assert(seq![','] != seq![']']) by {
        assert(seq![','][0] != seq![']'][0]);
    }
    let with_comma = parse_array(t, next, stringify, true, done);
    assert(parse_array(t, q, stringify, false, done) == with_comma);
    assert(lex_at(t, next, stringify) is Ok);
}

proof fn lemma_array_takes_scalar(
    t: Seq<char>,
    q: int,
    token: TokenView,
    next: int,
    done: Seq<RNodeView>,
    stringify: bool,
)
    requires
        lex_at(t, q, stringify) == Ok::<(TokenView, int), LexError>((token, next)),
        q < next <= t.len(),
        is_scalar(token),
    ensures
        parse_array(t, q, stringify, false, done) == parse_array(
            t,
            next,
            stringify,
            false,
            done.push(scalar_node(token)),
        ),
{
}

proof fn lemma_array_takes_array(
    t: Seq<char>,
    q: int,
    next: int,
    item: RNodeView,
    after: int,
    done: Seq<RNodeView>,
    stringify: bool,
)
    requires
        lex_at(t, q, stringify) == Ok::<(TokenView, int), LexError>(
            (TokenView::Symbol(seq!['[']), next),
        ),
        q < next <= t.len(),
        parse_array(t, next, stringify, false, Seq::empty()) == Some((item, after)),
        next <= after <= t.len(),
    ensures
        parse_array(t, q, stringify, false, done) == parse_array(
            t,
            after,
            stringify,
            false,
            done.push(item),
        ),
{
    assert(seq!['['] != seq![']']) by {
        assert(seq!['['][0] != seq![']'][0]);
    }
    assert(seq!['['] != seq![',']) by {
        assert(seq!['['][0] != seq![','][0]);
    }
}

/// The text of the first `k` items of an array stands where the text of
/// its first `j` items does, if `k` is no more than `j`; and the text of
/// the item after them stands behind it.
#[verifier::rlimit(50)]
proof fn lemma_items_prefix(
    t: Seq<char>,
    at: int,
    items: Seq<RNodeView>,
    step: nat,
    depth: nat,
    k: nat,
    j: nat,
)
    requires
        k <= j <= items.len(),
        sits_at(t, at, render_items(items, step, depth, j)),
    ensures
        sits_at(t, at, render_items(items, step, depth, k)),
        render_items(items, step, depth, k).len() <= render_items(items, step, depth, j).len(),
        k < j ==> sits_at(
            t,
            at + render_items(items, step, depth, k).len(),
            render(items[k as int], step, depth),
        ) && sits_at(
            t,
            at + render_items(items, step, depth, k).len() + render(
                items[k as int],
                step,
                depth,
            ).len(),
            if k + 1 < items.len() {
                seq![',', ' ']
            } else {
                Seq::<char>::empty()
            },
        ) && render_items(items, step, depth, (k + 1) as nat).len() == render_items(
            items,
            step,
            depth,
            k,
        ).len() + render(items[k as int], step, depth).len() + (if k + 1 < items.len() {
            2int
        } else {
            0int
        }),
    decreases j - k,
{
    if k < j {
        let before = render_items(items, step, depth, (j - 1) as nat);
        let item = render(items[j - 1], step, depth);
        let sep = if j < items.len() { seq![',', ' '] } else { Seq::<char>::empty() };
        assert(render_items(items, step, depth, j) == before + item + sep);
        lemma_sits_split(t, at, before + item, sep);
        lemma_sits_split(t, at, before, item);
        if k < j - 1 {
            lemma_items_prefix(t, at, items, step, depth, k, (j - 1) as nat);
        }
    }
}

/// What the parser reads of an array after its first `k` items, `k` at
/// least one: the rest of the array.
#[verifier::rlimit(50)]
proof fn lemma_array_rest(
    t: Seq<char>,
    p: int,
    items: Seq<RNodeView>,
    step: nat,
    depth: nat,
    k: nat,
    q: int,
    stringify: bool,
)
    requires
        1 <= k <= items.len(),
        items_round_trip(items, items.len()),
        sits_at(t, p, render(RNodeView::Array(items), step, depth)),
        p < q,
        blank(t, q, p + 1 + render_items(items, step, depth, (k - 1) as nat).len() + render(
            items[k - 1],
            step,
            depth,
        ).len()),
    ensures
        parse_array(t, q, stringify, false, items.subrange(0, k as int)) == Some(
            (RNodeView::Array(items), p + render(RNodeView::Array(items), step, depth).len()),
        ),
    decreases items, 1nat, items.len() - k,
{
    let whole = render(RNodeView::Array(items), step, depth);
    let all = render_items(items, step, depth, items.len());
    assert(whole == seq!['['] + all + seq![']']);
    lemma_sits_split(t, p, seq!['['] + all, seq![']']);
    lemma_sits_split(t, p, seq!['['], all);
    let start = p + 1;
    let done = items.subrange(0, k as int);
    lemma_items_prefix(t, start, items, step, depth, (k - 1) as nat, items.len());
    let m = start + render_items(items, step, depth, (k - 1) as nat).len() + render(
        items[k - 1],
        step,
        depth,
    ).len();
    if k == items.len() {
        assert(m == start + all.len());
        assert(t[p + 1 + all.len() + 0] == seq![']'][0]);
        lemma_lex_symbol_at(t, q, m, stringify);
        assert(seq![t[m]] =~= seq![']']);
        assert(done =~= items);
        lemma_array_closes(t, q, m + 1, done, stringify);
    } else {
        let sep = seq![',', ' '];
        assert(t[m + 0] == sep[0]);
        assert(t[m + 1] == sep[1]);
        lemma_lex_symbol_at(t, q, m, stringify);
        lemma_items_prefix(t, start, items, step, depth, k, items.len());
        let item = items[k as int];
        let u = m + 2;
        assert(u == start + render_items(items, step, depth, k).len());
        lemma_items_round_trip(items, items.len());
        lemma_render_ends(item, step, depth);
        let text = render(item, step, depth);
        assert(t[u + 0] == text[0]);
        assert(blank(t, m + 1, u));
        let after = u + text.len();
        let next_sep = if k + 1 < items.len() { seq![',', ' '] } else { Seq::<char>::empty() };
        if k + 1 < items.len() {
            assert(t[after + 0] == next_sep[0]);
        } else {
            assert(after == start + all.len());
            assert(t[p + 1 + all.len() + 0] == seq![']'][0]);
        }
        assert(stops(t, after));
        lemma_value(t, m + 1, u, item, step, depth, stringify);
        let e = u + consumed(item, step, depth);
        if item is Object {
            assert(t[u + (text.len() - 1)] == text[text.len() - 1]);
        }
        assert(blank(t, e, after));
        assert(done.push(item) =~= items.subrange(0, k + 1 as int));
        lemma_array_rest(t, p, items, step, depth, (k + 1) as nat, e, stringify);
        assert(seq![t[m]] =~= seq![',']);
        lemma_array_after_comma(t, q, m + 1, item, e, done, stringify);
    }
}

/// What the parser reads of a written array after its `[`: the array.
#[verifier::rlimit(50)]
proof fn lemma_array_first(
    t: Seq<char>,
    p: int,
    items: Seq<RNodeView>,
    step: nat,
    depth: nat,
    stringify: bool,
)
    requires
        round_trips(RNodeView::Array(items)),
        sits_at(t, p, render(RNodeView::Array(items), step, depth)),
    ensures
        parse_array(t, p + 1, stringify, false, Seq::empty()) == Some(
            (RNodeView::Array(items), p + render(RNodeView::Array(items), step, depth).len()),
        ),
    decreases items, 2nat, 0nat,
{
    let whole = render(RNodeView::Array(items), step, depth);
    let all = render_items(items, step, depth, items.len());
    assert(whole == seq!['['] + all + seq![']']);
    lemma_sits_split(t, p, seq!['['] + all, seq![']']);
    lemma_sits_split(t, p, seq!['['], all);
    let start = p + 1;
    if items.len() == 0 {
        assert(t[p + 1 + all.len() + 0] == seq![']'][0]);
        assert(blank(t, start, start));
        lemma_lex_symbol_at(t, start, start, stringify);
        assert(items =~= Seq::<RNodeView>::empty());
    } else {
        lemma_items_prefix(t, start, items, step, depth, 0, items.len());
        lemma_items_round_trip(items, items.len());
        let item = items[0];
        let text = render(item, step, depth);
        lemma_render_ends(item, step, depth);
        assert(t[start + 0] == text[0]);
        assert(blank(t, start, start));
        let after = start + text.len();
        let next_sep = if 1 < items.len() { seq![',', ' '] } else { Seq::<char>::empty() };
        if 1 < items.len() {
            assert(t[after + 0] == next_sep[0]);
        } else {
            assert(after == start + all.len());
            assert(t[p + 1 + all.len() + 0] == seq![']'][0]);
        }
        assert(stops(t, after));
        assert(blank(t, after, after));
        assert(Seq::<RNodeView>::empty().push(item) =~= items.subrange(0, 1));
        match item {
            RNodeView::Array(sub) => {
                assert(text == seq!['['] + render_items(sub, step, depth, sub.len()) + seq![']']);
                assert(text[0] == '[');
                lemma_lex_symbol_at(t, start, start, stringify);
                assert(seq![t[start]] =~= seq!['[']);
                lemma_array_first(t, start, sub, step, depth, stringify);
                lemma_array_takes_array(
                    t,
                    start,
                    start + 1,
                    item,
                    after,
                    Seq::empty(),
                    stringify,
                );
            },
            RNodeView::Object(_) => {},
            _ => {
                lemma_lex_scalar(t, start, start, item, step, depth, stringify);
                let token = lex_at(t, start, stringify)->Ok_0.0;
                lemma_array_takes_scalar(t, start, token, after, Seq::empty(), stringify);
            },
        }
        lemma_array_rest(t, p, items, step, depth, 1, after, stringify);
    }
}

proof fn lemma_object_closes(
    t: Seq<char>,
    q: int,
    next: int,
    last_was_comma: bool,
    done: Seq<(Seq<char>, RNodeView)>,
    stringify: bool,
)
    requires
        lex_at(t, q, stringify) == Ok::<(TokenView, int), LexError>(
            (TokenView::Symbol(seq!['}']), next),
        ),
        q < next <= t.len(),
    ensures
        parse_object(t, q, stringify, last_was_comma, done) == Some(
            (RNodeView::Object(done), next),
        ),
{
}

proof fn lemma_object_after_comma(
    t: Seq<char>,
    q: int,
    next: int,
    done: Seq<(Seq<char>, RNodeView)>,
    stringify: bool,
)
    requires
        lex_at(t, q, stringify) == Ok::<(TokenView, int), LexError>(
            (TokenView::Symbol(seq![',']), next),
        ),
        q < next <= t.len(),
    ensures
        parse_object(t, q, stringify, false, done) == parse_object(t, next, stringify, true, done),
{
    assert(seq![','] != seq!['}']) by {
        assert(seq![','][0] != seq!['}'][0]);
    }
}

proof fn lemma_object_takes_entry(
    t: Seq<char>,
    q: int,
    key: Seq<char>,
    colon_at: int,
    value_at: int,
    value: RNodeView,
    after: int,
    done: Seq<(Seq<char>, RNodeView)>,
    stringify: bool,
)
    requires
        lex_at(t, q, stringify) == Ok::<(TokenView, int), LexError>(
            (TokenView::String(key), colon_at),
        ),
        q < colon_at <= t.len(),
        lex_at(t, colon_at, stringify) == Ok::<(TokenView, int), LexError>(
            (TokenView::Symbol(seq![':']), value_at),
        ),
        colon_at < value_at <= t.len(),
        parse_value(t, value_at, stringify) == Some((value, after)),
        value_at < after <= t.len(),
    ensures
        parse_object(t, q, stringify, true, done) == parse_object(
            t,
            after,
            stringify,
            false,
            put_entry_view(done, key, value),
        ),
{
}

proof fn lemma_insert_position_last(
    done: Seq<(Seq<char>, RNodeView)>,
    key: Seq<char>,
    from: int,
)
    requires
        0 <= from <= done.len(),
        forall|i: int| 0 <= i < done.len() ==> text_less((#[trigger] done[i]).0, key),
    ensures
        insert_position_view(done, key, from) == done.len(),
    decreases done.len() - from,
{
    if from < done.len() {
        assert(text_less(done[from].0, key));
        lemma_insert_position_last(done, key, from + 1);
    }
}

/// An entry whose key is greater than every key there is goes last.
proof fn lemma_put_last(done: Seq<(Seq<char>, RNodeView)>, key: Seq<char>, value: RNodeView)
    requires
        forall|i: int| 0 <= i < done.len() ==> text_less((#[trigger] done[i]).0, key),
    ensures
        put_entry_view(done, key, value) == done.push((key, value)),
{
    lemma_insert_position_last(done, key, 0);
    assert(done.insert(done.len() as int, (key, value)) =~= done.push((key, value)));
}

/// What is written after the `k`th of `count` entries, counted from one:
/// a comma and a line end, or after the last entry a line end alone.
pub open spec fn entry_end(k: int, count: int) -> Seq<char> {
    if k < count {
        seq![',', '\n']
    } else {
        seq!['\n']
    }
}

/// Where the parts of the entry with the number `k` stand, if the text of
/// the first `j` entries stands at `at` and `k` is less than `j`.
#[verifier::rlimit(50)]
proof fn lemma_entries_prefix(
    t: Seq<char>,
    at: int,
    entries: Seq<(Seq<char>, RNodeView)>,
    step: nat,
    inner: nat,
    k: nat,
    j: nat,
)
    requires
        k <= j <= entries.len(),
        sits_at(t, at, render_entries(entries, step, inner, j)),
    ensures
        sits_at(t, at, render_entries(entries, step, inner, k)),
        render_entries(entries, step, inner, k).len() <= render_entries(
            entries,
            step,
            inner,
            j,
        ).len(),
        k < j ==> ({
            let from = at + render_entries(entries, step, inner, k).len();
            let key = entries[k as int].0;
            let value = render(entries[k as int].1, step, inner);
            &&& sits_at(t, from, spaces(inner))
            &&& sits_at(t, from + inner, seq!['"'])
            &&& sits_at(t, from + inner + 1, key)
            &&& sits_at(t, from + inner + 1 + key.len(), seq!['"', ':', ' '])
            &&& sits_at(t, from + inner + key.len() + 4, value)
            &&& sits_at(
                t,
                from + inner + key.len() + 4 + value.len(),
                entry_end(k as int + 1, entries.len() as int),
            )
            &&& render_entries(entries, step, inner, (k + 1) as nat).len() == render_entries(
                entries,
                step,
                inner,
                k,
            ).len() + inner + key.len() + 4 + value.len() + entry_end(
                k as int + 1,
                entries.len() as int,
            ).len()
        }),
    decreases j - k,
{
    if k < j {
        let before = render_entries(entries, step, inner, (j - 1) as nat);
        let key = entries[j - 1].0;
        let value = render(entries[j - 1].1, step, inner);
        let sep = entry_end(j as int, entries.len() as int);
        assert(render_entries(entries, step, inner, j) == before + spaces(inner) + seq!['"'] + key
            + seq!['"', ':', ' '] + value + sep);
        lemma_sits_split(
            t,
            at,
            before + spaces(inner) + seq!['"'] + key + seq!['"', ':', ' '] + value,
            sep,
        );
        lemma_sits_split(
            t,
            at,
            before + spaces(inner) + seq!['"'] + key + seq!['"', ':', ' '],
            value,
        );
        lemma_sits_split(t, at, before + spaces(inner) + seq!['"'] + key, seq!['"', ':', ' ']);
        lemma_sits_split(t, at, before + spaces(inner) + seq!['"'], key);
        lemma_sits_split(t, at, before + spaces(inner), seq!['"']);
        lemma_sits_split(t, at, before, spaces(inner));
        if k < j - 1 {
            lemma_entries_prefix(t, at, entries, step, inner, k, (j - 1) as nat);
        }
    }
}

/// Where the parts of a written object stand.
proof fn lemma_object_parts(
    t: Seq<char>,
    p: int,
    entries: Seq<(Seq<char>, RNodeView)>,
    step: nat,
    depth: nat,
)
    requires
        sits_at(t, p, render(RNodeView::Object(entries), step, depth)),
    ensures
        t[p] == '{',
        t[p + 1] == '\n',
        sits_at(t, p + 2, render_entries(entries, step, deeper(depth, step), entries.len())),
        sits_at(
            t,
            p + 2 + render_entries(entries, step, deeper(depth, step), entries.len()).len(),
            spaces(depth),
        ),
        t[p + 2 + render_entries(entries, step, deeper(depth, step), entries.len()).len() + depth]
            == '}',
        render(RNodeView::Object(entries), step, depth).len() == 4 + render_entries(
            entries,
            step,
            deeper(depth, step),
            entries.len(),
        ).len() + depth,
{
    let all = render_entries(entries, step, deeper(depth, step), entries.len());
    let whole = render(RNodeView::Object(entries), step, depth);
    assert(whole == seq!['{', '\n'] + all + spaces(depth) + seq!['}', '\n']);
    lemma_sits_split(t, p, seq!['{', '\n'] + all + spaces(depth), seq!['}', '\n']);
    lemma_sits_split(t, p, seq!['{', '\n'] + all, spaces(depth));
    lemma_sits_split(t, p, seq!['{', '\n'], all);
    assert(t[p + 0] == seq!['{', '\n'][0]);
    assert(t[p + 1] == seq!['{', '\n'][1]);
    assert(t[p + 2 + all.len() + depth + 0] == seq!['}', '\n'][0]);
}

/// A stretch of spaces and line ends before something else is blank.
proof fn lemma_blank_spaces(t: Seq<char>, q: int, from: int, count: nat)
    requires
        0 <= q <= from,
        forall|i: int| q <= i < from ==> is_whitespace(#[trigger] t[i]),
        sits_at(t, from, spaces(count)),
        from + count < t.len(),
        !is_whitespace(t[from + count]),
    ensures
        blank(t, q, from + count),
{
    assert forall|i: int| q <= i < from + count implies is_whitespace(#[trigger] t[i]) by {
        if i >= from {
            assert(t[from + (i - from)] == spaces(count)[i - from]);
        }
    }
}

/// What the lexer reads at the start of a written entry: the key, then
/// the colon; and the value stands after one space and ends where the
/// lexer stops.
#[verifier::rlimit(50)]
proof fn lemma_entry_read(
    t: Seq<char>,
    q: int,
    from: int,
    inner: nat,
    key: Seq<char>,
    text: Seq<char>,
    sep: Seq<char>,
    stringify: bool,
)
    requires
        blank(t, q, from + inner),
        sits_at(t, from + inner, seq!['"']),
        sits_at(t, from + inner + 1, key),
        sits_at(t, from + inner + 1 + key.len(), seq!['"', ':', ' ']),
        sits_at(t, from + inner + key.len() + 4, text),
        sits_at(t, from + inner + key.len() + 4 + text.len(), sep),
        plain_text(key),
        text.len() > 0,
        !is_whitespace(text[0]),
        sep.len() > 0,
        sep[0] == ',' || sep[0] == '\n',
    ensures
        lex_at(t, q, stringify) == Ok::<(TokenView, int), LexError>(
            (TokenView::String(key), from + inner + key.len() + 2),
        ),
        lex_at(t, from + inner + key.len() + 2, stringify) == Ok::<(TokenView, int), LexError>(
            (TokenView::Symbol(seq![':']), from + inner + key.len() + 3),
        ),
        blank(t, from + inner + key.len() + 3, from + inner + key.len() + 4),
        stops(t, from + inner + key.len() + 4 + text.len()),
        q < from + inner + key.len() + 2,
        from + inner + key.len() + 4 + text.len() < t.len(),
{
    let quote = from + inner;
    let colon = quote + key.len() + 2;
    let value_at = colon + 2;
    let end = value_at + text.len();
    let mark = seq!['"', ':', ' '];
    assert(t[quote + 0] == seq!['"'][0]);
    assert(t[quote + 1 + key.len() + 0] == mark[0]);
    assert(t[quote + 1 + key.len() + 1] == mark[1]);
    assert(t[quote + 1 + key.len() + 2] == mark[2]);
    assert(sits_at(t, quote, seq!['"'] + key + seq!['"'])) by {
        let whole = seq!['"'] + key + seq!['"'];
        assert forall|i: int| 0 <= i < whole.len() implies t[quote + i] == #[trigger] whole[i] by {
            if 0 < i <= key.len() {
                assert(t[quote + 1 + (i - 1)] == key[i - 1]);
            }
        }
    }
    lemma_lex_string_at(t, q, quote, key, stringify);
    assert(blank(t, colon, colon));
    lemma_lex_symbol_at(t, colon, colon, stringify);
    assert(seq![t[colon]] =~= seq![':']);
    assert(t[value_at + 0] == text[0]);
    assert(t[end + 0] == sep[0]);
}

/// Putting the entry with the number `k` into the entries before it
/// gives the entries up to it, if the keys ascend.
proof fn lemma_done_push(entries: Seq<(Seq<char>, RNodeView)>, k: int)
    requires
        keys_ascend_view(entries),
        0 <= k < entries.len(),
    ensures
        put_entry_view(entries.subrange(0, k), entries[k].0, entries[k].1) == entries.subrange(
            0,
            k + 1,
        ),
{
    let done = entries.subrange(0, k);
    let key = entries[k].0;
    assert forall|i: int| 0 <= i < done.len() implies text_less((#[trigger] done[i]).0, key) by {
        assert(text_less(entries[i].0, entries[k].0));
    }
    lemma_put_last(done, key, entries[k].1);
    assert(done.push((key, entries[k].1)) =~= entries.subrange(0, k + 1));
}

/// The position before which the parser finds nothing but whitespace once
/// it has read `k` entries of an object that stands at `p`: that of the
/// comma, or that of the `}` after the last entry.
pub open spec fn after_entries(
    p: int,
    entries: Seq<(Seq<char>, RNodeView)>,
    step: nat,
    depth: nat,
    k: nat,
) -> int {
    p + 2 + render_entries(entries, step, deeper(depth, step), k).len() + (if k < entries.len() {
        -2
    } else {
        depth as int
    })
}

/// After the value of the entry with the number `k`, nothing but
/// whitespace stands before the comma or the `}`.
#[verifier::rlimit(50)]
proof fn lemma_entry_tail_blank(
    t: Seq<char>,
    p: int,
    entries: Seq<(Seq<char>, RNodeView)>,
    step: nat,
    depth: nat,
    k: nat,
    after: int,
)
    requires
        sits_at(t, p, render(RNodeView::Object(entries), step, depth)),
        k < entries.len(),
        ({
            let end = p + 2 + render_entries(entries, step, deeper(depth, step), k).len() + deeper(
                depth,
                step,
            ) + entries[k as int].0.len() + 4 + render(
                entries[k as int].1,
                step,
                deeper(depth, step),
            ).len();
            after == end || (after == end - 1 && 0 <= after < t.len() && t[after] == '\n')
        }),
        0 <= after,
    ensures
        blank(t, after, after_entries(p, entries, step, depth, (k + 1) as nat)),
{
    let inner = deeper(depth, step);
    lemma_object_parts(t, p, entries, step, depth);
    let base = p + 2;
    lemma_entries_prefix(t, base, entries, step, inner, k, entries.len());
    let end = base + render_entries(entries, step, inner, k).len() + inner + entries[k as int].0.len()
        + 4 + render(entries[k as int].1, step, inner).len();
    let sep = entry_end(k as int + 1, entries.len() as int);
    assert(t[end + 0] == sep[0]);
    if k + 1 < entries.len() {
    } else {
        assert(end + 1 == base + render_entries(entries, step, inner, entries.len()).len());
        lemma_blank_spaces(t, after, end + 1, depth);
    }
}

/// What the parser reads of the entry with the number `k` of a written
/// object: the entry, which it puts after the entries before it.
#[verifier::rlimit(50)]
proof fn lemma_object_entry(
    t: Seq<char>,
    p: int,
    entries: Seq<(Seq<char>, RNodeView)>,
    step: nat,
    depth: nat,
    k: nat,
    q: int,
    stringify: bool,
) -> (after: int)
    requires
        round_trips(RNodeView::Object(entries)),
        sits_at(t, p, render(RNodeView::Object(entries), step, depth)),
        k < entries.len(),
        p < q,
        blank(
            t,
            q,
            p + 2 + render_entries(entries, step, deeper(depth, step), k).len() + deeper(
                depth,
                step,
            ),
        ),
    ensures
        p < after,
        parse_object(t, q, stringify, true, entries.subrange(0, k as int)) == parse_object(
            t,
            after,
            stringify,
            false,
            entries.subrange(0, k + 1 as int),
        ),
        blank(t, after, after_entries(p, entries, step, depth, (k + 1) as nat)),
    decreases entries, 0nat, 0nat,
{
    let inner = deeper(depth, step);
    let done = entries.subrange(0, k as int);
    let base = p + 2;
    lemma_sits_split(
        t,
        p,
        seq!['{', '\n'] + render_entries(entries, step, inner, entries.len()) + spaces(depth),
        seq!['}', '\n'],
    );
    lemma_sits_split(
        t,
        p,
        seq!['{', '\n'] + render_entries(entries, step, inner, entries.len()),
        spaces(depth),
    );
    lemma_sits_split(t, p, seq!['{', '\n'], render_entries(entries, step, inner, entries.len()));
    lemma_entries_prefix(t, base, entries, step, inner, k, entries.len());
    lemma_entries_round_trip(entries, entries.len());
    let from = base + render_entries(entries, step, inner, k).len();
    let key = entries[k as int].0;
    let value = entries[k as int].1;
    let text = render(value, step, inner);
    let colon = from + inner + key.len() + 2;
    let value_at = colon + 2;
    let sep = entry_end(k as int + 1, entries.len() as int);
    lemma_render_ends(value, step, inner);
    lemma_entry_read(t, q, from, inner, key, text, sep, stringify);
    lemma_value(t, colon + 1, value_at, value, step, inner, stringify);
    let after = value_at + consumed(value, step, inner);
    lemma_object_takes_entry(t, q, key, colon, colon + 1, value, after, done, stringify);
    lemma_done_push(entries, k as int);
    if value is Object {
        assert(t[value_at + (text.len() - 1)] == text[text.len() - 1]);
    }
    lemma_entry_tail_blank(t, p, entries, step, depth, k, after);
    after
}

/// What the parser reads of a written object where it stands before the
/// key of the entry with the number `k`, or before the `}` of an object
/// without entries: the rest of the object.
#[verifier::rlimit(50)]
proof fn lemma_object_key(
    t: Seq<char>,
    p: int,
    entries: Seq<(Seq<char>, RNodeView)>,
    step: nat,
    depth: nat,
    k: nat,
    q: int,
    stringify: bool,
)
    requires
        round_trips(RNodeView::Object(entries)),
        sits_at(t, p, render(RNodeView::Object(entries), step, depth)),
        k < entries.len() || (k == 0 && entries.len() == 0),
        p < q,
        blank(
            t,
            q,
            p + 2 + render_entries(entries, step, deeper(depth, step), k).len() + (if k
                < entries.len() {
                deeper(depth, step)
            } else {
                depth
            }),
        ),
    ensures
        parse_object(t, q, stringify, true, entries.subrange(0, k as int)) == Some(
            (
                RNodeView::Object(entries),
                p + render(RNodeView::Object(entries), step, depth).len() - 1,
            ),
        ),
    decreases entries, 1nat, 2 * (entries.len() - k),
{
    if k == entries.len() {
        let done = entries.subrange(0, k as int);
        lemma_object_parts(t, p, entries, step, depth);
        let close = p + 2 + depth;
        lemma_lex_symbol_at(t, q, close, stringify);
        assert(seq![t[close]] =~= seq!['}']);
        lemma_object_closes(t, q, close + 1, true, done, stringify);
        assert(done =~= entries);
    } else {
        let after = lemma_object_entry(t, p, entries, step, depth, k, q, stringify);
        lemma_object_sep(t, p, entries, step, depth, (k + 1) as nat, after, stringify);
    }
}

/// What the parser reads of a written object after the value of the entry
/// with the number `k - 1`: the rest of the object.
#[verifier::rlimit(50)]
proof fn lemma_object_sep(
    t: Seq<char>,
    p: int,
    entries: Seq<(Seq<char>, RNodeView)>,
    step: nat,
    depth: nat,
    k: nat,
    q: int,
    stringify: bool,
)
    requires
        round_trips(RNodeView::Object(entries)),
        sits_at(t, p, render(RNodeView::Object(entries), step, depth)),
        1 <= k <= entries.len(),
        p < q,
        blank(
            t,
            q,
            p + 2 + render_entries(entries, step, deeper(depth, step), k).len() + (if k
                < entries.len() {
                -2
            } else {
                depth as int
            }),
        ),
    ensures
        parse_object(t, q, stringify, false, entries.subrange(0, k as int)) == Some(
            (
                RNodeView::Object(entries),
                p + render(RNodeView::Object(entries), step, depth).len() - 1,
            ),
        ),
    decreases entries, 1nat, 2 * (entries.len() - k) + 1,
{
    let inner = deeper(depth, step);
    let done = entries.subrange(0, k as int);
    lemma_object_parts(t, p, entries, step, depth);
    let base = p + 2;
    if k == entries.len() {
        let close = base + render_entries(entries, step, inner, k).len() + depth;
        lemma_lex_symbol_at(t, q, close, stringify);
        assert(seq![t[close]] =~= seq!['}']);
        lemma_object_closes(t, q, close + 1, false, done, stringify);
        assert(done =~= entries);
    } else {
        lemma_entries_prefix(t, base, entries, step, inner, (k - 1) as nat, entries.len());
        lemma_entries_prefix(t, base, entries, step, inner, k, entries.len());
        let from = base + render_entries(entries, step, inner, k).len();
        let comma = from - 2;
        let sep = entry_end(k as int, entries.len() as int);
        assert(t[comma + 0] == sep[0]);
        assert(t[comma + 1] == sep[1]);
        lemma_lex_symbol_at(t, q, comma, stringify);
        assert(seq![t[comma]] =~= seq![',']);
        lemma_object_after_comma(t, q, comma + 1, done, stringify);
        assert(t[from + inner + 0] == seq!['"'][0]);
        lemma_blank_spaces(t, comma + 1, from, inner);
        lemma_object_key(t, p, entries, step, depth, k, comma + 1, stringify);
    }
}

/// After a blank stretch, the text of a boolean, a number, null or a
/// string is read as the token of that value.
proof fn lemma_lex_scalar(
    t: Seq<char>,
    q: int,
    p: int,
    node: RNodeView,
    step: nat,
    depth: nat,
    stringify: bool,
)
    requires
        blank(t, q, p),
        sits_at(t, p, render(node, step, depth)),
        round_trips(node),
        stops(t, p + render(node, step, depth).len()),
        !(node is Array),
        !(node is Object),
    ensures
        lex_at(t, q, stringify) == Ok::<(TokenView, int), LexError>(
            (
                match node {
                    RNodeView::Bool(b) => TokenView::Bool(b),
                    RNodeView::Double(n) => TokenView::Double(n),
                    RNodeView::String(x) => TokenView::String(x),
                    _ => TokenView::Null,
                },
                p + render(node, step, depth).len(),
            ),
        ),
{
    match node {
        RNodeView::Bool(b) => {
            lemma_lex_word_at(t, q, p, render(node, step, depth), stringify);
            assert(seq!['t', 'r', 'u', 'e'] != seq!['f', 'a', 'l', 's', 'e']) by {
                assert(seq!['t', 'r', 'u', 'e'].len() != seq!['f', 'a', 'l', 's', 'e'].len());
            }
        },
        RNodeView::Double(n) => {
            lemma_lex_number_at(t, q, p, n, stringify);
        },
        RNodeView::Null => {
            lemma_lex_word_at(t, q, p, render(node, step, depth), stringify);
            assert(seq!['n', 'u', 'l', 'l'] != seq!['t', 'r', 'u', 'e']) by {
                assert(seq!['n', 'u', 'l', 'l'][0] != seq!['t', 'r', 'u', 'e'][0]);
            }
            assert(seq!['n', 'u', 'l', 'l'] != seq!['f', 'a', 'l', 's', 'e']) by {
                assert(seq!['n', 'u', 'l', 'l'].len() != seq!['f', 'a', 'l', 's', 'e'].len());
            }
        },
        RNodeView::String(x) => {
            lemma_lex_string_at(t, q, p, x, stringify);
        },
        _ => {},
    }
}

/// After a blank stretch, the parser reads a written document as the
/// document that was written.
#[verifier::rlimit(50)]
pub proof fn lemma_value(
    t: Seq<char>,
    q: int,
    p: int,
    node: RNodeView,
    step: nat,
    depth: nat,
    stringify: bool,
)
    requires
        blank(t, q, p),
        sits_at(t, p, render(node, step, depth)),
        round_trips(node),
        stops(t, p + render(node, step, depth).len()),
    ensures
        parse_value(t, q, stringify) == Some((node, p + consumed(node, step, depth))),
        q < p + consumed(node, step, depth) <= t.len(),
    decreases node, 0nat, 0nat,
{
    lemma_render_ends(node, step, depth);
    let text = render(node, step, depth);
    assert(t[p + 0] == text[0]);
    match node {
        RNodeView::Array(items) => {
            assert(text == seq!['['] + render_items(items, step, depth, items.len()) + seq![']']);
            assert(text[0] == '[');
            lemma_lex_symbol_at(t, q, p, stringify);
            assert(seq![t[p]] =~= seq!['[']);
            lemma_array_first(t, p, items, step, depth, stringify);
            lemma_value_of_array(t, q, p + 1, stringify);
        },
        RNodeView::Object(entries) => {
            lemma_object_parts(t, p, entries, step, depth);
            lemma_lex_symbol_at(t, q, p, stringify);
            assert(seq![t[p]] =~= seq!['{']);
            lemma_value_of_object(t, q, p + 1, stringify);
            let inner = deeper(depth, step);
            let base = p + 2;
            assert(render_entries(entries, step, inner, 0).len() == 0);
            if entries.len() == 0 {
                lemma_blank_spaces(t, p + 1, base, depth);
            } else {
                lemma_entries_prefix(t, base, entries, step, inner, 0, entries.len());
                assert(t[base + inner + 0] == seq!['"'][0]);
                lemma_blank_spaces(t, p + 1, base, inner);
            }
            lemma_object_key(t, p, entries, step, depth, 0, p + 1, stringify);
            assert(entries.subrange(0, 0) =~= Seq::<(Seq<char>, RNodeView)>::empty());
        },
        _ => {
            lemma_lex_scalar(t, q, p, node, step, depth, stringify);
            let token = lex_at(t, q, stringify)->Ok_0.0;
            lemma_value_of_scalar(t, q, token, p + text.len(), stringify);
        },
    }
}

/// A written document is read back as the document that was written, if
/// it is one that [`round_trips`]: parsing the text that the writer gives
/// for it, at whatever indentation, gives the document again.
pub proof fn law_round_trip(node: RNodeView, step: nat, depth: nat, stringify: bool)
    requires
        round_trips(node),
    ensures
        parse_value(render(node, step, depth), 0, stringify) == Some(
            (node, consumed(node, step, depth)),
        ),
        parse_document(render(node, step, depth), 0, stringify) == Ok::<
            (RNodeView, int),
            Seq<char>,
        >((node, consumed(node, step, depth))),
{
    let t = render(node, step, depth);
    lemma_render_ends(node, step, depth);
    assert(sits_at(t, 0, t));
    assert(blank(t, 0, 0));
    lemma_value(t, 0, 0, node, step, depth, stringify);
}

/// Whether each of the first `count` of `items` is [`sound`].
pub open spec fn items_sound(items: Seq<RNodeView>, count: nat) -> bool
    decreases items, count,
{
    count == 0 || count > items.len() || (items_sound(items, (count - 1) as nat) && sound(
        items[count - 1],
    ))
}

/// Whether the value of each of the first `count` of `entries` is [`sound`].
pub open spec fn entries_sound(entries: Seq<(Seq<char>, RNodeView)>, count: nat) -> bool
    decreases entries, count,
{
    count == 0 || count > entries.len() || (entries_sound(entries, (count - 1) as nat) && sound(
        entries[count - 1].1,
    ))
}

/// Whether a document has what the parser gives every document: numbers
/// such as the lexer reads, and in each object keys that ascend.
pub open spec fn sound(node: RNodeView) -> bool
    decreases node, 0nat,
{
    match node {
        RNodeView::Array(items) => items_sound(items, items.len()),
        RNodeView::Double(n) => lexable_number(n),
        RNodeView::Object(entries) => entries_sound(entries, entries.len()) && keys_ascend_view(
            entries,
        ),
        _ => true,
    }
}

/// Whether each of the first `count` of `items` is [`shaped`].
pub open spec fn items_shaped(items: Seq<RNodeView>, count: nat) -> bool
    decreases items, count,
{
    count == 0 || count > items.len() || (items_shaped(items, (count - 1) as nat) && shaped(
        items[count - 1],
    ))
}

/// Whether each of the first `count` of `entries` has a plain key and a
/// value that is [`shaped`].
pub open spec fn entries_shaped(entries: Seq<(Seq<char>, RNodeView)>, count: nat) -> bool
    decreases entries, count,
{
    count == 0 || count > entries.len() || (entries_shaped(entries, (count - 1) as nat)
        && plain_text(entries[count - 1].0) && shaped(entries[count - 1].1))
}

/// Whether a document holds neither quote nor backslash in its strings and
/// keys, and no array in it has an object as its first item.
pub open spec fn shaped(node: RNodeView) -> bool
    decreases node, 0nat,
{
    match node {
        RNodeView::Array(items) => items_shaped(items, items.len()) && (items.len() > 0 ==> !(
        items[0] is Object)),
        RNodeView::Object(entries) => entries_shaped(entries, entries.len()),
        RNodeView::String(text) => plain_text(text),
        _ => true,
    }
}

proof fn lemma_items_sound(items: Seq<RNodeView>, count: nat)
    requires
        count <= items.len(),
    ensures
        items_sound(items, count) <==> forall|i: int|
            0 <= i < count ==> sound(#[trigger] items[i]),
    decreases count,
{
    if count > 0 {
        lemma_items_sound(items, (count - 1) as nat);
    }
}

proof fn lemma_entries_sound(entries: Seq<(Seq<char>, RNodeView)>, count: nat)
    requires
        count <= entries.len(),
    ensures
        entries_sound(entries, count) <==> forall|i: int|
            0 <= i < count ==> sound((#[trigger] entries[i]).1),
    decreases count,
{
    if count > 0 {
        lemma_entries_sound(entries, (count - 1) as nat);
    }
}

proof fn lemma_items_shaped(items: Seq<RNodeView>, count: nat)
    requires
        count <= items.len(),
        items_shaped(items, count),
    ensures
        forall|i: int| 0 <= i < count ==> shaped(#[trigger] items[i]),
    decreases count,
{
    if count > 0 {
        lemma_items_shaped(items, (count - 1) as nat);
    }
}

proof fn lemma_entries_shaped(entries: Seq<(Seq<char>, RNodeView)>, count: nat)
    requires
        count <= entries.len(),
        entries_shaped(entries, count),
    ensures
        forall|i: int|
            0 <= i < count ==> plain_text((#[trigger] entries[i]).0) && shaped(entries[i].1),
    decreases count,
{
    if count > 0 {
        lemma_entries_shaped(entries, (count - 1) as nat);
    }
}

proof fn lemma_items_round_trip_from_each(items: Seq<RNodeView>, count: nat)
    requires
        count <= items.len(),
        forall|i: int| 0 <= i < count ==> round_trips(#[trigger] items[i]),
    ensures
        items_round_trip(items, count),
    decreases count,
{
    if count > 0 {
        lemma_items_round_trip_from_each(items, (count - 1) as nat);
    }
}

proof fn lemma_entries_round_trip_from_each(entries: Seq<(Seq<char>, RNodeView)>, count: nat)
    requires
        count <= entries.len(),
        forall|i: int|
            0 <= i < count ==> plain_text((#[trigger] entries[i]).0) && round_trips(entries[i].1),
    ensures
        entries_round_trip(entries, count),
    decreases count,
{
    if count > 0 {
        lemma_entries_round_trip_from_each(entries, (count - 1) as nat);
    }
}

/// A document that is [`sound`] and [`shaped`] is one that [`round_trips`].
pub proof fn lemma_sound_and_shaped(node: RNodeView)
    requires
        sound(node),
        shaped(node),
    ensures
        round_trips(node),
    decreases node,
{
    match node {
        RNodeView::Array(items) => {
            lemma_items_sound(items, items.len());
            lemma_items_shaped(items, items.len());
            assert forall|i: int| 0 <= i < items.len() implies round_trips(#[trigger] items[i]) by {
                lemma_sound_and_shaped(items[i]);
            }
            lemma_items_round_trip_from_each(items, items.len());
        },
        RNodeView::Object(entries) => {
            lemma_entries_sound(entries, entries.len());
            lemma_entries_shaped(entries, entries.len());
            assert forall|i: int| 0 <= i < entries.len() implies plain_text(
                (#[trigger] entries[i]).0,
            ) && round_trips(entries[i].1) by {
                lemma_sound_and_shaped(entries[i].1);
            }
            lemma_entries_round_trip_from_each(entries, entries.len());
        },
        _ => {},
    }
}

/// Every number token that the lexer reads holds a [`lexable_number`].
proof fn lemma_lexed_double(t: Seq<char>, pos: int, stringify: bool, n: NumberView, next: int)
    requires
        lex_at(t, pos, stringify) == Ok::<(TokenView, int), LexError>(
            (TokenView::Double(n), next),
        ),
    ensures
        lexable_number(n),
{
    let p = skip_whitespace(t, pos);
    law_lexed_number_reads_back(t, p, n, next);
}

proof fn lemma_insert_position_view_bounds(
    entries: Seq<(Seq<char>, RNodeView)>,
    key: Seq<char>,
    from: int,
)
    requires
        0 <= from <= entries.len(),
    ensures
        from <= insert_position_view(entries, key, from) <= entries.len(),
        forall|i: int|
            from <= i < insert_position_view(entries, key, from) ==> text_less(
                (#[trigger] entries[i]).0,
                key,
            ),
        insert_position_view(entries, key, from) < entries.len() ==> !text_less(
            entries[insert_position_view(entries, key, from)].0,
            key,
        ),
    decreases entries.len() - from,
{
    if from < entries.len() && text_less(entries[from].0, key) {
        lemma_insert_position_view_bounds(entries, key, from + 1);
    }
}

/// Putting a sound value into entries whose keys ascend and whose values
/// are sound leaves them so.
#[verifier::rlimit(50)]
proof fn lemma_put_view_sound(
    entries: Seq<(Seq<char>, RNodeView)>,
    key: Seq<char>,
    value: RNodeView,
)
    requires
        keys_ascend_view(entries),
        forall|i: int| 0 <= i < entries.len() ==> sound((#[trigger] entries[i]).1),
        sound(value),
    ensures
        keys_ascend_view(put_entry_view(entries, key, value)),
        forall|i: int|
            0 <= i < put_entry_view(entries, key, value).len() ==> sound(
                (#[trigger] put_entry_view(entries, key, value)[i]).1,
            ),
{
    let at = insert_position_view(entries, key, 0);
    lemma_insert_position_view_bounds(entries, key, 0);
    let after = put_entry_view(entries, key, value);
    if at < entries.len() && entries[at].0 == key {
        assert forall|i: int, j: int| 0 <= i < j < after.len() implies text_less(
            #[trigger] after[i].0,
            #[trigger] after[j].0,
        ) by {
            assert(text_less(entries[i].0, entries[j].0));
        }
        assert forall|i: int| 0 <= i < after.len() implies sound((#[trigger] after[i]).1) by {
            if i != at {
                assert(sound(entries[i].1));
            }
        }
    } else {
        assert forall|i: int, j: int| 0 <= i < j < after.len() implies text_less(
            #[trigger] after[i].0,
            #[trigger] after[j].0,
        ) by {
            if j < at {
                assert(text_less(entries[i].0, entries[j].0));
            } else if j == at {
                assert(text_less(entries[i].0, key));
            } else {
                lemma_text_less_total(entries[at].0, key);
                if j - 1 > at {
                    assert(text_less(entries[at].0, entries[j - 1].0));
                    lemma_text_less_transitive(key, entries[at].0, entries[j - 1].0);
                }
                if i < at {
                    assert(text_less(entries[i].0, key));
                    lemma_text_less_transitive(entries[i].0, key, entries[j - 1].0);
                } else if i > at {
                    assert(text_less(entries[i - 1].0, entries[j - 1].0));
                }
            }
        }
        assert forall|i: int| 0 <= i < after.len() implies sound((#[trigger] after[i]).1) by {
            if i < at {
                assert(sound(entries[i].1));
            } else if i > at {
                assert(sound(entries[i - 1].1));
            }
        }
    }
}

/// Every value that the parser reads is [`sound`].
pub proof fn lemma_parsed_value_sound(t: Seq<char>, pos: int, stringify: bool)
    requires
        parse_value(t, pos, stringify) is Some,
    ensures
        ({
            let found = parse_value(t, pos, stringify)->0;
            sound(found.0)
        }),
    decreases t.len() - pos, 0nat,
{
    let (token, next) = lex_at(t, pos, stringify)->Ok_0;
    match token {
        TokenView::Double(d) => {
            lemma_lexed_double(t, pos, stringify, d, next);
        },
        TokenView::Symbol(symbol) => {
            if symbol == seq!['['] {
                lemma_parsed_array_sound(t, next, stringify, false, Seq::empty());
            } else if symbol == seq!['{'] {
                lemma_parsed_object_sound(t, next, stringify, true, Seq::empty());
            }
        },
        _ => {},
    }
}

proof fn lemma_push_sound(items: Seq<RNodeView>, item: RNodeView)
    requires
        forall|i: int| 0 <= i < items.len() ==> sound(#[trigger] items[i]),
        sound(item),
    ensures
        forall|i: int| 0 <= i < items.push(item).len() ==> sound(#[trigger] items.push(item)[i]),
{
    assert forall|i: int| 0 <= i < items.push(item).len() implies sound(
        #[trigger] items.push(item)[i],
    ) by {
        if i < items.len() {
            assert(sound(items[i]));
        }
    }
}

/// Every array that the parser reads is [`sound`], if the items read
/// before are.
#[verifier::rlimit(50)]
proof fn lemma_parsed_array_sound(
    t: Seq<char>,
    pos: int,
    stringify: bool,
    last_was_comma: bool,
    items: Seq<RNodeView>,
)
    requires
        parse_array(t, pos, stringify, last_was_comma, items) is Some,
        forall|i: int| 0 <= i < items.len() ==> sound(#[trigger] items[i]),
    ensures
        ({
            let found = parse_array(t, pos, stringify, last_was_comma, items)->0;
            sound(found.0)
        }),
    decreases t.len() - pos, 1nat,
{
    let (token, next) = lex_at(t, pos, stringify)->Ok_0;
    if last_was_comma {
        lemma_parsed_value_sound(t, pos, stringify);
        let (item, after) = parse_value(t, pos, stringify)->0;
        lemma_push_sound(items, item);
        lemma_parsed_array_sound(t, after, stringify, false, items.push(item));
    } else {
        match token {
            TokenView::Symbol(symbol) => {
                if symbol == seq![']'] {
                    lemma_items_sound(items, items.len());
                } else if symbol == seq![','] {
                    lemma_parsed_array_sound(t, next, stringify, true, items);
                } else if symbol == seq!['['] {
                    lemma_parsed_array_sound(t, next, stringify, false, Seq::empty());
                    let (item, after) = parse_array(t, next, stringify, false, Seq::empty())->0;
                    lemma_push_sound(items, item);
                    lemma_parsed_array_sound(t, after, stringify, false, items.push(item));
                }
            },
            TokenView::Bool(b) => {
                lemma_push_sound(items, RNodeView::Bool(b));
                lemma_parsed_array_sound(
                    t,
                    next,
                    stringify,
                    false,
                    items.push(RNodeView::Bool(b)),
                );
            },
            TokenView::Double(d) => {
                lemma_lexed_double(t, pos, stringify, d, next);
                lemma_push_sound(items, RNodeView::Double(d));
                lemma_parsed_array_sound(
                    t,
                    next,
                    stringify,
                    false,
                    items.push(RNodeView::Double(d)),
                );
            },
            TokenView::Null => {
                lemma_push_sound(items, RNodeView::Null);
                lemma_parsed_array_sound(t, next, stringify, false, items.push(RNodeView::Null));
            },
            TokenView::String(text) => {
                lemma_push_sound(items, RNodeView::String(text));
                lemma_parsed_array_sound(
                    t,
                    next,
                    stringify,
                    false,
                    items.push(RNodeView::String(text)),
                );
            },
            TokenView::Char(_) => {},
        }
    }
}

/// Every object that the parser reads is [`sound`], if the entries read
/// before are and their keys ascend.
#[verifier::rlimit(50)]
proof fn lemma_parsed_object_sound(
    t: Seq<char>,
    pos: int,
    stringify: bool,
    last_was_comma: bool,
    entries: Seq<(Seq<char>, RNodeView)>,
)
    requires
        parse_object(t, pos, stringify, last_was_comma, entries) is Some,
        keys_ascend_view(entries),
        forall|i: int| 0 <= i < entries.len() ==> sound((#[trigger] entries[i]).1),
    ensures
        ({
            let found = parse_object(t, pos, stringify, last_was_comma, entries)->0;
            sound(found.0)
        }),
    decreases t.len() - pos, 1nat,
{
    let (token, next) = lex_at(t, pos, stringify)->Ok_0;
    lemma_entries_sound(entries, entries.len());
    if !last_was_comma {
        match token {
            TokenView::Symbol(symbol) => {
                if symbol == seq!['}'] {
                } else if symbol == seq![','] {
                    lemma_parsed_object_sound(t, next, stringify, true, entries);
                }
            },
            _ => {},
        }
    } else {
        match token {
            TokenView::String(key) => {
                let colon = lex_at(t, next, stringify)->Ok_0;
                let value_at = colon.1;
                lemma_parsed_value_sound(t, value_at, stringify);
                let (value, after) = parse_value(t, value_at, stringify)->0;
                lemma_put_view_sound(entries, key, value);
                lemma_parsed_object_sound(
                    t,
                    after,
                    stringify,
                    false,
                    put_entry_view(entries, key, value),
                );
            },
            _ => {},
        }
    }
}

/// A document that the parser has read, in whose strings and keys there is
/// neither quote nor backslash and in which no array has an object as its
/// first item, is read back from its written text as the same document.
pub proof fn law_parsed_round_trip(
    t: Seq<char>,
    pos: int,
    stringify: bool,
    node: RNodeView,
    next: int,
    step: nat,
    depth: nat,
)
    requires
        parse_value(t, pos, stringify) == Some((node, next)),
        shaped(node),
    ensures
        parse_value(render(node, step, depth), 0, stringify) == Some(
            (node, consumed(node, step, depth)),
        ),
{
    lemma_parsed_value_sound(t, pos, stringify);
    lemma_sound_and_shaped(node);
    law_round_trip(node, step, depth, stringify);
}

/// What is written for a document that [`round_trips`], if it holds ASCII
/// characters only, is read back as that document by a parser that is
/// given the written text as its input.
pub proof fn law_round_trip_of_written_text(
    node: RNodeView,
    step: nat,
    depth: nat,
    stringify: bool,
)
    requires
        round_trips(node),
        vstd::utf8::is_ascii_chars(render(node, step, depth)),
    ensures
        parse_document(
            crate::parser::lexer::latin1(vstd::utf8::encode_utf8(render(node, step, depth))),
            0,
            stringify,
        ) == Ok::<(RNodeView, int), Seq<char>>((node, consumed(node, step, depth))),
{
    crate::parser::lexer::law_ascii_text(render(node, step, depth));
    law_round_trip(node, step, depth, stringify);
}

} // verus!
