//! A value is read the same way wherever it stands: what the rules for a
//! value make of a piece of text that ends with a semicolon does not depend
//! on what stands before or after it.

use crate::ast::{NumberModel, ValueModel};
use crate::error::Fault;
use crate::grammar::{
    boolean, expect_char, expression, expression_rest, float_list, float_rest, identifier,
    in_class, number, operand, quoted_floats, quoted_string, run_end, simple_attr_value,
    spaces_end, terminated_number, value_choice, CharClass, Parsed, Step,
};
use crate::roundtrip::stands_at;
use vstd::prelude::*;

verus! {

/// The text `w`, which ends with a semicolon, stands in `s` at `q`.
pub open spec fn window(s: Seq<char>, q: int, w: Seq<char>) -> bool {
    &&& w.len() > 0
    &&& w[w.len() - 1] == ';'
    &&& 0 <= q
    &&& q + w.len() <= s.len()
    &&& forall|i: int| 0 <= i < w.len() ==> #[trigger] s[q + i] == w[i]
}

/// What a rule yields on the text alone is what it yields where the text
/// stands, `by` further on: the same value, or a failure of the same
/// weight.
pub open spec fn shifted<T>(alone: Parsed<T>, there: Parsed<T>, by: int) -> bool {
    match alone {
        Ok((v, end)) => there == Ok::<(T, int), Fault>((v, end + by)),
        Err(fault) => there matches Err(other) && other.fatal == fault.fatal,
    }
}

/// `shifted`, for a rule without a value.
pub open spec fn shifted_step(alone: Step, there: Step, by: int) -> bool {
    match alone {
        Ok(end) => there == Ok::<int, Fault>(end + by),
        Err(fault) => there matches Err(other) && other.fatal == fault.fatal,
    }
}

/// A run of anything but quoted text stops at the semicolon at the latest,
/// and is the same run where the text stands.
pub proof fn lemma_run_shift(s: Seq<char>, q: int, w: Seq<char>, i: int, class: CharClass)
    requires
        window(s, q, w),
        0 <= i < w.len(),
        class != CharClass::Unquoted,
    ensures
        run_end(s, q + i, class) == q + run_end(w, i, class),
        i <= run_end(w, i, class) < w.len(),
    decreases w.len() - i,
{
    assert(s[q + i] == w[i]);
    if i < w.len() - 1 && in_class(class, w[i]) {
        lemma_run_shift(s, q, w, i + 1, class);
    }
}

/// A character other than the semicolon is expected alike.
pub proof fn lemma_char_shift(s: Seq<char>, q: int, w: Seq<char>, i: int, c: char)
    requires
        window(s, q, w),
        0 <= i < w.len(),
        c != ';',
    ensures
        shifted_step(expect_char(w, i, c), expect_char(s, q + i, c), q),
        expect_char(w, i, c) matches Ok(end) ==> end < w.len(),
        expect_char(w, i, c) matches Err(fault) ==> !fault.fatal,
{
    assert(s[q + i] == w[i]);
}

/// A piece of the text is the same piece where the text stands.
pub proof fn lemma_window_range(s: Seq<char>, q: int, w: Seq<char>, from: int, to: int)
    requires
        window(s, q, w),
        0 <= from <= to <= w.len(),
    ensures
        s.subrange(q + from, q + to) == w.subrange(from, to),
{
    let there = s.subrange(q + from, q + to);
    let alone = w.subrange(from, to);
    assert forall|k: int| 0 <= k < to - from implies #[trigger] there[k] == alone[k] by {
        assert(s[q + (from + k)] == w[from + k]);
    }
    assert(there =~= alone);
}

/// A number is read alike.
pub proof fn lemma_number_shift(s: Seq<char>, q: int, w: Seq<char>, i: int)
    requires
        window(s, q, w),
        0 <= i < w.len(),
    ensures
        match number(w, i) {
            Some((n, end)) => number(s, q + i) == Some((n, end + q)) && end < w.len(),
            None => number(s, q + i) is None,
        },
{
    lemma_run_shift(s, q, w, i, CharClass::Numeric);
    let end = run_end(w, i, CharClass::Numeric);
    lemma_window_range(s, q, w, i, end);
}

/// The rest of a list of numbers is read alike.
pub proof fn lemma_float_rest_shift(
    s: Seq<char>,
    q: int,
    w: Seq<char>,
    i: int,
    acc: Seq<NumberModel>,
)
    requires
        window(s, q, w),
        0 <= i < w.len(),
    ensures
        shifted(float_rest(w, i, acc), float_rest(s, q + i, acc), q),
        float_rest(w, i, acc) matches Ok((_, end)) ==> 0 <= end < w.len(),
        float_rest(w, i, acc) matches Err(fault) ==> !fault.fatal,
    decreases w.len() - i,
{
    lemma_run_shift(s, q, w, i, CharClass::Space);
    let c = spaces_end(w, i);
    lemma_char_shift(s, q, w, c, ',');
    if let Ok(i1) = expect_char(w, c, ',') {
        lemma_run_shift(s, q, w, i1, CharClass::Space);
        lemma_number_shift(s, q, w, spaces_end(w, i1));
        if let Some((n, i2)) = number(w, spaces_end(w, i1)) {
            if i < i2 <= w.len() {
                lemma_float_rest_shift(s, q, w, i2, acc.push(n));
            }
        }
    }
}

/// A quoted list of numbers is read alike.
pub proof fn lemma_quoted_floats_shift(s: Seq<char>, q: int, w: Seq<char>, i: int)
    requires
        window(s, q, w),
        0 <= i < w.len(),
    ensures
        shifted(quoted_floats(w, i), quoted_floats(s, q + i), q),
        quoted_floats(w, i) matches Ok((_, end)) ==> 0 <= end < w.len(),
        quoted_floats(w, i) matches Err(fault) ==> !fault.fatal,
{
    lemma_char_shift(s, q, w, i, '"');
    if let Ok(p) = expect_char(w, i, '"') {
        lemma_run_shift(s, q, w, p, CharClass::Space);
        lemma_number_shift(s, q, w, spaces_end(w, p));
        let list = float_list(w, p);
        assert(shifted(list, float_list(s, q + p), q) && (list matches Ok((_, end)) ==> 0 <= end
            < w.len()) && (list matches Err(fault) ==> !fault.fatal)) by {
            if let Some((n, j)) = number(w, spaces_end(w, p)) {
                if p < j <= w.len() {
                    lemma_float_rest_shift(s, q, w, j, seq![n]);
                }
            }
        }
        if let Ok((numbers, e)) = list {
            lemma_char_shift(s, q, w, e, '"');
        }
    }
}

/// An identifier is read alike.
pub proof fn lemma_identifier_shift(s: Seq<char>, q: int, w: Seq<char>, i: int)
    requires
        window(s, q, w),
        0 <= i < w.len(),
    ensures
        shifted(identifier(w, i), identifier(s, q + i), q),
        identifier(w, i) matches Ok((_, end)) ==> i < end < w.len(),
        identifier(w, i) matches Err(fault) ==> !fault.fatal,
{
    lemma_run_shift(s, q, w, i, CharClass::Letter);
    let mid = run_end(w, i, CharClass::Letter);
    lemma_run_shift(s, q, w, mid, CharClass::Word);
    let end = run_end(w, mid, CharClass::Word);
    lemma_window_range(s, q, w, i, end);
}

/// A truth value is read alike.
pub proof fn lemma_boolean_shift(s: Seq<char>, q: int, w: Seq<char>, i: int)
    requires
        window(s, q, w),
        0 <= i < w.len(),
    ensures
        shifted(boolean(w, i), boolean(s, q + i), q),
{
    lemma_run_shift(s, q, w, i, CharClass::Letter);
    let end = run_end(w, i, CharClass::Letter);
    lemma_window_range(s, q, w, i, end);
}

/// A bare number with what ends it is read alike.
pub proof fn lemma_terminated_number_shift(s: Seq<char>, q: int, w: Seq<char>, i: int)
    requires
        window(s, q, w),
        0 <= i < w.len(),
    ensures
        shifted(terminated_number(w, i), terminated_number(s, q + i), q),
{
    lemma_number_shift(s, q, w, i);
    if let Some((n, end)) = number(w, i) {
        assert(s[q + end] == w[end]);
    }
}

/// Quoted text that ends inside the text is the same run where the text
/// stands.
pub proof fn lemma_unquoted_shift(s: Seq<char>, q: int, w: Seq<char>, i: int)
    requires
        window(s, q, w),
        0 <= i <= w.len(),
        run_end(w, i, CharClass::Unquoted) < w.len(),
    ensures
        run_end(s, q + i, CharClass::Unquoted) == q + run_end(w, i, CharClass::Unquoted),
    decreases w.len() - i,
{
    if i < w.len() {
        assert(s[q + i] == w[i]);
        if in_class(CharClass::Unquoted, w[i]) {
            lemma_unquoted_shift(s, q, w, i + 1);
        }
    }
}

/// A quoted string is read alike, where its closing mark stands in the
/// text.
pub proof fn lemma_quoted_string_shift(s: Seq<char>, q: int, w: Seq<char>, i: int)
    requires
        window(s, q, w),
        0 <= i < w.len(),
        !(quoted_string(w, i) matches Err(fault) && fault.fatal),
    ensures
        shifted(quoted_string(w, i), quoted_string(s, q + i), q),
        quoted_string(w, i) matches Ok((_, end)) ==> 0 <= end < w.len(),
{
    lemma_char_shift(s, q, w, i, '"');
    if let Ok(p) = expect_char(w, i, '"') {
        let end = run_end(w, p, CharClass::Unquoted);
        crate::grammar::lemma_run_end(w, p, CharClass::Unquoted);
        assert(end < w.len());
        lemma_unquoted_shift(s, q, w, p);
        lemma_char_shift(s, q, w, end, '"');
        lemma_window_range(s, q, w, p, end);
    }
}

/// An operand is read alike.
pub proof fn lemma_operand_shift(s: Seq<char>, q: int, w: Seq<char>, i: int)
    requires
        window(s, q, w),
        0 <= i < w.len(),
    ensures
        shifted_step(operand(w, i), operand(s, q + i), q),
        operand(w, i) matches Ok(end) ==> i <= end < w.len(),
    decreases w.len() - i, 0nat,
{
    lemma_run_shift(s, q, w, i, CharClass::Space);
    lemma_run_shift(s, q, w, spaces_end(w, i), CharClass::Minus);
    let p = run_end(w, spaces_end(w, i), CharClass::Minus);
    assert(s[q + p] == w[p]);
    if w[p] == '(' {
        lemma_expression_shift(s, q, w, p + 1);
        if let Ok((_, close)) = expression(w, p + 1) {
            lemma_char_shift(s, q, w, close, ')');
        }
    } else {
        lemma_identifier_shift(s, q, w, p);
        lemma_number_shift(s, q, w, p);
    }
}

/// The rest of an expression is read alike.
pub proof fn lemma_expression_rest_shift(s: Seq<char>, q: int, w: Seq<char>, i: int)
    requires
        window(s, q, w),
        0 <= i < w.len(),
    ensures
        shifted_step(expression_rest(w, i), expression_rest(s, q + i), q),
        expression_rest(w, i) matches Ok(end) ==> i <= end < w.len(),
    decreases w.len() - i, 1nat,
{
    lemma_run_shift(s, q, w, i, CharClass::Space);
    let c = spaces_end(w, i);
    lemma_run_shift(s, q, w, c, CharClass::Operator);
    let i1 = run_end(w, c, CharClass::Operator);
    if c < i1 {
        lemma_operand_shift(s, q, w, i1);
        if let Ok(i2) = operand(w, i1) {
            if i < i2 <= w.len() {
                lemma_expression_rest_shift(s, q, w, i2);
            }
        }
    }
}

/// An expression is read alike.
pub proof fn lemma_expression_shift(s: Seq<char>, q: int, w: Seq<char>, i: int)
    requires
        window(s, q, w),
        0 <= i < w.len(),
    ensures
        shifted(expression(w, i), expression(s, q + i), q),
        expression(w, i) matches Ok((_, end)) ==> i <= end < w.len(),
    decreases w.len() - i, 2nat,
{
    lemma_operand_shift(s, q, w, i);
    match operand(w, i) {
        Ok(j) => {
            if i < j <= w.len() {
                lemma_expression_rest_shift(s, q, w, j);
                if let Ok(end) = expression_rest(w, j) {
                    lemma_window_range(s, q, w, i, end);
                }
            }
        },
        Err(_) => {},
    }
}

/// A value that is read on the text alone is read alike where the text
/// stands.
pub proof fn lemma_value_choice_shift(s: Seq<char>, q: int, w: Seq<char>, i: int)
    requires
        window(s, q, w),
        0 <= i < w.len(),
        value_choice(w, i) is Ok,
    ensures
        shifted(value_choice(w, i), value_choice(s, q + i), q),
{
    reveal(value_choice);
    lemma_quoted_floats_shift(s, q, w, i);
    if quoted_floats(w, i) is Err {
        lemma_quoted_string_shift(s, q, w, i);
        if quoted_string(w, i) is Err {
            lemma_terminated_number_shift(s, q, w, i);
            if terminated_number(w, i) is Err {
                lemma_boolean_shift(s, q, w, i);
                if boolean(w, i) is Err {
                    lemma_expression_shift(s, q, w, i);
                }
            }
        }
    }
}

/// A value that is read on the text alone, after the blank space at its
/// start, is read alike where the text stands.
pub proof fn lemma_value_in_context(
    s: Seq<char>,
    pos: int,
    written: Seq<char>,
    read: ValueModel,
    end: int,
)
    requires
        stands_at(s, pos, written),
        written.len() > 0,
        written[written.len() - 1] == ';',
        simple_attr_value(written, spaces_end(written, 0)) == Ok::<(ValueModel, int), Fault>(
            (read, end),
        ),
    ensures
        simple_attr_value(s, spaces_end(s, pos)) == Ok::<(ValueModel, int), Fault>(
            (read, end + pos),
        ),
{
    assert(window(s, pos, written)) by {
        reveal(stands_at);
    }
    lemma_run_shift(s, pos, written, 0, CharClass::Space);
    let a = spaces_end(written, 0);
    lemma_run_shift(s, pos, written, a, CharClass::Space);
    let b = spaces_end(written, a);
    lemma_value_choice_shift(s, pos, written, b);
}

} // verus!
