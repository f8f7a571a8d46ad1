//! The grammar, run on a vector of characters. Every function here reads
//! what one rule of the grammar describes and yields what that rule yields.

use crate::ast::{
    item_models, lemma_group_view, number_models, value_models, GroupItem, ItemModel, Number,
    NumberModel, Value, ValueModel,
};
use crate::error::{ErrorKind, Failure, FrameKind, Label};
use crate::grammar::{
    block_parameter, body_item, body_items, boolean, comment, comment_close, complex_attribute,
    complex_attribute_values, continuation, expect_char, expect_tag, expression, expression_rest,
    float_list, float_rest, group, group_body, identifier, in_class, libraries,
    line_break, name_separator, number, operand, parameter_list, parameter_rest, quoted_floats,
    quoted_string, run_end, scanned, separator, simple_attr_value, simple_attribute,
    skip_continuation, spaces_end, terminated_number, top_item, top_items, value_choice,
    value_list, value_rest, CharClass, Parsed, Step,
};
use crate::text::{join, text_of, texts};
use nom::number::complete::double;
use vstd::prelude::*;

verus! {

/// What the number reader made of a word.
struct Scan {
    /// How many bytes of the word it left unread.
    rest: usize,
    /// The bit pattern of the number.
    bits: u64,
    /// The number with six digits after the decimal point.
    fixed: String,
}

/// `nom::number::complete::double` on `word`. Where it reads a number, the
/// result holds the length of what it left unread, the bits of the number
/// and the number formatted with `{:.6}`; where it does not, nothing.
#[verifier::external_body]
fn scan_number(word: &str) -> (found: Option<Scan>)
    ensures
        match found {
            Some(scan) => scanned(word@) == Some((scan.rest as nat, scan.bits, scan.fixed@)),
            None => scanned(word@) is None,
        },
{
    match double::<&str, (&str, nom::error::ErrorKind)>(word) {
        Ok((rest, v)) => {
            Some(Scan { rest: rest.len(), bits: v.to_bits(), fixed: format!("{:.6}", v) })
        },
        Err(_) => None,
    }
}

/// Whether an outcome of the parser is the outcome `spec` of the grammar,
/// for a rule without a value.
pub open spec fn step_is(r: Result<usize, Failure>, spec: Step) -> bool {
    match spec {
        Ok(end) => r matches Ok(e) && e as int == end,
        Err(fault) => r matches Err(failure) && failure@ == fault,
    }
}

/// Whether an outcome of the parser is the outcome `spec` of the grammar.
pub open spec fn parsed_is<T: View>(r: Result<(T, usize), Failure>, spec: Parsed<T::V>) -> bool {
    match spec {
        Ok((value, end)) => r matches Ok((v, e)) && v@ == value && e as int == end,
        Err(fault) => r matches Err(failure) && failure@ == fault,
    }
}

/// Whether `c` belongs to `class`.
pub fn is_in(class: CharClass, c: char) -> (yes: bool)
    ensures
        yes == in_class(class, c),
{
    let letter = (c >= 'a' && c <= 'z') || (c >= 'A' && c <= 'Z');
    let digit = c >= '0' && c <= '9';
    match class {
        CharClass::Space => c == ' ' || c == '\t' || c == '\r' || c == '\n',
        CharClass::Letter => letter,
        CharClass::Word => letter || digit || c == '_' || (c > '\u{7f}' && c.is_alphanumeric()),
        CharClass::Minus => c == '-',
        CharClass::Operator => c == '+' || c == '-' || c == '*' || c == '/',
        CharClass::Unquoted => c != '"',
        CharClass::Numeric => letter || digit || c == '+' || c == '-' || c == '.',
    }
}

/// The end of the longest run of characters of `class` from `pos` on.
pub fn scan(chars: &Vec<char>, pos: usize, class: CharClass) -> (end: usize)
    requires
        pos <= chars.len(),
    ensures
        end == run_end(chars@, pos as int, class),
        pos <= end <= chars.len(),
{
    let mut end = pos;
    while end < chars.len() && is_in(class, chars[end])
        invariant
            pos <= end <= chars.len(),
            run_end(chars@, pos as int, class) == run_end(chars@, end as int, class),
        decreases chars.len() - end,
    {
        end += 1;
    }
    end
}

/// Where the blank space from `pos` on ends.
pub fn skip_spaces(chars: &Vec<char>, pos: usize) -> (end: usize)
    requires
        pos <= chars.len(),
    ensures
        end == spaces_end(chars@, pos as int),
        pos <= end <= chars.len(),
{
    scan(chars, pos, CharClass::Space)
}

/// Reads the character `c` at `pos`.
pub fn read_char(chars: &Vec<char>, pos: usize, c: char) -> (r: Result<usize, Failure>)
    requires
        pos <= chars.len(),
    ensures
        step_is(r, expect_char(chars@, pos as int, c)),
        r matches Ok(end) ==> end == pos + 1 && end <= chars.len(),
{
    if pos < chars.len() && chars[pos] == c {
        Ok(pos + 1)
    } else {
        Err(Failure::at(pos, FrameKind::Char(c)))
    }
}

/// Reads the piece of punctuation `c` at `pos`.
pub fn read_tag(chars: &Vec<char>, pos: usize, c: char) -> (r: Result<usize, Failure>)
    requires
        pos <= chars.len(),
    ensures
        step_is(r, expect_tag(chars@, pos as int, c)),
        r matches Ok(end) ==> end == pos + 1 && end <= chars.len(),
{
    if pos < chars.len() && chars[pos] == c {
        Ok(pos + 1)
    } else {
        Err(Failure::at(pos, FrameKind::Nom(ErrorKind::Tag)))
    }
}

/// Reads an identifier at `pos`.
pub fn read_identifier(chars: &Vec<char>, pos: usize) -> (r: Result<(String, usize), Failure>)
    requires
        pos <= chars.len(),
    ensures
        parsed_is(r, identifier(chars@, pos as int)),
        r matches Ok((_, end)) ==> pos < end <= chars.len(),
{
    let mid = scan(chars, pos, CharClass::Letter);
    if mid == pos {
        Err(Failure::at(pos, FrameKind::Nom(ErrorKind::Alpha)).within(pos, Label::UnderscoreTag))
    } else {
        let end = scan(chars, mid, CharClass::Word);
        Ok((text_of(chars, pos, end), end))
    }
}

/// Reads a number at `pos`.
pub fn read_number(chars: &Vec<char>, pos: usize) -> (r: Option<(Number, usize)>)
    requires
        pos <= chars.len(),
    ensures
        match number(chars@, pos as int) {
            Some((n, end)) => r matches Some((m, e)) && m@ == n && e as int == end,
            None => r is None,
        },
        r matches Some((_, end)) ==> pos <= end <= chars.len(),
{
    let end = scan(chars, pos, CharClass::Numeric);
    if end == pos {
        return None;
    }
    let word = text_of(chars, pos, end);
    match scan_number(word.as_str()) {
        Some(found) => {
            if found.rest <= end - pos {
                Some((Number { bits: found.bits, fixed: found.fixed }, end - found.rest))
            } else {
                None
            }
        },
        None => None,
    }
}

/// Whether an outcome of the parser is the outcome `spec` of the grammar,
/// for a rule that yields numbers.
pub open spec fn numbers_are(
    r: Result<(Vec<Number>, usize), Failure>,
    spec: Parsed<Seq<NumberModel>>,
) -> bool {
    match spec {
        Ok((numbers, end)) => r matches Ok((v, e)) && number_models(v@) == numbers && e as int
            == end,
        Err(fault) => r matches Err(failure) && failure@ == fault,
    }
}

/// Reads the numbers of a quoted list that follow those in `numbers`.
fn read_float_rest(chars: &Vec<char>, start: usize, seen: Vec<Number>) -> (r: Result<
    (Vec<Number>, usize),
    Failure,
>)
    requires
        start <= chars.len(),
    ensures
        numbers_are(r, float_rest(chars@, start as int, number_models(seen@))),
        r matches Ok((_, end)) ==> start <= end <= chars.len(),
        r matches Err(failure) ==> !failure.fatal,
{
    let ghost first = number_models(seen@);
    let mut numbers = seen;
    let mut i = start;
    loop
        invariant
            start <= i <= chars.len(),
            first == number_models(seen@),
            float_rest(chars@, start as int, first) == float_rest(
                chars@,
                i as int,
                number_models(numbers@),
            ),
        decreases chars.len() - i,
    {
        match read_char(chars, skip_spaces(chars, i), ',') {
            Err(_) => {
                return Ok((numbers, i));
            },
            Ok(i1) => match read_number(chars, skip_spaces(chars, i1)) {
                None => {
                    return Ok((numbers, i));
                },
                Some((n, i2)) => {
                    if i < i2 {
                        proof {
                            assert(number_models(numbers@.push(n)) =~= number_models(
                                numbers@,
                            ).push(n@));
                        }
                        numbers.push(n);
                        i = i2;
                    } else {
                        return Err(Failure::at(i2, FrameKind::Nom(ErrorKind::SeparatedList)));
                    }
                },
            },
        }
    }
}

/// Reads numbers separated by commas.
fn read_float_list(chars: &Vec<char>, pos: usize) -> (r: Result<(Vec<Number>, usize), Failure>)
    requires
        pos <= chars.len(),
    ensures
        numbers_are(r, float_list(chars@, pos as int)),
        r matches Ok((_, end)) ==> pos <= end <= chars.len(),
        r matches Err(failure) ==> !failure.fatal,
{
    match read_number(chars, skip_spaces(chars, pos)) {
        None => {
            let numbers: Vec<Number> = Vec::new();
            assert(number_models(numbers@) =~= Seq::empty());
            Ok((numbers, pos))
        },
        Some((n, i)) => {
            if pos < i {
                let numbers = vec![n];
                assert(number_models(numbers@) =~= seq![n@]);
                read_float_rest(chars, i, numbers)
            } else {
                Err(Failure::at(i, FrameKind::Nom(ErrorKind::SeparatedList)))
            }
        },
    }
}

/// Reads a list of numbers between quotation marks.
pub fn read_quoted_floats(chars: &Vec<char>, pos: usize) -> (r: Result<
    (Vec<Number>, usize),
    Failure,
>)
    requires
        pos <= chars.len(),
    ensures
        numbers_are(r, quoted_floats(chars@, pos as int)),
        r matches Ok((_, end)) ==> pos < end <= chars.len(),
        r matches Err(failure) ==> !failure.fatal,
{
    let p = match read_char(chars, pos, '"') {
        Ok(p) => p,
        Err(failure) => {
            return Err(failure.within(pos, Label::QuotedFloats));
        },
    };
    let (numbers, q) = match read_float_list(chars, p) {
        Ok(found) => found,
        Err(failure) => {
            return Err(failure.within(pos, Label::QuotedFloats));
        },
    };
    match read_char(chars, q, '"') {
        Ok(end) => Ok((numbers, end)),
        Err(failure) => Err(failure.within(pos, Label::QuotedFloats)),
    }
}

/// Reads text between quotation marks.
pub fn read_quoted_string(chars: &Vec<char>, pos: usize) -> (r: Result<(String, usize), Failure>)
    requires
        pos <= chars.len(),
    ensures
        parsed_is(r, quoted_string(chars@, pos as int)),
        r matches Ok((_, end)) ==> pos < end <= chars.len(),
{
    let p = match read_char(chars, pos, '"') {
        Ok(p) => p,
        Err(failure) => {
            return Err(failure.within(pos, Label::QuotedString));
        },
    };
    let end = scan(chars, p, CharClass::Unquoted);
    if end == p {
        return Err(
            Failure::at(p, FrameKind::Nom(ErrorKind::IsNot)).commit().within(
                pos,
                Label::QuotedString,
            ),
        );
    }
    match read_char(chars, end, '"') {
        Ok(q) => Ok((text_of(chars, p, end), q)),
        Err(failure) => Err(failure.commit().within(pos, Label::QuotedString)),
    }
}

/// Whether `chars[from..to]` spells `word`.
pub fn spells(chars: &Vec<char>, from: usize, to: usize, word: &str) -> (yes: bool)
    requires
        from <= to <= chars.len(),
    ensures
        yes == (chars@.subrange(from as int, to as int) == word@),
{
    let n = word.unicode_len();
    if to - from != n {
        return false;
    }
    let mut i: usize = 0;
    while i < n
        invariant
            i <= n,
            n == word@.len(),
            to - from == n,
            from <= to <= chars.len(),
            forall|j: int| 0 <= j < i ==> chars@[from + j] == word@[j],
        decreases n - i,
    {
        if chars[from + i] != word.get_char(i) {
            assert(chars@.subrange(from as int, to as int)[i as int] != word@[i as int]);
            return false;
        }
        i += 1;
    }
    assert(chars@.subrange(from as int, to as int) =~= word@);
    true
}

/// Reads `true` or `false`.
pub fn read_boolean(chars: &Vec<char>, pos: usize) -> (r: Result<(bool, usize), Failure>)
    requires
        pos <= chars.len(),
    ensures
        parsed_is(r, boolean(chars@, pos as int)),
        r matches Ok((_, end)) ==> pos < end <= chars.len(),
        r matches Err(failure) ==> !failure.fatal,
{
    let end = scan(chars, pos, CharClass::Letter);
    if end == pos {
        Err(Failure::at(pos, FrameKind::Nom(ErrorKind::Alpha)))
    } else if spells(chars, pos, end, "true") {
        Ok((true, end))
    } else if spells(chars, pos, end, "false") {
        Ok((false, end))
    } else {
        Err(Failure::at(pos, FrameKind::Nom(ErrorKind::MapRes)))
    }
}

/// Reads one operand of an expression.
pub fn read_operand(chars: &Vec<char>, pos: usize) -> (r: Result<usize, Failure>)
    requires
        pos <= chars.len(),
    ensures
        step_is(r, operand(chars@, pos as int)),
        r matches Ok(end) ==> pos <= end <= chars.len(),
    decreases chars.len() - pos, 0nat,
{
    let p = scan(chars, skip_spaces(chars, pos), CharClass::Minus);
    if p < chars.len() && chars[p] == '(' {
        let q = match read_expression(chars, p + 1) {
            Ok(q) => q,
            Err(failure) => {
                return Err(failure.commit());
            },
        };
        match read_char(chars, q, ')') {
            Ok(end) => Ok(end),
            Err(failure) => Err(failure.commit()),
        }
    } else {
        match read_identifier(chars, p) {
            Ok((_, end)) => Ok(end),
            Err(_) => match read_number(chars, p) {
                Some((_, end)) => Ok(end),
                None => Err(
                    Failure::at(p, FrameKind::Nom(ErrorKind::Float)).no_alternative(p),
                ),
            },
        }
    }
}

/// Reads the operands of an expression that follow the first ones.
pub fn read_expression_rest(chars: &Vec<char>, start: usize) -> (r: Result<usize, Failure>)
    requires
        start <= chars.len(),
    ensures
        step_is(r, expression_rest(chars@, start as int)),
        r matches Ok(end) ==> start <= end <= chars.len(),
    decreases chars.len() - start, 1nat,
{
    let mut i = start;
    loop
        invariant
            start <= i <= chars.len(),
            expression_rest(chars@, start as int) == expression_rest(chars@, i as int),
        decreases chars.len() - i,
    {
        let c = skip_spaces(chars, i);
        let i1 = scan(chars, c, CharClass::Operator);
        if c < i1 {
            match read_operand(chars, i1) {
                Err(failure) => {
                    if failure.fatal {
                        return Err(failure);
                    } else {
                        return Ok(i);
                    }
                },
                Ok(i2) => {
                    if i < i2 {
                        i = i2;
                    } else {
                        return Err(Failure::at(i2, FrameKind::Nom(ErrorKind::SeparatedList)));
                    }
                },
            }
        } else {
            return Ok(i);
        }
    }
}

/// Reads an expression and yields where it ends; its text is what stands
/// between `pos` and that place.
pub fn read_expression(chars: &Vec<char>, pos: usize) -> (r: Result<usize, Failure>)
    requires
        pos <= chars.len(),
    ensures
        match expression(chars@, pos as int) {
            Ok((text, end)) => r matches Ok(e) && e as int == end && text == chars@.subrange(
                pos as int,
                end,
            ),
            Err(fault) => r matches Err(failure) && failure@ == fault,
        },
        r matches Ok(end) ==> pos <= end <= chars.len(),
    decreases chars.len() - pos, 2nat,
{
    match read_operand(chars, pos) {
        Err(failure) => {
            if failure.fatal {
                Err(failure.within(pos, Label::Expression))
            } else {
                assert(chars@.subrange(pos as int, pos as int) =~= Seq::<char>::empty());
                Ok(pos)
            }
        },
        Ok(i) => {
            if pos < i {
                match read_expression_rest(chars, i) {
                    Ok(end) => Ok(end),
                    Err(failure) => Err(failure.within(pos, Label::Expression)),
                }
            } else {
                Err(
                    Failure::at(i, FrameKind::Nom(ErrorKind::SeparatedList)).within(
                        pos,
                        Label::Expression,
                    ),
                )
            }
        },
    }
}

/// Reads a bare number and looks at what follows it.
pub fn read_terminated_number(chars: &Vec<char>, pos: usize) -> (r: Result<
    (Number, usize),
    Failure,
>)
    requires
        pos <= chars.len(),
    ensures
        parsed_is(r, terminated_number(chars@, pos as int)),
        r matches Ok((_, end)) ==> pos <= end <= chars.len(),
        r matches Err(failure) ==> !failure.fatal,
{
    match read_number(chars, pos) {
        None => Err(Failure::at(pos, FrameKind::Nom(ErrorKind::Float))),
        Some((n, end)) => {
            if end < chars.len() && (chars[end] == ',' || chars[end] == ';' || chars[end] == ' '
                || chars[end] == '\t' || chars[end] == ')') {
                Ok((n, end))
            } else {
                Err(Failure::at(end, FrameKind::Nom(ErrorKind::OneOf)))
            }
        },
    }
}

/// Reads the value that stands at `pos`.
pub fn read_value_choice(chars: &Vec<char>, pos: usize) -> (r: Result<(Value, usize), Failure>)
    requires
        pos <= chars.len(),
    ensures
        parsed_is(r, value_choice(chars@, pos as int)),
        r matches Ok((_, end)) ==> pos <= end <= chars.len(),
{
    proof {
        reveal(value_choice);
    }
    match read_quoted_floats(chars, pos) {
        Ok((numbers, end)) => {
            return Ok((Value::FloatGroup(numbers), end));
        },
        Err(failure) => {
            if failure.fatal {
                return Err(failure);
            }
        },
    }
    match read_quoted_string(chars, pos) {
        Ok((text, end)) => {
            return Ok((Value::String(text), end));
        },
        Err(failure) => {
            if failure.fatal {
                return Err(failure);
            }
        },
    }
    match read_terminated_number(chars, pos) {
        Ok((n, end)) => {
            return Ok((Value::Float(n), end));
        },
        Err(_) => {},
    }
    match read_boolean(chars, pos) {
        Ok((b, end)) => {
            return Ok((Value::Bool(b), end));
        },
        Err(_) => {},
    }
    match read_expression(chars, pos) {
        Ok(end) => Ok((Value::Expression(text_of(chars, pos, end)), end)),
        Err(failure) => {
            if failure.fatal {
                Err(failure)
            } else {
                Err(failure.no_alternative(pos))
            }
        },
    }
}

/// Reads a value, after blank space.
pub fn read_value(chars: &Vec<char>, pos: usize) -> (r: Result<(Value, usize), Failure>)
    requires
        pos <= chars.len(),
    ensures
        parsed_is(r, simple_attr_value(chars@, pos as int)),
        r matches Ok((_, end)) ==> pos <= end <= chars.len(),
{
    match read_value_choice(chars, skip_spaces(chars, pos)) {
        Ok(found) => Ok(found),
        Err(failure) => Err(failure.within(pos, Label::SimpleAttrValue)),
    }
}

/// Reads `name : value ;`.
pub fn read_simple_attribute(chars: &Vec<char>, pos: usize) -> (r: Result<
    (GroupItem, usize),
    Failure,
>)
    requires
        pos <= chars.len(),
    ensures
        parsed_is(r, simple_attribute(chars@, pos as int)),
        r matches Ok((_, end)) ==> pos < end <= chars.len(),
{
    let (name, at1) = match read_identifier(chars, skip_spaces(chars, pos)) {
        Ok(found) => found,
        Err(failure) => {
            return Err(failure.within(pos, Label::SimpleAttr));
        },
    };
    let at2 = match read_char(chars, skip_spaces(chars, at1), ':') {
        Ok(p) => p,
        Err(failure) => {
            return Err(failure.within(pos, Label::SimpleAttr));
        },
    };
    let (value, at3) = match read_value(chars, skip_spaces(chars, at2)) {
        Ok(found) => found,
        Err(failure) => {
            return Err(failure.commit().within(pos, Label::SimpleAttr));
        },
    };
    match read_char(chars, skip_spaces(chars, at3), ';') {
        Ok(end) => Ok((GroupItem::SimpleAttr(name, value), end)),
        Err(failure) => Err(failure.commit().within(pos, Label::SimpleAttr)),
    }
}

/// Reads a line break.
pub fn read_line_break(chars: &Vec<char>, pos: usize) -> (r: Result<usize, Failure>)
    requires
        pos <= chars.len(),
    ensures
        step_is(r, line_break(chars@, pos as int)),
        r matches Ok(end) ==> pos < end <= chars.len(),
        r matches Err(failure) ==> !failure.fatal,
{
    if pos < chars.len() && chars[pos] == '\n' {
        Ok(pos + 1)
    } else if pos < chars.len() && pos + 1 < chars.len() && chars[pos] == '\r' && chars[pos + 1]
        == '\n' {
        Ok(pos + 2)
    } else {
        Err(Failure::at(pos, FrameKind::Nom(ErrorKind::CrLf)))
    }
}

/// Reads a line continuation.
pub fn read_continuation(chars: &Vec<char>, pos: usize) -> (r: Result<usize, Failure>)
    requires
        pos <= chars.len(),
    ensures
        step_is(r, continuation(chars@, pos as int)),
        r matches Ok(end) ==> pos < end <= chars.len(),
        r matches Err(failure) ==> !failure.fatal,
{
    match read_tag(chars, skip_spaces(chars, pos), '\\') {
        Ok(p) => read_line_break(chars, p),
        Err(failure) => Err(failure),
    }
}

/// The position after a line continuation at `pos`, if there is one.
pub fn pass_continuation(chars: &Vec<char>, pos: usize) -> (end: usize)
    requires
        pos <= chars.len(),
    ensures
        end == skip_continuation(chars@, pos as int),
        pos <= end <= chars.len(),
{
    match read_continuation(chars, pos) {
        Ok(end) => end,
        Err(_) => pos,
    }
}

/// Reads what separates two values of a complex attribute.
pub fn read_separator(chars: &Vec<char>, pos: usize) -> (r: Result<usize, Failure>)
    requires
        pos <= chars.len(),
    ensures
        step_is(r, separator(chars@, pos as int)),
        r matches Ok(end) ==> pos < end <= chars.len(),
{
    match read_tag(chars, skip_spaces(chars, pos), ',') {
        Ok(p) => match read_continuation(chars, p) {
            Ok(end) => Ok(end),
            Err(_) => Ok(p),
        },
        Err(_) => {
            let p = match read_continuation(chars, pos) {
                Ok(p) => p,
                Err(failure) => {
                    return Err(failure.no_alternative(pos));
                },
            };
            match read_tag(chars, skip_spaces(chars, p), ',') {
                Ok(end) => Ok(end),
                Err(failure) => Err(failure.no_alternative(pos)),
            }
        },
    }
}

/// Whether an outcome of the parser is the outcome `spec` of the grammar,
/// for a rule that yields values.
pub open spec fn values_are(
    r: Result<(Vec<Value>, usize), Failure>,
    spec: Parsed<Seq<ValueModel>>,
) -> bool {
    match spec {
        Ok((values, end)) => r matches Ok((v, e)) && value_models(v@) == values && e as int == end,
        Err(fault) => r matches Err(failure) && failure@ == fault,
    }
}

/// Reads the values of a complex attribute that follow those in `seen`.
fn read_value_rest(chars: &Vec<char>, start: usize, seen: Vec<Value>) -> (r: Result<
    (Vec<Value>, usize),
    Failure,
>)
    requires
        start <= chars.len(),
    ensures
        values_are(r, value_rest(chars@, start as int, value_models(seen@))),
        r matches Ok((_, end)) ==> start <= end <= chars.len(),
{
    let ghost first = value_models(seen@);
    let mut values = seen;
    let mut i = start;
    loop
        invariant
            start <= i <= chars.len(),
            first == value_models(seen@),
            value_rest(chars@, start as int, first) == value_rest(
                chars@,
                i as int,
                value_models(values@),
            ),
        decreases chars.len() - i,
    {
        match read_separator(chars, i) {
            Err(_) => {
                return Ok((values, i));
            },
            Ok(i1) => match read_value(chars, skip_spaces(chars, i1)) {
                Err(failure) => {
                    if failure.fatal {
                        return Err(failure);
                    } else {
                        return Ok((values, i));
                    }
                },
                Ok((value, i2)) => {
                    if i < i2 {
                        proof {
                            assert(value_models(values@.push(value)) =~= value_models(
                                values@,
                            ).push(value@));
                        }
                        values.push(value);
                        i = i2;
                    } else {
                        return Err(Failure::at(i2, FrameKind::Nom(ErrorKind::SeparatedList)));
                    }
                },
            },
        }
    }
}

/// Reads values with separators between them.
fn read_value_list(chars: &Vec<char>, pos: usize) -> (r: Result<(Vec<Value>, usize), Failure>)
    requires
        pos <= chars.len(),
    ensures
        values_are(r, value_list(chars@, pos as int)),
        r matches Ok((_, end)) ==> pos <= end <= chars.len(),
{
    match read_value(chars, skip_spaces(chars, pos)) {
        Err(failure) => {
            if failure.fatal {
                Err(failure)
            } else {
                let values: Vec<Value> = Vec::new();
                assert(value_models(values@) =~= Seq::empty());
                Ok((values, pos))
            }
        },
        Ok((value, i)) => {
            if pos < i {
                let values = vec![value];
                assert(value_models(values@) =~= seq![value@]);
                read_value_rest(chars, i, values)
            } else {
                Err(Failure::at(i, FrameKind::Nom(ErrorKind::SeparatedList)))
            }
        },
    }
}

/// Reads `( value, value, ... )`.
pub fn read_complex_values(chars: &Vec<char>, pos: usize) -> (r: Result<
    (Vec<Value>, usize),
    Failure,
>)
    requires
        pos <= chars.len(),
    ensures
        values_are(r, complex_attribute_values(chars@, pos as int)),
        r matches Ok((_, end)) ==> pos < end <= chars.len(),
{
    let at1 = match read_tag(chars, skip_spaces(chars, pos), '(') {
        Ok(p) => p,
        Err(failure) => {
            return Err(failure.within(pos, Label::ComplexValues));
        },
    };
    let (values, at2) = match read_value_list(chars, pass_continuation(chars, at1)) {
        Ok(found) => found,
        Err(failure) => {
            return Err(failure.within(pos, Label::ComplexValues));
        },
    };
    match read_tag(chars, skip_spaces(chars, pass_continuation(chars, at2)), ')') {
        Ok(end) => Ok((values, end)),
        Err(failure) => Err(failure.within(pos, Label::ComplexValues)),
    }
}

/// Reads `name ( value, value, ... ) ;`.
pub fn read_complex_attribute(chars: &Vec<char>, pos: usize) -> (r: Result<
    (GroupItem, usize),
    Failure,
>)
    requires
        pos <= chars.len(),
    ensures
        parsed_is(r, complex_attribute(chars@, pos as int)),
        r matches Ok((_, end)) ==> pos < end <= chars.len(),
{
    let (name, at1) = match read_identifier(chars, skip_spaces(chars, pos)) {
        Ok(found) => found,
        Err(failure) => {
            return Err(failure.within(pos, Label::ComplexAttr));
        },
    };
    let (values, at2) = match read_complex_values(chars, skip_spaces(chars, at1)) {
        Ok(found) => found,
        Err(failure) => {
            return Err(failure.within(pos, Label::ComplexAttr));
        },
    };
    match read_char(chars, skip_spaces(chars, at2), ';') {
        Ok(end) => Ok((GroupItem::ComplexAttr(name, values), end)),
        Err(failure) => Err(failure.within(pos, Label::ComplexAttr)),
    }
}

/// The first position from `from` on at which `*/` stands.
pub fn find_comment_close(chars: &Vec<char>, from: usize) -> (found: Option<usize>)
    requires
        from <= chars.len(),
    ensures
        match comment_close(chars@, from as int) {
            Some(close) => found == Some(close as usize) && from <= close && close + 2
                <= chars.len(),
            None => found is None,
        },
{
    let mut i = from;
    while i < chars.len() && i + 1 < chars.len()
        invariant
            from <= i <= chars.len(),
            comment_close(chars@, from as int) == comment_close(chars@, i as int),
        decreases chars.len() - i,
    {
        if chars[i] == '*' && chars[i + 1] == '/' {
            return Some(i);
        }
        i += 1;
    }
    None
}

/// Reads a comment.
pub fn read_comment(chars: &Vec<char>, pos: usize) -> (r: Result<(String, usize), Failure>)
    requires
        pos <= chars.len(),
    ensures
        parsed_is(r, comment(chars@, pos as int)),
        r matches Ok((_, end)) ==> pos < end <= chars.len(),
        r matches Err(failure) ==> !failure.fatal,
{
    if pos < chars.len() && pos + 1 < chars.len() && chars[pos] == '/' && chars[pos + 1] == '*' {
        match find_comment_close(chars, pos + 2) {
            Some(close) => Ok((text_of(chars, pos, close + 2), close + 2)),
            None => Err(
                Failure::at(pos + 2, FrameKind::Nom(ErrorKind::TakeUntil)).within(
                    pos,
                    Label::Comment,
                ),
            ),
        }
    } else {
        Err(Failure::at(pos, FrameKind::Nom(ErrorKind::Tag)).within(pos, Label::Comment))
    }
}

/// Reads one parameter of a block.
pub fn read_block_parameter(chars: &Vec<char>, pos: usize) -> (r: Result<(String, usize), Failure>)
    requires
        pos <= chars.len(),
    ensures
        parsed_is(r, block_parameter(chars@, pos as int)),
        r matches Ok((_, end)) ==> pos < end <= chars.len(),
{
    let p = skip_spaces(chars, pos);
    match read_quoted_string(chars, p) {
        Ok((text, end)) => {
            let mut quoted = String::new();
            quoted.push('"');
            quoted.append(text.as_str());
            quoted.push('"');
            assert(quoted@ =~= seq!['"'] + text@ + seq!['"']);
            return Ok((quoted, end));
        },
        Err(failure) => {
            if failure.fatal {
                return Err(failure);
            }
        },
    }
    match read_identifier(chars, p) {
        Ok(found) => Ok(found),
        Err(failure) => Err(failure.no_alternative(p)),
    }
}

/// Whether an outcome of the parser is the outcome `spec` of the grammar,
/// for a rule that yields pieces of text.
pub open spec fn texts_are(
    r: Result<(Vec<String>, usize), Failure>,
    spec: Parsed<Seq<Seq<char>>>,
) -> bool {
    match spec {
        Ok((parts, end)) => r matches Ok((v, e)) && texts(v@) == parts && e as int == end,
        Err(fault) => r matches Err(failure) && failure@ == fault,
    }
}

/// Reads the parameters of a block that follow those in `seen`.
fn read_parameter_rest(chars: &Vec<char>, start: usize, seen: Vec<String>) -> (r: Result<
    (Vec<String>, usize),
    Failure,
>)
    requires
        start <= chars.len(),
    ensures
        texts_are(r, parameter_rest(chars@, start as int, texts(seen@))),
        r matches Ok((_, end)) ==> start <= end <= chars.len(),
{
    let ghost first = texts(seen@);
    let mut parameters = seen;
    let mut i = start;
    loop
        invariant
            start <= i <= chars.len(),
            first == texts(seen@),
            parameter_rest(chars@, start as int, first) == parameter_rest(
                chars@,
                i as int,
                texts(parameters@),
            ),
        decreases chars.len() - i,
    {
        match read_char(chars, skip_spaces(chars, i), ',') {
            Err(_) => {
                return Ok((parameters, i));
            },
            Ok(i1) => match read_block_parameter(chars, i1) {
                Err(failure) => {
                    if failure.fatal {
                        return Err(failure);
                    } else {
                        return Ok((parameters, i));
                    }
                },
                Ok((name, i2)) => {
                    if i < i2 {
                        proof {
                            assert(texts(parameters@.push(name)) =~= texts(parameters@).push(
                                name@,
                            ));
                        }
                        parameters.push(name);
                        i = i2;
                    } else {
                        return Err(Failure::at(i2, FrameKind::Nom(ErrorKind::SeparatedList)));
                    }
                },
            },
        }
    }
}

/// Reads the parameters of a block.
fn read_parameter_list(chars: &Vec<char>, pos: usize) -> (r: Result<(Vec<String>, usize), Failure>)
    requires
        pos <= chars.len(),
    ensures
        texts_are(r, parameter_list(chars@, pos as int)),
        r matches Ok((_, end)) ==> pos <= end <= chars.len(),
{
    match read_block_parameter(chars, pos) {
        Err(failure) => {
            if failure.fatal {
                Err(failure)
            } else {
                let parameters: Vec<String> = Vec::new();
                assert(texts(parameters@) =~= Seq::empty());
                Ok((parameters, pos))
            }
        },
        Ok((name, i)) => {
            if pos < i {
                let parameters = vec![name];
                assert(texts(parameters@) =~= seq![name@]);
                read_parameter_rest(chars, i, parameters)
            } else {
                Err(Failure::at(i, FrameKind::Nom(ErrorKind::SeparatedList)))
            }
        },
    }
}

/// Whether an outcome of the parser is the outcome `spec` of the grammar,
/// for a rule that yields items.
pub open spec fn items_are(
    r: Result<(Vec<GroupItem>, usize), Failure>,
    spec: Parsed<Seq<ItemModel>>,
) -> bool {
    match spec {
        Ok((items, end)) => r matches Ok((v, e)) && item_models(v@) == items && e as int == end,
        Err(fault) => r matches Err(failure) && failure@ == fault,
    }
}

/// Reads a block.
pub fn read_group(chars: &Vec<char>, pos: usize) -> (r: Result<(GroupItem, usize), Failure>)
    requires
        pos <= chars.len(),
    ensures
        parsed_is(r, group(chars@, pos as int)),
        r matches Ok((item, end)) ==> pos < end <= chars.len() && item is Group,
    decreases chars.len() - pos, 0nat,
{
    let (kind, at1) = match read_identifier(chars, skip_spaces(chars, pos)) {
        Ok(found) => found,
        Err(failure) => {
            return Err(failure.within(pos, Label::ParsingGroup));
        },
    };
    let at2 = match read_char(chars, skip_spaces(chars, at1), '(') {
        Ok(p) => p,
        Err(failure) => {
            return Err(failure.within(pos, Label::ParsingGroup));
        },
    };
    let (parameters, at3) = match read_parameter_list(chars, at2) {
        Ok(found) => found,
        Err(failure) => {
            return Err(failure.within(pos, Label::ParsingGroup));
        },
    };
    let at4 = match read_char(chars, skip_spaces(chars, at3), ')') {
        Ok(p) => p,
        Err(failure) => {
            return Err(failure.within(pos, Label::ParsingGroup));
        },
    };
    let at5 = match read_char(chars, skip_spaces(chars, at4), '{') {
        Ok(p) => p,
        Err(failure) => {
            return Err(failure.within(pos, Label::ParsingGroup));
        },
    };
    let (items, at6) = match read_group_body(chars, at5) {
        Ok(found) => found,
        Err(failure) => {
            return Err(failure.commit().within(pos, Label::ParsingGroup));
        },
    };
    match read_char(chars, skip_spaces(chars, at6), '}') {
        Ok(end) => {
            proof {
                reveal_strlit(", ");
                assert(", "@ =~= name_separator());
            }
            let name = join(&parameters, ", ");
            let item = GroupItem::Group(kind, name, items);
            proof {
                lemma_group_view(item);
            }
            Ok((item, end))
        },
        Err(failure) => Err(failure.commit().within(pos, Label::ParsingGroup)),
    }
}

/// Reads one item of a block's body.
pub fn read_body_item(chars: &Vec<char>, pos: usize) -> (r: Result<(GroupItem, usize), Failure>)
    requires
        pos <= chars.len(),
    ensures
        parsed_is(r, body_item(chars@, pos as int)),
        r matches Ok((_, end)) ==> pos < end <= chars.len(),
    decreases chars.len() - pos, 1nat,
{
    let p = skip_spaces(chars, pos);
    match read_comment(chars, p) {
        Ok((text, end)) => {
            return Ok((GroupItem::Comment(text), end));
        },
        Err(_) => {},
    }
    match read_group(chars, p) {
        Ok(found) => {
            return Ok(found);
        },
        Err(failure) => {
            if failure.fatal {
                return Err(failure.within(pos, Label::FoldingItems));
            }
        },
    }
    match read_simple_attribute(chars, p) {
        Ok(found) => {
            return Ok(found);
        },
        Err(failure) => {
            if failure.fatal {
                return Err(failure.within(pos, Label::FoldingItems));
            }
        },
    }
    match read_complex_attribute(chars, p) {
        Ok(found) => Ok(found),
        Err(failure) => {
            if failure.fatal {
                Err(failure.within(pos, Label::FoldingItems))
            } else {
                Err(failure.no_alternative(pos).within(pos, Label::FoldingItems))
            }
        },
    }
}

/// Reads the items of a body that follow those in `seen`.
pub fn read_body_items(chars: &Vec<char>, start: usize, seen: Vec<GroupItem>) -> (r: Result<
    (Vec<GroupItem>, usize),
    Failure,
>)
    requires
        start <= chars.len(),
    ensures
        items_are(r, body_items(chars@, start as int, item_models(seen@))),
        r matches Ok((_, end)) ==> start <= end <= chars.len(),
    decreases chars.len() - start, 2nat,
{
    let ghost first = item_models(seen@);
    let mut items = seen;
    let mut i = start;
    loop
        invariant
            start <= i <= chars.len(),
            first == item_models(seen@),
            body_items(chars@, start as int, first) == body_items(
                chars@,
                i as int,
                item_models(items@),
            ),
        decreases chars.len() - i,
    {
        match read_body_item(chars, i) {
            Err(failure) => {
                if failure.fatal {
                    return Err(failure);
                } else {
                    return Ok((items, i));
                }
            },
            Ok((item, i2)) => {
                proof {
                    assert(item_models(items@.push(item)) =~= item_models(items@).push(item@));
                }
                items.push(item);
                i = i2;
            },
        }
    }
}

/// Reads what stands between the braces of a block.
pub fn read_group_body(chars: &Vec<char>, pos: usize) -> (r: Result<
    (Vec<GroupItem>, usize),
    Failure,
>)
    requires
        pos <= chars.len(),
    ensures
        items_are(r, group_body(chars@, pos as int)),
        r matches Ok((_, end)) ==> pos <= end <= chars.len(),
    decreases chars.len() - pos, 3nat,
{
    let items: Vec<GroupItem> = Vec::new();
    assert(item_models(items@) =~= Seq::empty());
    match read_body_items(chars, pos, items) {
        Ok(found) => Ok(found),
        Err(failure) => Err(failure.within(pos, Label::GroupBody)),
    }
}

/// Reads one item at the top of a file.
pub fn read_top_item(chars: &Vec<char>, pos: usize) -> (r: Result<(GroupItem, usize), Failure>)
    requires
        pos <= chars.len(),
    ensures
        parsed_is(r, top_item(chars@, pos as int)),
        r matches Ok((_, end)) ==> pos < end <= chars.len(),
{
    proof {
        reveal(top_item);
    }
    let p = skip_spaces(chars, pos);
    match read_comment(chars, p) {
        Ok((text, end)) => {
            return Ok((GroupItem::Comment(text), skip_spaces(chars, end)));
        },
        Err(_) => {},
    }
    match read_group(chars, p) {
        Ok(found) => Ok(found),
        Err(failure) => {
            let failure = failure.within(p, Label::ParseLib);
            if failure.fatal {
                Err(failure)
            } else {
                Err(failure.no_alternative(pos))
            }
        },
    }
}

/// Reads the blocks at the top of a file that follow those in `seen`.
fn read_top_items(chars: &Vec<char>, start: usize, seen: Vec<GroupItem>) -> (r: Result<
    (Vec<GroupItem>, usize),
    Failure,
>)
    requires
        start <= chars.len(),
    ensures
        items_are(r, top_items(chars@, start as int, item_models(seen@))),
        r matches Ok((_, end)) ==> start <= end <= chars.len(),
{
    let ghost first = item_models(seen@);
    let mut items = seen;
    let mut i = start;
    loop
        invariant
            start <= i <= chars.len(),
            first == item_models(seen@),
            top_items(chars@, start as int, first) == top_items(
                chars@,
                i as int,
                item_models(items@),
            ),
        decreases chars.len() - i,
    {
        match read_top_item(chars, i) {
            Err(failure) => {
                if failure.fatal {
                    return Err(failure);
                } else {
                    return Ok((items, i));
                }
            },
            Ok((item, i2)) => {
                match item {
                    GroupItem::Group(_, _, _) => {
                        proof {
                            assert(item_models(items@.push(item)) =~= item_models(items@).push(
                                item@,
                            ));
                        }
                        items.push(item);
                    },
                    _ => {},
                }
                i = i2;
            },
        }
    }
}

/// Reads a whole file.
pub fn read_libraries(chars: &Vec<char>) -> (r: Result<Vec<GroupItem>, Failure>)
    ensures
        match libraries(chars@) {
            Ok(items) => r matches Ok(v) && item_models(v@) == items,
            Err(fault) => r matches Err(failure) && failure@ == fault,
        },
{
    let items: Vec<GroupItem> = Vec::new();
    assert(item_models(items@) =~= Seq::empty());
    match read_top_items(chars, 0, items) {
        Err(failure) => Err(failure.within(0, Label::ParseLibs)),
        Ok((items, p)) => {
            let end = skip_spaces(chars, p);
            if end == chars.len() {
                Ok(items)
            } else {
                Err(Failure::at(end, FrameKind::Nom(ErrorKind::Eof)).within(0, Label::ParseLibs))
            }
        },
    }
}

} // verus!
