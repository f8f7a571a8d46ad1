//! The Liberty grammar, stated over a sequence of characters and positions
//! in it.
//!
//! Every rule takes the input and the position it starts at. It yields what
//! it read together with the position after it, or the reason why it did not
//! match. A rule that does not match leaves a recoverable failure, and the
//! rule that called it may try something else at the same place; once a rule
//! has read the token that tells it from the others, what goes wrong after
//! that is fatal and ends the parse.

use crate::ast::{ItemModel, NumberModel, ValueModel};
use crate::error::{committed, error_at, no_alternative, within, ErrorKind, Fault, FrameKind, Label};
use crate::text::joined;
use vstd::prelude::*;

verus! {

/// What a rule without a value yields: the position after what it read.
pub type Step = Result<int, Fault>;

/// What a rule with a value yields: the value and the position after it.
pub type Parsed<T> = Result<(T, int), Fault>;

/// The sets of characters that the grammar reads runs of.
#[derive(Clone, Copy, Debug, PartialEq, Eq, Structural)]
pub enum CharClass {
    /// Blank, tab, carriage return and line feed.
    Space,
    /// The letters `a` to `z` and `A` to `Z`.
    Letter,
    /// What may follow the first letter of an identifier: anything
    /// alphanumeric, in ASCII or beyond, and the underscore.
    Word,
    /// The minus sign.
    Minus,
    /// The four arithmetic operators.
    Operator,
    /// Anything but a quotation mark.
    Unquoted,
    /// What a number can be written with: letters, digits, signs and the
    /// decimal point.
    Numeric,
}

/// What `char::is_alphanumeric` says of `c`. The grammar asks it of
/// characters beyond ASCII only.
pub uninterp spec fn alphanumeric(c: char) -> bool;

/// `char::is_alphanumeric`: what it says depends on the character alone.
pub assume_specification[ char::is_alphanumeric ](c: char) -> (yes: bool)
    ensures
        yes == alphanumeric(c),
;

/// One of the letters `a` to `z` and `A` to `Z`.
pub open spec fn is_letter(c: char) -> bool {
    ('a' <= c && c <= 'z') || ('A' <= c && c <= 'Z')
}

/// One of the digits `0` to `9`.
pub open spec fn is_digit(c: char) -> bool {
    '0' <= c && c <= '9'
}

/// Whether `c` belongs to `class`.
pub open spec fn in_class(class: CharClass, c: char) -> bool {
    match class {
        CharClass::Space => c == ' ' || c == '\t' || c == '\r' || c == '\n',
        CharClass::Letter => is_letter(c),
        CharClass::Word => is_letter(c) || is_digit(c) || c == '_' || (c > '\u{7f}'
            && alphanumeric(c)),
        CharClass::Minus => c == '-',
        CharClass::Operator => c == '+' || c == '-' || c == '*' || c == '/',
        CharClass::Unquoted => c != '"',
        CharClass::Numeric => is_letter(c) || is_digit(c) || c == '+' || c == '-' || c == '.',
    }
}

/// The characters that may follow a bare number: `,` `;` blank, tab and `)`.
pub open spec fn is_terminator(c: char) -> bool {
    c == ',' || c == ';' || c == ' ' || c == '\t' || c == ')'
}

/// The end of the longest run of characters of `class` that starts at `pos`.
pub open spec fn run_end(s: Seq<char>, pos: int, class: CharClass) -> int
    decreases s.len() - pos,
{
    if 0 <= pos < s.len() && in_class(class, s[pos]) {
        run_end(s, pos + 1, class)
    } else {
        pos
    }
}

/// Where the blank space that starts at `pos` ends.
pub open spec fn spaces_end(s: Seq<char>, pos: int) -> int {
    run_end(s, pos, CharClass::Space)
}

/// A run lies inside the input, holds characters of its class only, and
/// ends before a character that is not of the class or at the end of the
/// input.
pub proof fn lemma_run_end(s: Seq<char>, pos: int, class: CharClass)
    requires
        0 <= pos <= s.len(),
    ensures
        pos <= run_end(s, pos, class) <= s.len(),
        forall|i: int| pos <= i < run_end(s, pos, class) ==> in_class(class, #[trigger] s[i]),
        run_end(s, pos, class) < s.len() ==> !in_class(class, s[run_end(s, pos, class)]),
    decreases s.len() - pos,
{
    if pos < s.len() && in_class(class, s[pos]) {
        lemma_run_end(s, pos + 1, class);
    }
}

/// The outcome `r` of the rule `label` that started at `pos`.
pub open spec fn context<T>(r: Parsed<T>, pos: int, label: Label) -> Parsed<T> {
    match r {
        Ok(v) => Ok(v),
        Err(fault) => Err(within(fault, pos, label)),
    }
}

/// A run ends where it starts, or further on and inside the input.
pub proof fn lemma_run_grows(s: Seq<char>, pos: int, class: CharClass)
    ensures
        run_end(s, pos, class) == pos || pos < run_end(s, pos, class) <= s.len(),
    decreases s.len() - pos,
{
    if 0 <= pos < s.len() && in_class(class, s[pos]) {
        lemma_run_grows(s, pos + 1, class);
    }
}

/// The character `c` at `pos`.
pub open spec fn expect_char(s: Seq<char>, pos: int, c: char) -> Step {
    if 0 <= pos < s.len() && s[pos] == c {
        Ok(pos + 1)
    } else {
        Err(error_at(pos, FrameKind::Char(c)))
    }
}

/// The one-character piece of punctuation `c` at `pos`.
pub open spec fn expect_tag(s: Seq<char>, pos: int, c: char) -> Step {
    if 0 <= pos < s.len() && s[pos] == c {
        Ok(pos + 1)
    } else {
        Err(error_at(pos, FrameKind::Nom(ErrorKind::Tag)))
    }
}

/// An identifier: letters, then anything alphanumeric or underscores.
pub open spec fn identifier(s: Seq<char>, pos: int) -> Parsed<Seq<char>> {
    let mid = run_end(s, pos, CharClass::Letter);
    if mid == pos {
        Err(within(error_at(pos, FrameKind::Nom(ErrorKind::Alpha)), pos, Label::UnderscoreTag))
    } else {
        let end = run_end(s, mid, CharClass::Word);
        Ok((s.subrange(pos, end), end))
    }
}

/// An identifier ends after the place where it starts.
pub proof fn lemma_identifier_grows(s: Seq<char>, pos: int)
    ensures
        identifier(s, pos) matches Ok((_, end)) ==> pos < end,
{
    lemma_run_grows(s, pos, CharClass::Letter);
    lemma_run_grows(s, run_end(s, pos, CharClass::Letter), CharClass::Word);
}

/// What `nom::number::complete::double` makes of `word`: nothing, or how
/// many bytes it left unread, the bit pattern of the number it read, and that
/// number written with six digits after the decimal point.
pub uninterp spec fn scanned(word: Seq<char>) -> Option<(nat, u64, Seq<char>)>;

/// A number at `pos`. The number reader is shown the longest run of
/// characters that a number can be written with, and reads a prefix of it.
/// All of these characters are ASCII, so what the reader leaves unread is as
/// many characters as bytes. Where no such character stands at `pos`, there
/// is no number.
pub open spec fn number(s: Seq<char>, pos: int) -> Option<(NumberModel, int)> {
    let end = run_end(s, pos, CharClass::Numeric);
    if end == pos {
        None
    } else {
        match scanned(s.subrange(pos, end)) {
            Some((rest, bits, fixed)) => if rest <= end - pos {
                Some((NumberModel { bits, fixed }, end - rest))
            } else {
                None
            },
            None => None,
        }
    }
}

/// The numbers of a quoted list that follow the ones in `acc`, each after a
/// comma; `i` is the position after the last number read.
pub open spec fn float_rest(s: Seq<char>, i: int, acc: Seq<NumberModel>) -> Parsed<
    Seq<NumberModel>,
>
    decreases s.len() - i,
{
    match expect_char(s, spaces_end(s, i), ',') {
        Err(_) => Ok((acc, i)),
        Ok(i1) => match number(s, spaces_end(s, i1)) {
            None => Ok((acc, i)),
            Some((n, i2)) => if i < i2 <= s.len() {
                float_rest(s, i2, acc.push(n))
            } else {
                Err(error_at(i2, FrameKind::Nom(ErrorKind::SeparatedList)))
            },
        },
    }
}

/// Numbers separated by commas, with blank space before each number and each
/// comma. No number at all is a list too.
pub open spec fn float_list(s: Seq<char>, pos: int) -> Parsed<Seq<NumberModel>> {
    match number(s, spaces_end(s, pos)) {
        None => Ok((Seq::empty(), pos)),
        Some((n, i)) => if pos < i <= s.len() {
            float_rest(s, i, seq![n])
        } else {
            Err(error_at(i, FrameKind::Nom(ErrorKind::SeparatedList)))
        },
    }
}

/// A list of numbers between quotation marks.
pub open spec fn quoted_floats(s: Seq<char>, pos: int) -> Parsed<Seq<NumberModel>> {
    context(
        match expect_char(s, pos, '"') {
            Err(fault) => Err(fault),
            Ok(p) => match float_list(s, p) {
                Err(fault) => Err(fault),
                Ok((numbers, q)) => match expect_char(s, q, '"') {
                    Err(fault) => Err(fault),
                    Ok(end) => Ok((numbers, end)),
                },
            },
        },
        pos,
        Label::QuotedFloats,
    )
}

/// Text between quotation marks: at least one character, up to the next
/// quotation mark. After the opening mark nothing else is tried.
pub open spec fn quoted_string(s: Seq<char>, pos: int) -> Parsed<Seq<char>> {
    context(
        match expect_char(s, pos, '"') {
            Err(fault) => Err(fault),
            Ok(p) => {
                let end = run_end(s, p, CharClass::Unquoted);
                if end == p {
                    Err(committed(error_at(p, FrameKind::Nom(ErrorKind::IsNot))))
                } else {
                    match expect_char(s, end, '"') {
                        Err(fault) => Err(committed(fault)),
                        Ok(q) => Ok((s.subrange(p, end), q)),
                    }
                }
            },
        },
        pos,
        Label::QuotedString,
    )
}

/// The letters at `pos`, where they spell `true` or `false`.
pub open spec fn boolean(s: Seq<char>, pos: int) -> Parsed<bool> {
    let end = run_end(s, pos, CharClass::Letter);
    if end == pos {
        Err(error_at(pos, FrameKind::Nom(ErrorKind::Alpha)))
    } else if s.subrange(pos, end) == "true"@ {
        Ok((true, end))
    } else if s.subrange(pos, end) == "false"@ {
        Ok((false, end))
    } else {
        Err(error_at(pos, FrameKind::Nom(ErrorKind::MapRes)))
    }
}

/// One operand of an expression, after blank space and any minus signs: an
/// expression in parentheses, an identifier or a number. After an opening
/// parenthesis nothing else is tried.
pub open spec fn operand(s: Seq<char>, pos: int) -> Step
    decreases s.len() - pos, 0nat,
{
    let p = run_end(s, spaces_end(s, pos), CharClass::Minus);
    if 0 <= p < s.len() && s[p] == '(' {
        proof {
            lemma_run_grows(s, pos, CharClass::Space);
            lemma_run_grows(s, spaces_end(s, pos), CharClass::Minus);
        }
        match expression(s, p + 1) {
            Err(fault) => Err(committed(fault)),
            Ok((_, q)) => match expect_char(s, q, ')') {
                Err(fault) => Err(committed(fault)),
                Ok(end) => Ok(end),
            },
        }
    } else {
        match identifier(s, p) {
            Ok((_, end)) => Ok(end),
            Err(_) => match number(s, p) {
                Some((_, end)) => Ok(end),
                None => Err(no_alternative(error_at(p, FrameKind::Nom(ErrorKind::Float)), p)),
            },
        }
    }
}

/// The operands of an expression that follow the first ones, each after a
/// run of operators; `i` is the position after the last operand read.
pub open spec fn expression_rest(s: Seq<char>, i: int) -> Step
    decreases s.len() - i, 1nat,
{
    let c = spaces_end(s, i);
    let i1 = run_end(s, c, CharClass::Operator);
    if c < i1 {
        proof {
            lemma_run_grows(s, i, CharClass::Space);
            lemma_run_grows(s, c, CharClass::Operator);
        }
        match operand(s, i1) {
            Err(fault) => if fault.fatal {
                Err(fault)
            } else {
                Ok(i)
            },
            Ok(i2) => if i < i2 <= s.len() {
                expression_rest(s, i2)
            } else {
                Err(error_at(i2, FrameKind::Nom(ErrorKind::SeparatedList)))
            },
        }
    } else {
        Ok(i)
    }
}

/// An arithmetic expression, as it is written: operands separated by
/// operators, read from left to right. Where no operand stands at `pos`,
/// the expression is empty.
pub open spec fn expression(s: Seq<char>, pos: int) -> Parsed<Seq<char>>
    decreases s.len() - pos, 2nat,
{
    context(
        match operand(s, pos) {
            Err(fault) => if fault.fatal {
                Err(fault)
            } else {
                Ok((Seq::empty(), pos))
            },
            Ok(i) => if pos < i <= s.len() {
                match expression_rest(s, i) {
                    Err(fault) => Err(fault),
                    Ok(end) => Ok((s.subrange(pos, end), end)),
                }
            } else {
                Err(error_at(i, FrameKind::Nom(ErrorKind::SeparatedList)))
            },
        },
        pos,
        Label::Expression,
    )
}

/// A bare number, which must be followed by one of `,` `;` blank, tab or
/// `)`. This is what tells `-345;` from the start of an expression.
pub open spec fn terminated_number(s: Seq<char>, pos: int) -> Parsed<NumberModel> {
    match number(s, pos) {
        None => Err(error_at(pos, FrameKind::Nom(ErrorKind::Float))),
        Some((n, end)) => if 0 <= end < s.len() && is_terminator(s[end]) {
            Ok((n, end))
        } else {
            Err(error_at(end, FrameKind::Nom(ErrorKind::OneOf)))
        },
    }
}

/// The value at `pos`: the first of a quoted list of numbers, a quoted
/// string, a bare number, a truth value and an expression that matches.
#[verifier::opaque]
pub open spec fn value_choice(s: Seq<char>, pos: int) -> Parsed<ValueModel> {
    match quoted_floats(s, pos) {
        Ok((numbers, end)) => Ok((ValueModel::FloatGroup(numbers), end)),
        Err(f1) => if f1.fatal {
            Err(f1)
        } else {
            match quoted_string(s, pos) {
                Ok((text, end)) => Ok((ValueModel::String(text), end)),
                Err(f2) => if f2.fatal {
                    Err(f2)
                } else {
                    match terminated_number(s, pos) {
                        Ok((n, end)) => Ok((ValueModel::Float(n), end)),
                        Err(_) => match boolean(s, pos) {
                            Ok((b, end)) => Ok((ValueModel::Bool(b), end)),
                            Err(_) => match expression(s, pos) {
                                Ok((text, end)) => Ok((ValueModel::Expression(text), end)),
                                Err(f5) => if f5.fatal {
                                    Err(f5)
                                } else {
                                    Err(no_alternative(f5, pos))
                                },
                            },
                        },
                    }
                },
            }
        },
    }
}

/// A value, after blank space.
pub open spec fn simple_attr_value(s: Seq<char>, pos: int) -> Parsed<ValueModel> {
    context(value_choice(s, spaces_end(s, pos)), pos, Label::SimpleAttrValue)
}

/// `name : value ;` with blank space allowed before each part. Once the
/// colon is read the rule is committed: a failure to read the value or the
/// semicolon is fatal.
pub open spec fn simple_attribute(s: Seq<char>, pos: int) -> Parsed<ItemModel> {
    context(
        match identifier(s, spaces_end(s, pos)) {
            Err(fault) => Err(fault),
            Ok((name, at1)) => match expect_char(s, spaces_end(s, at1), ':') {
                Err(fault) => Err(fault),
                Ok(at2) => match simple_attr_value(s, spaces_end(s, at2)) {
                    Err(fault) => Err(committed(fault)),
                    Ok((value, at3)) => match expect_char(s, spaces_end(s, at3), ';') {
                        Err(fault) => Err(committed(fault)),
                        Ok(end) => Ok((ItemModel::SimpleAttr(name, value), end)),
                    },
                },
            },
        },
        pos,
        Label::SimpleAttr,
    )
}

/// A line break: a line feed, or a carriage return and a line feed.
pub open spec fn line_break(s: Seq<char>, pos: int) -> Step {
    if 0 <= pos < s.len() && s[pos] == '\n' {
        Ok(pos + 1)
    } else if 0 <= pos && pos + 1 < s.len() && s[pos] == '\r' && s[pos + 1] == '\n' {
        Ok(pos + 2)
    } else {
        Err(error_at(pos, FrameKind::Nom(ErrorKind::CrLf)))
    }
}

/// A line continuation: blank space, a backslash and a line break.
pub open spec fn continuation(s: Seq<char>, pos: int) -> Step {
    match expect_tag(s, spaces_end(s, pos), '\\') {
        Err(fault) => Err(fault),
        Ok(p) => line_break(s, p),
    }
}

/// The position after a line continuation at `pos`, or `pos` where there is
/// none.
pub open spec fn skip_continuation(s: Seq<char>, pos: int) -> int {
    match continuation(s, pos) {
        Ok(end) => end,
        Err(_) => pos,
    }
}

/// What separates two values of a complex attribute: a comma, which may be
/// followed or preceded by a line continuation.
pub open spec fn separator(s: Seq<char>, pos: int) -> Step {
    match expect_tag(s, spaces_end(s, pos), ',') {
        Ok(p) => match continuation(s, p) {
            Ok(end) => Ok(end),
            Err(_) => Ok(p),
        },
        Err(_) => match continuation(s, pos) {
            Err(fault) => Err(no_alternative(fault, pos)),
            Ok(p) => match expect_tag(s, spaces_end(s, p), ',') {
                Err(fault) => Err(no_alternative(fault, pos)),
                Ok(end) => Ok(end),
            },
        },
    }
}

/// The values of a complex attribute that follow the ones in `acc`, each
/// after a separator; `i` is the position after the last value read.
pub open spec fn value_rest(s: Seq<char>, i: int, acc: Seq<ValueModel>) -> Parsed<Seq<ValueModel>>
    decreases s.len() - i,
{
    match separator(s, i) {
        Err(_) => Ok((acc, i)),
        Ok(i1) => match simple_attr_value(s, spaces_end(s, i1)) {
            Err(fault) => if fault.fatal {
                Err(fault)
            } else {
                Ok((acc, i))
            },
            Ok((value, i2)) => if i < i2 <= s.len() {
                value_rest(s, i2, acc.push(value))
            } else {
                Err(error_at(i2, FrameKind::Nom(ErrorKind::SeparatedList)))
            },
        },
    }
}

/// Values with separators between them. A first value that takes up no
/// input at all is refused.
pub open spec fn value_list(s: Seq<char>, pos: int) -> Parsed<Seq<ValueModel>> {
    match simple_attr_value(s, spaces_end(s, pos)) {
        Err(fault) => if fault.fatal {
            Err(fault)
        } else {
            Ok((Seq::empty(), pos))
        },
        Ok((value, i)) => if pos < i <= s.len() {
            value_rest(s, i, seq![value])
        } else {
            Err(error_at(i, FrameKind::Nom(ErrorKind::SeparatedList)))
        },
    }
}

/// `( value, value, ... )`, where a line continuation may stand after the
/// opening parenthesis, before the closing one and around each comma.
pub open spec fn complex_attribute_values(s: Seq<char>, pos: int) -> Parsed<Seq<ValueModel>> {
    context(
        match expect_tag(s, spaces_end(s, pos), '(') {
            Err(fault) => Err(fault),
            Ok(at1) => match value_list(s, skip_continuation(s, at1)) {
                Err(fault) => Err(fault),
                Ok((values, at2)) => match expect_tag(
                    s,
                    spaces_end(s, skip_continuation(s, at2)),
                    ')',
                ) {
                    Err(fault) => Err(fault),
                    Ok(end) => Ok((values, end)),
                },
            },
        },
        pos,
        Label::ComplexValues,
    )
}

/// `name ( value, value, ... ) ;`
pub open spec fn complex_attribute(s: Seq<char>, pos: int) -> Parsed<ItemModel> {
    context(
        match identifier(s, spaces_end(s, pos)) {
            Err(fault) => Err(fault),
            Ok((name, at1)) => match complex_attribute_values(s, spaces_end(s, at1)) {
                Err(fault) => Err(fault),
                Ok((values, at2)) => match expect_char(s, spaces_end(s, at2), ';') {
                    Err(fault) => Err(fault),
                    Ok(end) => Ok((ItemModel::ComplexAttr(name, values), end)),
                },
            },
        },
        pos,
        Label::ComplexAttr,
    )
}

/// The first position from `i` on at which `*/` stands.
pub open spec fn comment_close(s: Seq<char>, i: int) -> Option<int>
    decreases s.len() - i,
{
    if i < 0 || i + 1 >= s.len() {
        None
    } else if s[i] == '*' && s[i + 1] == '/' {
        Some(i)
    } else {
        comment_close(s, i + 1)
    }
}

/// A comment, from `/*` to the first `*/` after it, both included.
pub open spec fn comment(s: Seq<char>, pos: int) -> Parsed<Seq<char>> {
    context(
        if 0 <= pos && pos + 1 < s.len() && s[pos] == '/' && s[pos + 1] == '*' {
            match comment_close(s, pos + 2) {
                None => Err(error_at(pos + 2, FrameKind::Nom(ErrorKind::TakeUntil))),
                Some(close) => Ok((s.subrange(pos, close + 2), close + 2)),
            }
        } else {
            Err(error_at(pos, FrameKind::Nom(ErrorKind::Tag)))
        },
        pos,
        Label::Comment,
    )
}

/// One parameter of a block, after blank space: a quoted string, which
/// keeps its quotation marks, or an identifier.
pub open spec fn block_parameter(s: Seq<char>, pos: int) -> Parsed<Seq<char>> {
    let p = spaces_end(s, pos);
    match quoted_string(s, p) {
        Ok((text, end)) => Ok((seq!['"'] + text + seq!['"'], end)),
        Err(f1) => if f1.fatal {
            Err(f1)
        } else {
            match identifier(s, p) {
                Ok((name, end)) => Ok((name, end)),
                Err(f2) => Err(no_alternative(f2, p)),
            }
        },
    }
}

/// The parameters of a block that follow the ones in `acc`, each after a
/// comma; `i` is the position after the last parameter read.
pub open spec fn parameter_rest(s: Seq<char>, i: int, acc: Seq<Seq<char>>) -> Parsed<
    Seq<Seq<char>>,
>
    decreases s.len() - i,
{
    match expect_char(s, spaces_end(s, i), ',') {
        Err(_) => Ok((acc, i)),
        Ok(i1) => match block_parameter(s, i1) {
            Err(fault) => if fault.fatal {
                Err(fault)
            } else {
                Ok((acc, i))
            },
            Ok((name, i2)) => if i < i2 <= s.len() {
                parameter_rest(s, i2, acc.push(name))
            } else {
                Err(error_at(i2, FrameKind::Nom(ErrorKind::SeparatedList)))
            },
        },
    }
}

/// The parameters of a block, separated by commas. There may be none.
pub open spec fn parameter_list(s: Seq<char>, pos: int) -> Parsed<Seq<Seq<char>>> {
    match block_parameter(s, pos) {
        Err(fault) => if fault.fatal {
            Err(fault)
        } else {
            Ok((Seq::empty(), pos))
        },
        Ok((name, i)) => if pos < i <= s.len() {
            parameter_rest(s, i, seq![name])
        } else {
            Err(error_at(i, FrameKind::Nom(ErrorKind::SeparatedList)))
        },
    }
}

/// The parameters of a block end at or after the place where they start.
pub proof fn lemma_parameter_rest_grows(s: Seq<char>, i: int, acc: Seq<Seq<char>>)
    ensures
        parameter_rest(s, i, acc) matches Ok((_, end)) ==> i <= end,
    decreases s.len() - i,
{
    if let Ok(i1) = expect_char(s, spaces_end(s, i), ',') {
        if let Ok((name, i2)) = block_parameter(s, i1) {
            if i < i2 <= s.len() {
                lemma_parameter_rest_grows(s, i2, acc.push(name));
            }
        }
    }
}

/// The parameters of a block end at or after the place where they start.
pub proof fn lemma_parameter_list_grows(s: Seq<char>, pos: int)
    ensures
        parameter_list(s, pos) matches Ok((_, end)) ==> pos <= end,
{
    if let Ok((name, i)) = block_parameter(s, pos) {
        if pos < i <= s.len() {
            lemma_parameter_rest_grows(s, i, seq![name]);
        }
    }
}

/// What joins the parameters of a block into its name.
pub open spec fn name_separator() -> Seq<char> {
    seq![',', ' ']
}

/// A block: `kind ( parameters ) { body }`. Its name is its parameters
/// joined by a comma and a blank. Once the opening brace is read the rule is
/// committed: a failure in the body, or a missing closing brace, is fatal.
pub open spec fn group(s: Seq<char>, pos: int) -> Parsed<ItemModel>
    decreases s.len() - pos, 0nat,
{
    context(
        match identifier(s, spaces_end(s, pos)) {
            Err(fault) => Err(fault),
            Ok((kind, at1)) => match expect_char(s, spaces_end(s, at1), '(') {
                Err(fault) => Err(fault),
                Ok(at2) => match parameter_list(s, at2) {
                    Err(fault) => Err(fault),
                    Ok((parameters, at3)) => match expect_char(s, spaces_end(s, at3), ')') {
                        Err(fault) => Err(fault),
                        Ok(at4) => match expect_char(s, spaces_end(s, at4), '{') {
                            Err(fault) => Err(fault),
                            Ok(at5) => {
                                proof {
                                    lemma_run_grows(s, pos, CharClass::Space);
                                    lemma_identifier_grows(s, spaces_end(s, pos));
                                    lemma_run_grows(s, at1, CharClass::Space);
                                    lemma_parameter_list_grows(s, at2);
                                    lemma_run_grows(s, at3, CharClass::Space);
                                    lemma_run_grows(s, at4, CharClass::Space);
                                }
                                match group_body(s, at5) {
                                    Err(fault) => Err(committed(fault)),
                                    Ok((items, at6)) => match expect_char(
                                        s,
                                        spaces_end(s, at6),
                                        '}',
                                    ) {
                                        Err(fault) => Err(committed(fault)),
                                        Ok(end) => Ok(
                                            (
                                                ItemModel::Group(
                                                    kind,
                                                    joined(parameters, name_separator()),
                                                    items,
                                                ),
                                                end,
                                            ),
                                        ),
                                    },
                                }
                            },
                        },
                    },
                },
            },
        },
        pos,
        Label::ParsingGroup,
    )
}

/// One item of a block's body, after blank space: the first of a comment, a
/// block, a simple attribute and a complex attribute that matches.
pub open spec fn body_item(s: Seq<char>, pos: int) -> Parsed<ItemModel>
    decreases s.len() - pos, 1nat,
{
    let p = spaces_end(s, pos);
    context(
        match comment(s, p) {
            Ok((text, end)) => Ok((ItemModel::Comment(text), end)),
            Err(_) => {
                proof {
                    lemma_run_grows(s, pos, CharClass::Space);
                }
                match group(s, p) {
                    Ok(found) => Ok(found),
                    Err(f2) => if f2.fatal {
                        Err(f2)
                    } else {
                        match simple_attribute(s, p) {
                            Ok(found) => Ok(found),
                            Err(f3) => if f3.fatal {
                                Err(f3)
                            } else {
                                match complex_attribute(s, p) {
                                    Ok(found) => Ok(found),
                                    Err(f4) => if f4.fatal {
                                        Err(f4)
                                    } else {
                                        Err(no_alternative(f4, pos))
                                    },
                                }
                            },
                        }
                    },
                }
            },
        },
        pos,
        Label::FoldingItems,
    )
}

/// The items of a body that follow the ones in `acc`; `i` is the position
/// after the last item read. The body ends where no item matches.
pub open spec fn body_items(s: Seq<char>, i: int, acc: Seq<ItemModel>) -> Parsed<Seq<ItemModel>>
    decreases s.len() - i, 2nat,
{
    match body_item(s, i) {
        Err(fault) => if fault.fatal {
            Err(fault)
        } else {
            Ok((acc, i))
        },
        Ok((item, i2)) => if i < i2 <= s.len() {
            body_items(s, i2, acc.push(item))
        } else {
            Err(error_at(i, FrameKind::Nom(ErrorKind::Many0)))
        },
    }
}

/// What stands between the braces of a block: comments, blocks and
/// attributes, in any order.
pub open spec fn group_body(s: Seq<char>, pos: int) -> Parsed<Seq<ItemModel>>
    decreases s.len() - pos, 3nat,
{
    context(body_items(s, pos, Seq::empty()), pos, Label::GroupBody)
}

/// One item at the top of a file: a comment with the blank space around
/// it, or a block.
#[verifier::opaque]
pub open spec fn top_item(s: Seq<char>, pos: int) -> Parsed<ItemModel> {
    let p = spaces_end(s, pos);
    match comment(s, p) {
        Ok((text, end)) => Ok((ItemModel::Comment(text), spaces_end(s, end))),
        Err(_) => match context(group(s, p), p, Label::ParseLib) {
            Ok(found) => Ok(found),
            Err(fault) => if fault.fatal {
                Err(fault)
            } else {
                Err(no_alternative(fault, pos))
            },
        },
    }
}

/// The blocks at the top of a file that follow the ones in `acc`; comments
/// between them are read and dropped.
pub open spec fn top_items(s: Seq<char>, i: int, acc: Seq<ItemModel>) -> Parsed<Seq<ItemModel>>
    decreases s.len() - i,
{
    match top_item(s, i) {
        Err(fault) => if fault.fatal {
            Err(fault)
        } else {
            Ok((acc, i))
        },
        Ok((item, i2)) => if i < i2 <= s.len() {
            top_items(
                s,
                i2,
                if item is Group {
                    acc.push(item)
                } else {
                    acc
                },
            )
        } else {
            Err(error_at(i, FrameKind::Nom(ErrorKind::Many0)))
        },
    }
}

/// A whole file: blocks and comments, then blank space up to the end of the
/// input. Anything else is refused.
pub open spec fn libraries(s: Seq<char>) -> Result<Seq<ItemModel>, Fault> {
    match top_items(s, 0, Seq::empty()) {
        Err(fault) => Err(within(fault, 0, Label::ParseLibs)),
        Ok((items, p)) => if spaces_end(s, p) == s.len() {
            Ok(items)
        } else {
            Err(
                within(
                    error_at(spaces_end(s, p), FrameKind::Nom(ErrorKind::Eof)),
                    0,
                    Label::ParseLibs,
                ),
            )
        },
    }
}

/// Every item of `items` is a block.
pub open spec fn all_blocks(items: Seq<ItemModel>) -> bool {
    forall|i: int| 0 <= i < items.len() ==> #[trigger] items[i] is Group
}

/// What is read at the top of a file holds blocks only, where it started
/// from blocks only.
pub proof fn lemma_top_items_are_blocks(s: Seq<char>, i: int, acc: Seq<ItemModel>)
    requires
        all_blocks(acc),
    ensures
        top_items(s, i, acc) matches Ok((items, _)) ==> all_blocks(items),
    decreases s.len() - i,
{
    if let Ok((item, i2)) = top_item(s, i) {
        if i < i2 <= s.len() {
            if item is Group {
                lemma_top_items_are_blocks(s, i2, acc.push(item));
            } else {
                lemma_top_items_are_blocks(s, i2, acc);
            }
        }
    }
}

/// Nothing but blocks comes out of a file.
pub proof fn lemma_libraries_are_blocks(s: Seq<char>)
    ensures
        libraries(s) matches Ok(items) ==> all_blocks(items),
{
    lemma_top_items_are_blocks(s, 0, Seq::empty());
}

} // verus!
