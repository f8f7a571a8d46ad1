//! The parser: each rule of the grammar as a function on a string. A rule
//! that matches yields what it read and the rest of the input.

use crate::ast::{
    item_models, number_models, value_models, GroupItem, ItemModel, Number, NumberModel, Value,
    ValueModel,
};
use crate::error::Failure;
use crate::grammar::{self, Parsed};
use crate::reader::{
    read_boolean, read_comment, read_complex_attribute, read_complex_values, read_expression,
    read_group, read_group_body, read_identifier, read_libraries, read_quoted_floats,
    read_quoted_string, read_simple_attribute, read_value,
};
use crate::text::to_chars;
use vstd::prelude::*;

verus! {

/// What is left of `input` after its first `end` characters.
pub fn rest_of<'a>(input: &'a str, end: usize) -> (rest: &'a str)
    requires
        end <= input@.len(),
    ensures
        rest@ == input@.subrange(end as int, input@.len() as int),
{
    input.substring_char(end, input.unicode_len())
}

/// Whether `r` is the outcome `spec` of the grammar on `input`: what was
/// read, with what follows it in the input.
pub open spec fn reads<T: View>(
    r: Result<(&str, T), Failure>,
    input: Seq<char>,
    spec: Parsed<T::V>,
) -> bool {
    match spec {
        Ok((value, end)) => r matches Ok((rest, v)) && v@ == value && rest@ == input.subrange(
            end,
            input.len() as int,
        ),
        Err(fault) => r matches Err(failure) && failure@ == fault,
    }
}

/// `reads`, for a rule that yields numbers.
pub open spec fn reads_numbers(
    r: Result<(&str, Vec<Number>), Failure>,
    input: Seq<char>,
    spec: Parsed<Seq<NumberModel>>,
) -> bool {
    match spec {
        Ok((value, end)) => r matches Ok((rest, v)) && number_models(v@) == value && rest@
            == input.subrange(end, input.len() as int),
        Err(fault) => r matches Err(failure) && failure@ == fault,
    }
}

/// `reads`, for a rule that yields values.
pub open spec fn reads_values(
    r: Result<(&str, Vec<Value>), Failure>,
    input: Seq<char>,
    spec: Parsed<Seq<ValueModel>>,
) -> bool {
    match spec {
        Ok((value, end)) => r matches Ok((rest, v)) && value_models(v@) == value && rest@
            == input.subrange(end, input.len() as int),
        Err(fault) => r matches Err(failure) && failure@ == fault,
    }
}

/// `reads`, for a rule that yields items.
pub open spec fn reads_items(
    r: Result<(&str, Vec<GroupItem>), Failure>,
    input: Seq<char>,
    spec: Parsed<Seq<ItemModel>>,
) -> bool {
    match spec {
        Ok((value, end)) => r matches Ok((rest, v)) && item_models(v@) == value && rest@
            == input.subrange(end, input.len() as int),
        Err(fault) => r matches Err(failure) && failure@ == fault,
    }
}

/// An identifier at the start of `input`.
pub fn underscore_tag<'a>(input: &'a str) -> (r: Result<(&'a str, &'a str), Failure>)
    ensures
        reads(r, input@, grammar::identifier(input@, 0)),
{
    let chars = to_chars(input);
    match read_identifier(&chars, 0) {
        Ok((_, end)) => Ok((rest_of(input, end), input.substring_char(0, end))),
        Err(failure) => Err(failure),
    }
}

/// A quoted list of numbers at the start of `input`.
pub fn quoted_floats<'a>(input: &'a str) -> (r: Result<(&'a str, Vec<Number>), Failure>)
    ensures
        reads_numbers(r, input@, grammar::quoted_floats(input@, 0)),
{
    let chars = to_chars(input);
    match read_quoted_floats(&chars, 0) {
        Ok((numbers, end)) => Ok((rest_of(input, end), numbers)),
        Err(failure) => Err(failure),
    }
}

/// An expression at the start of `input`, as it is written.
pub fn expression<'a>(input: &'a str) -> (r: Result<(&'a str, &'a str), Failure>)
    ensures
        reads(r, input@, grammar::expression(input@, 0)),
{
    let chars = to_chars(input);
    match read_expression(&chars, 0) {
        Ok(end) => Ok((rest_of(input, end), input.substring_char(0, end))),
        Err(failure) => Err(failure),
    }
}

/// A quoted string at the start of `input`, without its quotation marks.
pub fn quoted_string<'a>(input: &'a str) -> (r: Result<(&'a str, &'a str), Failure>)
    ensures
        reads(r, input@, grammar::quoted_string(input@, 0)),
{
    let chars = to_chars(input);
    match read_quoted_string(&chars, 0) {
        Ok((_, end)) => {
            proof {
                grammar::lemma_run_grows(chars@, 1, grammar::CharClass::Unquoted);
            }
            Ok((rest_of(input, end), input.substring_char(1, end - 1)))
        },
        Err(failure) => Err(failure),
    }
}

/// `true` or `false` at the start of `input`.
pub fn boolean<'a>(input: &'a str) -> (r: Result<(&'a str, bool), Failure>)
    ensures
        reads(r, input@, grammar::boolean(input@, 0)),
{
    let chars = to_chars(input);
    match read_boolean(&chars, 0) {
        Ok((b, end)) => Ok((rest_of(input, end), b)),
        Err(failure) => Err(failure),
    }
}

/// A value at the start of `input`, after blank space.
pub fn simple_attr_value<'a>(input: &'a str) -> (r: Result<(&'a str, Value), Failure>)
    ensures
        reads(r, input@, grammar::simple_attr_value(input@, 0)),
{
    let chars = to_chars(input);
    match read_value(&chars, 0) {
        Ok((value, end)) => Ok((rest_of(input, end), value)),
        Err(failure) => Err(failure),
    }
}

/// `name : value ;` at the start of `input`.
pub fn simple_attribute<'a>(input: &'a str) -> (r: Result<(&'a str, GroupItem), Failure>)
    ensures
        reads(r, input@, grammar::simple_attribute(input@, 0)),
{
    let chars = to_chars(input);
    match read_simple_attribute(&chars, 0) {
        Ok((item, end)) => Ok((rest_of(input, end), item)),
        Err(failure) => Err(failure),
    }
}

/// `( value, value, ... )` at the start of `input`.
pub fn complex_attribute_values<'a>(input: &'a str) -> (r: Result<
    (&'a str, Vec<Value>),
    Failure,
>)
    ensures
        reads_values(r, input@, grammar::complex_attribute_values(input@, 0)),
{
    let chars = to_chars(input);
    match read_complex_values(&chars, 0) {
        Ok((values, end)) => Ok((rest_of(input, end), values)),
        Err(failure) => Err(failure),
    }
}

/// `name ( value, value, ... ) ;` at the start of `input`.
pub fn complex_attribute<'a>(input: &'a str) -> (r: Result<(&'a str, GroupItem), Failure>)
    ensures
        reads(r, input@, grammar::complex_attribute(input@, 0)),
{
    let chars = to_chars(input);
    match read_complex_attribute(&chars, 0) {
        Ok((item, end)) => Ok((rest_of(input, end), item)),
        Err(failure) => Err(failure),
    }
}

/// A comment at the start of `input`, with its delimiters.
pub fn comment<'a>(input: &'a str) -> (r: Result<(&'a str, &'a str), Failure>)
    ensures
        reads(r, input@, grammar::comment(input@, 0)),
{
    let chars = to_chars(input);
    match read_comment(&chars, 0) {
        Ok((_, end)) => Ok((rest_of(input, end), input.substring_char(0, end))),
        Err(failure) => Err(failure),
    }
}

/// The items of a block's body at the start of `input`, up to the first
/// place where no item stands.
pub fn parse_group_body<'a>(input: &'a str) -> (r: Result<(&'a str, Vec<GroupItem>), Failure>)
    ensures
        reads_items(r, input@, grammar::group_body(input@, 0)),
{
    let chars = to_chars(input);
    match read_group_body(&chars, 0) {
        Ok((items, end)) => Ok((rest_of(input, end), items)),
        Err(failure) => Err(failure),
    }
}

/// A block at the start of `input`.
pub fn parse_group<'a>(input: &'a str) -> (r: Result<(&'a str, GroupItem), Failure>)
    ensures
        reads(r, input@, grammar::group(input@, 0)),
        r matches Ok((_, item)) ==> item is Group,
{
    let chars = to_chars(input);
    match read_group(&chars, 0) {
        Ok((item, end)) => Ok((rest_of(input, end), item)),
        Err(failure) => Err(failure),
    }
}

/// The `library` blocks of a whole file. Comments between them are dropped;
/// anything else but blank space makes the parse fail. Nothing is left of
/// the input where it succeeds.
pub fn parse_libs<'a>(input: &'a str) -> (r: Result<(&'a str, Vec<GroupItem>), Failure>)
    ensures
        match grammar::libraries(input@) {
            Ok(items) => r matches Ok((rest, v)) && item_models(v@) == items && rest@.len() == 0,
            Err(fault) => r matches Err(failure) && failure@ == fault,
        },
{
    let chars = to_chars(input);
    match read_libraries(&chars) {
        Ok(items) => Ok((rest_of(input, chars.len()), items)),
        Err(failure) => Err(failure),
    }
}

} // verus!
