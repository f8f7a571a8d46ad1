//! Writing a document and reading it again: what is read is written as the
//! document was.

use crate::ast::{ItemModel, NumberModel, ValueModel};
use crate::error::Fault;
use crate::grammar::{
    block_parameter, body_item, body_items, boolean, comment, complex_attribute, expect_char,
    expression, expression_rest, group, group_body, identifier, in_class, is_letter, libraries,
    name_separator, operand, parameter_list, parameter_rest, quoted_floats, quoted_string, run_end,
    scanned, simple_attr_value, simple_attribute, spaces_end, terminated_number, top_item,
    top_items, value_choice, CharClass,
};
use crate::serialize::{
    indentation, item_text, item_texts, items_text, lemma_item_texts, value_text,
};
use crate::text::joined;
use vstd::prelude::*;

verus! {

/// `text` stands in `s` at `pos`.
#[verifier::opaque]
pub open spec fn stands_at(s: Seq<char>, pos: int, text: Seq<char>) -> bool {
    &&& 0 <= pos
    &&& pos + text.len() <= s.len()
    &&& forall|i: int| 0 <= i < text.len() ==> s[pos + i] == #[trigger] text[i]
}

/// Nothing but blank space stands in `s` from `from` up to `to`.
#[verifier::opaque]
pub open spec fn blank_between(s: Seq<char>, from: int, to: int) -> bool {
    forall|i: int| from <= i < to ==> in_class(CharClass::Space, #[trigger] s[i])
}

/// Between a place and itself stands nothing.
proof fn lemma_blank_nothing(s: Seq<char>, pos: int)
    ensures
        blank_between(s, pos, pos),
{
    reveal(blank_between);
}

/// A text stands where its two parts stand one after the other.
pub proof fn lemma_stands_split(s: Seq<char>, pos: int, a: Seq<char>, b: Seq<char>)
    ensures
        stands_at(s, pos, a + b) <==> stands_at(s, pos, a) && stands_at(s, pos + a.len(), b),
{
    reveal(stands_at);
    if stands_at(s, pos, a + b) {
        assert forall|i: int| 0 <= i < a.len() implies s[pos + i] == #[trigger] a[i] by {
            assert((a + b)[i] == a[i]);
        }
        assert forall|i: int| 0 <= i < b.len() implies s[pos + a.len() + i] == #[trigger] b[i] by {
            assert((a + b)[a.len() + i] == b[i]);
        }
    }
    if stands_at(s, pos, a) && stands_at(s, pos + a.len(), b) {
        assert forall|i: int| 0 <= i < (a + b).len() implies s[pos + i] == #[trigger] (a
            + b)[i] by {
            if i < a.len() {
                assert(a[i] == (a + b)[i]);
            } else {
                assert(b[i - a.len()] == (a + b)[i]);
                assert(s[pos + a.len() + (i - a.len())] == b[i - a.len()]);
            }
        }
    }
}

/// A run ends at `end` where everything from `pos` to `end` belongs to the
/// class and what stands at `end` does not.
pub proof fn lemma_run_ends_at(s: Seq<char>, pos: int, end: int, class: CharClass)
    requires
        0 <= pos <= end <= s.len(),
        forall|i: int| pos <= i < end ==> in_class(class, #[trigger] s[i]),
        end < s.len() ==> !in_class(class, s[end]),
    ensures
        run_end(s, pos, class) == end,
    decreases end - pos,
{
    if pos < end {
        lemma_run_ends_at(s, pos + 1, end, class);
    }
}

/// Every character of `text` belongs to `class`.
pub open spec fn all_in(text: Seq<char>, class: CharClass) -> bool {
    forall|i: int| 0 <= i < text.len() ==> in_class(class, #[trigger] text[i])
}

/// What an identifier is made of: a letter, then letters, digits,
/// underscores and whatever else is alphanumeric.
pub open spec fn is_identifier(text: Seq<char>) -> bool {
    &&& text.len() > 0
    &&& is_letter(text[0])
    &&& all_in(text, CharClass::Word)
}

/// The end of the letters at the start of `text`.
pub open spec fn letters(text: Seq<char>) -> int {
    run_end(text, 0, CharClass::Letter)
}

/// The letters at the start of the text that stands at `pos` are the
/// letters at `pos`, where something that is no letter follows the text.
proof fn lemma_letters(s: Seq<char>, pos: int, text: Seq<char>, k: int)
    requires
        stands_at(s, pos, text),
        0 <= k <= text.len(),
        pos + text.len() < s.len() ==> !is_letter(s[pos + text.len()]),
    ensures
        run_end(s, pos + k, CharClass::Letter) == pos + run_end(text, k, CharClass::Letter),
    decreases text.len() - k,
{
    reveal(stands_at);
    if k < text.len() {
        assert(s[pos + k] == text[k]);
        if is_letter(text[k]) {
            lemma_letters(s, pos, text, k + 1);
        }
    }
}

/// An identifier that stands at `pos`, followed by something that cannot
/// be part of it, is read whole.
pub proof fn lemma_identifier_reads(s: Seq<char>, pos: int, name: Seq<char>)
    requires
        is_identifier(name),
        stands_at(s, pos, name),
        pos + name.len() < s.len() ==> !in_class(CharClass::Word, s[pos + name.len()]),
    ensures
        identifier(s, pos) == Ok::<(Seq<char>, int), Fault>(
            (name, pos + name.len()),
        ),
{
    reveal(stands_at);
    lemma_letters(s, pos, name, 0);
    let mid = run_end(s, pos, CharClass::Letter);
    crate::grammar::lemma_run_end(name, 0, CharClass::Letter);
    assert(run_end(name, 0, CharClass::Letter) >= 1) by {
        assert(in_class(CharClass::Letter, name[0]));
    }
    assert forall|i: int| mid <= i < pos + name.len() implies in_class(
        CharClass::Word,
        #[trigger] s[i],
    ) by {
        assert(s[pos + (i - pos)] == name[i - pos]);
    }
    lemma_run_ends_at(s, mid, pos + name.len(), CharClass::Word);
    assert(s.subrange(pos, pos + name.len()) =~= name);
}

/// What the pieces of text that the writer puts between names and values
/// are made of.
proof fn lemma_pieces()
    ensures
        "  "@ == seq![' ', ' '],
        " : "@ == seq![' ', ':', ' '],
        ";"@ == seq![';'],
        " ( "@ == seq![' ', '(', ' '],
        " ) {\n"@ == seq![' ', ')', ' ', '{', '\n'],
        "\n"@ == seq!['\n'],
        "}"@ == seq!['}'],
        " "@ == seq![' '],
{
    reveal_strlit("  ");
    reveal_strlit(" : ");
    reveal_strlit(";");
    reveal_strlit(" ( ");
    reveal_strlit(" ) {\n");
    reveal_strlit("\n");
    reveal_strlit("}");
    reveal_strlit(" ");
    assert("  "@ =~= seq![' ', ' ']);
    assert(" : "@ =~= seq![' ', ':', ' ']);
    assert(";"@ =~= seq![';']);
    assert(" ( "@ =~= seq![' ', '(', ' ']);
    assert(" ) {\n"@ =~= seq![' ', ')', ' ', '{', '\n']);
    assert("\n"@ =~= seq!['\n']);
    assert("}"@ =~= seq!['}']);
    assert(" "@ =~= seq![' ']);
}

/// Indentation is made of blanks, two for every level.
pub proof fn lemma_indentation(depth: nat)
    ensures
        indentation(depth).len() == 2 * depth,
        all_in(indentation(depth), CharClass::Space),
    decreases depth,
{
    lemma_pieces();
    if depth > 0 {
        lemma_indentation((depth - 1) as nat);
    }
}

/// What the writer puts after the colon of an attribute that holds `value`:
/// a blank, the value, and a semicolon.
pub open spec fn written_value(value: ValueModel) -> Seq<char> {
    " "@ + value_text(value) + ";"@
}

/// Reading what `value` is written as, with the semicolon after it, yields
/// `read`; and `read` is written as `value` is.
pub open spec fn reads_as(value: ValueModel, read: ValueModel) -> bool {
    &&& value_text(read) == value_text(value)
    &&& simple_attr_value(written_value(value), spaces_end(written_value(value), 0)) == Ok::<
        (ValueModel, int),
        Fault,
    >((read, 1 + value_text(value).len() as int))
}

/// A text stands in itself at its start.
proof fn lemma_stands_in_itself(text: Seq<char>)
    ensures
        stands_at(text, 0, text),
{
    reveal(stands_at);
}

/// A string that is not empty and holds no quotation mark is read back as
/// itself, unless what is written for it is read as a list of numbers.
pub proof fn lemma_text_reads_back(text: Seq<char>)
    requires
        text.len() > 0,
        all_in(text, CharClass::Unquoted),
        quoted_floats(written_value(ValueModel::String(text)), 1) is Err,
    ensures
        reads_as(ValueModel::String(text), ValueModel::String(text)),
{
    let s = written_value(ValueModel::String(text));
    reveal(value_choice);
    reveal_strlit(" ");
    reveal_strlit("\"");
    reveal_strlit(";");
    assert(s =~= seq![' ', '"'] + text + seq!['"', ';']);
    let end = 2 + text.len() as int;
    assert forall|i: int| 2 <= i < end implies in_class(CharClass::Unquoted, #[trigger] s[i]) by {
        assert(s[i] == text[i - 2]);
    }
    lemma_run_ends_at(s, 0, 1, CharClass::Space);
    lemma_run_ends_at(s, 1, 1, CharClass::Space);
    lemma_run_ends_at(s, 2, end, CharClass::Unquoted);
    assert(crate::locality::window(s, 0, s));
    crate::locality::lemma_quoted_floats_shift(s, 0, s, 1);
    assert(s.subrange(2, end) =~= text);
    assert(quoted_string(s, 1) == Ok::<(Seq<char>, int), Fault>((text, end + 1)));
}

/// A string is read back as itself where it is not empty, holds no
/// quotation mark, and starts with something that is neither blank nor the
/// start of a number.
pub proof fn lemma_string_reads_back(text: Seq<char>)
    requires
        text.len() > 0,
        all_in(text, CharClass::Unquoted),
        !in_class(CharClass::Space, text[0]),
        !in_class(CharClass::Numeric, text[0]),
    ensures
        reads_as(ValueModel::String(text), ValueModel::String(text)),
{
    let value = ValueModel::String(text);
    let written = value_text(value);
    let s = " "@ + written + ";"@;
    let pos = 0int;
    lemma_stands_in_itself(s);
    lemma_string_reads(s, pos, text);
}

/// A string as in `lemma_string_reads_back`, where it stands at `pos` after
/// a blank and before a semicolon, is read as itself.
proof fn lemma_string_reads(s: Seq<char>, pos: int, text: Seq<char>)
    requires
        text.len() > 0,
        all_in(text, CharClass::Unquoted),
        !in_class(CharClass::Space, text[0]),
        !in_class(CharClass::Numeric, text[0]),
        stands_at(s, pos, " "@ + value_text(ValueModel::String(text)) + ";"@),
    ensures
        simple_attr_value(s, spaces_end(s, pos)) == Ok::<(ValueModel, int), Fault>(
            (ValueModel::String(text), pos + 1 + value_text(ValueModel::String(text)).len()),
        ),
{
    reveal(stands_at);
    reveal(value_choice);
    reveal_strlit(" ");
    reveal_strlit("\"");
    reveal_strlit(";");
    let whole = " "@ + value_text(ValueModel::String(text)) + ";"@;
    assert(whole =~= seq![' ', '"'] + text + seq!['"', ';']);
    let q = pos + 1;
    let p = q + 1;
    let end = p + text.len();
    assert(s[pos + 0] == whole[0]);
    assert(s[pos + 1] == whole[1]);
    assert forall|i: int| 0 <= i < text.len() implies s[p + i] == #[trigger] text[i] by {
        assert(s[pos + (2 + i)] == whole[2 + i]);
    }
    assert(s[pos + (2 + text.len())] == whole[2 + text.len() as int]);
    assert(s[end] == '"');
    assert(s[p] == text[0]);
    assert(spaces_end(s, pos) == q) by {
        lemma_run_ends_at(s, pos, q, CharClass::Space);
    }
    assert(spaces_end(s, q) == q) by {
        lemma_run_ends_at(s, q, q, CharClass::Space);
    }
    assert(spaces_end(s, p) == p) by {
        lemma_run_ends_at(s, p, p, CharClass::Space);
    }
    lemma_run_ends_at(s, p, p, CharClass::Numeric);
    assert(quoted_floats(s, q) matches Err(fault) && !fault.fatal);
    assert(run_end(s, p, CharClass::Unquoted) == end) by {
        assert forall|i: int| p <= i < end implies in_class(
            CharClass::Unquoted,
            #[trigger] s[i],
        ) by {
            assert(s[p + (i - p)] == text[i - p]);
        }
        lemma_run_ends_at(s, p, end, CharClass::Unquoted);
    }
    assert(s.subrange(p, end) =~= text);
    assert(quoted_string(s, q) == Ok::<(Seq<char>, int), Fault>((text, end + 1)));
}

/// The number reader reads `word` whole, as a number with these bits that
/// is written as `fixed`.
pub open spec fn scans_whole(word: Seq<char>, bits: u64, fixed: Seq<char>) -> bool {
    scanned(word) == Some((0nat, bits, fixed))
}

/// The number reader reads `word` whole as some number.
pub open spec fn scans_as_number(word: Seq<char>) -> bool {
    exists|bits: u64, fixed: Seq<char>| scans_whole(word, bits, fixed)
}

/// A number is read back as a number that is written alike, where the
/// number reader reads its written form whole and what it reads is written
/// the same.
pub proof fn lemma_number_reads_back(number: NumberModel, bits: u64)
    requires
        number.fixed.len() > 0,
        all_in(number.fixed, CharClass::Numeric),
        scans_whole(number.fixed, bits, number.fixed),
    ensures
        reads_as(
            ValueModel::Float(number),
            ValueModel::Float(NumberModel { bits, fixed: number.fixed }),
        ),
{
    let s = written_value(ValueModel::Float(number));
    lemma_stands_in_itself(s);
    lemma_number_reads(s, 0, number, bits);
}

/// A number as in `lemma_number_reads_back`, where it stands at `pos` after
/// a blank and before a semicolon, is read as a number written alike.
proof fn lemma_number_reads(s: Seq<char>, pos: int, number: NumberModel, bits: u64)
    requires
        number.fixed.len() > 0,
        all_in(number.fixed, CharClass::Numeric),
        scans_whole(number.fixed, bits, number.fixed),
        stands_at(s, pos, " "@ + number.fixed + ";"@),
    ensures
        simple_attr_value(s, spaces_end(s, pos)) == Ok::<(ValueModel, int), Fault>(
            (
                ValueModel::Float(NumberModel { bits, fixed: number.fixed }),
                pos + 1 + number.fixed.len(),
            ),
        ),
{
    let written = number.fixed;
    lemma_word_stands(s, pos, written);
    let q = pos + 1;
    let end = q + written.len();
    reveal(value_choice);
    assert(s[q] == written[0]);
    lemma_run_ends_at(s, q, q, CharClass::Space);
    assert forall|i: int| q <= i < end implies in_class(
        CharClass::Numeric,
        #[trigger] s[i],
    ) by {
        assert(s[q + (i - q)] == written[i - q]);
    }
    lemma_run_ends_at(s, q, end, CharClass::Numeric);
    assert(quoted_floats(s, q) matches Err(fault) && !fault.fatal);
    assert(quoted_string(s, q) matches Err(fault) && !fault.fatal);
    assert(terminated_number(s, q) == Ok::<(NumberModel, int), Fault>(
        (NumberModel { bits, fixed: number.fixed }, end),
    ));
}

/// A word that stands after a blank and before a semicolon: where it
/// starts, what stands there, and what follows it.
proof fn lemma_word_stands(s: Seq<char>, pos: int, word: Seq<char>)
    requires
        stands_at(s, pos, " "@ + word + ";"@),
        word.len() > 0,
        !in_class(CharClass::Space, word[0]),
    ensures
        spaces_end(s, pos) == pos + 1,
        0 <= pos,
        pos + 1 + word.len() < s.len(),
        s.subrange(pos + 1, pos + 1 + word.len()) == word,
        forall|i: int| 0 <= i < word.len() ==> s[pos + 1 + i] == #[trigger] word[i],
        s[pos + 1 + word.len()] == ';',
{
    reveal(stands_at);
    reveal_strlit(" ");
    reveal_strlit(";");
    let whole = " "@ + word + ";"@;
    assert(whole =~= seq![' '] + word + seq![';']);
    assert(s[pos + 0] == whole[0]);
    assert forall|i: int| 0 <= i < word.len() implies s[pos + 1 + i] == #[trigger] word[i] by {
        assert(s[pos + (1 + i)] == whole[1 + i]);
    }
    assert(s[pos + (1 + word.len())] == whole[1 + word.len() as int]);
    assert(s[pos + 1] == word[0]);
    lemma_run_ends_at(s, pos, pos + 1, CharClass::Space);
    assert(s.subrange(pos + 1, pos + 1 + word.len()) =~= word);
}

/// A truth value is read back as itself, unless the number reader reads its
/// keyword whole as a number.
pub proof fn lemma_bool_reads_back(b: bool)
    requires
        !scans_as_number(value_text(ValueModel::Bool(b))),
    ensures
        reads_as(ValueModel::Bool(b), ValueModel::Bool(b)),
{
    let s = written_value(ValueModel::Bool(b));
    lemma_stands_in_itself(s);
    lemma_bool_reads(s, 0, b);
}

/// A truth value as in `lemma_bool_reads_back`, where it stands at `pos`
/// after a blank and before a semicolon, is read as itself.
proof fn lemma_bool_reads(s: Seq<char>, pos: int, b: bool)
    requires
        !scans_as_number(value_text(ValueModel::Bool(b))),
        stands_at(s, pos, " "@ + value_text(ValueModel::Bool(b)) + ";"@),
    ensures
        simple_attr_value(s, spaces_end(s, pos)) == Ok::<(ValueModel, int), Fault>(
            (ValueModel::Bool(b), pos + 1 + value_text(ValueModel::Bool(b)).len()),
        ),
{
    let value = ValueModel::Bool(b);
    let written = value_text(value);
    reveal_strlit("true");
    reveal_strlit("false");
    assert(written =~= if b {
        seq!['t', 'r', 'u', 'e']
    } else {
        seq!['f', 'a', 'l', 's', 'e']
    });
    lemma_word_stands(s, pos, written);
    let q = pos + 1;
    let end = q + written.len();
    reveal(value_choice);
    assert(s[q] == written[0]);
    lemma_run_ends_at(s, q, q, CharClass::Space);
    assert forall|i: int| q <= i < end implies is_letter(#[trigger] s[i]) by {
        assert(s[q + (i - q)] == written[i - q]);
    }
    lemma_run_ends_at(s, q, end, CharClass::Numeric);
    lemma_run_ends_at(s, q, end, CharClass::Letter);
    assert(quoted_floats(s, q) matches Err(fault) && !fault.fatal);
    assert(quoted_string(s, q) matches Err(fault) && !fault.fatal);
    assert(terminated_number(s, q) is Err) by {
        if let Some((rest, bits, fixed)) = scanned(written) {
            if rest == 0 {
                assert(scans_whole(written, bits, fixed));
            } else if rest <= written.len() {
                assert(s[q + (written.len() - rest)] == written[written.len() - rest]);
            }
        }
    }
    assert(boolean(s, q) == Ok::<(bool, int), Fault>((b, end)));
}

/// A keyword, that is an expression made of one identifier, is read back
/// as itself, unless its letters spell a truth value or the number reader
/// reads it whole as a number.
pub proof fn lemma_keyword_reads_back(word: Seq<char>)
    requires
        is_identifier(word),
        word.subrange(0, letters(word)) != "true"@,
        word.subrange(0, letters(word)) != "false"@,
        !scans_as_number(word),
    ensures
        reads_as(ValueModel::Expression(word), ValueModel::Expression(word)),
{
    let value = ValueModel::Expression(word);
    let s = " "@ + word + ";"@;
    let pos = 0int;
    lemma_stands_in_itself(s);
    lemma_keyword_reads(s, pos, word);
}

/// A keyword as in `lemma_keyword_reads_back`, where it stands at `pos`
/// after a blank and before a semicolon, is read as itself.
proof fn lemma_keyword_reads(s: Seq<char>, pos: int, word: Seq<char>)
    requires
        is_identifier(word),
        word.subrange(0, letters(word)) != "true"@,
        word.subrange(0, letters(word)) != "false"@,
        !scans_as_number(word),
        stands_at(s, pos, " "@ + word + ";"@),
    ensures
        simple_attr_value(s, spaces_end(s, pos)) == Ok::<(ValueModel, int), Fault>(
            (ValueModel::Expression(word), pos + 1 + word.len()),
        ),
{
    lemma_classes();
    lemma_word_stands(s, pos, word);
    let q = pos + 1;
    let end = q + word.len();
    reveal(value_choice);
    assert(s[q + 0] == word[0]);
    lemma_run_ends_at(s, q, q, CharClass::Space);
    lemma_run_ends_at(s, q, q, CharClass::Minus);
    lemma_run_ends_at(s, end, end, CharClass::Space);
    lemma_run_ends_at(s, end, end, CharClass::Operator);
    assert(stands_at(s, q, word)) by {
        reveal(stands_at);
    }
    lemma_identifier_reads(s, q, word);
    assert(quoted_floats(s, q) matches Err(fault) && !fault.fatal);
    assert(quoted_string(s, q) matches Err(fault) && !fault.fatal);
    assert(terminated_number(s, q) is Err) by {
        let stop = run_end(s, q, CharClass::Numeric);
        crate::grammar::lemma_run_end(s, q, CharClass::Numeric);
        assert(stop <= end);
        if stop > q {
            if let Some((rest, bits, fixed)) = scanned(s.subrange(q, stop)) {
                if rest <= stop - q {
                    let at = stop - rest;
                    if at < end {
                        assert(s[q + (at - q)] == word[at - q]);
                    } else {
                        assert(s.subrange(q, stop) =~= word);
                        assert(scans_whole(word, bits, fixed));
                    }
                }
            }
        }
    }
    assert(boolean(s, q) is Err) by {
        reveal(stands_at);
        lemma_letters(s, q, word, 0);
        let stop = run_end(s, q, CharClass::Letter);
        crate::grammar::lemma_run_end(word, 0, CharClass::Letter);
        assert(s.subrange(q, stop) =~= word.subrange(0, letters(word)));
    }
    assert(operand(s, q) == Ok::<int, Fault>(end));
    assert(expression_rest(s, end) == Ok::<int, Fault>(end));
    assert(expression(s, q) == Ok::<(Seq<char>, int), Fault>((word, end)));
}

/// One parameter of a block as it is written: an identifier, or a string
/// between quotation marks that is not empty and holds no quotation mark.
pub open spec fn is_parameter(text: Seq<char>) -> bool {
    ||| is_identifier(text)
    ||| {
        &&& text.len() >= 3
        &&& text[0] == '"'
        &&& text[text.len() - 1] == '"'
        &&& all_in(text.subrange(1, text.len() - 1), CharClass::Unquoted)
    }
}

/// Every one of `parts` is a parameter.
pub open spec fn are_parameters(parts: Seq<Seq<char>>) -> bool {
    forall|i: int| 0 <= i < parts.len() ==> is_parameter(#[trigger] parts[i])
}

/// `name` is `parts` joined by a comma and a blank, and they are parameters.
pub open spec fn names(parts: Seq<Seq<char>>, name: Seq<char>) -> bool {
    are_parameters(parts) && name == joined(parts, name_separator())
}

/// The name of a block as the reader makes it: parameters joined by a comma
/// and a blank. There may be none.
pub open spec fn is_block_name(name: Seq<char>) -> bool {
    exists|parts: Seq<Seq<char>>| names(parts, name)
}

/// `read` is what reading the written form of `item` yields: the same
/// blocks and simple attributes under the same names, which are identifiers,
/// with every value read as the value in its place is written. An item that
/// holds a complex attribute or a comment is read as nothing.
pub open spec fn rereads(item: ItemModel, read: ItemModel) -> bool
    decreases item,
{
    match item {
        ItemModel::SimpleAttr(name, value) => {
            &&& read matches ItemModel::SimpleAttr(n, w)
            &&& n == name
            &&& is_identifier(name)
            &&& reads_as(value, w)
        },
        ItemModel::Group(kind, name, items) => {
            &&& read matches ItemModel::Group(k, n, reads)
            &&& k == kind
            &&& n == name
            &&& is_identifier(kind)
            &&& is_block_name(name)
            &&& reads.len() == items.len()
            &&& forall|i: int| 0 <= i < items.len() ==> rereads(#[trigger] items[i], reads[i])
        },
        _ => false,
    }
}

/// `rereads`, item by item.
pub open spec fn all_reread(items: Seq<ItemModel>, reads: Seq<ItemModel>) -> bool {
    &&& reads.len() == items.len()
    &&& forall|i: int| 0 <= i < items.len() ==> rereads(#[trigger] items[i], reads[i])
}

/// A simple attribute without the indentation before it.
pub open spec fn attribute_text(name: Seq<char>, value: ValueModel) -> Seq<char> {
    name + (seq![' ', ':'] + (" "@ + value_text(value) + ";"@))
}

/// A simple attribute is written as its indentation and the rest.
proof fn lemma_attribute_text(name: Seq<char>, value: ValueModel, depth: nat)
    ensures
        item_text(ItemModel::SimpleAttr(name, value), depth) == indentation(depth) + attribute_text(
            name,
            value,
        ),
{
    lemma_pieces();
    assert(item_text(ItemModel::SimpleAttr(name, value), depth) =~= indentation(depth)
        + attribute_text(name, value));
}

/// A blank, a quotation mark and the punctuation of the grammar are no
/// part of a word, and no letter is blank.
proof fn lemma_classes()
    ensures
        !in_class(CharClass::Word, ' '),
        !in_class(CharClass::Space, ':'),
        !in_class(CharClass::Space, ';'),
        !in_class(CharClass::Space, '('),
        !in_class(CharClass::Space, ')'),
        !in_class(CharClass::Space, '{'),
        !in_class(CharClass::Space, '}'),
        in_class(CharClass::Space, ' '),
        in_class(CharClass::Space, '\n'),
        forall|c: char| is_letter(c) ==> !in_class(CharClass::Space, c) && c != '/' && c != '"',
        !is_letter(')'),
        !is_letter('}'),
{
}

/// A simple attribute that stands at `pos` is read as an attribute, and not
/// as a block.
proof fn lemma_attribute_reads(
    s: Seq<char>,
    pos: int,
    name: Seq<char>,
    value: ValueModel,
    read: ValueModel,
)
    requires
        is_identifier(name),
        reads_as(value, read),
        stands_at(s, pos, attribute_text(name, value)),
    ensures
        comment(s, pos) is Err,
        group(s, pos) matches Err(fault) && !fault.fatal,
        simple_attribute(s, pos) == Ok::<(ItemModel, int), Fault>(
            (ItemModel::SimpleAttr(name, read), pos + attribute_text(name, value).len()),
        ),
{
    reveal(stands_at);
    lemma_pieces();
    lemma_classes();
    let rest = seq![' ', ':'] + (" "@ + value_text(value) + ";"@);
    let tail = " "@ + value_text(value) + ";"@;
    lemma_stands_split(s, pos, name, rest);
    let at1 = pos + name.len();
    lemma_stands_split(s, at1, seq![' ', ':'], tail);
    assert(s[pos] == name[0]);
    assert(s[at1 + 0] == seq![' ', ':'][0]);
    assert(s[at1 + 1] == seq![' ', ':'][1]);
    assert(spaces_end(s, pos) == pos) by {
        lemma_run_ends_at(s, pos, pos, CharClass::Space);
    }
    lemma_identifier_reads(s, pos, name);
    assert(spaces_end(s, at1) == at1 + 1) by {
        lemma_run_ends_at(s, at1, at1 + 1, CharClass::Space);
    }
    let at2 = at1 + 2;
    assert(stands_at(s, at2, tail));
    let at3 = at2 + 1 + value_text(value).len();
    assert(tail.len() == value_text(value).len() + 2 && tail[tail.len() - 1] == ';');
    crate::locality::lemma_value_in_context(
        s,
        at2,
        tail,
        read,
        1 + value_text(value).len() as int,
    );
    lemma_stands_split(s, at2, " "@ + value_text(value), ";"@);
    assert(s[at3 + 0] == ";"@[0]);
    assert(spaces_end(s, at3) == at3) by {
        lemma_run_ends_at(s, at3, at3, CharClass::Space);
    }
    assert(attribute_text(name, value).len() == name.len() + 2 + 1 + value_text(value).len() + 1);
}

/// What follows the opening brace of a block from its item `from` on: every
/// item on a line of its own, one level deeper than the block, then the
/// closing brace on a line of its own.
pub open spec fn frame(items: Seq<ItemModel>, from: int, depth: nat) -> Seq<char>
    decreases items.len() - from,
{
    if 0 <= from < items.len() {
        seq!['\n'] + (item_text(items[from], depth + 1) + frame(items, from + 1, depth))
    } else {
        seq!['\n'] + (indentation(depth) + seq!['}'])
    }
}

/// The first `count` of the items, each on a line of its own, and then the
/// rest of the frame, are the frame.
proof fn lemma_frame_join(items: Seq<ItemModel>, depth: nat, count: int)
    requires
        1 <= count <= items.len(),
    ensures
        seq!['\n'] + joined(item_texts(items, depth + 1).take(count), "\n"@) + frame(
            items,
            count,
            depth,
        ) == frame(items, 0, depth),
    decreases count,
{
    lemma_pieces();
    lemma_item_texts(items, depth + 1);
    let texts = item_texts(items, depth + 1);
    if count == 1 {
        assert(joined(texts.take(1), "\n"@) == texts[0]);
        assert(seq!['\n'] + texts[0] + frame(items, 1, depth) =~= frame(items, 0, depth));
    } else {
        lemma_frame_join(items, depth, count - 1);
        assert(texts.take(count).drop_last() =~= texts.take(count - 1));
        assert(texts.take(count).last() == texts[count - 1]);
        let front = joined(texts.take(count - 1), "\n"@);
        assert(joined(texts.take(count), "\n"@) == front + "\n"@ + texts[count - 1]);
        assert(frame(items, count - 1, depth) == seq!['\n'] + (texts[count - 1] + frame(
            items,
            count,
            depth,
        )));
        assert(seq!['\n'] + (front + "\n"@ + texts[count - 1]) + frame(items, count, depth)
            =~= seq!['\n'] + front + (seq!['\n'] + (texts[count - 1] + frame(
            items,
            count,
            depth,
        ))));
    }
}

/// A block without the indentation before it.
pub open spec fn block_text(
    kind: Seq<char>,
    name: Seq<char>,
    items: Seq<ItemModel>,
    depth: nat,
) -> Seq<char> {
    kind + (seq![' ', '(', ' '] + (name + (seq![' ', ')', ' ', '{'] + (if items.len() == 0 {
        seq!['\n'] + frame(items, 0, depth)
    } else {
        frame(items, 0, depth)
    }))))
}

/// A block is written as its indentation and the rest.
proof fn lemma_block_text(kind: Seq<char>, name: Seq<char>, items: Seq<ItemModel>, depth: nat)
    ensures
        item_text(ItemModel::Group(kind, name, items), depth) == indentation(depth) + block_text(
            kind,
            name,
            items,
            depth,
        ),
{
    lemma_pieces();
    let texts = item_texts(items, depth + 1);
    let body = joined(texts, "\n"@);
    let close = seq!['\n'] + (indentation(depth) + seq!['}']);
    let inner = if items.len() == 0 {
        seq!['\n'] + frame(items, 0, depth)
    } else {
        frame(items, 0, depth)
    };
    assert(seq!['\n'] + body + close == inner) by {
        lemma_item_texts(items, depth + 1);
        if items.len() == 0 {
            assert(seq!['\n'] + body + close =~= seq!['\n'] + close);
        } else {
            lemma_frame_join(items, depth, items.len() as int);
            assert(texts.take(items.len() as int) =~= texts);
        }
    }
    assert(item_text(ItemModel::Group(kind, name, items), depth) =~= indentation(depth) + (kind + (
    seq![' ', '(', ' '] + (name + (seq![' ', ')', ' ', '{'] + (seq!['\n'] + body + close))))));
}

/// No item can start at `pos`: the input ends there, or something stands
/// there that is no letter, no blank and no slash.
pub open spec fn no_item_at(s: Seq<char>, pos: int) -> bool {
    0 <= pos <= s.len() && (pos < s.len() ==> !is_letter(s[pos]) && !in_class(
        CharClass::Space,
        s[pos],
    ) && s[pos] != '/')
}

/// Where no item can start, every rule for an item fails, and none fatally.
proof fn lemma_no_item(s: Seq<char>, pos: int)
    requires
        no_item_at(s, pos),
    ensures
        spaces_end(s, pos) == pos,
        comment(s, pos) is Err,
        group(s, pos) matches Err(fault) && !fault.fatal,
        simple_attribute(s, pos) matches Err(fault) && !fault.fatal,
        complex_attribute(s, pos) matches Err(fault) && !fault.fatal,
{
    lemma_run_ends_at(s, pos, pos, CharClass::Space);
    lemma_run_ends_at(s, pos, pos, CharClass::Letter);
}

/// What follows a parameter of a block up to the opening brace: the
/// parameters from `from` on, each after a comma and a blank, and then the
/// closing parenthesis between blanks and the brace.
pub open spec fn name_tail(parts: Seq<Seq<char>>, from: int) -> Seq<char>
    decreases parts.len() - from,
{
    if 0 <= from < parts.len() {
        seq![',', ' '] + (parts[from] + name_tail(parts, from + 1))
    } else {
        seq![' ', ')', ' ', '{']
    }
}

/// The first `count` parameters joined, and then the rest up to the brace,
/// are the first parameter and what follows it.
proof fn lemma_name_join(parts: Seq<Seq<char>>, count: int)
    requires
        1 <= count <= parts.len(),
    ensures
        joined(parts.take(count), name_separator()) + name_tail(parts, count) == parts[0]
            + name_tail(parts, 1),
    decreases count,
{
    if count == 1 {
        assert(joined(parts.take(1), name_separator()) == parts[0]);
    } else {
        lemma_name_join(parts, count - 1);
        assert(parts.take(count).drop_last() =~= parts.take(count - 1));
        assert(parts.take(count).last() == parts[count - 1]);
        let front = joined(parts.take(count - 1), name_separator());
        assert(joined(parts.take(count), name_separator()) == front + name_separator()
            + parts[count - 1]);
        assert(front + name_separator() + parts[count - 1] + name_tail(parts, count) =~= front
            + name_tail(parts, count - 1));
    }
}

/// A parameter that stands after one blank, followed by a comma or a blank,
/// is read whole.
proof fn lemma_parameter_reads(s: Seq<char>, pos: int, part: Seq<char>)
    requires
        is_parameter(part),
        stands_at(s, pos, seq![' '] + part),
        pos + 1 + part.len() < s.len(),
        s[pos + 1 + part.len()] == ',' || s[pos + 1 + part.len()] == ' ',
    ensures
        block_parameter(s, pos) == Ok::<(Seq<char>, int), Fault>((part, pos + 1 + part.len())),
{
    reveal(stands_at);
    lemma_classes();
    let q = pos + 1;
    assert(s[pos + 0] == (seq![' '] + part)[0]);
    assert forall|i: int| 0 <= i < part.len() implies s[q + i] == #[trigger] part[i] by {
        assert(s[pos + (1 + i)] == (seq![' '] + part)[1 + i]);
    }
    assert(s[q + 0] == part[0]);
    assert(spaces_end(s, pos) == q) by {
        lemma_run_ends_at(s, pos, q, CharClass::Space);
    }
    if is_identifier(part) {
        assert(stands_at(s, q, part));
        lemma_identifier_reads(s, q, part);
        assert(quoted_string(s, q) matches Err(fault) && !fault.fatal);
    } else {
        let inner = part.subrange(1, part.len() - 1);
        let end = q + part.len() - 1;
        assert(s[q + (part.len() - 1)] == part[part.len() - 1]);
        assert forall|i: int| q + 1 <= i < end implies in_class(
            CharClass::Unquoted,
            #[trigger] s[i],
        ) by {
            assert(s[q + (i - q)] == part[i - q]);
            assert(inner[i - q - 1] == part[i - q]);
        }
        lemma_run_ends_at(s, q + 1, end, CharClass::Unquoted);
        assert(s.subrange(q + 1, end) =~= inner);
        assert(seq!['"'] + inner + seq!['"'] =~= part);
    }
}

/// The parameters of a block from parameter `from` on, where they stand
/// after the parameter before them as the writer puts them, are read up to
/// the opening brace.
proof fn lemma_parameters_read(s: Seq<char>, pos: int, parts: Seq<Seq<char>>, from: int)
    requires
        are_parameters(parts),
        1 <= from <= parts.len(),
        stands_at(s, pos, name_tail(parts, from)),
    ensures
        parameter_rest(s, pos, parts.take(from)) matches Ok((found, end)) && found == parts
            && expect_char(s, spaces_end(s, end), ')') == Ok::<int, Fault>(
            pos + name_tail(parts, from).len() - 2,
        ),
        expect_char(s, spaces_end(s, pos + name_tail(parts, from).len() - 2), '{') == Ok::<
            int,
            Fault,
        >(pos + name_tail(parts, from).len()),
    decreases parts.len() - from,
{
    lemma_classes();
    if from == parts.len() {
        reveal(stands_at);
        let after = seq![' ', ')', ' ', '{'];
        assert(s[pos + 0] == after[0]);
        assert(s[pos + 1] == after[1]);
        assert(s[pos + 2] == after[2]);
        assert(s[pos + 3] == after[3]);
        lemma_run_ends_at(s, pos, pos + 1, CharClass::Space);
        lemma_run_ends_at(s, pos + 2, pos + 3, CharClass::Space);
        assert(parts.take(from) =~= parts);
    } else {
        let part = parts[from];
        let rest = name_tail(parts, from + 1);
        lemma_stands_split(s, pos, seq![',', ' '], part + rest);
        lemma_stands_split(s, pos + 2, part, rest);
        let next = pos + 2 + part.len();
        assert(0 <= pos < s.len() && s[pos] == ',' && stands_at(s, pos + 1, seq![' '] + part)
            && next < s.len() && (s[next] == ',' || s[next] == ' ')) by {
            reveal(stands_at);
            assert(s[pos + 0] == seq![',', ' '][0]);
            assert(s[pos + 1] == seq![',', ' '][1]);
            assert(rest[0] == ',' || rest[0] == ' ');
            assert(s[next + 0] == rest[0]);
        }
        lemma_run_ends_at(s, pos, pos, CharClass::Space);
        lemma_parameter_reads(s, pos + 1, part);
        lemma_parameters_read(s, next, parts, from + 1);
        assert(parts.take(from).push(part) =~= parts.take(from + 1));
        assert(name_tail(parts, from).len() == 2 + part.len() + rest.len());
        assert(block_parameter(s, pos + 1) == Ok::<(Seq<char>, int), Fault>((part, next)));
        assert(expect_char(s, spaces_end(s, pos), ',') == Ok::<int, Fault>(pos + 1));
    }
}

/// The name of a block, where it stands between the parentheses as the
/// writer puts it, is read as parameters that make up the same name, and
/// the opening brace after it is reached.
proof fn lemma_name_reads(s: Seq<char>, pos: int, name: Seq<char>)
    requires
        is_block_name(name),
        stands_at(s, pos, seq![' '] + (name + seq![' ', ')', ' ', '{'])),
    ensures
        parameter_list(s, pos) matches Ok((parameters, end)) && joined(
            parameters,
            name_separator(),
        ) == name && expect_char(s, spaces_end(s, end), ')') == Ok::<int, Fault>(
            pos + name.len() + 3,
        ),
        expect_char(s, spaces_end(s, pos + name.len() + 3), '{') == Ok::<int, Fault>(
            pos + name.len() + 5,
        ),
{
    lemma_classes();
    let parts = choose|parts: Seq<Seq<char>>| names(parts, name);
    let after = seq![' ', ')', ' ', '{'];
    if parts.len() == 0 {
        reveal(stands_at);
        assert(name.len() == 0);
        let whole = seq![' '] + (name + after);
        assert(s[pos + 0] == whole[0]);
        assert(s[pos + 1] == whole[1]);
        assert(s[pos + 2] == whole[2]);
        assert(s[pos + 3] == whole[3]);
        assert(s[pos + 4] == whole[4]);
        lemma_run_ends_at(s, pos, pos + 2, CharClass::Space);
        lemma_run_ends_at(s, pos + 2, pos + 2, CharClass::Letter);
        lemma_run_ends_at(s, pos + 3, pos + 4, CharClass::Space);
        assert(block_parameter(s, pos) matches Err(fault) && !fault.fatal);
        assert(joined(Seq::<Seq<char>>::empty(), name_separator()) =~= name);
    } else {
        let first = parts[0];
        let rest = name_tail(parts, 1);
        lemma_name_join(parts, parts.len() as int);
        assert(parts.take(parts.len() as int) =~= parts);
        assert(name + after == first + rest);
        assert(seq![' '] + (first + rest) =~= (seq![' '] + first) + rest);
        lemma_stands_split(s, pos, seq![' '] + first, rest);
        let next = pos + 1 + first.len();
        assert(next < s.len() && (s[next] == ',' || s[next] == ' ')) by {
            reveal(stands_at);
            assert(rest[0] == ',' || rest[0] == ' ');
            assert(s[next + 0] == rest[0]);
        }
        lemma_parameter_reads(s, pos, first);
        lemma_parameters_read(s, next, parts, 1);
        assert(parts.take(1) =~= seq![first]);
        assert(name.len() + 4 == first.len() + rest.len());
    }
}

/// The header of a block up to its opening brace.
pub open spec fn header_text(kind: Seq<char>, name: Seq<char>) -> Seq<char> {
    kind + (seq![' ', '(', ' '] + (name + seq![' ', ')', ' ', '{']))
}

/// What the rule for a block yields once its header is read and its body
/// starts at `body`.
pub open spec fn after_header(
    s: Seq<char>,
    pos: int,
    kind: Seq<char>,
    name: Seq<char>,
    body: int,
) -> crate::grammar::Parsed<ItemModel> {
    crate::grammar::context(
        match group_body(s, body) {
            Err(fault) => Err(crate::error::committed(fault)),
            Ok((items, at6)) => match expect_char(s, spaces_end(s, at6), '}') {
                Err(fault) => Err(crate::error::committed(fault)),
                Ok(end) => Ok((ItemModel::Group(kind, name, items), end)),
            },
        },
        pos,
        crate::error::Label::ParsingGroup,
    )
}

/// The header of a written block is read up to the opening brace.
proof fn lemma_header_reads(s: Seq<char>, pos: int, kind: Seq<char>, name: Seq<char>)
    requires
        is_identifier(kind),
        is_block_name(name),
        stands_at(s, pos, header_text(kind, name)),
    ensures
        comment(s, pos) is Err,
        group(s, pos) == after_header(s, pos, kind, name, pos + header_text(kind, name).len()),
{
    reveal(stands_at);
    lemma_classes();
    let open = seq![' ', ')', ' ', '{'];
    let t2 = name + open;
    let t1 = seq![' ', '(', ' '] + t2;
    lemma_stands_split(s, pos, kind, t1);
    let at1 = pos + kind.len();
    lemma_stands_split(s, at1, seq![' ', '(', ' '], t2);
    assert(s[pos + 0] == kind[0]);
    assert(s[at1 + 0] == seq![' ', '(', ' '][0]);
    assert(s[at1 + 1] == seq![' ', '(', ' '][1]);
    assert(s[at1 + 2] == seq![' ', '(', ' '][2]);
    let at2 = at1 + 2;
    assert(stands_at(s, at2, seq![' '] + (name + open))) by {
        assert(stands_at(s, at2, seq![' ']));
        lemma_stands_split(s, at2, seq![' '], name + open);
    }
    assert(spaces_end(s, pos) == pos) by {
        lemma_run_ends_at(s, pos, pos, CharClass::Space);
    }
    lemma_identifier_reads(s, pos, kind);
    assert(spaces_end(s, at1) == at1 + 1) by {
        lemma_run_ends_at(s, at1, at1 + 1, CharClass::Space);
    }
    lemma_name_reads(s, at2, name);
    assert(header_text(kind, name).len() == kind.len() + 3 + name.len() + 4);
}

/// A written block that stands at `pos` is read as the block that its
/// items are read as.
proof fn lemma_block_reads(s: Seq<char>, pos: int, item: ItemModel, read: ItemModel, depth: nat)
    requires
        item is Group,
        rereads(item, read),
        stands_at(s, pos, block_text(item->Group_0, item->Group_1, item->Group_2, depth)),
    ensures
        comment(s, pos) is Err,
        group(s, pos) == Ok::<(ItemModel, int), Fault>(
            (read, pos + block_text(item->Group_0, item->Group_1, item->Group_2, depth).len()),
        ),
    decreases item, 0nat,
{
    let kind = item->Group_0;
    let name = item->Group_1;
    let items = item->Group_2;
    let reads = read->Group_2;
    let inner = if items.len() == 0 {
        seq!['\n'] + frame(items, 0, depth)
    } else {
        frame(items, 0, depth)
    };
    let header = header_text(kind, name);
    assert(block_text(kind, name, items, depth) =~= header + inner);
    lemma_stands_split(s, pos, header, inner);
    lemma_header_reads(s, pos, kind, name);
    let at5 = pos + header.len();
    let j = if items.len() == 0 {
        at5 + 1
    } else {
        at5
    };
    assert(blank_between(s, at5, j) && stands_at(s, j, frame(items, 0, depth))) by {
        reveal(blank_between);
        reveal(stands_at);
        if items.len() == 0 {
            lemma_stands_split(s, at5, seq!['\n'], frame(items, 0, depth));
            assert(s[at5 + 0] == seq!['\n'][0]);
        }
    }
    lemma_body_reads(s, at5, j, items, reads, 0, Seq::empty(), depth);
    assert(reads.subrange(0, items.len() as int) =~= reads);
    assert(Seq::<ItemModel>::empty() + reads =~= reads);
}

/// Blank space from `pos` on, then a line break and indentation at `start`,
/// and then something that is not blank: the blank space ends there.
proof fn lemma_skip_line(s: Seq<char>, pos: int, start: int, depth: nat)
    requires
        0 <= pos <= start,
        blank_between(s, pos, start),
        stands_at(s, start, seq!['\n'] + indentation(depth)),
        start + 1 + 2 * depth < s.len(),
        !in_class(CharClass::Space, s[start + 1 + 2 * depth]),
    ensures
        spaces_end(s, pos) == start + 1 + 2 * depth,
{
    reveal(stands_at);
    reveal(blank_between);
    lemma_indentation(depth);
    let blanks = indentation(depth);
    lemma_stands_split(s, start, seq!['\n'], blanks);
    assert(s[start + 0] == seq!['\n'][0]);
    let p = start + 1 + 2 * depth;
    assert forall|i: int| pos <= i < p implies in_class(CharClass::Space, #[trigger] s[i]) by {
        if i > start {
            assert(s[start + 1 + (i - start - 1)] == blanks[i - start - 1]);
        }
    }
    lemma_run_ends_at(s, pos, p, CharClass::Space);
}

/// Where the closing brace of a block comes after blank space, the body
/// ends.
proof fn lemma_body_ends(s: Seq<char>, pos: int, start: int, acc: Seq<ItemModel>, depth: nat)
    requires
        0 <= pos <= start,
        blank_between(s, pos, start),
        stands_at(s, start, seq!['\n'] + (indentation(depth) + seq!['}'])),
    ensures
        body_items(s, pos, acc) == Ok::<(Seq<ItemModel>, int), Fault>((acc, pos)),
        expect_char(s, spaces_end(s, pos), '}') == Ok::<int, Fault>(start + 2 * depth + 2),
{
    reveal(stands_at);
    lemma_classes();
    lemma_indentation(depth);
    let blanks = indentation(depth);
    assert(seq!['\n'] + (blanks + seq!['}']) =~= (seq!['\n'] + blanks) + seq!['}']);
    lemma_stands_split(s, start, seq!['\n'] + blanks, seq!['}']);
    let e = start + 1 + 2 * depth;
    assert(s[e + 0] == seq!['}'][0]);
    lemma_skip_line(s, pos, start, depth);
    lemma_no_item(s, e);
    assert(body_item(s, pos) matches Err(fault) && !fault.fatal);
}

/// A written attribute on a line of its own after `pos` is the next item of
/// the body.
proof fn lemma_body_attribute(
    s: Seq<char>,
    pos: int,
    start: int,
    name: Seq<char>,
    value: ValueModel,
    read: ValueModel,
    depth: nat,
)
    requires
        0 <= pos <= start,
        blank_between(s, pos, start),
        is_identifier(name),
        reads_as(value, read),
        stands_at(s, start, seq!['\n'] + item_text(ItemModel::SimpleAttr(name, value), depth)),
    ensures
        body_item(s, pos) == Ok::<(ItemModel, int), Fault>(
            (
                ItemModel::SimpleAttr(name, read),
                start + 1 + item_text(ItemModel::SimpleAttr(name, value), depth).len(),
            ),
        ),
        pos < start + 1 + item_text(ItemModel::SimpleAttr(name, value), depth).len() <= s.len(),
{
    reveal(stands_at);
    lemma_classes();
    lemma_indentation(depth);
    lemma_attribute_text(name, value, depth);
    let blanks = indentation(depth);
    let text = attribute_text(name, value);
    assert(seq!['\n'] + (blanks + text) =~= (seq!['\n'] + blanks) + text);
    lemma_stands_split(s, start, seq!['\n'] + blanks, text);
    let p = start + 1 + 2 * depth;
    lemma_stands_split(s, p, name, seq![' ', ':'] + (" "@ + value_text(value) + ";"@));
    assert(s[p + 0] == name[0]);
    lemma_skip_line(s, pos, start, depth);
    lemma_attribute_reads(s, p, name, value, read);
}

/// A written block on a line of its own after `pos`, which is read as
/// `read`, is the next item of the body.
proof fn lemma_body_block(
    s: Seq<char>,
    pos: int,
    start: int,
    kind: Seq<char>,
    text: Seq<char>,
    read: ItemModel,
    depth: nat,
)
    requires
        0 <= pos <= start,
        blank_between(s, pos, start),
        is_identifier(kind),
        stands_at(s, start, seq!['\n'] + (indentation(depth) + text)),
        stands_at(s, start + 1 + 2 * depth, kind),
        comment(s, start + 1 + 2 * depth) is Err,
        group(s, start + 1 + 2 * depth) == Ok::<(ItemModel, int), Fault>(
            (read, start + 1 + 2 * depth + text.len()),
        ),
    ensures
        body_item(s, pos) == Ok::<(ItemModel, int), Fault>(
            (read, start + 1 + 2 * depth + text.len()),
        ),
{
    reveal(stands_at);
    lemma_classes();
    lemma_indentation(depth);
    let blanks = indentation(depth);
    assert(seq!['\n'] + (blanks + text) =~= (seq!['\n'] + blanks) + text);
    lemma_stands_split(s, start, seq!['\n'] + blanks, text);
    let p = start + 1 + 2 * depth;
    assert(s[p + 0] == kind[0]);
    lemma_skip_line(s, pos, start, depth);
}

/// A body goes on after an item that was read.
proof fn lemma_body_step(s: Seq<char>, pos: int, acc: Seq<ItemModel>, read: ItemModel, next: int)
    requires
        body_item(s, pos) == Ok::<(ItemModel, int), Fault>((read, next)),
        pos < next <= s.len(),
    ensures
        body_items(s, pos, acc) == body_items(s, next, acc.push(read)),
{
}

/// A written item on a line of its own after `pos` is read as the next item
/// of the body.
proof fn lemma_item_reads(
    s: Seq<char>,
    pos: int,
    start: int,
    item: ItemModel,
    read: ItemModel,
    depth: nat,
)
    requires
        0 <= pos <= start,
        blank_between(s, pos, start),
        rereads(item, read),
        stands_at(s, start, seq!['\n'] + item_text(item, depth)),
    ensures
        body_item(s, pos) == Ok::<(ItemModel, int), Fault>(
            (read, start + 1 + item_text(item, depth).len()),
        ),
        pos < start + 1 + item_text(item, depth).len() <= s.len(),
    decreases item, 1nat,
{
    match item {
        ItemModel::SimpleAttr(name, value) => {
            lemma_body_attribute(s, pos, start, name, value, read->SimpleAttr_1, depth);
        },
        ItemModel::Group(kind, name, inner) => {
            lemma_indentation(depth);
            lemma_block_text(kind, name, inner, depth);
            let block = block_text(kind, name, inner, depth);
            assert(seq!['\n'] + (indentation(depth) + block) =~= (seq!['\n'] + indentation(depth))
                + block);
            lemma_stands_split(s, start, seq!['\n'] + indentation(depth), block);
            let p = start + 1 + 2 * depth;
            lemma_block_reads(s, p, item, read, depth);
            lemma_stands_split(
                s,
                p,
                kind,
                seq![' ', '(', ' '] + (name + (seq![' ', ')', ' ', '{'] + (if inner.len() == 0 {
                    seq!['\n'] + frame(inner, 0, depth)
                } else {
                    frame(inner, 0, depth)
                }))),
            );
            lemma_body_block(s, pos, start, kind, block, read, depth);
        },
        _ => {},
    }
}

/// The items of a block from item `from` on, where they stand at `start` as
/// the writer puts them, after nothing but blank space from `pos` on, are
/// read as what they are read as one by one, up to the closing brace.
proof fn lemma_body_reads(
    s: Seq<char>,
    pos: int,
    start: int,
    items: Seq<ItemModel>,
    reads: Seq<ItemModel>,
    from: int,
    acc: Seq<ItemModel>,
    depth: nat,
)
    requires
        all_reread(items, reads),
        0 <= from <= items.len(),
        0 <= pos <= start,
        blank_between(s, pos, start),
        stands_at(s, start, frame(items, from, depth)),
    ensures
        body_items(s, pos, acc) matches Ok((found, end)) && found == acc + reads.subrange(
            from,
            items.len() as int,
        ) && expect_char(s, spaces_end(s, end), '}') == Ok::<int, Fault>(
            start + frame(items, from, depth).len(),
        ),
    decreases items, items.len() - from,
{
    if from == items.len() {
        lemma_indentation(depth);
        lemma_body_ends(s, pos, start, acc, depth);
        assert(reads.subrange(from, items.len() as int) =~= Seq::empty());
        assert(acc + Seq::<ItemModel>::empty() =~= acc);
    } else {
        let item = items[from];
        let read = reads[from];
        let text = item_text(item, depth + 1);
        let rest = frame(items, from + 1, depth);
        let next = start + 1 + text.len();
        assert(stands_at(s, start, seq!['\n'] + text) && stands_at(s, next, rest)) by {
            assert(seq!['\n'] + (text + rest) =~= (seq!['\n'] + text) + rest);
            lemma_stands_split(s, start, seq!['\n'] + text, rest);
        }
        assert(rereads(item, read));
        lemma_item_reads(s, pos, start, item, read, depth + 1);
        lemma_body_step(s, pos, acc, read, next);
        lemma_blank_nothing(s, next);
        lemma_body_reads(s, next, next, items, reads, from + 1, acc.push(read), depth);
        assert(acc.push(read) + reads.subrange(from + 1, items.len() as int) =~= acc
            + reads.subrange(from, items.len() as int));
    }
}

/// A written document from its block `from` on: the blocks with a line
/// break between them.
pub open spec fn top_text(items: Seq<ItemModel>, from: int) -> Seq<char>
    decreases items.len() - from,
{
    if from < 0 || from >= items.len() {
        Seq::empty()
    } else if from == items.len() - 1 {
        item_text(items[from], 0)
    } else {
        item_text(items[from], 0) + (seq!['\n'] + top_text(items, from + 1))
    }
}

/// The first `count` blocks of a document as they are written, and then the
/// rest of the document, are the document.
proof fn lemma_top_join(items: Seq<ItemModel>, count: int)
    requires
        1 <= count <= items.len(),
    ensures
        top_text(items, 0) == joined(item_texts(items, 0).take(count), "\n"@) + (if count
            < items.len() {
            seq!['\n'] + top_text(items, count)
        } else {
            Seq::empty()
        }),
    decreases count,
{
    lemma_pieces();
    lemma_item_texts(items, 0);
    let texts = item_texts(items, 0);
    let tail = |k: int|
        if k < items.len() {
            seq!['\n'] + top_text(items, k)
        } else {
            Seq::<char>::empty()
        };
    if count == 1 {
        assert(joined(texts.take(1), "\n"@) == texts[0]);
        assert(top_text(items, 0) =~= texts[0] + tail(1));
    } else {
        lemma_top_join(items, count - 1);
        assert(texts.take(count).drop_last() =~= texts.take(count - 1));
        assert(texts.take(count).last() == texts[count - 1]);
        let front = joined(texts.take(count - 1), "\n"@);
        assert(joined(texts.take(count), "\n"@) == front + "\n"@ + texts[count - 1]);
        assert(top_text(items, count - 1) =~= texts[count - 1] + tail(count));
        assert(front + (seq!['\n'] + top_text(items, count - 1)) =~= front + "\n"@ + texts[count
            - 1] + tail(count));
    }
}

/// A document is written as its blocks with a line break between them.
proof fn lemma_top_text(items: Seq<ItemModel>)
    ensures
        items_text(items, 0) == top_text(items, 0),
{
    let texts = item_texts(items, 0);
    lemma_item_texts(items, 0);
    if items.len() == 0 {
        assert(texts =~= Seq::empty());
    } else {
        lemma_top_join(items, items.len() as int);
        assert(texts.take(items.len() as int) =~= texts);
        assert(joined(texts, "\n"@) + Seq::<char>::empty() =~= joined(texts, "\n"@));
    }
}

/// Where the input ends after blank space, nothing more is read at the top.
proof fn lemma_top_ends(s: Seq<char>, pos: int, acc: Seq<ItemModel>)
    requires
        0 <= pos <= s.len(),
        blank_between(s, pos, s.len() as int),
    ensures
        top_items(s, pos, acc) == Ok::<(Seq<ItemModel>, int), Fault>((acc, pos)),
        spaces_end(s, pos) == s.len(),
{
    reveal(blank_between);
    reveal(top_item);
    lemma_run_ends_at(s, pos, s.len() as int, CharClass::Space);
    lemma_no_item(s, s.len() as int);
    assert(top_item(s, pos) matches Err(fault) && !fault.fatal);
}

/// A written block after blank space is the next block of the document.
proof fn lemma_top_block(
    s: Seq<char>,
    pos: int,
    start: int,
    item: ItemModel,
    read: ItemModel,
    acc: Seq<ItemModel>,
)
    requires
        0 <= pos <= start,
        blank_between(s, pos, start),
        item is Group,
        rereads(item, read),
        stands_at(s, start, item_text(item, 0)),
    ensures
        top_items(s, pos, acc) == top_items(
            s,
            start + item_text(item, 0).len(),
            acc.push(read),
        ),
        start + item_text(item, 0).len() <= s.len(),
{
    reveal(top_item);
    lemma_classes();
    let kind = item->Group_0;
    let name = item->Group_1;
    let inner = item->Group_2;
    lemma_block_text(kind, name, inner, 0);
    lemma_indentation(0);
    let block = block_text(kind, name, inner, 0);
    assert(indentation(0) + block =~= block);
    lemma_block_reads(s, start, item, read, 0);
    assert(spaces_end(s, pos) == start) by {
        reveal(blank_between);
        reveal(stands_at);
        assert(block =~= header_text(kind, name) + (if inner.len() == 0 {
            seq!['\n'] + frame(inner, 0, 0)
        } else {
            frame(inner, 0, 0)
        }));
        assert(block[0] == kind[0]);
        assert(s[start + 0] == block[0]);
        lemma_run_ends_at(s, pos, start, CharClass::Space);
    }
    assert(start + block.len() <= s.len()) by {
        reveal(stands_at);
    }
    assert(block.len() > 0);
}

/// The blocks of a document from block `from` on, where they stand at
/// `start` as the writer puts them and reach to the end of the input, after
/// nothing but blank space from `pos` on, are read as what they are read as
/// one by one.
proof fn lemma_top_reads(
    s: Seq<char>,
    pos: int,
    start: int,
    items: Seq<ItemModel>,
    reads: Seq<ItemModel>,
    from: int,
    acc: Seq<ItemModel>,
)
    requires
        all_reread(items, reads),
        forall|i: int| 0 <= i < items.len() ==> #[trigger] items[i] is Group,
        0 <= from <= items.len(),
        0 <= pos <= start,
        blank_between(s, pos, start),
        stands_at(s, start, top_text(items, from)),
        start + top_text(items, from).len() == s.len(),
    ensures
        top_items(s, pos, acc) matches Ok((found, end)) && found == acc + reads.subrange(
            from,
            items.len() as int,
        ) && spaces_end(s, end) == s.len(),
    decreases items.len() - from,
{
    if from == items.len() {
        lemma_top_ends(s, pos, acc);
        assert(reads.subrange(from, items.len() as int) =~= Seq::empty());
        assert(acc + Seq::<ItemModel>::empty() =~= acc);
    } else {
        let item = items[from];
        let read = reads[from];
        let text = item_text(item, 0);
        let next = start + text.len();
        assert(rereads(item, read));
        if from == items.len() - 1 {
            lemma_top_block(s, pos, start, item, read, acc);
            lemma_blank_nothing(s, next);
            assert(stands_at(s, next, top_text(items, from + 1))) by {
                reveal(stands_at);
            }
            lemma_top_reads(s, next, next, items, reads, from + 1, acc.push(read));
        } else {
            let rest = top_text(items, from + 1);
            lemma_stands_split(s, start, text, seq!['\n'] + rest);
            lemma_stands_split(s, next, seq!['\n'], rest);
            lemma_top_block(s, pos, start, item, read, acc);
            assert(blank_between(s, next, next + 1)) by {
                reveal(blank_between);
                reveal(stands_at);
                assert(s[next + 0] == seq!['\n'][0]);
            }
            lemma_top_reads(s, next, next + 1, items, reads, from + 1, acc.push(read));
        }
        assert(acc.push(read) + reads.subrange(from + 1, items.len() as int) =~= acc
            + reads.subrange(from, items.len() as int));
    }
}

/// What an item is read as is written as the item is.
proof fn lemma_same_text(item: ItemModel, read: ItemModel, depth: nat)
    requires
        rereads(item, read),
    ensures
        item_text(read, depth) == item_text(item, depth),
    decreases item, 0nat,
{
    match item {
        ItemModel::Group(kind, name, items) => {
            lemma_same_texts(items, read->Group_2, depth + 1);
        },
        _ => {},
    }
}

/// What items are read as is written as the items are.
proof fn lemma_same_texts(items: Seq<ItemModel>, reads: Seq<ItemModel>, depth: nat)
    requires
        all_reread(items, reads),
    ensures
        item_texts(reads, depth) == item_texts(items, depth),
    decreases items, 1nat,
{
    lemma_item_texts(items, depth);
    lemma_item_texts(reads, depth);
    assert forall|i: int| 0 <= i < items.len() implies item_texts(reads, depth)[i] == item_texts(
        items,
        depth,
    )[i] by {
        lemma_same_text(items[i], reads[i], depth);
    }
    assert(item_texts(reads, depth) =~= item_texts(items, depth));
}

/// A document that is written and read again comes back as what its items
/// are read as, and that is written as the document itself was: writing
/// after reading changes nothing any more.
///
/// This holds of documents made of blocks and simple attributes whose
/// attribute names and block kinds are identifiers, whose block names are
/// parameters joined by a comma and a blank, and whose values, as they are
/// written, are read as values that are written alike (`rereads`). It does
/// not hold of a document with a complex attribute or a comment, which the
/// reader refuses as they are written, nor of one with an expression such
/// as `1` that is read as a number once a semicolon follows it directly.
pub proof fn lemma_written_document_reads_back(items: Seq<ItemModel>, reads: Seq<ItemModel>)
    requires
        all_reread(items, reads),
        forall|i: int| 0 <= i < items.len() ==> #[trigger] items[i] is Group,
    ensures
        libraries(items_text(items, 0)) == Ok::<Seq<ItemModel>, Fault>(reads),
        items_text(reads, 0) == items_text(items, 0),
{
    let s = items_text(items, 0);
    lemma_top_text(items);
    lemma_blank_nothing(s, 0);
    assert(stands_at(s, 0, top_text(items, 0))) by {
        reveal(stands_at);
    }
    lemma_top_reads(s, 0, 0, items, reads, 0, Seq::empty());
    assert(reads.subrange(0, items.len() as int) =~= reads);
    assert(Seq::<ItemModel>::empty() + reads =~= reads);
    lemma_same_texts(items, reads, 0);
}

} // verus!
