//! Parse failures: where the grammar gave up, inside which rules, and how
//! that is shown to a person.

use nom::error::{VerboseError, VerboseErrorKind};
use vstd::prelude::*;
use vstd::utf8::*;

verus! {

/// The grammar rule that was being read when a failure passed through it.
#[derive(Clone, Copy, Debug, PartialEq, Eq, Structural)]
pub enum Label {
    UnderscoreTag,
    QuotedFloats,
    Expression,
    QuotedString,
    SimpleAttrValue,
    SimpleAttr,
    ComplexValues,
    ComplexAttr,
    Comment,
    GroupBody,
    FoldingItems,
    ParsingGroup,
    ParseLibs,
    OuterComment,
    ParseLib,
}

impl Label {
    /// The label as it is shown in a message.
    pub open spec fn spec_text(self) -> Seq<char> {
        match self {
            Label::UnderscoreTag => "underscore_tag"@,
            Label::QuotedFloats => "quoted floats"@,
            Label::Expression => "expression"@,
            Label::QuotedString => "quoted string"@,
            Label::SimpleAttrValue => "simple attr value"@,
            Label::SimpleAttr => "simple attr"@,
            Label::ComplexValues => "complex values"@,
            Label::ComplexAttr => "complex attr"@,
            Label::Comment => "comment"@,
            Label::GroupBody => "group body"@,
            Label::FoldingItems => "folding items"@,
            Label::ParsingGroup => "parsing group"@,
            Label::ParseLibs => "parse_libs"@,
            Label::OuterComment => "outer comment"@,
            Label::ParseLib => "parse_lib"@,
        }
    }

    pub fn text(self) -> (t: &'static str)
        ensures
            t@ == self.spec_text(),
    {
        match self {
            Label::UnderscoreTag => "underscore_tag",
            Label::QuotedFloats => "quoted floats",
            Label::Expression => "expression",
            Label::QuotedString => "quoted string",
            Label::SimpleAttrValue => "simple attr value",
            Label::SimpleAttr => "simple attr",
            Label::ComplexValues => "complex values",
            Label::ComplexAttr => "complex attr",
            Label::Comment => "comment",
            Label::GroupBody => "group body",
            Label::FoldingItems => "folding items",
            Label::ParsingGroup => "parsing group",
            Label::ParseLibs => "parse_libs",
            Label::OuterComment => "outer comment",
            Label::ParseLib => "parse_lib",
        }
    }
}

/// The elementary piece of grammar that did not match.
#[derive(Clone, Copy, Debug, PartialEq, Eq, Structural)]
pub enum ErrorKind {
    /// A fixed piece of text was expected.
    Tag,
    /// Letters were read, but they do not spell what was asked for.
    MapRes,
    /// None of several alternatives matched.
    Alt,
    /// At least one character outside a set was expected.
    IsNot,
    /// At least one character of a set was expected.
    IsA,
    /// A list element or separator matched without reading anything.
    SeparatedList,
    /// A repeated rule matched without reading anything.
    Many0,
    /// The closing text of a delimited region never came.
    TakeUntil,
    /// A letter was expected.
    Alpha,
    /// Input was left over where the end was expected.
    Eof,
    /// One character of a set was expected.
    OneOf,
    /// A line break was expected.
    CrLf,
    /// A number was expected.
    Float,
}

impl ErrorKind {
    /// The kind as it is shown in a message.
    pub open spec fn spec_name(self) -> Seq<char> {
        match self {
            ErrorKind::Tag => "Tag"@,
            ErrorKind::MapRes => "MapRes"@,
            ErrorKind::Alt => "Alt"@,
            ErrorKind::IsNot => "IsNot"@,
            ErrorKind::IsA => "IsA"@,
            ErrorKind::SeparatedList => "SeparatedList"@,
            ErrorKind::Many0 => "Many0"@,
            ErrorKind::TakeUntil => "TakeUntil"@,
            ErrorKind::Alpha => "Alpha"@,
            ErrorKind::Eof => "Eof"@,
            ErrorKind::OneOf => "OneOf"@,
            ErrorKind::CrLf => "CrLf"@,
            ErrorKind::Float => "Float"@,
        }
    }

    pub fn name(self) -> (t: &'static str)
        ensures
            t@ == self.spec_name(),
    {
        match self {
            ErrorKind::Tag => "Tag",
            ErrorKind::MapRes => "MapRes",
            ErrorKind::Alt => "Alt",
            ErrorKind::IsNot => "IsNot",
            ErrorKind::IsA => "IsA",
            ErrorKind::SeparatedList => "SeparatedList",
            ErrorKind::Many0 => "Many0",
            ErrorKind::TakeUntil => "TakeUntil",
            ErrorKind::Alpha => "Alpha",
            ErrorKind::Eof => "Eof",
            ErrorKind::OneOf => "OneOf",
            ErrorKind::CrLf => "CrLf",
            ErrorKind::Float => "Float",
        }
    }
}

/// What one entry of a failure's trace records.
#[derive(Clone, Copy, Debug, PartialEq, Eq, Structural)]
pub enum FrameKind {
    /// The failure passed through this grammar rule.
    Context(Label),
    /// This character was expected.
    Char(char),
    /// This elementary piece of grammar did not match.
    Nom(ErrorKind),
}

/// One entry of a failure's trace: a position in the input, counted in
/// characters from its start, and what went wrong there.
#[derive(Clone, Copy, Debug, PartialEq, Eq, Structural)]
pub struct Frame {
    pub offset: usize,
    pub kind: FrameKind,
}

/// Why a piece of input was not accepted.
///
/// A failure that is not `fatal` is recoverable: the rule did not match, and
/// another rule may be tried at the same place. A fatal one was raised after
/// the rule had read the token that tells it from every other rule; nothing
/// else is tried. `frames` starts with the innermost cause and goes outwards
/// through the rules that were being read.
#[derive(Clone, Debug, PartialEq, Eq)]
pub struct Failure {
    pub fatal: bool,
    pub frames: Vec<Frame>,
}

/// A failure as a mathematical value.
pub struct Fault {
    pub fatal: bool,
    pub frames: Seq<Frame>,
}

impl View for Failure {
    type V = Fault;

    open spec fn view(&self) -> Fault {
        Fault { fatal: self.fatal, frames: self.frames@ }
    }
}

/// A recoverable failure at `pos`.
pub open spec fn error_at(pos: int, kind: FrameKind) -> Fault {
    Fault { fatal: false, frames: seq![Frame { offset: pos as usize, kind }] }
}

/// `fault`, having passed through the rule `label` that started at `pos`.
pub open spec fn within(fault: Fault, pos: int, label: Label) -> Fault {
    Fault {
        fatal: fault.fatal,
        frames: fault.frames.push(Frame { offset: pos as usize, kind: FrameKind::Context(label) }),
    }
}

/// `fault` made fatal.
pub open spec fn committed(fault: Fault) -> Fault {
    Fault { fatal: true, frames: fault.frames }
}

/// The failure of a choice made at `pos` whose last alternative left `fault`.
pub open spec fn no_alternative(fault: Fault, pos: int) -> Fault {
    Fault {
        fatal: fault.fatal,
        frames: fault.frames.push(
            Frame { offset: pos as usize, kind: FrameKind::Nom(ErrorKind::Alt) },
        ),
    }
}

impl Failure {
    /// A recoverable failure at `pos`.
    pub fn at(pos: usize, kind: FrameKind) -> (failure: Failure)
        ensures
            failure@ == error_at(pos as int, kind),
    {
        let failure = Failure { fatal: false, frames: vec![Frame { offset: pos, kind }] };
        assert(failure.frames@ =~= seq![Frame { offset: pos, kind }]);
        failure
    }

    /// This failure, having passed through the rule `label` that started at
    /// `pos`.
    pub fn within(self, pos: usize, label: Label) -> (failure: Failure)
        ensures
            failure@ == within(self@, pos as int, label),
    {
        let mut failure = self;
        failure.frames.push(Frame { offset: pos, kind: FrameKind::Context(label) });
        failure
    }

    /// This failure made fatal.
    pub fn commit(self) -> (failure: Failure)
        ensures
            failure@ == committed(self@),
    {
        Failure { fatal: true, frames: self.frames }
    }

    /// The failure of a choice made at `pos` whose last alternative left
    /// this one.
    pub fn no_alternative(self, pos: usize) -> (failure: Failure)
        ensures
            failure@ == no_alternative(self@, pos as int),
    {
        let mut failure = self;
        failure.frames.push(Frame { offset: pos, kind: FrameKind::Nom(ErrorKind::Alt) });
        failure
    }
}

/// One line of a trace as the message formatter takes it: a position in
/// bytes, and either the character that was expected there or the name of
/// what was being read.
pub enum Mark {
    Expected(usize, char),
    Within(usize, &'static str),
}

/// A `Mark` as a mathematical value.
pub enum MarkModel {
    Expected(nat, char),
    Within(nat, Seq<char>),
}

impl View for Mark {
    type V = MarkModel;

    open spec fn view(&self) -> MarkModel {
        match self {
            Mark::Expected(at, c) => MarkModel::Expected(*at as nat, *c),
            Mark::Within(at, name) => MarkModel::Within(*at as nat, name@),
        }
    }
}

impl Mark {
    /// The position, in bytes, that the entry points at.
    pub open spec fn at(self) -> nat {
        match self {
            Mark::Expected(at, _) => at as nat,
            Mark::Within(at, _) => at as nat,
        }
    }
}

/// The views of `marks`, in order.
pub open spec fn mark_models(marks: Seq<Mark>) -> Seq<MarkModel> {
    Seq::new(marks.len(), |i: int| marks[i]@)
}

/// The message that `nom::error::convert_error` writes for `input` and a
/// trace with these entries.
pub uninterp spec fn trace_text(input: Seq<char>, marks: Seq<MarkModel>) -> Seq<char>;

/// `nom::error::convert_error`, given the input and a trace whose entries lie
/// at the byte offsets of `marks`: an expected character becomes a `Char`
/// entry, a name a `Context` entry. Each offset must fall between two
/// characters of `input`, since the input is sliced there.
#[verifier::external_body]
fn convert_trace(input: &str, marks: &Vec<Mark>) -> (text: String)
    requires
        forall|i: int|
            0 <= i < marks.len() ==> is_char_boundary(
                encode_utf8(input@),
                #[trigger] marks[i].at() as int,
            ),
    ensures
        text@ == trace_text(input@, mark_models(marks@)),
{
    let errors = marks.iter().map(|m| match m {
        Mark::Expected(at, c) => (&input[*at..], VerboseErrorKind::Char(*c)),
        Mark::Within(at, name) => (&input[*at..], VerboseErrorKind::Context(*name)),
    }).collect();
    nom::error::convert_error(input, VerboseError { errors })
}

/// The number of bytes that the first `count` characters of `input` take
/// (all of them, where `input` has fewer).
pub open spec fn byte_offset(input: Seq<char>, count: nat) -> nat {
    if count <= input.len() {
        encode_utf8(input.subrange(0, count as int)).len()
    } else {
        encode_utf8(input).len()
    }
}

/// The entry of the formatter's trace that stands for `frame`. An elementary
/// piece of grammar goes in under its name, which the formatter writes as it
/// writes the label of a rule.
pub open spec fn mark_of(input: Seq<char>, frame: Frame) -> MarkModel {
    let at = byte_offset(input, frame.offset as nat);
    match frame.kind {
        FrameKind::Context(label) => MarkModel::Within(at, label.spec_text()),
        FrameKind::Char(c) => MarkModel::Expected(at, c),
        FrameKind::Nom(kind) => MarkModel::Within(at, kind.spec_name()),
    }
}

/// The formatter's trace for `frames`, entry by entry.
pub open spec fn marks_of(input: Seq<char>, frames: Seq<Frame>) -> Seq<MarkModel> {
    Seq::new(frames.len(), |i: int| mark_of(input, frames[i]))
}

/// The bytes of a string are those of any prefix followed by those of the
/// rest, so the prefix ends between two characters.
pub proof fn lemma_prefix_is_boundary(input: Seq<char>, count: int)
    requires
        0 <= count <= input.len(),
    ensures
        is_char_boundary(encode_utf8(input), encode_utf8(input.subrange(0, count)).len() as int),
        encode_utf8(input.subrange(0, count)).len() <= encode_utf8(input).len(),
    decreases count,
{
    let bytes = encode_utf8(input);
    encode_utf8_valid_utf8(input);
    if count == 0 {
        assert(input.subrange(0, 0) =~= Seq::<char>::empty());
    } else {
        let rest = input.drop_first();
        let prefix = input.subrange(0, count);
        encode_utf8_first_scalar(input);
        assert(pop_first_scalar(bytes) =~= encode_utf8(rest));
        assert(prefix.drop_first() =~= rest.subrange(0, count - 1));
        assert(prefix[0] == input[0]);
        lemma_prefix_is_boundary(rest, count - 1);
        let index = encode_utf8(prefix).len() as int;
        assert(index == encode_scalar(input[0] as u32).len() + encode_utf8(
            rest.subrange(0, count - 1),
        ).len());
        assert(bytes.len() == encode_scalar(input[0] as u32).len() + encode_utf8(rest).len());
    }
}

/// A failed parse together with the input it was made on.
#[derive(Clone, Debug, PartialEq, Eq)]
pub struct Error<'a>(pub &'a str, pub Failure);

impl<'a> Error<'a> {
    pub fn new(input: &'a str, failure: Failure) -> (e: Self)
        ensures
            e.0@ == input@,
            e.1 == failure,
    {
        Error(input, failure)
    }

    /// The message for a person: for every entry of the trace, innermost
    /// first, the line of the input it points into with a caret under the
    /// column, and what was expected or what was being read.
    pub fn to_string(&self) -> (text: String)
        ensures
            text@ == trace_text(self.0@, marks_of(self.0@, self.1.frames@)),
    {
        let input = self.0;
        let n = input.unicode_len();
        let mut marks: Vec<Mark> = Vec::new();
        let mut i: usize = 0;
        while i < self.1.frames.len()
            invariant
                i <= self.1.frames.len(),
                input == self.0,
                n == input@.len(),
                marks.len() == i,
                forall|j: int|
                    0 <= j < i ==> (#[trigger] marks[j])@ == mark_of(input@, self.1.frames[j]),
                forall|j: int|
                    0 <= j < i ==> is_char_boundary(
                        encode_utf8(input@),
                        #[trigger] marks[j].at() as int,
                    ),
            decreases self.1.frames.len() - i,
        {
            let frame = self.1.frames[i];
            let count = if frame.offset <= n {
                frame.offset
            } else {
                n
            };
            let at = input.substring_char(0, count).as_bytes().len();
            proof {
                lemma_prefix_is_boundary(input@, count as int);
                assert(input@.subrange(0, n as int) =~= input@);
                assert(at as nat == byte_offset(input@, frame.offset as nat));
            }
            let mark = match frame.kind {
                FrameKind::Context(label) => Mark::Within(at, label.text()),
                FrameKind::Char(c) => Mark::Expected(at, c),
                FrameKind::Nom(kind) => Mark::Within(at, kind.name()),
            };
            marks.push(mark);
            i += 1;
        }
        assert(mark_models(marks@) =~= marks_of(self.0@, self.1.frames@));
        convert_trace(input, &marks)
    }
}

} // verus!
