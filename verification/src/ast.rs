//! The raw document tree: what a Liberty file says, item by item, in the
//! order in which it says it.

use crate::error::Error;
use crate::grammar::{all_blocks, libraries};
use crate::liberty::{built_all, unbuilt_all, Liberty};
use crate::parser::parse_libs;
use vstd::prelude::*;

verus! {

/// What parsing a string yields.
pub type ParseResult<'a, T> = Result<T, Error<'a>>;

/// A double-precision number, held as its IEEE 754 bit pattern together with
/// the number written with six digits after the decimal point.
///
/// The library moves both along and never derives one from the other: the
/// parser takes them from the number reader, and the writer puts out
/// `fixed` as it is. Whoever makes a `Number` by hand keeps the two in step.
#[derive(Debug, PartialEq)]
pub struct Number {
    pub bits: u64,
    pub fixed: String,
}

/// A `Number` as a mathematical value.
pub struct NumberModel {
    pub bits: u64,
    pub fixed: Seq<char>,
}

impl View for Number {
    type V = NumberModel;

    open spec fn view(&self) -> NumberModel {
        NumberModel { bits: self.bits, fixed: self.fixed@ }
    }
}

impl Clone for Number {
    fn clone(&self) -> (copy: Self)
        ensures
            copy@ == self@,
    {
        Number { bits: self.bits, fixed: self.fixed.clone() }
    }
}

/// The views of `numbers`, in order.
pub open spec fn number_models(numbers: Seq<Number>) -> Seq<NumberModel> {
    Seq::new(numbers.len(), |i: int| numbers[i]@)
}

/// The bit patterns of `numbers`, in order.
pub open spec fn number_bits(numbers: Seq<NumberModel>) -> Seq<u64> {
    Seq::new(numbers.len(), |i: int| numbers[i].bits)
}

/// The six-digit forms of `numbers`, in order.
pub open spec fn number_texts(numbers: Seq<NumberModel>) -> Seq<Seq<char>> {
    Seq::new(numbers.len(), |i: int| numbers[i].fixed)
}

/// What a field of a Liberty file can hold.
///
/// The syntax alone cannot tell an enumerated keyword from a formula, so both
/// are kept, as written, under `Expression`.
#[derive(Debug, PartialEq)]
pub enum Value {
    /// The keyword `true` or `false`.
    Bool(bool),
    /// A number. Integers are not told apart from other numbers.
    Float(Number),
    /// Numbers written, separated by commas, inside one pair of quotation
    /// marks.
    FloatGroup(Vec<Number>),
    /// Text between quotation marks.
    String(String),
    /// A keyword or an arithmetic formula, kept as it was written.
    Expression(String),
}

/// A `Value` as a mathematical value.
pub enum ValueModel {
    Bool(bool),
    Float(NumberModel),
    FloatGroup(Seq<NumberModel>),
    String(Seq<char>),
    Expression(Seq<char>),
}

impl View for Value {
    type V = ValueModel;

    open spec fn view(&self) -> ValueModel {
        match self {
            Value::Bool(b) => ValueModel::Bool(*b),
            Value::Float(n) => ValueModel::Float(n@),
            Value::FloatGroup(ns) => ValueModel::FloatGroup(number_models(ns@)),
            Value::String(s) => ValueModel::String(s@),
            Value::Expression(e) => ValueModel::Expression(e@),
        }
    }
}

/// The views of `values`, in order.
pub open spec fn value_models(values: Seq<Value>) -> Seq<ValueModel> {
    Seq::new(values.len(), |i: int| values[i]@)
}

/// A copy of `numbers`.
pub fn clone_numbers(numbers: &Vec<Number>) -> (copy: Vec<Number>)
    ensures
        number_models(copy@) == number_models(numbers@),
{
    let mut copy: Vec<Number> = Vec::new();
    let mut i: usize = 0;
    while i < numbers.len()
        invariant
            i <= numbers.len(),
            copy.len() == i,
            forall|j: int| 0 <= j < i ==> (#[trigger] copy[j])@ == numbers[j]@,
        decreases numbers.len() - i,
    {
        copy.push(numbers[i].clone());
        i += 1;
    }
    assert(number_models(copy@) =~= number_models(numbers@));
    copy
}

impl Clone for Value {
    fn clone(&self) -> (copy: Self)
        ensures
            copy@ == self@,
    {
        match self {
            Value::Bool(b) => Value::Bool(*b),
            Value::Float(n) => Value::Float(n.clone()),
            Value::FloatGroup(ns) => Value::FloatGroup(clone_numbers(ns)),
            Value::String(s) => Value::String(s.clone()),
            Value::Expression(e) => Value::Expression(e.clone()),
        }
    }
}

/// A copy of `values`.
pub fn clone_values(values: &Vec<Value>) -> (copy: Vec<Value>)
    ensures
        value_models(copy@) == value_models(values@),
{
    let mut copy: Vec<Value> = Vec::new();
    let mut i: usize = 0;
    while i < values.len()
        invariant
            i <= values.len(),
            copy.len() == i,
            forall|j: int| 0 <= j < i ==> (#[trigger] copy[j])@ == values[j]@,
        decreases values.len() - i,
    {
        copy.push(values[i].clone());
        i += 1;
    }
    assert(value_models(copy@) =~= value_models(values@));
    copy
}

impl Value {
    /// The bit pattern of the number, if this is a `Float`.
    pub fn float(&self) -> (bits: Option<u64>)
        ensures
            bits == match self@ {
                ValueModel::Float(n) => Some(n.bits),
                _ => None,
            },
    {
        match self {
            Value::Float(n) => Some(n.bits),
            _ => None,
        }
    }

    /// The text, if this is a `String`.
    pub fn string(&self) -> (text: Option<String>)
        ensures
            match self@ {
                ValueModel::String(s) => text matches Some(t) && t@ == s,
                _ => text is None,
            },
    {
        match self {
            Value::String(s) => Some(s.clone()),
            _ => None,
        }
    }

    /// The expression as it was written, if this is an `Expression`.
    pub fn expr(&self) -> (text: Option<String>)
        ensures
            match self@ {
                ValueModel::Expression(e) => text matches Some(t) && t@ == e,
                _ => text is None,
            },
    {
        match self {
            Value::Expression(e) => Some(e.clone()),
            _ => None,
        }
    }

    /// The truth value, if this is a `Bool`.
    pub fn bool(&self) -> (b: Option<bool>)
        ensures
            b == match self@ {
                ValueModel::Bool(v) => Some(v),
                _ => None,
            },
    {
        match self {
            Value::Bool(v) => Some(*v),
            _ => None,
        }
    }

    /// The bit patterns of the numbers, if this is a `FloatGroup`.
    pub fn float_group(&self) -> (bits: Option<Vec<u64>>)
        ensures
            match self@ {
                ValueModel::FloatGroup(ns) => bits matches Some(v) && v@ == number_bits(ns),
                _ => bits is None,
            },
    {
        match self {
            Value::FloatGroup(ns) => {
                let mut v: Vec<u64> = Vec::new();
                let mut i: usize = 0;
                while i < ns.len()
                    invariant
                        i <= ns.len(),
                        v.len() == i,
                        forall|j: int| 0 <= j < i ==> #[trigger] v[j] == ns[j].bits,
                    decreases ns.len() - i,
                {
                    v.push(ns[i].bits);
                    i += 1;
                }
                assert(v@ =~= number_bits(number_models(ns@)));
                Some(v)
            },
            _ => None,
        }
    }
}


/// One item of a document.
#[derive(Debug, PartialEq)]
pub enum GroupItem {
    /// A block: its kind, its name and what stands between its braces.
    Group(String, String, Vec<GroupItem>),
    /// `name : value ;`
    SimpleAttr(String, Value),
    /// `name ( value, value, ... ) ;`
    ComplexAttr(String, Vec<Value>),
    /// A comment, delimiters included.
    Comment(String),
}

/// A `GroupItem` as a mathematical value.
pub enum ItemModel {
    Group(Seq<char>, Seq<char>, Seq<ItemModel>),
    SimpleAttr(Seq<char>, ValueModel),
    ComplexAttr(Seq<char>, Seq<ValueModel>),
    Comment(Seq<char>),
}

impl GroupItem {
    /// The item as a mathematical value.
    pub open spec fn model(self) -> ItemModel
        decreases self,
    {
        match self {
            GroupItem::Group(kind, name, items) => ItemModel::Group(
                kind@,
                name@,
                Seq::new(
                    items@.len(),
                    |i: int|
                        if 0 <= i < items@.len() {
                            items@[i].model()
                        } else {
                            ItemModel::Comment(Seq::empty())
                        },
                ),
            ),
            GroupItem::SimpleAttr(name, value) => ItemModel::SimpleAttr(name@, value@),
            GroupItem::ComplexAttr(name, values) => ItemModel::ComplexAttr(
                name@,
                value_models(values@),
            ),
            GroupItem::Comment(text) => ItemModel::Comment(text@),
        }
    }
}

impl View for GroupItem {
    type V = ItemModel;

    open spec fn view(&self) -> ItemModel {
        self.model()
    }
}

/// The views of `items`, in order.
pub open spec fn item_models(items: Seq<GroupItem>) -> Seq<ItemModel> {
    Seq::new(items.len(), |i: int| items[i]@)
}

/// The view of a block is made of the views of its items.
pub proof fn lemma_group_view(item: GroupItem)
    requires
        item is Group,
    ensures
        item@ == ItemModel::Group(item->Group_0@, item->Group_1@, item_models(item->Group_2@)),
{
    assert(item@->Group_2.len() == item->Group_2@.len());
    assert(item@->Group_2 =~= item_models(item->Group_2@));
}

impl GroupItem {
    /// A copy of the item and of everything below it.
    pub fn duplicate(&self) -> (copy: Self)
        ensures
            copy@ == self@,
        decreases self,
    {
        match self {
            GroupItem::Group(kind, name, items) => {
                let mut copy: Vec<GroupItem> = Vec::new();
                let mut i: usize = 0;
                while i < items.len()
                    invariant
                        i <= items.len(),
                        copy.len() == i,
                        self is Group,
                        *items == self->Group_2,
                        forall|j: int| 0 <= j < i ==> (#[trigger] copy[j])@ == items[j]@,
                    decreases items.len() - i,
                {
                    copy.push(items[i].duplicate());
                    i += 1;
                }
                let group = GroupItem::Group(kind.clone(), name.clone(), copy);
                proof {
                    lemma_group_view(group);
                    lemma_group_view(*self);
                    assert(item_models(copy@) =~= item_models(items@));
                }
                group
            },
            GroupItem::SimpleAttr(name, value) => GroupItem::SimpleAttr(
                name.clone(),
                value.clone(),
            ),
            GroupItem::ComplexAttr(name, values) => GroupItem::ComplexAttr(
                name.clone(),
                clone_values(values),
            ),
            GroupItem::Comment(text) => GroupItem::Comment(text.clone()),
        }
    }
}

impl Clone for GroupItem {
    fn clone(&self) -> (copy: Self)
        ensures
            copy@ == self@,
    {
        self.duplicate()
    }
}

/// A copy of `items`.
pub fn clone_items(items: &Vec<GroupItem>) -> (copy: Vec<GroupItem>)
    ensures
        item_models(copy@) == item_models(items@),
{
    let mut copy: Vec<GroupItem> = Vec::new();
    let mut i: usize = 0;
    while i < items.len()
        invariant
            i <= items.len(),
            copy.len() == i,
            forall|j: int| 0 <= j < i ==> (#[trigger] copy[j])@ == items[j]@,
        decreases items.len() - i,
    {
        copy.push(items[i].clone());
        i += 1;
    }
    assert(item_models(copy@) =~= item_models(items@));
    copy
}

impl GroupItem {
    /// The kind, the name and the items of a block; nothing for any other
    /// item.
    pub fn group(&self) -> (parts: Option<(String, String, Vec<GroupItem>)>)
        ensures
            match self@ {
                ItemModel::Group(kind, name, items) => parts matches Some(p) && p.0@ == kind && p.1@
                    == name && item_models(p.2@) == items,
                _ => parts is None,
            },
    {
        match self {
            GroupItem::Group(kind, name, items) => {
                proof {
                    lemma_group_view(*self);
                }
                Some((kind.clone(), name.clone(), clone_items(items)))
            },
            _ => None,
        }
    }
}

/// A Liberty file as it was written: its `library` blocks, in order.
#[derive(Debug, PartialEq)]
pub struct LibertyAst(pub Vec<GroupItem>);

impl View for LibertyAst {
    type V = Seq<ItemModel>;

    open spec fn view(&self) -> Seq<ItemModel> {
        item_models(self.0@)
    }
}

impl Clone for LibertyAst {
    fn clone(&self) -> (copy: Self)
        ensures
            copy@ == self@,
    {
        LibertyAst(clone_items(&self.0))
    }
}

impl LibertyAst {
    /// The document that holds `libs`.
    pub fn new(libs: Vec<GroupItem>) -> (ast: Self)
        ensures
            ast.0 == libs,
    {
        LibertyAst(libs)
    }

    /// Parses a whole Liberty file. It succeeds where the grammar accepts
    /// the input, with the blocks that the grammar finds in it; where it
    /// does not, the error holds the input and the grammar's failure.
    pub fn from_string<'a>(input: &'a str) -> (r: ParseResult<'a, Self>)
        ensures
            match libraries(input@) {
                Ok(items) => r matches Ok(ast) && ast@ == items,
                Err(fault) => r matches Err(e) && e.0@ == input@ && e.1@ == fault,
            },
    {
        match parse_libs(input) {
            Ok((_, libs)) => Ok(LibertyAst::new(libs)),
            Err(failure) => Err(Error::new(input, failure)),
        }
    }

    /// The structured form of the document, which must hold blocks only.
    pub fn into_liberty(self) -> (liberty: Liberty)
        requires
            all_blocks(self@),
        ensures
            liberty@ == built_all(self@),
    {
        Liberty::from_ast(self)
    }

    /// The raw form of a structured document.
    pub fn from_liberty(lib: Liberty) -> (ast: Self)
        ensures
            ast@ == unbuilt_all(lib@),
    {
        lib.to_ast()
    }
}

impl From<Liberty> for LibertyAst {
    fn from(liberty: Liberty) -> (ast: LibertyAst)
        ensures
            ast@ == unbuilt_all(liberty@),
    {
        LibertyAst::from_liberty(liberty)
    }
}

impl vstd::std_specs::convert::FromSpecImpl<Liberty> for LibertyAst {
    open spec fn obeys_from_spec() -> bool {
        false
    }

    open spec fn from_spec(liberty: Liberty) -> LibertyAst {
        arbitrary()
    }
}

} // verus!
