//! Writing a document back as Liberty text.

use crate::ast::{
    item_models, lemma_group_view, number_models, number_texts, value_models, GroupItem,
    ItemModel, LibertyAst, Value, ValueModel,
};
use crate::text::{join, joined, texts};
use vstd::prelude::*;
use vstd::string::StringExecFns;

verus! {

/// How a value is written: a truth value as its keyword, a number with six
/// digits after the decimal point, a list of numbers in one pair of
/// quotation marks with a comma and a blank between them, a string between
/// quotation marks, an expression as it is.
pub open spec fn value_text(value: ValueModel) -> Seq<char> {
    match value {
        ValueModel::Bool(b) => if b {
            "true"@
        } else {
            "false"@
        },
        ValueModel::Float(n) => n.fixed,
        ValueModel::FloatGroup(ns) => "\""@ + joined(number_texts(ns), ", "@) + "\""@,
        ValueModel::String(s) => "\""@ + s + "\""@,
        ValueModel::Expression(e) => e,
    }
}

/// How each of `values` is written, in order.
pub open spec fn value_texts(values: Seq<ValueModel>) -> Seq<Seq<char>> {
    Seq::new(values.len(), |i: int| value_text(values[i]))
}

/// The blank space at the start of a line `depth` blocks deep: two blanks
/// for every block.
pub open spec fn indentation(depth: nat) -> Seq<char>
    decreases depth,
{
    if depth == 0 {
        Seq::empty()
    } else {
        indentation((depth - 1) as nat) + "  "@
    }
}

/// How an item that stands `depth` blocks deep is written.
pub open spec fn item_text(item: ItemModel, depth: nat) -> Seq<char>
    decreases item,
{
    match item {
        ItemModel::SimpleAttr(name, value) => indentation(depth) + name + " : "@ + value_text(
            value,
        ) + ";"@,
        ItemModel::ComplexAttr(name, values) => indentation(depth) + name + " ("@ + joined(
            value_texts(values),
            ", "@,
        ) + ")"@,
        ItemModel::Comment(text) => "/*\n"@ + text + "\n*/"@,
        ItemModel::Group(kind, name, items) => indentation(depth) + kind + " ( "@ + name
            + " ) {\n"@ + joined(item_texts(items, depth + 1), "\n"@) + "\n"@ + indentation(depth)
            + "}"@,
    }
}

/// How each of `items` is written, in order.
pub open spec fn item_texts(items: Seq<ItemModel>, depth: nat) -> Seq<Seq<char>>
    decreases items,
{
    if items.len() == 0 {
        Seq::empty()
    } else {
        item_texts(items.drop_last(), depth).push(item_text(items.last(), depth))
    }
}

/// How items that stand `depth` blocks deep are written: one after the
/// other, each on a line of its own.
pub open spec fn items_text(items: Seq<ItemModel>, depth: nat) -> Seq<char> {
    joined(item_texts(items, depth), "\n"@)
}

/// `item_texts` holds, at each place, how the item at that place is written.
pub proof fn lemma_item_texts(items: Seq<ItemModel>, depth: nat)
    ensures
        item_texts(items, depth).len() == items.len(),
        forall|i: int|
            0 <= i < items.len() ==> #[trigger] item_texts(items, depth)[i] == item_text(
                items[i],
                depth,
            ),
    decreases items.len(),
{
    if items.len() > 0 {
        lemma_item_texts(items.drop_last(), depth);
    }
}

impl Value {
    /// The value as Liberty text.
    pub fn to_string(&self) -> (text: String)
        ensures
            text@ == value_text(self@),
    {
        match self {
            Value::Bool(b) => {
                if *b {
                    String::from_str("true")
                } else {
                    String::from_str("false")
                }
            },
            Value::Float(n) => n.fixed.clone(),
            Value::FloatGroup(ns) => {
                let mut parts: Vec<String> = Vec::new();
                let mut i: usize = 0;
                while i < ns.len()
                    invariant
                        i <= ns.len(),
                        parts.len() == i,
                        forall|j: int| 0 <= j < i ==> (#[trigger] parts[j])@ == ns[j].fixed@,
                    decreases ns.len() - i,
                {
                    parts.push(ns[i].fixed.clone());
                    i += 1;
                }
                assert(texts(parts@) =~= number_texts(number_models(ns@)));
                let list = join(&parts, ", ");
                let mut text = String::from_str("\"");
                text.append(list.as_str());
                text.append("\"");
                text
            },
            Value::String(s) => {
                let mut text = String::from_str("\"");
                text.append(s.as_str());
                text.append("\"");
                text
            },
            Value::Expression(e) => e.clone(),
        }
    }
}

/// `values`, each as Liberty text, with a comma and a blank between them.
pub fn values_to_string(values: &Vec<Value>) -> (text: String)
    ensures
        text@ == joined(value_texts(value_models(values@)), ", "@),
{
    let mut parts: Vec<String> = Vec::new();
    let mut i: usize = 0;
    while i < values.len()
        invariant
            i <= values.len(),
            parts.len() == i,
            forall|j: int| 0 <= j < i ==> (#[trigger] parts[j])@ == value_text(values[j]@),
        decreases values.len() - i,
    {
        parts.push(values[i].to_string());
        i += 1;
    }
    assert(texts(parts@) =~= value_texts(value_models(values@)));
    join(&parts, ", ")
}

/// One item as Liberty text, on lines that start with `indent`.
fn item_to_string(item: &GroupItem, indent: &str, Ghost(depth): Ghost<nat>) -> (text: String)
    requires
        indent@ == indentation(depth),
    ensures
        text@ == item_text(item@, depth),
    decreases item,
{
    match item {
        GroupItem::SimpleAttr(name, value) => {
            let mut text = String::from_str(indent);
            text.append(name.as_str());
            text.append(" : ");
            text.append(value.to_string().as_str());
            text.append(";");
            text
        },
        GroupItem::ComplexAttr(name, values) => {
            let mut text = String::from_str(indent);
            text.append(name.as_str());
            text.append(" (");
            text.append(values_to_string(values).as_str());
            text.append(")");
            text
        },
        GroupItem::Comment(comment) => {
            let mut text = String::from_str("/*\n");
            text.append(comment.as_str());
            text.append("\n*/");
            text
        },
        GroupItem::Group(kind, name, items) => {
            let mut deeper = String::from_str(indent);
            deeper.append("  ");
            let body = items_to_string(items, deeper.as_str(), Ghost(depth + 1));
            let mut text = String::from_str(indent);
            text.append(kind.as_str());
            text.append(" ( ");
            text.append(name.as_str());
            text.append(" ) {\n");
            text.append(body.as_str());
            text.append("\n");
            text.append(indent);
            text.append("}");
            proof {
                lemma_group_view(*item);
            }
            text
        },
    }
}

/// `items` as Liberty text, one item to a line, on lines that start with
/// `indent`.
fn items_to_string(items: &Vec<GroupItem>, indent: &str, Ghost(depth): Ghost<nat>) -> (text:
    String)
    requires
        indent@ == indentation(depth),
    ensures
        text@ == items_text(item_models(items@), depth),
    decreases items,
{
    let mut parts: Vec<String> = Vec::new();
    let mut i: usize = 0;
    while i < items.len()
        invariant
            i <= items.len(),
            parts.len() == i,
            indent@ == indentation(depth),
            forall|j: int| 0 <= j < i ==> (#[trigger] parts[j])@ == item_text(items[j]@, depth),
        decreases items.len() - i,
    {
        parts.push(item_to_string(&items[i], indent, Ghost(depth)));
        i += 1;
    }
    proof {
        lemma_item_texts(item_models(items@), depth);
        assert(texts(parts@) =~= item_texts(item_models(items@), depth));
    }
    join(&parts, "\n")
}

impl LibertyAst {
    /// The document as Liberty text: its blocks one after the other, every
    /// nested item two blanks further in than the block that holds it.
    pub fn to_string(&self) -> (text: String)
        ensures
            text@ == items_text(self@, 0),
    {
        proof {
            reveal_strlit("");
            assert(""@ =~= indentation(0));
        }
        items_to_string(&self.0, "", Ghost(0))
    }
}

} // verus!
