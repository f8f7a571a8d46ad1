//! What holds of the structured model, whatever the document.

use crate::ast::ItemModel;
use crate::liberty::{
    attribute_items, attributes_of, built, distinct_names, lemma_position, lemma_unbuilt_all,
    lookup, position, subgroups_of, unbuilt, unbuilt_all, upsert, AttributeModel, Entries,
    GroupModel,
};
use vstd::prelude::*;

verus! {

/// The names of `list`, in order.
pub open spec fn names(list: Entries) -> Seq<Seq<char>> {
    Seq::new(list.len(), |i: int| list[i].0)
}

/// The attribute that an item gives to `name`, if it gives one.
pub open spec fn gives(item: ItemModel, name: Seq<char>) -> Option<AttributeModel> {
    match item {
        ItemModel::SimpleAttr(n, value) => if n == name {
            Some(AttributeModel::Simple(value))
        } else {
            None
        },
        ItemModel::ComplexAttr(n, values) => if n == name {
            Some(AttributeModel::Complex(values))
        } else {
            None
        },
        _ => None,
    }
}

/// What the last attribute named `name` among `items` holds.
pub open spec fn latest_attribute(items: Seq<ItemModel>, name: Seq<char>) -> Option<
    AttributeModel,
>
    decreases items.len(),
{
    if items.len() == 0 {
        None
    } else {
        match gives(items.last(), name) {
            Some(attribute) => Some(attribute),
            None => latest_attribute(items.drop_last(), name),
        }
    }
}

/// The name of an attribute; nothing for a block or a comment.
pub open spec fn attribute_name(item: ItemModel) -> Option<Seq<char>> {
    match item {
        ItemModel::SimpleAttr(name, _) => Some(name),
        ItemModel::ComplexAttr(name, _) => Some(name),
        _ => None,
    }
}

/// The names of the attributes among `items`, each once, in the order in
/// which they first occur.
pub open spec fn first_names(items: Seq<ItemModel>) -> Seq<Seq<char>>
    decreases items.len(),
{
    if items.len() == 0 {
        Seq::empty()
    } else {
        let rest = first_names(items.drop_last());
        match attribute_name(items.last()) {
            Some(name) => if rest.contains(name) {
                rest
            } else {
                rest.push(name)
            },
            None => rest,
        }
    }
}

/// The place of a name depends on the names alone.
pub proof fn lemma_position_by_names(a: Entries, b: Entries, name: Seq<char>)
    requires
        names(a) == names(b),
    ensures
        position(a, name) == position(b, name),
    decreases a.len(),
{
    assert(a.len() == names(a).len());
    assert(b.len() == names(b).len());
    if a.len() > 0 {
        assert(names(a.drop_last()) =~= names(a).drop_last());
        assert(names(b.drop_last()) =~= names(b).drop_last());
        lemma_position_by_names(a.drop_last(), b.drop_last(), name);
        assert(a.last().0 == names(a)[a.len() - 1]);
        assert(b.last().0 == names(b)[b.len() - 1]);
    }
}

/// A name is found exactly where it is among the names.
pub proof fn lemma_position_contains(list: Entries, name: Seq<char>)
    ensures
        position(list, name) is Some <==> names(list).contains(name),
{
    lemma_position(list, name);
    match position(list, name) {
        Some(i) => {
            assert(names(list)[i] == name);
        },
        None => {
            if names(list).contains(name) {
                let j = choose|j: int| 0 <= j < names(list).len() && names(list)[j] == name;
                assert(list[j].0 == name);
            }
        },
    }
}

/// Putting an attribute under a name changes what stands under that name and
/// nothing else. A name that was there keeps its place, and the names keep
/// their order; a new name comes last.
pub proof fn lemma_upsert(list: Entries, name: Seq<char>, attribute: AttributeModel)
    ensures
        lookup(upsert(list, name, attribute), name) == Some(attribute),
        forall|other: Seq<char>|
            other != name ==> lookup(upsert(list, name, attribute), other) == lookup(list, other),
        position(list, name) is Some ==> names(upsert(list, name, attribute)) == names(list),
        position(list, name) is Some ==> position(upsert(list, name, attribute), name)
            == position(list, name),
        position(list, name) is None ==> names(upsert(list, name, attribute)) == names(list).push(
            name,
        ),
        distinct_names(list) ==> distinct_names(upsert(list, name, attribute)),
{
    let after = upsert(list, name, attribute);
    lemma_position(list, name);
    match position(list, name) {
        Some(i) => {
            assert(names(after) =~= names(list));
            lemma_position_by_names(after, list, name);
            assert forall|other: Seq<char>| other != name implies lookup(after, other) == lookup(
                list,
                other,
            ) by {
                lemma_position_by_names(after, list, other);
                lemma_position(list, other);
            }
            if distinct_names(list) {
                assert forall|a: int, b: int| 0 <= a < b < after.len() implies after[a].0
                    != after[b].0 by {
                    assert(after[a].0 == list[a].0);
                    assert(after[b].0 == list[b].0);
                }
            }
        },
        None => {
            assert(after.drop_last() =~= list);
            assert(names(after) =~= names(list).push(name));
            assert forall|other: Seq<char>| other != name implies lookup(after, other) == lookup(
                list,
                other,
            ) by {
                lemma_position(list, other);
            }
            if distinct_names(list) {
                assert forall|a: int, b: int| 0 <= a < b < after.len() implies after[a].0
                    != after[b].0 by {
                    if b < list.len() {
                        assert(after[a] == list[a]);
                        assert(after[b] == list[b]);
                    } else {
                        assert(after[a] == list[a]);
                    }
                }
            }
        },
    }
}

/// Under every name, a block holds what the last attribute of that name in
/// its body holds; a name that no attribute of the body has is not there.
pub proof fn lemma_latest_attribute_wins(items: Seq<ItemModel>, name: Seq<char>)
    ensures
        lookup(attributes_of(items), name) == latest_attribute(items, name),
    decreases items.len(),
{
    if items.len() > 0 {
        let rest = attributes_of(items.drop_last());
        lemma_latest_attribute_wins(items.drop_last(), name);
        match items.last() {
            ItemModel::SimpleAttr(n, value) => {
                lemma_upsert(rest, n, AttributeModel::Simple(value));
            },
            ItemModel::ComplexAttr(n, values) => {
                lemma_upsert(rest, n, AttributeModel::Complex(values));
            },
            _ => {},
        }
    }
}

/// The names of a block's attributes stand in the order in which they first
/// occur in its body, each once: a name that comes again keeps the place of
/// its first occurrence.
pub proof fn lemma_first_occurrence_keeps_place(items: Seq<ItemModel>)
    ensures
        names(attributes_of(items)) == first_names(items),
        distinct_names(attributes_of(items)),
    decreases items.len(),
{
    if items.len() > 0 {
        let rest = attributes_of(items.drop_last());
        lemma_first_occurrence_keeps_place(items.drop_last());
        match items.last() {
            ItemModel::SimpleAttr(n, value) => {
                lemma_upsert(rest, n, AttributeModel::Simple(value));
                lemma_position_contains(rest, n);
            },
            ItemModel::ComplexAttr(n, values) => {
                lemma_upsert(rest, n, AttributeModel::Complex(values));
                lemma_position_contains(rest, n);
            },
            _ => {},
        }
    }
}

/// No name stands twice among the attributes of the block, nor among those
/// of any block nested in it.
pub open spec fn well_formed(group: GroupModel) -> bool
    decreases group,
{
    &&& distinct_names(group.attributes)
    &&& forall|i: int|
        0 <= i < group.subgroups.len() ==> well_formed(#[trigger] group.subgroups[i])
}

/// Blocks after the attributes of a body add nothing to the attributes.
proof fn lemma_blocks_hold_no_attributes(front: Seq<ItemModel>, blocks: Seq<ItemModel>)
    requires
        forall|i: int| 0 <= i < blocks.len() ==> #[trigger] blocks[i] is Group,
    ensures
        attributes_of(front + blocks) == attributes_of(front),
    decreases blocks.len(),
{
    if blocks.len() == 0 {
        assert(front + blocks =~= front);
    } else {
        assert((front + blocks).drop_last() =~= front + blocks.drop_last());
        assert((front + blocks).last() == blocks.last());
        lemma_blocks_hold_no_attributes(front, blocks.drop_last());
    }
}

/// Attributes with distinct names, read as a body, give themselves.
proof fn lemma_attributes_of_attribute_items(list: Entries)
    requires
        distinct_names(list),
    ensures
        attributes_of(attribute_items(list)) == list,
    decreases list.len(),
{
    let items = attribute_items(list);
    if list.len() == 0 {
        assert(list =~= Seq::empty());
    } else {
        let front = list.drop_last();
        assert(items.drop_last() =~= attribute_items(front));
        lemma_attributes_of_attribute_items(front);
        lemma_position(front, list.last().0);
        assert(position(front, list.last().0) is None) by {
            if let Some(i) = position(front, list.last().0) {
                assert(front[i] == list[i]);
            }
        }
        assert(front.push(list.last()) =~= list);
    }
}

/// Attributes, read as a body, hold no blocks.
proof fn lemma_attribute_items_hold_no_blocks(list: Entries)
    ensures
        subgroups_of(attribute_items(list)) == Seq::<GroupModel>::empty(),
    decreases list.len(),
{
    if list.len() > 0 {
        assert(attribute_items(list).drop_last() =~= attribute_items(list.drop_last()));
        lemma_attribute_items_hold_no_blocks(list.drop_last());
    }
}

/// The blocks of a body made of attributes and then the raw forms of
/// `groups` are the structured forms of those raw forms.
proof fn lemma_subgroups_of_unbuilt(list: Entries, groups: Seq<GroupModel>)
    ensures
        subgroups_of(attribute_items(list) + unbuilt_all(groups)).len() == groups.len(),
        forall|i: int|
            0 <= i < groups.len() ==> #[trigger] subgroups_of(
                attribute_items(list) + unbuilt_all(groups),
            )[i] == built(unbuilt(groups[i])),
    decreases groups.len(),
{
    let front = attribute_items(list);
    if groups.len() == 0 {
        assert(front + unbuilt_all(groups) =~= front);
        lemma_attribute_items_hold_no_blocks(list);
    } else {
        let items = front + unbuilt_all(groups);
        assert(items.drop_last() =~= front + unbuilt_all(groups.drop_last()));
        assert(items.last() == unbuilt(groups.last()));
        lemma_subgroups_of_unbuilt(list, groups.drop_last());
    }
}

/// A structured block written as a raw block and read back is itself,
/// where no name stands twice among the attributes of a block.
pub proof fn lemma_structured_round_trip(group: GroupModel)
    requires
        well_formed(group),
    ensures
        built(unbuilt(group)) == group,
    decreases group,
{
    let items = attribute_items(group.attributes) + unbuilt_all(group.subgroups);
    lemma_unbuilt_all(group.subgroups);
    lemma_blocks_hold_no_attributes(
        attribute_items(group.attributes),
        unbuilt_all(group.subgroups),
    );
    lemma_attributes_of_attribute_items(group.attributes);
    lemma_subgroups_of_unbuilt(group.attributes, group.subgroups);
    assert forall|i: int| 0 <= i < group.subgroups.len() implies subgroups_of(items)[i]
        == group.subgroups[i] by {
        lemma_structured_round_trip(group.subgroups[i]);
    }
    assert(subgroups_of(items) =~= group.subgroups);
}

} // verus!
