//! The structured model: every block with its attributes in a map from
//! name to attribute, which keeps the order in which the names first came,
//! and with its nested blocks. Comments have no place in it.

use crate::ast::{
    clone_values, item_models, lemma_group_view, value_models, GroupItem, ItemModel, LibertyAst,
    Value, ValueModel,
};
use crate::grammar::all_blocks;
use crate::serialize::items_text;
use indexmap::IndexMap;
use vstd::prelude::*;
use vstd::string::StringExecFns;

verus! {

/// `indexmap::IndexMap`, a map that keeps its keys in the order in which
/// they were first put in.
#[verifier::external_type_specification]
#[verifier::external_body]
#[verifier::reject_recursive_types(K)]
#[verifier::reject_recursive_types(V)]
#[verifier::reject_recursive_types(S)]
pub struct ExIndexMap<K, V, S>(IndexMap<K, V, S>);

/// What stands under a name in a block: one value, or a list of values.
#[derive(Debug, PartialEq)]
pub enum Attribute {
    Simple(Value),
    Complex(Vec<Value>),
}

/// An `Attribute` as a mathematical value.
pub enum AttributeModel {
    Simple(ValueModel),
    Complex(Seq<ValueModel>),
}

impl View for Attribute {
    type V = AttributeModel;

    open spec fn view(&self) -> AttributeModel {
        match self {
            Attribute::Simple(value) => AttributeModel::Simple(value@),
            Attribute::Complex(values) => AttributeModel::Complex(value_models(values@)),
        }
    }
}

impl Clone for Attribute {
    fn clone(&self) -> (copy: Self)
        ensures
            copy@ == self@,
    {
        match self {
            Attribute::Simple(value) => Attribute::Simple(value.clone()),
            Attribute::Complex(values) => Attribute::Complex(clone_values(values)),
        }
    }
}

/// Names with what stands under them, in order.
pub type Entries = Seq<(Seq<char>, AttributeModel)>;

/// The names that `attributes` holds, each with its attribute, in the order
/// of the map.
pub uninterp spec fn entries(attributes: IndexMap<String, Attribute>) -> Entries;

/// The first place at which `name` stands in `list`.
pub open spec fn position(list: Entries, name: Seq<char>) -> Option<int>
    decreases list.len(),
{
    if list.len() == 0 {
        None
    } else {
        match position(list.drop_last(), name) {
            Some(i) => Some(i),
            None => if list.last().0 == name {
                Some(list.len() - 1)
            } else {
                None
            },
        }
    }
}

/// What stands under `name` in `list`.
pub open spec fn lookup(list: Entries, name: Seq<char>) -> Option<AttributeModel> {
    match position(list, name) {
        Some(i) => Some(list[i].1),
        None => None,
    }
}

/// `list` after `attribute` is put under `name`: where the name is there
/// already, the attribute takes the place of the old one; where it is not,
/// the name comes last.
pub open spec fn upsert(list: Entries, name: Seq<char>, attribute: AttributeModel) -> Entries {
    match position(list, name) {
        Some(i) => list.update(i, (name, attribute)),
        None => list.push((name, attribute)),
    }
}

/// No name stands twice in `list`.
pub open spec fn distinct_names(list: Entries) -> bool {
    forall|i: int, j: int| 0 <= i < j < list.len() ==> list[i].0 != list[j].0
}

/// `position` yields the first place of the name, and nothing only where
/// the name does not occur.
pub proof fn lemma_position(list: Entries, name: Seq<char>)
    ensures
        match position(list, name) {
            Some(i) => 0 <= i < list.len() && list[i].0 == name && forall|j: int|
                0 <= j < i ==> (#[trigger] list[j]).0 != name,
            None => forall|j: int| 0 <= j < list.len() ==> (#[trigger] list[j]).0 != name,
        },
    decreases list.len(),
{
    if list.len() > 0 {
        lemma_position(list.drop_last(), name);
        assert forall|j: int| 0 <= j < list.len() - 1 implies list.drop_last()[j] == list[j] by {}
        match position(list.drop_last(), name) {
            Some(i) => {
                assert(list.drop_last()[i] == list[i]);
                assert forall|j: int| 0 <= j < i implies (#[trigger] list[j]).0 != name by {
                    assert(list.drop_last()[j] == list[j]);
                }
            },
            None => {
                assert forall|j: int| 0 <= j < list.len() - 1 implies (#[trigger] list[j]).0
                    != name by {
                    assert(list.drop_last()[j] == list[j]);
                }
            },
        }
    }
}

/// `IndexMap::new`: a map that holds nothing.
#[verifier::external_body]
pub(crate) fn attributes_new() -> (attributes: IndexMap<String, Attribute>)
    ensures
        entries(attributes) == Seq::<(Seq<char>, AttributeModel)>::empty(),
{
    IndexMap::new()
}

/// `IndexMap::insert`: where the key is in the map already, it keeps its
/// place and gets the new value; where it is not, the pair comes last.
#[verifier::external_body]
pub(crate) fn attributes_insert(
    attributes: &mut IndexMap<String, Attribute>,
    name: String,
    attribute: Attribute,
)
    ensures
        entries(*final(attributes)) == upsert(entries(*old(attributes)), name@, attribute@),
{
    attributes.insert(name, attribute);
}

/// `IndexMap::get`: the value stored for the key, if the key is in the map.
#[verifier::external_body]
pub(crate) fn attributes_get<'a>(
    attributes: &'a IndexMap<String, Attribute>,
    name: &str,
) -> (found: Option<&'a Attribute>)
    ensures
        match lookup(entries(*attributes), name@) {
            Some(attribute) => found matches Some(a) && a@ == attribute,
            None => found is None,
        },
{
    attributes.get(name)
}

/// `IndexMap::iter`, collected: the pairs of the map in their order. No key
/// stands in a map twice.
#[verifier::external_body]
pub(crate) fn attributes_list<'a>(attributes: &'a IndexMap<String, Attribute>) -> (pairs: Vec<
    (&'a String, &'a Attribute),
>)
    ensures
        pairs.len() == entries(*attributes).len(),
        forall|i: int|
            0 <= i < pairs.len() ==> (#[trigger] pairs[i]).0@ == entries(*attributes)[i].0
                && pairs[i].1@ == entries(*attributes)[i].1,
        forall|i: int, j: int| 0 <= i < j < pairs.len() ==> pairs[i].0@ != pairs[j].0@,
{
    attributes.iter().collect()
}

/// `IndexMap::iter_mut`, collected: the pairs of the map in their order,
/// each value to be changed in place. The map keeps its keys and their
/// order, and holds in the end what the values were changed to.
#[verifier::external_body]
pub(crate) fn attributes_list_mut<'a>(
    attributes: &'a mut IndexMap<String, Attribute>,
) -> (pairs: Vec<(&'a String, &'a mut Attribute)>)
    ensures
        pairs.len() == entries(*old(attributes)).len(),
        forall|i: int|
            0 <= i < pairs.len() ==> (#[trigger] pairs[i]).0@ == entries(*old(attributes))[i].0 && (
            *pairs[i].1)@ == entries(*old(attributes))[i].1,
        entries(*final(attributes)).len() == pairs.len(),
        forall|i: int|
            0 <= i < pairs.len() ==> entries(*final(attributes))[i] == ((#[trigger] pairs[i]).0@, (
            *final(pairs[i].1))@),
{
    attributes.iter_mut().collect()
}

/// `IndexMap::clone`: a map with copies of the same pairs in the same
/// order.
#[verifier::external_body]
pub(crate) fn attributes_clone(attributes: &IndexMap<String, Attribute>) -> (copy: IndexMap<
    String,
    Attribute,
>)
    ensures
        entries(copy) == entries(*attributes),
{
    attributes.clone()
}

/// A block with its attributes and the blocks nested in it.
#[derive(Debug, PartialEq)]
pub struct Group {
    /// The kind of block, such as `cell` or `pin`.
    pub type_: String,
    pub name: String,
    pub attributes: IndexMap<String, Attribute>,
    pub subgroups: Vec<Group>,
}

/// A `Group` as a mathematical value.
pub struct GroupModel {
    pub kind: Seq<char>,
    pub name: Seq<char>,
    pub attributes: Entries,
    pub subgroups: Seq<GroupModel>,
}

impl Group {
    /// The block as a mathematical value.
    pub open spec fn model(self) -> GroupModel
        decreases self,
    {
        GroupModel {
            kind: self.type_@,
            name: self.name@,
            attributes: entries(self.attributes),
            subgroups: Seq::new(
                self.subgroups@.len(),
                |i: int|
                    if 0 <= i < self.subgroups@.len() {
                        self.subgroups@[i].model()
                    } else {
                        arbitrary()
                    },
            ),
        }
    }
}

impl View for Group {
    type V = GroupModel;

    open spec fn view(&self) -> GroupModel {
        self.model()
    }
}

impl Clone for Group {
    fn clone(&self) -> (copy: Self)
        ensures
            copy@ == self@,
    {
        self.duplicate()
    }
}

/// The views of `groups`, in order.
pub open spec fn group_models(groups: Seq<Group>) -> Seq<GroupModel> {
    Seq::new(groups.len(), |i: int| groups[i]@)
}

/// The view of a block holds the views of the blocks nested in it.
pub proof fn lemma_subgroup_views(group: Group)
    ensures
        group@.subgroups == group_models(group.subgroups@),
{
    assert(group@.subgroups =~= group_models(group.subgroups@));
}

impl Group {
    /// A copy of the block and of everything in it.
    pub fn duplicate(&self) -> (copy: Self)
        ensures
            copy@ == self@,
        decreases self,
    {
        let mut subgroups: Vec<Group> = Vec::new();
        let mut i: usize = 0;
        while i < self.subgroups.len()
            invariant
                i <= self.subgroups.len(),
                subgroups.len() == i,
                forall|j: int| 0 <= j < i ==> (#[trigger] subgroups[j])@ == self.subgroups[j]@,
            decreases self.subgroups.len() - i,
        {
            subgroups.push(self.subgroups[i].duplicate());
            i += 1;
        }
        let copy = Group {
            type_: self.type_.clone(),
            name: self.name.clone(),
            attributes: attributes_clone(&self.attributes),
            subgroups,
        };
        proof {
            lemma_subgroup_views(copy);
            lemma_subgroup_views(*self);
            assert(group_models(copy.subgroups@) =~= group_models(self.subgroups@));
        }
        copy
    }

    /// A block without attributes and without nested blocks.
    pub fn new(type_: &str, name: &str) -> (group: Self)
        ensures
            group@ == (GroupModel {
                kind: type_@,
                name: name@,
                attributes: Seq::empty(),
                subgroups: Seq::empty(),
            }),
    {
        let group = Group {
            type_: String::from_str(type_),
            name: String::from_str(name),
            attributes: attributes_new(),
            subgroups: Vec::new(),
        };
        proof {
            lemma_subgroup_views(group);
            assert(group@.subgroups =~= Seq::empty());
        }
        group
    }

    /// The list of values under `name`; nothing where the name is not there
    /// or holds a single value.
    pub fn complex_attribute(&self, name: &str) -> (found: Option<&Vec<Value>>)
        ensures
            match lookup(self@.attributes, name@) {
                Some(AttributeModel::Complex(values)) => found matches Some(v) && value_models(v@)
                    == values,
                _ => found is None,
            },
    {
        match attributes_get(&self.attributes, name) {
            Some(Attribute::Complex(values)) => Some(values),
            _ => None,
        }
    }

    /// The value under `name`; nothing where the name is not there or holds
    /// a list of values.
    pub fn simple_attribute(&self, name: &str) -> (found: Option<&Value>)
        ensures
            match lookup(self@.attributes, name@) {
                Some(AttributeModel::Simple(value)) => found matches Some(v) && v@ == value,
                _ => found is None,
            },
    {
        match attributes_get(&self.attributes, name) {
            Some(Attribute::Simple(value)) => Some(value),
            _ => None,
        }
    }
}

/// The attributes of a block whose body holds `items`: every attribute
/// is put under its name, in the order of the body, so that of two
/// attributes with one name the later one gives the value and the earlier
/// one the place.
pub open spec fn attributes_of(items: Seq<ItemModel>) -> Entries
    decreases items.len(),
{
    if items.len() == 0 {
        Seq::empty()
    } else {
        let rest = attributes_of(items.drop_last());
        match items.last() {
            ItemModel::SimpleAttr(name, value) => upsert(rest, name, AttributeModel::Simple(value)),
            ItemModel::ComplexAttr(name, values) => upsert(
                rest,
                name,
                AttributeModel::Complex(values),
            ),
            _ => rest,
        }
    }
}

/// The structured form of a block; comments are left out.
pub open spec fn built(item: ItemModel) -> GroupModel
    decreases item,
{
    match item {
        ItemModel::Group(kind, name, items) => GroupModel {
            kind,
            name,
            attributes: attributes_of(items),
            subgroups: subgroups_of(items),
        },
        _ => arbitrary(),
    }
}

/// The structured forms of the blocks among `items`, in order.
pub open spec fn subgroups_of(items: Seq<ItemModel>) -> Seq<GroupModel>
    decreases items,
{
    if items.len() == 0 {
        Seq::empty()
    } else {
        let rest = subgroups_of(items.drop_last());
        if items.last() is Group {
            rest.push(built(items.last()))
        } else {
            rest
        }
    }
}

/// The attributes of `list` as items, in order.
pub open spec fn attribute_items(list: Entries) -> Seq<ItemModel> {
    Seq::new(
        list.len(),
        |i: int|
            match list[i].1 {
                AttributeModel::Simple(value) => ItemModel::SimpleAttr(list[i].0, value),
                AttributeModel::Complex(values) => ItemModel::ComplexAttr(list[i].0, values),
            },
    )
}

/// The raw form of a block: its attributes in the order of the map, then
/// its nested blocks.
pub open spec fn unbuilt(group: GroupModel) -> ItemModel
    decreases group,
{
    ItemModel::Group(
        group.kind,
        group.name,
        attribute_items(group.attributes) + unbuilt_all(group.subgroups),
    )
}

/// The raw forms of `groups`, in order.
pub open spec fn unbuilt_all(groups: Seq<GroupModel>) -> Seq<ItemModel>
    decreases groups,
{
    if groups.len() == 0 {
        Seq::empty()
    } else {
        unbuilt_all(groups.drop_last()).push(unbuilt(groups.last()))
    }
}

/// `unbuilt_all` holds, at each place, the raw form of the block at that
/// place.
pub proof fn lemma_unbuilt_all(groups: Seq<GroupModel>)
    ensures
        unbuilt_all(groups).len() == groups.len(),
        forall|i: int|
            0 <= i < groups.len() ==> #[trigger] unbuilt_all(groups)[i] == unbuilt(groups[i]),
    decreases groups.len(),
{
    if groups.len() > 0 {
        lemma_unbuilt_all(groups.drop_last());
    }
}

impl Group {
    /// The structured form of the block `item`.
    pub(crate) fn from_item(item: &GroupItem) -> (group: Group)
        requires
            item is Group,
        ensures
            group@ == built(item@),
        decreases item,
    {
        match item {
            GroupItem::Group(kind, name, items) => {
                let ghost models = item_models(items@);
                let mut attributes = attributes_new();
                let mut subgroups: Vec<Group> = Vec::new();
                let mut i: usize = 0;
                proof {
                    lemma_group_view(*item);
                    assert(models.take(0) =~= Seq::empty());
                    assert(group_models(subgroups@) =~= Seq::empty());
                }
                while i < items.len()
                    invariant
                        i <= items.len(),
                        item is Group,
                        *items == item->Group_2,
                        models == item_models(items@),
                        entries(attributes) == attributes_of(models.take(i as int)),
                        group_models(subgroups@) == subgroups_of(models.take(i as int)),
                    decreases items.len() - i,
                {
                    proof {
                        assert(models.take(i + 1).drop_last() =~= models.take(i as int));
                        assert(models.take(i + 1).last() == items[i as int]@);
                    }
                    match &items[i] {
                        GroupItem::SimpleAttr(name, value) => {
                            attributes_insert(
                                &mut attributes,
                                name.clone(),
                                Attribute::Simple(value.clone()),
                            );
                        },
                        GroupItem::ComplexAttr(name, values) => {
                            attributes_insert(
                                &mut attributes,
                                name.clone(),
                                Attribute::Complex(clone_values(values)),
                            );
                        },
                        GroupItem::Group(_, _, _) => {
                            let group = Group::from_item(&items[i]);
                            proof {
                                assert(group_models(subgroups@.push(group)) =~= group_models(
                                    subgroups@,
                                ).push(group@));
                            }
                            subgroups.push(group);
                        },
                        GroupItem::Comment(_) => {},
                    }
                    i += 1;
                }
                let group = Group {
                    type_: kind.clone(),
                    name: name.clone(),
                    attributes,
                    subgroups,
                };
                proof {
                    assert(models.take(items.len() as int) =~= models);
                    lemma_subgroup_views(group);
                }
                group
            },
            _ => vstd::pervasive::unreached(),
        }
    }

    /// The structured form of a block of the raw tree. Its attributes go
    /// into the map in the order of the body: a name that comes again keeps
    /// its place and takes the later value. Nested blocks are converted in
    /// turn and keep their order; comments are dropped.
    pub fn from_group_item(group_item: GroupItem) -> (group: Self)
        requires
            group_item is Group,
        ensures
            group@ == built(group_item@),
    {
        Group::from_item(&group_item)
    }

    /// The raw form of the block.
    pub fn to_group_item(&self) -> (item: GroupItem)
        ensures
            item@ == unbuilt(self@),
        decreases self,
    {
        let pairs = attributes_list(&self.attributes);
        let ghost list = entries(self.attributes);
        let ghost groups = group_models(self.subgroups@);
        let mut items: Vec<GroupItem> = Vec::new();
        let mut i: usize = 0;
        while i < pairs.len()
            invariant
                i <= pairs.len(),
                pairs.len() == list.len(),
                forall|k: int|
                    0 <= k < pairs.len() ==> (#[trigger] pairs[k]).0@ == list[k].0 && pairs[k].1@
                        == list[k].1,
                items.len() == i,
                forall|k: int| 0 <= k < i ==> (#[trigger] items[k])@ == attribute_items(list)[k],
            decreases pairs.len() - i,
        {
            let (name, attribute) = pairs[i];
            let item = match attribute {
                Attribute::Simple(value) => GroupItem::SimpleAttr(name.clone(), value.clone()),
                Attribute::Complex(values) => GroupItem::ComplexAttr(
                    name.clone(),
                    clone_values(values),
                ),
            };
            items.push(item);
            i += 1;
        }
        let mut j: usize = 0;
        proof {
            lemma_unbuilt_all(groups);
        }
        while j < self.subgroups.len()
            invariant
                j <= self.subgroups.len(),
                groups == group_models(self.subgroups@),
                items.len() == list.len() + j,
                forall|k: int|
                    0 <= k < list.len() ==> (#[trigger] items[k])@ == attribute_items(list)[k],
                forall|k: int|
                    0 <= k < j ==> (#[trigger] items[list.len() + k])@ == unbuilt(groups[k]),
            decreases self.subgroups.len() - j,
        {
            let ghost before = items@;
            items.push(self.subgroups[j].to_group_item());
            proof {
                assert forall|k: int| 0 <= k < list.len() implies (#[trigger] items[k])@
                    == attribute_items(list)[k] by {
                    assert(items[k] == before[k]);
                }
                assert forall|k: int| 0 <= k < j + 1 implies (#[trigger] items[list.len() + k])@
                    == unbuilt(groups[k]) by {
                    if k < j {
                        assert(items[list.len() + k] == before[list.len() + k]);
                    }
                }
            }
            j += 1;
        }
        let item = GroupItem::Group(self.type_.clone(), self.name.clone(), items);
        proof {
            lemma_group_view(item);
            lemma_subgroup_views(*self);
            lemma_unbuilt_all(groups);
            let whole = attribute_items(list) + unbuilt_all(groups);
            assert(whole.len() == items.len());
            assert forall|k: int| 0 <= k < items.len() implies item_models(items@)[k]
                == whole[k] by {
                if k >= list.len() {
                    assert(items[list.len() + (k - list.len())]@ == unbuilt(
                        groups[k - list.len()],
                    ));
                }
            }
            assert(item_models(items@) =~= whole);
        }
        item
    }

    /// The raw form of the block: its attributes in the order of the map,
    /// then its nested blocks in their order.
    pub fn into_group_item(self) -> (item: GroupItem)
        ensures
            item@ == unbuilt(self@),
    {
        self.to_group_item()
    }
}

/// The structured forms of `items`, in order.
pub open spec fn built_all(items: Seq<ItemModel>) -> Seq<GroupModel> {
    Seq::new(items.len(), |i: int| built(items[i]))
}

/// A Liberty file in structured form: its `library` blocks, in order.
#[derive(Debug, PartialEq)]
pub struct Liberty(pub Vec<Group>);

impl View for Liberty {
    type V = Seq<GroupModel>;

    open spec fn view(&self) -> Seq<GroupModel> {
        group_models(self.0@)
    }
}

impl Clone for Liberty {
    fn clone(&self) -> (copy: Self)
        ensures
            copy@ == self@,
    {
        let mut groups: Vec<Group> = Vec::new();
        let mut i: usize = 0;
        while i < self.0.len()
            invariant
                i <= self.0.len(),
                groups.len() == i,
                forall|j: int| 0 <= j < i ==> (#[trigger] groups[j])@ == self.0[j]@,
            decreases self.0.len() - i,
        {
            groups.push(self.0[i].clone());
            i += 1;
        }
        assert(group_models(groups@) =~= group_models(self.0@));
        Liberty(groups)
    }
}

impl Liberty {
    /// The raw tree of the file, without comments: every block with its
    /// attributes first and its nested blocks after them.
    pub fn to_ast(self) -> (ast: LibertyAst)
        ensures
            ast@ == unbuilt_all(self@),
    {
        let mut items: Vec<GroupItem> = Vec::new();
        let mut i: usize = 0;
        while i < self.0.len()
            invariant
                i <= self.0.len(),
                items.len() == i,
                forall|j: int| 0 <= j < i ==> (#[trigger] items[j])@ == unbuilt(self.0[j]@),
            decreases self.0.len() - i,
        {
            items.push(self.0[i].to_group_item());
            i += 1;
        }
        proof {
            lemma_unbuilt_all(self@);
            assert(item_models(items@) =~= unbuilt_all(self@));
        }
        LibertyAst(items)
    }

    /// The structured form of a raw tree that holds blocks only.
    pub fn from_ast(ast: LibertyAst) -> (liberty: Self)
        requires
            all_blocks(ast@),
        ensures
            liberty@ == built_all(ast@),
    {
        let mut groups: Vec<Group> = Vec::new();
        let mut i: usize = 0;
        while i < ast.0.len()
            invariant
                i <= ast.0.len(),
                all_blocks(ast@),
                groups.len() == i,
                forall|j: int| 0 <= j < i ==> (#[trigger] groups[j])@ == built(ast.0[j]@),
            decreases ast.0.len() - i,
        {
            assert(ast@[i as int] is Group);
            groups.push(Group::from_item(&ast.0[i]));
            i += 1;
        }
        assert(group_models(groups@) =~= built_all(ast@));
        Liberty(groups)
    }

    /// The file as Liberty text.
    pub fn to_string(&self) -> (text: String)
        ensures
            text@ == items_text(unbuilt_all(self@), 0),
    {
        self.clone().to_ast().to_string()
    }
}

impl std::ops::Deref for Liberty {
    type Target = [Group];

    fn deref(&self) -> (groups: &[Group])
        ensures
            groups@ == self.0@,
    {
        self.0.as_slice()
    }
}

impl std::ops::DerefMut for Liberty {
    fn deref_mut(&mut self) -> (groups: &mut [Group])
        ensures
            groups@ == old(self).0@,
            final(self).0@ == final(groups)@,
    {
        self.0.as_mut_slice()
    }
}

impl IntoIterator for Liberty {
    type Item = Group;

    type IntoIter = std::vec::IntoIter<Group>;

    fn into_iter(self) -> (blocks: std::vec::IntoIter<Group>)
        ensures
            vstd::std_specs::vec::into_iter_elts(blocks) == self.0@,
    {
        self.0.into_iter()
    }
}

} // verus!
