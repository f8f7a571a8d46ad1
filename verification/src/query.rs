//! Looking things up in a block and walking through what it holds.

use crate::ast::{value_models, Value, ValueModel};
use crate::liberty::{
    attributes_list, attributes_list_mut, entries, Attribute, AttributeModel, Entries, Group,
};
use vstd::prelude::*;

verus! {

/// The names of `list` that hold a single value, each with that value, in
/// order.
pub open spec fn simple_entries(list: Entries) -> Seq<(Seq<char>, ValueModel)>
    decreases list.len(),
{
    if list.len() == 0 {
        Seq::empty()
    } else {
        let rest = simple_entries(list.drop_last());
        match list.last().1 {
            AttributeModel::Simple(value) => rest.push((list.last().0, value)),
            AttributeModel::Complex(_) => rest,
        }
    }
}

/// The names of `list` that hold a list of values, each with that list, in
/// order.
pub open spec fn complex_entries(list: Entries) -> Seq<(Seq<char>, Seq<ValueModel>)>
    decreases list.len(),
{
    if list.len() == 0 {
        Seq::empty()
    } else {
        let rest = complex_entries(list.drop_last());
        match list.last().1 {
            AttributeModel::Simple(_) => rest,
            AttributeModel::Complex(values) => rest.push((list.last().0, values)),
        }
    }
}

/// The blocks of `groups` whose kind is `kind`, in order.
pub open spec fn of_kind(groups: Seq<Group>, kind: Seq<char>) -> Seq<Group>
    decreases groups.len(),
{
    if groups.len() == 0 {
        Seq::empty()
    } else {
        let rest = of_kind(groups.drop_last(), kind);
        if groups.last().type_@ == kind {
            rest.push(groups.last())
        } else {
            rest
        }
    }
}

/// The first place in `groups` of a block of kind `kind` named `name`.
pub open spec fn find_named(groups: Seq<Group>, kind: Seq<char>, name: Seq<char>) -> Option<int>
    decreases groups.len(),
{
    if groups.len() == 0 {
        None
    } else {
        match find_named(groups.drop_last(), kind, name) {
            Some(i) => Some(i),
            None => if groups.last().type_@ == kind && groups.last().name@ == name {
                Some(groups.len() - 1)
            } else {
                None
            },
        }
    }
}

/// `find_named` yields the first block of that kind and name in document
/// order, and nothing only where there is none. Blocks of the same kind and
/// name that come later are never found by name.
pub proof fn lemma_find_named(groups: Seq<Group>, kind: Seq<char>, name: Seq<char>)
    ensures
        match find_named(groups, kind, name) {
            Some(i) => 0 <= i < groups.len() && groups[i].type_@ == kind && groups[i].name@ == name
                && forall|j: int|
                0 <= j < i ==> !((#[trigger] groups[j]).type_@ == kind && groups[j].name@ == name),
            None => forall|j: int|
                0 <= j < groups.len() ==> !((#[trigger] groups[j]).type_@ == kind && groups[j].name@
                    == name),
        },
    decreases groups.len(),
{
    if groups.len() > 0 {
        lemma_find_named(groups.drop_last(), kind, name);
        match find_named(groups.drop_last(), kind, name) {
            Some(i) => {
                assert(groups.drop_last()[i] == groups[i]);
                assert forall|j: int| 0 <= j < i implies !((#[trigger] groups[j]).type_@ == kind
                    && groups[j].name@ == name) by {
                    assert(groups.drop_last()[j] == groups[j]);
                }
            },
            None => {
                assert forall|j: int| 0 <= j < groups.len() - 1 implies !((
                #[trigger] groups[j]).type_@ == kind && groups[j].name@ == name) by {
                    assert(groups.drop_last()[j] == groups[j]);
                }
            },
        }
    }
}

impl Group {
    /// The attributes that hold a list of values, each with its name, in
    /// the order of the map.
    pub fn iter_complex_attributes(&self) -> (found: Vec<(&String, &Vec<Value>)>)
        ensures
            found.len() == complex_entries(self@.attributes).len(),
            forall|i: int|
                0 <= i < found.len() ==> (#[trigger] found[i]).0@ == complex_entries(
                    self@.attributes,
                )[i].0 && value_models(found[i].1@) == complex_entries(self@.attributes)[i].1,
    {
        let pairs = attributes_list(&self.attributes);
        let ghost list = entries(self.attributes);
        let mut found: Vec<(&String, &Vec<Value>)> = Vec::new();
        let mut i: usize = 0;
        proof {
            assert(list.take(0) =~= Seq::empty());
        }
        while i < pairs.len()
            invariant
                i <= pairs.len(),
                pairs.len() == list.len(),
                forall|k: int|
                    0 <= k < pairs.len() ==> (#[trigger] pairs[k]).0@ == list[k].0 && pairs[k].1@
                        == list[k].1,
                found.len() == complex_entries(list.take(i as int)).len(),
                forall|k: int|
                    0 <= k < found.len() ==> (#[trigger] found[k]).0@ == complex_entries(
                        list.take(i as int),
                    )[k].0 && value_models(found[k].1@) == complex_entries(
                        list.take(i as int),
                    )[k].1,
            decreases pairs.len() - i,
        {
            proof {
                assert(list.take(i + 1).drop_last() =~= list.take(i as int));
            }
            let (name, attribute) = pairs[i];
            match attribute {
                Attribute::Complex(values) => {
                    found.push((name, values));
                },
                Attribute::Simple(_) => {},
            }
            i += 1;
        }
        proof {
            assert(list.take(pairs.len() as int) =~= list);
        }
        found
    }

    /// The attributes that hold a single value, each with its name, in the
    /// order of the map.
    pub fn iter_simple_attributes(&self) -> (found: Vec<(&String, &Value)>)
        ensures
            found.len() == simple_entries(self@.attributes).len(),
            forall|i: int|
                0 <= i < found.len() ==> (#[trigger] found[i]).0@ == simple_entries(
                    self@.attributes,
                )[i].0 && found[i].1@ == simple_entries(self@.attributes)[i].1,
    {
        let pairs = attributes_list(&self.attributes);
        let ghost list = entries(self.attributes);
        let mut found: Vec<(&String, &Value)> = Vec::new();
        let mut i: usize = 0;
        proof {
            assert(list.take(0) =~= Seq::empty());
        }
        while i < pairs.len()
            invariant
                i <= pairs.len(),
                pairs.len() == list.len(),
                forall|k: int|
                    0 <= k < pairs.len() ==> (#[trigger] pairs[k]).0@ == list[k].0 && pairs[k].1@
                        == list[k].1,
                found.len() == simple_entries(list.take(i as int)).len(),
                forall|k: int|
                    0 <= k < found.len() ==> (#[trigger] found[k]).0@ == simple_entries(
                        list.take(i as int),
                    )[k].0 && found[k].1@ == simple_entries(list.take(i as int))[k].1,
            decreases pairs.len() - i,
        {
            proof {
                assert(list.take(i + 1).drop_last() =~= list.take(i as int));
            }
            let (name, attribute) = pairs[i];
            match attribute {
                Attribute::Simple(value) => {
                    found.push((name, value));
                },
                Attribute::Complex(_) => {},
            }
            i += 1;
        }
        proof {
            assert(list.take(pairs.len() as int) =~= list);
        }
        found
    }

    /// The nested blocks whose kind is `type_`, in document order.
    pub fn iter_subgroups_of_type<'a>(&'a self, type_: &str) -> (found: Vec<&'a Group>)
        ensures
            found.len() == of_kind(self.subgroups@, type_@).len(),
            forall|i: int|
                0 <= i < found.len() ==> *(#[trigger] found[i]) == of_kind(
                    self.subgroups@,
                    type_@,
                )[i],
    {
        let mut found: Vec<&Group> = Vec::new();
        let mut i: usize = 0;
        proof {
            assert(self.subgroups@.take(0) =~= Seq::empty());
        }
        while i < self.subgroups.len()
            invariant
                i <= self.subgroups.len(),
                found.len() == of_kind(self.subgroups@.take(i as int), type_@).len(),
                forall|k: int|
                    0 <= k < found.len() ==> *(#[trigger] found[k]) == of_kind(
                        self.subgroups@.take(i as int),
                        type_@,
                    )[k],
            decreases self.subgroups.len() - i,
        {
            proof {
                assert(self.subgroups@.take(i + 1).drop_last() =~= self.subgroups@.take(i as int));
            }
            if self.subgroups[i].type_.as_str().eq(type_) {
                found.push(&self.subgroups[i]);
            }
            i += 1;
        }
        proof {
            assert(self.subgroups@.take(self.subgroups.len() as int) =~= self.subgroups@);
        }
        found
    }

    /// All the nested blocks, in document order.
    pub fn iter_subgroups(&self) -> (found: Vec<&Group>)
        ensures
            found.len() == self.subgroups.len(),
            forall|i: int| 0 <= i < found.len() ==> *(#[trigger] found[i]) == self.subgroups[i],
    {
        let mut found: Vec<&Group> = Vec::new();
        let mut i: usize = 0;
        while i < self.subgroups.len()
            invariant
                i <= self.subgroups.len(),
                found.len() == i,
                forall|k: int| 0 <= k < i ==> *(#[trigger] found[k]) == self.subgroups[k],
            decreases self.subgroups.len() - i,
        {
            found.push(&self.subgroups[i]);
            i += 1;
        }
        found
    }

    /// The place of the first nested block of kind `kind` named `name`.
    pub fn find_subgroup(&self, kind: &str, name: &str) -> (found: Option<usize>)
        ensures
            match find_named(self.subgroups@, kind@, name@) {
                Some(i) => found matches Some(k) && k as int == i && i < self.subgroups.len(),
                None => found is None,
            },
    {
        let mut i: usize = 0;
        while i < self.subgroups.len()
            invariant
                i <= self.subgroups.len(),
                forall|j: int|
                    0 <= j < i ==> !((#[trigger] self.subgroups[j]).type_@ == kind@
                        && self.subgroups[j].name@ == name@),
            decreases self.subgroups.len() - i,
        {
            if self.subgroups[i].type_.as_str().eq(kind) && self.subgroups[i].name.as_str().eq(
                name,
            ) {
                proof {
                    lemma_find_named(self.subgroups@, kind@, name@);
                }
                return Some(i);
            }
            i += 1;
        }
        proof {
            lemma_find_named(self.subgroups@, kind@, name@);
        }
        None
    }

    /// The first nested `cell` block named `name`, in document order.
    pub fn get_cell(&self, name: &str) -> (found: Option<&Group>)
        ensures
            match find_named(self.subgroups@, "cell"@, name@) {
                Some(i) => found matches Some(g) && *g == self.subgroups[i],
                None => found is None,
            },
    {
        match self.find_subgroup("cell", name) {
            Some(i) => Some(&self.subgroups[i]),
            None => None,
        }
    }

    /// The first nested `cell` block named `name`, to be changed in place.
    pub fn get_cell_mut(&mut self, name: &str) -> (found: Option<&mut Group>)
        ensures
            match find_named(old(self).subgroups@, "cell"@, name@) {
                Some(i) => found matches Some(g) && *g == old(self).subgroups[i]
                    && final(self).subgroups@ == old(self).subgroups@.update(i, *final(g)),
                None => found is None && final(self).subgroups@ == old(self).subgroups@,
            },
            final(self).type_ == old(self).type_,
            final(self).name == old(self).name,
            final(self).attributes == old(self).attributes,
    {
        match self.find_subgroup("cell", name) {
            Some(i) => Some(&mut self.subgroups[i]),
            None => None,
        }
    }

    /// The first nested `pin` block named `name`, in document order.
    pub fn get_pin(&self, name: &str) -> (found: Option<&Group>)
        ensures
            match find_named(self.subgroups@, "pin"@, name@) {
                Some(i) => found matches Some(g) && *g == self.subgroups[i],
                None => found is None,
            },
    {
        match self.find_subgroup("pin", name) {
            Some(i) => Some(&self.subgroups[i]),
            None => None,
        }
    }

    /// The first nested `pin` block named `name`, to be changed in place.
    pub fn get_pin_mut(&mut self, name: &str) -> (found: Option<&mut Group>)
        ensures
            match find_named(old(self).subgroups@, "pin"@, name@) {
                Some(i) => found matches Some(g) && *g == old(self).subgroups[i]
                    && final(self).subgroups@ == old(self).subgroups@.update(i, *final(g)),
                None => found is None && final(self).subgroups@ == old(self).subgroups@,
            },
            final(self).type_ == old(self).type_,
            final(self).name == old(self).name,
            final(self).attributes == old(self).attributes,
    {
        match self.find_subgroup("pin", name) {
            Some(i) => Some(&mut self.subgroups[i]),
            None => None,
        }
    }

    /// The nested `cell` blocks, in document order.
    pub fn iter_cells(&self) -> (found: Vec<&Group>)
        ensures
            found.len() == of_kind(self.subgroups@, "cell"@).len(),
            forall|i: int|
                0 <= i < found.len() ==> *(#[trigger] found[i]) == of_kind(
                    self.subgroups@,
                    "cell"@,
                )[i],
    {
        self.iter_subgroups_of_type("cell")
    }

    /// The nested `pin` blocks, in document order.
    pub fn iter_pins(&self) -> (found: Vec<&Group>)
        ensures
            found.len() == of_kind(self.subgroups@, "pin"@).len(),
            forall|i: int|
                0 <= i < found.len() ==> *(#[trigger] found[i]) == of_kind(
                    self.subgroups@,
                    "pin"@,
                )[i],
    {
        self.iter_subgroups_of_type("pin")
    }
}

impl Group {
    /// All the nested blocks, in document order, to be changed in place.
    pub fn iter_subgroups_mut(&mut self) -> (found: Vec<&mut Group>)
        ensures
            found.len() == old(self).subgroups.len(),
            forall|i: int|
                0 <= i < found.len() ==> *(#[trigger] found[i]) == old(self).subgroups[i],
            final(self).subgroups.len() == found.len(),
            forall|i: int|
                0 <= i < found.len() ==> final(self).subgroups[i] == *final(#[trigger] found[i]),
            final(self).type_ == old(self).type_,
            final(self).name == old(self).name,
            final(self).attributes == old(self).attributes,
    {
        let ghost before = self.subgroups@;
        let slice = self.subgroups.as_mut_slice();
        let ghost after = final(slice)@;
        let mut rest: &mut [Group] = slice;
        let mut found: Vec<&mut Group> = Vec::new();
        while rest.len() > 0
            invariant
                found.len() + rest@.len() == before.len(),
                rest@ == before.subrange(found.len() as int, before.len() as int),
                forall|i: int| 0 <= i < found.len() ==> *(#[trigger] found[i]) == before[i],
                after.len() == found.len() + final(rest)@.len(),
                forall|i: int| 0 <= i < found.len() ==> after[i] == *final(#[trigger] found[i]),
                forall|i: int|
                    0 <= i < final(rest)@.len() ==> after[found.len() + i] == final(rest)@[i],
            decreases rest.len(),
        {
            let ghost taken = found@;
            let ghost rest_after = final(rest)@;
            let whole = rest;
            let (head, tail) = whole.split_at_mut(1);
            let ghost head_after = final(head)@;
            let ghost tail_after = final(tail)@;
            let first = &mut head[0];
            proof {
                assert(rest_after =~= head_after + tail_after);
                assert(head_after.len() == 1);
                assert(rest_after[0] == *final(first));
                assert forall|i: int| 0 <= i < tail_after.len() implies rest_after[1 + i]
                    == tail_after[i] by {}
                assert(tail@ =~= before.subrange(taken.len() as int + 1, before.len() as int));
            }
            rest = tail;
            found.push(first);
            proof {
                assert forall|i: int| 0 <= i < found.len() implies after[i] == *final(
                    #[trigger] found[i]
                ) by {
                    if i < taken.len() {
                        assert(found[i] == taken[i]);
                    } else {
                        assert(after[taken.len() as int + 0] == rest_after[0]);
                    }
                }
                assert forall|i: int| 0 <= i < final(rest)@.len() implies after[found.len() + i]
                    == final(rest)@[i] by {
                    assert(after[taken.len() as int + (1 + i)] == rest_after[1 + i]);
                }
            }
        }
        found
    }
}

/// The places in `groups` of the blocks whose kind is `kind`, in order.
pub open spec fn places_of_kind(groups: Seq<Group>, kind: Seq<char>) -> Seq<int>
    decreases groups.len(),
{
    if groups.len() == 0 {
        Seq::empty()
    } else {
        let rest = places_of_kind(groups.drop_last(), kind);
        if groups.last().type_@ == kind {
            rest.push(groups.len() - 1)
        } else {
            rest
        }
    }
}

/// The places of a kind lie inside the sequence, and the blocks at those
/// places are the blocks of that kind.
pub proof fn lemma_places_of_kind(groups: Seq<Group>, kind: Seq<char>)
    ensures
        places_of_kind(groups, kind).len() == of_kind(groups, kind).len(),
        forall|k: int|
            0 <= k < places_of_kind(groups, kind).len() ==> 0 <= (#[trigger] places_of_kind(
                groups,
                kind,
            )[k]) < groups.len() && groups[places_of_kind(groups, kind)[k]] == of_kind(
                groups,
                kind,
            )[k],
    decreases groups.len(),
{
    if groups.len() > 0 {
        lemma_places_of_kind(groups.drop_last(), kind);
        let rest = places_of_kind(groups.drop_last(), kind);
        assert forall|k: int| 0 <= k < places_of_kind(groups, kind).len() implies 0 <= (
        #[trigger] places_of_kind(groups, kind)[k]) < groups.len() && groups[places_of_kind(
            groups,
            kind,
        )[k]] == of_kind(groups, kind)[k] by {
            if k < rest.len() {
                assert(groups.drop_last()[rest[k]] == groups[rest[k]]);
            }
        }
    }
}

impl Group {
    /// The nested blocks whose kind is `type_`, in document order, to be
    /// changed in place. The other nested blocks stay as they are.
    pub fn iter_subgroups_of_type_mut<'a>(&'a mut self, type_: &str) -> (found: Vec<&'a mut Group>)
        ensures
            found.len() == places_of_kind(old(self).subgroups@, type_@).len(),
            forall|k: int|
                0 <= k < found.len() ==> *(#[trigger] found[k])
                    == old(self).subgroups[places_of_kind(
                    old(self).subgroups@,
                    type_@,
                )[k]],
            final(self).subgroups.len() == old(self).subgroups.len(),
            forall|k: int|
                0 <= k < found.len() ==> final(self).subgroups[places_of_kind(
                    old(self).subgroups@,
                    type_@,
                )[k]] == *final(#[trigger] found[k]),
            forall|i: int|
                0 <= i < old(self).subgroups.len() && old(self).subgroups[i].type_@ != type_@
                    ==> final(self).subgroups[i] == old(self).subgroups[i],
            final(self).type_ == old(self).type_,
            final(self).name == old(self).name,
            final(self).attributes == old(self).attributes,
    {
        let ghost before = self.subgroups@;
        let slice = self.subgroups.as_mut_slice();
        let ghost after = final(slice)@;
        let mut rest: &mut [Group] = slice;
        let mut found: Vec<&mut Group> = Vec::new();
        let ghost mut seen: int = 0;
        proof {
            assert(before.take(0) =~= Seq::empty());
        }
        while rest.len() > 0
            invariant
                0 <= seen <= before.len(),
                seen + rest@.len() == before.len(),
                rest@ == before.subrange(seen, before.len() as int),
                after.len() == seen + final(rest)@.len(),
                found.len() == places_of_kind(before.take(seen), type_@).len(),
                forall|k: int|
                    0 <= k < found.len() ==> 0 <= (#[trigger] places_of_kind(
                        before.take(seen),
                        type_@,
                    )[k]) < seen,
                forall|k: int|
                    0 <= k < found.len() ==> *(#[trigger] found[k]) == before[places_of_kind(
                        before.take(seen),
                        type_@,
                    )[k]],
                forall|k: int|
                    0 <= k < found.len() ==> after[places_of_kind(before.take(seen), type_@)[k]]
                        == *final(#[trigger] found[k]),
                forall|i: int|
                    0 <= i < seen && before[i].type_@ != type_@ ==> #[trigger] after[i]
                        == before[i],
                forall|i: int| 0 <= i < final(rest)@.len() ==> after[seen + i] == final(rest)@[i],
            decreases rest.len(),
        {
            let ghost taken = found@;
            let ghost places = places_of_kind(before.take(seen), type_@);
            let ghost rest_after = final(rest)@;
            let whole = rest;
            let (head, tail) = whole.split_at_mut(1);
            let ghost head_after = final(head)@;
            let ghost tail_after = final(tail)@;
            proof {
                assert(rest_after =~= head_after + tail_after);
                assert(tail@ =~= before.subrange(seen + 1, before.len() as int));
                assert(before.take(seen + 1).drop_last() =~= before.take(seen));
                assert(before.take(seen + 1).last() == before[seen]);
                assert(head@[0] == before[seen]);
            }
            let matches = head[0].type_.as_str().eq(type_);
            if matches {
                let first = &mut head[0];
                proof {
                    assert(head_after.len() == 1);
                    assert(rest_after[0] == *final(first));
                }
                found.push(first);
            } else {
                proof {
                    assert(head_after =~= head@);
                    assert(rest_after[0] == before[seen]);
                }
            }
            rest = tail;
            proof {
                let now = places_of_kind(before.take(seen + 1), type_@);
                assert forall|i: int| 0 <= i < tail_after.len() implies after[seen + 1 + i]
                    == tail_after[i] by {
                    assert(after[seen + (1 + i)] == rest_after[1 + i]);
                }
                assert(after[seen + 0] == rest_after[0]);
                assert forall|k: int| 0 <= k < found.len() implies 0 <= (#[trigger] now[k]) < seen
                    + 1 && *found[k] == before[now[k]] && after[now[k]] == *final(found[k]) by {
                    if k < taken.len() {
                        assert(found[k] == taken[k]);
                        assert(now[k] == places[k]);
                    }
                }
                seen = seen + 1;
            }
        }
        proof {
            assert(before.take(seen) =~= before);
        }
        found
    }

    /// The nested `cell` blocks, in document order, to be changed in place.
    pub fn iter_cells_mut(&mut self) -> (found: Vec<&mut Group>)
        ensures
            found.len() == places_of_kind(old(self).subgroups@, "cell"@).len(),
            forall|k: int|
                0 <= k < found.len() ==> *(#[trigger] found[k])
                    == old(self).subgroups[places_of_kind(
                    old(self).subgroups@,
                    "cell"@,
                )[k]],
            final(self).subgroups.len() == old(self).subgroups.len(),
            forall|k: int|
                0 <= k < found.len() ==> final(self).subgroups[places_of_kind(
                    old(self).subgroups@,
                    "cell"@,
                )[k]] == *final(#[trigger] found[k]),
            forall|i: int|
                0 <= i < old(self).subgroups.len() && old(self).subgroups[i].type_@ != "cell"@
                    ==> final(self).subgroups[i] == old(self).subgroups[i],
            final(self).type_ == old(self).type_,
            final(self).name == old(self).name,
            final(self).attributes == old(self).attributes,
    {
        self.iter_subgroups_of_type_mut("cell")
    }

    /// The nested `pin` blocks, in document order, to be changed in place.
    pub fn iter_pins_mut(&mut self) -> (found: Vec<&mut Group>)
        ensures
            found.len() == places_of_kind(old(self).subgroups@, "pin"@).len(),
            forall|k: int|
                0 <= k < found.len() ==> *(#[trigger] found[k])
                    == old(self).subgroups[places_of_kind(
                    old(self).subgroups@,
                    "pin"@,
                )[k]],
            final(self).subgroups.len() == old(self).subgroups.len(),
            forall|k: int|
                0 <= k < found.len() ==> final(self).subgroups[places_of_kind(
                    old(self).subgroups@,
                    "pin"@,
                )[k]] == *final(#[trigger] found[k]),
            forall|i: int|
                0 <= i < old(self).subgroups.len() && old(self).subgroups[i].type_@ != "pin"@
                    ==> final(self).subgroups[i] == old(self).subgroups[i],
            final(self).type_ == old(self).type_,
            final(self).name == old(self).name,
            final(self).attributes == old(self).attributes,
    {
        self.iter_subgroups_of_type_mut("pin")
    }
}

/// The places in `list` of the names that hold a single value, in order.
pub open spec fn simple_places(list: Entries) -> Seq<int>
    decreases list.len(),
{
    if list.len() == 0 {
        Seq::empty()
    } else {
        let rest = simple_places(list.drop_last());
        if list.last().1 is Simple {
            rest.push(list.len() - 1)
        } else {
            rest
        }
    }
}

impl Group {
    /// The attributes that hold a single value, each with its name, in the
    /// order of the map, the values to be changed in place. The other
    /// attributes stay as they are, and so do the names.
    pub fn iter_simple_attributes_mut(&mut self) -> (found: Vec<(&String, &mut Value)>)
        ensures
            found.len() == simple_places(old(self)@.attributes).len(),
            forall|k: int|
                0 <= k < found.len() ==> old(self)@.attributes[simple_places(
                    old(self)@.attributes,
                )[k]] == ((#[trigger] found[k]).0@, AttributeModel::Simple((*found[k].1)@)),
            final(self)@.attributes.len() == old(self)@.attributes.len(),
            forall|k: int|
                0 <= k < found.len() ==> final(self)@.attributes[simple_places(
                    old(self)@.attributes,
                )[k]] == ((#[trigger] found[k]).0@, AttributeModel::Simple((*final(found[k].1))@)),
            forall|i: int|
                0 <= i < old(self)@.attributes.len() && old(self)@.attributes[i].1 is Complex
                    ==> final(self)@.attributes[i] == old(self)@.attributes[i],
            final(self).type_ == old(self).type_,
            final(self).name == old(self).name,
            final(self).subgroups == old(self).subgroups,
    {
        let ghost list = entries(self.attributes);
        let attributes = &mut self.attributes;
        let ghost after = entries(*final(attributes));
        let pairs = attributes_list_mut(attributes);
        let ghost all = pairs@;
        let mut found: Vec<(&String, &mut Value)> = Vec::new();
        proof {
            assert(list.take(0) =~= Seq::empty());
        }
        for pair in it: pairs
            invariant
                it.seq() == all,
                all.len() == list.len(),
                after.len() == list.len(),
                forall|i: int|
                    0 <= i < all.len() ==> (#[trigger] all[i]).0@ == list[i].0 && (*all[i].1)@
                        == list[i].1,
                forall|i: int|
                    0 <= i < all.len() ==> after[i] == (
                        (#[trigger] all[i]).0@,
                        (*final(all[i].1))@,
                    ),
                found.len() == simple_places(list.take(it.index())).len(),
                forall|k: int|
                    0 <= k < found.len() ==> 0 <= (#[trigger] simple_places(
                        list.take(it.index()),
                    )[k]) < it.index(),
                forall|k: int|
                    0 <= k < found.len() ==> list[simple_places(list.take(it.index()))[k]] == (
                        (#[trigger] found[k]).0@,
                        AttributeModel::Simple((*found[k].1)@),
                    ),
                forall|k: int|
                    0 <= k < found.len() ==> after[simple_places(list.take(it.index()))[k]] == (
                        (#[trigger] found[k]).0@,
                        AttributeModel::Simple((*final(found[k].1))@),
                    ),
                forall|i: int|
                    0 <= i < it.index() && list[i].1 is Complex ==> #[trigger] after[i] == list[i],
        {
            let ghost taken = found@;
            let ghost places = simple_places(list.take(it.index()));
            let ghost at = it.index();
            proof {
                assert(list.take(at + 1).drop_last() =~= list.take(at));
                assert(list.take(at + 1).last() == list[at]);
                assert(pair == all[at]);
            }
            let (name, attribute) = pair;
            let ghost whole_after = (*final(attribute))@;
            match attribute {
                Attribute::Simple(value) => {
                    proof {
                        assert(whole_after == AttributeModel::Simple((*final(value))@));
                    }
                    found.push((name, value));
                },
                Attribute::Complex(_) => {
                    proof {
                        assert(whole_after == list[at].1);
                    }
                },
            }
            proof {
                let now = simple_places(list.take(at + 1));
                assert forall|k: int| 0 <= k < found.len() implies 0 <= (#[trigger] now[k]) < at + 1
                    && list[now[k]] == (found[k].0@, AttributeModel::Simple((*found[k].1)@))
                    && after[now[k]] == (
                    found[k].0@,
                    AttributeModel::Simple((*final(found[k].1))@),
                ) by {
                    if k < taken.len() {
                        assert(found[k] == taken[k]);
                        assert(now[k] == places[k]);
                    }
                }
            }
        }
        proof {
            assert(list.take(all.len() as int) =~= list);
        }
        found
    }
}

/// The places in `list` of the names that hold a list of values, in order.
pub open spec fn complex_places(list: Entries) -> Seq<int>
    decreases list.len(),
{
    if list.len() == 0 {
        Seq::empty()
    } else {
        let rest = complex_places(list.drop_last());
        if list.last().1 is Complex {
            rest.push(list.len() - 1)
        } else {
            rest
        }
    }
}

impl Group {
    /// The attributes that hold a list of values, each with its name, in
    /// the order of the map, the lists to be changed in place. The other
    /// attributes stay as they are, and so do the names.
    pub fn iter_complex_attributes_mut(&mut self) -> (found: Vec<(&String, &mut Vec<Value>)>)
        ensures
            found.len() == complex_places(old(self)@.attributes).len(),
            forall|k: int|
                0 <= k < found.len() ==> old(self)@.attributes[complex_places(
                    old(self)@.attributes,
                )[k]] == (
                    (#[trigger] found[k]).0@,
                    AttributeModel::Complex(value_models((*found[k].1)@)),
                ),
            final(self)@.attributes.len() == old(self)@.attributes.len(),
            forall|k: int|
                0 <= k < found.len() ==> final(self)@.attributes[complex_places(
                    old(self)@.attributes,
                )[k]] == (
                    (#[trigger] found[k]).0@,
                    AttributeModel::Complex(value_models((*final(found[k].1))@)),
                ),
            forall|i: int|
                0 <= i < old(self)@.attributes.len() && old(self)@.attributes[i].1 is Simple
                    ==> final(self)@.attributes[i] == old(self)@.attributes[i],
            final(self).type_ == old(self).type_,
            final(self).name == old(self).name,
            final(self).subgroups == old(self).subgroups,
    {
        let ghost list = entries(self.attributes);
        let attributes = &mut self.attributes;
        let ghost after = entries(*final(attributes));
        let pairs = attributes_list_mut(attributes);
        let ghost all = pairs@;
        let mut found: Vec<(&String, &mut Vec<Value>)> = Vec::new();
        proof {
            assert(list.take(0) =~= Seq::empty());
        }
        for pair in it: pairs
            invariant
                it.seq() == all,
                all.len() == list.len(),
                after.len() == list.len(),
                forall|i: int|
                    0 <= i < all.len() ==> (#[trigger] all[i]).0@ == list[i].0 && (*all[i].1)@
                        == list[i].1,
                forall|i: int|
                    0 <= i < all.len() ==> after[i] == (
                        (#[trigger] all[i]).0@,
                        (*final(all[i].1))@,
                    ),
                found.len() == complex_places(list.take(it.index())).len(),
                forall|k: int|
                    0 <= k < found.len() ==> 0 <= (#[trigger] complex_places(
                        list.take(it.index()),
                    )[k]) < it.index(),
                forall|k: int|
                    0 <= k < found.len() ==> list[complex_places(list.take(it.index()))[k]] == (
                        (#[trigger] found[k]).0@,
                        AttributeModel::Complex(value_models((*found[k].1)@)),
                    ),
                forall|k: int|
                    0 <= k < found.len() ==> after[complex_places(list.take(it.index()))[k]] == (
                        (#[trigger] found[k]).0@,
                        AttributeModel::Complex(value_models((*final(found[k].1))@)),
                    ),
                forall|i: int|
                    0 <= i < it.index() && list[i].1 is Simple ==> #[trigger] after[i] == list[i],
        {
            let ghost taken = found@;
            let ghost places = complex_places(list.take(it.index()));
            let ghost at = it.index();
            proof {
                assert(list.take(at + 1).drop_last() =~= list.take(at));
                assert(list.take(at + 1).last() == list[at]);
                assert(pair == all[at]);
            }
            let (name, attribute) = pair;
            let ghost whole_after = (*final(attribute))@;
            match attribute {
                Attribute::Complex(values) => {
                    proof {
                        assert(whole_after == AttributeModel::Complex(
                            value_models((*final(values))@),
                        ));
                    }
                    found.push((name, values));
                },
                Attribute::Simple(_) => {
                    proof {
                        assert(whole_after == list[at].1);
                    }
                },
            }
            proof {
                let now = complex_places(list.take(at + 1));
                assert forall|k: int| 0 <= k < found.len() implies 0 <= (#[trigger] now[k]) < at + 1
                    && list[now[k]] == (
                    found[k].0@,
                    AttributeModel::Complex(value_models((*found[k].1)@)),
                ) && after[now[k]] == (
                    found[k].0@,
                    AttributeModel::Complex(value_models((*final(found[k].1))@)),
                ) by {
                    if k < taken.len() {
                        assert(found[k] == taken[k]);
                        assert(now[k] == places[k]);
                    }
                }
            }
        }
        proof {
            assert(list.take(all.len() as int) =~= list);
        }
        found
    }
}

} // verus!
