//! Groups: the units a user animates, either one device or an ordered set of groups.

use vstd::prelude::*;
use crate::entity::{Entity, EntityType, Id};

verus! {

/// A group record: a leaf that wraps one device (`device` set, no children) or a
/// composite that lists its child groups in order.
#[derive(Clone, Debug, PartialEq)]
pub struct Group {
    pub id: Id,
    pub name: Option<String>,
    pub order: usize,
    pub children: Vec<Id>,
    pub device: Option<Id>,
}

/// What a [`Group`] is to the contracts.
pub struct GroupView {
    pub id: Id,
    pub name: Option<Seq<char>>,
    pub order: usize,
    pub children: Seq<Id>,
    pub device: Option<Id>,
}

impl View for Group {
    type V = GroupView;

    open spec fn view(&self) -> GroupView {
        GroupView {
            id: self.id,
            name: match self.name {
                Some(name) => Some(name@),
                None => None,
            },
            order: self.order,
            children: self.children@,
            device: self.device,
        }
    }
}

/// The sequence `children` with every occurrence of `child` taken out, the others in
/// their order.
pub open spec fn without(children: Seq<Id>, child: Id) -> Seq<Id>
    decreases children.len(),
{
    if children.len() == 0 {
        children
    } else {
        let rest = without(children.drop_last(), child);
        if children.last() != child {
            rest.push(children.last())
        } else {
            rest
        }
    }
}

impl GroupView {
    /// The implicit group that makes `device` controllable on its own.
    pub open spec fn wrapping(device: Id) -> GroupView {
        GroupView { id: 0, name: None, order: 0, children: Seq::empty(), device: Some(device) }
    }

    /// The group with every occurrence of `child` taken out of its children.
    pub open spec fn without_child(self, child: Id) -> GroupView {
        GroupView { children: without(self.children, child), ..self }
    }
}

impl Entity for Group {
    open spec fn id_of(v: GroupView) -> Id {
        v.id
    }

    open spec fn with_id(v: GroupView, id: Id) -> GroupView {
        GroupView { id, ..v }
    }

    open spec fn kind() -> EntityType {
        EntityType::Group
    }

    proof fn lemma_with_id(v: GroupView, id: Id) {
    }

    fn get_id(&self) -> (id: Id) {
        self.id
    }

    fn set_id(&mut self, id: Id) {
        self.id = id;
    }

    fn duplicate(&self) -> (copy: Self) {
        let name = match &self.name {
            Some(name) => Some(name.clone()),
            None => None,
        };
        Group {
            id: self.id,
            name,
            order: self.order,
            children: self.children.clone(),
            device: self.device,
        }
    }

    fn get_entity_type() -> (kind: EntityType) {
        EntityType::Group
    }
}

impl Group {
    /// What a new, empty composite group with the given name is.
    pub open spec fn new_view(name: Seq<char>) -> GroupView {
        GroupView { id: 0, name: Some(name), order: 0, children: Seq::empty(), device: None }
    }

    /// A new, empty composite group with the given name.
    pub fn new(name: String) -> (group: Self)
        ensures
            group@ == Self::new_view(name@),
    {
        Group { id: 0, name: Some(name), order: 0, children: Vec::new(), device: None }
    }

    /// The implicit group that makes `device` controllable on its own.
    pub fn wrapping(device: Id) -> (group: Self)
        ensures
            group@ == GroupView::wrapping(device),
    {
        Group { id: 0, name: None, order: 0, children: Vec::new(), device: Some(device) }
    }

    /// Whether `child` is among this group's children.
    pub fn has_child(&self, child: Id) -> (r: bool)
        ensures
            r == self@.children.contains(child),
    {
        let mut i: usize = 0;
        while i < self.children.len()
            invariant
                i <= self.children@.len(),
                forall|k: int| 0 <= k < i ==> self.children@[k] != child,
            decreases self.children@.len() - i,
        {
            if self.children[i] == child {
                return true;
            }
            i += 1;
        }
        false
    }

    /// Takes every occurrence of `child` out of this group's children, keeping the
    /// order of the others.
    pub fn remove_child(&mut self, child: Id)
        ensures
            final(self)@ == old(self)@.without_child(child),
    {
        let mut kept: Vec<Id> = Vec::new();
        let mut i: usize = 0;
        proof {
            assert(self.children@.take(0) =~= Seq::<Id>::empty());
        }
        while i < self.children.len()
            invariant
                i <= self.children@.len(),
                *self == *old(self),
                kept@ == without(self.children@.take(i as int), child),
                self.children@ == old(self).children@,
            decreases self.children@.len() - i,
        {
            let c = self.children[i];
            proof {
                let prefix = self.children@.take(i as int);
                let longer = self.children@.take(i + 1);
                assert(longer.drop_last() =~= prefix);
                assert(longer.last() == c);
            }
            if c != child {
                kept.push(c);
            }
            i += 1;
        }
        proof {
            assert(self.children@.take(i as int) =~= self.children@);
        }
        self.children = kept;
    }
}

} // verus!
