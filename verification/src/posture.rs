//! Postures: poses applied at once to a set of devices.

use vstd::prelude::*;
use crate::database::Database;
use crate::entity::{Entity, EntityType, Id};
use crate::model::StoreView;

verus! {

/// One device and the state it is to take.
#[derive(Clone, Debug, PartialEq)]
pub struct Position {
    pub device: Id,
    pub target: hermes_five::utils::State,
}

impl Position {
    /// A copy of the position.
    pub fn duplicate(&self) -> (copy: Self)
        ensures
            copy == *self,
    {
        Position { device: self.device, target: self.target.clone() }
    }
}

/// Copies a list of positions.
pub fn clone_positions(positions: &Vec<Position>) -> (copy: Vec<Position>)
    ensures
        copy@ == positions@,
{
    let mut copy: Vec<Position> = Vec::new();
    let mut i: usize = 0;
    while i < positions.len()
        invariant
            i <= positions@.len(),
            copy@ == positions@.take(i as int),
        decreases positions@.len() - i,
    {
        copy.push(positions[i].duplicate());
        proof {
            assert(positions@.take(i + 1) =~= positions@.take(i as int).push(positions@[i as int]));
        }
        i += 1;
    }
    proof {
        assert(positions@.take(i as int) =~= positions@);
    }
    copy
}

/// A posture record.
#[derive(Clone, Debug, PartialEq)]
pub struct Posture {
    pub id: Id,
    pub name: String,
    pub description: String,
    pub positions: Vec<Position>,
}

/// What a [`Posture`] is to the contracts.
pub struct PostureView {
    pub id: Id,
    pub name: Seq<char>,
    pub description: Seq<char>,
    pub positions: Seq<Position>,
}

impl View for Posture {
    type V = PostureView;

    open spec fn view(&self) -> PostureView {
        PostureView {
            id: self.id,
            name: self.name@,
            description: self.description@,
            positions: self.positions@,
        }
    }
}

impl Entity for Posture {
    open spec fn id_of(v: PostureView) -> Id {
        v.id
    }

    open spec fn with_id(v: PostureView, id: Id) -> PostureView {
        PostureView { id, ..v }
    }

    open spec fn kind() -> EntityType {
        EntityType::Posture
    }

    proof fn lemma_with_id(v: PostureView, id: Id) {
    }

    fn get_id(&self) -> (id: Id) {
        self.id
    }

    fn set_id(&mut self, id: Id) {
        self.id = id;
    }

    fn duplicate(&self) -> (copy: Self) {
        Posture {
            id: self.id,
            name: self.name.clone(),
            description: self.description.clone(),
            positions: clone_positions(&self.positions),
        }
    }

    fn get_entity_type() -> (kind: EntityType) {
        EntityType::Posture
    }
}

/// Those among the first `n` of `positions` whose device can be driven, in their order.
pub open spec fn applicable(store: StoreView, positions: Seq<Position>, n: int) -> Seq<Position>
    decreases n,
{
    if n <= 0 {
        Seq::empty()
    } else {
        let earlier = applicable(store, positions, n - 1);
        if store.reachable(positions[n - 1].device) {
            earlier.push(positions[n - 1])
        } else {
            earlier
        }
    }
}

impl Posture {
    /// The positions to apply when the posture is played: every position whose device is
    /// stored and wired to a stored, connected board, in the posture's order. The
    /// others are passed over.
    pub fn play(&self, database: &Database) -> (commands: Vec<Position>)
        ensures
            commands@ == applicable(database@, self@.positions, self@.positions.len() as int),
    {
        let mut commands: Vec<Position> = Vec::new();
        let mut i: usize = 0;
        while i < self.positions.len()
            invariant
                i <= self.positions@.len(),
                commands@ == applicable(database@, self.positions@, i as int),
            decreases self.positions@.len() - i,
        {
            if database.reachable(self.positions[i].device) {
                commands.push(self.positions[i].duplicate());
            }
            i += 1;
        }
        commands
    }
}

} // verus!
