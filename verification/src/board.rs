//! Boards: the controllers that devices are wired to.

use vstd::prelude::*;
use crate::entity::{Entity, EntityType, Id};

verus! {

/// The models of Arduino boards that the interface tells apart.
#[allow(non_camel_case_types)]
#[derive(Clone, Copy, Debug, PartialEq, Eq, Structural)]
pub enum ArduinoType {
    NANO,
    UNO,
    MEGA,
    OTHER,
}

impl Default for ArduinoType {
    fn default() -> (model: Self)
        ensures
            model == ArduinoType::OTHER,
    {
        ArduinoType::OTHER
    }
}

/// The family a board belongs to.
#[derive(Clone, Copy, Debug, PartialEq, Eq, Structural)]
pub enum BoardType {
    Arduino(ArduinoType),
    Unknown,
}

impl Default for BoardType {
    fn default() -> (model: Self)
        ensures
            model == BoardType::Unknown,
    {
        BoardType::Unknown
    }
}

/// A board record.
///
/// `protocol` is the board's connection settings in serialised form; the store carries
/// it unread. `connected` is volatile: a live connection does not survive a restart, so
/// loading a store resets it.
#[derive(Clone, Debug, PartialEq)]
pub struct Board {
    pub id: Id,
    pub name: String,
    pub model: BoardType,
    pub protocol: String,
    pub connected: bool,
}

/// What a [`Board`] is to the contracts.
pub struct BoardView {
    pub id: Id,
    pub name: Seq<char>,
    pub model: BoardType,
    pub protocol: Seq<char>,
    pub connected: bool,
}

impl View for Board {
    type V = BoardView;

    open spec fn view(&self) -> BoardView {
        BoardView {
            id: self.id,
            name: self.name@,
            model: self.model,
            protocol: self.protocol@,
            connected: self.connected,
        }
    }
}

impl BoardView {
    /// The board as it is after a load: the same record, not connected.
    pub open spec fn disconnected(self) -> BoardView {
        BoardView { connected: false, ..self }
    }
}

impl Entity for Board {
    open spec fn id_of(v: BoardView) -> Id {
        v.id
    }

    open spec fn with_id(v: BoardView, id: Id) -> BoardView {
        BoardView { id, ..v }
    }

    open spec fn kind() -> EntityType {
        EntityType::Board
    }

    proof fn lemma_with_id(v: BoardView, id: Id) {
    }

    fn get_id(&self) -> (id: Id) {
        self.id
    }

    fn set_id(&mut self, id: Id) {
        self.id = id;
    }

    fn duplicate(&self) -> (copy: Self) {
        Board {
            id: self.id,
            name: self.name.clone(),
            model: self.model,
            protocol: self.protocol.clone(),
            connected: self.connected,
        }
    }

    fn get_entity_type() -> (kind: EntityType) {
        EntityType::Board
    }
}

impl Board {
    /// Records the outcome of opening the board's connection: `connected` says whether
    /// the handshake succeeded.
    pub fn open(self, connected: bool) -> (board: Self)
        ensures
            board@ == (BoardView { connected, ..self@ }),
    {
        Board { connected, ..self }
    }

    /// Records that the board's connection was closed.
    pub fn close(self) -> (board: Self)
        ensures
            board@ == self@.disconnected(),
    {
        Board { connected: false, ..self }
    }

    /// Brings a freshly loaded board to its starting state: not connected.
    pub fn post_load(&mut self)
        ensures
            final(self)@ == old(self)@.disconnected(),
    {
        self.connected = false;
    }
}

/// What a client sends to have a board created.
#[derive(Debug)]
pub struct CreateBoard {
    pub name: String,
    pub model: BoardType,
}

impl CreateBoard {
    /// The board that the request asks for: unassigned, not connected, with no
    /// connection settings yet. The requested model is not taken over.
    pub open spec fn spec_board(self) -> BoardView {
        BoardView {
            id: 0,
            name: self.name@,
            model: BoardType::Unknown,
            protocol: Seq::<char>::empty(),
            connected: false,
        }
    }

    /// The board that the request asks for: unassigned, not connected, with no
    /// connection settings yet. The requested model is not taken over.
    pub fn into_board(self) -> (board: Board)
        ensures
            board@ == self.spec_board(),
    {
        Board {
            id: 0,
            name: self.name,
            model: BoardType::default(),
            protocol: String::new(),
            connected: false,
        }
    }
}

} // verus!
