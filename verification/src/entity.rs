//! What every stored record has in common: an identifier and a category.

use vstd::prelude::*;
use vstd::string::StringExecFns;

verus! {

/// Identifier of a record inside its category. Zero means "not assigned yet".
pub type Id = usize;

/// The categories of records that the store keeps, one table each.
#[derive(Clone, Copy, Debug, PartialEq, Eq, Structural, Hash)]
pub enum EntityType {
    Board,
    Device,
    Group,
    Animation,
    Posture,
}

impl EntityType {
    /// The name of the category.
    pub open spec fn spec_name(self) -> Seq<char> {
        match self {
            EntityType::Board => "Board"@,
            EntityType::Device => "Device"@,
            EntityType::Group => "Group"@,
            EntityType::Animation => "Animation"@,
            EntityType::Posture => "Posture"@,
        }
    }

    /// The name of the file that holds the category: the plural of its name, as a JSON
    /// file.
    pub open spec fn spec_file_name(self) -> Seq<char> {
        self.spec_name() + "s.json"@
    }

    /// The name of the category.
    pub fn name(self) -> (name: String)
        ensures
            name@ == self.spec_name(),
    {
        match self {
            EntityType::Board => "Board".to_owned(),
            EntityType::Device => "Device".to_owned(),
            EntityType::Group => "Group".to_owned(),
            EntityType::Animation => "Animation".to_owned(),
            EntityType::Posture => "Posture".to_owned(),
        }
    }

    /// The name of the file that holds the category.
    pub fn file_name(self) -> (name: String)
        ensures
            name@ == self.spec_file_name(),
    {
        self.name().concat("s.json")
    }

    /// The category that a file of the store's folder holds, if it is the file of one.
    pub fn from_file_name(name: &str) -> (kind: Option<Self>)
        ensures
            kind matches Some(k) ==> name@ == k.spec_file_name(),
            kind is None ==> forall|k: EntityType| name@ != k.spec_file_name(),
    {
        let name = name.to_owned();
        if name == EntityType::Board.file_name() {
            Some(EntityType::Board)
        } else if name == EntityType::Device.file_name() {
            Some(EntityType::Device)
        } else if name == EntityType::Group.file_name() {
            Some(EntityType::Group)
        } else if name == EntityType::Animation.file_name() {
            Some(EntityType::Animation)
        } else if name == EntityType::Posture.file_name() {
            Some(EntityType::Posture)
        } else {
            None
        }
    }
}

/// The views of `items`, in the same order.
pub open spec fn views_of<T: View>(items: Seq<T>) -> Seq<T::V> {
    Seq::new(items.len(), |i: int| items[i]@)
}

/// A record that can be kept in a [`crate::table::Table`].
///
/// The contracts speak of a record through its view: `id_of` reads the identifier out of
/// a view and `with_id` is the same view under another identifier.
pub trait Entity: View + Sized {
    /// The identifier that a view carries.
    spec fn id_of(v: Self::V) -> Id;

    /// The view `v` with its identifier replaced by `id` and nothing else changed.
    spec fn with_id(v: Self::V, id: Id) -> Self::V;

    /// The category that records of this type belong to.
    spec fn kind() -> EntityType;

    /// Replacing the identifier is read back by `id_of`, and replacing it by itself
    /// changes nothing.
    proof fn lemma_with_id(v: Self::V, id: Id)
        ensures
            Self::id_of(Self::with_id(v, id)) == id,
            Self::id_of(v) == id ==> Self::with_id(v, id) == v,
    ;

    /// Exposes the record's identifier.
    fn get_id(&self) -> (id: Id)
        ensures
            id == Self::id_of(self@),
    ;

    /// Gives the record another identifier. Only the store is meant to call this.
    fn set_id(&mut self, id: Id)
        ensures
            final(self)@ == Self::with_id(old(self)@, id),
    ;

    /// A copy with the same view.
    fn duplicate(&self) -> (copy: Self)
        ensures
            copy@ == self@,
    ;

    /// The category of this type of record.
    fn get_entity_type() -> (kind: EntityType)
        ensures
            kind == Self::kind(),
    ;
}

} // verus!
