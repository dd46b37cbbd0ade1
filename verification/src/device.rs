//! Devices: the actuators wired to a board.

use vstd::prelude::*;
use crate::entity::{Entity, EntityType, Id};
use crate::mp3::{Mp3Player, Mp3PlayerView};

verus! {

/// A closed interval of raw values.
#[derive(Clone, Copy, Debug, PartialEq)]
pub struct Span {
    pub start: u16,
    pub end: u16,
}

/// The settings of a light.
#[derive(Clone, Copy, Debug, PartialEq)]
pub struct Led {
    pub pin: u8,
    pub state: u16,
    pub default: u16,
    pub brightness: u16,
}

/// The settings of a servo motor.
#[derive(Clone, Copy, Debug, PartialEq)]
pub struct Servo {
    pub pin: u8,
    pub state: u16,
    pub default: u16,
    pub continuous: bool,
    pub range: Span,
    pub pwm_range: Span,
    pub degree_range: Span,
    pub inverted: bool,
    pub auto_detach: bool,
    pub detach_delay: usize,
}

/// The kinds of device, each with its own settings.
#[derive(Clone, Debug, PartialEq)]
pub enum DeviceType {
    Led(Led),
    Servo(Servo),
    Mp3Player(Mp3Player),
}

/// What a [`DeviceType`] is to the contracts.
pub enum DeviceTypeView {
    Led(Led),
    Servo(Servo),
    Mp3Player(Mp3PlayerView),
}

impl View for DeviceType {
    type V = DeviceTypeView;

    open spec fn view(&self) -> DeviceTypeView {
        match self {
            DeviceType::Led(led) => DeviceTypeView::Led(*led),
            DeviceType::Servo(servo) => DeviceTypeView::Servo(*servo),
            DeviceType::Mp3Player(player) => DeviceTypeView::Mp3Player(player@),
        }
    }
}

impl DeviceType {
    /// A copy with the same view.
    pub fn duplicate(&self) -> (copy: Self)
        ensures
            copy@ == self@,
    {
        match self {
            DeviceType::Led(led) => DeviceType::Led(*led),
            DeviceType::Servo(servo) => DeviceType::Servo(*servo),
            DeviceType::Mp3Player(player) => DeviceType::Mp3Player(player.duplicate()),
        }
    }
}

/// A device record. `bid` names the board that the device is wired to.
#[derive(Clone, Debug, PartialEq)]
pub struct Device {
    pub id: Id,
    pub bid: Id,
    pub name: String,
    pub inner: DeviceType,
}

/// What a [`Device`] is to the contracts.
pub struct DeviceView {
    pub id: Id,
    pub bid: Id,
    pub name: Seq<char>,
    pub inner: DeviceTypeView,
}

impl View for Device {
    type V = DeviceView;

    open spec fn view(&self) -> DeviceView {
        DeviceView { id: self.id, bid: self.bid, name: self.name@, inner: self.inner@ }
    }
}

impl Entity for Device {
    open spec fn id_of(v: DeviceView) -> Id {
        v.id
    }

    open spec fn with_id(v: DeviceView, id: Id) -> DeviceView {
        DeviceView { id, ..v }
    }

    open spec fn kind() -> EntityType {
        EntityType::Device
    }

    proof fn lemma_with_id(v: DeviceView, id: Id) {
    }

    fn get_id(&self) -> (id: Id) {
        self.id
    }

    fn set_id(&mut self, id: Id) {
        self.id = id;
    }

    fn duplicate(&self) -> (copy: Self) {
        Device {
            id: self.id,
            bid: self.bid,
            name: self.name.clone(),
            inner: self.inner.duplicate(),
        }
    }

    fn get_entity_type() -> (kind: EntityType) {
        EntityType::Device
    }
}

} // verus!
