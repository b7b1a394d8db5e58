//! Volume buses: one master bus and three category buses.

use vstd::prelude::*;

use crate::math::UNITY;
use crate::ramp::Ramp;

verus! {

/// The number of buses.
pub const BUS_COUNT: usize = 4;

/// Every bus, in the order of [`BusId::index`].
pub const ALL_BUSES: [BusId; 4] = [BusId::Master, BusId::Bgm, BusId::Se, BusId::Voice];

/// Which bus a sound is sent to.
#[derive(Debug, Clone, Copy, PartialEq, Eq, Structural)]
pub enum BusId {
    /// Applied to the whole mix.
    Master,
    /// Music.
    Bgm,
    /// Sound effects.
    Se,
    /// Spoken lines.
    Voice,
}

impl BusId {
    /// The number of this bus.
    pub open spec fn number(self) -> nat {
        match self {
            BusId::Master => 0,
            BusId::Bgm => 1,
            BusId::Se => 2,
            BusId::Voice => 3,
        }
    }

    /// The number of this bus, as an index into an array of [`BUS_COUNT`] entries.
    pub fn index(self) -> (i: usize)
        ensures
            i == self.number(),
            i < BUS_COUNT,
    {
        match self {
            BusId::Master => 0,
            BusId::Bgm => 1,
            BusId::Se => 2,
            BusId::Voice => 3,
        }
    }

    /// The bus with the number `value`, if there is one.
    pub fn from_u8(value: u8) -> (bus: Option<BusId>)
        ensures
            bus matches Some(id) ==> id.number() == value,
            bus is None <==> value >= BUS_COUNT,
    {
        match value {
            0 => Some(BusId::Master),
            1 => Some(BusId::Bgm),
            2 => Some(BusId::Se),
            3 => Some(BusId::Voice),
            _ => None,
        }
    }
}

/// One bus.
#[derive(Debug, Clone, Copy, PartialEq, Eq, Structural)]
pub struct Bus {
    /// The volume of the bus.
    pub volume: Ramp,
}

impl Bus {
    /// A bus at unity volume.
    pub fn new() -> (bus: Bus)
        ensures
            bus == (Bus { volume: Ramp::resting_at(UNITY) }),
    {
        Bus { volume: Ramp::new(UNITY) }
    }
}

impl Default for Bus {
    fn default() -> (bus: Bus)
        ensures
            bus == (Bus { volume: Ramp::resting_at(UNITY) }),
    {
        Bus::new()
    }
}

/// All buses.
#[derive(Debug, Clone, Copy)]
pub struct BusSet {
    /// The buses, each at the position that [`BusId::index`] gives.
    pub buses: [Bus; 4],
}

impl BusSet {
    /// The bus `id`.
    pub open spec fn bus(self, id: BusId) -> Bus {
        self.buses[id.number() as int]
    }

    /// All buses at unity volume.
    pub fn new() -> (set: BusSet)
        ensures
            forall|id: BusId| #[trigger] set.bus(id) == (Bus { volume: Ramp::resting_at(UNITY) }),
    {
        BusSet { buses: [Bus::new(), Bus::new(), Bus::new(), Bus::new()] }
    }

    /// The bus `id`.
    pub fn get(&self, id: BusId) -> (bus: &Bus)
        ensures
            *bus == self.bus(id),
    {
        &self.buses[id.index()]
    }

    /// The bus `id`, to be changed.
    pub fn get_mut(&mut self, id: BusId) -> (bus: &mut Bus)
        ensures
            *bus == old(self).bus(id),
            final(self).buses@ == old(self).buses@.update(id.number() as int, *final(bus)),
    {
        &mut self.buses[id.index()]
    }
}

impl Default for BusSet {
    fn default() -> (set: BusSet)
        ensures
            forall|id: BusId| #[trigger] set.bus(id) == (Bus { volume: Ramp::resting_at(UNITY) }),
    {
        BusSet::new()
    }
}

/// The number of a bus names it: no two buses share one, and every number below [`BUS_COUNT`] is
/// taken.
pub proof fn law_bus_numbers_are_distinct(a: BusId, b: BusId)
    ensures
        a.number() == b.number() <==> a == b,
        a.number() < BUS_COUNT,
{
}

} // verus!
