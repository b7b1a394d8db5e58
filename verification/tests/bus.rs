//! The buses.

use audioware::{BusId, BusSet, ALL_BUSES};

#[test]
fn all_buses_default_to_unity_volume() {
    let set = BusSet::new();
    for id in ALL_BUSES {
        assert_eq!(set.get(id).volume.value(), 1.0f32.to_bits());
    }
}

#[test]
fn from_u8_round_trips_for_valid_ids() {
    for id in ALL_BUSES {
        assert_eq!(BusId::from_u8(id as u8), Some(id));
    }
    assert_eq!(BusId::from_u8(4), None);
}
