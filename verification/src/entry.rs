//! One line of the standings.

use crate::float::Double;
use crate::vehicle::{CompoundView, KeyView, TireCompound, VehicleClass, VehicleKey, VehicleStatus};
use vstd::prelude::*;

verus! {

#[derive(Debug)]
pub struct StandingEntry {
    pub key: VehicleKey,
    pub driver_name: String,
    pub vehicle_name: String,
    pub vehicle_model: String,
    pub class: VehicleClass,
    pub position: u16,
    pub class_position: u16,
    pub laps: u16,
    pub lap_distance: Double,
    pub best_lap_ms: Option<u64>,
    pub last_lap_ms: Option<u64>,
    pub gap_to_leader_ms: Option<u64>,
    pub laps_behind_leader: u16,
    pub gap_to_previous_ms: Option<u64>,
    pub laps_behind_previous: u16,
    pub tires: TireCompound,
    pub status: VehicleStatus,
    pub penalties: u16,
}

/// The value of a [`StandingEntry`].
#[verifier::ext_equal]
pub struct EntryView {
    pub key: KeyView,
    pub driver_name: Seq<char>,
    pub vehicle_name: Seq<char>,
    pub vehicle_model: Seq<char>,
    pub class: VehicleClass,
    pub position: u16,
    pub class_position: u16,
    pub laps: u16,
    pub lap_distance: Double,
    pub best_lap_ms: Option<u64>,
    pub last_lap_ms: Option<u64>,
    pub gap_to_leader_ms: Option<u64>,
    pub laps_behind_leader: u16,
    pub gap_to_previous_ms: Option<u64>,
    pub laps_behind_previous: u16,
    pub tires: CompoundView,
    pub status: VehicleStatus,
    pub penalties: u16,
}

impl EntryView {
    /// Whether the two compare as equal: in every field, the lap distances as numbers.
    pub open spec fn equals(self, other: EntryView) -> bool {
        self.lap_distance.equals(other.lap_distance) && self == (EntryView {
            lap_distance: self.lap_distance,
            ..other
        })
    }
}

impl View for StandingEntry {
    type V = EntryView;

    open spec fn view(&self) -> EntryView {
        EntryView {
            key: self.key@,
            driver_name: self.driver_name@,
            vehicle_name: self.vehicle_name@,
            vehicle_model: self.vehicle_model@,
            class: self.class,
            position: self.position,
            class_position: self.class_position,
            laps: self.laps,
            lap_distance: self.lap_distance,
            best_lap_ms: self.best_lap_ms,
            last_lap_ms: self.last_lap_ms,
            gap_to_leader_ms: self.gap_to_leader_ms,
            laps_behind_leader: self.laps_behind_leader,
            gap_to_previous_ms: self.gap_to_previous_ms,
            laps_behind_previous: self.laps_behind_previous,
            tires: self.tires@,
            status: self.status,
            penalties: self.penalties,
        }
    }
}

impl PartialEq for StandingEntry {
    fn eq(&self, other: &StandingEntry) -> (same: bool) {
        self.key == other.key && self.driver_name == other.driver_name && self.vehicle_name
            == other.vehicle_name && self.vehicle_model == other.vehicle_model && self.class
            == other.class && self.position == other.position && self.class_position
            == other.class_position && self.laps == other.laps && self.lap_distance
            == other.lap_distance && self.best_lap_ms == other.best_lap_ms && self.last_lap_ms
            == other.last_lap_ms && self.gap_to_leader_ms == other.gap_to_leader_ms
            && self.laps_behind_leader == other.laps_behind_leader && self.gap_to_previous_ms
            == other.gap_to_previous_ms && self.laps_behind_previous == other.laps_behind_previous
            && self.tires == other.tires && self.status == other.status && self.penalties
            == other.penalties
    }
}

impl vstd::std_specs::cmp::PartialEqSpecImpl for StandingEntry {
    open spec fn obeys_eq_spec() -> bool {
        true
    }

    open spec fn eq_spec(&self, other: &StandingEntry) -> bool {
        self@.equals(other@)
    }
}

impl Clone for StandingEntry {
    fn clone(&self) -> (copy: StandingEntry)
        ensures
            copy == *self,
    {
        StandingEntry {
            key: self.key.clone(),
            driver_name: self.driver_name.clone(),
            vehicle_name: self.vehicle_name.clone(),
            vehicle_model: self.vehicle_model.clone(),
            class: self.class,
            position: self.position,
            class_position: self.class_position,
            laps: self.laps,
            lap_distance: self.lap_distance,
            best_lap_ms: self.best_lap_ms,
            last_lap_ms: self.last_lap_ms,
            gap_to_leader_ms: self.gap_to_leader_ms,
            laps_behind_leader: self.laps_behind_leader,
            gap_to_previous_ms: self.gap_to_previous_ms,
            laps_behind_previous: self.laps_behind_previous,
            tires: self.tires.clone(),
            status: self.status,
            penalties: self.penalties,
        }
    }
}

/// The values of the entries, in turn.
pub open spec fn values(entries: Seq<StandingEntry>) -> Seq<EntryView> {
    Seq::new(entries.len(), |i: int| entries[i]@)
}

} // verus!
