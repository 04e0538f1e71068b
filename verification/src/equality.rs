//! What it means that two values compare as equal: in every field, numbers as numbers and
//! texts as texts. And what the values are of which contracts speak.

use crate::entry::StandingEntry;
use crate::error::{Error, ErrorView};
use crate::float::{Double, Single};
use crate::standings::{StandingsSnapshot, StandingsState, StandingsUpdate};
use crate::telemetry::{PedalData, TelemetrySnapshot, TelemetryUpdate};
use crate::vehicle::{TireCompound, VehicleKey};
use crate::weather::{WeatherSnapshot, WeatherUpdate, Wind};
use vstd::prelude::*;

verus! {

/// Numbers are equal as numbers: those with the same bits but what is not a number, and all
/// zeros.
pub proof fn law_numbers(a: Double, b: Double, x: Single, y: Single)
    ensures
        vstd::std_specs::cmp::PartialEqSpec::eq_spec(&a, &b) <==> !a.nan() && !b.nan() && (a.bits
            == b.bits || (a.bits % 0x8000_0000_0000_0000 == 0 && b.bits % 0x8000_0000_0000_0000
            == 0)),
        vstd::std_specs::cmp::PartialEqSpec::eq_spec(&x, &y) <==> !x.nan() && !y.nan() && (x.bits
            == y.bits || (x.bits % 0x8000_0000 == 0 && y.bits % 0x8000_0000 == 0)),
{
    crate::float::law_equality_by_bits(a, b);
    crate::float::law_single_equality_by_bits(x, y);
}

/// Pedals are equal if each of the three is.
pub proof fn law_pedals(a: TelemetrySnapshot, b: TelemetrySnapshot, x: PedalData, y: PedalData)
    ensures
        vstd::std_specs::cmp::PartialEqSpec::eq_spec(&x, &y) <==> x.throttle.equals(y.throttle)
            && x.brake.equals(y.brake) && x.clutch.equals(y.clutch),
        vstd::std_specs::cmp::PartialEqSpec::eq_spec(&a, &b) <==> a.pedals.throttle.equals(
            b.pedals.throttle,
        ) && a.pedals.brake.equals(b.pedals.brake) && a.pedals.clutch.equals(b.pedals.clutch),
{
}

/// Telemetry updates are equal if they are of one kind and their pedals are equal.
pub proof fn law_telemetry_updates(a: TelemetryUpdate, b: TelemetryUpdate)
    ensures
        vstd::std_specs::cmp::PartialEqSpec::eq_spec(&a, &b) <==> match (a, b) {
            (
                TelemetryUpdate::Snapshot(p),
                TelemetryUpdate::Snapshot(q),
            ) => vstd::std_specs::cmp::PartialEqSpec::eq_spec(&p, &q),
            (TelemetryUpdate::NoPlayer, TelemetryUpdate::NoPlayer) => true,
            (TelemetryUpdate::SourceAlive, TelemetryUpdate::SourceAlive) => true,
            (TelemetryUpdate::Unchanged, TelemetryUpdate::Unchanged) => true,
            _ => false,
        },
{
}

/// Weather is equal if each of the ten numbers is.
pub proof fn law_weather(a: WeatherSnapshot, b: WeatherSnapshot, x: Wind, y: Wind)
    ensures
        vstd::std_specs::cmp::PartialEqSpec::eq_spec(&x, &y) <==> x.x.equals(y.x) && x.y.equals(y.y)
            && x.z.equals(y.z),
        vstd::std_specs::cmp::PartialEqSpec::eq_spec(&a, &b) <==> {
            &&& a.cloud_darkness.equals(b.cloud_darkness)
            &&& a.rain_intensity.equals(b.rain_intensity)
            &&& a.ambient_temperature_celsius.equals(b.ambient_temperature_celsius)
            &&& a.track_temperature_celsius.equals(b.track_temperature_celsius)
            &&& a.wind.x.equals(b.wind.x)
            &&& a.wind.y.equals(b.wind.y)
            &&& a.wind.z.equals(b.wind.z)
            &&& a.minimum_path_wetness.equals(b.minimum_path_wetness)
            &&& a.maximum_path_wetness.equals(b.maximum_path_wetness)
            &&& a.average_path_wetness.equals(b.average_path_wetness)
        },
{
}

/// Weather updates are equal if they are of one kind and their weather is equal.
pub proof fn law_weather_updates(a: WeatherUpdate, b: WeatherUpdate)
    ensures
        vstd::std_specs::cmp::PartialEqSpec::eq_spec(&a, &b) <==> match (a, b) {
            (
                WeatherUpdate::Snapshot(p),
                WeatherUpdate::Snapshot(q),
            ) => vstd::std_specs::cmp::PartialEqSpec::eq_spec(&p, &q),
            (WeatherUpdate::NoSession, WeatherUpdate::NoSession) => true,
            (WeatherUpdate::Unchanged, WeatherUpdate::Unchanged) => true,
            _ => false,
        },
{
}

/// Keys are equal if their numbers and both names are, compounds if both ends are.
pub proof fn law_keys_and_tires(a: VehicleKey, b: VehicleKey, x: TireCompound, y: TireCompound)
    ensures
        vstd::std_specs::cmp::PartialEqSpec::eq_spec(&a, &b) <==> a.id == b.id
            && a.vehicle_filename@ == b.vehicle_filename@ && a.vehicle_name@ == b.vehicle_name@,
        vstd::std_specs::cmp::PartialEqSpec::eq_spec(&x, &y) <==> x.front@ == y.front@ && x.rear@
            == y.rear@,
{
}

/// Entries are equal if each field is, the distance in the lap as a number.
pub proof fn law_entries(a: StandingEntry, b: StandingEntry)
    ensures
        vstd::std_specs::cmp::PartialEqSpec::eq_spec(&a, &b) <==> {
            &&& a.key@ == b.key@
            &&& a.driver_name@ == b.driver_name@
            &&& a.vehicle_name@ == b.vehicle_name@
            &&& a.vehicle_model@ == b.vehicle_model@
            &&& a.class == b.class
            &&& a.position == b.position
            &&& a.class_position == b.class_position
            &&& a.laps == b.laps
            &&& a.lap_distance.equals(b.lap_distance)
            &&& a.best_lap_ms == b.best_lap_ms
            &&& a.last_lap_ms == b.last_lap_ms
            &&& a.gap_to_leader_ms == b.gap_to_leader_ms
            &&& a.laps_behind_leader == b.laps_behind_leader
            &&& a.gap_to_previous_ms == b.gap_to_previous_ms
            &&& a.laps_behind_previous == b.laps_behind_previous
            &&& a.tires@ == b.tires@
            &&& a.status == b.status
            &&& a.penalties == b.penalties
        },
{
}

/// Standings are equal if they are of one session, track and focus and have equal entries in
/// the same order.
pub proof fn law_standings(a: StandingsSnapshot, b: StandingsSnapshot)
    ensures
        vstd::std_specs::cmp::PartialEqSpec::eq_spec(&a, &b) <==> {
            &&& a.session_generation == b.session_generation
            &&& a.session == b.session
            &&& a.track_name@ == b.track_name@
            &&& match (a.focused_vehicle, b.focused_vehicle) {
                (Some(x), Some(y)) => x@ == y@,
                (None, None) => true,
                _ => false,
            }
            &&& a.entries@.len() == b.entries@.len()
            &&& forall|i: int|
                0 <= i < a.entries@.len() ==> vstd::std_specs::cmp::PartialEqSpec::eq_spec(
                    #[trigger] &a.entries@[i],
                    &b.entries@[i],
                )
        },
{
    let (p, q) = (a@, b@);
    if p.equals(q) {
        assert forall|i: int|
            0 <= i < a.entries@.len() implies vstd::std_specs::cmp::PartialEqSpec::eq_spec(
            #[trigger] &a.entries@[i],
            &b.entries@[i],
        ) by {
            assert(p.entries[i].equals(q.entries[i]));
        }
    }
    if a.entries@.len() == b.entries@.len() && forall|i: int|
        0 <= i < a.entries@.len() ==> vstd::std_specs::cmp::PartialEqSpec::eq_spec(
            #[trigger] &a.entries@[i],
            &b.entries@[i],
        ) {
        assert forall|i: int| 0 <= i < p.entries.len() implies (#[trigger] p.entries[i]).equals(
            q.entries[i],
        ) by {
            assert(vstd::std_specs::cmp::PartialEqSpec::eq_spec(&a.entries@[i], &b.entries@[i]));
        }
    }
}

/// Standings updates are equal if they are of one kind and their standings are equal.
pub proof fn law_standings_updates(a: StandingsUpdate, b: StandingsUpdate)
    ensures
        vstd::std_specs::cmp::PartialEqSpec::eq_spec(&a, &b) <==> match (a, b) {
            (
                StandingsUpdate::Snapshot(p),
                StandingsUpdate::Snapshot(q),
            ) => vstd::std_specs::cmp::PartialEqSpec::eq_spec(&p, &q),
            (StandingsUpdate::NoSession, StandingsUpdate::NoSession) => true,
            (StandingsUpdate::Unchanged, StandingsUpdate::Unchanged) => true,
            _ => false,
        },
{
}

/// The value of an entry has the value of each field.
pub proof fn law_value_of_entry(entry: StandingEntry)
    ensures
        entry@.key.id == entry.key.id,
        entry@.key.vehicle_filename == entry.key.vehicle_filename@,
        entry@.key.vehicle_name == entry.key.vehicle_name@,
        entry@.driver_name == entry.driver_name@,
        entry@.vehicle_name == entry.vehicle_name@,
        entry@.vehicle_model == entry.vehicle_model@,
        entry@.class == entry.class,
        entry@.position == entry.position,
        entry@.class_position == entry.class_position,
        entry@.laps == entry.laps,
        entry@.lap_distance == entry.lap_distance,
        entry@.best_lap_ms == entry.best_lap_ms,
        entry@.last_lap_ms == entry.last_lap_ms,
        entry@.gap_to_leader_ms == entry.gap_to_leader_ms,
        entry@.laps_behind_leader == entry.laps_behind_leader,
        entry@.gap_to_previous_ms == entry.gap_to_previous_ms,
        entry@.laps_behind_previous == entry.laps_behind_previous,
        entry@.tires.front == entry.tires.front@,
        entry@.tires.rear == entry.tires.rear@,
        entry@.status == entry.status,
        entry@.penalties == entry.penalties,
{
}

/// The value of standings has the value of each field, and of each entry in turn.
pub proof fn law_value_of_standings(snapshot: StandingsSnapshot, i: int)
    ensures
        snapshot@.session_generation == snapshot.session_generation,
        snapshot@.session == snapshot.session,
        snapshot@.track_name == snapshot.track_name@,
        snapshot@.focused_vehicle is Some <==> snapshot.focused_vehicle is Some,
        snapshot.focused_vehicle is Some ==> snapshot@.focused_vehicle
            == Some(snapshot.focused_vehicle->0@),
        snapshot@.entries.len() == snapshot.entries@.len(),
        0 <= i < snapshot.entries@.len() ==> snapshot@.entries[i] == snapshot.entries@[i]@,
        StandingsUpdate::Snapshot(snapshot)@->Snapshot_0 == snapshot@,
        StandingsUpdate::NoSession@ is NoSession,
        StandingsUpdate::Unchanged@ is Unchanged,
{
}

/// The value of an error has the value of each field.
pub proof fn law_value_of_error(error: Error)
    ensures
        match error {
            Error::UnsupportedPlatform => error@ is UnsupportedPlatform,
            Error::SharedMemoryUnavailable { name, source } => error@ == (
            ErrorView::SharedMemoryUnavailable { name: name@, source: source@ }),
            Error::MapViewFailed { name } => error@ == (ErrorView::MapViewFailed { name: name@ }),
            Error::OutOfBounds { name, offset, value_size, mapping_size } => error@ == (
            ErrorView::OutOfBounds { name: name@, offset, value_size, mapping_size }),
        },
{
}

/// The value of the state of the standings has the value of each field.
pub proof fn law_value_of_state(state: StandingsState)
    ensures
        state@.startup == state.startup,
        state@.scoring == state.scoring,
        state@.telemetry == state.telemetry,
        state@.elapsed == state.elapsed,
        state@.session_start == state.session_start,
        state@.track == state.track@,
        state@.session == state.session,
        state@.generation == state.generation,
        state@.had_session == state.had_session,
{
}

} // verus!
