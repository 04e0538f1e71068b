//! What the standings that are reported show of the frame that they were made from.

use crate::arithmetic;
use crate::entry::EntryView;
use crate::float::Double;
use crate::frame::{RawEntry, RawStandingsFrame, RawTelemetry};
use crate::gaps;
use crate::ranking;
use crate::standings;
use crate::standings::{StateView, UpdateView};
use crate::text;
use crate::vehicle;
use crate::vehicle::KeyView;
use vstd::arithmetic::power2::*;
use vstd::prelude::*;

verus! {

/// The telemetry of a vehicle is that of the last block with its number, exactly if the block
/// has the vehicle's name too, in any case of letters.
pub proof fn law_telemetry_of_a_vehicle(raw: RawEntry, telemetry: Seq<RawTelemetry>, index: int)
    requires
        0 <= index < telemetry.len(),
        telemetry[index].id == raw.id,
        forall|j: int| index < j < telemetry.len() ==> (#[trigger] telemetry[j]).id != raw.id,
    ensures
        standings::info_of(raw, telemetry) == if text::same_ignoring_case(
            text::field_text(raw.vehicle@),
            text::field_text(telemetry[index].vehicle@),
        ) {
            Some(telemetry[index])
        } else {
            None
        },
{
    lemma_last_with_id(telemetry, raw.id, telemetry.len() as int, index);
}

proof fn lemma_last_with_id(telemetry: Seq<RawTelemetry>, id: i32, n: int, index: int)
    requires
        0 <= index < n <= telemetry.len(),
        telemetry[index].id == id,
        forall|j: int| index < j < n ==> (#[trigger] telemetry[j]).id != id,
    ensures
        standings::last_with_id(telemetry, id, n) == Some(index),
    decreases n,
{
    if index < n - 1 {
        assert(telemetry[n - 1].id != id);
        lemma_last_with_id(telemetry, id, n - 1, index);
    }
}

/// A vehicle whose number no block has is without telemetry.
pub proof fn law_vehicle_without_telemetry(raw: RawEntry, telemetry: Seq<RawTelemetry>)
    requires
        forall|j: int| 0 <= j < telemetry.len() ==> (#[trigger] telemetry[j]).id != raw.id,
    ensures
        standings::info_of(raw, telemetry) is None,
{
    lemma_none_with_id(telemetry, raw.id, telemetry.len() as int);
}

proof fn lemma_none_with_id(telemetry: Seq<RawTelemetry>, id: i32, n: int)
    requires
        n <= telemetry.len(),
        forall|j: int| 0 <= j < telemetry.len() ==> (#[trigger] telemetry[j]).id != id,
    ensures
        standings::last_with_id(telemetry, id, n) is None,
    decreases n,
{
    if n > 0 {
        assert(telemetry[n - 1].id != id);
        lemma_none_with_id(telemetry, id, n - 1);
    }
}

/// Standings that are reported hold each vehicle of the frame once, and of each what the frame
/// has of it: it gives, for each entry, the vehicle that it is of.
pub proof fn law_entries_show_their_vehicles(
    frame: RawStandingsFrame,
    window_exists: bool,
    state: StateView,
) -> (of: Seq<int>)
    requires
        standings::decoded(frame, window_exists, state).1 is Snapshot,
    ensures
        ({
            let snapshot = standings::decoded(frame, window_exists, state).1->Snapshot_0;
            &&& snapshot.session == frame.session
            &&& snapshot.track_name == text::field_text(frame.track@)
            &&& snapshot.entries.len() == frame.entries@.len()
            &&& of.len() == frame.entries@.len()
            &&& forall|k: int, l: int|
                0 <= k < l < of.len() ==> #[trigger] of[k] != #[trigger] of[l]
            &&& forall|k: int|
                0 <= k < of.len() ==> {
                    let raw = frame.entries@[#[trigger] of[k]];
                    let entry = snapshot.entries[k];
                    &&& 0 <= of[k] < frame.entries@.len()
                    &&& entry.key.id == raw.id
                    &&& entry.key.vehicle_filename == text::field_text(raw.filename@)
                    &&& entry.key.vehicle_name == text::field_text(raw.vehicle@)
                    &&& entry.driver_name == text::field_text(raw.driver@)
                    &&& entry.vehicle_name == text::field_text(raw.vehicle@)
                    &&& entry.position == raw.place
                    &&& entry.laps == if raw.laps > 0 {
                        raw.laps as int
                    } else {
                        0
                    }
                    &&& entry.lap_distance == raw.distance
                    &&& entry.best_lap_ms == arithmetic::milliseconds_of(raw.best)
                    &&& entry.last_lap_ms == arithmetic::milliseconds_of(raw.last)
                    &&& entry.status == vehicle::vehicle_status(
                        raw.finish,
                        raw.pit,
                        raw.in_pits,
                        raw.garage,
                    )
                    &&& entry.penalties == if raw.penalties > 0 {
                        raw.penalties as int
                    } else {
                        0
                    }
                }
        }),
{
    let raw = standings::raw_entries(frame);
    let of = ranking::law_ordering_takes_each_once(raw, frame.session);
    let ordered = ranking::in_order(raw, frame.session);
    let snapshot = standings::decoded(frame, window_exists, state).1->Snapshot_0;
    assert(snapshot.entries == gaps::all_placed(ordered, frame.session));
    assert forall|k: int| 0 <= k < of.len() implies {
        &&& 0 <= #[trigger] of[k] < frame.entries@.len()
        &&& ordered[k] == standings::entry_of(
            frame.entries@[of[k]],
            standings::info_of(frame.entries@[of[k]], frame.telemetry@),
        )
    } by {}
    assert forall|k: int| 0 <= k < of.len() implies {
        let entry = snapshot.entries[k];
        let before = ordered[#[trigger] of[k] * 0 + k];
        &&& entry.key == before.key
        &&& entry.driver_name == before.driver_name
        &&& entry.vehicle_name == before.vehicle_name
        &&& entry.position == before.position
        &&& entry.laps == before.laps
        &&& entry.lap_distance == before.lap_distance
        &&& entry.best_lap_ms == before.best_lap_ms
        &&& entry.last_lap_ms == before.last_lap_ms
        &&& entry.status == before.status
        &&& entry.penalties == before.penalties
    } by {
        gaps::law_placing_keeps_the_rest(ordered, k, frame.session);
    }
    of
}

/// Each entry has the class, the model and the tires of its vehicle: the class by the code of
/// its telemetry, where that is known, and else by the name of its class; the model and the
/// tires of its telemetry, and none without. It gives the vehicle that the entry is of.
pub proof fn law_entry_is_joined_with_telemetry(
    frame: RawStandingsFrame,
    window_exists: bool,
    state: StateView,
    k: int,
) -> (i: int)
    requires
        standings::decoded(frame, window_exists, state).1 is Snapshot,
        0 <= k < frame.entries@.len(),
    ensures
        0 <= i < frame.entries@.len(),
        ({
            let entry = standings::decoded(frame, window_exists, state).1->Snapshot_0.entries[k];
            let raw = frame.entries@[i];
            let info = standings::info_of(raw, frame.telemetry@);
            let named = vehicle::named_class(text::field_text(raw.class@));
            &&& entry.key == (KeyView {
                id: raw.id,
                vehicle_filename: text::field_text(raw.filename@),
                vehicle_name: text::field_text(raw.vehicle@),
            })
            &&& info is None ==> entry.class == named && entry.vehicle_model.len() == 0
                && entry.tires.front.len() == 0 && entry.tires.rear.len() == 0
            &&& info is Some ==> {
                &&& entry.vehicle_model == text::field_text(info->0.model@)
                &&& entry.tires.front == text::field_text(info->0.front@)
                &&& entry.tires.rear == text::field_text(info->0.rear@)
                &&& entry.class == if vehicle::coded_class(info->0.class) is Unknown {
                    named
                } else {
                    vehicle::coded_class(info->0.class)
                }
            }
        }),
{
    let raw = standings::raw_entries(frame);
    let of = ranking::law_ordering_takes_each_once(raw, frame.session);
    let ordered = ranking::in_order(raw, frame.session);
    gaps::law_placing_keeps_the_rest(ordered, k, frame.session);
    assert(ordered[k] == raw[of[k]]);
    of[k]
}

/// Before gaps are measured within the class, an entry has those that the frame has, to the
/// leader of the race and to the vehicle ahead.
pub proof fn law_gaps_of_the_frame(raw: RawEntry, telemetry: Seq<RawTelemetry>)
    ensures
        ({
            let entry = standings::entry_of(raw, standings::info_of(raw, telemetry));
            &&& entry.gap_to_leader_ms == arithmetic::milliseconds_of(raw.behind_leader)
            &&& entry.gap_to_previous_ms == arithmetic::milliseconds_of(raw.behind_next)
            &&& raw.laps_leader <= 0 ==> entry.laps_behind_leader == 0
            &&& 0 <= raw.laps_leader <= 65535 ==> entry.laps_behind_leader == raw.laps_leader
            &&& raw.laps_leader >= 65535 ==> entry.laps_behind_leader == 65535
            &&& raw.laps_next <= 0 ==> entry.laps_behind_previous == 0
            &&& 0 <= raw.laps_next <= 65535 ==> entry.laps_behind_previous == raw.laps_next
            &&& raw.laps_next >= 65535 ==> entry.laps_behind_previous == 65535
        }),
{
}

/// The gaps that standings report are those measured within the classes, over the entries in
/// order with the gaps of the frame.
pub proof fn law_gaps_are_measured_in_order(
    frame: RawStandingsFrame,
    window_exists: bool,
    state: StateView,
) -> (ordered: Seq<EntryView>)
    requires
        standings::decoded(frame, window_exists, state).1 is Snapshot,
    ensures
        standings::decoded(frame, window_exists, state).1->Snapshot_0.entries == gaps::all_placed(
            ordered,
            frame.session,
        ),
        ordered.len() == frame.entries@.len(),
        forall|k: int|
            0 <= k < ordered.len() ==> exists|i: int|
                0 <= i < frame.entries@.len() && #[trigger] ordered[k] == standings::entry_of(
                    #[trigger] frame.entries@[i],
                    standings::info_of(frame.entries@[i], frame.telemetry@),
                ),
{
    let raw = standings::raw_entries(frame);
    let ordered = ranking::in_order(raw, frame.session);
    let of = ranking::law_ordering_takes_each_once(raw, frame.session);
    assert forall|k: int| 0 <= k < ordered.len() implies exists|i: int|
        0 <= i < frame.entries@.len() && #[trigger] ordered[k] == standings::entry_of(
            #[trigger] frame.entries@[i],
            standings::info_of(frame.entries@[i], frame.telemetry@),
        ) by {
        let i = of[k];
        assert(ordered[k] == standings::entry_of(
            frame.entries@[i],
            standings::info_of(frame.entries@[i], frame.telemetry@),
        ));
    }
    ordered
}

/// Lap times are those of the frame in whole milliseconds, for the best lap and for the last
/// one: there is one exactly if the seconds are finite and above zero and fit, and it lies
/// within half a millisecond of 1000 times the seconds, but for the rounding of that product
/// to a double. The seconds count 2^-1074. It gives the vehicle that the entry is of.
pub proof fn law_lap_times_are_those_of_the_frame(
    frame: RawStandingsFrame,
    window_exists: bool,
    state: StateView,
    k: int,
) -> (i: int)
    requires
        standings::decoded(frame, window_exists, state).1 is Snapshot,
        0 <= k < frame.entries@.len(),
    ensures
        0 <= i < frame.entries@.len(),
        ({
            let entry = standings::decoded(frame, window_exists, state).1->Snapshot_0.entries[k];
            entry.key.id == frame.entries@[i].id
        }),
        forall|seconds: Double, time: Option<u64>|
            {
                let entry = standings::decoded(
                    frame,
                    window_exists,
                    state,
                ).1->Snapshot_0.entries[k];
                ||| seconds == frame.entries@[i].best && time == entry.best_lap_ms
                ||| seconds == frame.entries@[i].last && time == entry.last_lap_ms
            } ==> #[trigger] shows_time(seconds, time),
{
    let of = law_entries_show_their_vehicles(frame, window_exists, state);
    let i = of[k];
    let entry = standings::decoded(frame, window_exists, state).1->Snapshot_0.entries[k];
    lemma_shows_time(frame.entries@[i].best);
    lemma_shows_time(frame.entries@[i].last);
    i
}

/// Whether a time in milliseconds is that of the seconds: known if they are finite, above zero
/// and no more than 2^64 milliseconds, not known if they are not finite, not above zero or
/// more than those by the last place of a double; and no further from 1000 times the seconds
/// than half a millisecond and one part in 2^53.
pub open spec fn shows_time(seconds: Double, time: Option<u64>) -> bool {
    let exact = 1000 * seconds.units();
    &&& seconds.finite() && 0 < exact <= pow2(1138) ==> time is Some
    &&& !seconds.finite() || exact <= 0 || exact >= pow2(1138) + pow2(1086) ==> time is None
    &&& time is Some && time->0 < u64::MAX ==> {
        let apart = if time->0 * pow2(1074) >= exact {
            time->0 * pow2(1074) - exact
        } else {
            exact - time->0 * pow2(1074)
        };
        pow2(54) * apart <= pow2(1127) + 2 * exact
    }
}

proof fn lemma_shows_time(seconds: Double)
    ensures
        shows_time(seconds, arithmetic::milliseconds_of(seconds)),
{
    let time = arithmetic::milliseconds_of(seconds);
    arithmetic::law_which_times_are_known(seconds);
    if time is Some && time->0 < u64::MAX {
        arithmetic::law_milliseconds_are_nearest(seconds, time->0);
    }
}

/// Standings are in order: those with a position first, from the first position on; in
/// qualifying the others by their best lap, those without one first, and else by laps and
/// distance, the furthest first; and by the number of the vehicle between those still alike.
pub proof fn law_standings_are_in_order(
    frame: RawStandingsFrame,
    window_exists: bool,
    state: StateView,
    k: int,
    l: int,
)
    requires
        standings::decoded(frame, window_exists, state).1 is Snapshot,
        0 <= k < l < frame.entries@.len(),
        5 <= frame.session <= 8 || forall|i: int|
            0 <= i < frame.entries@.len() ==> (#[trigger] frame.entries@[i]).place > 0
                || !frame.entries@[i].distance.nan(),
    ensures
        ({
            let entries = standings::decoded(frame, window_exists, state).1->Snapshot_0.entries;
            let (a, b) = (entries[k], entries[l]);
            &&& b.position > 0 ==> 0 < a.position <= b.position
            &&& a.position == 0 && b.position == 0 && 5 <= frame.session <= 8 ==> {
                &&& a.best_lap_ms is Some ==> b.best_lap_ms is Some && a.best_lap_ms->0
                    <= b.best_lap_ms->0
                &&& a.best_lap_ms == b.best_lap_ms ==> a.key.id <= b.key.id
            }
            &&& a.position == 0 && b.position == 0 && !(5 <= frame.session <= 8) ==> {
                &&& a.laps >= b.laps
                &&& a.laps == b.laps ==> a.lap_distance.units() >= b.lap_distance.units()
                &&& a.laps == b.laps && a.lap_distance.units() == b.lap_distance.units()
                    ==> a.key.id <= b.key.id
            }
        }),
{
    let raw = standings::raw_entries(frame);
    let ordered = ranking::in_order(raw, frame.session);
    assert forall|i: int| 0 <= i < raw.len() implies 5 <= frame.session <= 8 || (
    #[trigger] raw[i]).position > 0 || !raw[i].lap_distance.nan() by {
        assert(frame.entries@[i].place > 0 || !frame.entries@[i].distance.nan() || 5
            <= frame.session <= 8);
    }
    ranking::law_ordering_takes_each_once(raw, frame.session);
    ranking::law_ordered_entries(raw, frame.session, k, l);
    gaps::law_placing_keeps_the_rest(ordered, k, frame.session);
    gaps::law_placing_keeps_the_rest(ordered, l, frame.session);
}

/// A vehicle that is marked as the player's has the focus, and the first of several.
pub proof fn law_marked_vehicle_has_focus(
    frame: RawStandingsFrame,
    window_exists: bool,
    state: StateView,
    i: int,
)
    requires
        standings::decoded(frame, window_exists, state).1 is Snapshot,
        0 <= i < frame.entries@.len(),
        frame.entries@[i].player,
        forall|j: int| 0 <= j < i ==> !(#[trigger] frame.entries@[j]).player,
    ensures
        standings::decoded(frame, window_exists, state).1->Snapshot_0.focused_vehicle == Some(
            KeyView {
                id: frame.entries@[i].id,
                vehicle_filename: text::field_text(frame.entries@[i].filename@),
                vehicle_name: text::field_text(frame.entries@[i].vehicle@),
            },
        ),
{
    lemma_none_marked(frame.entries@, i);
    lemma_marked_stays(frame.entries@, i + 1, frame.entries@.len() as int);
}

proof fn lemma_none_marked(entries: Seq<RawEntry>, n: int)
    requires
        n <= entries.len(),
        forall|j: int| 0 <= j < n ==> !(#[trigger] entries[j]).player,
    ensures
        standings::marked_focus(entries, n) is None,
    decreases n,
{
    if n > 0 {
        assert(!entries[n - 1].player);
        lemma_none_marked(entries, n - 1);
    }
}

proof fn lemma_marked_stays(entries: Seq<RawEntry>, n: int, m: int)
    requires
        n <= m,
        standings::marked_focus(entries, n) is Some,
    ensures
        standings::marked_focus(entries, m) == standings::marked_focus(entries, n),
    decreases m - n,
{
    if n < m {
        lemma_marked_stays(entries, n, m - 1);
    }
}

/// Where no vehicle is marked, the first that has the player's telemetry has the focus.
pub proof fn law_vehicle_with_players_telemetry_has_focus(
    frame: RawStandingsFrame,
    window_exists: bool,
    state: StateView,
    i: int,
)
    requires
        standings::decoded(frame, window_exists, state).1 is Snapshot,
        forall|j: int| 0 <= j < frame.entries@.len() ==> !(#[trigger] frame.entries@[j]).player,
        0 <= i < frame.entries@.len(),
        frame.player_telemetry_id == Some(frame.entries@[i].id),
        standings::info_of(frame.entries@[i], frame.telemetry@) is Some,
        forall|j: int|
            0 <= j < i ==> frame.player_telemetry_id != Some((#[trigger] frame.entries@[j]).id)
                || standings::info_of(frame.entries@[j], frame.telemetry@) is None,
    ensures
        standings::decoded(frame, window_exists, state).1->Snapshot_0.focused_vehicle == Some(
            KeyView {
                id: frame.entries@[i].id,
                vehicle_filename: text::field_text(frame.entries@[i].filename@),
                vehicle_name: text::field_text(frame.entries@[i].vehicle@),
            },
        ),
{
    lemma_none_marked(frame.entries@, frame.entries@.len() as int);
    lemma_none_with_telemetry(frame, i);
    lemma_telemetry_focus_stays(frame, i + 1, frame.entries@.len() as int);
}

proof fn lemma_none_with_telemetry(frame: RawStandingsFrame, n: int)
    requires
        n <= frame.entries@.len(),
        forall|j: int|
            0 <= j < n ==> frame.player_telemetry_id != Some((#[trigger] frame.entries@[j]).id)
                || standings::info_of(frame.entries@[j], frame.telemetry@) is None,
    ensures
        standings::telemetry_focus(frame, n) is None,
    decreases n,
{
    if n > 0 {
        assert(frame.player_telemetry_id != Some(frame.entries@[n - 1].id) || standings::info_of(
            frame.entries@[n - 1],
            frame.telemetry@,
        ) is None);
        lemma_none_with_telemetry(frame, n - 1);
    }
}

proof fn lemma_telemetry_focus_stays(frame: RawStandingsFrame, n: int, m: int)
    requires
        n <= m,
        standings::telemetry_focus(frame, n) is Some,
    ensures
        standings::telemetry_focus(frame, m) == standings::telemetry_focus(frame, n),
    decreases m - n,
{
    if n < m {
        lemma_telemetry_focus_stays(frame, n, m - 1);
    }
}

/// Where no vehicle is marked and none has the player's telemetry, the one whose driver has
/// the player's name has the focus, if there is one and only one and the name is not empty;
/// otherwise none has it.
pub proof fn law_driver_has_focus(
    frame: RawStandingsFrame,
    window_exists: bool,
    state: StateView,
    i: int,
    j: int,
)
    requires
        standings::decoded(frame, window_exists, state).1 is Snapshot,
        forall|j: int| 0 <= j < frame.entries@.len() ==> !(#[trigger] frame.entries@[j]).player,
        forall|j: int|
            0 <= j < frame.entries@.len() ==> frame.player_telemetry_id != Some(
                (#[trigger] frame.entries@[j]).id,
            ) || standings::info_of(frame.entries@[j], frame.telemetry@) is None,
    ensures
        ({
            let focus = standings::decoded(
                frame,
                window_exists,
                state,
            ).1->Snapshot_0.focused_vehicle;
            let player = text::field_text(frame.player_name@);
            let drives = |n: int|
                0 <= n < frame.entries@.len() && text::same_ignoring_case(
                    text::field_text(frame.entries@[n].driver@),
                    player,
                );
            &&& player.len() == 0 ==> focus is None
            &&& (forall|n: int| !#[trigger] drives(n)) ==> focus is None
            &&& drives(i) && drives(j) && i != j ==> focus is None
            &&& player.len() > 0 && drives(i) && (forall|n: int| #[trigger] drives(n) ==> n == i)
                ==> focus == Some(
                KeyView {
                    id: frame.entries@[i].id,
                    vehicle_filename: text::field_text(frame.entries@[i].filename@),
                    vehicle_name: text::field_text(frame.entries@[i].vehicle@),
                },
            )
        }),
{
    let n = frame.entries@.len() as int;
    lemma_none_marked(frame.entries@, n);
    lemma_none_with_telemetry(frame, n);
    let player = text::field_text(frame.player_name@);
    let drives = |n: int|
        0 <= n < frame.entries@.len() && text::same_ignoring_case(
            text::field_text(frame.entries@[n].driver@),
            player,
        );
    let entries = standings::standings_of(frame);
    let kept = standings::driven_by(player);
    let raw = standings::raw_entries(frame);
    let ordered = ranking::in_order(raw, frame.session);
    let of = ranking::law_ordering_takes_each_once(raw, frame.session);
    assert forall|k: int| 0 <= k < entries.len() implies {
        &&& kept(#[trigger] entries[k]) == drives(of[k])
        &&& entries[k].key == standings::key_of(frame.entries@[of[k]])
        &&& 0 <= of[k] < n
    } by {
        gaps::law_placing_keeps_the_rest(ordered, k, frame.session);
        assert(ordered[k] == raw[of[k]]);
    }
    if forall|n: int| !#[trigger] drives(n) {
        assert forall|k: int| 0 <= k < entries.len() implies !kept(#[trigger] entries[k]) by {
            assert(!drives(of[k]));
        }
        lemma_kept_none(entries, kept);
    }
    if drives(i) {
        let p = lemma_place_of(of, n, i);
        assert(kept(entries[p]));
        if drives(j) && i != j {
            let q = lemma_place_of(of, n, j);
            assert(kept(entries[q]));
            lemma_kept_two(entries, kept, p, q);
        }
        if forall|n: int| #[trigger] drives(n) ==> n == i {
            assert forall|k: int| 0 <= k < entries.len() && k != p implies !kept(
                #[trigger] entries[k],
            ) by {
                assert(of[k] != of[p]);
                assert(!drives(of[k]));
            }
            lemma_kept_one(entries, kept, p);
        }
    }
}

/// Each number stands somewhere in a sequence of as many different ones.
proof fn lemma_place_of(of: Seq<int>, n: int, i: int) -> (place: int)
    requires
        of.len() == n,
        0 <= i < n,
        forall|k: int| 0 <= k < n ==> 0 <= #[trigger] of[k] < n,
        forall|k: int, l: int| 0 <= k < l < n ==> #[trigger] of[k] != #[trigger] of[l],
    ensures
        0 <= place < n,
        of[place] == i,
    decreases n,
{
    let last = n - 1;
    if of[last] == i {
        last
    } else {
        let shorter = Seq::new(
            last as nat,
            |k: int|
                if of[k] == last {
                    of[last]
                } else {
                    of[k]
                },
        );
        assert forall|k: int| 0 <= k < last implies 0 <= #[trigger] shorter[k] < last by {
            assert(of[k] != of[last]);
        }
        assert forall|k: int, l: int| 0 <= k < l < last implies #[trigger] shorter[k]
            != #[trigger] shorter[l] by {
            assert(of[k] != of[l] && of[k] != of[last] && of[l] != of[last]);
        }
        if i == last {
            let place = lemma_place_of(shorter, last, of[last]);
            assert(of[place] != of[last]);
            place
        } else {
            let place = lemma_place_of(shorter, last, i);
            place
        }
    }
}

proof fn lemma_kept_none(entries: Seq<EntryView>, kept: spec_fn(EntryView) -> bool)
    requires
        forall|k: int| 0 <= k < entries.len() ==> !kept(#[trigger] entries[k]),
    ensures
        entries.filter(kept).len() == 0,
    decreases entries.len(),
{
    reveal(Seq::filter);
    if entries.len() > 0 {
        assert(!kept(entries[entries.len() - 1]));
        assert forall|k: int| 0 <= k < entries.drop_last().len() implies !kept(
            #[trigger] entries.drop_last()[k],
        ) by {
            assert(!kept(entries[k]));
        }
        lemma_kept_none(entries.drop_last(), kept);
    }
}

proof fn lemma_kept_one(entries: Seq<EntryView>, kept: spec_fn(EntryView) -> bool, p: int)
    requires
        0 <= p < entries.len(),
        kept(entries[p]),
        forall|k: int| 0 <= k < entries.len() && k != p ==> !kept(#[trigger] entries[k]),
    ensures
        entries.filter(kept).len() == 1,
        entries.filter(kept)[0] == entries[p],
    decreases entries.len(),
{
    reveal(Seq::filter);
    let rest = entries.drop_last();
    if p == entries.len() - 1 {
        assert forall|k: int| 0 <= k < rest.len() implies !kept(#[trigger] rest[k]) by {
            assert(!kept(entries[k]));
        }
        lemma_kept_none(rest, kept);
    } else {
        assert(!kept(entries[entries.len() - 1]));
        assert forall|k: int| 0 <= k < rest.len() && k != p implies !kept(#[trigger] rest[k]) by {
            assert(!kept(entries[k]));
        }
        lemma_kept_one(rest, kept, p);
    }
}

proof fn lemma_kept_some(entries: Seq<EntryView>, kept: spec_fn(EntryView) -> bool, p: int)
    requires
        0 <= p < entries.len(),
        kept(entries[p]),
    ensures
        entries.filter(kept).len() >= 1,
    decreases entries.len(),
{
    reveal(Seq::filter);
    if p < entries.len() - 1 {
        lemma_kept_some(entries.drop_last(), kept, p);
    }
}

proof fn lemma_kept_two(entries: Seq<EntryView>, kept: spec_fn(EntryView) -> bool, p: int, q: int)
    requires
        0 <= p < entries.len(),
        0 <= q < entries.len(),
        p != q,
        kept(entries[p]),
        kept(entries[q]),
    ensures
        entries.filter(kept).len() >= 2,
    decreases entries.len(),
{
    reveal(Seq::filter);
    let rest = entries.drop_last();
    if p == entries.len() - 1 {
        lemma_kept_some(rest, kept, q);
    } else if q == entries.len() - 1 {
        lemma_kept_some(rest, kept, p);
    } else {
        lemma_kept_two(rest, kept, p, q);
    }
}

/// A frame whose time is not finite changes nothing and is not reported.
pub proof fn law_time_has_to_be_finite(
    frame: RawStandingsFrame,
    window_exists: bool,
    state: StateView,
)
    requires
        !frame.elapsed.finite(),
    ensures
        standings::decoded(frame, window_exists, state) == (state, UpdateView::Unchanged),
{
}

/// Without a source or without a vehicle there is no session. That is reported where there was
/// one, or where the start of the source, the scoring or the time is another; the number of
/// the session stays.
pub proof fn law_no_session(frame: RawStandingsFrame, window_exists: bool, state: StateView)
    requires
        frame.elapsed.finite(),
        frame.window == 0 || !window_exists || (frame.shutdown != 0 && frame.shutdown
            >= frame.startup) || frame.entries@.len() == 0,
    ensures
        ({
            let (after, update) = standings::decoded(frame, window_exists, state);
            &&& update is NoSession <==> state.had_session || state.startup != Some(frame.startup)
                || state.scoring != Some(frame.scoring) || state.elapsed != Some(
                frame.elapsed.bits,
            )
            &&& !(update is Snapshot)
            &&& !after.had_session
            &&& after.generation == state.generation
            &&& after.track == state.track
            &&& after.session == state.session
            &&& after.startup == Some(frame.startup)
            &&& after.scoring == Some(frame.scoring)
            &&& after.telemetry == Some(frame.telemetry_event)
            &&& after.elapsed == Some(frame.elapsed.bits)
            &&& after.session_start == Some(frame.session_start)
        }),
{
}

/// With a source and a vehicle the standings are reported, unless all of the start of the
/// source, the scoring, the telemetry, the time and the start of the session are as they were
/// seen before: then nothing changes.
pub proof fn law_new_standings_are_reported(
    frame: RawStandingsFrame,
    window_exists: bool,
    state: StateView,
)
    requires
        frame.elapsed.finite(),
        frame.window != 0 && window_exists && (frame.shutdown == 0 || frame.shutdown
            < frame.startup),
        frame.entries@.len() > 0,
    ensures
        ({
            let (after, update) = standings::decoded(frame, window_exists, state);
            let seen = state.startup == Some(frame.startup) && state.scoring == Some(frame.scoring)
                && state.telemetry == Some(frame.telemetry_event) && state.elapsed == Some(
                frame.elapsed.bits,
            ) && state.session_start == Some(frame.session_start);
            &&& seen ==> update is Unchanged && after == state
            &&& !seen ==> {
                &&& update is Snapshot
                &&& update->Snapshot_0.session_generation == after.generation
                &&& after.had_session
                &&& after.startup == Some(frame.startup)
                &&& after.scoring == Some(frame.scoring)
                &&& after.telemetry == Some(frame.telemetry_event)
                &&& after.elapsed == Some(frame.elapsed.bits)
                &&& after.session_start == Some(frame.session_start)
                &&& after.track == text::field_text(frame.track@)
                &&& after.session == frame.session
            }
        }),
{
}

/// Standings belong to another session, with the next number, where there was none, or where
/// the start of the source, the start of the session, the track or the kind of session is
/// another, or where the source does not count sessions and its clock went back, by so much
/// more than a thousandth of a second that a double lies between.
pub proof fn law_another_session_has_the_next_number(
    frame: RawStandingsFrame,
    window_exists: bool,
    state: StateView,
    between: Double,
)
    requires
        standings::decoded(frame, window_exists, state).1 is Snapshot,
        ({
            ||| !state.had_session
            ||| state.startup != Some(frame.startup)
            ||| state.session_start != Some(frame.session_start)
            ||| state.track != text::field_text(frame.track@)
            ||| state.session != frame.session
            ||| frame.session_start == 0 && state.elapsed is Some && between.finite() && !(
            Double { bits: state.elapsed->0 }).nan() && frame.elapsed.units()
                + arithmetic::thousandth().units() <= between.units() < (Double {
                bits: state.elapsed->0,
            }).units()
        }),
    ensures
        standings::decoded(frame, window_exists, state).0.generation == if state.generation
            == u64::MAX {
            1
        } else {
            state.generation + 1
        },
{
    if state.elapsed is Some {
        arithmetic::law_clock_falls_back_by_a_thousandth(
            frame.elapsed,
            Double { bits: state.elapsed->0 },
            between,
        );
    }
}

/// Standings belong to the session seen before, with its number, where the start of the
/// source, the start of the session, the track and the kind of session are the same and
/// either the source counts sessions or its clock did not go back by more than a thousandth
/// of a second.
pub proof fn law_the_same_session_keeps_its_number(
    frame: RawStandingsFrame,
    window_exists: bool,
    state: StateView,
)
    requires
        standings::valid(state),
        state.had_session,
        state.startup == Some(frame.startup),
        state.session_start == Some(frame.session_start),
        state.track == text::field_text(frame.track@),
        state.session == frame.session,
        frame.session_start != 0 || frame.elapsed.units() + arithmetic::thousandth().units() >= (
        Double { bits: state.elapsed->0 }).units(),
    ensures
        standings::decoded(frame, window_exists, state).0.generation == state.generation,
{
    let old = Double { bits: state.elapsed->0 };
    arithmetic::law_clock_falls_back_by_a_thousandth(frame.elapsed, old, old);
}

} // verus!
