//! The standings of the session.

use crate::arithmetic;
use crate::entry;
use crate::entry::{EntryView, StandingEntry};
use crate::error::Error;
use crate::float::Double;
use crate::frame;
use crate::frame::{FrameCounts, RawEntry, RawStandingsFrame, RawTelemetry};
use crate::gaps;
use crate::layout::APPLICATION_WINDOW;
use crate::memory;
use crate::memory::Memory;
use crate::ranking;
use crate::source;
use crate::text;
use crate::vehicle;
use crate::vehicle::{CompoundView, KeyView, TireCompound, VehicleClass, VehicleKey};
use vstd::prelude::*;
use vstd::seq_lib::*;

verus! {

/// The standings at one moment.
#[derive(Debug)]
pub struct StandingsSnapshot {
    /// Counts the sessions that were seen to begin.
    pub session_generation: u64,
    pub session: i32,
    pub track_name: String,
    pub focused_vehicle: Option<VehicleKey>,
    pub entries: Vec<StandingEntry>,
}

/// The value of a [`StandingsSnapshot`].
#[verifier::ext_equal]
pub struct SnapshotView {
    pub session_generation: u64,
    pub session: i32,
    pub track_name: Seq<char>,
    pub focused_vehicle: Option<KeyView>,
    pub entries: Seq<EntryView>,
}

impl SnapshotView {
    /// Whether the two compare as equal.
    pub open spec fn equals(self, other: SnapshotView) -> bool {
        &&& self.session_generation == other.session_generation
        &&& self.session == other.session
        &&& self.track_name == other.track_name
        &&& self.focused_vehicle == other.focused_vehicle
        &&& self.entries.len() == other.entries.len()
        &&& forall|i: int|
            0 <= i < self.entries.len() ==> (#[trigger] self.entries[i]).equals(other.entries[i])
    }
}

impl View for StandingsSnapshot {
    type V = SnapshotView;

    open spec fn view(&self) -> SnapshotView {
        SnapshotView {
            session_generation: self.session_generation,
            session: self.session,
            track_name: self.track_name@,
            focused_vehicle: vehicle::optional_key(self.focused_vehicle),
            entries: entry::values(self.entries@),
        }
    }
}

impl PartialEq for StandingsSnapshot {
    fn eq(&self, other: &StandingsSnapshot) -> (same: bool) {
        let len: usize = self.entries.len();
        if self.session_generation != other.session_generation || self.session != other.session
            || self.track_name != other.track_name || self.focused_vehicle != other.focused_vehicle
            || len != other.entries.len() {
            return false;
        }
        let mut i: usize = 0;
        while i < len
            invariant
                i <= len,
                len == self.entries@.len(),
                len == other.entries@.len(),
                forall|j: int|
                    0 <= j < i ==> (#[trigger] self@.entries[j]).equals(other@.entries[j]),
            decreases len - i,
        {
            if self.entries[i] != other.entries[i] {
                assert(!self@.entries[i as int].equals(other@.entries[i as int]));
                return false;
            }
            i += 1;
        }
        true
    }
}

impl vstd::std_specs::cmp::PartialEqSpecImpl for StandingsSnapshot {
    open spec fn obeys_eq_spec() -> bool {
        true
    }

    open spec fn eq_spec(&self, other: &StandingsSnapshot) -> bool {
        self@.equals(other@)
    }
}

impl Clone for StandingsSnapshot {
    fn clone(&self) -> (copy: StandingsSnapshot)
        ensures
            copy@ == self@,
    {
        let len: usize = self.entries.len();
        let mut entries: Vec<StandingEntry> = Vec::new();
        let mut i: usize = 0;
        while i < len
            invariant
                i <= len == self.entries@.len(),
                entries@ == self.entries@.take(i as int),
            decreases len - i,
        {
            entries.push(self.entries[i].clone());
            i += 1;
            assert(entries@ =~= self.entries@.take(i as int));
        }
        assert(entries@ =~= self.entries@);
        let focused_vehicle: Option<VehicleKey> = match &self.focused_vehicle {
            Some(key) => Some(key.clone()),
            None => None,
        };
        StandingsSnapshot {
            session_generation: self.session_generation,
            session: self.session,
            track_name: self.track_name.clone(),
            focused_vehicle,
            entries,
        }
    }
}

impl Default for StandingsSnapshot {
    /// Empty standings.
    fn default() -> (snapshot: StandingsSnapshot)
        ensures
            snapshot@ == (SnapshotView {
                session_generation: 0,
                session: 0,
                track_name: seq![],
                focused_vehicle: None,
                entries: seq![],
            }),
    {
        let snapshot: StandingsSnapshot = StandingsSnapshot {
            session_generation: 0,
            session: 0,
            track_name: String::new(),
            focused_vehicle: None,
            entries: Vec::new(),
        };
        assert(snapshot@.entries =~= seq![]);
        snapshot
    }
}

/// What a read reports.
#[derive(Debug)]
pub enum StandingsUpdate {
    /// The standings are new.
    Snapshot(StandingsSnapshot),
    /// There is no session.
    NoSession,
    /// Nothing is new.
    Unchanged,
}

/// The value of a [`StandingsUpdate`].
#[verifier::ext_equal]
pub enum UpdateView {
    Snapshot(SnapshotView),
    NoSession,
    Unchanged,
}

impl View for StandingsUpdate {
    type V = UpdateView;

    open spec fn view(&self) -> UpdateView {
        match self {
            StandingsUpdate::Snapshot(snapshot) => UpdateView::Snapshot(snapshot@),
            StandingsUpdate::NoSession => UpdateView::NoSession,
            StandingsUpdate::Unchanged => UpdateView::Unchanged,
        }
    }
}

impl PartialEq for StandingsUpdate {
    fn eq(&self, other: &StandingsUpdate) -> (same: bool) {
        match (self, other) {
            (StandingsUpdate::Snapshot(a), StandingsUpdate::Snapshot(b)) => *a == *b,
            (StandingsUpdate::NoSession, StandingsUpdate::NoSession) => true,
            (StandingsUpdate::Unchanged, StandingsUpdate::Unchanged) => true,
            _ => false,
        }
    }
}

impl vstd::std_specs::cmp::PartialEqSpecImpl for StandingsUpdate {
    open spec fn obeys_eq_spec() -> bool {
        true
    }

    open spec fn eq_spec(&self, other: &StandingsUpdate) -> bool {
        match (self@, other@) {
            (UpdateView::Snapshot(a), UpdateView::Snapshot(b)) => a.equals(b),
            (UpdateView::NoSession, UpdateView::NoSession) => true,
            (UpdateView::Unchanged, UpdateView::Unchanged) => true,
            _ => false,
        }
    }
}

impl Clone for StandingsUpdate {
    fn clone(&self) -> (copy: StandingsUpdate)
        ensures
            copy@ == self@,
    {
        match self {
            StandingsUpdate::Snapshot(snapshot) => StandingsUpdate::Snapshot(snapshot.clone()),
            StandingsUpdate::NoSession => StandingsUpdate::NoSession,
            StandingsUpdate::Unchanged => StandingsUpdate::Unchanged,
        }
    }
}

/// What earlier reads have seen; the time of the session is kept as bits.
#[derive(Debug)]
pub struct StandingsState {
    pub startup: Option<u32>,
    pub scoring: Option<u32>,
    pub telemetry: Option<u32>,
    pub elapsed: Option<u64>,
    pub session_start: Option<u32>,
    pub track: String,
    pub session: i32,
    pub generation: u64,
    pub had_session: bool,
}

/// The value of a [`StandingsState`].
#[verifier::ext_equal]
pub struct StateView {
    pub startup: Option<u32>,
    pub scoring: Option<u32>,
    pub telemetry: Option<u32>,
    pub elapsed: Option<u64>,
    pub session_start: Option<u32>,
    pub track: Seq<char>,
    pub session: i32,
    pub generation: u64,
    pub had_session: bool,
}

impl View for StandingsState {
    type V = StateView;

    open spec fn view(&self) -> StateView {
        StateView {
            startup: self.startup,
            scoring: self.scoring,
            telemetry: self.telemetry,
            elapsed: self.elapsed,
            session_start: self.session_start,
            track: self.track@,
            session: self.session,
            generation: self.generation,
            had_session: self.had_session,
        }
    }
}

/// The state before the first read.
pub open spec fn nothing_seen() -> StateView {
    StateView {
        startup: None,
        scoring: None,
        telemetry: None,
        elapsed: None,
        session_start: None,
        track: seq![],
        session: 0,
        generation: 0,
        had_session: false,
    }
}

impl Default for StandingsState {
    /// Nothing seen yet.
    fn default() -> (state: StandingsState)
        ensures
            state@ == nothing_seen(),
    {
        StandingsState {
            startup: None,
            scoring: None,
            telemetry: None,
            elapsed: None,
            session_start: None,
            track: String::new(),
            session: 0,
            generation: 0,
            had_session: false,
        }
    }
}

/// What holds of every state that reads can lead to: a session that was seen has a number
/// and a time, and the time is finite.
pub open spec fn valid(state: StateView) -> bool {
    &&& state.had_session ==> state.generation > 0 && state.elapsed is Some
    &&& state.elapsed is Some ==> (Double { bits: state.elapsed->0 }).finite()
}

/// The last of the first `n` telemetry blocks with the vehicle's number.
pub open spec fn last_with_id(telemetry: Seq<RawTelemetry>, id: i32, n: int) -> Option<int>
    decreases n,
{
    if n <= 0 {
        None
    } else if telemetry[n - 1].id == id {
        Some(n - 1)
    } else {
        last_with_id(telemetry, id, n - 1)
    }
}

/// The telemetry of a vehicle: the last block with its number, if it names the same
/// vehicle.
pub open spec fn info_of(raw: RawEntry, telemetry: Seq<RawTelemetry>) -> Option<RawTelemetry> {
    match last_with_id(telemetry, raw.id, telemetry.len() as int) {
        Some(index) => if text::same_ignoring_case(
            text::field_text(raw.vehicle@),
            text::field_text(telemetry[index].vehicle@),
        ) {
            Some(telemetry[index])
        } else {
            None
        },
        None => None,
    }
}

/// The key of a vehicle.
pub open spec fn key_of(raw: RawEntry) -> KeyView {
    KeyView {
        id: raw.id,
        vehicle_filename: text::field_text(raw.filename@),
        vehicle_name: text::field_text(raw.vehicle@),
    }
}

/// The class of a vehicle: that of its telemetry's code, or else that of its class name.
pub open spec fn class_of(raw: RawEntry, info: Option<RawTelemetry>) -> VehicleClass {
    let coded = match info {
        Some(item) => vehicle::coded_class(item.class),
        None => VehicleClass::Unknown,
    };
    if coded != VehicleClass::Unknown {
        coded
    } else {
        vehicle::named_class(text::field_text(raw.class@))
    }
}

/// The entry of a vehicle as the mapping gives it: gaps are those to the leader of the
/// race and to the vehicle ahead.
pub open spec fn entry_of(raw: RawEntry, info: Option<RawTelemetry>) -> EntryView {
    EntryView {
        key: key_of(raw),
        driver_name: text::field_text(raw.driver@),
        vehicle_name: text::field_text(raw.vehicle@),
        vehicle_model: match info {
            Some(item) => text::field_text(item.model@),
            None => seq![],
        },
        class: class_of(raw, info),
        position: raw.place as u16,
        class_position: 0,
        laps: vehicle::clamped_laps(raw.laps as int),
        lap_distance: raw.distance,
        best_lap_ms: arithmetic::milliseconds_of(raw.best),
        last_lap_ms: arithmetic::milliseconds_of(raw.last),
        gap_to_leader_ms: arithmetic::milliseconds_of(raw.behind_leader),
        laps_behind_leader: vehicle::clamped_laps(raw.laps_leader as int),
        gap_to_previous_ms: arithmetic::milliseconds_of(raw.behind_next),
        laps_behind_previous: vehicle::clamped_laps(raw.laps_next as int),
        tires: match info {
            Some(item) => CompoundView {
                front: text::field_text(item.front@),
                rear: text::field_text(item.rear@),
            },
            None => CompoundView { front: seq![], rear: seq![] },
        },
        status: vehicle::vehicle_status(raw.finish, raw.pit, raw.in_pits, raw.garage),
        penalties: vehicle::clamped_laps(raw.penalties as int),
    }
}

/// The entries of a frame, as the mapping gives them.
pub open spec fn raw_entries(frame: RawStandingsFrame) -> Seq<EntryView> {
    Seq::new(
        frame.entries@.len(),
        |i: int| entry_of(frame.entries@[i], info_of(frame.entries@[i], frame.telemetry@)),
    )
}

/// The standings of a frame: its entries in order, with their gaps.
pub open spec fn standings_of(frame: RawStandingsFrame) -> Seq<EntryView> {
    gaps::all_placed(ranking::in_order(raw_entries(frame), frame.session), frame.session)
}

/// The first of the first `n` vehicles that is marked as the player's.
pub open spec fn marked_focus(entries: Seq<RawEntry>, n: int) -> Option<KeyView>
    decreases n,
{
    if n <= 0 {
        None
    } else {
        match marked_focus(entries, n - 1) {
            Some(key) => Some(key),
            None => if entries[n - 1].player {
                Some(key_of(entries[n - 1]))
            } else {
                None
            },
        }
    }
}

/// The first of the first `n` vehicles that has the player's telemetry.
pub open spec fn telemetry_focus(frame: RawStandingsFrame, n: int) -> Option<KeyView>
    decreases n,
{
    if n <= 0 {
        None
    } else {
        match telemetry_focus(frame, n - 1) {
            Some(key) => Some(key),
            None => {
                let raw = frame.entries@[n - 1];
                if frame.player_telemetry_id == Some(raw.id) && info_of(
                    raw,
                    frame.telemetry@,
                ) is Some {
                    Some(key_of(raw))
                } else {
                    None
                }
            },
        }
    }
}

/// Whether an entry's driver has the name.
pub open spec fn driven_by(name: Seq<char>) -> spec_fn(EntryView) -> bool {
    |entry: EntryView| text::same_ignoring_case(entry.driver_name, name)
}

/// The only vehicle whose driver has the player's name.
pub open spec fn driver_focus(entries: Seq<EntryView>, player: Seq<char>) -> Option<KeyView> {
    let matching = entries.filter(driven_by(player));
    if player.len() > 0 && matching.len() == 1 {
        Some(matching[0].key)
    } else {
        None
    }
}

/// The vehicle in focus: the one marked as the player's, or else the one with the
/// player's telemetry, or else the only one that the player drives by name.
pub open spec fn focus_of(frame: RawStandingsFrame) -> Option<KeyView> {
    let n = frame.entries@.len() as int;
    match (marked_focus(frame.entries@, n), telemetry_focus(frame, n)) {
        (Some(key), _) => Some(key),
        (None, Some(key)) => Some(key),
        (None, None) => driver_focus(
            standings_of(frame),
            text::field_text(frame.player_name@),
        ),
    }
}

/// Whether the frame shows no session: the source has stopped, or there is no vehicle.
pub open spec fn without_session(frame: RawStandingsFrame, window_exists: bool) -> bool {
    source::stopped(frame.window, window_exists, frame.startup, frame.shutdown)
        || frame.entries@.len() == 0
}

/// Whether the frame's events and time are those last seen.
pub open spec fn seen_before(frame: RawStandingsFrame, state: StateView) -> bool {
    &&& state.startup == Some(frame.startup)
    &&& state.scoring == Some(frame.scoring)
    &&& state.telemetry == Some(frame.telemetry_event)
    &&& state.elapsed == Some(frame.elapsed.bits)
    &&& state.session_start == Some(frame.session_start)
}

/// Whether the frame belongs to another session than the one last seen. Where the source
/// does not count sessions, a clock that went back tells.
pub open spec fn restarted(frame: RawStandingsFrame, state: StateView) -> bool {
    ||| !state.had_session
    ||| state.startup != Some(frame.startup)
    ||| state.session_start != Some(frame.session_start)
    ||| state.track != text::field_text(frame.track@)
    ||| state.session != frame.session
    ||| (frame.session_start == 0 && state.elapsed is Some && arithmetic::fell_back(
        frame.elapsed,
        Double { bits: state.elapsed->0 },
    ))
}

/// The number of the next session, which is never zero.
pub open spec fn next_generation(generation: u64) -> u64 {
    if generation == u64::MAX {
        1
    } else {
        (generation + 1) as u64
    }
}

/// The state after a frame, and what is reported for it. A frame whose time is not
/// finite is passed over.
pub open spec fn decoded(frame: RawStandingsFrame, window_exists: bool, state: StateView) -> (
    StateView,
    UpdateView,
) {
    if !frame.elapsed.finite() {
        (state, UpdateView::Unchanged)
    } else if without_session(frame, window_exists) {
        (
            StateView {
                startup: Some(frame.startup),
                scoring: Some(frame.scoring),
                telemetry: Some(frame.telemetry_event),
                elapsed: Some(frame.elapsed.bits),
                session_start: Some(frame.session_start),
                had_session: false,
                ..state
            },
            if state.had_session || state.startup != Some(frame.startup) || state.scoring != Some(
                frame.scoring,
            ) || state.elapsed != Some(frame.elapsed.bits) {
                UpdateView::NoSession
            } else {
                UpdateView::Unchanged
            },
        )
    } else if seen_before(frame, state) {
        (state, UpdateView::Unchanged)
    } else {
        let generation = if restarted(frame, state) {
            next_generation(state.generation)
        } else {
            state.generation
        };
        let track = text::field_text(frame.track@);
        (
            StateView {
                startup: Some(frame.startup),
                scoring: Some(frame.scoring),
                telemetry: Some(frame.telemetry_event),
                elapsed: Some(frame.elapsed.bits),
                session_start: Some(frame.session_start),
                track,
                session: frame.session,
                generation,
                had_session: true,
            },
            UpdateView::Snapshot(
                SnapshotView {
                    session_generation: generation,
                    session: frame.session,
                    track_name: track,
                    focused_vehicle: focus_of(frame),
                    entries: standings_of(frame),
                },
            ),
        )
    }
}

/// Finds the telemetry of a vehicle with the given name.
fn find_info<'a>(
    raw: &RawEntry,
    vehicle_name: &String,
    telemetry: &'a Vec<RawTelemetry>,
) -> (info: Option<&'a RawTelemetry>)
    requires
        vehicle_name@ == text::field_text(raw.vehicle@),
    ensures
        match info {
            Some(item) => info_of(*raw, telemetry@) == Some(*item),
            None => info_of(*raw, telemetry@) is None,
        },
{
    let mut n: usize = telemetry.len();
    while n > 0
        invariant
            n <= telemetry@.len(),
            vehicle_name@ == text::field_text(raw.vehicle@),
            last_with_id(telemetry@, raw.id, telemetry@.len() as int) == last_with_id(
                telemetry@,
                raw.id,
                n as int,
            ),
        decreases n,
    {
        if telemetry[n - 1].id == raw.id {
            let name: String = text::decode(telemetry[n - 1].vehicle.as_slice());
            if text::eq_ignore_ascii_case(vehicle_name.as_str(), name.as_str()) {
                return Some(&telemetry[n - 1]);
            }
            return None;
        }
        n -= 1;
    }
    None
}

/// Makes the entry of a vehicle.
fn make_entry(raw: &RawEntry, vehicle_name: String, info: Option<&RawTelemetry>) -> (made:
    StandingEntry)
    requires
        vehicle_name@ == text::field_text(raw.vehicle@),
    ensures
        made@ == entry_of(
            *raw,
            match info {
                Some(item) => Some(*item),
                None => None,
            },
        ),
{
    let coded: VehicleClass = match info {
        Some(item) => vehicle::class_from_code(item.class),
        None => VehicleClass::Unknown,
    };
    let class: VehicleClass = if coded != VehicleClass::Unknown {
        coded
    } else {
        vehicle::class_from_name(text::decode(raw.class.as_slice()).as_str())
    };
    let (vehicle_model, tires): (String, TireCompound) = match info {
        Some(item) => (
            text::decode(item.model.as_slice()),
            TireCompound {
                front: text::decode(item.front.as_slice()),
                rear: text::decode(item.rear.as_slice()),
            },
        ),
        None => (String::new(), TireCompound::default()),
    };
    StandingEntry {
        key: VehicleKey {
            id: raw.id,
            vehicle_filename: text::decode(raw.filename.as_slice()),
            vehicle_name: vehicle_name.clone(),
        },
        driver_name: text::decode(raw.driver.as_slice()),
        vehicle_name,
        vehicle_model,
        class,
        position: raw.place as u16,
        class_position: 0,
        laps: vehicle::lap_gap(raw.laps as i32),
        lap_distance: raw.distance,
        best_lap_ms: arithmetic::milliseconds(raw.best),
        last_lap_ms: arithmetic::milliseconds(raw.last),
        gap_to_leader_ms: arithmetic::milliseconds(raw.behind_leader),
        laps_behind_leader: vehicle::lap_gap(raw.laps_leader),
        gap_to_previous_ms: arithmetic::milliseconds(raw.behind_next),
        laps_behind_previous: vehicle::lap_gap(raw.laps_next),
        tires,
        status: vehicle::status(raw.finish, raw.pit, raw.in_pits, raw.garage),
        penalties: vehicle::lap_gap(raw.penalties as i32),
    }
}

/// Finds the only vehicle whose driver has the player's name.
pub fn unique_driver_focus(entries: &[StandingEntry], player: &str) -> (focus: Option<VehicleKey>)
    ensures
        vehicle::optional_key(focus) == driver_focus(entry::values(entries@), player@),
{
    if player.is_empty() {
        return None;
    }
    let len: usize = entries.len();
    let ghost all = entry::values(entries@);
    let ghost drives = driven_by(player@);
    let mut found: Option<usize> = None;
    let mut i: usize = 0;
    proof {
        reveal(Seq::filter);
        assert(all.take(0).filter(drives) =~= seq![]);
    }
    while i < len
        invariant
            i <= len == entries@.len(),
            all == entry::values(entries@),
            drives == driven_by(player@),
            player@.len() > 0,
            match found {
                Some(index) => index < i && all.take(i as int).filter(drives)
                    == seq![entries@[index as int]@],
                None => all.take(i as int).filter(drives) == Seq::<EntryView>::empty(),
            },
        decreases len - i,
    {
        let ghost before = all.take(i as int).filter(drives);
        proof {
            reveal(Seq::filter);
            assert(all.take(i + 1).drop_last() =~= all.take(i as int));
            assert(all.take(i + 1).last() == entries@[i as int]@);
        }
        if text::eq_ignore_ascii_case(entries[i].driver_name.as_str(), player) {
            if found.is_some() {
                proof {
                    lemma_filter_grows(all, drives, i + 1);
                }
                return None;
            }
            found = Some(i);
            assert(before.push(entries@[i as int]@) =~= seq![entries@[i as int]@]);
        }
        i += 1;
    }
    assert(all.take(len as int) =~= all);
    match found {
        Some(index) => Some(entries[index].key.clone()),
        None => None,
    }
}

/// More entries have no fewer among them that are kept.
proof fn lemma_filter_grows(entries: Seq<EntryView>, kept: spec_fn(EntryView) -> bool, n: int)
    requires
        0 <= n <= entries.len(),
    ensures
        entries.filter(kept).len() >= entries.take(n).filter(kept).len(),
    decreases entries.len(),
{
    reveal(Seq::filter);
    if n == entries.len() {
        assert(entries.take(n) =~= entries);
    } else {
        lemma_filter_grows(entries.drop_last(), kept, n);
        assert(entries.drop_last().take(n) =~= entries.take(n));
    }
}

/// The entries of a frame, and the vehicle in focus as far as the frame marks it.
fn collect(frame: &RawStandingsFrame) -> (collected: (Vec<StandingEntry>, Option<VehicleKey>))
    ensures
        entry::values(collected.0@) == raw_entries(*frame),
        vehicle::optional_key(collected.1) == match (
            marked_focus(frame.entries@, frame.entries@.len() as int),
            telemetry_focus(*frame, frame.entries@.len() as int),
        ) {
            (Some(key), _) => Some(key),
            (None, fallback) => fallback,
        },
{
    let len: usize = frame.entries.len();
    let mut entries: Vec<StandingEntry> = Vec::new();
    let mut official_focus: Option<VehicleKey> = None;
    let mut fallback_focus: Option<VehicleKey> = None;
    let mut i: usize = 0;
    while i < len
        invariant
            i <= len == frame.entries@.len(),
            entries@.len() == i,
            forall|j: int| 0 <= j < i ==> (#[trigger] entries@[j])@ == raw_entries(*frame)[j],
            vehicle::optional_key(official_focus) == marked_focus(frame.entries@, i as int),
            vehicle::optional_key(fallback_focus) == telemetry_focus(*frame, i as int),
        decreases len - i,
    {
        let raw: &RawEntry = &frame.entries[i];
        let vehicle_name: String = text::decode(raw.vehicle.as_slice());
        let info: Option<&RawTelemetry> = find_info(raw, &vehicle_name, &frame.telemetry);
        let has_info: bool = info.is_some();
        let made: StandingEntry = make_entry(raw, vehicle_name, info);
        if raw.player && official_focus.is_none() {
            official_focus = Some(made.key.clone());
        }
        if frame.player_telemetry_id == Some(raw.id) && has_info && fallback_focus.is_none() {
            fallback_focus = Some(made.key.clone());
        }
        entries.push(made);
        i += 1;
    }
    assert(entry::values(entries@) =~= raw_entries(*frame));
    let focus: Option<VehicleKey> = if official_focus.is_some() {
        official_focus
    } else {
        fallback_focus
    };
    (entries, focus)
}

/// Takes a frame into the state and says what to report for it; it never fails.
pub fn decode_standings(
    frame: RawStandingsFrame,
    window_exists: bool,
    state: &mut StandingsState,
) -> (read: Result<StandingsUpdate, Error>)
    ensures
        read is Ok,
        (final(state)@, read->Ok_0@) == decoded(frame, window_exists, old(state)@),
        valid(old(state)@) ==> valid(final(state)@),
{
    if !frame.elapsed.is_finite() {
        return Ok(StandingsUpdate::Unchanged);
    }
    let elapsed: u64 = frame.elapsed.to_bits();
    if source::source_stopped(frame.window, window_exists, frame.startup, frame.shutdown)
        || frame.entries.len() == 0 {
        let changed: bool = state.had_session || state.startup != Some(frame.startup)
            || state.scoring != Some(frame.scoring) || state.elapsed != Some(elapsed);
        state.startup = Some(frame.startup);
        state.scoring = Some(frame.scoring);
        state.telemetry = Some(frame.telemetry_event);
        state.elapsed = Some(elapsed);
        state.session_start = Some(frame.session_start);
        state.had_session = false;
        return Ok(
            if changed {
                StandingsUpdate::NoSession
            } else {
                StandingsUpdate::Unchanged
            },
        );
    }
    if state.startup == Some(frame.startup) && state.scoring == Some(frame.scoring)
        && state.telemetry == Some(frame.telemetry_event) && state.elapsed == Some(elapsed)
        && state.session_start == Some(frame.session_start) {
        return Ok(StandingsUpdate::Unchanged);
    }
    let track: String = text::decode(frame.track.as_slice());
    let went_back: bool = match state.elapsed {
        Some(old) => frame.session_start == 0 && arithmetic::clock_fell_back(
            frame.elapsed,
            Double::from_bits(old),
        ),
        None => false,
    };
    let restart: bool = !state.had_session || state.startup != Some(frame.startup)
        || state.session_start != Some(frame.session_start) || state.track != track
        || state.session != frame.session || went_back;
    if restart {
        state.generation = if state.generation == u64::MAX {
            1
        } else {
            state.generation + 1
        };
    }
    state.startup = Some(frame.startup);
    state.scoring = Some(frame.scoring);
    state.telemetry = Some(frame.telemetry_event);
    state.elapsed = Some(elapsed);
    state.session_start = Some(frame.session_start);
    state.track = track.clone();
    state.session = frame.session;
    state.had_session = true;
    let player_name: String = text::decode(frame.player_name.as_slice());
    let (mut entries, marked): (Vec<StandingEntry>, Option<VehicleKey>) = collect(&frame);
    ranking::sort_entries(&mut entries, frame.session);
    gaps::assign_positions_and_gaps(&mut entries, frame.session);
    let focused_vehicle: Option<VehicleKey> = if marked.is_some() {
        marked
    } else {
        unique_driver_focus(entries.as_slice(), player_name.as_str())
    };
    Ok(
        StandingsUpdate::Snapshot(
            StandingsSnapshot {
                session_generation: state.generation,
                session: frame.session,
                track_name: track,
                focused_vehicle,
                entries,
            },
        ),
    )
}

/// What a look at the mapping found.
#[derive(Debug)]
pub enum StandingsObservation {
    /// Another held the lock; only the source's window was read.
    Busy { window: u64 },
    /// The frame was read under the lock.
    Frame(RawStandingsFrame),
}

impl StandingsObservation {
    /// The window of the source.
    pub open spec fn window_of(self) -> u64 {
        match self {
            StandingsObservation::Busy { window } => window,
            StandingsObservation::Frame(frame) => frame.window,
        }
    }

    /// The window of the source, whose existence decides what the look means.
    pub fn window(&self) -> (window: u64)
        ensures
            window == self.window_of(),
    {
        match self {
            StandingsObservation::Busy { window } => *window,
            StandingsObservation::Frame(frame) => frame.window,
        }
    }
}

/// A reader of the standings.
pub struct LmuStandings {
    pub state: StandingsState,
}

impl LmuStandings {
    /// A reader that has seen nothing yet.
    pub fn connect() -> (reader: LmuStandings)
        ensures
            reader.state@ == nothing_seen(),
            valid(reader.state@),
    {
        LmuStandings { state: StandingsState::default() }
    }

    /// Looks at the mapping: at all of the frame if the lock is held, otherwise at the
    /// source's window alone.
    pub fn observe<M: Memory + ?Sized>(mapping: &M, lock_held: bool) -> (seen: Result<
        StandingsObservation,
        Error,
    >)
        ensures
            match seen {
                Ok(StandingsObservation::Frame(found)) => lock_held && exists|counts: FrameCounts|
                 #[trigger]
                    frame::frame_at(mapping, found, counts) && frame::frame_error(
                        mapping,
                        counts,
                    ) is None,
                Ok(StandingsObservation::Busy { window }) => !lock_held && APPLICATION_WINDOW + 8
                    <= mapping.size() && memory::holds(
                    mapping,
                    APPLICATION_WINDOW as int,
                    window as int,
                    8,
                ),
                Err(error) => if lock_held {
                    frame::frame_fails(mapping, error@)
                } else {
                    APPLICATION_WINDOW + 8 > mapping.size() && error@ == memory::out_of_bounds(
                        mapping,
                        APPLICATION_WINDOW as int,
                        8,
                    )
                },
            },
    {
        if lock_held {
            Ok(StandingsObservation::Frame(frame::read_standings_frame(mapping)?))
        } else {
            Ok(
                StandingsObservation::Busy {
                    window: memory::read_u64(mapping, APPLICATION_WINDOW)?,
                },
            )
        }
    }

    /// Reports what a look means, given whether the window that it found exists.
    pub fn read(&mut self, seen: StandingsObservation, window_exists: bool) -> (read: Result<
        StandingsUpdate,
        Error,
    >)
        ensures
            match seen {
                StandingsObservation::Frame(found) => read is Ok && (
                    final(self).state@,
                    read->Ok_0@,
                ) == decoded(found, window_exists, old(self).state@),
                StandingsObservation::Busy { window } => if window != 0 && window_exists {
                    read is Ok && read->Ok_0 is Unchanged && final(self).state == old(self).state
                } else {
                    read is Err && read->Err_0@ == source::stopped_while_busy()
                        && final(self).state@ == (StateView {
                        had_session: false,
                        ..old(self).state@
                    })
                },
            },
            valid(old(self).state@) ==> valid(final(self).state@),
    {
        match seen {
            StandingsObservation::Frame(found) => decode_standings(
                found,
                window_exists,
                &mut self.state,
            ),
            StandingsObservation::Busy { window } => {
                if !source::source_window_alive(window, window_exists) {
                    self.state.had_session = false;
                    return Err(source::stopped_error());
                }
                Ok(StandingsUpdate::Unchanged)
            },
        }
    }
}

/// A frame that shows the same as the one before it is no news: nothing is reported and
/// the state stays.
pub proof fn law_repeated_frame_is_unchanged(
    first: RawStandingsFrame,
    second: RawStandingsFrame,
    window_exists: bool,
    state: StateView,
)
    requires
        frame::same_frame(first, second),
    ensures
        decoded(second, window_exists, decoded(first, window_exists, state).0) == (
            decoded(first, window_exists, state).0,
            UpdateView::Unchanged,
        ),
{
}

/// Every session that is reported has a number that is not zero, and that the state
/// keeps.
pub proof fn law_sessions_are_numbered(
    frame: RawStandingsFrame,
    window_exists: bool,
    state: StateView,
)
    requires
        valid(state),
    ensures
        valid(decoded(frame, window_exists, state).0),
        decoded(frame, window_exists, state).1 matches UpdateView::Snapshot(snapshot)
            ==> snapshot.session_generation > 0 && snapshot.session_generation == decoded(
            frame,
            window_exists,
            state,
        ).0.generation,
{
}

/// The number of the session changes exactly where standings of another session are
/// reported.
pub proof fn law_number_changes_with_session(
    frame: RawStandingsFrame,
    window_exists: bool,
    state: StateView,
)
    ensures
        decoded(frame, window_exists, state).0.generation != state.generation <==> decoded(
            frame,
            window_exists,
            state,
        ).1 is Snapshot && restarted(frame, state),
{
}

/// The first standings after a time without a session belong to another session.
pub proof fn law_session_after_none_is_new(
    frame: RawStandingsFrame,
    window_exists: bool,
    later: RawStandingsFrame,
    later_exists: bool,
    state: StateView,
)
    requires
        frame.elapsed.finite(),
        without_session(frame, window_exists),
    ensures
        ({
            let (between, _) = decoded(frame, window_exists, state);
            decoded(later, later_exists, between).1 matches UpdateView::Snapshot(snapshot)
                ==> snapshot.session_generation == next_generation(state.generation)
        }),
{
}

/// A session goes on while the source, its count of sessions, the track and the kind of
/// session stay and the clock does not go back: its number stays.
pub proof fn law_session_goes_on(frame: RawStandingsFrame, window_exists: bool, state: StateView)
    requires
        valid(state),
        state.had_session,
        state.startup == Some(frame.startup),
        state.session_start == Some(frame.session_start),
        state.track == text::field_text(frame.track@),
        state.session == frame.session,
        frame.elapsed.units() >= (Double { bits: state.elapsed->0 }).units(),
    ensures
        !restarted(frame, state),
        decoded(frame, window_exists, state).0.generation == state.generation,
{
    arithmetic::law_running_clock_has_not_fallen_back(
        frame.elapsed,
        Double { bits: state.elapsed->0 },
    );
}

/// Standings hold each vehicle of the frame once, as the mapping gives it but for its
/// place and gaps within the class.
pub proof fn law_standings_hold_each_vehicle(frame: RawStandingsFrame, i: int)
    requires
        0 <= i < frame.entries@.len(),
    ensures
        standings_of(frame).len() == frame.entries@.len(),
        ({
            let ordered = ranking::in_order(raw_entries(frame), frame.session);
            &&& ordered.to_multiset() == raw_entries(frame).to_multiset()
            &&& ordered[i] == (EntryView {
                class_position: ordered[i].class_position,
                gap_to_leader_ms: ordered[i].gap_to_leader_ms,
                laps_behind_leader: ordered[i].laps_behind_leader,
                gap_to_previous_ms: ordered[i].gap_to_previous_ms,
                laps_behind_previous: ordered[i].laps_behind_previous,
                ..standings_of(frame)[i]
            })
        }),
{
    ranking::law_in_order(raw_entries(frame), frame.session, raw_entries(frame)[i]);
}

/// A vehicle of the frame stands somewhere in the standings.
proof fn lemma_vehicle_has_place(frame: RawStandingsFrame, i: int) -> (place: int)
    requires
        0 <= i < frame.entries@.len(),
    ensures
        0 <= place < standings_of(frame).len(),
        standings_of(frame)[place].key == key_of(frame.entries@[i]),
{
    broadcast use group_to_multiset_ensures;

    let raw = raw_entries(frame);
    let ordered = ranking::in_order(raw, frame.session);
    law_standings_hold_each_vehicle(frame, i);
    assert(raw.contains(raw[i]));
    assert(raw.to_multiset().contains(raw[i]));
    assert(ordered.contains(raw[i]));
    let place = choose|place: int| 0 <= place < ordered.len() && ordered[place] == raw[i];
    law_standings_hold_each_vehicle(frame, place);
    place
}

/// Where a vehicle marked in the frame stands in it.
proof fn lemma_marked_vehicle(frame: RawStandingsFrame, n: int) -> (i: int)
    requires
        n <= frame.entries@.len(),
        marked_focus(frame.entries@, n) is Some,
    ensures
        0 <= i < n,
        marked_focus(frame.entries@, n) == Some(key_of(frame.entries@[i])),
    decreases n,
{
    if marked_focus(frame.entries@, n - 1) is Some {
        lemma_marked_vehicle(frame, n - 1)
    } else {
        n - 1
    }
}

/// Where the vehicle with the player's telemetry stands in the frame.
proof fn lemma_telemetry_vehicle(frame: RawStandingsFrame, n: int) -> (i: int)
    requires
        n <= frame.entries@.len(),
        telemetry_focus(frame, n) is Some,
    ensures
        0 <= i < n,
        telemetry_focus(frame, n) == Some(key_of(frame.entries@[i])),
    decreases n,
{
    if telemetry_focus(frame, n - 1) is Some {
        lemma_telemetry_vehicle(frame, n - 1)
    } else {
        n - 1
    }
}

/// The vehicle in focus is one of the standings.
pub proof fn law_focus_is_listed(frame: RawStandingsFrame) -> (place: int)
    requires
        focus_of(frame) is Some,
    ensures
        0 <= place < standings_of(frame).len(),
        focus_of(frame) == Some(standings_of(frame)[place].key),
{
    let n = frame.entries@.len() as int;
    if marked_focus(frame.entries@, n) is Some {
        let i = lemma_marked_vehicle(frame, n);
        lemma_vehicle_has_place(frame, i)
    } else if telemetry_focus(frame, n) is Some {
        let i = lemma_telemetry_vehicle(frame, n);
        lemma_vehicle_has_place(frame, i)
    } else {
        let all = standings_of(frame);
        let drives = driven_by(text::field_text(frame.player_name@));
        let matching = all.filter(drives);
        all.lemma_filter_contains_rev(drives, matching[0]);
        choose|place: int| 0 <= place < all.len() && all[place] == matching[0]
    }
}

/// The telemetry of a vehicle is found alike in frames that are the same.
proof fn lemma_same_info(a: RawStandingsFrame, b: RawStandingsFrame, id: i32, n: int)
    requires
        frame::same_frame(a, b),
        n <= a.telemetry@.len(),
    ensures
        last_with_id(a.telemetry@, id, n) == last_with_id(b.telemetry@, id, n),
        last_with_id(a.telemetry@, id, n) matches Some(index) ==> 0 <= index < n,
    decreases n,
{
    if n > 0 {
        lemma_same_info(a, b, id, n - 1);
        assert(frame::same_telemetry(a.telemetry@[n - 1], b.telemetry@[n - 1]));
    }
}

/// A vehicle has the same entry, and telemetry or none, in frames that are the same.
proof fn lemma_same_entry(a: RawStandingsFrame, b: RawStandingsFrame, i: int)
    requires
        frame::same_frame(a, b),
        0 <= i < a.entries@.len(),
    ensures
        key_of(a.entries@[i]) == key_of(b.entries@[i]),
        info_of(a.entries@[i], a.telemetry@) is Some == info_of(
            b.entries@[i],
            b.telemetry@,
        ) is Some,
        raw_entries(a)[i] == raw_entries(b)[i],
{
    let (x, y) = (a.entries@[i], b.entries@[i]);
    assert(frame::same_entry(x, y));
    let n = a.telemetry@.len() as int;
    lemma_same_info(a, b, x.id, n);
    if let Some(index) = last_with_id(a.telemetry@, x.id, n) {
        assert(frame::same_telemetry(a.telemetry@[index], b.telemetry@[index]));
    }
}

/// The vehicle in focus is marked alike in frames that are the same.
proof fn lemma_same_focus(a: RawStandingsFrame, b: RawStandingsFrame, n: int)
    requires
        frame::same_frame(a, b),
        n <= a.entries@.len(),
    ensures
        marked_focus(a.entries@, n) == marked_focus(b.entries@, n),
        telemetry_focus(a, n) == telemetry_focus(b, n),
    decreases n,
{
    if n > 0 {
        lemma_same_focus(a, b, n - 1);
        lemma_same_entry(a, b, n - 1);
        assert(frame::same_entry(a.entries@[n - 1], b.entries@[n - 1]));
    }
}

/// Frames that are the same lead to the same state and the same report.
pub proof fn law_same_frames_are_decoded_alike(
    a: RawStandingsFrame,
    b: RawStandingsFrame,
    window_exists: bool,
    state: StateView,
)
    requires
        frame::same_frame(a, b),
    ensures
        decoded(a, window_exists, state) == decoded(b, window_exists, state),
{
    assert forall|i: int| 0 <= i < a.entries@.len() implies #[trigger] raw_entries(a)[i]
        == raw_entries(b)[i] by {
        lemma_same_entry(a, b, i);
    }
    assert(raw_entries(a) =~= raw_entries(b));
    lemma_same_focus(a, b, a.entries@.len() as int);
}

} // verus!
