//! The player's pedals.

use crate::arithmetic;
use crate::error::{Error, ErrorView};
use crate::float::{Double, Single};
use crate::layout::{
    ACTIVE_TELEMETRY_VEHICLES, MAPPING_SIZE, MAX_VEHICLES, PLAYER_HAS_TELEMETRY,
    PLAYER_TELEMETRY_INDEX, TELEMETRY_EVENT, VEHICLE_TELEMETRY, VEHICLE_TELEMETRY_SIZE,
};
use crate::memory;
use crate::memory::Memory;
use crate::watched;
use crate::watched::{Look, Watched};
use vstd::prelude::*;

verus! {

/// How often a reading is tried before it is given up.
pub const MAX_READ_RETRIES: usize = 5;

/// Pedal positions, each from zero to one.
#[derive(Clone, Copy, Debug)]
pub struct PedalData {
    pub throttle: Single,
    pub brake: Single,
    pub clutch: Single,
}

impl PartialEq for PedalData {
    fn eq(&self, other: &PedalData) -> (same: bool) {
        self.throttle == other.throttle && self.brake == other.brake && self.clutch == other.clutch
    }
}

impl vstd::std_specs::cmp::PartialEqSpecImpl for PedalData {
    open spec fn obeys_eq_spec() -> bool {
        true
    }

    open spec fn eq_spec(&self, other: &PedalData) -> bool {
        self.throttle.equals(other.throttle) && self.brake.equals(other.brake)
            && self.clutch.equals(other.clutch)
    }
}

impl Default for PedalData {
    /// All pedals released.
    fn default() -> (pedals: PedalData)
        ensures
            pedals.throttle.bits == 0 && pedals.brake.bits == 0 && pedals.clutch.bits == 0,
    {
        PedalData {
            throttle: Single::default(),
            brake: Single::default(),
            clutch: Single::default(),
        }
    }
}

/// What a reading shows of the player's vehicle.
#[derive(Clone, Copy, Debug)]
pub struct TelemetrySnapshot {
    pub pedals: PedalData,
}

impl PartialEq for TelemetrySnapshot {
    fn eq(&self, other: &TelemetrySnapshot) -> (same: bool) {
        self.pedals == other.pedals
    }
}

impl vstd::std_specs::cmp::PartialEqSpecImpl for TelemetrySnapshot {
    open spec fn obeys_eq_spec() -> bool {
        true
    }

    open spec fn eq_spec(&self, other: &TelemetrySnapshot) -> bool {
        self.pedals.throttle.equals(other.pedals.throttle) && self.pedals.brake.equals(
            other.pedals.brake,
        ) && self.pedals.clutch.equals(other.pedals.clutch)
    }
}

impl Default for TelemetrySnapshot {
    /// All pedals released.
    fn default() -> (snapshot: TelemetrySnapshot)
        ensures
            snapshot.pedals.throttle.bits == 0 && snapshot.pedals.brake.bits == 0
                && snapshot.pedals.clutch.bits == 0,
    {
        TelemetrySnapshot { pedals: PedalData::default() }
    }
}

/// What a read reports.
#[derive(Clone, Copy, Debug)]
pub enum TelemetryUpdate {
    /// The player's vehicle has moved on in time.
    Snapshot(TelemetrySnapshot),
    /// No vehicle is the player's.
    NoPlayer,
    /// The source publishes, but the vehicle's time stands still.
    SourceAlive,
    /// Nothing is new.
    Unchanged,
}

impl PartialEq for TelemetryUpdate {
    fn eq(&self, other: &TelemetryUpdate) -> (same: bool) {
        match (self, other) {
            (TelemetryUpdate::Snapshot(a), TelemetryUpdate::Snapshot(b)) => a.pedals == b.pedals,
            (TelemetryUpdate::NoPlayer, TelemetryUpdate::NoPlayer) => true,
            (TelemetryUpdate::SourceAlive, TelemetryUpdate::SourceAlive) => true,
            (TelemetryUpdate::Unchanged, TelemetryUpdate::Unchanged) => true,
            _ => false,
        }
    }
}

impl vstd::std_specs::cmp::PartialEqSpecImpl for TelemetryUpdate {
    open spec fn obeys_eq_spec() -> bool {
        true
    }

    open spec fn eq_spec(&self, other: &TelemetryUpdate) -> bool {
        match (*self, *other) {
            (
                TelemetryUpdate::Snapshot(a),
                TelemetryUpdate::Snapshot(b),
            ) => a.pedals.throttle.equals(b.pedals.throttle) && a.pedals.brake.equals(
                b.pedals.brake,
            ) && a.pedals.clutch.equals(b.pedals.clutch),
            (TelemetryUpdate::NoPlayer, TelemetryUpdate::NoPlayer) => true,
            (TelemetryUpdate::SourceAlive, TelemetryUpdate::SourceAlive) => true,
            (TelemetryUpdate::Unchanged, TelemetryUpdate::Unchanged) => true,
            _ => false,
        }
    }
}

/// What stands before the vehicles' telemetry blocks.
#[derive(Clone, Copy, Debug, PartialEq, Eq, Structural)]
pub struct TelemetryHeader {
    pub event: u32,
    pub active: u8,
    pub player_index: u8,
    pub has_player: u8,
}

/// What earlier reads have seen.
#[derive(Clone, Copy, Debug, PartialEq, Eq, Structural)]
pub struct TelemetryState {
    pub last_event: Option<u32>,
    pub last_elapsed: Option<u64>,
    pub had_player: bool,
}

impl Default for TelemetryState {
    /// Nothing seen yet.
    fn default() -> (state: TelemetryState)
        ensures
            state == nothing_seen(),
    {
        TelemetryState { last_event: None, last_elapsed: None, had_player: false }
    }
}

/// The state before the first read.
pub open spec fn nothing_seen() -> TelemetryState {
    TelemetryState { last_event: None, last_elapsed: None, had_player: false }
}

/// What holds of every state that reads can lead to: the time of the vehicle is kept
/// exactly while there is a player, and then a reading has been made.
pub open spec fn valid(state: TelemetryState) -> bool {
    &&& state.had_player == (state.last_elapsed is Some)
    &&& state.had_player ==> state.last_event is Some
}

/// What one reading saw in the player's block, with the vehicle's time, as bits, before
/// and after the pedals.
#[derive(Clone, Copy, Debug)]
pub struct PlayerReading {
    pub elapsed_before: u64,
    pub throttle: Double,
    pub brake: Double,
    pub clutch: Double,
    pub elapsed_after: u64,
}

/// What one reading saw, with the header before and after the player's block.
#[derive(Clone, Copy, Debug)]
pub struct TelemetryReading {
    pub before: TelemetryHeader,
    pub player: Option<PlayerReading>,
    pub after: TelemetryHeader,
}

/// Where the player's block starts, if a vehicle with telemetry is the player's.
pub open spec fn player_base(header: TelemetryHeader) -> Option<int> {
    if header.has_player != 0 && header.player_index < header.active && header.player_index
        < MAX_VEHICLES {
        Some(VEHICLE_TELEMETRY + header.player_index * VEHICLE_TELEMETRY_SIZE)
    } else {
        None
    }
}

/// Whether the memory was seen to hold the header.
pub open spec fn header_at<M: Memory + ?Sized>(m: &M, header: TelemetryHeader) -> bool {
    &&& memory::holds(m, TELEMETRY_EVENT as int, header.event as int, 4)
    &&& memory::holds(m, ACTIVE_TELEMETRY_VEHICLES as int, header.active as int, 1)
    &&& memory::holds(m, PLAYER_TELEMETRY_INDEX as int, header.player_index as int, 1)
    &&& memory::holds(m, PLAYER_HAS_TELEMETRY as int, header.has_player as int, 1)
}

/// Whether the memory was seen to hold, at `base`, what was read of the player.
pub open spec fn player_at<M: Memory + ?Sized>(m: &M, base: int, player: PlayerReading) -> bool {
    &&& memory::holds(m, base + 12, player.elapsed_before as int, 8)
    &&& memory::holds(m, base + 388, player.throttle.bits as int, 8)
    &&& memory::holds(m, base + 396, player.brake.bits as int, 8)
    &&& memory::holds(m, base + 412, player.clutch.bits as int, 8)
    &&& memory::holds(m, base + 12, player.elapsed_after as int, 8)
}

/// Whether the memory was seen to hold what was read.
pub open spec fn reading_at<M: Memory + ?Sized>(m: &M, reading: TelemetryReading) -> bool {
    &&& header_at(m, reading.before)
    &&& match (player_base(reading.before), reading.player) {
        (Some(base), Some(player)) => player_at(m, base, player),
        (None, None) => true,
        _ => false,
    }
    &&& header_at(m, reading.after)
}

/// The looks that see the header.
pub open spec fn header_looks(header: TelemetryHeader) -> Seq<Look> {
    seq![
        watched::number_look(TELEMETRY_EVENT as int, header.event as int, 4),
        watched::number_look(ACTIVE_TELEMETRY_VEHICLES as int, header.active as int, 1),
        watched::number_look(PLAYER_TELEMETRY_INDEX as int, header.player_index as int, 1),
        watched::number_look(PLAYER_HAS_TELEMETRY as int, header.has_player as int, 1),
    ]
}

/// The looks that see the player's block at `base`: the first and the last are at the
/// vehicle's time.
pub open spec fn player_looks(base: int, player: PlayerReading) -> Seq<Look> {
    seq![
        watched::number_look(base + 12, player.elapsed_before as int, 8),
        watched::number_look(base + 388, player.throttle.bits as int, 8),
        watched::number_look(base + 396, player.brake.bits as int, 8),
        watched::number_look(base + 412, player.clutch.bits as int, 8),
        watched::number_look(base + 12, player.elapsed_after as int, 8),
    ]
}

/// The looks of a reading: at the header, at the player's block if there is one, and at
/// the header again.
pub open spec fn reading_looks(reading: TelemetryReading) -> Seq<Look> {
    match (player_base(reading.before), reading.player) {
        (Some(base), Some(player)) => header_looks(reading.before) + player_looks(base, player)
            + header_looks(reading.after),
        _ => header_looks(reading.before) + header_looks(reading.after),
    }
}

/// The looks of several readings, one after the other.
pub open spec fn all_looks(readings: Seq<TelemetryReading>) -> Seq<Look>
    decreases readings.len(),
{
    if readings.len() == 0 {
        seq![]
    } else {
        all_looks(readings.drop_last()) + reading_looks(readings.last())
    }
}

/// The fields of the header, in the order in which they are read.
pub open spec fn header_spans() -> Seq<(int, int)> {
    seq![
        (TELEMETRY_EVENT as int, 4),
        (ACTIVE_TELEMETRY_VEHICLES as int, 1),
        (PLAYER_TELEMETRY_INDEX as int, 1),
        (PLAYER_HAS_TELEMETRY as int, 1),
    ]
}

/// The fields of the player's block, in the order in which they are read.
pub open spec fn player_spans(base: int) -> Seq<(int, int)> {
    seq![(base + 12, 8), (base + 388, 8), (base + 396, 8), (base + 412, 8), (base + 12, 8)]
}

/// The error of a reading that first saw the header `before`.
pub open spec fn reading_error<M: Memory + ?Sized>(m: &M, before: TelemetryHeader) -> Option<
    ErrorView,
> {
    match (memory::spans_error(m, header_spans(), 0), player_base(before)) {
        (Some(error), _) => Some(error),
        (None, Some(base)) => memory::spans_error(m, player_spans(base), 0),
        (None, None) => None,
    }
}

/// Whether a reading that began after the looks `before` and ended after the looks `after`
/// fails with this error: in the header, or behind a header that it saw.
pub open spec fn reading_fails<M: Memory + ?Sized>(
    m: &M,
    before: Seq<Look>,
    after: Seq<Look>,
    error: ErrorView,
) -> bool {
    ||| memory::spans_error(m, header_spans(), 0) == Some(error) && before.is_prefix_of(after)
    ||| exists|header: TelemetryHeader| #[trigger]
        header_at(m, header) && reading_error(m, header) == Some(error) && (before + header_looks(
            header,
        )).is_prefix_of(after)
}

/// Whether the source wrote while the reading was made.
pub open spec fn torn(reading: TelemetryReading) -> bool {
    reading.before != reading.after || match reading.player {
        Some(player) => player.elapsed_before != player.elapsed_after,
        None => false,
    }
}

/// The pedals of a reading.
pub open spec fn pedals_of(player: PlayerReading) -> PedalData {
    PedalData {
        throttle: arithmetic::normalized(player.throttle),
        brake: arithmetic::normalized(player.brake),
        clutch: arithmetic::normalized(player.clutch),
    }
}

/// The state after a reading that is not torn, and what is reported for it. Without a
/// player that is reported where the event is new or there was one; with a player, the
/// pedals are reported where the vehicle's time differs from the last one seen, but not
/// on the first reading.
pub open spec fn settled(reading: TelemetryReading, state: TelemetryState) -> (
    TelemetryState,
    TelemetryUpdate,
) {
    let event = Some(reading.after.event);
    match reading.player {
        None => (
            TelemetryState { last_event: event, last_elapsed: None, had_player: false },
            if state.last_event != event || state.had_player {
                TelemetryUpdate::NoPlayer
            } else {
                TelemetryUpdate::Unchanged
            },
        ),
        Some(player) => (
            TelemetryState {
                last_event: event,
                last_elapsed: Some(player.elapsed_after),
                had_player: true,
            },
            if state.last_event is None {
                TelemetryUpdate::SourceAlive
            } else if state.last_elapsed != Some(player.elapsed_after) {
                TelemetryUpdate::Snapshot(TelemetrySnapshot { pedals: pedals_of(player) })
            } else if state.last_event != event {
                TelemetryUpdate::SourceAlive
            } else {
                TelemetryUpdate::Unchanged
            },
        ),
    }
}

/// Whether the memory was seen to hold each of the readings, and none of them fails.
pub open spec fn readings_at<M: Memory + ?Sized>(m: &M, readings: Seq<TelemetryReading>) -> bool {
    forall|i: int|
        0 <= i < readings.len() ==> reading_at(m, #[trigger] readings[i]) && reading_error(
            m,
            readings[i].before,
        ) is None
}

/// Whether each of the first `n` readings is torn.
pub open spec fn first_torn(readings: Seq<TelemetryReading>, n: int) -> bool {
    forall|i: int| 0 <= i < n ==> torn(#[trigger] readings[i])
}

/// Whether a read that made these readings reports `update`: it stops at the first that
/// is not torn, and gives up when all it may make are.
pub open spec fn telemetry_read<M: Memory + ?Sized>(
    m: &M,
    readings: Seq<TelemetryReading>,
    before: TelemetryState,
    after: TelemetryState,
    update: TelemetryUpdate,
) -> bool {
    &&& 1 <= readings.len() <= MAX_READ_RETRIES
    &&& readings_at(m, readings)
    &&& first_torn(readings, readings.len() - 1)
    &&& if torn(readings.last()) {
        readings.len() == MAX_READ_RETRIES && after == before && update
            == TelemetryUpdate::Unchanged
    } else {
        (after, update) == settled(readings.last(), before)
    }
}

/// Whether a read, from one state of the memory to another, reports `update`: the looks
/// that it took are those of the readings that it made, each of them with looks of its own.
pub open spec fn reports<M: Memory + ?Sized>(
    from: &Watched<'_, M>,
    to: &Watched<'_, M>,
    before: TelemetryState,
    after: TelemetryState,
    update: TelemetryUpdate,
) -> bool {
    exists|readings: Seq<TelemetryReading>| #[trigger]
        telemetry_read(from.memory(), readings, before, after, update) && from.goes_on(
            to,
            all_looks(readings),
        )
}

/// Whether a read, from one state of the memory to another, fails with this error: in a
/// reading that came after readings that were all torn, and fewer than it may make.
pub open spec fn read_fails<M: Memory + ?Sized>(
    from: &Watched<'_, M>,
    to: &Watched<'_, M>,
    error: ErrorView,
) -> bool {
    &&& to.memory() == from.memory()
    &&& exists|readings: Seq<TelemetryReading>|
        {
            &&& readings.len() < MAX_READ_RETRIES
            &&& #[trigger] readings_at(from.memory(), readings)
            &&& first_torn(readings, readings.len() as int)
            &&& reading_fails(
                from.memory(),
                from.looks() + all_looks(readings),
                to.looks(),
                error,
            )
        }
}

/// Reads the header.
pub fn telemetry_header<M: Memory + ?Sized>(m: &mut Watched<'_, M>) -> (read: Result<
    TelemetryHeader,
    Error,
>)
    ensures
        match read {
            Ok(header) => {
                &&& memory::spans_error(old(m).memory(), header_spans(), 0) is None
                &&& header_at(old(m).memory(), header)
                &&& old(m).goes_on(final(m), header_looks(header))
            },
            Err(error) => {
                &&& memory::spans_error(old(m).memory(), header_spans(), 0) == Some(error@)
                &&& final(m).memory() == old(m).memory()
                &&& old(m).looks().is_prefix_of(final(m).looks())
            },
        },
{
    proof {
        reveal_with_fuel(memory::spans_error, 5);
    }
    let header: TelemetryHeader = TelemetryHeader {
        event: m.read_u32(TELEMETRY_EVENT)?,
        active: m.read_u8(ACTIVE_TELEMETRY_VEHICLES)?,
        player_index: m.read_u8(PLAYER_TELEMETRY_INDEX)?,
        has_player: m.read_u8(PLAYER_HAS_TELEMETRY)?,
    };
    assert(m.looks() =~= old(m).looks() + header_looks(header));
    Ok(header)
}

/// Reads the player's block, the vehicle's time before the pedals and again after them.
fn read_player<M: Memory + ?Sized>(m: &mut Watched<'_, M>, base: usize) -> (read: Result<
    PlayerReading,
    Error,
>)
    requires
        base <= MAPPING_SIZE,
    ensures
        match read {
            Ok(player) => {
                &&& memory::spans_error(old(m).memory(), player_spans(base as int), 0) is None
                &&& player_at(old(m).memory(), base as int, player)
                &&& old(m).goes_on(final(m), player_looks(base as int, player))
            },
            Err(error) => {
                &&& memory::spans_error(old(m).memory(), player_spans(base as int), 0) == Some(
                    error@,
                )
                &&& final(m).memory() == old(m).memory()
                &&& old(m).looks().is_prefix_of(final(m).looks())
            },
        },
{
    proof {
        reveal_with_fuel(memory::spans_error, 6);
    }
    let player: PlayerReading = PlayerReading {
        elapsed_before: m.read_u64(base + 12)?,
        throttle: m.read_double(base + 388)?,
        brake: m.read_double(base + 396)?,
        clutch: m.read_double(base + 412)?,
        elapsed_after: m.read_u64(base + 12)?,
    };
    assert(m.looks() =~= old(m).looks() + player_looks(base as int, player));
    Ok(player)
}

/// Makes one reading: the header, the player's block if there is one, and the header again.
pub fn read_once<M: Memory + ?Sized>(m: &mut Watched<'_, M>) -> (read: Result<
    TelemetryReading,
    Error,
>)
    ensures
        match read {
            Ok(reading) => {
                &&& reading_at(old(m).memory(), reading)
                &&& reading_error(old(m).memory(), reading.before) is None
                &&& old(m).goes_on(final(m), reading_looks(reading))
            },
            Err(error) => {
                &&& final(m).memory() == old(m).memory()
                &&& reading_fails(old(m).memory(), old(m).looks(), final(m).looks(), error@)
            },
        },
{
    let before: TelemetryHeader = telemetry_header(m)?;
    let index: usize = before.player_index as usize;
    let player: Option<PlayerReading> = if before.has_player != 0 && before.player_index
        < before.active && index < MAX_VEHICLES {
        assert(index * VEHICLE_TELEMETRY_SIZE <= 104 * 1_888) by (nonlinear_arith)
            requires
                index < 104,
                VEHICLE_TELEMETRY_SIZE == 1_888,
        ;
        Some(read_player(m, VEHICLE_TELEMETRY + index * VEHICLE_TELEMETRY_SIZE)?)
    } else {
        None
    };
    let after: TelemetryHeader = telemetry_header(m)?;
    let reading: TelemetryReading = TelemetryReading { before, player, after };
    assert(m.looks() =~= old(m).looks() + reading_looks(reading));
    Ok(reading)
}

/// Takes a reading into the state and says what to report for it, unless it is torn.
pub fn settle(reading: &TelemetryReading, state: &mut TelemetryState) -> (update: Option<
    TelemetryUpdate,
>)
    ensures
        torn(*reading) ==> update is None && *final(state) == *old(state),
        !torn(*reading) ==> update is Some && (*final(state), update->0) == settled(
            *reading,
            *old(state),
        ),
{
    if reading.before != reading.after {
        return None;
    }
    let event: Option<u32> = Some(reading.after.event);
    match reading.player {
        None => {
            let changed: bool = state.last_event != event || state.had_player;
            state.last_event = event;
            state.last_elapsed = None;
            state.had_player = false;
            Some(
                if changed {
                    TelemetryUpdate::NoPlayer
                } else {
                    TelemetryUpdate::Unchanged
                },
            )
        },
        Some(player) => {
            if player.elapsed_before != player.elapsed_after {
                return None;
            }
            let first: bool = state.last_event.is_none();
            let source_updated: bool = state.last_event != event;
            let elapsed: Option<u64> = Some(player.elapsed_after);
            let still: bool = state.last_elapsed == elapsed;
            state.last_event = event;
            state.had_player = true;
            state.last_elapsed = elapsed;
            if first || still {
                return Some(
                    if source_updated || first {
                        TelemetryUpdate::SourceAlive
                    } else {
                        TelemetryUpdate::Unchanged
                    },
                );
            }
            Some(
                TelemetryUpdate::Snapshot(
                    TelemetrySnapshot {
                        pedals: PedalData {
                            throttle: arithmetic::normalize_input(player.throttle),
                            brake: arithmetic::normalize_input(player.brake),
                            clutch: arithmetic::normalize_input(player.clutch),
                        },
                    },
                ),
            )
        },
    }
}

/// Reads the telemetry: makes a new reading while the last was torn, a few times at most.
pub fn read_telemetry<M: Memory + ?Sized>(
    m: &mut Watched<'_, M>,
    state: &mut TelemetryState,
) -> (read: Result<TelemetryUpdate, Error>)
    ensures
        match read {
            Ok(update) => reports(old(m), final(m), *old(state), *final(state), update),
            Err(error) => *final(state) == *old(state) && read_fails(old(m), final(m), error@),
        },
        valid(*old(state)) ==> valid(*final(state)),
{
    let ghost mut readings: Seq<TelemetryReading> = seq![];
    let mut tries: usize = 0;
    assert(old(m).looks() + all_looks(readings) =~= old(m).looks());
    while tries < MAX_READ_RETRIES
        invariant
            tries <= MAX_READ_RETRIES,
            readings.len() == tries,
            readings_at(old(m).memory(), readings),
            first_torn(readings, readings.len() as int),
            old(m).goes_on(m, all_looks(readings)),
            *state == *old(state),
        decreases MAX_READ_RETRIES - tries,
    {
        let ghost earlier = readings;
        let reading: TelemetryReading = read_once(m)?;
        proof {
            readings = readings.push(reading);
            assert(readings.drop_last() =~= earlier);
            assert(m.looks() =~= old(m).looks() + all_looks(readings));
        }
        let settled: Option<TelemetryUpdate> = settle(&reading, state);
        if let Some(update) = settled {
            assert(telemetry_read(old(m).memory(), readings, *old(state), *state, update));
            return Ok(update);
        }
        tries += 1;
    }
    assert(telemetry_read(
        old(m).memory(),
        readings,
        *old(state),
        *state,
        TelemetryUpdate::Unchanged,
    ));
    Ok(TelemetryUpdate::Unchanged)
}

/// A reader of the player's pedals.
pub struct LmuTelemetry {
    pub state: TelemetryState,
}

impl LmuTelemetry {
    /// A reader that has seen nothing yet.
    pub fn connect() -> (reader: LmuTelemetry)
        ensures
            reader.state == nothing_seen(),
            valid(reader.state),
    {
        LmuTelemetry { state: TelemetryState::default() }
    }

    /// Reads the mapping if the lock is held, and otherwise takes no look and reports
    /// nothing new.
    pub fn read<M: Memory + ?Sized>(
        &mut self,
        mapping: &mut Watched<'_, M>,
        lock_held: bool,
    ) -> (read: Result<TelemetryUpdate, Error>)
        ensures
            !lock_held ==> {
                &&& read == Ok::<TelemetryUpdate, Error>(TelemetryUpdate::Unchanged)
                &&& final(self).state == old(self).state
                &&& *final(mapping) == *old(mapping)
            },
            lock_held ==> match read {
                Ok(update) => reports(
                    old(mapping),
                    final(mapping),
                    old(self).state,
                    final(self).state,
                    update,
                ),
                Err(error) => final(self).state == old(self).state && read_fails(
                    old(mapping),
                    final(mapping),
                    error@,
                ),
            },
            valid(old(self).state) ==> valid(final(self).state),
    {
        if !lock_held {
            return Ok(TelemetryUpdate::Unchanged);
        }
        read_telemetry(mapping, &mut self.state)
    }
}

/// A mapping of full size can always be read.
pub proof fn law_full_mapping_has_telemetry<M: Memory + ?Sized>(
    from: &Watched<'_, M>,
    to: &Watched<'_, M>,
    error: ErrorView,
)
    requires
        from.memory().size() >= MAPPING_SIZE,
    ensures
        !read_fails(from, to, error),
{
    let m = from.memory();
    reveal_with_fuel(memory::spans_error, 6);
    assert forall|before: TelemetryHeader| #[trigger] reading_error(m, before) is None by {
        if let Some(base) = player_base(before) {
            assert(before.player_index * VEHICLE_TELEMETRY_SIZE <= 103 * 1_888) by (nonlinear_arith)
                requires
                    before.player_index <= 103,
                    VEHICLE_TELEMETRY_SIZE == 1_888,
            ;
        }
    }
}

/// The looks of a reading are eight, and five more where there is a player: the looks that
/// a read took tell how many readings it made.
pub proof fn law_readings_are_counted(readings: Seq<TelemetryReading>)
    ensures
        8 * readings.len() <= all_looks(readings).len() <= 13 * readings.len(),
    decreases readings.len(),
{
    if readings.len() > 0 {
        law_readings_are_counted(readings.drop_last());
    }
}

/// Bytes that stand still show the same reading each time, and it is not torn: a read of
/// them settles at the first try.
pub proof fn law_still_bytes_are_not_torn(m: &[u8], a: TelemetryReading, b: TelemetryReading)
    requires
        reading_at(m, a),
        reading_at(m, b),
    ensures
        a == b,
        !torn(a),
{
    memory::lemma_powers();
    lemma_still_header(m, a.before, b.before);
    lemma_still_header(m, a.before, a.after);
    lemma_still_header(m, a.after, b.after);
    if let (Some(base), Some(p), Some(q)) = (player_base(a.before), a.player, b.player) {
        memory::law_still_bytes_hold_one_number(
            m,
            base + 12,
            p.elapsed_before as int,
            q.elapsed_before as int,
            8,
        );
        memory::law_still_bytes_hold_one_number(
            m,
            base + 12,
            p.elapsed_after as int,
            q.elapsed_after as int,
            8,
        );
        memory::law_still_bytes_hold_one_number(
            m,
            base + 12,
            p.elapsed_before as int,
            p.elapsed_after as int,
            8,
        );
        memory::law_still_bytes_hold_one_number(
            m,
            base + 388,
            p.throttle.bits as int,
            q.throttle.bits as int,
            8,
        );
        memory::law_still_bytes_hold_one_number(
            m,
            base + 396,
            p.brake.bits as int,
            q.brake.bits as int,
            8,
        );
        memory::law_still_bytes_hold_one_number(
            m,
            base + 412,
            p.clutch.bits as int,
            q.clutch.bits as int,
            8,
        );
    }
}

/// A read of bytes that stand still makes one reading, and reports what that shows.
pub proof fn law_still_bytes_are_read_once(
    from: &Watched<'_, [u8]>,
    to: &Watched<'_, [u8]>,
    before: TelemetryState,
    after: TelemetryState,
    update: TelemetryUpdate,
    reading: TelemetryReading,
)
    requires
        reports(from, to, before, after, update),
        reading_at(from.memory(), reading),
    ensures
        (after, update) == settled(reading, before),
        from.goes_on(to, reading_looks(reading)),
{
    let m = from.memory();
    let readings = choose|readings: Seq<TelemetryReading>| #[trigger]
        telemetry_read(m, readings, before, after, update) && from.goes_on(to, all_looks(readings));
    law_still_bytes_are_not_torn(m, readings[0], reading);
    law_still_bytes_are_not_torn(m, readings.last(), reading);
    assert(readings.len() == 1);
    assert(readings.drop_last() =~= seq![]);
    assert(all_looks(readings) =~= reading_looks(reading)) by {
        reveal_with_fuel(all_looks, 2);
    }
}

/// Two headers seen in bytes that stand still are equal.
proof fn lemma_still_header(m: &[u8], a: TelemetryHeader, b: TelemetryHeader)
    requires
        header_at(m, a),
        header_at(m, b),
    ensures
        a == b,
{
    memory::lemma_powers();
    memory::law_still_bytes_hold_one_number(
        m,
        TELEMETRY_EVENT as int,
        a.event as int,
        b.event as int,
        4,
    );
    memory::law_still_bytes_hold_one_number(
        m,
        ACTIVE_TELEMETRY_VEHICLES as int,
        a.active as int,
        b.active as int,
        1,
    );
    memory::law_still_bytes_hold_one_number(
        m,
        PLAYER_TELEMETRY_INDEX as int,
        a.player_index as int,
        b.player_index as int,
        1,
    );
    memory::law_still_bytes_hold_one_number(
        m,
        PLAYER_HAS_TELEMETRY as int,
        a.has_player as int,
        b.has_player as int,
        1,
    );
}

/// A reading reports pedals exactly if a reading came before it, a vehicle is the
/// player's and its time differs from that of the last reading.
pub proof fn law_snapshot_needs_new_time(reading: TelemetryReading, state: TelemetryState)
    ensures
        settled(reading, state).1 is Snapshot <==> state.last_event is Some
            && reading.player is Some && state.last_elapsed != Some(
            reading.player->0.elapsed_after,
        ),
{
}

/// Whatever a reading shows, the state after it is valid.
pub proof fn law_settled_state_is_valid(reading: TelemetryReading, state: TelemetryState)
    ensures
        valid(settled(reading, state).0),
{
}

/// A reading that shows the event of the one before it, and the same time of the vehicle
/// or again no player, is no news, whatever the pedals: nothing is reported and the state
/// stays.
pub proof fn law_repeated_reading_is_unchanged(
    first: TelemetryReading,
    second: TelemetryReading,
    state: TelemetryState,
)
    requires
        second.after.event == first.after.event,
        match (first.player, second.player) {
            (Some(a), Some(b)) => a.elapsed_after == b.elapsed_after,
            (None, None) => true,
            _ => false,
        },
    ensures
        settled(second, settled(first, state).0) == (
            settled(first, state).0,
            TelemetryUpdate::Unchanged,
        ),
{
}

/// The pedals that a reading reports lie from zero to one.
pub proof fn law_pedals_are_normalized(player: PlayerReading)
    ensures
        ({
            let pedals = pedals_of(player);
            forall|p: Single| p == pedals.throttle || p == pedals.brake || p == pedals.clutch
                ==> p.finite() && #[trigger] p.magnitude() <= vstd::arithmetic::power2::pow2(149)
                && (p.negative() ==> p.magnitude() == 0)
        }),
{
    arithmetic::law_normalized_value(player.throttle);
    arithmetic::law_normalized_value(player.brake);
    arithmetic::law_normalized_value(player.clutch);
}

/// In the pedals that a reading reports each pedal is the position for the raw value of that
/// same pedal: for a value from zero to one, the nearest single with its sign, so that no
/// other is nearer; for one above, one; for one below zero or not finite, zero. A single
/// counts 2^-149, a double 2^-1074.
pub proof fn law_reported_pedals_are_those_read(
    reading: TelemetryReading,
    state: TelemetryState,
    raw: Double,
    position: Single,
    other: Single,
)
    requires
        settled(reading, state).1 is Snapshot,
        ({
            let pedals = settled(reading, state).1->Snapshot_0.pedals;
            ||| raw == reading.player->0.throttle && position == pedals.throttle
            ||| raw == reading.player->0.brake && position == pedals.brake
            ||| raw == reading.player->0.clutch && position == pedals.clutch
        }),
    ensures
        position.finite(),
        position.magnitude() <= vstd::arithmetic::power2::pow2(149),
        raw.finite() && 0 <= raw.units() <= vstd::arithmetic::power2::pow2(1074) ==> {
            &&& position.negative() == raw.negative()
            &&& other.finite() ==> {
                let found = position.magnitude() * vstd::arithmetic::power2::pow2(925);
                let rival = other.magnitude() * vstd::arithmetic::power2::pow2(925);
                (if found >= raw.units() { found - raw.units() } else { raw.units() - found })
                    <= (if rival >= raw.units() {
                    rival - raw.units()
                } else {
                    raw.units() - rival
                })
            }
        },
        raw.finite() && raw.units() > vstd::arithmetic::power2::pow2(1074) ==> position.bits
            == 0x3f80_0000,
        !raw.finite() || raw.units() < 0 ==> position.bits == 0,
{
    arithmetic::law_normalized_is_nearest(raw, other);
    arithmetic::law_normalized_value(raw);
}

/// The state after a reading keeps the event, the vehicle's time if there is a player, and
/// whether there is one.
pub proof fn law_state_keeps_the_reading(reading: TelemetryReading, state: TelemetryState)
    ensures
        settled(reading, state).0.last_event == Some(reading.after.event),
        settled(reading, state).0.had_player == (reading.player is Some),
        reading.player is Some ==> settled(reading, state).0.last_elapsed == Some(
            reading.player->0.elapsed_after,
        ),
        reading.player is None ==> settled(reading, state).0.last_elapsed is None,
{
}

/// Which of the updates a reading gives. Without a player it is news that there is none where
/// there was one or the event is another. With a player the source is alive on the first
/// reading, and where only the event is another.
pub proof fn law_kind_of_update(reading: TelemetryReading, state: TelemetryState)
    ensures
        settled(reading, state).1 is NoPlayer <==> reading.player is None && (state.had_player
            || state.last_event != Some(reading.after.event)),
        settled(reading, state).1 is SourceAlive <==> reading.player is Some && (
        state.last_event is None || (state.last_elapsed == Some(reading.player->0.elapsed_after)
            && state.last_event != Some(reading.after.event))),
        settled(reading, state).1 is Snapshot <==> reading.player is Some
            && state.last_event is Some && state.last_elapsed != Some(
            reading.player->0.elapsed_after,
        ),
        settled(reading, state).1 is Unchanged <==> state.last_event == Some(reading.after.event)
            && if reading.player is Some {
            state.last_elapsed == Some(reading.player->0.elapsed_after)
        } else {
            !state.had_player
        },
{
}

/// The pedals follow the vehicle's time: of two readings in turn with a player, the second
/// reports pedals exactly if its time is another.
pub proof fn law_pedals_follow_time(
    first: TelemetryReading,
    second: TelemetryReading,
    state: TelemetryState,
)
    requires
        first.player is Some,
        second.player is Some,
    ensures
        settled(second, settled(first, state).0).1 is Snapshot <==> second.player->0.elapsed_after
            != first.player->0.elapsed_after,
{
}

/// A reading is torn exactly if a field of the header, or the vehicle's time, was another when
/// it was seen again.
pub proof fn law_torn(reading: TelemetryReading)
    ensures
        torn(reading) <==> {
            ||| reading.before.event != reading.after.event
            ||| reading.before.active != reading.after.active
            ||| reading.before.player_index != reading.after.player_index
            ||| reading.before.has_player != reading.after.has_player
            ||| reading.player is Some && reading.player->0.elapsed_before
                != reading.player->0.elapsed_after
        },
{
}

/// Where the header and the player's block lie, and when there is a player: if the header says
/// so, and the index is that of an active vehicle among those that the mapping has room for.
pub proof fn law_reading_offsets<M: Memory + ?Sized>(m: &M, reading: TelemetryReading)
    requires
        reading_at(m, reading),
    ensures
        forall|header: TelemetryHeader|
            header == reading.before || header == reading.after ==> {
                &&& memory::holds(m, 44, #[trigger] header.event as int, 4)
                &&& memory::holds(m, 128464, header.active as int, 1)
                &&& memory::holds(m, 128465, header.player_index as int, 1)
                &&& memory::holds(m, 128466, header.has_player as int, 1)
            },
        reading.player is Some <==> reading.before.has_player != 0 && reading.before.player_index
            < reading.before.active && reading.before.player_index < 104,
        reading.player is Some ==> {
            let base = 128468 + 1888 * reading.before.player_index;
            let player = reading.player->0;
            &&& memory::holds(m, base + 12, player.elapsed_before as int, 8)
            &&& memory::holds(m, base + 388, player.throttle.bits as int, 8)
            &&& memory::holds(m, base + 396, player.brake.bits as int, 8)
            &&& memory::holds(m, base + 412, player.clutch.bits as int, 8)
            &&& memory::holds(m, base + 12, player.elapsed_after as int, 8)
        },
{
    assert(reading.before.player_index * VEHICLE_TELEMETRY_SIZE == 1888
        * reading.before.player_index);
}

/// The looks of a reading, in the order in which they are taken, each with what it sees.
pub proof fn law_looks_of_a_reading(reading: TelemetryReading)
    ensures
        reading.player is None ==> reading_looks(reading) == seq![
            watched::number_look(44, reading.before.event as int, 4),
            watched::number_look(128464, reading.before.active as int, 1),
            watched::number_look(128465, reading.before.player_index as int, 1),
            watched::number_look(128466, reading.before.has_player as int, 1),
            watched::number_look(44, reading.after.event as int, 4),
            watched::number_look(128464, reading.after.active as int, 1),
            watched::number_look(128465, reading.after.player_index as int, 1),
            watched::number_look(128466, reading.after.has_player as int, 1),
        ],
        reading.player is Some && reading.before.has_player != 0 && reading.before.player_index
            < reading.before.active && reading.before.player_index < 104 ==> {
            let base = 128468 + 1888 * reading.before.player_index;
            let player = reading.player->0;
            reading_looks(reading) == seq![
                watched::number_look(44, reading.before.event as int, 4),
                watched::number_look(128464, reading.before.active as int, 1),
                watched::number_look(128465, reading.before.player_index as int, 1),
                watched::number_look(128466, reading.before.has_player as int, 1),
                watched::number_look(base + 12, player.elapsed_before as int, 8),
                watched::number_look(base + 388, player.throttle.bits as int, 8),
                watched::number_look(base + 396, player.brake.bits as int, 8),
                watched::number_look(base + 412, player.clutch.bits as int, 8),
                watched::number_look(base + 12, player.elapsed_after as int, 8),
                watched::number_look(44, reading.after.event as int, 4),
                watched::number_look(128464, reading.after.active as int, 1),
                watched::number_look(128465, reading.after.player_index as int, 1),
                watched::number_look(128466, reading.after.has_player as int, 1),
            ]
        },
{
    assert(reading.before.player_index * VEHICLE_TELEMETRY_SIZE == 1888
        * reading.before.player_index);
    if reading.player is None {
        assert(reading_looks(reading) =~= header_looks(reading.before) + header_looks(
            reading.after,
        ));
        assert(reading_looks(reading).len() == 8);
    } else if player_base(reading.before) is Some {
        assert(reading_looks(reading).len() == 13);
    }
}

/// A read reports what the first reading shows that is not torn, and nothing where five in a
/// row are: then the state stays. It makes no further reading.
pub proof fn law_read_settles_on_first_whole_reading<M: Memory + ?Sized>(
    from: &Watched<'_, M>,
    to: &Watched<'_, M>,
    before: TelemetryState,
    after: TelemetryState,
    update: TelemetryUpdate,
) -> (readings: Seq<TelemetryReading>)
    requires
        reports(from, to, before, after, update),
    ensures
        to.memory() == from.memory(),
        to.looks() == from.looks() + all_looks(readings),
        1 <= readings.len() <= 5,
        forall|i: int| 0 <= i < readings.len() ==> reading_at(from.memory(), #[trigger] readings[i]),
        forall|i: int| 0 <= i < readings.len() - 1 ==> torn(#[trigger] readings[i]),
        torn(readings.last()) ==> readings.len() == 5 && after == before
            && update is Unchanged,
        !torn(readings.last()) ==> (after, update) == settled(readings.last(), before),
{
    choose|readings: Seq<TelemetryReading>| #[trigger]
        telemetry_read(from.memory(), readings, before, after, update) && from.goes_on(
            to,
            all_looks(readings),
        )
}

/// The looks of readings follow each other: those of a further reading come last.
pub proof fn law_looks_of_readings(readings: Seq<TelemetryReading>, last: TelemetryReading)
    ensures
        all_looks(Seq::<TelemetryReading>::empty()) == Seq::<Look>::empty(),
        all_looks(readings.push(last)) == all_looks(readings) + reading_looks(last),
{
    assert(readings.push(last).drop_last() =~= readings);
}

} // verus!
