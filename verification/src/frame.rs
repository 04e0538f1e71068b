//! What is read of the mapping for the standings.

use crate::error::{Error, ErrorView};
use crate::float::Double;
use crate::layout::{
    ACTIVE_TELEMETRY_VEHICLES, APPLICATION_WINDOW, MAPPING_SIZE, MAX_VEHICLES,
    PLAYER_HAS_TELEMETRY, PLAYER_TELEMETRY_INDEX, SCORING_CURRENT_ET, SCORING_EVENT,
    SCORING_NUM_VEHICLES, SCORING_PLAYER_NAME, SCORING_SESSION, SCORING_TRACK_NAME,
    SHUTDOWN_EVENT, STARTUP_EVENT, START_SESSION_EVENT, TELEMETRY_EVENT, VEHICLE_SCORING,
    VEHICLE_SCORING_SIZE, VEHICLE_TELEMETRY, VEHICLE_TELEMETRY_SIZE,
};
use crate::memory;
use crate::memory::Memory;
use vstd::prelude::*;

verus! {

/// A vehicle's scoring block.
#[derive(Debug)]
pub struct RawEntry {
    pub id: i32,
    pub driver: Vec<u8>,
    pub vehicle: Vec<u8>,
    pub filename: Vec<u8>,
    pub class: Vec<u8>,
    pub laps: i16,
    pub finish: u8,
    pub distance: Double,
    pub best: Double,
    pub last: Double,
    pub penalties: i16,
    pub player: bool,
    pub in_pits: bool,
    pub place: u8,
    pub behind_next: Double,
    pub laps_next: i32,
    pub behind_leader: Double,
    pub laps_leader: i32,
    pub pit: u8,
    pub garage: bool,
}

/// A vehicle's telemetry block.
#[derive(Debug)]
pub struct RawTelemetry {
    pub id: i32,
    pub vehicle: Vec<u8>,
    pub front: Vec<u8>,
    pub rear: Vec<u8>,
    pub model: Vec<u8>,
    pub class: u8,
}

/// All that the standings are made from.
#[derive(Debug)]
pub struct RawStandingsFrame {
    pub startup: u32,
    pub shutdown: u32,
    pub session_start: u32,
    pub scoring: u32,
    pub telemetry_event: u32,
    pub window: u64,
    pub elapsed: Double,
    pub session: i32,
    pub track: Vec<u8>,
    pub player_name: Vec<u8>,
    pub player_telemetry_id: Option<i32>,
    pub entries: Vec<RawEntry>,
    pub telemetry: Vec<RawTelemetry>,
}

/// The fields of a scoring block, in the order in which they are read.
pub open spec fn entry_spans(base: int) -> Seq<(int, int)> {
    seq![
        (base, 4),
        (base + 4, 32),
        (base + 36, 64),
        (base + 100, 2),
        (base + 103, 1),
        (base + 104, 8),
        (base + 144, 8),
        (base + 168, 8),
        (base + 194, 2),
        (base + 196, 1),
        (base + 198, 1),
        (base + 199, 1),
        (base + 200, 32),
        (base + 232, 8),
        (base + 240, 4),
        (base + 244, 8),
        (base + 252, 4),
        (base + 457, 1),
        (base + 507, 1),
        (base + 544, 32),
    ]
}

/// Whether the memory was seen to hold the scoring block at `base`.
pub open spec fn entry_at<M: Memory + ?Sized>(m: &M, base: int, entry: RawEntry) -> bool {
    &&& memory::holds(m, base, entry.id as int, 4)
    &&& memory::holds_text(m, base + 4, entry.driver@, 32)
    &&& memory::holds_text(m, base + 36, entry.vehicle@, 64)
    &&& memory::holds(m, base + 100, entry.laps as int, 2)
    &&& memory::holds(m, base + 103, entry.finish as int, 1)
    &&& memory::holds(m, base + 104, entry.distance.bits as int, 8)
    &&& memory::holds(m, base + 144, entry.best.bits as int, 8)
    &&& memory::holds(m, base + 168, entry.last.bits as int, 8)
    &&& memory::holds(m, base + 194, entry.penalties as int, 2)
    &&& memory::holds_flag(m, base + 196, entry.player)
    &&& memory::holds_flag(m, base + 198, entry.in_pits)
    &&& memory::holds(m, base + 199, entry.place as int, 1)
    &&& memory::holds_text(m, base + 200, entry.class@, 32)
    &&& memory::holds(m, base + 232, entry.behind_next.bits as int, 8)
    &&& memory::holds(m, base + 240, entry.laps_next as int, 4)
    &&& memory::holds(m, base + 244, entry.behind_leader.bits as int, 8)
    &&& memory::holds(m, base + 252, entry.laps_leader as int, 4)
    &&& memory::holds(m, base + 457, entry.pit as int, 1)
    &&& memory::holds_flag(m, base + 507, entry.garage)
    &&& memory::holds_text(m, base + 544, entry.filename@, 32)
}

/// Reads the scoring block at `base`.
#[verifier::rlimit(60)]
pub fn read_raw_entry<M: Memory + ?Sized>(m: &M, base: usize) -> (read: Result<RawEntry, Error>)
    requires
        base + 576 <= usize::MAX,
    ensures
        match read {
            Ok(entry) => memory::spans_error(m, entry_spans(base as int), 0) is None && entry_at(
                m,
                base as int,
                entry,
            ),
            Err(error) => memory::spans_error(m, entry_spans(base as int), 0) == Some(error@),
        },
{
    proof {
        reveal_with_fuel(memory::spans_error, 21);
    }
    Ok(
        RawEntry {
            id: memory::read_i32(m, base)?,
            driver: memory::read_bytes(m, base + 4, 32)?,
            vehicle: memory::read_bytes(m, base + 36, 64)?,
            laps: memory::read_i16(m, base + 100)?,
            finish: memory::read_u8(m, base + 103)?,
            distance: memory::read_double(m, base + 104)?,
            best: memory::read_double(m, base + 144)?,
            last: memory::read_double(m, base + 168)?,
            penalties: memory::read_i16(m, base + 194)?,
            player: memory::read_flag(m, base + 196)?,
            in_pits: memory::read_flag(m, base + 198)?,
            place: memory::read_u8(m, base + 199)?,
            class: memory::read_bytes(m, base + 200, 32)?,
            behind_next: memory::read_double(m, base + 232)?,
            laps_next: memory::read_i32(m, base + 240)?,
            behind_leader: memory::read_double(m, base + 244)?,
            laps_leader: memory::read_i32(m, base + 252)?,
            pit: memory::read_u8(m, base + 457)?,
            garage: memory::read_flag(m, base + 507)?,
            filename: memory::read_bytes(m, base + 544, 32)?,
        },
    )
}

/// The fields of a telemetry block, in the order in which they are read.
pub open spec fn telemetry_spans(base: int) -> Seq<(int, int)> {
    seq![
        (base, 4),
        (base + 32, 64),
        (base + 620, 18),
        (base + 638, 18),
        (base + 796, 30),
        (base + 826, 1),
    ]
}

/// Whether the memory was seen to hold the telemetry block at `base`.
pub open spec fn telemetry_at<M: Memory + ?Sized>(m: &M, base: int, entry: RawTelemetry) -> bool {
    &&& memory::holds(m, base, entry.id as int, 4)
    &&& memory::holds_text(m, base + 32, entry.vehicle@, 64)
    &&& memory::holds_text(m, base + 620, entry.front@, 18)
    &&& memory::holds_text(m, base + 638, entry.rear@, 18)
    &&& memory::holds_text(m, base + 796, entry.model@, 30)
    &&& memory::holds(m, base + 826, entry.class as int, 1)
}

/// Reads the telemetry block at `base`.
pub fn read_raw_telemetry<M: Memory + ?Sized>(m: &M, base: usize) -> (read: Result<
    RawTelemetry,
    Error,
>)
    requires
        base + 827 <= usize::MAX,
    ensures
        match read {
            Ok(entry) => memory::spans_error(m, telemetry_spans(base as int), 0) is None
                && telemetry_at(m, base as int, entry),
            Err(error) => memory::spans_error(m, telemetry_spans(base as int), 0) == Some(error@),
        },
{
    proof {
        reveal_with_fuel(memory::spans_error, 7);
    }
    Ok(
        RawTelemetry {
            id: memory::read_i32(m, base)?,
            vehicle: memory::read_bytes(m, base + 32, 64)?,
            front: memory::read_bytes(m, base + 620, 18)?,
            rear: memory::read_bytes(m, base + 638, 18)?,
            model: memory::read_bytes(m, base + 796, 30)?,
            class: memory::read_u8(m, base + 826)?,
        },
    )
}

/// The fields before the blocks, in the order in which they are read.
pub open spec fn frame_spans() -> Seq<(int, int)> {
    seq![
        (STARTUP_EVENT as int, 4),
        (SHUTDOWN_EVENT as int, 4),
        (START_SESSION_EVENT as int, 4),
        (SCORING_EVENT as int, 4),
        (TELEMETRY_EVENT as int, 4),
        (APPLICATION_WINDOW as int, 8),
        (SCORING_CURRENT_ET as int, 8),
        (SCORING_SESSION as int, 4),
        (SCORING_TRACK_NAME as int, 64),
        (SCORING_PLAYER_NAME as int, 32),
        (SCORING_NUM_VEHICLES as int, 4),
        (ACTIVE_TELEMETRY_VEHICLES as int, 1),
        (PLAYER_TELEMETRY_INDEX as int, 1),
        (PLAYER_HAS_TELEMETRY as int, 1),
    ]
}

/// The counts and the index that say which blocks are read and which is the player's.
#[derive(Clone, Copy, Debug)]
pub struct FrameCounts {
    pub vehicles: i32,
    pub active: u8,
    pub player_index: u8,
    pub has_player: bool,
}

impl FrameCounts {
    /// The number of scoring blocks.
    pub open spec fn entries(self) -> int {
        if self.vehicles < 0 {
            0
        } else if self.vehicles > MAX_VEHICLES {
            MAX_VEHICLES as int
        } else {
            self.vehicles as int
        }
    }

    /// The number of telemetry blocks.
    pub open spec fn telemetry(self) -> int {
        if self.active > MAX_VEHICLES {
            MAX_VEHICLES as int
        } else {
            self.active as int
        }
    }
}

/// Whether the memory was seen to hold the counts.
pub open spec fn counts_at<M: Memory + ?Sized>(m: &M, counts: FrameCounts) -> bool {
    &&& memory::holds(m, SCORING_NUM_VEHICLES as int, counts.vehicles as int, 4)
    &&& memory::holds(m, ACTIVE_TELEMETRY_VEHICLES as int, counts.active as int, 1)
    &&& memory::holds(m, PLAYER_TELEMETRY_INDEX as int, counts.player_index as int, 1)
    &&& memory::holds_flag(m, PLAYER_HAS_TELEMETRY as int, counts.has_player)
}

/// Where the scoring block with the given index starts.
pub open spec fn entry_base(index: int) -> int {
    VEHICLE_SCORING + index * VEHICLE_SCORING_SIZE
}

/// Where the telemetry block with the given index starts.
pub open spec fn telemetry_base(index: int) -> int {
    VEHICLE_TELEMETRY + index * VEHICLE_TELEMETRY_SIZE
}

/// The error of reading the first `n` scoring blocks.
pub open spec fn entries_error<M: Memory + ?Sized>(m: &M, n: int) -> Option<ErrorView>
    decreases n,
{
    if n <= 0 {
        None
    } else {
        match entries_error(m, n - 1) {
            Some(error) => Some(error),
            None => memory::spans_error(m, entry_spans(entry_base(n - 1)), 0),
        }
    }
}

/// The error of reading the first `n` telemetry blocks.
pub open spec fn telemetry_error<M: Memory + ?Sized>(m: &M, n: int) -> Option<ErrorView>
    decreases n,
{
    if n <= 0 {
        None
    } else {
        match telemetry_error(m, n - 1) {
            Some(error) => Some(error),
            None => memory::spans_error(m, telemetry_spans(telemetry_base(n - 1)), 0),
        }
    }
}

/// The error of reading the frame in which these counts were seen: that of the first
/// field that reaches beyond the memory.
pub open spec fn frame_error<M: Memory + ?Sized>(m: &M, counts: FrameCounts) -> Option<ErrorView> {
    match (
        memory::spans_error(m, frame_spans(), 0),
        entries_error(m, counts.entries()),
        telemetry_error(m, counts.telemetry()),
    ) {
        (Some(error), _, _) => Some(error),
        (None, Some(error), _) => Some(error),
        (None, None, outcome) => outcome,
    }
}

/// Whether the memory was seen to hold the frame, with these counts.
pub open spec fn frame_at<M: Memory + ?Sized>(
    m: &M,
    frame: RawStandingsFrame,
    counts: FrameCounts,
) -> bool {
    &&& memory::holds(m, STARTUP_EVENT as int, frame.startup as int, 4)
    &&& memory::holds(m, SHUTDOWN_EVENT as int, frame.shutdown as int, 4)
    &&& memory::holds(m, START_SESSION_EVENT as int, frame.session_start as int, 4)
    &&& memory::holds(m, SCORING_EVENT as int, frame.scoring as int, 4)
    &&& memory::holds(m, TELEMETRY_EVENT as int, frame.telemetry_event as int, 4)
    &&& memory::holds(m, APPLICATION_WINDOW as int, frame.window as int, 8)
    &&& memory::holds(m, SCORING_CURRENT_ET as int, frame.elapsed.bits as int, 8)
    &&& memory::holds(m, SCORING_SESSION as int, frame.session as int, 4)
    &&& memory::holds_text(m, SCORING_TRACK_NAME as int, frame.track@, 64)
    &&& memory::holds_text(m, SCORING_PLAYER_NAME as int, frame.player_name@, 32)
    &&& counts_at(m, counts)
    &&& frame.entries@.len() == counts.entries()
    &&& forall|i: int|
        0 <= i < frame.entries@.len() ==> entry_at(m, entry_base(i), #[trigger] frame.entries@[i])
    &&& frame.telemetry@.len() == counts.telemetry()
    &&& forall|i: int|
        0 <= i < frame.telemetry@.len() ==> telemetry_at(
            m,
            telemetry_base(i),
            #[trigger] frame.telemetry@[i],
        )
    &&& frame.player_telemetry_id == if counts.has_player && counts.player_index
        < frame.telemetry@.len() {
        Some(frame.telemetry@[counts.player_index as int].id)
    } else {
        None
    }
}

/// Reads the first `n` scoring blocks.
fn read_entries<M: Memory + ?Sized>(m: &M, n: usize) -> (read: Result<Vec<RawEntry>, Error>)
    requires
        n <= MAX_VEHICLES,
    ensures
        match read {
            Ok(entries) => {
                &&& entries_error(m, n as int) is None
                &&& entries@.len() == n
                &&& forall|i: int| 0 <= i < n ==> entry_at(m, entry_base(i), #[trigger] entries@[i])
            },
            Err(error) => entries_error(m, n as int) == Some(error@),
        },
{
    let mut entries: Vec<RawEntry> = Vec::new();
    let mut i: usize = 0;
    while i < n
        invariant
            i <= n <= MAX_VEHICLES,
            entries_error(m, i as int) is None,
            entries@.len() == i,
            forall|j: int| 0 <= j < i ==> entry_at(m, entry_base(j), #[trigger] entries@[j]),
        decreases n - i,
    {
        let read: Result<RawEntry, Error> = read_raw_entry(
            m,
            VEHICLE_SCORING + i * VEHICLE_SCORING_SIZE,
        );
        i += 1;
        match read {
            Ok(entry) => entries.push(entry),
            Err(error) => {
                proof {
                    lemma_entries_error_stays(m, i as int, n as int);
                }
                return Err(error);
            },
        }
    }
    Ok(entries)
}

/// Reads the first `n` telemetry blocks.
fn read_telemetry_blocks<M: Memory + ?Sized>(m: &M, n: usize) -> (read: Result<
    Vec<RawTelemetry>,
    Error,
>)
    requires
        n <= MAX_VEHICLES,
    ensures
        match read {
            Ok(blocks) => {
                &&& telemetry_error(m, n as int) is None
                &&& blocks@.len() == n
                &&& forall|i: int|
                    0 <= i < n ==> telemetry_at(m, telemetry_base(i), #[trigger] blocks@[i])
            },
            Err(error) => telemetry_error(m, n as int) == Some(error@),
        },
{
    let mut blocks: Vec<RawTelemetry> = Vec::new();
    let mut i: usize = 0;
    while i < n
        invariant
            i <= n <= MAX_VEHICLES,
            telemetry_error(m, i as int) is None,
            blocks@.len() == i,
            forall|j: int| 0 <= j < i ==> telemetry_at(m, telemetry_base(j), #[trigger] blocks@[j]),
        decreases n - i,
    {
        let read: Result<RawTelemetry, Error> = read_raw_telemetry(
            m,
            VEHICLE_TELEMETRY + i * VEHICLE_TELEMETRY_SIZE,
        );
        i += 1;
        match read {
            Ok(block) => blocks.push(block),
            Err(error) => {
                proof {
                    lemma_telemetry_error_stays(m, i as int, n as int);
                }
                return Err(error);
            },
        }
    }
    Ok(blocks)
}

/// An error of the first blocks is that of all.
proof fn lemma_entries_error_stays<M: Memory + ?Sized>(m: &M, i: int, n: int)
    requires
        i <= n,
        entries_error(m, i) is Some,
    ensures
        entries_error(m, n) == entries_error(m, i),
    decreases n - i,
{
    if i < n {
        lemma_entries_error_stays(m, i, n - 1);
    }
}

/// An error of the first blocks is that of all.
proof fn lemma_telemetry_error_stays<M: Memory + ?Sized>(m: &M, i: int, n: int)
    requires
        i <= n,
        telemetry_error(m, i) is Some,
    ensures
        telemetry_error(m, n) == telemetry_error(m, i),
    decreases n - i,
{
    if i < n {
        lemma_telemetry_error_stays(m, i, n - 1);
    }
}

/// Whether reading a frame fails with this error, on some counts that the memory may
/// hold.
pub open spec fn frame_fails<M: Memory + ?Sized>(m: &M, error: ErrorView) -> bool {
    ||| memory::spans_error(m, frame_spans(), 0) == Some(error)
    ||| exists|counts: FrameCounts| #[trigger]
        counts_at(m, counts) && frame_error(m, counts) == Some(error)
}

/// Reads the frame.
pub fn read_standings_frame<M: Memory + ?Sized>(m: &M) -> (read: Result<RawStandingsFrame, Error>)
    ensures
        match read {
            Ok(frame) => exists|counts: FrameCounts| #[trigger]
                frame_at(m, frame, counts) && frame_error(m, counts) is None,
            Err(error) => frame_fails(m, error@),
        },
{
    proof {
        reveal_with_fuel(memory::spans_error, 15);
    }
    let startup: u32 = memory::read_u32(m, STARTUP_EVENT)?;
    let shutdown: u32 = memory::read_u32(m, SHUTDOWN_EVENT)?;
    let session_start: u32 = memory::read_u32(m, START_SESSION_EVENT)?;
    let scoring: u32 = memory::read_u32(m, SCORING_EVENT)?;
    let telemetry_event: u32 = memory::read_u32(m, TELEMETRY_EVENT)?;
    let window: u64 = memory::read_u64(m, APPLICATION_WINDOW)?;
    let elapsed: Double = memory::read_double(m, SCORING_CURRENT_ET)?;
    let session: i32 = memory::read_i32(m, SCORING_SESSION)?;
    let track: Vec<u8> = memory::read_bytes(m, SCORING_TRACK_NAME, 64)?;
    let player_name: Vec<u8> = memory::read_bytes(m, SCORING_PLAYER_NAME, 32)?;
    let vehicles: i32 = memory::read_i32(m, SCORING_NUM_VEHICLES)?;
    let active: u8 = memory::read_u8(m, ACTIVE_TELEMETRY_VEHICLES)?;
    let player_index: u8 = memory::read_u8(m, PLAYER_TELEMETRY_INDEX)?;
    let has_player: bool = memory::read_flag(m, PLAYER_HAS_TELEMETRY)?;
    let ghost counts = FrameCounts { vehicles, active, player_index, has_player };
    assert(counts_at(m, counts));
    let count: usize = if vehicles < 0 {
        0
    } else if vehicles as usize > MAX_VEHICLES {
        MAX_VEHICLES
    } else {
        vehicles as usize
    };
    let telemetry_count: usize = if active as usize > MAX_VEHICLES {
        MAX_VEHICLES
    } else {
        active as usize
    };
    let entries: Vec<RawEntry> = read_entries(m, count)?;
    let telemetry: Vec<RawTelemetry> = read_telemetry_blocks(m, telemetry_count)?;
    let player_telemetry_id: Option<i32> = if has_player && (player_index as usize)
        < telemetry.len() {
        Some(telemetry[player_index as usize].id)
    } else {
        None
    };
    let frame: RawStandingsFrame = RawStandingsFrame {
        startup,
        shutdown,
        session_start,
        scoring,
        telemetry_event,
        window,
        elapsed,
        session,
        track,
        player_name,
        player_telemetry_id,
        entries,
        telemetry,
    };
    assert(frame_at(m, frame, counts));
    Ok(frame)
}

/// The blocks of a mapping of full size can be read.
proof fn lemma_full_mapping_blocks<M: Memory + ?Sized>(m: &M, n: int)
    requires
        m.size() >= MAPPING_SIZE,
        n <= MAX_VEHICLES,
    ensures
        entries_error(m, n) is None,
        telemetry_error(m, n) is None,
    decreases n,
{
    if n > 0 {
        lemma_full_mapping_blocks(m, n - 1);
        reveal_with_fuel(memory::spans_error, 21);
        assert(memory::spans_error(m, entry_spans(entry_base(n - 1)), 0) is None);
        assert(memory::spans_error(m, telemetry_spans(telemetry_base(n - 1)), 0) is None);
    }
}

/// A frame of a mapping of full size can always be read.
pub proof fn law_full_mapping_has_standings<M: Memory + ?Sized>(m: &M, error: ErrorView)
    requires
        m.size() >= MAPPING_SIZE,
    ensures
        !frame_fails(m, error),
{
    reveal_with_fuel(memory::spans_error, 15);
    assert forall|counts: FrameCounts| #[trigger] frame_error(m, counts) is None by {
        lemma_full_mapping_blocks(m, counts.entries());
        lemma_full_mapping_blocks(m, counts.telemetry());
    }
}

/// Whether two scoring blocks are the same.
pub open spec fn same_entry(a: RawEntry, b: RawEntry) -> bool {
    &&& a.id == b.id
    &&& a.driver@ == b.driver@
    &&& a.vehicle@ == b.vehicle@
    &&& a.filename@ == b.filename@
    &&& a.class@ == b.class@
    &&& a.laps == b.laps
    &&& a.finish == b.finish
    &&& a.distance == b.distance
    &&& a.best == b.best
    &&& a.last == b.last
    &&& a.penalties == b.penalties
    &&& a.player == b.player
    &&& a.in_pits == b.in_pits
    &&& a.place == b.place
    &&& a.behind_next == b.behind_next
    &&& a.laps_next == b.laps_next
    &&& a.behind_leader == b.behind_leader
    &&& a.laps_leader == b.laps_leader
    &&& a.pit == b.pit
    &&& a.garage == b.garage
}

/// Whether two telemetry blocks are the same.
pub open spec fn same_telemetry(a: RawTelemetry, b: RawTelemetry) -> bool {
    &&& a.id == b.id
    &&& a.vehicle@ == b.vehicle@
    &&& a.front@ == b.front@
    &&& a.rear@ == b.rear@
    &&& a.model@ == b.model@
    &&& a.class == b.class
}

/// Whether two frames are the same.
pub open spec fn same_frame(a: RawStandingsFrame, b: RawStandingsFrame) -> bool {
    &&& a.startup == b.startup
    &&& a.shutdown == b.shutdown
    &&& a.session_start == b.session_start
    &&& a.scoring == b.scoring
    &&& a.telemetry_event == b.telemetry_event
    &&& a.window == b.window
    &&& a.elapsed == b.elapsed
    &&& a.session == b.session
    &&& a.track@ == b.track@
    &&& a.player_name@ == b.player_name@
    &&& a.player_telemetry_id == b.player_telemetry_id
    &&& a.entries@.len() == b.entries@.len()
    &&& forall|i: int|
        0 <= i < a.entries@.len() ==> same_entry(#[trigger] a.entries@[i], b.entries@[i])
    &&& a.telemetry@.len() == b.telemetry@.len()
    &&& forall|i: int|
        0 <= i < a.telemetry@.len() ==> same_telemetry(#[trigger] a.telemetry@[i], b.telemetry@[i])
}

/// Bytes that stand still show one scoring block at each place.
pub proof fn law_still_bytes_show_one_entry(m: &[u8], base: int, a: RawEntry, b: RawEntry)
    requires
        entry_at(m, base, a),
        entry_at(m, base, b),
    ensures
        same_entry(a, b),
{
    memory::lemma_powers();
    memory::law_still_bytes_hold_one_number(m, base, a.id as int, b.id as int, 4);
    memory::law_still_bytes_hold_one_number(m, base + 100, a.laps as int, b.laps as int, 2);
    memory::law_still_bytes_hold_one_number(m, base + 103, a.finish as int, b.finish as int, 1);
    lemma_still_double(m, base + 104, a.distance, b.distance);
    lemma_still_double(m, base + 144, a.best, b.best);
    lemma_still_double(m, base + 168, a.last, b.last);
    memory::law_still_bytes_hold_one_number(
        m,
        base + 194,
        a.penalties as int,
        b.penalties as int,
        2,
    );
    memory::law_still_bytes_hold_one_flag(m, base + 196, a.player, b.player);
    memory::law_still_bytes_hold_one_flag(m, base + 198, a.in_pits, b.in_pits);
    memory::law_still_bytes_hold_one_number(m, base + 199, a.place as int, b.place as int, 1);
    lemma_still_double(m, base + 232, a.behind_next, b.behind_next);
    memory::law_still_bytes_hold_one_number(
        m,
        base + 240,
        a.laps_next as int,
        b.laps_next as int,
        4,
    );
    lemma_still_double(m, base + 244, a.behind_leader, b.behind_leader);
    memory::law_still_bytes_hold_one_number(
        m,
        base + 252,
        a.laps_leader as int,
        b.laps_leader as int,
        4,
    );
    memory::law_still_bytes_hold_one_number(m, base + 457, a.pit as int, b.pit as int, 1);
    memory::law_still_bytes_hold_one_flag(m, base + 507, a.garage, b.garage);
}

/// Two doubles seen at one place of bytes that stand still are the same.
proof fn lemma_still_double(m: &[u8], offset: int, a: Double, b: Double)
    requires
        memory::holds(m, offset, a.bits as int, 8),
        memory::holds(m, offset, b.bits as int, 8),
    ensures
        a == b,
{
    memory::lemma_powers();
    memory::law_still_bytes_hold_one_number(m, offset, a.bits as int, b.bits as int, 8);
}

/// Bytes that stand still show one telemetry block at each place.
pub proof fn law_still_bytes_show_one_telemetry(
    m: &[u8],
    base: int,
    a: RawTelemetry,
    b: RawTelemetry,
)
    requires
        telemetry_at(m, base, a),
        telemetry_at(m, base, b),
    ensures
        same_telemetry(a, b),
{
    memory::lemma_powers();
    memory::law_still_bytes_hold_one_number(m, base, a.id as int, b.id as int, 4);
    memory::law_still_bytes_hold_one_number(m, base + 826, a.class as int, b.class as int, 1);
}

/// Bytes that stand still show one frame.
pub proof fn law_still_bytes_show_one_frame(
    m: &[u8],
    a: RawStandingsFrame,
    b: RawStandingsFrame,
    x: FrameCounts,
    y: FrameCounts,
)
    requires
        frame_at(m, a, x),
        frame_at(m, b, y),
    ensures
        x == y,
        same_frame(a, b),
{
    lemma_still_counts(m, x, y);
    lemma_still_events(m, a, b, x, y);
    assert forall|i: int| 0 <= i < a.entries@.len() implies same_entry(
        #[trigger] a.entries@[i],
        b.entries@[i],
    ) by {
        law_still_bytes_show_one_entry(m, entry_base(i), a.entries@[i], b.entries@[i]);
    }
    assert forall|i: int| 0 <= i < a.telemetry@.len() implies same_telemetry(
        #[trigger] a.telemetry@[i],
        b.telemetry@[i],
    ) by {
        law_still_bytes_show_one_telemetry(
            m,
            telemetry_base(i),
            a.telemetry@[i],
            b.telemetry@[i],
        );
    }
    if x.has_player && x.player_index < a.telemetry@.len() {
        assert(same_telemetry(
            a.telemetry@[x.player_index as int],
            b.telemetry@[x.player_index as int],
        ));
    }
}

/// Bytes that stand still show the counts one way only.
proof fn lemma_still_counts(m: &[u8], x: FrameCounts, y: FrameCounts)
    requires
        counts_at(m, x),
        counts_at(m, y),
    ensures
        x == y,
{
    memory::lemma_powers();
    memory::law_still_bytes_hold_one_number(
        m,
        SCORING_NUM_VEHICLES as int,
        x.vehicles as int,
        y.vehicles as int,
        4,
    );
    memory::law_still_bytes_hold_one_number(
        m,
        ACTIVE_TELEMETRY_VEHICLES as int,
        x.active as int,
        y.active as int,
        1,
    );
    memory::law_still_bytes_hold_one_number(
        m,
        PLAYER_TELEMETRY_INDEX as int,
        x.player_index as int,
        y.player_index as int,
        1,
    );
    memory::law_still_bytes_hold_one_flag(
        m,
        PLAYER_HAS_TELEMETRY as int,
        x.has_player,
        y.has_player,
    );
}

/// Bytes that stand still show the fields before the blocks one way only.
proof fn lemma_still_events(
    m: &[u8],
    a: RawStandingsFrame,
    b: RawStandingsFrame,
    x: FrameCounts,
    y: FrameCounts,
)
    requires
        frame_at(m, a, x),
        frame_at(m, b, y),
    ensures
        a.startup == b.startup,
        a.shutdown == b.shutdown,
        a.session_start == b.session_start,
        a.scoring == b.scoring,
        a.telemetry_event == b.telemetry_event,
        a.window == b.window,
        a.elapsed == b.elapsed,
        a.session == b.session,
        a.track@ == b.track@,
        a.player_name@ == b.player_name@,
{
    memory::lemma_powers();
    let at = STARTUP_EVENT as int;
    memory::law_still_bytes_hold_one_number(m, at, a.startup as int, b.startup as int, 4);
    let at = SHUTDOWN_EVENT as int;
    memory::law_still_bytes_hold_one_number(m, at, a.shutdown as int, b.shutdown as int, 4);
    let at = START_SESSION_EVENT as int;
    memory::law_still_bytes_hold_one_number(
        m,
        at,
        a.session_start as int,
        b.session_start as int,
        4,
    );
    let at = SCORING_EVENT as int;
    memory::law_still_bytes_hold_one_number(m, at, a.scoring as int, b.scoring as int, 4);
    let at = TELEMETRY_EVENT as int;
    memory::law_still_bytes_hold_one_number(
        m,
        at,
        a.telemetry_event as int,
        b.telemetry_event as int,
        4,
    );
    let at = APPLICATION_WINDOW as int;
    memory::law_still_bytes_hold_one_number(m, at, a.window as int, b.window as int, 8);
    lemma_still_double(m, SCORING_CURRENT_ET as int, a.elapsed, b.elapsed);
    let at = SCORING_SESSION as int;
    memory::law_still_bytes_hold_one_number(m, at, a.session as int, b.session as int, 4);
}

/// Where each field of a scoring block lies in it.
pub proof fn law_entry_offsets<M: Memory + ?Sized>(m: &M, base: int, entry: RawEntry)
    requires
        entry_at(m, base, entry),
    ensures
        memory::holds(m, base, entry.id as int, 4),
        entry.driver@.len() == 32 && m.may_hold(base + 4, entry.driver@),
        entry.vehicle@.len() == 64 && m.may_hold(base + 36, entry.vehicle@),
        memory::holds(m, base + 100, entry.laps as int, 2),
        memory::holds(m, base + 103, entry.finish as int, 1),
        memory::holds(m, base + 104, entry.distance.bits as int, 8),
        memory::holds(m, base + 144, entry.best.bits as int, 8),
        memory::holds(m, base + 168, entry.last.bits as int, 8),
        memory::holds(m, base + 194, entry.penalties as int, 2),
        memory::holds_flag(m, base + 196, entry.player),
        memory::holds_flag(m, base + 198, entry.in_pits),
        memory::holds(m, base + 199, entry.place as int, 1),
        entry.class@.len() == 32 && m.may_hold(base + 200, entry.class@),
        memory::holds(m, base + 232, entry.behind_next.bits as int, 8),
        memory::holds(m, base + 240, entry.laps_next as int, 4),
        memory::holds(m, base + 244, entry.behind_leader.bits as int, 8),
        memory::holds(m, base + 252, entry.laps_leader as int, 4),
        memory::holds(m, base + 457, entry.pit as int, 1),
        memory::holds_flag(m, base + 507, entry.garage),
        entry.filename@.len() == 32 && m.may_hold(base + 544, entry.filename@),
{
}

/// Where each field of a telemetry block lies in it.
pub proof fn law_telemetry_offsets<M: Memory + ?Sized>(m: &M, base: int, entry: RawTelemetry)
    requires
        telemetry_at(m, base, entry),
    ensures
        memory::holds(m, base, entry.id as int, 4),
        entry.vehicle@.len() == 64 && m.may_hold(base + 32, entry.vehicle@),
        entry.front@.len() == 18 && m.may_hold(base + 620, entry.front@),
        entry.rear@.len() == 18 && m.may_hold(base + 638, entry.rear@),
        entry.model@.len() == 30 && m.may_hold(base + 796, entry.model@),
        memory::holds(m, base + 826, entry.class as int, 1),
{
}

/// Where each field of a frame lies in the mapping, how many blocks it has, where each of them
/// begins, and that the player's telemetry is that of the block with the player's index.
pub proof fn law_frame_offsets<M: Memory + ?Sized>(
    m: &M,
    frame: RawStandingsFrame,
    counts: FrameCounts,
)
    requires
        frame_at(m, frame, counts),
    ensures
        memory::holds(m, 8, frame.startup as int, 4),
        memory::holds(m, 12, frame.shutdown as int, 4),
        memory::holds(m, 24, frame.session_start as int, 4),
        memory::holds(m, 40, frame.scoring as int, 4),
        memory::holds(m, 44, frame.telemetry_event as int, 4),
        memory::holds(m, 72, frame.window as int, 8),
        frame.track@.len() == 64 && m.may_hold(1632, frame.track@),
        memory::holds(m, 1696, frame.session as int, 4),
        memory::holds(m, 1700, frame.elapsed.bits as int, 8),
        memory::holds(m, 1736, counts.vehicles as int, 4),
        frame.player_name@.len() == 32 && m.may_hold(1748, frame.player_name@),
        memory::holds(m, 128464, counts.active as int, 1),
        memory::holds(m, 128465, counts.player_index as int, 1),
        memory::holds_flag(m, 128466, counts.has_player),
        counts.vehicles <= 0 ==> frame.entries@.len() == 0,
        0 <= counts.vehicles <= 104 ==> frame.entries@.len() == counts.vehicles,
        counts.vehicles >= 104 ==> frame.entries@.len() == 104,
        counts.active <= 104 ==> frame.telemetry@.len() == counts.active,
        counts.active >= 104 ==> frame.telemetry@.len() == 104,
        forall|i: int|
            0 <= i < frame.entries@.len() ==> entry_at(
                m,
                2192 + 584 * i,
                #[trigger] frame.entries@[i],
            ),
        forall|i: int|
            0 <= i < frame.telemetry@.len() ==> telemetry_at(
                m,
                128468 + 1888 * i,
                #[trigger] frame.telemetry@[i],
            ),
        frame.player_telemetry_id is Some <==> counts.has_player && counts.player_index
            < frame.telemetry@.len(),
        frame.player_telemetry_id is Some ==> frame.player_telemetry_id->0
            == frame.telemetry@[counts.player_index as int].id,
{
}

/// The fields before the blocks can be read exactly if the memory reaches behind the last of
/// them, and each block exactly if the memory reaches behind its last field.
pub proof fn law_frame_needs<M: Memory + ?Sized>(m: &M, base: int)
    ensures
        memory::spans_error(m, frame_spans(), 0) is None <==> m.size() >= 128467,
        memory::spans_error(m, entry_spans(base), 0) is None <==> base + 576 <= m.size(),
        memory::spans_error(m, telemetry_spans(base), 0) is None <==> base + 827 <= m.size(),
{
    lemma_last_span(m, frame_spans(), 13);
    lemma_last_span(m, entry_spans(base), 19);
    lemma_last_span(m, telemetry_spans(base), 5);
}

/// Spans can be read exactly if the memory reaches behind the one that ends last.
proof fn lemma_last_span<M: Memory + ?Sized>(m: &M, spans: Seq<(int, int)>, last: int)
    requires
        0 <= last < spans.len(),
        forall|k: int|
            0 <= k < spans.len() ==> (#[trigger] spans[k]).0 + spans[k].1 <= spans[last].0
                + spans[last].1,
    ensures
        memory::spans_error(m, spans, 0) is None <==> spans[last].0 + spans[last].1 <= m.size(),
{
    memory::law_first_span_outside(m, spans, 0);
}

/// The blocks are read in turn, first those of the scoring: the error is that of the fields
/// before the blocks, or else that of the first block that has one.
pub proof fn law_first_block_outside<M: Memory + ?Sized>(m: &M, n: int)
    requires
        0 <= n,
    ensures
        match entries_error(m, n) {
            None => forall|i: int|
                0 <= i < n ==> memory::spans_error(
                    m,
                    entry_spans(#[trigger] entry_base(i)),
                    0,
                ) is None,
            Some(error) => exists|i: int|
                0 <= i < n && memory::spans_error(m, entry_spans(#[trigger] entry_base(i)), 0)
                    == Some(error) && forall|j: int|
                    0 <= j < i ==> memory::spans_error(
                        m,
                        entry_spans(#[trigger] entry_base(j)),
                        0,
                    ) is None,
        },
        match telemetry_error(m, n) {
            None => forall|i: int|
                0 <= i < n ==> memory::spans_error(
                    m,
                    telemetry_spans(#[trigger] telemetry_base(i)),
                    0,
                ) is None,
            Some(error) => exists|i: int|
                0 <= i < n && memory::spans_error(
                    m,
                    telemetry_spans(#[trigger] telemetry_base(i)),
                    0,
                ) == Some(error) && forall|j: int|
                    0 <= j < i ==> memory::spans_error(
                        m,
                        telemetry_spans(#[trigger] telemetry_base(j)),
                        0,
                    ) is None,
        },
    decreases n,
{
    if n > 0 {
        law_first_block_outside(m, n - 1);
        assert(entry_base(n - 1) == entry_base(n - 1));
        assert(telemetry_base(n - 1) == telemetry_base(n - 1));
    }
}

} // verus!
