//! The weather of the session.

use crate::error::Error;
use crate::float::Double;
use crate::layout::{
    APPLICATION_WINDOW, MAPPING_SIZE, SCORING_AMBIENT_TEMPERATURE,
    SCORING_AVERAGE_PATH_WETNESS, SCORING_CLOUD_DARKNESS, SCORING_MAX_PATH_WETNESS,
    SCORING_MIN_PATH_WETNESS, SCORING_RAIN_INTENSITY, SCORING_TRACK_TEMPERATURE, SCORING_WIND,
    SHUTDOWN_EVENT, STARTUP_EVENT, VEHICLE_SCORING,
};
use crate::memory;
use crate::memory::Memory;
use crate::source;
use vstd::prelude::*;

verus! {

#[derive(Clone, Copy, Debug)]
pub struct Wind {
    /// Wind velocity along LMU's world X axis, in meters per second.
    pub x: Double,
    /// Wind velocity along LMU's world Y axis, in meters per second.
    pub y: Double,
    /// Wind velocity along LMU's world Z axis, in meters per second.
    pub z: Double,
}

impl Wind {
    /// Whether the two compare as equal.
    pub open spec fn equals(self, other: Wind) -> bool {
        self.x.equals(other.x) && self.y.equals(other.y) && self.z.equals(other.z)
    }
}

impl PartialEq for Wind {
    fn eq(&self, other: &Wind) -> (same: bool) {
        self.x == other.x && self.y == other.y && self.z == other.z
    }
}

impl vstd::std_specs::cmp::PartialEqSpecImpl for Wind {
    open spec fn obeys_eq_spec() -> bool {
        true
    }

    open spec fn eq_spec(&self, other: &Wind) -> bool {
        self.equals(*other)
    }
}

impl Default for Wind {
    /// No wind.
    fn default() -> (wind: Wind)
        ensures
            wind.x.bits == 0 && wind.y.bits == 0 && wind.z.bits == 0,
    {
        Wind { x: Double::default(), y: Double::default(), z: Double::default() }
    }
}

#[derive(Clone, Copy, Debug)]
pub struct WeatherSnapshot {
    /// Cloud darkness, from 0.0 (clear) to 1.0 (dark).
    pub cloud_darkness: Double,
    /// Rain intensity, from 0.0 (dry) to 1.0 (heavy rain).
    pub rain_intensity: Double,
    /// Ambient temperature in Celsius.
    pub ambient_temperature_celsius: Double,
    /// Track temperature in Celsius.
    pub track_temperature_celsius: Double,
    /// Wind velocity in LMU world coordinates, in meters per second.
    pub wind: Wind,
    /// Lowest wetness on the racing path, from 0.0 (dry) to 1.0 (fully wet).
    pub minimum_path_wetness: Double,
    /// Highest wetness on the racing path, from 0.0 (dry) to 1.0 (fully wet).
    pub maximum_path_wetness: Double,
    /// Average wetness on the racing path, from 0.0 (dry) to 1.0 (fully wet).
    pub average_path_wetness: Double,
}

impl WeatherSnapshot {
    /// Whether the two compare as equal. A snapshot with a field that is not a number
    /// does not even equal itself.
    pub open spec fn equals(self, other: WeatherSnapshot) -> bool {
        &&& self.cloud_darkness.equals(other.cloud_darkness)
        &&& self.rain_intensity.equals(other.rain_intensity)
        &&& self.ambient_temperature_celsius.equals(other.ambient_temperature_celsius)
        &&& self.track_temperature_celsius.equals(other.track_temperature_celsius)
        &&& self.wind.equals(other.wind)
        &&& self.minimum_path_wetness.equals(other.minimum_path_wetness)
        &&& self.maximum_path_wetness.equals(other.maximum_path_wetness)
        &&& self.average_path_wetness.equals(other.average_path_wetness)
    }

    /// Whether a field is not a number.
    pub open spec fn has_nan(self) -> bool {
        ||| self.cloud_darkness.nan()
        ||| self.rain_intensity.nan()
        ||| self.ambient_temperature_celsius.nan()
        ||| self.track_temperature_celsius.nan()
        ||| self.wind.x.nan()
        ||| self.wind.y.nan()
        ||| self.wind.z.nan()
        ||| self.minimum_path_wetness.nan()
        ||| self.maximum_path_wetness.nan()
        ||| self.average_path_wetness.nan()
    }
}

impl PartialEq for WeatherSnapshot {
    fn eq(&self, other: &WeatherSnapshot) -> (same: bool) {
        self.cloud_darkness == other.cloud_darkness && self.rain_intensity == other.rain_intensity
            && self.ambient_temperature_celsius == other.ambient_temperature_celsius
            && self.track_temperature_celsius == other.track_temperature_celsius && self.wind
            == other.wind && self.minimum_path_wetness == other.minimum_path_wetness
            && self.maximum_path_wetness == other.maximum_path_wetness && self.average_path_wetness
            == other.average_path_wetness
    }
}

impl vstd::std_specs::cmp::PartialEqSpecImpl for WeatherSnapshot {
    open spec fn obeys_eq_spec() -> bool {
        true
    }

    open spec fn eq_spec(&self, other: &WeatherSnapshot) -> bool {
        self.equals(*other)
    }
}

impl Default for WeatherSnapshot {
    /// All fields zero.
    fn default() -> (weather: WeatherSnapshot)
        ensures
            weather.cloud_darkness.bits == 0,
            weather.rain_intensity.bits == 0,
            weather.ambient_temperature_celsius.bits == 0,
            weather.track_temperature_celsius.bits == 0,
            weather.wind.x.bits == 0 && weather.wind.y.bits == 0 && weather.wind.z.bits == 0,
            weather.minimum_path_wetness.bits == 0,
            weather.maximum_path_wetness.bits == 0,
            weather.average_path_wetness.bits == 0,
    {
        WeatherSnapshot {
            cloud_darkness: Double::default(),
            rain_intensity: Double::default(),
            ambient_temperature_celsius: Double::default(),
            track_temperature_celsius: Double::default(),
            wind: Wind::default(),
            minimum_path_wetness: Double::default(),
            maximum_path_wetness: Double::default(),
            average_path_wetness: Double::default(),
        }
    }
}

/// What a read reports.
#[derive(Clone, Copy, Debug)]
pub enum WeatherUpdate {
    /// The weather has changed.
    Snapshot(WeatherSnapshot),
    /// The source has stopped.
    NoSession,
    /// Nothing is new.
    Unchanged,
}

impl PartialEq for WeatherUpdate {
    fn eq(&self, other: &WeatherUpdate) -> (same: bool) {
        match (self, other) {
            (WeatherUpdate::Snapshot(a), WeatherUpdate::Snapshot(b)) => *a == *b,
            (WeatherUpdate::NoSession, WeatherUpdate::NoSession) => true,
            (WeatherUpdate::Unchanged, WeatherUpdate::Unchanged) => true,
            _ => false,
        }
    }
}

impl vstd::std_specs::cmp::PartialEqSpecImpl for WeatherUpdate {
    open spec fn obeys_eq_spec() -> bool {
        true
    }

    open spec fn eq_spec(&self, other: &WeatherUpdate) -> bool {
        match (*self, *other) {
            (WeatherUpdate::Snapshot(a), WeatherUpdate::Snapshot(b)) => a.equals(b),
            (WeatherUpdate::NoSession, WeatherUpdate::NoSession) => true,
            (WeatherUpdate::Unchanged, WeatherUpdate::Unchanged) => true,
            _ => false,
        }
    }
}

/// What earlier reads have seen.
#[derive(Clone, Copy, Debug)]
pub struct WeatherState {
    pub previous: Option<WeatherSnapshot>,
    pub had_source: bool,
}

impl Default for WeatherState {
    /// Nothing seen yet.
    fn default() -> (state: WeatherState)
        ensures
            state == nothing_seen(),
    {
        WeatherState { previous: None, had_source: false }
    }
}

/// The state before the first read.
pub open spec fn nothing_seen() -> WeatherState {
    WeatherState { previous: None, had_source: false }
}

/// What holds of every state that reads can lead to: of a source that was seen, the
/// weather is kept.
pub open spec fn valid(state: WeatherState) -> bool {
    state.had_source ==> state.previous is Some
}

/// What is read of the mapping.
#[derive(Clone, Copy, Debug)]
pub struct RawWeatherFrame {
    pub startup: u32,
    pub shutdown: u32,
    pub window: u64,
    pub snapshot: WeatherSnapshot,
}

/// Whether the memory was seen to hold the frame.
pub open spec fn weather_at<M: Memory + ?Sized>(m: &M, frame: RawWeatherFrame) -> bool {
    let weather = frame.snapshot;
    &&& memory::holds(m, STARTUP_EVENT as int, frame.startup as int, 4)
    &&& memory::holds(m, SHUTDOWN_EVENT as int, frame.shutdown as int, 4)
    &&& memory::holds(m, APPLICATION_WINDOW as int, frame.window as int, 8)
    &&& memory::holds(m, SCORING_CLOUD_DARKNESS as int, weather.cloud_darkness.bits as int, 8)
    &&& memory::holds(m, SCORING_RAIN_INTENSITY as int, weather.rain_intensity.bits as int, 8)
    &&& memory::holds(
        m,
        SCORING_AMBIENT_TEMPERATURE as int,
        weather.ambient_temperature_celsius.bits as int,
        8,
    )
    &&& memory::holds(
        m,
        SCORING_TRACK_TEMPERATURE as int,
        weather.track_temperature_celsius.bits as int,
        8,
    )
    &&& memory::holds(m, SCORING_WIND as int, weather.wind.x.bits as int, 8)
    &&& memory::holds(m, SCORING_WIND + 8, weather.wind.y.bits as int, 8)
    &&& memory::holds(m, SCORING_WIND + 16, weather.wind.z.bits as int, 8)
    &&& memory::holds(
        m,
        SCORING_MIN_PATH_WETNESS as int,
        weather.minimum_path_wetness.bits as int,
        8,
    )
    &&& memory::holds(
        m,
        SCORING_MAX_PATH_WETNESS as int,
        weather.maximum_path_wetness.bits as int,
        8,
    )
    &&& memory::holds(
        m,
        SCORING_AVERAGE_PATH_WETNESS as int,
        weather.average_path_wetness.bits as int,
        8,
    )
}

/// The fields of the frame, in the order in which they are read.
pub open spec fn weather_spans() -> Seq<(int, int)> {
    seq![
        (STARTUP_EVENT as int, 4),
        (SHUTDOWN_EVENT as int, 4),
        (APPLICATION_WINDOW as int, 8),
        (SCORING_CLOUD_DARKNESS as int, 8),
        (SCORING_RAIN_INTENSITY as int, 8),
        (SCORING_AMBIENT_TEMPERATURE as int, 8),
        (SCORING_TRACK_TEMPERATURE as int, 8),
        (SCORING_WIND as int, 8),
        (SCORING_WIND + 8, 8),
        (SCORING_WIND + 16, 8),
        (SCORING_MIN_PATH_WETNESS as int, 8),
        (SCORING_MAX_PATH_WETNESS as int, 8),
        (SCORING_AVERAGE_PATH_WETNESS as int, 8),
    ]
}

/// Reads the frame.
pub fn read_weather_frame<M: Memory + ?Sized>(m: &M) -> (read: Result<RawWeatherFrame, Error>)
    ensures
        match read {
            Ok(frame) => memory::spans_error(m, weather_spans(), 0) is None && weather_at(m, frame),
            Err(error) => memory::spans_error(m, weather_spans(), 0) == Some(error@),
        },
{
    proof {
        reveal_with_fuel(memory::spans_error, 14);
    }
    Ok(
        RawWeatherFrame {
            startup: memory::read_u32(m, STARTUP_EVENT)?,
            shutdown: memory::read_u32(m, SHUTDOWN_EVENT)?,
            window: memory::read_u64(m, APPLICATION_WINDOW)?,
            snapshot: WeatherSnapshot {
                cloud_darkness: memory::read_double(m, SCORING_CLOUD_DARKNESS)?,
                rain_intensity: memory::read_double(m, SCORING_RAIN_INTENSITY)?,
                ambient_temperature_celsius: memory::read_double(m, SCORING_AMBIENT_TEMPERATURE)?,
                track_temperature_celsius: memory::read_double(m, SCORING_TRACK_TEMPERATURE)?,
                wind: Wind {
                    x: memory::read_double(m, SCORING_WIND)?,
                    y: memory::read_double(m, SCORING_WIND + 8)?,
                    z: memory::read_double(m, SCORING_WIND + 16)?,
                },
                minimum_path_wetness: memory::read_double(m, SCORING_MIN_PATH_WETNESS)?,
                maximum_path_wetness: memory::read_double(m, SCORING_MAX_PATH_WETNESS)?,
                average_path_wetness: memory::read_double(m, SCORING_AVERAGE_PATH_WETNESS)?,
            },
        },
    )
}

/// The state after a frame, and what is reported for it.
///
/// The weather is reported where the source is new or the weather differs from the
/// previous one. That the source has stopped is reported where there was one, or else
/// where a previous snapshot was still kept; only in the second case is it dropped.
pub open spec fn decoded(frame: RawWeatherFrame, window_exists: bool, state: WeatherState) -> (
    WeatherState,
    WeatherUpdate,
) {
    if source::stopped(frame.window, window_exists, frame.startup, frame.shutdown) {
        (
            WeatherState {
                previous: if state.had_source {
                    state.previous
                } else {
                    None
                },
                had_source: false,
            },
            if state.had_source || state.previous is Some {
                WeatherUpdate::NoSession
            } else {
                WeatherUpdate::Unchanged
            },
        )
    } else {
        (
            WeatherState { previous: Some(frame.snapshot), had_source: true },
            if state.had_source && state.previous is Some && state.previous->0.equals(
                frame.snapshot,
            ) {
                WeatherUpdate::Unchanged
            } else {
                WeatherUpdate::Snapshot(frame.snapshot)
            },
        )
    }
}

/// Takes a frame into the state and says what to report for it; it never fails.
pub fn decode_weather(
    frame: RawWeatherFrame,
    window_exists: bool,
    state: &mut WeatherState,
) -> (read: Result<WeatherUpdate, Error>)
    ensures
        read is Ok,
        (*final(state), read->Ok_0) == decoded(frame, window_exists, *old(state)),
        valid(*final(state)),
{
    if source::source_stopped(frame.window, window_exists, frame.startup, frame.shutdown) {
        let changed: bool = if state.had_source {
            true
        } else {
            let kept: bool = state.previous.is_some();
            state.previous = None;
            kept
        };
        state.had_source = false;
        return Ok(
            if changed {
                WeatherUpdate::NoSession
            } else {
                WeatherUpdate::Unchanged
            },
        );
    }
    let same: bool = match &state.previous {
        Some(previous) => *previous == frame.snapshot,
        None => false,
    };
    let changed: bool = !state.had_source || !same;
    state.had_source = true;
    state.previous = Some(frame.snapshot);
    Ok(
        if changed {
            WeatherUpdate::Snapshot(frame.snapshot)
        } else {
            WeatherUpdate::Unchanged
        },
    )
}

/// What a look at the mapping found.
#[derive(Clone, Copy, Debug)]
pub enum WeatherObservation {
    /// Another held the lock; only the source's window was read.
    Busy { window: u64 },
    /// The frame was read under the lock.
    Frame(RawWeatherFrame),
}

impl WeatherObservation {
    /// The window of the source.
    pub open spec fn window_of(self) -> u64 {
        match self {
            WeatherObservation::Busy { window } => window,
            WeatherObservation::Frame(frame) => frame.window,
        }
    }

    /// The window of the source, whose existence decides what the look means.
    pub fn window(&self) -> (window: u64)
        ensures
            window == self.window_of(),
    {
        match self {
            WeatherObservation::Busy { window } => *window,
            WeatherObservation::Frame(frame) => frame.window,
        }
    }
}

/// A reader of the weather.
pub struct LmuWeather {
    pub state: WeatherState,
}

impl LmuWeather {
    /// A reader that has seen nothing yet.
    pub fn connect() -> (reader: LmuWeather)
        ensures
            reader.state == nothing_seen(),
            valid(reader.state),
    {
        LmuWeather { state: WeatherState::default() }
    }

    /// Looks at the mapping: at all of the frame if the lock is held, otherwise at the
    /// source's window alone.
    pub fn observe<M: Memory + ?Sized>(mapping: &M, lock_held: bool) -> (seen: Result<
        WeatherObservation,
        Error,
    >)
        ensures
            match seen {
                Ok(WeatherObservation::Frame(frame)) => lock_held && memory::spans_error(
                    mapping,
                    weather_spans(),
                    0,
                ) is None && weather_at(mapping, frame),
                Ok(WeatherObservation::Busy { window }) => !lock_held && APPLICATION_WINDOW + 8
                    <= mapping.size() && memory::holds(
                    mapping,
                    APPLICATION_WINDOW as int,
                    window as int,
                    8,
                ),
                Err(error) => if lock_held {
                    memory::spans_error(mapping, weather_spans(), 0) == Some(error@)
                } else {
                    APPLICATION_WINDOW + 8 > mapping.size() && error@ == memory::out_of_bounds(
                        mapping,
                        APPLICATION_WINDOW as int,
                        8,
                    )
                },
            },
    {
        if lock_held {
            Ok(WeatherObservation::Frame(read_weather_frame(mapping)?))
        } else {
            Ok(WeatherObservation::Busy { window: memory::read_u64(mapping, APPLICATION_WINDOW)? })
        }
    }

    /// Reports what a look means, given whether the window that it found exists.
    pub fn read(&mut self, seen: WeatherObservation, window_exists: bool) -> (read: Result<
        WeatherUpdate,
        Error,
    >)
        ensures
            match seen {
                WeatherObservation::Frame(frame) => read is Ok && (final(self).state, read->Ok_0)
                    == decoded(frame, window_exists, old(self).state),
                WeatherObservation::Busy { window } => if window != 0 && window_exists {
                    read == Ok::<WeatherUpdate, Error>(WeatherUpdate::Unchanged)
                        && final(self).state == old(self).state
                } else {
                    read is Err && read->Err_0@ == source::stopped_while_busy() && final(self).state
                        == nothing_seen()
                },
            },
            valid(old(self).state) ==> valid(final(self).state),
    {
        match seen {
            WeatherObservation::Frame(frame) => decode_weather(
                frame,
                window_exists,
                &mut self.state,
            ),
            WeatherObservation::Busy { window } => {
                if !source::source_window_alive(window, window_exists) {
                    self.state.had_source = false;
                    self.state.previous = None;
                    return Err(source::stopped_error());
                }
                Ok(WeatherUpdate::Unchanged)
            },
        }
    }
}

/// The scoring block, up to where the vehicles' blocks begin, is enough to read the
/// weather; all the more so is a mapping of full size.
pub proof fn law_scoring_block_has_weather<M: Memory + ?Sized>(m: &M)
    requires
        m.size() >= VEHICLE_SCORING,
    ensures
        memory::spans_error(m, weather_spans(), 0) is None,
        VEHICLE_SCORING <= MAPPING_SIZE,
{
    reveal_with_fuel(memory::spans_error, 14);
}

/// Bytes that stand still show one frame.
pub proof fn law_still_bytes_show_one_frame(m: &[u8], a: RawWeatherFrame, b: RawWeatherFrame)
    requires
        weather_at(m, a),
        weather_at(m, b),
    ensures
        a == b,
{
    memory::lemma_powers();
    let (x, y) = (a.snapshot, b.snapshot);
    let same = |offset: int, p: Double, q: Double|
        memory::holds(m, offset, p.bits as int, 8) && memory::holds(m, offset, q.bits as int, 8);
    assert forall|offset: int, p: Double, q: Double| #[trigger] same(offset, p, q) implies p
        == q by {
        memory::law_still_bytes_hold_one_number(m, offset, p.bits as int, q.bits as int, 8);
    }
    memory::law_still_bytes_hold_one_number(
        m,
        STARTUP_EVENT as int,
        a.startup as int,
        b.startup as int,
        4,
    );
    memory::law_still_bytes_hold_one_number(
        m,
        SHUTDOWN_EVENT as int,
        a.shutdown as int,
        b.shutdown as int,
        4,
    );
    memory::law_still_bytes_hold_one_number(
        m,
        APPLICATION_WINDOW as int,
        a.window as int,
        b.window as int,
        8,
    );
    assert(same(SCORING_CLOUD_DARKNESS as int, x.cloud_darkness, y.cloud_darkness));
    assert(same(SCORING_RAIN_INTENSITY as int, x.rain_intensity, y.rain_intensity));
    assert(same(
        SCORING_AMBIENT_TEMPERATURE as int,
        x.ambient_temperature_celsius,
        y.ambient_temperature_celsius,
    ));
    assert(same(
        SCORING_TRACK_TEMPERATURE as int,
        x.track_temperature_celsius,
        y.track_temperature_celsius,
    ));
    assert(same(SCORING_WIND as int, x.wind.x, y.wind.x));
    assert(same(SCORING_WIND + 8, x.wind.y, y.wind.y));
    assert(same(SCORING_WIND + 16, x.wind.z, y.wind.z));
    assert(same(SCORING_MIN_PATH_WETNESS as int, x.minimum_path_wetness, y.minimum_path_wetness));
    assert(same(SCORING_MAX_PATH_WETNESS as int, x.maximum_path_wetness, y.maximum_path_wetness));
    assert(same(
        SCORING_AVERAGE_PATH_WETNESS as int,
        x.average_path_wetness,
        y.average_path_wetness,
    ));
}

/// A frame of a source that is alive, after another one, is reported exactly if its weather
/// differs; a field that is not a number differs even from itself.
pub proof fn law_repeated_frame(
    first: RawWeatherFrame,
    first_exists: bool,
    second: RawWeatherFrame,
    second_exists: bool,
    state: WeatherState,
)
    requires
        !source::stopped(first.window, first_exists, first.startup, first.shutdown),
        !source::stopped(second.window, second_exists, second.startup, second.shutdown),
    ensures
        decoded(second, second_exists, decoded(first, first_exists, state).0).1
            == if first.snapshot.equals(second.snapshot) {
            WeatherUpdate::Unchanged
        } else {
            WeatherUpdate::Snapshot(second.snapshot)
        },
        first.snapshot == second.snapshot ==> first.snapshot.equals(second.snapshot)
            == !first.snapshot.has_nan(),
{
}

/// The first frame of a source that is alive is always reported.
pub proof fn law_new_source_is_reported(
    frame: RawWeatherFrame,
    window_exists: bool,
    state: WeatherState,
)
    requires
        !source::stopped(frame.window, window_exists, frame.startup, frame.shutdown),
        !state.had_source,
    ensures
        decoded(frame, window_exists, state).1 == WeatherUpdate::Snapshot(frame.snapshot),
{
}

/// Frames of a stopped source are reported twice at most: after two of them nothing is
/// kept, and any further one is no news.
pub proof fn law_stopped_source_settles(
    first: RawWeatherFrame,
    first_exists: bool,
    second: RawWeatherFrame,
    second_exists: bool,
    third: RawWeatherFrame,
    third_exists: bool,
    state: WeatherState,
)
    requires
        source::stopped(first.window, first_exists, first.startup, first.shutdown),
        source::stopped(second.window, second_exists, second.startup, second.shutdown),
        source::stopped(third.window, third_exists, third.startup, third.shutdown),
    ensures
        ({
            let settled = decoded(second, second_exists, decoded(first, first_exists, state).0).0;
            settled == nothing_seen() && decoded(third, third_exists, settled) == (
                settled,
                WeatherUpdate::Unchanged,
            )
        }),
{
}

/// Two snapshots compare as equal exactly if each field of the one equals, as a number, the
/// same field of the other.
pub proof fn law_snapshots_compare_field_by_field(a: WeatherSnapshot, b: WeatherSnapshot)
    ensures
        a.equals(b) <==> {
            &&& a.cloud_darkness.equals(b.cloud_darkness)
            &&& a.rain_intensity.equals(b.rain_intensity)
            &&& a.ambient_temperature_celsius.equals(b.ambient_temperature_celsius)
            &&& a.track_temperature_celsius.equals(b.track_temperature_celsius)
            &&& a.wind.x.equals(b.wind.x)
            &&& a.wind.y.equals(b.wind.y)
            &&& a.wind.z.equals(b.wind.z)
            &&& a.minimum_path_wetness.equals(b.minimum_path_wetness)
            &&& a.maximum_path_wetness.equals(b.maximum_path_wetness)
            &&& a.average_path_wetness.equals(b.average_path_wetness)
        },
        a.equals(b) == b.equals(a),
{
}

/// A frame of a source that is alive, after another one of a source that was, is reported
/// exactly if some field has another number, and then as it is.
pub proof fn law_any_changed_field_is_reported(
    first: RawWeatherFrame,
    first_exists: bool,
    second: RawWeatherFrame,
    second_exists: bool,
    state: WeatherState,
)
    requires
        first.window != 0 && first_exists && (first.shutdown == 0 || first.shutdown
            < first.startup),
        second.window != 0 && second_exists && (second.shutdown == 0 || second.shutdown
            < second.startup),
    ensures
        ({
            let (a, b) = (first.snapshot, second.snapshot);
            let update = decoded(second, second_exists, decoded(first, first_exists, state).0).1;
            let changed = {
                ||| !a.cloud_darkness.equals(b.cloud_darkness)
                ||| !a.rain_intensity.equals(b.rain_intensity)
                ||| !a.ambient_temperature_celsius.equals(b.ambient_temperature_celsius)
                ||| !a.track_temperature_celsius.equals(b.track_temperature_celsius)
                ||| !a.wind.x.equals(b.wind.x)
                ||| !a.wind.y.equals(b.wind.y)
                ||| !a.wind.z.equals(b.wind.z)
                ||| !a.minimum_path_wetness.equals(b.minimum_path_wetness)
                ||| !a.maximum_path_wetness.equals(b.maximum_path_wetness)
                ||| !a.average_path_wetness.equals(b.average_path_wetness)
            };
            &&& changed ==> update == WeatherUpdate::Snapshot(b)
            &&& !changed ==> update == WeatherUpdate::Unchanged
        }),
{
}

/// The weather is reported, as the frame has it, for the first frame of a source that is
/// alive after none was, whatever was seen before.
pub proof fn law_weather_of_new_source(
    stop: RawWeatherFrame,
    stop_exists: bool,
    frame: RawWeatherFrame,
    window_exists: bool,
    state: WeatherState,
)
    requires
        stop.window == 0 || !stop_exists || (stop.shutdown != 0 && stop.shutdown >= stop.startup),
        frame.window != 0 && window_exists && (frame.shutdown == 0 || frame.shutdown
            < frame.startup),
    ensures
        decoded(frame, window_exists, nothing_seen()).1 == WeatherUpdate::Snapshot(frame.snapshot),
        decoded(frame, window_exists, decoded(stop, stop_exists, state).0).1
            == WeatherUpdate::Snapshot(frame.snapshot),
{
}

/// That the source has stopped is reported right after a frame of it, and not where nothing
/// was seen of it; no weather is reported for it.
pub proof fn law_stop_is_reported(
    frame: RawWeatherFrame,
    window_exists: bool,
    stop: RawWeatherFrame,
    stop_exists: bool,
    state: WeatherState,
)
    requires
        frame.window != 0 && window_exists && (frame.shutdown == 0 || frame.shutdown
            < frame.startup),
        stop.window == 0 || !stop_exists || (stop.shutdown != 0 && stop.shutdown >= stop.startup),
    ensures
        decoded(stop, stop_exists, decoded(frame, window_exists, state).0).1
            == WeatherUpdate::NoSession,
        decoded(stop, stop_exists, nothing_seen()) == (nothing_seen(), WeatherUpdate::Unchanged),
        !(decoded(stop, stop_exists, state).1 is Snapshot),
        !decoded(stop, stop_exists, state).0.had_source,
        decoded(stop, stop_exists, state).1 is NoSession <==> state.had_source
            || state.previous is Some,
{
}

/// Where each field of a frame lies in the mapping.
pub proof fn law_weather_offsets<M: Memory + ?Sized>(m: &M, frame: RawWeatherFrame)
    requires
        weather_at(m, frame),
    ensures
        memory::holds(m, 8, frame.startup as int, 4),
        memory::holds(m, 12, frame.shutdown as int, 4),
        memory::holds(m, 72, frame.window as int, 8),
        memory::holds(m, 1844, frame.snapshot.cloud_darkness.bits as int, 8),
        memory::holds(m, 1852, frame.snapshot.rain_intensity.bits as int, 8),
        memory::holds(m, 1860, frame.snapshot.ambient_temperature_celsius.bits as int, 8),
        memory::holds(m, 1868, frame.snapshot.track_temperature_celsius.bits as int, 8),
        memory::holds(m, 1876, frame.snapshot.wind.x.bits as int, 8),
        memory::holds(m, 1884, frame.snapshot.wind.y.bits as int, 8),
        memory::holds(m, 1892, frame.snapshot.wind.z.bits as int, 8),
        memory::holds(m, 1900, frame.snapshot.minimum_path_wetness.bits as int, 8),
        memory::holds(m, 1908, frame.snapshot.maximum_path_wetness.bits as int, 8),
        memory::holds(m, 1964, frame.snapshot.average_path_wetness.bits as int, 8),
{
}

/// A frame can be read exactly if the memory reaches behind its last field.
pub proof fn law_weather_needs<M: Memory + ?Sized>(m: &M)
    ensures
        memory::spans_error(m, weather_spans(), 0) is None <==> m.size() >= 1972,
{
    reveal_with_fuel(memory::spans_error, 14);
}

} // verus!
