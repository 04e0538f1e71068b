use std::mem::size_of;

use lmu_shared_memory::layout::{
    APPLICATION_WINDOW, SCORING_AMBIENT_TEMPERATURE, SCORING_AVERAGE_PATH_WETNESS,
    SCORING_CLOUD_DARKNESS, SCORING_MAX_PATH_WETNESS, SCORING_MIN_PATH_WETNESS,
    SCORING_RAIN_INTENSITY, SCORING_TRACK_TEMPERATURE, SCORING_WIND, SHUTDOWN_EVENT, STARTUP_EVENT,
    VEHICLE_SCORING,
};
use lmu_shared_memory::weather::{decode_weather, read_weather_frame, WeatherState};
use lmu_shared_memory::{
    Double, Error, LmuWeather, WeatherObservation, WeatherSnapshot, WeatherUpdate, Wind,
};

fn double(value: f64) -> Double {
    Double::from_bits(value.to_bits())
}

fn write_f64(memory: &mut [u8], offset: usize, value: f64) {
    memory[offset..offset + size_of::<f64>()].copy_from_slice(&value.to_ne_bytes());
}

fn scoring() -> Vec<u8> {
    let mut memory = vec![0; VEHICLE_SCORING];
    write_f64(&mut memory, SCORING_CLOUD_DARKNESS, 0.25);
    write_f64(&mut memory, SCORING_RAIN_INTENSITY, 0.5);
    memory[STARTUP_EVENT..STARTUP_EVENT + 4].copy_from_slice(&2u32.to_ne_bytes());
    memory[SHUTDOWN_EVENT..SHUTDOWN_EVENT + 4].copy_from_slice(&1u32.to_ne_bytes());
    memory[APPLICATION_WINDOW..APPLICATION_WINDOW + 8]
        .copy_from_slice(&(1u64 << 56).to_ne_bytes());
    memory
}

#[test]
fn weather_snapshot_decodes_scoring_fields() {
    let mut memory = vec![0; VEHICLE_SCORING];
    write_f64(&mut memory, SCORING_CLOUD_DARKNESS, 0.25);
    write_f64(&mut memory, SCORING_RAIN_INTENSITY, 0.5);
    write_f64(&mut memory, SCORING_AMBIENT_TEMPERATURE, 21.5);
    write_f64(&mut memory, SCORING_TRACK_TEMPERATURE, 29.25);
    write_f64(&mut memory, SCORING_WIND, -2.0);
    write_f64(&mut memory, SCORING_WIND + size_of::<f64>(), 0.5);
    write_f64(&mut memory, SCORING_WIND + size_of::<f64>() * 2, 4.0);
    write_f64(&mut memory, SCORING_MIN_PATH_WETNESS, 0.1);
    write_f64(&mut memory, SCORING_MAX_PATH_WETNESS, 0.8);
    write_f64(&mut memory, SCORING_AVERAGE_PATH_WETNESS, 0.4);

    let frame = read_weather_frame(memory.as_slice()).unwrap();

    assert_eq!(
        frame.snapshot,
        WeatherSnapshot {
            cloud_darkness: double(0.25),
            rain_intensity: double(0.5),
            ambient_temperature_celsius: double(21.5),
            track_temperature_celsius: double(29.25),
            wind: Wind {
                x: double(-2.0),
                y: double(0.5),
                z: double(4.0),
            },
            minimum_path_wetness: double(0.1),
            maximum_path_wetness: double(0.8),
            average_path_wetness: double(0.4),
        }
    );
}

#[test]
fn weather_frame_has_the_events_and_the_window() {
    let frame = read_weather_frame(scoring().as_slice()).unwrap();
    assert_eq!(frame.startup, 2);
    assert_eq!(frame.shutdown, 1);
    assert_eq!(frame.window, 1 << 56);
}

#[test]
fn short_memory_is_refused_at_the_first_field_outside() {
    for (size, offset, length) in [
        (0, STARTUP_EVENT, 4),
        (15, SHUTDOWN_EVENT, 4),
        (79, APPLICATION_WINDOW, 8),
        (SCORING_WIND + 15, SCORING_WIND + 8, 8),
        (SCORING_AVERAGE_PATH_WETNESS + 7, SCORING_AVERAGE_PATH_WETNESS, 8),
    ] {
        let memory = vec![0u8; size];
        match read_weather_frame(memory.as_slice()) {
            Err(Error::OutOfBounds { name, offset: at, value_size, mapping_size }) => {
                assert_eq!(name, "LMU_Data");
                assert_eq!((at, value_size, mapping_size), (offset, length, size));
            }
            other => panic!("{other:?}"),
        }
    }
    assert!(read_weather_frame(vec![0u8; SCORING_AVERAGE_PATH_WETNESS + 8].as_slice()).is_ok());
}

#[test]
fn the_same_weather_is_reported_once() {
    let frame = read_weather_frame(scoring().as_slice()).unwrap();
    let mut state = WeatherState::default();
    let first = decode_weather(frame, true, &mut state).unwrap();
    assert_eq!(first, WeatherUpdate::Snapshot(frame.snapshot));
    assert_eq!(decode_weather(frame, true, &mut state).unwrap(), WeatherUpdate::Unchanged);
    let mut changed = frame;
    changed.snapshot.rain_intensity = double(0.75);
    assert_eq!(
        decode_weather(changed, true, &mut state).unwrap(),
        WeatherUpdate::Snapshot(changed.snapshot)
    );
}

#[test]
fn weather_that_is_not_a_number_is_reported_each_time() {
    let mut frame = read_weather_frame(scoring().as_slice()).unwrap();
    frame.snapshot.wind.y = double(f64::NAN);
    let mut state = WeatherState::default();
    for _ in 0..3 {
        let update = decode_weather(frame, true, &mut state).unwrap();
        assert!(matches!(update, WeatherUpdate::Snapshot(_)));
    }
}

#[test]
fn a_stopped_source_is_reported_until_nothing_is_kept() {
    let frame = read_weather_frame(scoring().as_slice()).unwrap();
    let mut state = WeatherState::default();
    assert_eq!(decode_weather(frame, false, &mut state).unwrap(), WeatherUpdate::Unchanged);
    decode_weather(frame, true, &mut state).unwrap();
    assert_eq!(decode_weather(frame, false, &mut state).unwrap(), WeatherUpdate::NoSession);
    assert_eq!(decode_weather(frame, false, &mut state).unwrap(), WeatherUpdate::NoSession);
    assert_eq!(decode_weather(frame, false, &mut state).unwrap(), WeatherUpdate::Unchanged);
    let mut shut_down = frame;
    shut_down.shutdown = 2;
    assert_eq!(
        decode_weather(frame, true, &mut state).unwrap(),
        WeatherUpdate::Snapshot(frame.snapshot)
    );
    assert_eq!(decode_weather(shut_down, true, &mut state).unwrap(), WeatherUpdate::NoSession);
}

#[test]
fn a_busy_lock_shows_the_window_alone() {
    let memory = scoring();
    let seen = LmuWeather::observe(memory.as_slice(), false).unwrap();
    assert!(matches!(seen, WeatherObservation::Busy { .. }));
    assert_eq!(seen.window(), 1 << 56);
    let mut reader = LmuWeather::connect();
    assert_eq!(reader.read(seen, true).unwrap(), WeatherUpdate::Unchanged);
    let frame = LmuWeather::observe(memory.as_slice(), true).unwrap();
    assert_eq!(frame.window(), 1 << 56);
    assert!(matches!(reader.read(frame, true).unwrap(), WeatherUpdate::Snapshot(_)));
    assert!(reader.state.had_source);
    assert_eq!(
        reader.read(seen, false).unwrap_err().message(),
        "shared memory 'LMU_Data' is unavailable: source stopped while the shared lock was busy"
    );
    assert!(!reader.state.had_source && reader.state.previous.is_none());
    assert!(reader.read(WeatherObservation::Busy { window: 0 }, true).is_err());
    assert!(matches!(
        LmuWeather::observe(&memory[..APPLICATION_WINDOW + 7], false),
        Err(Error::OutOfBounds { offset: APPLICATION_WINDOW, value_size: 8, .. })
    ));
}

#[test]
fn default_weather_is_zero() {
    assert_eq!(WeatherSnapshot::default().average_path_wetness.to_bits(), 0);
    assert_eq!(WeatherSnapshot::default(), WeatherSnapshot::default());
}
