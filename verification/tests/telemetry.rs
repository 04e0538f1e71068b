use std::cell::{Cell, RefCell};

use lmu_shared_memory::layout::{
    ACTIVE_TELEMETRY_VEHICLES, PLAYER_HAS_TELEMETRY, PLAYER_TELEMETRY_INDEX, TELEMETRY_EVENT,
    VEHICLE_TELEMETRY, VEHICLE_TELEMETRY_SIZE,
};
use lmu_shared_memory::telemetry::{read_once, read_telemetry, telemetry_header, TelemetryState};
use lmu_shared_memory::{
    Error, LmuTelemetry, Memory, PedalData, Single, TelemetrySnapshot, TelemetryUpdate,
    Watched, MAPPING_NAME, MAPPING_SIZE,
};

fn single(value: f32) -> Single {
    Single::from_bits(value.to_bits())
}

fn write_f64(memory: &mut [u8], offset: usize, value: f64) {
    memory[offset..offset + 8].copy_from_slice(&value.to_ne_bytes());
}

fn write_event(memory: &mut [u8], event: u32) {
    memory[TELEMETRY_EVENT..TELEMETRY_EVENT + 4].copy_from_slice(&event.to_ne_bytes());
}

fn mapping(event: u32, elapsed: f64) -> Vec<u8> {
    let mut memory = vec![0; MAPPING_SIZE];
    write_event(&mut memory, event);
    memory[ACTIVE_TELEMETRY_VEHICLES] = 3;
    memory[PLAYER_TELEMETRY_INDEX] = 2;
    memory[PLAYER_HAS_TELEMETRY] = 1;
    let base = VEHICLE_TELEMETRY + 2 * VEHICLE_TELEMETRY_SIZE;
    write_f64(&mut memory, base + 12, elapsed);
    write_f64(&mut memory, base + 388, 0.75);
    write_f64(&mut memory, base + 396, -1.0);
    write_f64(&mut memory, base + 412, 7.0);
    memory
}

fn pedals() -> TelemetryUpdate {
    TelemetryUpdate::Snapshot(TelemetrySnapshot {
        pedals: PedalData { throttle: single(0.75), brake: single(0.0), clutch: single(1.0) },
    })
}

/// A mapping whose event changes with every look, until it has changed often enough.
struct Restless {
    bytes: Vec<u8>,
    looks: Cell<u32>,
    until: u32,
}

impl Memory for Restless {
    fn name(&self) -> String {
        MAPPING_NAME.into()
    }

    fn mapping_size(&self) -> usize {
        self.bytes.len()
    }

    fn fetch(&self, offset: usize, length: usize) -> Vec<u8> {
        let mut bytes = self.bytes[offset..offset + length].to_vec();
        if offset == TELEMETRY_EVENT {
            if self.looks.get() < self.until {
                self.looks.set(self.looks.get() + 1);
            }
            bytes = self.looks.get().to_ne_bytes().to_vec();
        }
        bytes
    }
}

#[test]
fn the_first_reading_shows_that_the_source_is_alive() {
    let mut reader = LmuTelemetry::connect();
    let memory = mapping(1, 10.0);
    assert_eq!(reader.read(&mut Watched::new(memory.as_slice()), true).unwrap(), TelemetryUpdate::SourceAlive);
    assert_eq!(reader.read(&mut Watched::new(memory.as_slice()), true).unwrap(), TelemetryUpdate::Unchanged);
    assert_eq!(
        reader.read(&mut Watched::new(mapping(2, 10.0).as_slice()), true).unwrap(),
        TelemetryUpdate::SourceAlive
    );
    assert_eq!(reader.read(&mut Watched::new(mapping(2, 11.0).as_slice()), true).unwrap(), pedals());
    assert_eq!(
        reader.read(&mut Watched::new(mapping(2, 11.0).as_slice()), true).unwrap(),
        TelemetryUpdate::Unchanged
    );
}

#[test]
fn a_reader_without_the_lock_reports_nothing() {
    let mut reader = LmuTelemetry::connect();
    assert_eq!(reader.read(&mut Watched::new([].as_slice()), false).unwrap(), TelemetryUpdate::Unchanged);
    assert_eq!(reader.state, TelemetryState::default());
}

#[test]
fn a_missing_player_is_reported_once() {
    let mut state = TelemetryState::default();
    let mut memory = mapping(1, 10.0);
    read_telemetry(&mut Watched::new(memory.as_slice()), &mut state).unwrap();
    memory[PLAYER_HAS_TELEMETRY] = 0;
    assert_eq!(read_telemetry(&mut Watched::new(memory.as_slice()), &mut state).unwrap(), TelemetryUpdate::NoPlayer);
    assert_eq!(read_telemetry(&mut Watched::new(memory.as_slice()), &mut state).unwrap(), TelemetryUpdate::Unchanged);
    write_event(&mut memory, 2);
    assert_eq!(read_telemetry(&mut Watched::new(memory.as_slice()), &mut state).unwrap(), TelemetryUpdate::NoPlayer);
    assert_eq!(state.last_elapsed, None);
    memory[PLAYER_HAS_TELEMETRY] = 1;
    assert_eq!(read_telemetry(&mut Watched::new(memory.as_slice()), &mut state).unwrap(), pedals());
}

#[test]
fn a_player_has_to_be_active() {
    let mut memory = mapping(1, 10.0);
    assert!(read_once(&mut Watched::new(memory.as_slice())).unwrap().player.is_some());
    memory[ACTIVE_TELEMETRY_VEHICLES] = 2;
    assert!(read_once(&mut Watched::new(memory.as_slice())).unwrap().player.is_none());
    memory[ACTIVE_TELEMETRY_VEHICLES] = 255;
    memory[PLAYER_TELEMETRY_INDEX] = 103;
    assert!(read_once(&mut Watched::new(memory.as_slice())).unwrap().player.is_some());
    memory[PLAYER_TELEMETRY_INDEX] = 104;
    assert!(read_once(&mut Watched::new(memory.as_slice())).unwrap().player.is_none());
}

#[test]
fn torn_readings_are_tried_again() {
    let mut state = TelemetryState::default();
    let memory = Restless { bytes: mapping(0, 10.0), looks: Cell::new(0), until: 8 };
    assert_eq!(read_telemetry(&mut Watched::new(&memory), &mut state).unwrap(), TelemetryUpdate::SourceAlive);
    assert_eq!(state.last_event, Some(8));
    let memory = Restless { bytes: mapping(0, 10.0), looks: Cell::new(0), until: 200 };
    let mut state = TelemetryState::default();
    assert_eq!(read_telemetry(&mut Watched::new(&memory), &mut state).unwrap(), TelemetryUpdate::Unchanged);
    assert_eq!(state, TelemetryState::default());
    assert_eq!(memory.looks.get(), 10);
}

/// A mapping that keeps the offsets at which it was read.
struct Recorded {
    bytes: Vec<u8>,
    offsets: RefCell<Vec<usize>>,
}

impl Memory for Recorded {
    fn name(&self) -> String {
        MAPPING_NAME.into()
    }

    fn mapping_size(&self) -> usize {
        self.bytes.len()
    }

    fn fetch(&self, offset: usize, length: usize) -> Vec<u8> {
        self.offsets.borrow_mut().push(offset);
        self.bytes[offset..offset + length].to_vec()
    }
}

#[test]
fn a_reading_looks_again_at_the_time_and_the_header() {
    let memory = Recorded { bytes: mapping(1, 10.0), offsets: RefCell::new(Vec::new()) };
    read_once(&mut Watched::new(&memory)).unwrap();
    let base = VEHICLE_TELEMETRY + 2 * VEHICLE_TELEMETRY_SIZE;
    let header = [
        TELEMETRY_EVENT,
        ACTIVE_TELEMETRY_VEHICLES,
        PLAYER_TELEMETRY_INDEX,
        PLAYER_HAS_TELEMETRY,
    ];
    let mut expected = header.to_vec();
    expected.extend([base + 12, base + 388, base + 396, base + 412, base + 12]);
    expected.extend(header);
    assert_eq!(*memory.offsets.borrow(), expected);
}

#[test]
fn a_reader_without_the_lock_takes_no_look() {
    let memory = Recorded { bytes: mapping(1, 10.0), offsets: RefCell::new(Vec::new()) };
    LmuTelemetry::connect().read(&mut Watched::new(&memory), false).unwrap();
    assert!(memory.offsets.borrow().is_empty());
}

#[test]
fn new_pedals_without_new_time_are_no_news() {
    let mut state = TelemetryState::default();
    let mut memory = mapping(1, 10.0);
    read_telemetry(&mut Watched::new(memory.as_slice()), &mut state).unwrap();
    write_f64(&mut memory, VEHICLE_TELEMETRY + 2 * VEHICLE_TELEMETRY_SIZE + 388, 0.5);
    assert_eq!(
        read_telemetry(&mut Watched::new(memory.as_slice()), &mut state).unwrap(),
        TelemetryUpdate::Unchanged
    );
}

#[test]
fn short_memory_is_refused() {
    let mut state = TelemetryState::default();
    let memory = mapping(1, 10.0);
    match telemetry_header(&mut Watched::new(&memory[..PLAYER_TELEMETRY_INDEX])) {
        Err(Error::OutOfBounds { offset, value_size, mapping_size, .. }) => {
            assert_eq!((offset, value_size), (PLAYER_TELEMETRY_INDEX, 1));
            assert_eq!(mapping_size, PLAYER_TELEMETRY_INDEX);
        }
        other => panic!("{other:?}"),
    }
    let base = VEHICLE_TELEMETRY + 2 * VEHICLE_TELEMETRY_SIZE;
    match read_telemetry(&mut Watched::new(&memory[..base + 400]), &mut state) {
        Err(Error::OutOfBounds { offset, value_size, .. }) => {
            assert_eq!((offset, value_size), (base + 396, 8));
        }
        other => panic!("{other:?}"),
    }
    assert_eq!(state, TelemetryState::default());
    assert!(read_telemetry(&mut Watched::new(memory.as_slice()), &mut state).is_ok());
}

#[test]
fn default_pedals_are_released() {
    assert_eq!(PedalData::default().throttle.to_bits(), 0);
    assert_eq!(TelemetrySnapshot::default(), TelemetrySnapshot::default());
    assert_ne!(pedals(), TelemetryUpdate::Snapshot(TelemetrySnapshot::default()));
}
