use lmu_shared_memory::frame::read_standings_frame;
use lmu_shared_memory::layout::{
    SCORING_AVERAGE_PATH_WETNESS, VEHICLE_SCORING, VEHICLE_TELEMETRY, VEHICLE_TELEMETRY_SIZE,
};
use lmu_shared_memory::memory::{
    is_inside, read_bytes, read_double, read_flag, read_i16, read_i32, read_u32, read_u64, read_u8,
};
use lmu_shared_memory::{Error, Memory, MAPPING_NAME, MAPPING_SIZE, MAX_VEHICLES};

#[test]
fn the_layout_fills_the_mapping() {
    assert_eq!(MAPPING_NAME, "LMU_Data");
    assert_eq!(MAPPING_SIZE, 324_820);
    assert_eq!(VEHICLE_TELEMETRY + VEHICLE_TELEMETRY_SIZE * MAX_VEHICLES, MAPPING_SIZE);
    assert!(SCORING_AVERAGE_PATH_WETNESS + 8 <= VEHICLE_SCORING);
}

#[test]
fn numbers_are_read_as_they_were_written() {
    let write = |bytes: &[u8]| {
        let mut memory = vec![0xaa; 3];
        memory.extend_from_slice(bytes);
        memory.push(0x55);
        memory
    };
    for value in [0u64, 1, 0xff, 0x8000, 0x1234_5678_9abc_def0, u64::MAX] {
        let memory = write(&value.to_ne_bytes());
        assert_eq!(read_u64(memory.as_slice(), 3).unwrap(), value);
        assert_eq!(read_double(memory.as_slice(), 3).unwrap().to_bits(), value);
        let memory32 = write(&(value as u32).to_ne_bytes());
        assert_eq!(read_u32(memory32.as_slice(), 3).unwrap(), value as u32);
        assert_eq!(read_i32(memory32.as_slice(), 3).unwrap(), value as u32 as i32);
        let memory16 = write(&(value as i16).to_ne_bytes());
        assert_eq!(read_i16(memory16.as_slice(), 3).unwrap(), value as i16);
        let memory8 = write(&[value as u8]);
        assert_eq!(read_u8(memory8.as_slice(), 3).unwrap(), value as u8);
        assert_eq!(read_flag(memory8.as_slice(), 3).unwrap(), value as u8 != 0);
        assert_eq!(read_bytes(memory.as_slice(), 3, 8).unwrap(), value.to_ne_bytes());
    }
    assert_eq!(read_i32(write(&(-7i32).to_ne_bytes()).as_slice(), 3).unwrap(), -7);
    assert_eq!(read_i16(write(&i16::MIN.to_ne_bytes()).as_slice(), 3).unwrap(), i16::MIN);
}

#[test]
fn numbers_are_in_the_order_of_the_machine() {
    let memory = [1u8, 2, 3, 4, 5, 6, 7, 8];
    assert_eq!(read_u64(memory.as_slice(), 0).unwrap(), u64::from_ne_bytes(memory));
    assert_eq!(read_u32(memory.as_slice(), 2).unwrap(), u32::from_ne_bytes([3, 4, 5, 6]));
    assert_eq!(read_i16(memory.as_slice(), 6).unwrap(), i16::from_ne_bytes([7, 8]));
}

#[test]
fn reads_beyond_the_end_are_refused() {
    let memory = [0u8; 10];
    assert!(read_u64(memory.as_slice(), 2).is_ok());
    for (offset, size) in [(3, 8), (10, 8), (usize::MAX, 8), (usize::MAX - 7, 8)] {
        match read_u64(memory.as_slice(), offset) {
            Err(Error::OutOfBounds { name, offset: at, value_size, mapping_size }) => {
                assert_eq!(name, "LMU_Data");
                assert_eq!((at, value_size, mapping_size), (offset, size, 10));
            }
            other => panic!("{other:?}"),
        }
    }
    assert!(read_bytes(memory.as_slice(), 10, 0).unwrap().is_empty());
    assert!(read_bytes(memory.as_slice(), 11, 0).is_err());
    assert!(is_inside(10, 10, 0) && !is_inside(10, 1, usize::MAX));
}

#[test]
fn a_slice_is_a_memory() {
    let memory: &[u8] = &[1, 2, 3, 4];
    assert_eq!(memory.name(), MAPPING_NAME);
    assert_eq!(memory.mapping_size(), 4);
    assert_eq!(memory.fetch(1, 2), [2, 3]);
}

#[test]
fn bytes_that_stand_still_show_the_same_frame() {
    let memory: Vec<u8> = (0..MAPPING_SIZE).map(|i| (i * 31 % 251) as u8).collect();
    let first = read_standings_frame(memory.as_slice()).unwrap();
    let second = read_standings_frame(memory.as_slice()).unwrap();
    assert_eq!(format!("{first:?}"), format!("{second:?}"));
}
