use lmu_shared_memory::frame::{read_standings_frame, RawEntry, RawStandingsFrame, RawTelemetry};
use lmu_shared_memory::gaps::assign_positions_and_gaps;
use lmu_shared_memory::layout::{
    ACTIVE_TELEMETRY_VEHICLES, APPLICATION_WINDOW, PLAYER_HAS_TELEMETRY, PLAYER_TELEMETRY_INDEX,
    SCORING_CURRENT_ET, SCORING_EVENT, SCORING_NUM_VEHICLES, SCORING_PLAYER_NAME, SCORING_SESSION,
    SCORING_TRACK_NAME, STARTUP_EVENT, START_SESSION_EVENT, VEHICLE_SCORING, VEHICLE_SCORING_SIZE,
    VEHICLE_TELEMETRY, VEHICLE_TELEMETRY_SIZE,
};
use lmu_shared_memory::ranking::{sort_entries, sort_entry, Order};
use lmu_shared_memory::standings::{decode_standings, unique_driver_focus, StandingsState};
use lmu_shared_memory::{
    select_class_blocks, select_visible_entries, Double, Error, LmuStandings, StandingEntry,
    StandingsObservation, StandingsSnapshot, StandingsUpdate, TireCompound, VehicleClass,
    VehicleKey, VehicleStatus, MAPPING_SIZE,
};

fn double(value: f64) -> Double {
    Double::from_bits(value.to_bits())
}

fn entry(position: i32) -> StandingEntry {
    StandingEntry {
        key: VehicleKey {
            id: position,
            vehicle_filename: format!("{position}.veh"),
            vehicle_name: format!("Car {position}"),
        },
        driver_name: String::new(),
        vehicle_name: String::new(),
        vehicle_model: String::new(),
        class: VehicleClass::Hypercar,
        position: position as u16,
        class_position: position as u16,
        laps: 0,
        lap_distance: double(0.),
        best_lap_ms: None,
        last_lap_ms: None,
        gap_to_leader_ms: None,
        laps_behind_leader: 0,
        gap_to_previous_ms: None,
        laps_behind_previous: 0,
        tires: TireCompound::default(),
        status: VehicleStatus::NoStatus,
        penalties: 0,
    }
}

fn positions(entries: &[StandingEntry]) -> Vec<u16> {
    entries.iter().map(|entry| entry.position).collect()
}

fn ids(entries: &[StandingEntry]) -> Vec<i32> {
    entries.iter().map(|entry| entry.key.id).collect()
}

#[test]
fn class_blocks_select_the_leader_and_focused_neighborhood() {
    let entries = (1..=12)
        .map(|position| StandingEntry {
            key: VehicleKey {
                id: position,
                vehicle_filename: format!("{position}.veh"),
                vehicle_name: format!("Car {position}"),
            },
            driver_name: String::new(),
            vehicle_name: String::new(),
            vehicle_model: String::new(),
            class: VehicleClass::Hypercar,
            position: position as u16,
            class_position: position as u16,
            laps: 0,
            lap_distance: double(0.),
            best_lap_ms: None,
            last_lap_ms: None,
            gap_to_leader_ms: None,
            laps_behind_leader: 0,
            gap_to_previous_ms: None,
            laps_behind_previous: 0,
            tires: TireCompound::default(),
            status: VehicleStatus::NoStatus,
            penalties: 0,
        })
        .collect::<Vec<_>>();
    assert_eq!(
        select_visible_entries(&entries, Some(&entries[8].key), 7)
            .iter()
            .map(|entry| entry.position)
            .collect::<Vec<_>>(),
        [1, 2, 3, 7, 8, 9, 10]
    );
}

#[test]
fn what_is_shown_keeps_the_order_and_the_focus() {
    let entries: Vec<StandingEntry> = (1..=12).map(entry).collect();
    for limit in 0..15 {
        for focus in 0..12 {
            let shown = select_visible_entries(&entries, Some(&entries[focus].key), limit);
            assert_eq!(shown.len(), limit.max(1).min(12));
            assert!(shown.windows(2).all(|pair| pair[0].position < pair[1].position));
            for (k, entry) in shown.iter().take(3).enumerate() {
                assert_eq!(usize::from(entry.position), k + 1);
            }
            if limit > 3 {
                assert!(shown.contains(&entries[focus]));
            }
        }
    }
    assert_eq!(positions(&select_visible_entries(&entries, Some(&entries[11].key), 5)), [1, 2, 3, 11, 12]);
    assert_eq!(positions(&select_visible_entries(&entries, Some(&entries[3].key), 6)), [1, 2, 3, 4, 5, 6]);
    assert_eq!(positions(&select_visible_entries(&entries, None, 4)), [1, 2, 3, 4]);
    assert_eq!(positions(&select_visible_entries(&entries, Some(&entry(99).key), 2)), [1, 2]);
    assert!(select_visible_entries(&[], None, 5).is_empty());
}

#[test]
fn blocks_come_in_the_order_of_the_classes() {
    let classes = [VehicleClass::Gte, VehicleClass::Lmp2Elms, VehicleClass::Lmp2];
    let entries: Vec<StandingEntry> = (1..=9)
        .map(|i| StandingEntry { class: classes[(i as usize - 1) % 3], ..entry(i) })
        .collect();
    let asked = [VehicleClass::Gte, VehicleClass::Lmp2, VehicleClass::Hypercar];
    let blocks = select_class_blocks(&entries, None, 2, &asked);
    let found: Vec<(VehicleClass, Vec<u16>)> =
        blocks.iter().map(|(class, block)| (*class, positions(block))).collect();
    assert_eq!(
        found,
        [(VehicleClass::Lmp2, vec![3, 6]), (VehicleClass::Gte, vec![1, 4])]
    );
    assert!(select_class_blocks(&entries, None, 2, &[]).is_empty());
    assert_eq!(select_class_blocks(&entries, None, 9, &VehicleClass::ORDER).len(), 3);
}

#[test]
fn only_the_set_of_classes_counts() {
    let entries: Vec<StandingEntry> = (1..=8)
        .map(|i| StandingEntry { class: VehicleClass::ORDER[i as usize % 3], ..entry(i) })
        .collect();
    let some = [VehicleClass::Lmp2, VehicleClass::Hypercar];
    let again = [VehicleClass::Hypercar, VehicleClass::Lmp2, VehicleClass::Hypercar];
    assert_eq!(
        select_class_blocks(&entries, None, 3, &some),
        select_class_blocks(&entries, None, 3, &again)
    );
    let mut all: Vec<u16> = Vec::new();
    for (_, block) in select_class_blocks(&entries, None, 8, &VehicleClass::ORDER) {
        all.extend(positions(&block));
    }
    all.sort();
    assert_eq!(all, [1, 2, 3, 4, 5, 6, 7, 8]);
}

#[test]
fn gaps_assigned_again_keep_the_leader() {
    for session in [5, 10] {
        let mut entries: Vec<StandingEntry> = (1..=8)
            .map(|i| StandingEntry {
                class: VehicleClass::ORDER[i as usize % 2],
                laps_behind_leader: (i / 4) as u16,
                gap_to_leader_ms: Some(700 * i as u64),
                best_lap_ms: Some(90_000 - 13 * i as u64),
                ..entry(i)
            })
            .collect();
        assign_positions_and_gaps(&mut entries, session);
        let once = entries.clone();
        assign_positions_and_gaps(&mut entries, session);
        for (a, b) in once.iter().zip(&entries) {
            assert_eq!(a.class_position, b.class_position);
            assert_eq!(a.gap_to_leader_ms, b.gap_to_leader_ms);
            assert_eq!(a.laps_behind_leader, b.laps_behind_leader);
        }
    }
}

#[test]
fn entries_are_ordered_by_place_first() {
    let mut entries = vec![entry(0), entry(3), entry(1), entry(0), entry(2)];
    entries[0].laps = 9;
    entries[0].key.id = 10;
    entries[3].laps = 8;
    entries[3].key.id = 11;
    sort_entries(&mut entries, 10);
    assert_eq!(ids(&entries), [1, 2, 3, 10, 11]);
}

#[test]
fn entries_without_a_place_are_ordered_by_distance_in_a_race() {
    let unplaced = |id: i32, laps: u16, distance: f64| {
        let mut made = entry(0);
        made.key.id = id;
        made.laps = laps;
        made.lap_distance = double(distance);
        made
    };
    let mut entries = vec![
        unplaced(1, 3, 100.0),
        unplaced(2, 4, 50.0),
        unplaced(5, 3, 200.0),
        unplaced(4, 3, 200.0),
        unplaced(6, 3, -0.0),
        unplaced(3, 3, 0.0),
    ];
    sort_entries(&mut entries, 10);
    assert_eq!(ids(&entries), [2, 4, 5, 1, 3, 6]);
    let nan = unplaced(0, 3, f64::NAN);
    assert_eq!(sort_entry(&nan, &nan, 10), Order::Tied);
    assert_eq!(sort_entry(&nan, &entries[1], 10), Order::Before);
    assert_eq!(sort_entry(&entries[1], &nan, 10), Order::After);
}

#[test]
fn entries_without_a_place_are_ordered_by_time_in_qualifying() {
    let timed = |id: i32, best: Option<u64>| {
        let mut made = entry(0);
        made.key.id = id;
        made.best_lap_ms = best;
        made
    };
    for session in 5..=8 {
        let mut entries =
            vec![timed(1, Some(900)), timed(2, None), timed(4, Some(800)), timed(3, Some(800))];
        sort_entries(&mut entries, session);
        assert_eq!(ids(&entries), [2, 3, 4, 1]);
    }
}

#[test]
fn sorting_is_stable() {
    let mut entries: Vec<StandingEntry> = Vec::new();
    for i in 0..40 {
        let mut made = entry(i % 4 + 1);
        made.key.id = i;
        entries.push(made);
    }
    let mut expected = entries.clone();
    expected.sort_by(|a, b| a.position.cmp(&b.position));
    sort_entries(&mut entries, 10);
    assert_eq!(entries, expected);
}

#[test]
fn race_gaps_refer_to_the_class() {
    let raced = |id: i32, class: VehicleClass, laps: u16, gap: Option<u64>| {
        let mut made = entry(id);
        made.class = class;
        made.laps_behind_leader = laps;
        made.gap_to_leader_ms = gap;
        made
    };
    let mut entries = vec![
        raced(1, VehicleClass::Hypercar, 0, None),
        raced(2, VehicleClass::Lmgt3, 1, Some(5_000)),
        raced(3, VehicleClass::Hypercar, 0, Some(1_500)),
        raced(4, VehicleClass::Lmgt3, 1, Some(7_250)),
        raced(5, VehicleClass::Lmgt3, 2, Some(9_000)),
        raced(6, VehicleClass::Lmgt3, 2, Some(8_000)),
    ];
    assign_positions_and_gaps(&mut entries, 10);
    let found: Vec<(u16, Option<u64>, u16, Option<u64>, u16)> = entries
        .iter()
        .map(|e| {
            (
                e.class_position,
                e.gap_to_leader_ms,
                e.laps_behind_leader,
                e.gap_to_previous_ms,
                e.laps_behind_previous,
            )
        })
        .collect();
    assert_eq!(
        found,
        [
            (1, Some(0), 0, Some(0), 0),
            (1, Some(0), 0, Some(0), 0),
            (2, Some(1_500), 0, Some(1_500), 0),
            (2, Some(2_250), 0, Some(2_250), 0),
            (3, None, 1, None, 1),
            (4, None, 1, Some(0), 0),
        ]
    );
}

#[test]
fn qualifying_gaps_are_those_of_best_laps() {
    let timed = |id: i32, best: Option<u64>| {
        let mut made = entry(id);
        made.best_lap_ms = best;
        made.laps_behind_leader = 3;
        made
    };
    let mut entries =
        vec![timed(1, Some(900)), timed(2, None), timed(3, Some(800)), timed(4, Some(1_000))];
    assign_positions_and_gaps(&mut entries, 5);
    let found: Vec<(u16, Option<u64>, Option<u64>, u16)> = entries
        .iter()
        .map(|e| (e.class_position, e.gap_to_leader_ms, e.gap_to_previous_ms, e.laps_behind_leader))
        .collect();
    assert_eq!(
        found,
        [
            (1, Some(100), None, 0),
            (2, None, None, 0),
            (3, Some(0), Some(0), 0),
            (4, Some(200), Some(200), 0),
        ]
    );
}

#[test]
fn a_driver_has_the_focus_if_the_name_is_unique() {
    let named = |id: i32, name: &str| StandingEntry { driver_name: name.into(), ..entry(id) };
    let entries = vec![named(1, "Ada"), named(2, "Bob"), named(3, "ADA")];
    assert_eq!(unique_driver_focus(&entries, "bob"), Some(entries[1].key.clone()));
    assert_eq!(unique_driver_focus(&entries, "ada"), None);
    assert_eq!(unique_driver_focus(&entries, "Eve"), None);
    assert_eq!(unique_driver_focus(&entries, ""), None);
    assert_eq!(unique_driver_focus(&[named(1, "")], ""), None);
}

fn raw(id: i32) -> RawEntry {
    RawEntry {
        id,
        driver: b"Driver\0".to_vec(),
        vehicle: format!("Car {id}\0").into_bytes(),
        filename: format!("{id}.veh").into_bytes(),
        class: b"LMP2".to_vec(),
        laps: 4,
        finish: 0,
        distance: double(12.5),
        best: double(83.4567),
        last: double(-1.0),
        penalties: 0,
        player: false,
        in_pits: false,
        place: id as u8,
        behind_next: double(0.5),
        laps_next: 0,
        behind_leader: double(1.25),
        laps_leader: 0,
        pit: 0,
        garage: false,
    }
}

fn block(id: i32) -> RawTelemetry {
    RawTelemetry {
        id,
        vehicle: format!("CAR {id}").into_bytes(),
        front: b"Soft".to_vec(),
        rear: b"Hard".to_vec(),
        model: b"Model".to_vec(),
        class: 0,
    }
}

fn frame() -> RawStandingsFrame {
    RawStandingsFrame {
        startup: 1,
        shutdown: 0,
        session_start: 0,
        scoring: 5,
        telemetry_event: 6,
        window: 7,
        elapsed: double(100.0),
        session: 10,
        track: b"Le Mans\0".to_vec(),
        player_name: b"driver\0".to_vec(),
        player_telemetry_id: None,
        entries: vec![raw(2), raw(1)],
        telemetry: vec![block(1)],
    }
}

fn snapshot(update: StandingsUpdate) -> StandingsSnapshot {
    match update {
        StandingsUpdate::Snapshot(snapshot) => snapshot,
        other => panic!("{other:?}"),
    }
}

#[test]
fn a_frame_becomes_standings() {
    let mut state = StandingsState::default();
    let made = snapshot(decode_standings(frame(), true, &mut state).unwrap());
    assert_eq!(made.session_generation, 1);
    assert_eq!(made.session, 10);
    assert_eq!(made.track_name, "Le Mans");
    assert_eq!(made.focused_vehicle, None);
    assert_eq!(ids(&made.entries), [1, 2]);
    let first = &made.entries[0];
    assert_eq!(first.key.vehicle_name, "Car 1");
    assert_eq!(first.key.vehicle_filename, "1.veh");
    assert_eq!(first.driver_name, "Driver");
    assert_eq!(first.vehicle_model, "Model");
    assert_eq!(first.class, VehicleClass::Hypercar);
    assert_eq!(first.tires.label(), "F:S R:H");
    assert_eq!(first.best_lap_ms, Some(83_457));
    assert_eq!(first.last_lap_ms, None);
    assert_eq!((first.class_position, first.gap_to_leader_ms), (1, Some(0)));
    let second = &made.entries[1];
    assert_eq!(second.class, VehicleClass::Lmp2);
    assert_eq!(second.vehicle_model, "");
    assert_eq!(second.tires.label(), "—");
    assert_eq!(second.laps, 4);
    assert_eq!(second.lap_distance, double(12.5));
    assert!(state.had_session);
}

#[test]
fn the_last_telemetry_block_of_a_vehicle_counts() {
    let mut state = StandingsState::default();
    let mut given = frame();
    given.telemetry = vec![
        block(1),
        RawTelemetry { model: b"Later".to_vec(), class: 7, ..block(1) },
        RawTelemetry { vehicle: b"Other".to_vec(), ..block(2) },
    ];
    let made = snapshot(decode_standings(given, true, &mut state).unwrap());
    assert_eq!(made.entries[0].vehicle_model, "Later");
    assert_eq!(made.entries[0].class, VehicleClass::Lmp2);
    assert_eq!(made.entries[1].vehicle_model, "");
}

#[test]
fn the_same_frame_is_reported_once() {
    let mut state = StandingsState::default();
    assert!(matches!(
        decode_standings(frame(), true, &mut state).unwrap(),
        StandingsUpdate::Snapshot(_)
    ));
    assert_eq!(decode_standings(frame(), true, &mut state).unwrap(), StandingsUpdate::Unchanged);
    assert_eq!(decode_standings(frame(), false, &mut state).unwrap(), StandingsUpdate::NoSession);
    assert_eq!(decode_standings(frame(), false, &mut state).unwrap(), StandingsUpdate::Unchanged);
}

#[test]
fn a_clock_that_is_not_finite_is_passed_over() {
    let mut state = StandingsState::default();
    let given = RawStandingsFrame { elapsed: double(f64::NAN), ..frame() };
    assert_eq!(decode_standings(given, true, &mut state).unwrap(), StandingsUpdate::Unchanged);
    assert_eq!(state.startup, None);
}

#[test]
fn sessions_are_numbered() {
    let mut state = StandingsState::default();
    let mut number = |given: RawStandingsFrame| {
        snapshot(decode_standings(given, true, &mut state).unwrap()).session_generation
    };
    assert_eq!(number(frame()), 1);
    assert_eq!(number(RawStandingsFrame { scoring: 6, ..frame() }), 1);
    assert_eq!(number(RawStandingsFrame { elapsed: double(99.9995), ..frame() }), 1);
    assert_eq!(number(RawStandingsFrame { elapsed: double(99.9), ..frame() }), 2);
    assert_eq!(number(RawStandingsFrame { elapsed: double(120.0), session: 11, ..frame() }), 3);
    assert_eq!(number(RawStandingsFrame { session_start: 4, session: 11, ..frame() }), 4);
    assert_eq!(
        number(RawStandingsFrame { session_start: 4, session: 11, elapsed: double(1.0), ..frame() }),
        4
    );
    assert_eq!(number(RawStandingsFrame { track: b"Spa".to_vec(), ..frame() }), 5);
    assert_eq!(number(RawStandingsFrame { startup: 2, track: b"Spa".to_vec(), ..frame() }), 6);
}

#[test]
fn the_number_of_a_session_is_never_zero() {
    let mut state = StandingsState { generation: u64::MAX, ..StandingsState::default() };
    assert_eq!(snapshot(decode_standings(frame(), true, &mut state).unwrap()).session_generation, 1);
}

#[test]
fn a_session_after_none_is_new() {
    let mut state = StandingsState::default();
    decode_standings(frame(), true, &mut state).unwrap();
    let empty = RawStandingsFrame { entries: Vec::new(), scoring: 8, ..frame() };
    assert_eq!(decode_standings(empty, true, &mut state).unwrap(), StandingsUpdate::NoSession);
    let later = RawStandingsFrame { scoring: 9, ..frame() };
    assert_eq!(snapshot(decode_standings(later, true, &mut state).unwrap()).session_generation, 2);
}

#[test]
fn the_focus_is_marked_or_found() {
    let focus = |given: RawStandingsFrame| {
        let made = decode_standings(given, true, &mut StandingsState::default()).unwrap();
        snapshot(made).focused_vehicle.map(|key| key.id)
    };
    let mut given = frame();
    given.entries[1].driver = b"Someone".to_vec();
    assert_eq!(focus(given), Some(2));
    let mut given = frame();
    given.player_telemetry_id = Some(1);
    assert_eq!(focus(given), Some(1));
    let mut given = frame();
    given.player_telemetry_id = Some(1);
    given.entries[0].player = true;
    assert_eq!(focus(given), Some(2));
    let mut given = frame();
    given.player_telemetry_id = Some(2);
    assert_eq!(focus(given), None);
}

fn write(memory: &mut [u8], offset: usize, bytes: &[u8]) {
    memory[offset..offset + bytes.len()].copy_from_slice(bytes);
}

fn mapping() -> Vec<u8> {
    let mut memory = vec![0; MAPPING_SIZE];
    write(&mut memory, STARTUP_EVENT, &3u32.to_ne_bytes());
    write(&mut memory, START_SESSION_EVENT, &4u32.to_ne_bytes());
    write(&mut memory, SCORING_EVENT, &5u32.to_ne_bytes());
    write(&mut memory, APPLICATION_WINDOW, &77u64.to_ne_bytes());
    write(&mut memory, SCORING_TRACK_NAME, b"Spa");
    write(&mut memory, SCORING_SESSION, &(-2i32).to_ne_bytes());
    write(&mut memory, SCORING_CURRENT_ET, &12.5f64.to_ne_bytes());
    write(&mut memory, SCORING_NUM_VEHICLES, &2i32.to_ne_bytes());
    write(&mut memory, SCORING_PLAYER_NAME, b"Ada");
    memory[ACTIVE_TELEMETRY_VEHICLES] = 1;
    memory[PLAYER_TELEMETRY_INDEX] = 0;
    memory[PLAYER_HAS_TELEMETRY] = 1;
    let base = VEHICLE_SCORING + VEHICLE_SCORING_SIZE;
    write(&mut memory, base, &(-5i32).to_ne_bytes());
    write(&mut memory, base + 4, b"Ada");
    write(&mut memory, base + 36, b"Car");
    write(&mut memory, base + 100, &(-3i16).to_ne_bytes());
    memory[base + 103] = 2;
    write(&mut memory, base + 104, &1.5f64.to_ne_bytes());
    write(&mut memory, base + 144, &2.5f64.to_ne_bytes());
    write(&mut memory, base + 168, &3.5f64.to_ne_bytes());
    write(&mut memory, base + 194, &7i16.to_ne_bytes());
    memory[base + 196] = 1;
    memory[base + 198] = 9;
    memory[base + 199] = 200;
    write(&mut memory, base + 200, b"GTE");
    write(&mut memory, base + 232, &4.5f64.to_ne_bytes());
    write(&mut memory, base + 240, &8i32.to_ne_bytes());
    write(&mut memory, base + 244, &5.5f64.to_ne_bytes());
    write(&mut memory, base + 252, &9i32.to_ne_bytes());
    memory[base + 457] = 4;
    memory[base + 507] = 1;
    write(&mut memory, base + 544, b"car.veh");
    write(&mut memory, VEHICLE_TELEMETRY, &(-5i32).to_ne_bytes());
    write(&mut memory, VEHICLE_TELEMETRY + 32, b"CAR");
    write(&mut memory, VEHICLE_TELEMETRY + 620, b"Wet");
    write(&mut memory, VEHICLE_TELEMETRY + 638, b"Dry");
    write(&mut memory, VEHICLE_TELEMETRY + 796, b"Type 9");
    memory[VEHICLE_TELEMETRY + 826] = 5;
    memory
}

#[test]
fn a_frame_is_read_field_by_field() {
    let found = read_standings_frame(mapping().as_slice()).unwrap();
    assert_eq!((found.startup, found.shutdown, found.session_start), (3, 0, 4));
    assert_eq!((found.scoring, found.telemetry_event, found.window), (5, 0, 77));
    assert_eq!(found.session, -2);
    assert_eq!(found.elapsed, double(12.5));
    assert_eq!(&found.track[..4], b"Spa\0");
    assert_eq!((found.track.len(), found.player_name.len()), (64, 32));
    assert_eq!(&found.player_name[..4], b"Ada\0");
    assert_eq!(found.player_telemetry_id, Some(-5));
    assert_eq!((found.entries.len(), found.telemetry.len()), (2, 1));
    let entry = &found.entries[1];
    assert_eq!((entry.id, entry.laps, entry.finish), (-5, -3, 2));
    assert_eq!(&entry.driver[..4], b"Ada\0");
    assert_eq!(&entry.vehicle[..4], b"Car\0");
    assert_eq!(&entry.class[..4], b"GTE\0");
    assert_eq!(&entry.filename[..8], b"car.veh\0");
    assert_eq!(entry.distance, double(1.5));
    assert_eq!((entry.best, entry.last), (double(2.5), double(3.5)));
    assert_eq!((entry.penalties, entry.player, entry.in_pits), (7, true, true));
    assert_eq!((entry.place, entry.pit, entry.garage), (200, 4, true));
    assert_eq!((entry.behind_next, entry.laps_next), (double(4.5), 8));
    assert_eq!((entry.behind_leader, entry.laps_leader), (double(5.5), 9));
    let block = &found.telemetry[0];
    assert_eq!((block.id, block.class), (-5, 5));
    assert_eq!(&block.front[..4], b"Wet\0");
    assert_eq!(&block.rear[..4], b"Dry\0");
    assert_eq!(&block.model[..7], b"Type 9\0");
    assert_eq!(&block.vehicle[..4], b"CAR\0");
}

#[test]
fn counts_are_limited() {
    let mut memory = mapping();
    write(&mut memory, SCORING_NUM_VEHICLES, &(-1i32).to_ne_bytes());
    memory[ACTIVE_TELEMETRY_VEHICLES] = 255;
    memory[PLAYER_TELEMETRY_INDEX] = 104;
    let found = read_standings_frame(memory.as_slice()).unwrap();
    assert_eq!((found.entries.len(), found.telemetry.len()), (0, 104));
    assert_eq!(found.player_telemetry_id, None);
    write(&mut memory, SCORING_NUM_VEHICLES, &1000i32.to_ne_bytes());
    assert_eq!(read_standings_frame(memory.as_slice()).unwrap().entries.len(), 104);
}

#[test]
fn a_short_mapping_is_refused_at_the_first_field_outside() {
    let memory = mapping();
    let error = |size: usize| match read_standings_frame(&memory[..size]) {
        Err(Error::OutOfBounds { offset, value_size, mapping_size, .. }) => {
            assert_eq!(mapping_size, size);
            (offset, value_size)
        }
        other => panic!("{other:?}"),
    };
    assert_eq!(error(0), (STARTUP_EVENT, 4));
    assert_eq!(error(SCORING_TRACK_NAME + 10), (SCORING_CURRENT_ET, 8));
    assert_eq!(error(VEHICLE_SCORING), (ACTIVE_TELEMETRY_VEHICLES, 1));
    assert_eq!(error(VEHICLE_TELEMETRY + 700), (VEHICLE_TELEMETRY + 796, 30));
    assert!(read_standings_frame(&memory[..VEHICLE_TELEMETRY + VEHICLE_TELEMETRY_SIZE]).is_ok());
}

#[test]
fn a_mapping_becomes_standings() {
    let mut reader = LmuStandings::connect();
    let seen = LmuStandings::observe(mapping().as_slice(), true).unwrap();
    assert_eq!(seen.window(), 77);
    let made = snapshot(reader.read(seen, true).unwrap());
    assert_eq!(made.track_name, "Spa");
    assert_eq!(made.focused_vehicle.as_ref().map(|key| key.id), Some(-5));
    let last = &made.entries[0];
    assert_eq!((last.position, last.laps, last.penalties), (200, 0, 7));
    assert_eq!(last.status, VehicleStatus::Dnf);
    assert_eq!(last.class, VehicleClass::Gte);
    assert_eq!(last.tires.label(), "F:W R:Dry");
}

#[test]
fn a_busy_lock_keeps_the_standings() {
    let mut reader = LmuStandings::connect();
    let seen = LmuStandings::observe(mapping().as_slice(), true).unwrap();
    reader.read(seen, true).unwrap();
    let busy = LmuStandings::observe(mapping().as_slice(), false).unwrap();
    assert!(matches!(busy, StandingsObservation::Busy { window: 77 }));
    assert_eq!(reader.read(busy, true).unwrap(), StandingsUpdate::Unchanged);
    assert!(reader.state.had_session);
    let busy = StandingsObservation::Busy { window: 77 };
    assert_eq!(
        reader.read(busy, false).unwrap_err().message(),
        "shared memory 'LMU_Data' is unavailable: source stopped while the shared lock was busy"
    );
    assert!(!reader.state.had_session);
    assert_eq!(reader.state.generation, 1);
    assert!(matches!(
        LmuStandings::observe(&mapping()[..10], false),
        Err(Error::OutOfBounds { offset: APPLICATION_WINDOW, value_size: 8, mapping_size: 10, .. })
    ));
}

#[test]
fn snapshots_compare_and_copy() {
    let mut state = StandingsState::default();
    let made = snapshot(decode_standings(frame(), true, &mut state).unwrap());
    assert_eq!(made.clone(), made);
    let mut other = made.clone();
    other.entries[1].penalties = 3;
    assert_ne!(other, made);
    assert_eq!(StandingsSnapshot::default(), StandingsSnapshot::default());
    assert!(StandingsSnapshot::default().entries.is_empty());
    let update = StandingsUpdate::Snapshot(made);
    assert_eq!(update.clone(), update);
    assert_ne!(update, StandingsUpdate::NoSession);
}
