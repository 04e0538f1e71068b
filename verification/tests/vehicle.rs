use lmu_shared_memory::vehicle::{class_from_code, class_from_name, compact_compound, lap_gap, status};
use lmu_shared_memory::{TireCompound, VehicleClass, VehicleKey, VehicleStatus};

#[test]
fn tire_labels_are_compact() {
    assert_eq!(
        TireCompound {
            front: "Medium".into(),
            rear: "Hard".into()
        }
        .label(),
        "F:M R:H"
    );
    assert_eq!(TireCompound::default().label(), "—");
}

#[test]
fn tire_labels_name_one_compound_once() {
    let label = |front: &str, rear: &str| {
        TireCompound { front: front.into(), rear: rear.into() }.label()
    };
    assert_eq!(label("Soft", "SOFT (new)"), "S");
    assert_eq!(label("", " wet "), "W");
    assert_eq!(label("Experimental", "  "), "Experi");
    assert_eq!(label("Abc", "Abd"), "F:Abc R:Abd");
}

#[test]
fn compounds_are_shortened() {
    assert_eq!(compact_compound("  "), None);
    assert_eq!(compact_compound("Soft Hard"), Some("S".into()));
    assert_eq!(compact_compound("hard wet"), Some("H".into()));
    assert_eq!(compact_compound("MEDIUM"), Some("M".into()));
    assert_eq!(compact_compound(" \u{e9}t\u{e9}-2026 "), Some("\u{e9}t\u{e9}-20".into()));
    assert_eq!(compact_compound("Slick"), Some("Slick".into()));
}

#[test]
fn classes_have_codes() {
    let all: Vec<VehicleClass> = (0..=9).map(class_from_code).collect();
    assert_eq!(
        all,
        [
            VehicleClass::Hypercar,
            VehicleClass::Unknown,
            VehicleClass::Lmp2Elms,
            VehicleClass::Lmp2,
            VehicleClass::Lmp3,
            VehicleClass::Gte,
            VehicleClass::Lmgt3,
            VehicleClass::Unknown,
            VehicleClass::PaceCar,
            VehicleClass::Unknown,
        ]
    );
    assert_eq!(class_from_code(255), VehicleClass::Unknown);
    assert_eq!(VehicleClass::default(), VehicleClass::Unknown);
}

#[test]
fn classes_have_names() {
    for (name, class) in [
        ("Hypercar", VehicleClass::Hypercar),
        ("LMH", VehicleClass::Hypercar),
        ("LMDh", VehicleClass::Hypercar),
        ("LMP2_ELMS", VehicleClass::Lmp2Elms),
        ("LMP2", VehicleClass::Lmp2),
        ("LMP3", VehicleClass::Lmp3),
        ("LMGT3", VehicleClass::Lmgt3),
        ("GT3", VehicleClass::Lmgt3),
        ("WEC GT3", VehicleClass::Lmgt3),
        ("XGT3", VehicleClass::Unknown),
        ("GTE", VehicleClass::Gte),
        ("Pace Car", VehicleClass::PaceCar),
        ("Safety", VehicleClass::PaceCar),
        ("", VehicleClass::Unknown),
    ] {
        assert_eq!(class_from_name(name), class, "{name}");
    }
}

#[test]
fn classes_are_labelled_in_order() {
    let labels: Vec<&str> = VehicleClass::ORDER.iter().map(|class| class.label()).collect();
    assert_eq!(labels, ["HYP", "P2", "P2E", "P3", "GTE", "GT3", "SC", "—"]);
    let names: Vec<&str> = VehicleClass::ORDER.iter().map(|class| class.name()).collect();
    assert_eq!(
        names,
        ["Hypercar", "LMP2", "LMP2 ELMS", "LMP3", "GTE", "LMGT3", "Pace Car", "Unknown"]
    );
}

#[test]
fn laps_are_clamped() {
    assert_eq!(lap_gap(-1), 0);
    assert_eq!(lap_gap(3), 3);
    assert_eq!(lap_gap(65_535), 65_535);
    assert_eq!(lap_gap(65_536), 65_535);
    assert_eq!(lap_gap(i32::MIN), 0);
}

#[test]
fn the_end_of_a_race_outranks_the_pits() {
    assert_eq!(status(3, 1, true, true), VehicleStatus::Disqualified);
    assert_eq!(status(2, 1, true, true), VehicleStatus::Dnf);
    assert_eq!(status(1, 1, true, true), VehicleStatus::Finished);
    assert_eq!(status(0, 1, true, true), VehicleStatus::Garage);
    assert_eq!(status(4, 1, true, false), VehicleStatus::PitRequested);
    assert_eq!(status(0, 2, true, false), VehicleStatus::PitIn);
    assert_eq!(status(0, 3, false, false), VehicleStatus::Pit);
    assert_eq!(status(0, 4, true, false), VehicleStatus::PitOut);
    assert_eq!(status(0, 0, true, false), VehicleStatus::Pit);
    assert_eq!(status(0, 5, false, false), VehicleStatus::NoStatus);
    assert_eq!(VehicleStatus::default(), VehicleStatus::NoStatus);
}

#[test]
fn keys_compare_in_all_fields() {
    let key = VehicleKey { id: 1, vehicle_filename: "a.veh".into(), vehicle_name: "A".into() };
    assert_eq!(key, key.clone());
    assert_ne!(key, VehicleKey { id: 2, ..key.clone() });
    assert_ne!(key, VehicleKey { vehicle_filename: "b.veh".into(), ..key.clone() });
    assert_ne!(key, VehicleKey { vehicle_name: "B".into(), ..key.clone() });
}

#[test]
fn names_tell_their_class_in_any_case() {
    for class in VehicleClass::ORDER {
        assert_eq!(class_from_name(class.name()), class);
        assert_eq!(class_from_name(&class.name().to_uppercase()), class);
        assert_eq!(class_from_name(&class.name().to_lowercase()), class);
    }
}
