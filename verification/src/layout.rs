//! The layout of the shared-memory mapping: where each field starts, in bytes.

use vstd::prelude::*;

verus! {

pub const MAPPING_NAME: &'static str = "LMU_Data";

pub const MAPPING_SIZE: usize = 324_820;

pub const MAX_VEHICLES: usize = 104;

pub const STARTUP_EVENT: usize = 8;

pub const SHUTDOWN_EVENT: usize = 12;

pub const START_SESSION_EVENT: usize = 24;

pub const SCORING_EVENT: usize = 40;

pub const TELEMETRY_EVENT: usize = 44;

pub const APPLICATION_WINDOW: usize = 72;

pub const SCORING_INFO: usize = 1_632;

pub const SCORING_TRACK_NAME: usize = SCORING_INFO;

pub const SCORING_SESSION: usize = SCORING_INFO + 64;

pub const SCORING_CURRENT_ET: usize = SCORING_INFO + 68;

pub const SCORING_NUM_VEHICLES: usize = SCORING_INFO + 104;

pub const SCORING_PLAYER_NAME: usize = SCORING_INFO + 116;

pub const SCORING_CLOUD_DARKNESS: usize = SCORING_INFO + 212;

pub const SCORING_RAIN_INTENSITY: usize = SCORING_INFO + 220;

pub const SCORING_AMBIENT_TEMPERATURE: usize = SCORING_INFO + 228;

pub const SCORING_TRACK_TEMPERATURE: usize = SCORING_INFO + 236;

pub const SCORING_WIND: usize = SCORING_INFO + 244;

pub const SCORING_MIN_PATH_WETNESS: usize = SCORING_INFO + 268;

pub const SCORING_MAX_PATH_WETNESS: usize = SCORING_INFO + 276;

pub const SCORING_AVERAGE_PATH_WETNESS: usize = SCORING_INFO + 332;

pub const VEHICLE_SCORING: usize = 2_192;

pub const VEHICLE_SCORING_SIZE: usize = 584;

pub const ACTIVE_TELEMETRY_VEHICLES: usize = 128_464;

pub const PLAYER_TELEMETRY_INDEX: usize = 128_465;

pub const PLAYER_HAS_TELEMETRY: usize = 128_466;

pub const VEHICLE_TELEMETRY: usize = 128_468;

pub const VEHICLE_TELEMETRY_SIZE: usize = 1_888;

/// The telemetry blocks end where the mapping ends, and the weather fields of the
/// scoring block end before the vehicles' scoring blocks begin.
pub proof fn law_layout()
    ensures
        VEHICLE_TELEMETRY + VEHICLE_TELEMETRY_SIZE * MAX_VEHICLES == MAPPING_SIZE,
        SCORING_AVERAGE_PATH_WETNESS + 8 <= VEHICLE_SCORING,
{
}

/// The bytes at which the fields of the mapping begin.
pub proof fn law_offsets()
    ensures
        MAPPING_SIZE == 324820,
        MAX_VEHICLES == 104,
        STARTUP_EVENT == 8,
        SHUTDOWN_EVENT == 12,
        START_SESSION_EVENT == 24,
        SCORING_EVENT == 40,
        TELEMETRY_EVENT == 44,
        APPLICATION_WINDOW == 72,
        SCORING_TRACK_NAME == 1632,
        SCORING_SESSION == 1696,
        SCORING_CURRENT_ET == 1700,
        SCORING_NUM_VEHICLES == 1736,
        SCORING_PLAYER_NAME == 1748,
        SCORING_CLOUD_DARKNESS == 1844,
        SCORING_RAIN_INTENSITY == 1852,
        SCORING_AMBIENT_TEMPERATURE == 1860,
        SCORING_TRACK_TEMPERATURE == 1868,
        SCORING_WIND == 1876,
        SCORING_MIN_PATH_WETNESS == 1900,
        SCORING_MAX_PATH_WETNESS == 1908,
        SCORING_AVERAGE_PATH_WETNESS == 1964,
        VEHICLE_SCORING == 2192,
        VEHICLE_SCORING_SIZE == 584,
        ACTIVE_TELEMETRY_VEHICLES == 128464,
        PLAYER_TELEMETRY_INDEX == 128465,
        PLAYER_HAS_TELEMETRY == 128466,
        VEHICLE_TELEMETRY == 128468,
        VEHICLE_TELEMETRY_SIZE == 1888,
{
}

} // verus!
