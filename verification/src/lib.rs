//! Typed, verified views of the shared memory that the racing simulator LMU
//! publishes: pedal telemetry, weather and timing standings.
//!
//! The mapping is read through [`Memory`]; what the bytes mean, when they count
//! as new and what is reported for them is decided here.

pub mod arithmetic;
pub mod entry;
pub mod equality;
pub mod error;
pub mod float;
pub mod frame;
pub mod gaps;
pub mod layout;
pub mod memory;
pub mod opening;
pub mod ranking;
pub mod reports;
pub mod rounding;
pub mod selection;
pub mod source;
pub mod standings;
pub mod telemetry;
pub mod text;
pub mod vehicle;
pub mod watched;
pub mod weather;

pub use entry::StandingEntry;
pub use error::Error;
pub use float::{Double, Single};
pub use layout::{MAPPING_NAME, MAPPING_SIZE, MAX_VEHICLES};
pub use memory::Memory;
pub use selection::{select_class_blocks, select_visible_entries};
pub use source::source_window_alive;
pub use standings::{LmuStandings, StandingsObservation, StandingsSnapshot, StandingsUpdate};
pub use telemetry::{LmuTelemetry, PedalData, TelemetrySnapshot, TelemetryUpdate};
pub use vehicle::{TireCompound, VehicleClass, VehicleKey, VehicleStatus};
pub use watched::Watched;
pub use weather::{LmuWeather, WeatherObservation, WeatherSnapshot, WeatherUpdate, Wind};
