//! A verified driver core for standard SPI NOR flash parts: part
//! identification, geometry, address framing, range checking, the command
//! plans of every erase, program and read operation, and the state machine
//! that runs a plan against a bus.
//!
//! A bus driver runs an operation in three moves: ask `SpiFlash` for the
//! operation's `Plan` (range and state checks happen here, before any bus
//! traffic), run the plan with an `Executor` (perform each `BusAction`, report
//! each `BusEvent`), and take the outcome.

pub mod command;
pub mod error;
pub mod executor;
pub mod flash;
pub mod geometry;
pub mod laws;
pub mod plan;

pub use command::{build_address_header, crosses_boundary};
pub use error::Error;
pub use executor::{copy_bytes, Executor};
pub use flash::{jedec_id_from, SpiFlash};
pub use geometry::{
    device_info_from_jedec, AddressMode, DeviceInfo, JedecId, Manufacturer, BLOCK_SIZE,
    PAGE_SIZE, SECTOR_SIZE, THREE_BYTE_LIMIT,
};
pub use plan::{BusAction, BusEvent, Exchange, Plan, Step};
