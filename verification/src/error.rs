use vstd::prelude::*;

verus! {

/// Why a flash operation failed.
///
/// `SpiError` is the error of the SPI bus, `PinError` that of the chip-select
/// pin.
#[derive(Clone, Copy, Debug, PartialEq, Eq)]
pub enum Error<SpiError, PinError = core::convert::Infallible> {
    /// The SPI bus reported an error.
    Spi(SpiError),
    /// The chip-select pin reported an error.
    Pin(PinError),
    /// The operation needs a part that `initialize` has identified.
    NotInitialized,
    /// The JEDEC density code names no supported capacity.
    UnsupportedCapacityCode(u8),
    /// The address range lies (partly) outside the part or its unit.
    OutOfBounds,
    /// The part stayed busy for longer than the operation allows.
    BusyTimeout,
}

} // verus!
