use core::convert::Infallible;
use std::collections::VecDeque;

use embedded_hal::spi::ErrorKind;
use spi_flash_for_embassy::{
    AddressMode, BusAction, BusEvent, DeviceInfo, Error, Executor, Manufacturer, Plan, SpiFlash,
};

#[derive(Debug, Clone, PartialEq, Eq)]
enum Operation {
    CsLow,
    CsHigh,
    SpiWrite(Vec<u8>),
    SpiRead(Vec<u8>),
    DelayMs(u32),
}

type Flash = SpiFlash<(), (), ()>;
type FlashError = Error<ErrorKind, Infallible>;

/// Runs a plan against a bus that expects exactly `ops`, in order, as the
/// mock devices of a real bus would; flushes always succeed.
fn run(plan: Plan, ops: &mut VecDeque<Operation>) -> Result<Vec<u8>, FlashError> {
    let mut executor: Executor<ErrorKind, Infallible> = Executor::new(plan);
    loop {
        let event = match executor.action() {
            BusAction::Finished => break,
            BusAction::Select => match ops.pop_front() {
                Some(Operation::CsLow) => BusEvent::Done,
                other => panic!("unexpected CS low operation: {other:?}"),
            },
            BusAction::Deselect => match ops.pop_front() {
                Some(Operation::CsHigh) => BusEvent::Done,
                other => panic!("unexpected CS high operation: {other:?}"),
            },
            BusAction::Write(words) => match ops.pop_front() {
                Some(Operation::SpiWrite(expected)) => {
                    assert_eq!(expected, words, "write bytes mismatch");
                    BusEvent::Done
                }
                other => panic!("unexpected SPI write operation: {other:?}"),
            },
            BusAction::Read(len) => match ops.pop_front() {
                Some(Operation::SpiRead(data)) => {
                    assert_eq!(data.len(), len, "read length mismatch");
                    BusEvent::Data(data)
                }
                other => panic!("unexpected SPI read operation: {other:?}"),
            },
            BusAction::Flush => BusEvent::Done,
            BusAction::DelayMs(ms) => match ops.pop_front() {
                Some(Operation::DelayMs(expected_ms)) => {
                    assert_eq!(expected_ms, ms, "delay mismatch");
                    BusEvent::Done
                }
                other => panic!("unexpected delay operation: {other:?}"),
            },
        };
        executor.advance(event);
    }
    executor.into_outcome()
}

fn initialize(flash: &mut Flash, ops: &mut VecDeque<Operation>) -> Result<DeviceInfo, FlashError> {
    let plan = flash.plan_initialize();
    let outcome = run(plan, ops);
    flash.finish_initialize(outcome)
}

fn shared_ops(ops: Vec<Operation>) -> VecDeque<Operation> {
    VecDeque::from(ops)
}

#[test]
fn initialize_reads_jedec_and_geometry() {
    let mut ops = shared_ops(vec![
        Operation::CsHigh,
        Operation::DelayMs(20),
        Operation::CsLow,
        Operation::SpiWrite(vec![0x04]),
        Operation::CsHigh,
        Operation::CsLow,
        Operation::SpiWrite(vec![0x9F]),
        Operation::SpiRead(vec![0xEF, 0x40, 0x17]),
        Operation::CsHigh,
    ]);

    let mut flash: Flash = SpiFlash::new((), (), ());

    let info = initialize(&mut flash, &mut ops).expect("initialize should succeed");

    assert_eq!(info.manufacturer, Manufacturer::Winbond);
    assert_eq!(info.address_mode, AddressMode::ThreeByte);
    assert_eq!(info.capacity_bytes, 8 * 1024 * 1024);
    assert!(ops.is_empty(), "all mock operations should be consumed");
}

#[test]
fn write_address_splits_page_programs_across_boundaries() {
    let mut ops = shared_ops(vec![
        Operation::CsHigh,
        Operation::DelayMs(20),
        Operation::CsLow,
        Operation::SpiWrite(vec![0x04]),
        Operation::CsHigh,
        Operation::CsLow,
        Operation::SpiWrite(vec![0x9F]),
        Operation::SpiRead(vec![0xEF, 0x40, 0x17]),
        Operation::CsHigh,
        Operation::CsLow,
        Operation::SpiWrite(vec![0x06]),
        Operation::CsHigh,
        Operation::CsLow,
        Operation::SpiWrite(vec![0x02, 0x00, 0x00, 0xFE]),
        Operation::SpiWrite(vec![0xAA, 0xBB]),
        Operation::CsHigh,
        Operation::CsLow,
        Operation::SpiWrite(vec![0x05]),
        Operation::SpiRead(vec![0x00]),
        Operation::CsHigh,
        Operation::CsLow,
        Operation::SpiWrite(vec![0x06]),
        Operation::CsHigh,
        Operation::CsLow,
        Operation::SpiWrite(vec![0x02, 0x00, 0x01, 0x00]),
        Operation::SpiWrite(vec![0xCC, 0xDD]),
        Operation::CsHigh,
        Operation::CsLow,
        Operation::SpiWrite(vec![0x05]),
        Operation::SpiRead(vec![0x00]),
        Operation::CsHigh,
    ]);

    let mut flash: Flash = SpiFlash::new((), (), ());
    initialize(&mut flash, &mut ops).unwrap();

    let plan = flash.plan_write_address::<ErrorKind, Infallible>(0xFE, &[0xAA, 0xBB, 0xCC, 0xDD]).unwrap();
    run(plan, &mut ops).unwrap();

    assert!(ops.is_empty(), "all mock operations should be consumed");
}

#[test]
fn write_page_rejects_crossing_page_boundary() {
    let mut ops = shared_ops(vec![
        Operation::CsHigh,
        Operation::DelayMs(20),
        Operation::CsLow,
        Operation::SpiWrite(vec![0x04]),
        Operation::CsHigh,
        Operation::CsLow,
        Operation::SpiWrite(vec![0x9F]),
        Operation::SpiRead(vec![0xEF, 0x40, 0x17]),
        Operation::CsHigh,
    ]);
    let mut flash: Flash = SpiFlash::new((), (), ());

    initialize(&mut flash, &mut ops).unwrap();
    let err = flash.plan_write_page::<ErrorKind, Infallible>(0, 255, &[0xAA, 0xBB]).unwrap_err();
    assert_eq!(err, Error::OutOfBounds);
    assert!(ops.is_empty(), "all mock operations should be consumed");
}

#[test]
fn initialize_uses_four_byte_addressing_for_large_parts() {
    let mut ops = shared_ops(vec![
        Operation::CsHigh,
        Operation::DelayMs(20),
        Operation::CsLow,
        Operation::SpiWrite(vec![0x04]),
        Operation::CsHigh,
        Operation::CsLow,
        Operation::SpiWrite(vec![0x9F]),
        Operation::SpiRead(vec![0xC8, 0x40, 0x19]),
        Operation::CsHigh,
    ]);

    let mut flash: Flash = SpiFlash::new((), (), ());

    let info = initialize(&mut flash, &mut ops).unwrap();

    assert_eq!(info.manufacturer, Manufacturer::GigaDevice);
    assert_eq!(info.address_mode, AddressMode::FourByte);
    assert_eq!(info.capacity_bytes, 32 * 1024 * 1024);
    assert!(ops.is_empty(), "all mock operations should be consumed");
}
