use spi_flash_for_embassy::{
    build_address_header, copy_bytes, crosses_boundary, device_info_from_jedec, jedec_id_from,
    AddressMode, BusAction, BusEvent, DeviceInfo, Error, Executor, JedecId, Manufacturer, Plan,
    SpiFlash, Step, BLOCK_SIZE, PAGE_SIZE, SECTOR_SIZE,
};

type E = Error<&'static str, &'static str>;
type Flash = SpiFlash<u8, u16, u32>;

/// A performed bus action, as the test records it.
#[derive(Debug, Clone, PartialEq, Eq)]
enum Did {
    Low,
    High,
    W(Vec<u8>),
    R(usize),
    F,
    D(u32),
}

/// Runs a plan; `reply` answers each action (it sees the action and how many
/// actions came before it).
fn drive(plan: Plan, mut reply: impl FnMut(&BusAction, usize) -> BusEvent<&'static str, &'static str>) -> (Vec<Did>, Result<Vec<u8>, E>) {
    let mut executor: Executor<&'static str, &'static str> = Executor::new(plan);
    let mut log = Vec::new();
    loop {
        let action = executor.action();
        let did = match &action {
            BusAction::Finished => break,
            BusAction::Select => Did::Low,
            BusAction::Deselect => Did::High,
            BusAction::Write(b) => Did::W(b.clone()),
            BusAction::Read(n) => Did::R(*n),
            BusAction::Flush => Did::F,
            BusAction::DelayMs(ms) => Did::D(*ms),
        };
        let event = reply(&action, log.len());
        assert!(executor.accepts(&event));
        log.push(did);
        executor.advance(event);
        assert!(log.len() < 100_000, "runaway plan");
    }
    (log, executor.into_outcome())
}

/// A bus on which everything succeeds; reads return `fill` bytes and status
/// reads report ready.
fn happy(action: &BusAction, _: usize) -> BusEvent<&'static str, &'static str> {
    match action {
        BusAction::Read(n) => BusEvent::Data(vec![0u8; *n]),
        _ => BusEvent::Done,
    }
}

fn identified(code: u8) -> Flash {
    let mut flash: Flash = SpiFlash::new(1, 2, 3);
    let plan = flash.plan_initialize();
    let (_, outcome) = drive(plan, |a, _| match a {
        BusAction::Read(3) => BusEvent::Data(vec![0xEF, 0x40, code]),
        other => happy(other, 0),
    });
    flash.finish_initialize(outcome).unwrap();
    flash
}

fn tx(bytes: &[u8]) -> Vec<Did> {
    vec![Did::Low, Did::W(bytes.to_vec()), Did::F, Did::High]
}

fn poll() -> Vec<Did> {
    vec![Did::Low, Did::W(vec![0x05]), Did::R(1), Did::F, Did::High]
}

#[test]
fn manufacturer_table_decodes_every_known_code() {
    let table = [
        (0xEF, Manufacturer::Winbond),
        (0x9D, Manufacturer::Issi),
        (0x20, Manufacturer::Micron),
        (0xC8, Manufacturer::GigaDevice),
        (0xC2, Manufacturer::Macronix),
        (0x01, Manufacturer::Spansion),
        (0x37, Manufacturer::Amic),
        (0xBF, Manufacturer::Sst),
        (0xAD, Manufacturer::Hyundai),
        (0x1F, Manufacturer::Atmel),
        (0xA1, Manufacturer::Fudan),
        (0x8C, Manufacturer::Esmt),
        (0x89, Manufacturer::Intel),
        (0x62, Manufacturer::Sanyo),
        (0x04, Manufacturer::Fujitsu),
        (0x1C, Manufacturer::Eon),
        (0x85, Manufacturer::Puya),
    ];
    for (code, m) in table {
        assert_eq!(Manufacturer::from_jedec(code), m);
    }
    assert_eq!(Manufacturer::from_jedec(0x42), Manufacturer::Unknown(0x42));
    assert_eq!(Manufacturer::from_jedec(0x00), Manufacturer::Unknown(0x00));
}

#[test]
fn geometry_of_every_density_code() {
    let table: [(u8, u32); 10] = [
        (0x11, 128 * 1024),
        (0x12, 256 * 1024),
        (0x13, 512 * 1024),
        (0x14, 1024 * 1024),
        (0x15, 2 * 1024 * 1024),
        (0x16, 4 * 1024 * 1024),
        (0x17, 8 * 1024 * 1024),
        (0x18, 16 * 1024 * 1024),
        (0x19, 32 * 1024 * 1024),
        (0x20, 64 * 1024 * 1024),
    ];
    for (code, capacity) in table {
        let id = JedecId { manufacturer_code: 0xC2, memory_type: 0x20, capacity_code: code };
        let info: DeviceInfo = device_info_from_jedec::<(), ()>(id).unwrap();
        assert_eq!(info.capacity_bytes, capacity);
        assert_eq!(info.page_count * PAGE_SIZE, capacity);
        assert_eq!(info.sector_count * SECTOR_SIZE, capacity);
        assert_eq!(info.block_count * BLOCK_SIZE, capacity);
        assert_eq!(info.manufacturer, Manufacturer::Macronix);
        assert_eq!(info.jedec_id, id);
        let expected_mode = if capacity > 16 * 1024 * 1024 { AddressMode::FourByte } else { AddressMode::ThreeByte };
        assert_eq!(info.address_mode, expected_mode);
    }
}

#[test]
fn unsupported_density_code_is_refused() {
    for code in [0x00u8, 0x10, 0x1A, 0x1F, 0x21, 0xFF] {
        let id = JedecId { manufacturer_code: 0xEF, memory_type: 0x40, capacity_code: code };
        assert_eq!(device_info_from_jedec::<(), ()>(id), Err(Error::UnsupportedCapacityCode(code)));
    }
}

#[test]
fn unit_addresses() {
    let info = device_info_from_jedec::<(), ()>(JedecId { manufacturer_code: 0xEF, memory_type: 0x40, capacity_code: 0x17 }).unwrap();
    assert_eq!(info.page_address(3), 768);
    assert_eq!(info.sector_address(2), 8192);
    assert_eq!(info.block_address(5), 5 * 65536);
    assert_eq!(info.page_count, 32768);
    assert_eq!(info.sector_count, 2048);
    assert_eq!(info.block_count, 128);
}

#[test]
fn address_headers() {
    let (h, n) = build_address_header(AddressMode::ThreeByte, 0x03, 0x13, 0x0012_3456);
    assert_eq!(n, 4);
    assert_eq!(h, [0x03, 0x12, 0x34, 0x56, 0x00]);
    let (h, n) = build_address_header(AddressMode::FourByte, 0x03, 0x13, 0x0112_3456);
    assert_eq!(n, 5);
    assert_eq!(h, [0x13, 0x01, 0x12, 0x34, 0x56]);
    let (h, n) = build_address_header(AddressMode::ThreeByte, 0x02, 0x12, 0xAB12_3456);
    assert_eq!(n, 4);
    assert_eq!(&h[..n], &[0x02, 0x12, 0x34, 0x56]);
}

#[test]
fn boundary_crossing() {
    assert!(!crosses_boundary(0, 0, 256));
    assert!(!crosses_boundary(0, 256, 256));
    assert!(crosses_boundary(0, 257, 256));
    assert!(crosses_boundary(255, 2, 256));
    assert!(!crosses_boundary(255, 1, 256));
    assert!(!crosses_boundary(256, 256, 256));
    assert!(crosses_boundary(4095, 2, 4096));
}

#[test]
fn new_and_release_and_device_info() {
    let flash: Flash = SpiFlash::new(7, 8, 9);
    assert_eq!(flash.device_info(), None);
    assert_eq!(flash.release(), (7, 8, 9));
    let flash = identified(0x17);
    assert_eq!(flash.device_info().unwrap().capacity_bytes, 8 * 1024 * 1024);
    assert_eq!(flash.release(), (1, 2, 3));
}

#[test]
fn part_accessors_reach_the_parts() {
    let mut flash: Flash = SpiFlash::new(7, 8, 9);
    *flash.spi_mut() = 70;
    *flash.cs_mut() = 80;
    *flash.delay_mut() = 90;
    assert_eq!(flash.device_info(), None);
    assert_eq!(flash.release(), (70, 80, 90));
}

#[test]
fn every_operation_needs_identification() {
    let flash: Flash = SpiFlash::new(0, 0, 0);
    assert_eq!(flash.require_info::<(), ()>(), Err(Error::NotInitialized));
    assert_eq!(flash.ensure_range::<(), ()>(0, 1), Err(Error::NotInitialized));
    assert!(matches!(flash.plan_erase_chip::<(), ()>(), Err(Error::NotInitialized)));
    assert!(matches!(flash.plan_erase_sector::<(), ()>(0), Err(Error::NotInitialized)));
    assert!(matches!(flash.plan_erase_block::<(), ()>(0), Err(Error::NotInitialized)));
    assert!(matches!(flash.plan_write_address::<(), ()>(0, &[1]), Err(Error::NotInitialized)));
    assert!(matches!(flash.plan_write_page::<(), ()>(0, 0, &[1]), Err(Error::NotInitialized)));
    assert!(matches!(flash.plan_write_sector::<(), ()>(0, 0, &[1]), Err(Error::NotInitialized)));
    assert!(matches!(flash.plan_write_block::<(), ()>(0, 0, &[1]), Err(Error::NotInitialized)));
    assert!(matches!(flash.plan_read_address::<(), ()>(0, 1), Err(Error::NotInitialized)));
    assert!(matches!(flash.plan_read_page::<(), ()>(0, 0, 1), Err(Error::NotInitialized)));
    assert!(matches!(flash.plan_read_sector::<(), ()>(0, 0, 1), Err(Error::NotInitialized)));
    assert!(matches!(flash.plan_read_block::<(), ()>(0, 0, 1), Err(Error::NotInitialized)));
}

#[test]
fn range_checks() {
    let flash = identified(0x11);
    let capacity = 128 * 1024;
    assert_eq!(flash.ensure_range::<(), ()>(0, capacity as usize), Ok(()));
    assert_eq!(flash.ensure_range::<(), ()>(capacity, 0), Ok(()));
    assert_eq!(flash.ensure_range::<(), ()>(capacity - 1, 2), Err(Error::OutOfBounds));
    assert_eq!(flash.ensure_range::<(), ()>(u32::MAX, 2), Err(Error::OutOfBounds));
    assert!(matches!(flash.plan_write_address::<(), ()>(capacity - 1, &[1, 2]), Err(Error::OutOfBounds)));
    assert!(matches!(flash.plan_read_address::<(), ()>(capacity, 1), Err(Error::OutOfBounds)));
}

#[test]
fn unit_bound_checks() {
    let flash = identified(0x11);
    assert!(matches!(flash.plan_erase_sector::<(), ()>(32), Err(Error::OutOfBounds)));
    assert!(matches!(flash.plan_erase_block::<(), ()>(2), Err(Error::OutOfBounds)));
    assert!(matches!(flash.plan_write_page::<(), ()>(512, 0, &[1]), Err(Error::OutOfBounds)));
    assert!(matches!(flash.plan_write_page::<(), ()>(0, 256, &[]), Err(Error::OutOfBounds)));
    assert!(matches!(flash.plan_write_sector::<(), ()>(0, 4095, &[1, 2]), Err(Error::OutOfBounds)));
    assert!(matches!(flash.plan_write_block::<(), ()>(1, 65535, &[1, 2]), Err(Error::OutOfBounds)));
    assert!(matches!(flash.plan_read_page::<(), ()>(0, 255, 2), Err(Error::OutOfBounds)));
    assert!(matches!(flash.plan_read_sector::<(), ()>(32, 0, 1), Err(Error::OutOfBounds)));
    assert!(matches!(flash.plan_read_block::<(), ()>(0, 65537, 0), Err(Error::OutOfBounds)));
    // an offset at the very end of a unit is accepted for an empty transfer
    let (log, r) = drive(flash.plan_read_page::<&str, &str>(0, 256, 0).unwrap(), happy);
    assert!(log.is_empty());
    assert_eq!(r, Ok(vec![]));
    let (log, r) = drive(flash.plan_write_sector::<&str, &str>(0, 4096, &[]).unwrap(), happy);
    assert!(log.is_empty());
    assert_eq!(r, Ok(vec![]));
}

#[test]
fn sector_erase_sends_address_and_polls() {
    let flash = identified(0x17);
    let (log, r) = drive(flash.plan_erase_sector::<&str, &str>(3).unwrap(), happy);
    let mut expected = tx(&[0x06]);
    expected.extend(tx(&[0x20, 0x00, 0x30, 0x00]));
    expected.extend(poll());
    assert_eq!(log, expected);
    assert_eq!(r, Ok(vec![]));
}

#[test]
fn block_erase_on_a_four_byte_part() {
    let flash = identified(0x19);
    let (log, r) = drive(flash.plan_erase_block::<&str, &str>(2).unwrap(), happy);
    let mut expected = tx(&[0x06]);
    expected.extend(tx(&[0xDC, 0x00, 0x02, 0x00, 0x00]));
    expected.extend(poll());
    assert_eq!(log, expected);
    assert_eq!(r, Ok(vec![]));
}

#[test]
fn chip_erase_waits_while_busy() {
    let flash = identified(0x11);
    let mut polls = 0;
    let (log, r) = drive(flash.plan_erase_chip::<&str, &str>().unwrap(), |a, _| match a {
        BusAction::Read(1) => {
            polls += 1;
            BusEvent::Data(vec![if polls < 3 { 0x03 } else { 0x02 }])
        }
        other => happy(other, 0),
    });
    let mut expected = tx(&[0x06]);
    expected.extend(tx(&[0x60]));
    expected.extend(poll());
    expected.push(Did::D(1));
    expected.extend(poll());
    expected.push(Did::D(1));
    expected.extend(poll());
    assert_eq!(log, expected);
    assert_eq!(r, Ok(vec![]));
}

#[test]
fn busy_part_times_out() {
    let plan = Plan { steps: vec![Step::AwaitReady(2)] };
    let (log, r) = drive(plan, |a, _| match a {
        BusAction::Read(1) => BusEvent::Data(vec![0x01]),
        other => happy(other, 0),
    });
    let mut expected = poll();
    expected.push(Did::D(1));
    expected.extend(poll());
    expected.push(Did::D(1));
    expected.extend(poll());
    assert_eq!(log, expected);
    assert_eq!(r, Err(Error::BusyTimeout));
}

#[test]
fn read_returns_the_bytes_read() {
    let flash = identified(0x17);
    let (log, r) = drive(flash.plan_read_address::<&str, &str>(0x0102, 3).unwrap(), |a, _| match a {
        BusAction::Read(3) => BusEvent::Data(vec![9, 8, 7]),
        other => happy(other, 0),
    });
    assert_eq!(log, vec![Did::Low, Did::W(vec![0x03, 0x00, 0x01, 0x02]), Did::R(3), Did::F, Did::High]);
    assert_eq!(r, Ok(vec![9, 8, 7]));
    let (log, _) = drive(flash.plan_read_sector::<&str, &str>(1, 4, 2).unwrap(), happy);
    assert_eq!(log[1], Did::W(vec![0x03, 0x00, 0x10, 0x04]));
    let (log, _) = drive(flash.plan_read_block::<&str, &str>(1, 4, 2).unwrap(), happy);
    assert_eq!(log[1], Did::W(vec![0x03, 0x01, 0x00, 0x04]));
    let (log, _) = drive(flash.plan_read_page::<&str, &str>(2, 1, 2).unwrap(), happy);
    assert_eq!(log[1], Did::W(vec![0x03, 0x00, 0x02, 0x01]));
}

#[test]
fn four_byte_parts_use_four_byte_commands() {
    let flash = identified(0x20);
    let (log, _) = drive(flash.plan_read_address::<&str, &str>(0x0200_0000, 1).unwrap(), happy);
    assert_eq!(log[1], Did::W(vec![0x13, 0x02, 0x00, 0x00, 0x00]));
    let (log, _) = drive(flash.plan_write_page::<&str, &str>(1, 0, &[5]).unwrap(), happy);
    assert_eq!(log[5], Did::W(vec![0x12, 0x00, 0x00, 0x01, 0x00]));
    assert_eq!(log[6], Did::W(vec![5]));
}

#[test]
fn bus_error_releases_the_part_then_fails() {
    let flash = identified(0x17);
    let (log, r) = drive(flash.plan_read_address::<&str, &str>(0, 4).unwrap(), |a, _| match a {
        BusAction::Read(_) => BusEvent::SpiFault("bus"),
        other => happy(other, 0),
    });
    assert_eq!(log, vec![Did::Low, Did::W(vec![0x03, 0, 0, 0]), Did::R(4), Did::High]);
    assert_eq!(r, Err(Error::Spi("bus")));
}

#[test]
fn pin_error_on_select_stops_at_once() {
    let flash = identified(0x17);
    let (log, r) = drive(flash.plan_erase_sector::<&str, &str>(0).unwrap(), |a, _| match a {
        BusAction::Select => BusEvent::PinFault("pin"),
        other => happy(other, 0),
    });
    assert_eq!(log, vec![Did::Low]);
    assert_eq!(r, Err(Error::Pin("pin")));
}

#[test]
fn pin_error_on_release_wins_over_bus_error() {
    let flash = identified(0x17);
    let (log, r) = drive(flash.plan_erase_sector::<&str, &str>(0).unwrap(), |a, _| match a {
        BusAction::Write(_) => BusEvent::SpiFault("bus"),
        BusAction::Deselect => BusEvent::PinFault("pin"),
        other => happy(other, 0),
    });
    assert_eq!(log, vec![Did::Low, Did::W(vec![0x06]), Did::High]);
    assert_eq!(r, Err(Error::Pin("pin")));
}

#[test]
fn write_spanning_three_pages_is_cut_at_page_ends() {
    let flash = identified(0x17);
    let data: Vec<u8> = (0..600u32).map(|i| i as u8).collect();
    let (log, r) = drive(flash.plan_write_address::<&str, &str>(0x1F0, &data).unwrap(), happy);
    assert_eq!(r, Ok(vec![]));
    let headers: Vec<Vec<u8>> = log
        .iter()
        .filter_map(|d| match d {
            Did::W(b) if b.len() == 4 && b[0] == 0x02 => Some(b.clone()),
            _ => None,
        })
        .collect();
    assert_eq!(
        headers,
        vec![vec![0x02, 0, 0x01, 0xF0], vec![0x02, 0, 0x02, 0x00], vec![0x02, 0, 0x03, 0x00], vec![0x02, 0, 0x04, 0x00]]
    );
    let mut written = Vec::new();
    let mut sizes = Vec::new();
    for w in log.windows(2) {
        if let (Did::W(h), Did::W(d)) = (&w[0], &w[1]) {
            if h[0] == 0x02 {
                written.extend(d.clone());
                sizes.push(d.len());
            }
        }
    }
    assert_eq!(sizes, vec![16, 256, 256, 72]);
    assert_eq!(written, data);
}

#[test]
fn write_page_and_write_address_agree_within_a_page() {
    let flash = identified(0x17);
    let data = [1u8, 2, 3];
    let (a, _) = drive(flash.plan_write_page::<&str, &str>(4, 10, &data).unwrap(), happy);
    let (b, _) = drive(flash.plan_write_address::<&str, &str>(4 * 256 + 10, &data).unwrap(), happy);
    assert_eq!(a, b);
    let (c, _) = drive(flash.plan_write_sector::<&str, &str>(0, 4 * 256 + 10, &data).unwrap(), happy);
    assert_eq!(a, c);
    let (d, _) = drive(flash.plan_write_block::<&str, &str>(0, 4 * 256 + 10, &data).unwrap(), happy);
    assert_eq!(a, d);
}

#[test]
fn empty_writes_touch_nothing() {
    let flash = identified(0x17);
    let (log, r) = drive(flash.plan_write_page::<&str, &str>(0, 0, &[]).unwrap(), happy);
    assert!(log.is_empty());
    assert_eq!(r, Ok(vec![]));
    let (log, _) = drive(flash.plan_write_address::<&str, &str>(0, &[]).unwrap(), happy);
    assert!(log.is_empty());
}

#[test]
fn failed_identification_keeps_the_driver_uninitialized() {
    let mut flash: Flash = SpiFlash::new(0, 0, 0);
    let plan = flash.plan_initialize();
    let (_, outcome) = drive(plan, |a, _| match a {
        BusAction::Read(3) => BusEvent::Data(vec![0xEF, 0x40, 0x33]),
        other => happy(other, 0),
    });
    assert_eq!(flash.finish_initialize(outcome), Err(Error::UnsupportedCapacityCode(0x33)));
    assert_eq!(flash.device_info(), None);
    assert_eq!(flash.finish_initialize::<&str, &str>(Err(Error::Spi("bus"))), Err(Error::Spi("bus")));
    assert_eq!(flash.device_info(), None);
}

#[test]
fn failed_identification_keeps_a_known_part() {
    let mut flash = identified(0x17);
    assert_eq!(flash.finish_initialize::<&str, &str>(Err(Error::Pin("pin"))), Err(Error::Pin("pin")));
    assert_eq!(flash.device_info().unwrap().capacity_bytes, 8 * 1024 * 1024);
}

#[test]
fn the_last_successful_identification_is_remembered() {
    let mut flash = identified(0x17);
    let plan = flash.plan_initialize();
    let (_, outcome) = drive(plan, |a, _| match a {
        BusAction::Read(3) => BusEvent::Data(vec![0xC8, 0x40, 0x19]),
        other => happy(other, 0),
    });
    let info = flash.finish_initialize(outcome).unwrap();
    assert_eq!(flash.finish_initialize::<&str, &str>(Err(Error::BusyTimeout)), Err(Error::BusyTimeout));
    assert_eq!(flash.device_info(), Some(info));
    assert_eq!(info.capacity_bytes, 32 * 1024 * 1024);
    assert_eq!(flash.release(), (1, 2, 3));
}

#[test]
fn jedec_id_read() {
    let flash: Flash = SpiFlash::new(0, 0, 0);
    let (log, outcome) = drive(flash.plan_read_jedec_id(), |a, _| match a {
        BusAction::Read(3) => BusEvent::Data(vec![0xC2, 0x20, 0x18]),
        other => happy(other, 0),
    });
    assert_eq!(log, vec![Did::Low, Did::W(vec![0x9F]), Did::R(3), Did::F, Did::High]);
    assert_eq!(jedec_id_from(outcome), Ok(JedecId { manufacturer_code: 0xC2, memory_type: 0x20, capacity_code: 0x18 }));
    assert_eq!(jedec_id_from::<(), ()>(Err(Error::BusyTimeout)), Err(Error::BusyTimeout));
}

#[test]
fn executor_accepts_only_fitting_replies() {
    let flash = identified(0x17);
    let executor: Executor<&str, &str> = Executor::new(flash.plan_read_address::<&str, &str>(0, 2).unwrap());
    assert!(matches!(executor.action(), BusAction::Select));
    assert!(executor.accepts(&BusEvent::Done));
    assert!(executor.accepts(&BusEvent::PinFault("p")));
    assert!(!executor.accepts(&BusEvent::SpiFault("s")));
    assert!(!executor.accepts(&BusEvent::Data(vec![1])));
    assert!(!executor.is_finished());
}

#[test]
fn plans_run_in_order_and_an_empty_plan_succeeds() {
    let plan = Plan { steps: vec![Step::Pause(5), Step::Release] };
    let (log, r) = drive(plan, happy);
    assert_eq!(log, vec![Did::D(5), Did::High]);
    assert_eq!(r, Ok(vec![]));
    let (log, r) = drive(Plan { steps: vec![] }, happy);
    assert!(log.is_empty());
    assert_eq!(r, Ok(vec![]));
}

#[test]
fn lengths_beyond_32_bits_are_out_of_bounds() {
    let flash = identified(0x17);
    let huge: usize = (u32::MAX as usize).wrapping_add(1);
    if huge == 0 {
        return;
    }
    assert_eq!(flash.ensure_range::<(), ()>(0, huge), Err(Error::OutOfBounds));
    assert_eq!(flash.ensure_range::<(), ()>(0, huge + 1), Err(Error::OutOfBounds));
    assert!(matches!(flash.plan_read_address::<(), ()>(0, huge), Err(Error::OutOfBounds)));
    assert!(matches!(flash.plan_read_page::<(), ()>(0, 0, huge + 1), Err(Error::OutOfBounds)));
    assert!(matches!(flash.plan_read_sector::<(), ()>(0, 0, huge + 1), Err(Error::OutOfBounds)));
    assert!(matches!(flash.plan_read_block::<(), ()>(0, 0, huge + 1), Err(Error::OutOfBounds)));
    assert!(!crosses_boundary(0, 0, 256));
    assert!(crosses_boundary(0, huge, 256));
}

#[test]
fn planned_operations_fit_the_executor() {
    let flash = identified(0x17);
    assert!(flash.plan_initialize().fits());
    assert!(flash.plan_write_address::<(), ()>(0xF0, &[0u8; 700]).unwrap().fits());
    assert!(flash.plan_erase_chip::<(), ()>().unwrap().fits());
    assert!(Plan { steps: vec![] }.fits());
}

#[test]
fn copies_are_equal() {
    let v = vec![1u8, 2, 3];
    assert_eq!(copy_bytes(&v), v);
    assert_eq!(copy_bytes(&Vec::new()), Vec::<u8>::new());
}
