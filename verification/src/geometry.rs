use vstd::prelude::*;
use vstd::arithmetic::power2::pow2;
use vstd::arithmetic::power2::lemma2_to64;

use crate::error::Error;

verus! {

/// Size of one programmable page in bytes.
pub const PAGE_SIZE: u32 = 256;
/// Size of the smallest erasable unit (a sector) in bytes.
pub const SECTOR_SIZE: u32 = 4096;
/// Size of a block in bytes.
pub const BLOCK_SIZE: u32 = 65536;
/// Largest capacity still reachable with three address bytes.
pub const THREE_BYTE_LIMIT: u32 = 16777216;

/// Vendor of a flash part, as told by the first byte of its JEDEC id.
#[derive(Clone, Copy, Debug, PartialEq, Eq, Structural)]
pub enum Manufacturer {
    Unknown(u8),
    Winbond,
    Issi,
    Micron,
    GigaDevice,
    Macronix,
    Spansion,
    Amic,
    Sst,
    Hyundai,
    Atmel,
    Fudan,
    Esmt,
    Intel,
    Sanyo,
    Fujitsu,
    Eon,
    Puya,
}

/// The JEDEC manufacturer table: which vendor each known code names.
pub open spec fn manufacturer_of(code: u8) -> Manufacturer {
    if code == 0xEF { Manufacturer::Winbond }
    else if code == 0x9D { Manufacturer::Issi }
    else if code == 0x20 { Manufacturer::Micron }
    else if code == 0xC8 { Manufacturer::GigaDevice }
    else if code == 0xC2 { Manufacturer::Macronix }
    else if code == 0x01 { Manufacturer::Spansion }
    else if code == 0x37 { Manufacturer::Amic }
    else if code == 0xBF { Manufacturer::Sst }
    else if code == 0xAD { Manufacturer::Hyundai }
    else if code == 0x1F { Manufacturer::Atmel }
    else if code == 0xA1 { Manufacturer::Fudan }
    else if code == 0x8C { Manufacturer::Esmt }
    else if code == 0x89 { Manufacturer::Intel }
    else if code == 0x62 { Manufacturer::Sanyo }
    else if code == 0x04 { Manufacturer::Fujitsu }
    else if code == 0x1C { Manufacturer::Eon }
    else if code == 0x85 { Manufacturer::Puya }
    else { Manufacturer::Unknown(code) }
}

impl Manufacturer {
    /// Decodes the manufacturer byte of a JEDEC id.
    pub fn from_jedec(code: u8) -> (m: Manufacturer)
        ensures
            m == manufacturer_of(code),
    {
        match code {
            0xEF => Manufacturer::Winbond,
            0x9D => Manufacturer::Issi,
            0x20 => Manufacturer::Micron,
            0xC8 => Manufacturer::GigaDevice,
            0xC2 => Manufacturer::Macronix,
            0x01 => Manufacturer::Spansion,
            0x37 => Manufacturer::Amic,
            0xBF => Manufacturer::Sst,
            0xAD => Manufacturer::Hyundai,
            0x1F => Manufacturer::Atmel,
            0xA1 => Manufacturer::Fudan,
            0x8C => Manufacturer::Esmt,
            0x89 => Manufacturer::Intel,
            0x62 => Manufacturer::Sanyo,
            0x04 => Manufacturer::Fujitsu,
            0x1C => Manufacturer::Eon,
            0x85 => Manufacturer::Puya,
            other => Manufacturer::Unknown(other),
        }
    }
}

/// Decoding a manufacturer byte loses nothing: distinct codes name distinct
/// manufacturers, and a code outside the table comes back as `Unknown` of itself.
pub proof fn lemma_manufacturer_injective(a: u8, b: u8)
    ensures
        manufacturer_of(a) == manufacturer_of(b) ==> a == b,
        manufacturer_of(a) matches Manufacturer::Unknown(c) ==> c == a,
{
}

/// Width of the address that the command set of a part expects.
#[derive(Clone, Copy, Debug, PartialEq, Eq, Structural)]
pub enum AddressMode {
    ThreeByte,
    FourByte,
}

/// The three bytes that a part answers to the JEDEC id command.
#[derive(Clone, Copy, Debug, PartialEq, Eq, Structural)]
pub struct JedecId {
    pub manufacturer_code: u8,
    pub memory_type: u8,
    pub capacity_code: u8,
}

/// What the driver knows of an identified part.
#[derive(Clone, Copy, Debug, PartialEq, Eq, Structural)]
pub struct DeviceInfo {
    pub jedec_id: JedecId,
    pub manufacturer: Manufacturer,
    pub address_mode: AddressMode,
    pub capacity_bytes: u32,
    pub page_count: u32,
    pub sector_count: u32,
    pub block_count: u32,
}

impl DeviceInfo {
    /// Byte address of the first byte of page `page`.
    pub fn page_address(&self, page: u32) -> (a: u32)
        requires
            page * PAGE_SIZE <= u32::MAX,
        ensures
            a == page * PAGE_SIZE,
    {
        page * PAGE_SIZE
    }

    /// Byte address of the first byte of sector `sector`.
    pub fn sector_address(&self, sector: u32) -> (a: u32)
        requires
            sector * SECTOR_SIZE <= u32::MAX,
        ensures
            a == sector * SECTOR_SIZE,
    {
        sector * SECTOR_SIZE
    }

    /// Byte address of the first byte of block `block`.
    pub fn block_address(&self, block: u32) -> (a: u32)
        requires
            block * BLOCK_SIZE <= u32::MAX,
        ensures
            a == block * BLOCK_SIZE,
    {
        block * BLOCK_SIZE
    }
}

/// Capacity in bytes that a JEDEC density code announces: `2^code` bytes for
/// the codes 0x11 to 0x19, 64 MiB for 0x20, and nothing for any other code.
pub open spec fn capacity_of(code: u8) -> Option<nat> {
    if 0x11 <= code <= 0x19 {
        Some(pow2(code as nat))
    } else if code == 0x20 {
        Some(pow2(26))
    } else {
        None
    }
}

/// The geometry that follows from a capacity.
pub open spec fn geometry_of(jedec_id: JedecId, capacity: nat) -> DeviceInfo {
    DeviceInfo {
        jedec_id,
        manufacturer: manufacturer_of(jedec_id.manufacturer_code),
        address_mode: if capacity > THREE_BYTE_LIMIT { AddressMode::FourByte } else { AddressMode::ThreeByte },
        capacity_bytes: capacity as u32,
        page_count: (capacity / PAGE_SIZE as nat) as u32,
        sector_count: (capacity / SECTOR_SIZE as nat) as u32,
        block_count: (capacity / BLOCK_SIZE as nat) as u32,
    }
}

/// The invariant of every `DeviceInfo` that identification produces: a
/// power-of-two capacity from 128 KiB to 64 MiB, whole counts of pages,
/// sectors and blocks that tile it exactly, and four-byte addressing exactly
/// above 16 MiB.
pub open spec fn info_wf(info: DeviceInfo) -> bool {
    &&& exists|e: nat| 17 <= e <= 26 && info.capacity_bytes == pow2(e)
    &&& 131072 <= info.capacity_bytes <= 67108864
    &&& info.page_count * PAGE_SIZE == info.capacity_bytes
    &&& info.sector_count * SECTOR_SIZE == info.capacity_bytes
    &&& info.block_count * BLOCK_SIZE == info.capacity_bytes
    &&& (info.address_mode == AddressMode::FourByte <==> info.capacity_bytes > THREE_BYTE_LIMIT)
    &&& info.manufacturer == manufacturer_of(info.jedec_id.manufacturer_code)
}

/// Identifies a part from its JEDEC id: the capacity from the density code,
/// the geometry and address width from the capacity.
pub fn device_info_from_jedec<SpiError, PinError>(jedec_id: JedecId) -> (r: Result<DeviceInfo, Error<SpiError, PinError>>)
    ensures
        match capacity_of(jedec_id.capacity_code) {
            Some(c) => r == Ok::<DeviceInfo, Error<SpiError, PinError>>(geometry_of(jedec_id, c)),
            None => r == Err::<DeviceInfo, Error<SpiError, PinError>>(Error::UnsupportedCapacityCode(jedec_id.capacity_code)),
        },
        r matches Ok(info) ==> info_wf(info),
{
    proof {
        lemma2_to64();
    }
    let capacity_bytes: u32 = match jedec_id.capacity_code {
        0x11 => 128 * 1024,
        0x12 => 256 * 1024,
        0x13 => 512 * 1024,
        0x14 => 1 * 1024 * 1024,
        0x15 => 2 * 1024 * 1024,
        0x16 => 4 * 1024 * 1024,
        0x17 => 8 * 1024 * 1024,
        0x18 => 16 * 1024 * 1024,
        0x19 => 32 * 1024 * 1024,
        0x20 => 64 * 1024 * 1024,
        other => return Err(Error::UnsupportedCapacityCode(other)),
    };
    let address_mode = if capacity_bytes > THREE_BYTE_LIMIT {
        AddressMode::FourByte
    } else {
        AddressMode::ThreeByte
    };
    let info = DeviceInfo {
        jedec_id,
        manufacturer: Manufacturer::from_jedec(jedec_id.manufacturer_code),
        address_mode,
        capacity_bytes,
        page_count: capacity_bytes / PAGE_SIZE,
        sector_count: capacity_bytes / SECTOR_SIZE,
        block_count: capacity_bytes / BLOCK_SIZE,
    };
    proof {
        let code = jedec_id.capacity_code;
        let e: nat = if code == 0x20 { 26 } else { code as nat };
        assert(capacity_bytes == pow2(e));
    }
    Ok(info)
}

} // verus!
