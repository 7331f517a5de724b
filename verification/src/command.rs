use vstd::prelude::*;

use crate::geometry::AddressMode;

verus! {

pub const CMD_READ_JEDEC_ID: u8 = 0x9F;
pub const CMD_WRITE_DISABLE: u8 = 0x04;
pub const CMD_READ_STATUS1: u8 = 0x05;
pub const CMD_WRITE_ENABLE: u8 = 0x06;
pub const CMD_PAGE_PROGRAM_3B: u8 = 0x02;
pub const CMD_PAGE_PROGRAM_4B: u8 = 0x12;
pub const CMD_READ_DATA_3B: u8 = 0x03;
pub const CMD_READ_DATA_4B: u8 = 0x13;
pub const CMD_SECTOR_ERASE_3B: u8 = 0x20;
pub const CMD_SECTOR_ERASE_4B: u8 = 0x21;
pub const CMD_BLOCK_ERASE_3B: u8 = 0xD8;
pub const CMD_BLOCK_ERASE_4B: u8 = 0xDC;
pub const CMD_CHIP_ERASE: u8 = 0x60;

/// Bit of status register 1 that is set while the part is busy.
pub const STATUS_BUSY: u8 = 1;

/// Byte `k` (counted from the least significant) of `address`.
pub open spec fn address_byte(address: u32, k: nat) -> u8 {
    ((address as int / vstd::arithmetic::power::pow(256, k)) % 256) as u8
}

/// The bytes that open a command with an address argument: the command byte
/// for the address width, then the address, most significant byte first,
/// in three or four bytes.
pub open spec fn address_header(mode: AddressMode, command_3b: u8, command_4b: u8, address: u32) -> Seq<u8> {
    match mode {
        AddressMode::ThreeByte => seq![
            command_3b,
            address_byte(address, 2),
            address_byte(address, 1),
            address_byte(address, 0),
        ],
        AddressMode::FourByte => seq![
            command_4b,
            address_byte(address, 3),
            address_byte(address, 2),
            address_byte(address, 1),
            address_byte(address, 0),
        ],
    }
}

/// The number that a byte string spells, most significant byte first.
pub open spec fn big_endian(bytes: Seq<u8>) -> nat
    decreases bytes.len(),
{
    if bytes.len() == 0 {
        0
    } else {
        big_endian(bytes.drop_last()) * 256 + bytes.last() as nat
    }
}

proof fn lemma_byte_shift(address: u32)
    ensures
        (address >> 24) & 0xFF == address_byte(address, 3),
        (address >> 16) & 0xFF == address_byte(address, 2),
        (address >> 8) & 0xFF == address_byte(address, 1),
        address & 0xFF == address_byte(address, 0),
{
    vstd::arithmetic::power::lemma_pow0(256);
    vstd::arithmetic::power::lemma_pow1(256);
    assert(vstd::arithmetic::power::pow(256, 2) == 65536) by {
        vstd::arithmetic::power::lemma_pow_adds(256, 1, 1);
    }
    assert(vstd::arithmetic::power::pow(256, 3) == 16777216) by {
        vstd::arithmetic::power::lemma_pow_adds(256, 2, 1);
    }
    assert((address >> 24) & 0xFF == (address / 16777216) % 256) by (bit_vector);
    assert((address >> 16) & 0xFF == (address / 65536) % 256) by (bit_vector);
    assert((address >> 8) & 0xFF == (address / 256) % 256) by (bit_vector);
    assert(address & 0xFF == address % 256) by (bit_vector);
}

/// Frames the command byte and address of an addressed command.
///
/// Returns a five-byte buffer and how many of its bytes make the header; the
/// unused last byte of a three-byte header is zero.
pub fn build_address_header(address_mode: AddressMode, command_3b: u8, command_4b: u8, address: u32) -> (r: ([u8; 5], usize))
    ensures
        r.1 == address_header(address_mode, command_3b, command_4b, address).len(),
        r.0@.take(r.1 as int) == address_header(address_mode, command_3b, command_4b, address),
        address_mode == AddressMode::ThreeByte ==> r.0@[4] == 0,
{
    proof {
        lemma_byte_shift(address);
    }
    let r = match address_mode {
        AddressMode::ThreeByte => (
            [
                command_3b,
                ((address >> 16) & 0xFF) as u8,
                ((address >> 8) & 0xFF) as u8,
                (address & 0xFF) as u8,
                0,
            ],
            4,
        ),
        AddressMode::FourByte => (
            [
                command_4b,
                ((address >> 24) & 0xFF) as u8,
                ((address >> 16) & 0xFF) as u8,
                ((address >> 8) & 0xFF) as u8,
                (address & 0xFF) as u8,
            ],
            5,
        ),
    };
    assert(r.0@.take(r.1 as int) =~= address_header(address_mode, command_3b, command_4b, address));
    r
}

/// The address that a header carries is the address it was built from: all
/// of it in four-byte mode, its low 24 bits in three-byte mode.
pub proof fn lemma_header_round_trip(mode: AddressMode, command_3b: u8, command_4b: u8, address: u32)
    ensures
        ({
            let h = address_header(mode, command_3b, command_4b, address);
            &&& h[0] == (if mode == AddressMode::ThreeByte { command_3b } else { command_4b })
            &&& big_endian(h.drop_first()) == match mode {
                AddressMode::ThreeByte => address as nat % 16777216,
                AddressMode::FourByte => address as nat,
            }
        }),
{
    let h = address_header(mode, command_3b, command_4b, address);
    lemma_byte_shift(address);
    let b3 = (address >> 24) & 0xFF;
    let b2 = (address >> 16) & 0xFF;
    let b1 = (address >> 8) & 0xFF;
    let b0 = address & 0xFF;
    assert(b2 * 65536 + b1 * 256 + b0 == address % 16777216) by (bit_vector)
        requires
            b2 == (address >> 16) & 0xFF,
            b1 == (address >> 8) & 0xFF,
            b0 == address & 0xFF,
    ;
    assert(b3 * 16777216 + b2 * 65536 + b1 * 256 + b0 == address) by (bit_vector)
        requires
            b3 == (address >> 24) & 0xFF,
            b2 == (address >> 16) & 0xFF,
            b1 == (address >> 8) & 0xFF,
            b0 == address & 0xFF,
    ;
    let t = h.drop_first();
    let e = Seq::<u8>::empty();
    lemma_big_endian_push(e, address_byte(address, 3));
    lemma_big_endian_push(e, address_byte(address, 2));
    lemma_big_endian_push(seq![address_byte(address, 3)], address_byte(address, 2));
    lemma_big_endian_push(seq![address_byte(address, 2)], address_byte(address, 1));
    lemma_big_endian_push(seq![address_byte(address, 3), address_byte(address, 2)], address_byte(address, 1));
    lemma_big_endian_push(seq![address_byte(address, 2), address_byte(address, 1)], address_byte(address, 0));
    lemma_big_endian_push(
        seq![address_byte(address, 3), address_byte(address, 2), address_byte(address, 1)],
        address_byte(address, 0),
    );
    assert(seq![address_byte(address, 2)] =~= e.push(address_byte(address, 2)));
    assert(seq![address_byte(address, 3)] =~= e.push(address_byte(address, 3)));
    assert(seq![address_byte(address, 2), address_byte(address, 1)] =~= seq![address_byte(address, 2)].push(
        address_byte(address, 1),
    ));
    assert(seq![address_byte(address, 3), address_byte(address, 2)] =~= seq![address_byte(address, 3)].push(
        address_byte(address, 2),
    ));
    assert(seq![address_byte(address, 3), address_byte(address, 2), address_byte(address, 1)] =~= seq![
        address_byte(address, 3),
        address_byte(address, 2),
    ].push(address_byte(address, 1)));
    match mode {
        AddressMode::ThreeByte => {
            assert(t =~= seq![address_byte(address, 2), address_byte(address, 1)].push(address_byte(address, 0)));
        },
        AddressMode::FourByte => {
            assert(t =~= seq![address_byte(address, 3), address_byte(address, 2), address_byte(address, 1)].push(
                address_byte(address, 0),
            ));
        },
    }
}

proof fn lemma_big_endian_push(s: Seq<u8>, b: u8)
    ensures
        big_endian(s.push(b)) == big_endian(s) * 256 + b as nat,
        s.len() == 0 ==> big_endian(s) == 0,
{
    assert(s.push(b).drop_last() =~= s);
}

/// Whether the range of `len` bytes from `address` touches two units of
/// `boundary` bytes.
pub open spec fn spec_crosses_boundary(address: u32, len: nat, boundary: u32) -> bool {
    len != 0 && address as int / boundary as int != (address + len - 1) / boundary as int
}

/// Whether a range of bytes spans a `boundary`-aligned unit boundary.
pub fn crosses_boundary(address: u32, len: usize, boundary: u32) -> (r: bool)
    requires
        boundary > 0,
        len != 0 ==> address + len - 1 <= u64::MAX,
    ensures
        r == spec_crosses_boundary(address, len as nat, boundary),
{
    if len == 0 {
        return false;
    }
    let last: u64 = address as u64 + (len - 1) as u64;
    (address as u64 / boundary as u64) != (last / boundary as u64)
}

} // verus!
