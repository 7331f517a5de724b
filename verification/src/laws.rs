//! What each operation sends to the part, stated in terms of its arguments:
//! the opcodes of the datasheet command set, the address each command
//! carries, and how the unit-relative operations relate to the operations by
//! address.

use vstd::prelude::*;

use crate::command::{address_header, big_endian, lemma_header_round_trip};
use crate::error::Error;
use crate::flash::{
    initialize_plan, jedec_of, page_split, program_pieces, spec_initialize_result, read_jedec_id_plan, spec_erase_block, spec_erase_chip,
    spec_erase_sector, spec_read_address, spec_read_block, spec_read_page, spec_read_sector,
    spec_write_address, spec_write_block, spec_write_page, spec_write_sector,
};
use crate::geometry::{AddressMode, DeviceInfo, JedecId, info_wf, manufacturer_of};
use crate::command::spec_crosses_boundary;
use vstd::arithmetic::power2::pow2;
use crate::plan::{ActionView, PlanView, StepView, step_actions};
use crate::executor::{RunView, is_busy};

verus! {

/// Whether `h` is the header of an addressed command: opcode `command`, then
/// `address`, most significant byte first, in three bytes on a three-byte
/// part and four on a four-byte part.
pub open spec fn is_header(h: Seq<u8>, mode: AddressMode, command: u8, address: nat) -> bool {
    &&& h.len() == (if mode == AddressMode::ThreeByte { 4nat } else { 5nat })
    &&& h[0] == command
    &&& big_endian(h.drop_first()) == address
}

/// The opcode for the part's address width.
pub open spec fn opcode(mode: AddressMode, three_byte: u8, four_byte: u8) -> u8 {
    if mode == AddressMode::ThreeByte { three_byte } else { four_byte }
}

/// The write-enable transaction (opcode 0x06).
pub open spec fn write_enable() -> StepView {
    StepView::Exchange(seq![seq![0x06u8]], 0)
}

/// Every address below the capacity of a three-byte part fits in 24 bits.
proof fn lemma_header_is(info: DeviceInfo, c3: u8, c4: u8, address: u32)
    requires
        info_wf(info),
        address < info.capacity_bytes,
    ensures
        is_header(address_header(info.address_mode, c3, c4, address), info.address_mode, opcode(info.address_mode, c3, c4), address as nat),
{
    lemma_header_round_trip(info.address_mode, c3, c4, address);
}

/// Identification releases chip select, waits 20 ms, sends write disable
/// (0x04), then sends the JEDEC id command (0x9F) and reads three bytes.
pub proof fn law_initialize_plan()
    ensures
        initialize_plan().steps == seq![
            StepView::Release,
            StepView::Pause(20),
            StepView::Exchange(seq![seq![0x04u8]], 0),
            StepView::Exchange(seq![seq![0x9Fu8]], 3),
        ],
        read_jedec_id_plan().steps == seq![StepView::Exchange(seq![seq![0x9Fu8]], 3)],
{
}

/// A chip erase sends write enable, the chip-erase command (0x60), then
/// waits for the part for up to 1000 ms per block.
pub proof fn law_erase_chip<E1, E2>(info: DeviceInfo)
    requires
        info_wf(info),
    ensures
        spec_erase_chip::<E1, E2>(Some(info)) == Ok::<PlanView, Error<E1, E2>>(PlanView {
            steps: seq![
                write_enable(),
                StepView::Exchange(seq![seq![0x60u8]], 0),
                StepView::AwaitReady((info.block_count * 1000) as u32),
            ],
        }),
        spec_erase_chip::<E1, E2>(None) == Err::<PlanView, Error<E1, E2>>(Error::NotInitialized),
{
}

/// A sector erase of sector `s` sends write enable, then the sector-erase
/// opcode of the part's address width (0x20, or 0x21 on a four-byte part)
/// with the address `s * 4096`, then waits up to 1000 ms; a sector beyond
/// the part is refused with `OutOfBounds`.
pub proof fn law_erase_sector<E1, E2>(info: DeviceInfo, sector: u32)
    requires
        info_wf(info),
    ensures
        sector < info.sector_count ==> (spec_erase_sector::<E1, E2>(Some(info), sector) matches Ok(p) && {
            &&& p.steps.len() == 3
            &&& p.steps[0] == write_enable()
            &&& p.steps[1] matches StepView::Exchange(w, r) && r == 0 && w.len() == 1
                && is_header(w[0], info.address_mode, opcode(info.address_mode, 0x20, 0x21), sector as nat * 4096)
            &&& p.steps[2] == StepView::AwaitReady(1000)
        }),
        sector >= info.sector_count ==> spec_erase_sector::<E1, E2>(Some(info), sector) == Err::<PlanView, Error<E1, E2>>(Error::OutOfBounds),
{
    if sector < info.sector_count {
        lemma_header_is(info, 0x20, 0x21, (sector * 4096) as u32);
    }
}

/// A block erase of block `b` sends write enable, then the block-erase
/// opcode of the part's address width (0xD8, or 0xDC on a four-byte part)
/// with the address `b * 65536`, then waits up to 3000 ms; a block beyond
/// the part is refused with `OutOfBounds`.
pub proof fn law_erase_block<E1, E2>(info: DeviceInfo, block: u32)
    requires
        info_wf(info),
    ensures
        block < info.block_count ==> (spec_erase_block::<E1, E2>(Some(info), block) matches Ok(p) && {
            &&& p.steps.len() == 3
            &&& p.steps[0] == write_enable()
            &&& p.steps[1] matches StepView::Exchange(w, r) && r == 0 && w.len() == 1
                && is_header(w[0], info.address_mode, opcode(info.address_mode, 0xD8, 0xDC), block as nat * 65536)
            &&& p.steps[2] == StepView::AwaitReady(3000)
        }),
        block >= info.block_count ==> spec_erase_block::<E1, E2>(Some(info), block) == Err::<PlanView, Error<E1, E2>>(Error::OutOfBounds),
{
    if block < info.block_count {
        lemma_header_is(info, 0xD8, 0xDC, (block * 65536) as u32);
    }
}

/// A read of `n > 0` bytes within the part is one transaction: the read
/// opcode of the part's address width (0x03, or 0x13 on a four-byte part)
/// with the address, then `n` bytes in. A read that ends beyond the part is
/// refused with `OutOfBounds`.
pub proof fn law_read_address<E1, E2>(info: DeviceInfo, address: u32, n: nat)
    requires
        info_wf(info),
    ensures
        0 < n && address + n <= info.capacity_bytes ==> (spec_read_address::<E1, E2>(Some(info), address, n) matches Ok(p) && {
            &&& p.steps.len() == 1
            &&& p.steps[0] matches StepView::Exchange(w, r) && r == n && w.len() == 1
                && is_header(w[0], info.address_mode, opcode(info.address_mode, 0x03, 0x13), address as nat)
        }),
        n == 0 && address <= info.capacity_bytes ==> (spec_read_address::<E1, E2>(Some(info), address, n) matches Ok(p) && p.steps.len() == 0),
        address + n > info.capacity_bytes ==> spec_read_address::<E1, E2>(Some(info), address, n) == Err::<PlanView, Error<E1, E2>>(Error::OutOfBounds),
{
    if 0 < n && address + n <= info.capacity_bytes {
        lemma_header_is(info, 0x03, 0x13, address);
    }
}

/// A write of nonempty `data` within the part starts with a page program of
/// its first piece: write enable, the program opcode of the part's address
/// width (0x02, or 0x12 on a four-byte part) with the write's own address,
/// the bytes up to the end of that page, then a wait of up to 100 ms.
pub proof fn law_write_address_first_program<E1, E2>(info: DeviceInfo, address: u32, data: Seq<u8>)
    requires
        info_wf(info),
        0 < data.len(),
        address + data.len() <= info.capacity_bytes,
    ensures
        spec_write_address::<E1, E2>(Some(info), address, data) matches Ok(p) && {
            let n = if data.len() <= 256 - address % 256 { data.len() as int } else { 256 - address % 256 };
            &&& p.steps.len() >= 3
            &&& p.steps[0] == write_enable()
            &&& p.steps[1] matches StepView::Exchange(w, r) && r == 0 && w.len() == 2
                && is_header(w[0], info.address_mode, opcode(info.address_mode, 0x02, 0x12), address as nat)
                && w[1] == data.take(n)
            &&& p.steps[2] == StepView::AwaitReady(100)
        },
{
    lemma_header_is(info, 0x02, 0x12, address);
    let ps = page_split(address as nat, data);
    assert(ps.len() > 0);
    assert(((address as nat) as u32) == address);
}

/// Whether a unit-relative transfer stays within unit `index` of `size`
/// bytes of a part that has `count` such units.
pub open spec fn in_unit(index: u32, count: u32, size: nat, offset: u32, len: nat) -> bool {
    index < count && offset <= size && offset + len <= size
}

/// A sector write is the address write at `sector * 4096 + offset`, and it
/// is accepted exactly when it stays within the sector; otherwise it is
/// refused with `OutOfBounds`.
pub proof fn law_write_sector<E1, E2>(info: DeviceInfo, sector: u32, offset: u32, data: Seq<u8>)
    requires
        info_wf(info),
    ensures
        in_unit(sector, info.sector_count, 4096, offset, data.len()) ==> {
            &&& spec_write_sector::<E1, E2>(Some(info), sector, offset, data)
                == spec_write_address::<E1, E2>(Some(info), (sector * 4096 + offset) as u32, data)
            &&& spec_write_sector::<E1, E2>(Some(info), sector, offset, data) is Ok
        },
        !in_unit(sector, info.sector_count, 4096, offset, data.len())
            ==> spec_write_sector::<E1, E2>(Some(info), sector, offset, data) == Err::<PlanView, Error<E1, E2>>(Error::OutOfBounds),
{
}

/// A block write is the address write at `block * 65536 + offset`, and it
/// is accepted exactly when it stays within the block; otherwise it is
/// refused with `OutOfBounds`.
pub proof fn law_write_block<E1, E2>(info: DeviceInfo, block: u32, offset: u32, data: Seq<u8>)
    requires
        info_wf(info),
    ensures
        in_unit(block, info.block_count, 65536, offset, data.len()) ==> {
            &&& spec_write_block::<E1, E2>(Some(info), block, offset, data)
                == spec_write_address::<E1, E2>(Some(info), (block * 65536 + offset) as u32, data)
            &&& spec_write_block::<E1, E2>(Some(info), block, offset, data) is Ok
        },
        !in_unit(block, info.block_count, 65536, offset, data.len())
            ==> spec_write_block::<E1, E2>(Some(info), block, offset, data) == Err::<PlanView, Error<E1, E2>>(Error::OutOfBounds),
{
}

/// A page write that stays within its page (the offset below 256) is the
/// address write at `page * 256 + offset`; any other is refused with
/// `OutOfBounds`.
pub proof fn law_write_page<E1, E2>(info: DeviceInfo, page: u32, offset: u32, data: Seq<u8>)
    requires
        info_wf(info),
    ensures
        in_unit(page, info.page_count, 256, offset, data.len()) && offset < 256 ==> {
            &&& spec_write_page::<E1, E2>(Some(info), page, offset, data)
                == spec_write_address::<E1, E2>(Some(info), (page * 256 + offset) as u32, data)
            &&& spec_write_page::<E1, E2>(Some(info), page, offset, data) is Ok
        },
        !(in_unit(page, info.page_count, 256, offset, data.len()) && offset < 256)
            ==> spec_write_page::<E1, E2>(Some(info), page, offset, data) == Err::<PlanView, Error<E1, E2>>(Error::OutOfBounds),
{
    if in_unit(page, info.page_count, 256, offset, data.len()) && offset < 256 {
        if data.len() > 0 {
            crate::flash::lemma_write_page_is_write_address::<E1, E2>(info, page, offset, data);
        } else {
            let ps = page_split((page * 256 + offset) as nat, data);
            assert(ps.len() == 0);
        }
    }
}

/// A page read is the address read at `page * 256 + offset`, accepted
/// exactly when it stays within the page.
pub proof fn law_read_page<E1, E2>(info: DeviceInfo, page: u32, offset: u32, n: nat)
    requires
        info_wf(info),
    ensures
        in_unit(page, info.page_count, 256, offset, n) ==> {
            &&& spec_read_page::<E1, E2>(Some(info), page, offset, n)
                == spec_read_address::<E1, E2>(Some(info), (page * 256 + offset) as u32, n)
            &&& spec_read_page::<E1, E2>(Some(info), page, offset, n) is Ok
        },
        !in_unit(page, info.page_count, 256, offset, n)
            ==> spec_read_page::<E1, E2>(Some(info), page, offset, n) == Err::<PlanView, Error<E1, E2>>(Error::OutOfBounds),
{
}

/// A sector read is the address read at `sector * 4096 + offset`, accepted
/// exactly when it stays within the sector.
pub proof fn law_read_sector<E1, E2>(info: DeviceInfo, sector: u32, offset: u32, n: nat)
    requires
        info_wf(info),
    ensures
        in_unit(sector, info.sector_count, 4096, offset, n) ==> {
            &&& spec_read_sector::<E1, E2>(Some(info), sector, offset, n)
                == spec_read_address::<E1, E2>(Some(info), (sector * 4096 + offset) as u32, n)
            &&& spec_read_sector::<E1, E2>(Some(info), sector, offset, n) is Ok
        },
        !in_unit(sector, info.sector_count, 4096, offset, n)
            ==> spec_read_sector::<E1, E2>(Some(info), sector, offset, n) == Err::<PlanView, Error<E1, E2>>(Error::OutOfBounds),
{
}

/// A block read is the address read at `block * 65536 + offset`, accepted
/// exactly when it stays within the block.
pub proof fn law_read_block<E1, E2>(info: DeviceInfo, block: u32, offset: u32, n: nat)
    requires
        info_wf(info),
    ensures
        in_unit(block, info.block_count, 65536, offset, n) ==> {
            &&& spec_read_block::<E1, E2>(Some(info), block, offset, n)
                == spec_read_address::<E1, E2>(Some(info), (block * 65536 + offset) as u32, n)
            &&& spec_read_block::<E1, E2>(Some(info), block, offset, n) is Ok
        },
        !in_unit(block, info.block_count, 65536, offset, n)
            ==> spec_read_block::<E1, E2>(Some(info), block, offset, n) == Err::<PlanView, Error<E1, E2>>(Error::OutOfBounds),
{
}

/// Whether steps `3i .. 3i + 3` of `steps` program `piece`: write enable,
/// the program opcode of the address width (0x02, or 0x12 on a four-byte
/// part) with the piece's address, the piece's bytes, then a wait of up to
/// 100 ms.
pub open spec fn programs_piece(info: DeviceInfo, steps: Seq<StepView>, i: int, piece: (nat, Seq<u8>)) -> bool {
    &&& steps[3 * i] == write_enable()
    &&& steps[3 * i + 1] matches StepView::Exchange(w, r) && r == 0 && w.len() == 2
        && is_header(w[0], info.address_mode, opcode(info.address_mode, 0x02, 0x12), piece.0)
        && w[1] == piece.1
    &&& steps[3 * i + 2] == StepView::AwaitReady(100)
}

proof fn lemma_programs_shape(info: DeviceInfo, pieces: Seq<(nat, Seq<u8>)>)
    requires
        info_wf(info),
        forall|i: int| 0 <= i < pieces.len() ==> #[trigger] pieces[i].0 < info.capacity_bytes,
    ensures
        program_pieces(info, pieces).steps.len() == 3 * pieces.len(),
        forall|i: int| 0 <= i < pieces.len() ==> programs_piece(info, program_pieces(info, pieces).steps, i, #[trigger] pieces[i]),
    decreases pieces.len(),
{
    if pieces.len() > 0 {
        let rest = pieces.drop_first();
        assert forall|i: int| 0 <= i < rest.len() implies #[trigger] rest[i].0 < info.capacity_bytes by {
            assert(rest[i] == pieces[i + 1]);
        }
        lemma_programs_shape(info, rest);
        let s = program_pieces(info, pieces).steps;
        let rs = program_pieces(info, rest).steps;
        lemma_header_is(info, 0x02, 0x12, pieces[0].0 as u32);
        assert forall|i: int| 0 <= i < pieces.len() implies programs_piece(info, s, i, #[trigger] pieces[i]) by {
            if i > 0 {
                assert(pieces[i] == rest[i - 1]);
                assert(programs_piece(info, rs, i - 1, rest[i - 1]));
                assert(s[3 * i] == rs[3 * (i - 1)]);
                assert(s[3 * i + 1] == rs[3 * (i - 1) + 1]);
                assert(s[3 * i + 2] == rs[3 * (i - 1) + 2]);
            }
        }
    }
}

proof fn lemma_page_split_within(cursor: nat, data: Seq<u8>)
    ensures
        forall|i: int| 0 <= i < page_split(cursor, data).len() ==> cursor <= #[trigger] page_split(cursor, data)[i].0
            && page_split(cursor, data)[i].0 + page_split(cursor, data)[i].1.len() <= cursor + data.len(),
    decreases data.len(),
{
    if data.len() > 0 {
        let n = crate::flash::min_nat(data.len(), (256 - cursor % 256) as nat);
        let ps = page_split(cursor, data);
        let rest = page_split(cursor + n, data.skip(n as int));
        lemma_page_split_within(cursor + n, data.skip(n as int));
        assert(ps == seq![(cursor, data.take(n as int))] + rest);
        assert forall|i: int| 0 <= i < ps.len() implies cursor <= #[trigger] ps[i].0 && ps[i].0 + ps[i].1.len() <= cursor + data.len() by {
            if i > 0 {
                assert(ps[i] == rest[i - 1]);
            }
        }
    }
}

/// A write within the part is one page program per piece of its page split
/// (see `lemma_page_split`), in order: each piece goes to its own address
/// with the program opcode of the part's address width.
pub proof fn law_write_address_programs<E1, E2>(info: DeviceInfo, address: u32, data: Seq<u8>)
    requires
        info_wf(info),
        address + data.len() <= info.capacity_bytes,
    ensures
        spec_write_address::<E1, E2>(Some(info), address, data) matches Ok(p) && {
            let ps = page_split(address as nat, data);
            &&& p.steps.len() == 3 * ps.len()
            &&& forall|i: int| 0 <= i < ps.len() ==> programs_piece(info, p.steps, i, #[trigger] ps[i])
        },
{
    let ps = page_split(address as nat, data);
    lemma_page_split_within(address as nat, data);
    crate::flash::lemma_page_split(address as nat, data);
    assert forall|i: int| 0 <= i < ps.len() implies #[trigger] ps[i].0 < info.capacity_bytes by {
        assert(ps[i].1.len() > 0);
    }
    lemma_programs_shape(info, ps);
}

/// Identification reads the id bytes in order: manufacturer, memory type,
/// density. The density code 0x11 names 128 KiB and each next code up to
/// 0x19 twice as much; 0x20 names 64 MiB; any other code is refused with
/// `UnsupportedCapacityCode` of that code. Parts above 16 MiB use four-byte
/// addresses. A failed read is passed on as it is.
pub proof fn law_identification<E1, E2>(bytes: Seq<u8>, e: Error<E1, E2>)
    requires
        bytes.len() == 3,
    ensures
        spec_initialize_result::<E1, E2>(Err(e)) == Err::<DeviceInfo, Error<E1, E2>>(e),
        spec_initialize_result::<E1, E2>(Ok(bytes)) is Ok <==> (0x11 <= bytes[2] <= 0x19 || bytes[2] == 0x20),
        spec_initialize_result::<E1, E2>(Ok(bytes)) is Err ==> spec_initialize_result::<E1, E2>(Ok(bytes))
            == Err::<DeviceInfo, Error<E1, E2>>(Error::UnsupportedCapacityCode(bytes[2])),
        spec_initialize_result::<E1, E2>(Ok(bytes)) matches Ok(i) ==> {
            &&& i.jedec_id == JedecId { manufacturer_code: bytes[0], memory_type: bytes[1], capacity_code: bytes[2] }
            &&& i.manufacturer == manufacturer_of(bytes[0])
            &&& i.capacity_bytes == if bytes[2] == 0x20 { 67108864 } else { 131072 * pow2((bytes[2] - 0x11) as nat) }
            &&& (i.address_mode == AddressMode::FourByte <==> i.capacity_bytes > 16777216)
        },
{
    let c = bytes[2];
    vstd::arithmetic::power2::lemma2_to64();
    assert(jedec_of(bytes).capacity_code == c);
    if 0x11 <= c <= 0x19 {
        vstd::arithmetic::power2::lemma_pow2_adds(17, (c - 0x11) as nat);
        vstd::arithmetic::power2::lemma_pow2_strictly_increases(c as nat, 26);
        assert(pow2(c as nat) <= pow2(25)) by {
            if c < 25 {
                vstd::arithmetic::power2::lemma_pow2_strictly_increases(c as nat, 25);
            }
        }
    }
}

/// A range of `len > 0` bytes crosses a boundary of `boundary`-byte units
/// exactly when it runs past the end of the unit it starts in.
pub proof fn law_crosses_boundary(address: u32, len: nat, boundary: u32)
    requires
        boundary > 0,
        len > 0,
    ensures
        spec_crosses_boundary(address, len, boundary) <==> address % boundary + len > boundary,
{
    let a = address as int;
    let b = boundary as int;
    let q = a / b;
    let r = a % b;
    vstd::arithmetic::div_mod::lemma_fundamental_div_mod(a, b);
    if r + len - 1 < b {
        vstd::arithmetic::div_mod::lemma_fundamental_div_mod_converse(a + len - 1, b, q, r + len - 1);
    } else {
        assert((q + 1) * b == b * q + b) by (nonlinear_arith);
        vstd::arithmetic::div_mod::lemma_div_is_ordered((q + 1) * b, a + len - 1, b);
        vstd::arithmetic::div_mod::lemma_div_multiples_vanish(q + 1, b);
    }
}

/// A status poll reads status register 1 with the command 0x05 inside one
/// chip-select frame, and the part counts as busy exactly when bit 0 of the
/// status is set.
pub proof fn law_status_poll(timeout: u32, status: u8)
    ensures
        step_actions(StepView::AwaitReady(timeout)) == seq![
            ActionView::Select,
            ActionView::Write(seq![0x05u8]),
            ActionView::Read(1),
            ActionView::Flush,
            ActionView::Deselect,
        ],
        is_busy(status) <==> status % 2 == 1,
{
    assert(status & 1 != 0 <==> status % 2 == 1) by (bit_vector);
    crate::plan::lemma_exchange_index(crate::plan::status_command(), 1, 0);
    let a = step_actions(StepView::AwaitReady(timeout));
    assert forall|p: int| 0 <= p < 5 implies a[p] == seq![
        ActionView::Select,
        ActionView::Write(seq![0x05u8]),
        ActionView::Read(1),
        ActionView::Flush,
        ActionView::Deselect,
    ][p] by {
        crate::plan::lemma_exchange_index(crate::plan::status_command(), 1, p);
    }
    assert(a =~= seq![
        ActionView::Select,
        ActionView::Write(seq![0x05u8]),
        ActionView::Read(1),
        ActionView::Flush,
        ActionView::Deselect,
    ]);
}

/// Between two polls of a busy part the run waits exactly 1 ms, and each
/// such wait adds one millisecond to the time waited.
pub proof fn law_poll_spacing<SpiError, PinError>(s: RunView<SpiError, PinError>)
    requires
        s.wf(),
        !s.is_finished(),
        s.delaying,
    ensures
        s.action() == ActionView::DelayMs(1),
        s.next(crate::plan::EventView::Done).waited == s.waited + 1,
        !s.next(crate::plan::EventView::Done).delaying,
{
}

} // verus!
