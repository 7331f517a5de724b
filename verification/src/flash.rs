use vstd::prelude::*;

use crate::command::{
    CMD_BLOCK_ERASE_3B, CMD_BLOCK_ERASE_4B, CMD_CHIP_ERASE, CMD_PAGE_PROGRAM_3B,
    CMD_PAGE_PROGRAM_4B, CMD_READ_DATA_3B, CMD_READ_DATA_4B, CMD_READ_JEDEC_ID,
    CMD_SECTOR_ERASE_3B, CMD_SECTOR_ERASE_4B, CMD_WRITE_DISABLE, CMD_WRITE_ENABLE,
    address_header, build_address_header, crosses_boundary, spec_crosses_boundary,
};
use crate::error::Error;
use crate::executor::{last_read_len, outcome_view, plan_fits};
use crate::geometry::{
    AddressMode, BLOCK_SIZE, DeviceInfo, JedecId, PAGE_SIZE, SECTOR_SIZE, capacity_of,
    device_info_from_jedec, geometry_of, info_wf,
};
use crate::plan::{Exchange, Plan, PlanView, Step, StepView, lemma_exchange_index, step_actions};

verus! {

/// Milliseconds to wait after power-up before talking to the part.
pub const INIT_DELAY_MS: u32 = 20;
/// Longest time a page program may keep the part busy.
pub const PAGE_PROGRAM_TIMEOUT_MS: u32 = 100;
/// Longest time a sector erase may keep the part busy.
pub const SECTOR_ERASE_TIMEOUT_MS: u32 = 1000;
/// Longest time a block erase may keep the part busy.
pub const BLOCK_ERASE_TIMEOUT_MS: u32 = 3000;
/// Milliseconds a chip erase may take per block of the part.
pub const CHIP_ERASE_MS_PER_BLOCK: u32 = 1000;

// ---------------------------------------------------------------------------
// What each operation does on the bus.
// ---------------------------------------------------------------------------

/// A transaction that sends one command byte and nothing else.
pub open spec fn command_step(command: u8) -> StepView {
    StepView::Exchange(seq![seq![command]], 0)
}

/// Identification: release chip select, let the part power up, disable
/// writes, read the three JEDEC id bytes.
pub open spec fn initialize_plan() -> PlanView {
    PlanView {
        steps: seq![
            StepView::Release,
            StepView::Pause(INIT_DELAY_MS),
            command_step(CMD_WRITE_DISABLE),
            StepView::Exchange(seq![seq![CMD_READ_JEDEC_ID]], 3),
        ]
    }
}

/// Reading the JEDEC id: the id command, then three bytes in.
pub open spec fn read_jedec_id_plan() -> PlanView {
    PlanView { steps: seq![StepView::Exchange(seq![seq![CMD_READ_JEDEC_ID]], 3)] }
}

/// The time a chip erase may take: 1 s per block, held at `u32::MAX`.
pub open spec fn chip_erase_timeout(info: DeviceInfo) -> u32 {
    if info.block_count * CHIP_ERASE_MS_PER_BLOCK > u32::MAX {
        u32::MAX
    } else {
        (info.block_count * CHIP_ERASE_MS_PER_BLOCK) as u32
    }
}

/// An erase of the unit at `address`: write enable, the erase command with
/// the address, then wait for the part.
pub open spec fn erase_plan(info: DeviceInfo, command_3b: u8, command_4b: u8, address: u32, timeout: u32) -> PlanView {
    PlanView {
        steps: seq![
            command_step(CMD_WRITE_ENABLE),
            StepView::Exchange(seq![address_header(info.address_mode, command_3b, command_4b, address)], 0),
            StepView::AwaitReady(timeout),
        ]
    }
}

/// Programming `chunk` at `address`: write enable, the program command with
/// the address, the data, then wait for the part.
pub open spec fn program_steps(info: DeviceInfo, address: u32, chunk: Seq<u8>) -> Seq<StepView> {
    seq![
        command_step(CMD_WRITE_ENABLE),
        StepView::Exchange(
            seq![address_header(info.address_mode, CMD_PAGE_PROGRAM_3B, CMD_PAGE_PROGRAM_4B, address), chunk],
            0,
        ),
        StepView::AwaitReady(PAGE_PROGRAM_TIMEOUT_MS),
    ]
}

/// The smaller of two numbers.
pub open spec fn min_nat(a: nat, b: nat) -> nat {
    if a <= b { a } else { b }
}

/// Cuts `data`, to be written from `cursor` on, at every page boundary: the
/// pieces in order, each with the address it goes to.
pub open spec fn page_split(cursor: nat, data: Seq<u8>) -> Seq<(nat, Seq<u8>)>
    decreases data.len(),
{
    if data.len() == 0 {
        Seq::empty()
    } else {
        let n = min_nat(data.len(), (PAGE_SIZE - cursor % (PAGE_SIZE as nat)) as nat);
        seq![(cursor, data.take(n as int))] + page_split(cursor + n, data.skip(n as int))
    }
}

/// The bytes of all pieces, in order.
pub open spec fn pieces_bytes(pieces: Seq<(nat, Seq<u8>)>) -> Seq<u8>
    decreases pieces.len(),
{
    if pieces.len() == 0 {
        Seq::empty()
    } else {
        pieces[0].1 + pieces_bytes(pieces.drop_first())
    }
}

/// How a write is cut into page programs: the pieces together are the data,
/// in order; the first goes to the write's address and each next one right
/// after the one before; no piece is empty or leaves its page; and every
/// piece but the first starts a page (so a piece is cut only where a page
/// ends).
pub proof fn lemma_page_split(cursor: nat, data: Seq<u8>)
    ensures
        ({
            let ps = page_split(cursor, data);
            &&& pieces_bytes(ps) == data
            &&& forall|i: int| 0 <= i < ps.len() ==> #[trigger] ps[i].1.len() > 0
                && ps[i].0 % (PAGE_SIZE as nat) + ps[i].1.len() <= PAGE_SIZE
            &&& ps.len() > 0 ==> ps[0].0 == cursor
            &&& forall|i: int| 0 <= i < ps.len() - 1 ==> #[trigger] ps[i + 1].0 == ps[i].0 + ps[i].1.len()
                && ps[i + 1].0 % (PAGE_SIZE as nat) == 0
        }),
    decreases data.len(),
{
    let ps = page_split(cursor, data);
    if data.len() == 0 {
        assert(ps.len() == 0);
        assert(pieces_bytes(ps) =~= data);
    } else {
        let n = min_nat(data.len(), (PAGE_SIZE - cursor % (PAGE_SIZE as nat)) as nat);
        let rest = page_split(cursor + n, data.skip(n as int));
        lemma_page_split(cursor + n, data.skip(n as int));
        assert(ps == seq![(cursor, data.take(n as int))] + rest);
        assert(ps.drop_first() =~= rest);
        assert(pieces_bytes(ps) == data.take(n as int) + pieces_bytes(rest));
        assert(data.take(n as int) + data.skip(n as int) =~= data);
        assert forall|i: int| 0 <= i < ps.len() implies #[trigger] ps[i].1.len() > 0
            && ps[i].0 % (PAGE_SIZE as nat) + ps[i].1.len() <= PAGE_SIZE by {
            if i > 0 {
                assert(ps[i] == rest[i - 1]);
            }
        }
        assert forall|i: int| 0 <= i < ps.len() - 1 implies #[trigger] ps[i + 1].0 == ps[i].0 + ps[i].1.len()
            && ps[i + 1].0 % (PAGE_SIZE as nat) == 0 by {
            assert(ps[i + 1] == rest[i]);
            if i > 0 {
                assert(ps[i] == rest[i - 1]);
            } else {
                assert(rest.len() > 0);
                assert(data.skip(n as int).len() > 0);
                assert(n == PAGE_SIZE - cursor % (PAGE_SIZE as nat));
                assert((cursor + n) % 256 == 0) by {
                    vstd::arithmetic::div_mod::lemma_fundamental_div_mod(cursor as int, 256);
                    vstd::arithmetic::div_mod::lemma_mod_multiples_basic(cursor as int / 256 + 1, 256);
                }
            }
        }
    }
}

/// Programs the pieces in turn, one page program each.
pub open spec fn program_pieces(info: DeviceInfo, pieces: Seq<(nat, Seq<u8>)>) -> PlanView
    decreases pieces.len(),
{
    if pieces.len() == 0 {
        PlanView { steps: Seq::empty() }
    } else {
        PlanView { steps: program_steps(info, pieces[0].0 as u32, pieces[0].1) + program_pieces(info, pieces.drop_first()).steps }
    }
}

/// A write is one page program (three steps) per piece of its page split.
pub proof fn lemma_program_pieces_len(info: DeviceInfo, pieces: Seq<(nat, Seq<u8>)>)
    ensures
        program_pieces(info, pieces).steps.len() == 3 * pieces.len(),
    decreases pieces.len(),
{
    if pieces.len() > 0 {
        lemma_program_pieces_len(info, pieces.drop_first());
    }
}

/// A write is refused with `OutOfBounds` exactly when the whole of its range,
/// its full length counted, does not lie within the part; otherwise every
/// piece of its page split is programmed.
pub proof fn lemma_write_address_outcome<E1, E2>(info: DeviceInfo, address: u32, data: Seq<u8>)
    ensures
        spec_write_address::<E1, E2>(Some(info), address, data) == if address + data.len() <= info.capacity_bytes {
            Ok::<PlanView, Error<E1, E2>>(program_pieces(info, page_split(address as nat, data)))
        } else {
            out_of_bounds::<E1, E2, PlanView>()
        },
        program_pieces(info, page_split(address as nat, data)).steps.len() == 3 * page_split(address as nat, data).len(),
{
    lemma_program_pieces_len(info, page_split(address as nat, data));
}

/// Within one page, a page write and an address write are the same thing: a
/// nonempty write that fits in page `page` from `offset` on has the same plan
/// either way, one page program.
pub proof fn lemma_write_page_is_write_address<E1, E2>(info: DeviceInfo, page: u32, offset: u32, data: Seq<u8>)
    requires
        info_wf(info),
        page < info.page_count,
        offset < PAGE_SIZE,
        0 < data.len() <= PAGE_SIZE - offset,
    ensures
        spec_write_page::<E1, E2>(Some(info), page, offset, data) == spec_write_address::<E1, E2>(
            Some(info),
            (page * PAGE_SIZE + offset) as u32,
            data,
        ),
        spec_write_page::<E1, E2>(Some(info), page, offset, data) == Ok::<PlanView, Error<E1, E2>>(PlanView {
            steps: program_steps(info, (page * PAGE_SIZE + offset) as u32, data)
        }),
{
    let address = (page * PAGE_SIZE + offset) as u32;
    assert(page * PAGE_SIZE + PAGE_SIZE <= info.capacity_bytes);
    assert(address as nat % 256 == offset as nat) by {
        vstd::arithmetic::div_mod::lemma_mod_multiples_vanish(page as int, offset as int, 256);
        vstd::arithmetic::div_mod::lemma_small_mod(offset as nat, 256);
    }
    assert(address as int / 256 == page as int) by {
        vstd::arithmetic::div_mod::lemma_fundamental_div_mod_converse(address as int, 256, page as int, offset as int);
    }
    assert((address + data.len() - 1) / 256 == page as int) by {
        vstd::arithmetic::div_mod::lemma_fundamental_div_mod_converse(
            address + data.len() - 1,
            256,
            page as int,
            offset + data.len() - 1,
        );
    }
    let ps = page_split(address as nat, data);
    assert(data.skip(data.len() as int) =~= Seq::<u8>::empty());
    assert(data.take(data.len() as int) =~= data);
    assert(ps == seq![(address as nat, data)] + page_split(address as nat + data.len(), Seq::<u8>::empty()));
    assert(ps.drop_first() =~= Seq::<(nat, Seq<u8>)>::empty());
    assert(ps[0] == (address as nat, data));
    let e = program_pieces(info, ps.drop_first());
    assert(e.steps.len() == 0);
    assert((address as nat) as u32 == address);
    assert(program_pieces(info, ps).steps == program_steps(info, address, data) + e.steps);
    assert(program_pieces(info, ps).steps =~= program_steps(info, address, data));
}

/// Whether all `len` bytes from `address` on lie within the part.
pub open spec fn range_fits(info: DeviceInfo, address: u32, len: nat) -> bool {
    address + len <= info.capacity_bytes
}

pub open spec fn not_initialized<E1, E2, T>() -> Result<T, Error<E1, E2>> {
    Err(Error::NotInitialized)
}

pub open spec fn out_of_bounds<E1, E2, T>() -> Result<T, Error<E1, E2>> {
    Err(Error::OutOfBounds)
}

pub open spec fn empty_plan() -> PlanView {
    PlanView { steps: Seq::empty() }
}

/// Chip erase.
pub open spec fn spec_erase_chip<E1, E2>(info: Option<DeviceInfo>) -> Result<PlanView, Error<E1, E2>> {
    match info {
        None => not_initialized(),
        Some(i) => Ok(PlanView {
            steps: seq![
                command_step(CMD_WRITE_ENABLE),
                command_step(CMD_CHIP_ERASE),
                StepView::AwaitReady(chip_erase_timeout(i)),
            ]
        }),
    }
}

/// Erase of sector `sector`.
pub open spec fn spec_erase_sector<E1, E2>(info: Option<DeviceInfo>, sector: u32) -> Result<PlanView, Error<E1, E2>> {
    match info {
        None => not_initialized(),
        Some(i) => if sector >= i.sector_count {
            out_of_bounds()
        } else {
            Ok(erase_plan(i, CMD_SECTOR_ERASE_3B, CMD_SECTOR_ERASE_4B, (sector * SECTOR_SIZE) as u32, SECTOR_ERASE_TIMEOUT_MS))
        },
    }
}

/// Erase of block `block`.
pub open spec fn spec_erase_block<E1, E2>(info: Option<DeviceInfo>, block: u32) -> Result<PlanView, Error<E1, E2>> {
    match info {
        None => not_initialized(),
        Some(i) => if block >= i.block_count {
            out_of_bounds()
        } else {
            Ok(erase_plan(i, CMD_BLOCK_ERASE_3B, CMD_BLOCK_ERASE_4B, (block * BLOCK_SIZE) as u32, BLOCK_ERASE_TIMEOUT_MS))
        },
    }
}

/// Write of `data` from `address` on, cut at page boundaries.
pub open spec fn spec_write_address<E1, E2>(info: Option<DeviceInfo>, address: u32, data: Seq<u8>) -> Result<PlanView, Error<E1, E2>> {
    match info {
        None => not_initialized(),
        Some(i) => if !range_fits(i, address, data.len()) {
            out_of_bounds()
        } else {
            Ok(program_pieces(i, page_split(address as nat, data)))
        },
    }
}

/// Write of `data` into page `page` from `offset` on, which must not leave
/// the page.
pub open spec fn spec_write_page<E1, E2>(info: Option<DeviceInfo>, page: u32, offset: u32, data: Seq<u8>) -> Result<PlanView, Error<E1, E2>> {
    match info {
        None => not_initialized(),
        Some(i) => if page >= i.page_count || offset >= PAGE_SIZE || data.len() > PAGE_SIZE - offset {
            out_of_bounds()
        } else {
            spec_program_page(info, (page * PAGE_SIZE + offset) as u32, data)
        },
    }
}

/// Programming `data` at `address` in one page program: the range must lie
/// within the part and within one page.
pub open spec fn spec_program_page<E1, E2>(info: Option<DeviceInfo>, address: u32, data: Seq<u8>) -> Result<PlanView, Error<E1, E2>> {
    match info {
        None => not_initialized(),
        Some(i) => if !range_fits(i, address, data.len()) {
            out_of_bounds()
        } else if data.len() == 0 {
            Ok(empty_plan())
        } else if spec_crosses_boundary(address, data.len(), PAGE_SIZE) {
            out_of_bounds()
        } else {
            Ok(PlanView { steps: program_steps(i, address, data) })
        },
    }
}

/// Write of `data` into sector `sector` from `offset` on, which must not
/// leave the sector.
pub open spec fn spec_write_sector<E1, E2>(info: Option<DeviceInfo>, sector: u32, offset: u32, data: Seq<u8>) -> Result<PlanView, Error<E1, E2>> {
    match info {
        None => not_initialized(),
        Some(i) => if sector >= i.sector_count || offset > SECTOR_SIZE || data.len() > SECTOR_SIZE - offset {
            out_of_bounds()
        } else {
            spec_write_address(info, (sector * SECTOR_SIZE + offset) as u32, data)
        },
    }
}

/// Write of `data` into block `block` from `offset` on, which must not leave
/// the block.
pub open spec fn spec_write_block<E1, E2>(info: Option<DeviceInfo>, block: u32, offset: u32, data: Seq<u8>) -> Result<PlanView, Error<E1, E2>> {
    match info {
        None => not_initialized(),
        Some(i) => if block >= i.block_count || offset > BLOCK_SIZE || data.len() > BLOCK_SIZE - offset {
            out_of_bounds()
        } else {
            spec_write_address(info, (block * BLOCK_SIZE + offset) as u32, data)
        },
    }
}

/// Read of `len` bytes from `address` on.
pub open spec fn spec_read_address<E1, E2>(info: Option<DeviceInfo>, address: u32, len: nat) -> Result<PlanView, Error<E1, E2>> {
    match info {
        None => not_initialized(),
        Some(i) => if !range_fits(i, address, len) {
            out_of_bounds()
        } else if len == 0 {
            Ok(empty_plan())
        } else {
            Ok(PlanView {
                steps: seq![StepView::Exchange(
                    seq![address_header(i.address_mode, CMD_READ_DATA_3B, CMD_READ_DATA_4B, address)],
                    len,
                )]
            })
        },
    }
}

/// Read of `len` bytes of page `page` from `offset` on.
pub open spec fn spec_read_page<E1, E2>(info: Option<DeviceInfo>, page: u32, offset: u32, len: nat) -> Result<PlanView, Error<E1, E2>> {
    match info {
        None => not_initialized(),
        Some(i) => if page >= i.page_count || offset > PAGE_SIZE || len > PAGE_SIZE - offset {
            out_of_bounds()
        } else {
            spec_read_address(info, (page * PAGE_SIZE + offset) as u32, len)
        },
    }
}

/// Read of `len` bytes of sector `sector` from `offset` on.
pub open spec fn spec_read_sector<E1, E2>(info: Option<DeviceInfo>, sector: u32, offset: u32, len: nat) -> Result<PlanView, Error<E1, E2>> {
    match info {
        None => not_initialized(),
        Some(i) => if sector >= i.sector_count || offset > SECTOR_SIZE || len > SECTOR_SIZE - offset {
            out_of_bounds()
        } else {
            spec_read_address(info, (sector * SECTOR_SIZE + offset) as u32, len)
        },
    }
}

/// Read of `len` bytes of block `block` from `offset` on.
pub open spec fn spec_read_block<E1, E2>(info: Option<DeviceInfo>, block: u32, offset: u32, len: nat) -> Result<PlanView, Error<E1, E2>> {
    match info {
        None => not_initialized(),
        Some(i) => if block >= i.block_count || offset > BLOCK_SIZE || len > BLOCK_SIZE - offset {
            out_of_bounds()
        } else {
            spec_read_address(info, (block * BLOCK_SIZE + offset) as u32, len)
        },
    }
}

/// How many bytes each plan's run returns when it ends well (see
/// `lemma_ok_outcome_is_last_read`): the three id bytes for identification
/// and for an id read, exactly the requested length for a read, and none
/// for an erase or a write.
pub proof fn lemma_plan_read_lengths<E1, E2>(info: Option<DeviceInfo>, address: u32, len: nat, data: Seq<u8>, unit: u32)
    ensures
        last_read_len(initialize_plan().steps) == 3,
        last_read_len(read_jedec_id_plan().steps) == 3,
        spec_read_address::<E1, E2>(info, address, len) matches Ok(p) ==> last_read_len(p.steps) == len,
        spec_write_address::<E1, E2>(info, address, data) matches Ok(p) ==> last_read_len(p.steps) == 0,
        spec_program_page::<E1, E2>(info, address, data) matches Ok(p) ==> last_read_len(p.steps) == 0,
        spec_erase_chip::<E1, E2>(info) matches Ok(p) ==> last_read_len(p.steps) == 0,
        spec_erase_sector::<E1, E2>(info, unit) matches Ok(p) ==> last_read_len(p.steps) == 0,
        spec_erase_block::<E1, E2>(info, unit) matches Ok(p) ==> last_read_len(p.steps) == 0,
{
    if let Some(i) = info {
        lemma_program_pieces_no_read(i, page_split(address as nat, data));
        lemma_no_read_steps(program_steps(i, address, data));
        lemma_no_read_steps(spec_erase_chip::<E1, E2>(info)->Ok_0.steps);
        if unit < i.sector_count {
            lemma_no_read_steps(spec_erase_sector::<E1, E2>(info, unit)->Ok_0.steps);
        }
        if unit < i.block_count {
            lemma_no_read_steps(spec_erase_block::<E1, E2>(info, unit)->Ok_0.steps);
        }
    }
}

/// Steps none of which reads data ask for no bytes.
proof fn lemma_no_read_steps(steps: Seq<StepView>)
    requires
        forall|i: int| 0 <= i < steps.len() ==> !(#[trigger] steps[i] matches StepView::Exchange(_, r) && r > 0),
    ensures
        last_read_len(steps) == 0,
    decreases steps.len(),
{
    if steps.len() > 0 {
        assert(steps.last() == steps[steps.len() - 1]);
        assert forall|i: int| 0 <= i < steps.drop_last().len() implies !(#[trigger] steps.drop_last()[i] matches StepView::Exchange(_, r) && r > 0) by {
            assert(steps.drop_last()[i] == steps[i]);
        }
        lemma_no_read_steps(steps.drop_last());
    }
}

proof fn lemma_no_read_concat(a: Seq<StepView>, b: Seq<StepView>)
    requires
        last_read_len(a) == 0,
        last_read_len(b) == 0,
    ensures
        last_read_len(a + b) == 0,
    decreases b.len(),
{
    if b.len() == 0 {
        assert(a + b =~= a);
    } else {
        assert((a + b).drop_last() =~= a + b.drop_last());
        assert((a + b).last() == b.last());
        lemma_no_read_concat(a, b.drop_last());
    }
}

proof fn lemma_program_pieces_no_read(info: DeviceInfo, pieces: Seq<(nat, Seq<u8>)>)
    ensures
        last_read_len(program_pieces(info, pieces).steps) == 0,
    decreases pieces.len(),
{
    if pieces.len() > 0 {
        lemma_program_pieces_no_read(info, pieces.drop_first());
        let p = program_steps(info, pieces[0].0 as u32, pieces[0].1);
        lemma_no_read_steps(p);
        lemma_no_read_concat(p, program_pieces(info, pieces.drop_first()).steps);
    }
}

/// Whether a planner's result is the plan (or error) that the spec gives,
/// with a plan that an `Executor` can run.
pub open spec fn planned<E1, E2>(r: Result<Plan, Error<E1, E2>>, s: Result<PlanView, Error<E1, E2>>) -> bool {
    match (r, s) {
        (Ok(p), Ok(v)) => p@ == v && plan_fits(p@.steps),
        (Err(a), Err(b)) => a == b,
        _ => false,
    }
}

/// The part of the most recent identification that succeeded, among
/// identifications whose results (the part, or `None` for a failure) are
/// `history`, oldest first; `None` when none succeeded.
pub open spec fn last_success(history: Seq<Option<DeviceInfo>>) -> Option<DeviceInfo>
    decreases history.len(),
{
    if history.len() == 0 {
        None
    } else if history.last() is Some {
        history.last()
    } else {
        last_success(history.drop_last())
    }
}

/// The driver knows the part of the most recent identification that
/// succeeded: if identification `k` found `info` and every later one failed,
/// that is `info`; if every one failed (or none ran), it knows no part.
pub proof fn lemma_last_success(history: Seq<Option<DeviceInfo>>, k: int)
    ensures
        0 <= k < history.len() && history[k] is Some && (forall|j: int| k < j < history.len() ==> #[trigger] history[j] is None)
            ==> last_success(history) == history[k],
        (forall|j: int| 0 <= j < history.len() ==> #[trigger] history[j] is None) ==> last_success(history) is None,
    decreases history.len(),
{
    if history.len() > 0 {
        let rest = history.drop_last();
        lemma_last_success(rest, k);
        if 0 <= k < history.len() && history[k] is Some && (forall|j: int| k < j < history.len() ==> #[trigger] history[j] is None) {
            if k < history.len() - 1 {
                assert(history[history.len() - 1] is None);
                assert forall|j: int| k < j < rest.len() implies #[trigger] rest[j] is None by {
                    assert(rest[j] == history[j]);
                }
            }
        }
        if forall|j: int| 0 <= j < history.len() ==> #[trigger] history[j] is None {
            assert(history[history.len() - 1] is None);
            assert forall|j: int| 0 <= j < rest.len() implies #[trigger] rest[j] is None by {
                assert(rest[j] == history[j]);
            }
        }
    }
}

/// The JEDEC id that three reply bytes spell.
pub open spec fn jedec_of(bytes: Seq<u8>) -> JedecId {
    JedecId { manufacturer_code: bytes[0], memory_type: bytes[1], capacity_code: bytes[2] }
}

/// What identification ends with, given what its plan ended with.
pub open spec fn spec_initialize_result<E1, E2>(outcome: Result<Seq<u8>, Error<E1, E2>>) -> Result<DeviceInfo, Error<E1, E2>> {
    match outcome {
        Err(e) => Err(e),
        Ok(bytes) => match capacity_of(jedec_of(bytes).capacity_code) {
            Some(c) => Ok(geometry_of(jedec_of(bytes), c)),
            None => Err(Error::UnsupportedCapacityCode(jedec_of(bytes).capacity_code)),
        },
    }
}

// ---------------------------------------------------------------------------
// Building plans.
// ---------------------------------------------------------------------------

proof fn lemma_fits_concat(a: Seq<StepView>, b: Seq<StepView>)
    requires
        plan_fits(a),
        plan_fits(b),
    ensures
        plan_fits(a + b),
{
    assert forall|i: int| 0 <= i < (a + b).len() implies #[trigger] step_actions((a + b)[i]).len() < usize::MAX by {
        if i < a.len() {
            assert((a + b)[i] == a[i]);
        } else {
            assert((a + b)[i] == b[i - a.len()]);
        }
    }
}

proof fn lemma_small_exchange(writes: Seq<Seq<u8>>, read_len: nat)
    requires
        writes.len() <= 2,
    ensures
        step_actions(StepView::Exchange(writes, read_len)).len() <= 6,
{
    lemma_exchange_index(writes, read_len, 0);
}

proof fn lemma_await_small(t: u32)
    ensures
        step_actions(StepView::AwaitReady(t)).len() <= 6,
{
    lemma_exchange_index(crate::plan::status_command(), 1, 0);
}

/// The header of an addressed command, as a vector.
fn header_vec(mode: AddressMode, command_3b: u8, command_4b: u8, address: u32) -> (v: Vec<u8>)
    ensures
        v@ == address_header(mode, command_3b, command_4b, address),
{
    let (header, len) = build_address_header(mode, command_3b, command_4b, address);
    let mut v: Vec<u8> = Vec::new();
    let mut i: usize = 0;
    while i < len
        invariant
            len <= 5,
            i <= len,
            v@ == header@.take(i as int),
        decreases len - i,
    {
        v.push(header[i]);
        i = i + 1;
        assert(v@ =~= header@.take(i as int));
    }
    v
}

/// Bytes `from..to` of `data`.
fn copy_range(data: &[u8], from: usize, to: usize) -> (v: Vec<u8>)
    requires
        from <= to <= data@.len(),
    ensures
        v@ == data@.subrange(from as int, to as int),
{
    let mut v: Vec<u8> = Vec::new();
    let mut i: usize = from;
    while i < to
        invariant
            from <= i <= to <= data@.len(),
            v@ == data@.subrange(from as int, i as int),
        decreases to - i,
    {
        v.push(data[i]);
        i = i + 1;
        assert(v@ =~= data@.subrange(from as int, i as int));
    }
    v
}

/// A transaction with the given writes and read length.
fn exchange_step(writes: Vec<Vec<u8>>, read_len: usize) -> (s: Step)
    ensures
        s@ == StepView::Exchange(writes@.map_values(|w: Vec<u8>| w@), read_len as nat),
{
    Step::Exchange(Exchange { writes, read_len })
}

/// A transaction of one written buffer.
fn single_write(bytes: Vec<u8>, read_len: usize) -> (s: Step)
    ensures
        s@ == StepView::Exchange(seq![bytes@], read_len as nat),
{
    let ghost b = bytes@;
    let mut writes: Vec<Vec<u8>> = Vec::new();
    writes.push(bytes);
    let s = exchange_step(writes, read_len);
    assert(writes@.map_values(|w: Vec<u8>| w@) =~= seq![b]);
    s
}

/// A transaction that sends one command byte.
fn command(byte: u8) -> (s: Step)
    ensures
        s@ == command_step(byte),
{
    let mut v: Vec<u8> = Vec::new();
    v.push(byte);
    assert(v@ =~= seq![byte]);
    single_write(v, 0)
}

/// A plan from its steps.
fn plan_of(steps: Vec<Step>) -> (p: Plan)
    ensures
        p@.steps == steps@.map_values(|s: Step| s@),
{
    Plan { steps }
}

/// Appends the steps that program `chunk` at `address`.
fn push_program(steps: &mut Vec<Step>, info: &DeviceInfo, address: u32, chunk: Vec<u8>)
    ensures
        final(steps)@.map_values(|s: Step| s@) == old(steps)@.map_values(|s: Step| s@) + program_steps(*info, address, chunk@),
{
    let ghost c = chunk@;
    let header = header_vec(info.address_mode, CMD_PAGE_PROGRAM_3B, CMD_PAGE_PROGRAM_4B, address);
    let ghost h = header@;
    let mut writes: Vec<Vec<u8>> = Vec::new();
    writes.push(header);
    writes.push(chunk);
    assert(writes@.map_values(|w: Vec<u8>| w@) =~= seq![h, c]);
    let ghost before = steps@;
    steps.push(command(CMD_WRITE_ENABLE));
    steps.push(exchange_step(writes, 0));
    steps.push(Step::AwaitReady(PAGE_PROGRAM_TIMEOUT_MS));
    assert(steps@.map_values(|s: Step| s@) =~= before.map_values(|s: Step| s@) + program_steps(*info, address, c));
}

proof fn lemma_program_steps_fit(info: DeviceInfo, address: u32, chunk: Seq<u8>)
    ensures
        plan_fits(program_steps(info, address, chunk)),
{
    let s = program_steps(info, address, chunk);
    lemma_small_exchange(seq![seq![CMD_WRITE_ENABLE]], 0);
    lemma_small_exchange(
        seq![address_header(info.address_mode, CMD_PAGE_PROGRAM_3B, CMD_PAGE_PROGRAM_4B, address), chunk],
        0,
    );
    lemma_await_small(PAGE_PROGRAM_TIMEOUT_MS);
    assert forall|i: int| 0 <= i < s.len() implies #[trigger] step_actions(s[i]).len() < usize::MAX by {
    }
}

/// The plan that programs `data` from `address` on, page by page.
fn program_chunks(info: &DeviceInfo, address: u32, data: &[u8]) -> (p: Plan)
    requires
        info_wf(*info),
        address + data@.len() <= info.capacity_bytes,
    ensures
        p@ == program_pieces(*info, page_split(address as nat, data@)),
        plan_fits(p@.steps),
{
    let mut steps: Vec<Step> = Vec::new();
    let mut cursor: u32 = address;
    let mut consumed: usize = 0;
    let ghost whole = program_pieces(*info, page_split(address as nat, data@));
    assert(steps@.map_values(|s: Step| s@) =~= Seq::<StepView>::empty());
    assert(data@.skip(0) =~= data@);
    while consumed < data.len()
        invariant
            info_wf(*info),
            consumed <= data@.len(),
            cursor + (data@.len() - consumed) == address + data@.len(),
            address + data@.len() <= info.capacity_bytes,
            whole == program_pieces(*info, page_split(address as nat, data@)),
            ({
                let rest = program_pieces(*info, page_split(cursor as nat, data@.skip(consumed as int)));
                whole.steps == steps@.map_values(|s: Step| s@) + rest.steps
            }),
            plan_fits(steps@.map_values(|s: Step| s@)),
        decreases data@.len() - consumed,
    {
        let ghost rest_data = data@.skip(consumed as int);
        let page_offset = cursor % PAGE_SIZE;
        let room = (PAGE_SIZE - page_offset) as usize;
        let left = data.len() - consumed;
        let writable = if left < room { left } else { room };
        let ghost n = min_nat(rest_data.len(), (PAGE_SIZE - (cursor as nat) % (PAGE_SIZE as nat)) as nat);
        assert(writable == n);
        let ghost pieces = page_split(cursor as nat, rest_data);
        assert(pieces == seq![(cursor as nat, rest_data.take(n as int))] + page_split(cursor as nat + n, rest_data.skip(n as int)));
        assert(pieces.drop_first() =~= page_split(cursor as nat + n, rest_data.skip(n as int)));
        let chunk = copy_range(data, consumed, consumed + writable);
        assert(chunk@ =~= rest_data.take(n as int));
        let ghost prev = steps@.map_values(|s: Step| s@);
        push_program(&mut steps, info, cursor, chunk);
        proof {
            lemma_program_steps_fit(*info, cursor, rest_data.take(n as int));
            lemma_fits_concat(prev, program_steps(*info, cursor, rest_data.take(n as int)));
            assert(data@.skip((consumed + writable) as int) =~= rest_data.skip(n as int));
        }
        cursor = cursor + writable as u32;
        consumed = consumed + writable;
    }
    assert(data@.skip(consumed as int) =~= Seq::<u8>::empty());
    assert(whole.steps =~= steps@.map_values(|s: Step| s@));
    plan_of(steps)
}

/// The JEDEC id that a finished id read returned.
pub fn jedec_id_from<E1, E2>(outcome: Result<Vec<u8>, Error<E1, E2>>) -> (r: Result<JedecId, Error<E1, E2>>)
    requires
        outcome matches Ok(bytes) ==> bytes@.len() == 3,
    ensures
        r == match outcome_view(outcome) {
            Ok(bytes) => Ok(jedec_of(bytes)),
            Err(e) => Err::<JedecId, Error<E1, E2>>(e),
        },
{
    match outcome {
        Ok(bytes) => Ok(JedecId { manufacturer_code: bytes[0], memory_type: bytes[1], capacity_code: bytes[2] }),
        Err(e) => Err(e),
    }
}

/// What the driver knows of the part: the part itself, and (as a ghost
/// record) the result of every identification so far.
struct Knowledge {
    part: Option<DeviceInfo>,
    history: Ghost<Seq<Option<DeviceInfo>>>,
}

impl Knowledge {
    #[verifier::type_invariant]
    spec fn inv(self) -> bool {
        &&& self.part == last_success(self.history@)
        &&& self.part matches Some(i) ==> info_wf(i)
    }
}

/// A flash part on an SPI bus: the bus, its chip-select pin, a delay
/// source, and what identification learned of the part.
pub struct SpiFlash<SPI, CS, DELAY> {
    spi: SPI,
    cs: CS,
    delay: DELAY,
    knowledge: Knowledge,
}

impl<SPI, CS, DELAY> SpiFlash<SPI, CS, DELAY> {
    /// The result of every identification run on this driver since `new`,
    /// oldest first: the part found, or `None` for a failed one.
    pub closed spec fn identifications(&self) -> Seq<Option<DeviceInfo>> {
        self.knowledge.history@
    }

    /// What identification learned of the part: the part of the most recent
    /// identification that succeeded.
    pub open spec fn info(&self) -> Option<DeviceInfo> {
        last_success(self.identifications())
    }

    /// The bus, pin and delay source.
    pub closed spec fn parts(&self) -> (SPI, CS, DELAY) {
        (self.spi, self.cs, self.delay)
    }

    /// The identified part, with the invariant that identification gives it.
    fn known(&self) -> (r: Option<DeviceInfo>)
        ensures
            r == self.info(),
            r matches Some(i) ==> info_wf(i),
    {
        let k = &self.knowledge;
        proof {
            use_type_invariant(k);
        }
        k.part
    }

    /// A driver for a part not yet identified.
    pub fn new(spi: SPI, cs: CS, delay: DELAY) -> (r: Self)
        ensures
            r.identifications() == Seq::<Option<DeviceInfo>>::empty(),
            r.info() == None::<DeviceInfo>,
            r.parts() == (spi, cs, delay),
    {
        SpiFlash { spi, cs, delay, knowledge: Knowledge { part: None, history: Ghost(Seq::empty()) } }
    }

    /// What identification learned of the part, if it ran.
    pub fn device_info(&self) -> (r: Option<DeviceInfo>)
        ensures
            r == self.info(),
            r matches Some(i) ==> info_wf(i),
    {
        self.known()
    }

    /// Gives the bus, pin and delay source back.
    pub fn release(self) -> (r: (SPI, CS, DELAY))
        ensures
            r == self.parts(),
    {
        (self.spi, self.cs, self.delay)
    }

    /// The SPI bus, for performing bus actions.
    pub fn spi_mut(&mut self) -> (r: &mut SPI)
        ensures
            *r == old(self).parts().0,
            final(self).parts() == (*final(r), old(self).parts().1, old(self).parts().2),
            final(self).identifications() == old(self).identifications(),
    {
        &mut self.spi
    }

    /// The chip-select pin, for performing pin actions.
    pub fn cs_mut(&mut self) -> (r: &mut CS)
        ensures
            *r == old(self).parts().1,
            final(self).parts() == (old(self).parts().0, *final(r), old(self).parts().2),
            final(self).identifications() == old(self).identifications(),
    {
        &mut self.cs
    }

    /// The delay source, for performing waits.
    pub fn delay_mut(&mut self) -> (r: &mut DELAY)
        ensures
            *r == old(self).parts().2,
            final(self).parts() == (old(self).parts().0, old(self).parts().1, *final(r)),
            final(self).identifications() == old(self).identifications(),
    {
        &mut self.delay
    }

    /// The identified part, or `NotInitialized`.
    pub fn require_info<E1, E2>(&self) -> (r: Result<DeviceInfo, Error<E1, E2>>)
        ensures
            r == match self.info() {
                Some(i) => Ok(i),
                None => not_initialized::<E1, E2, DeviceInfo>(),
            },
            r matches Ok(i) ==> info_wf(i),
    {
        match self.known() {
            Some(i) => Ok(i),
            None => Err(Error::NotInitialized),
        }
    }

    /// Checks that `len` bytes from `address` lie within the identified part.
    pub fn ensure_range<E1, E2>(&self, address: u32, len: usize) -> (r: Result<(), Error<E1, E2>>)
        ensures
            r == match self.info() {
                None => not_initialized::<E1, E2, ()>(),
                Some(i) => if range_fits(i, address, len as nat) {
                    Ok(())
                } else {
                    out_of_bounds::<E1, E2, ()>()
                },
            },
    {
        let info = self.require_info()?;
        if address > info.capacity_bytes || len > (info.capacity_bytes - address) as usize {
            return Err(Error::OutOfBounds);
        }
        Ok(())
    }

    /// The plan of identification.
    pub fn plan_initialize(&self) -> (p: Plan)
        ensures
            p@ == initialize_plan(),
            plan_fits(p@.steps),
    {
        let mut id: Vec<u8> = Vec::new();
        id.push(CMD_READ_JEDEC_ID);
        assert(id@ =~= seq![CMD_READ_JEDEC_ID]);
        let mut steps: Vec<Step> = Vec::new();
        steps.push(Step::Release);
        steps.push(Step::Pause(INIT_DELAY_MS));
        steps.push(command(CMD_WRITE_DISABLE));
        steps.push(single_write(id, 3));
        let p = plan_of(steps);
        proof {
            assert(p@.steps =~= initialize_plan().steps);
            lemma_small_exchange(seq![seq![CMD_WRITE_DISABLE]], 0);
            lemma_small_exchange(seq![seq![CMD_READ_JEDEC_ID]], 3);
            assert forall|i: int| 0 <= i < p@.steps.len() implies #[trigger] step_actions(p@.steps[i]).len() < usize::MAX by {}
        }
        p
    }

    /// The plan that reads the JEDEC id.
    pub fn plan_read_jedec_id(&self) -> (p: Plan)
        ensures
            p@ == read_jedec_id_plan(),
            plan_fits(p@.steps),
    {
        let mut id: Vec<u8> = Vec::new();
        id.push(CMD_READ_JEDEC_ID);
        assert(id@ =~= seq![CMD_READ_JEDEC_ID]);
        let mut steps: Vec<Step> = Vec::new();
        steps.push(single_write(id, 3));
        let p = plan_of(steps);
        proof {
            assert(p@.steps =~= read_jedec_id_plan().steps);
            lemma_small_exchange(seq![seq![CMD_READ_JEDEC_ID]], 3);
            assert forall|i: int| 0 <= i < p@.steps.len() implies #[trigger] step_actions(p@.steps[i]).len() < usize::MAX by {}
        }
        p
    }

    /// The plan of a chip erase.
    pub fn plan_erase_chip<E1, E2>(&self) -> (r: Result<Plan, Error<E1, E2>>)
        ensures
            planned(r, spec_erase_chip(self.info())),
    {
        let info = self.require_info()?;
        let mut steps: Vec<Step> = Vec::new();
        steps.push(command(CMD_WRITE_ENABLE));
        steps.push(command(CMD_CHIP_ERASE));
        let product: u64 = info.block_count as u64 * CHIP_ERASE_MS_PER_BLOCK as u64;
        let timeout: u32 = if product > u32::MAX as u64 { u32::MAX } else { product as u32 };
        steps.push(Step::AwaitReady(timeout));
        let p = plan_of(steps);
        proof {
            let v = spec_erase_chip::<E1, E2>(self.info())->Ok_0;
            assert(p@.steps =~= v.steps);
            lemma_small_exchange(seq![seq![CMD_WRITE_ENABLE]], 0);
            lemma_small_exchange(seq![seq![CMD_CHIP_ERASE]], 0);
            lemma_await_small(chip_erase_timeout(info));
            assert forall|i: int| 0 <= i < p@.steps.len() implies #[trigger] step_actions(p@.steps[i]).len() < usize::MAX by {}
        }
        Ok(p)
    }

    /// The plan of an erase of the unit at `address`.
    fn addressed_erase(info: &DeviceInfo, command_3b: u8, command_4b: u8, address: u32, timeout: u32) -> (p: Plan)
        ensures
            p@ == erase_plan(*info, command_3b, command_4b, address, timeout),
            plan_fits(p@.steps),
    {
        let header = header_vec(info.address_mode, command_3b, command_4b, address);
        let mut steps: Vec<Step> = Vec::new();
        steps.push(command(CMD_WRITE_ENABLE));
        steps.push(single_write(header, 0));
        steps.push(Step::AwaitReady(timeout));
        let p = plan_of(steps);
        proof {
            assert(p@.steps =~= erase_plan(*info, command_3b, command_4b, address, timeout).steps);
            lemma_small_exchange(seq![seq![CMD_WRITE_ENABLE]], 0);
            lemma_small_exchange(seq![address_header(info.address_mode, command_3b, command_4b, address)], 0);
            lemma_await_small(timeout);
            assert forall|i: int| 0 <= i < p@.steps.len() implies #[trigger] step_actions(p@.steps[i]).len() < usize::MAX by {}
        }
        p
    }

    /// The plan of an erase of sector `sector`.
    pub fn plan_erase_sector<E1, E2>(&self, sector: u32) -> (r: Result<Plan, Error<E1, E2>>)
        ensures
            planned(r, spec_erase_sector(self.info(), sector)),
    {
        let info = match self.known() {
            Some(i) => i,
            None => return Err(Error::NotInitialized),
        };
        if sector >= info.sector_count {
            return Err(Error::OutOfBounds);
        }
        let address = info.sector_address(sector);
        Ok(Self::addressed_erase(&info, CMD_SECTOR_ERASE_3B, CMD_SECTOR_ERASE_4B, address, SECTOR_ERASE_TIMEOUT_MS))
    }

    /// The plan of an erase of block `block`.
    pub fn plan_erase_block<E1, E2>(&self, block: u32) -> (r: Result<Plan, Error<E1, E2>>)
        ensures
            planned(r, spec_erase_block(self.info(), block)),
    {
        let info = match self.known() {
            Some(i) => i,
            None => return Err(Error::NotInitialized),
        };
        if block >= info.block_count {
            return Err(Error::OutOfBounds);
        }
        let address = info.block_address(block);
        Ok(Self::addressed_erase(&info, CMD_BLOCK_ERASE_3B, CMD_BLOCK_ERASE_4B, address, BLOCK_ERASE_TIMEOUT_MS))
    }

    /// The plan of a write of `data` from `address` on: the range must lie
    /// within the part, and the data is programmed page by page.
    pub fn plan_write_address<E1, E2>(&self, address: u32, data: &[u8]) -> (r: Result<Plan, Error<E1, E2>>)
        ensures
            planned(r, spec_write_address(self.info(), address, data@)),
    {
        self.ensure_range(address, data.len())?;
        let info = match self.known() {
            Some(i) => i,
            None => return Err(Error::NotInitialized),
        };
        Ok(program_chunks(&info, address, data))
    }

    /// The plan of a write of `data` into page `page` from `offset` on.
    pub fn plan_write_page<E1, E2>(&self, page: u32, offset: u32, data: &[u8]) -> (r: Result<Plan, Error<E1, E2>>)
        ensures
            planned(r, spec_write_page(self.info(), page, offset, data@)),
    {
        let info = match self.known() {
            Some(i) => i,
            None => return Err(Error::NotInitialized),
        };
        if page >= info.page_count || offset >= PAGE_SIZE || data.len() > (PAGE_SIZE - offset) as usize {
            return Err(Error::OutOfBounds);
        }
        let address = info.page_address(page) + offset;
        self.plan_program_page(address, data)
    }

    /// The plan of a write of `data` into sector `sector` from `offset` on.
    pub fn plan_write_sector<E1, E2>(&self, sector: u32, offset: u32, data: &[u8]) -> (r: Result<Plan, Error<E1, E2>>)
        ensures
            planned(r, spec_write_sector(self.info(), sector, offset, data@)),
    {
        let info = match self.known() {
            Some(i) => i,
            None => return Err(Error::NotInitialized),
        };
        if sector >= info.sector_count || offset > SECTOR_SIZE || data.len() > (SECTOR_SIZE - offset) as usize {
            return Err(Error::OutOfBounds);
        }
        self.plan_write_address(info.sector_address(sector) + offset, data)
    }

    /// The plan of a write of `data` into block `block` from `offset` on.
    pub fn plan_write_block<E1, E2>(&self, block: u32, offset: u32, data: &[u8]) -> (r: Result<Plan, Error<E1, E2>>)
        ensures
            planned(r, spec_write_block(self.info(), block, offset, data@)),
    {
        let info = match self.known() {
            Some(i) => i,
            None => return Err(Error::NotInitialized),
        };
        if block >= info.block_count || offset > BLOCK_SIZE || data.len() > (BLOCK_SIZE - offset) as usize {
            return Err(Error::OutOfBounds);
        }
        self.plan_write_address(info.block_address(block) + offset, data)
    }

    /// The plan of a read of `len` bytes from `address` on; the bytes come
    /// back as the outcome of the run.
    pub fn plan_read_address<E1, E2>(&self, address: u32, len: usize) -> (r: Result<Plan, Error<E1, E2>>)
        ensures
            planned(r, spec_read_address(self.info(), address, len as nat)),
    {
        self.ensure_range(address, len)?;
        if len == 0 {
            let p = plan_of(Vec::new());
            assert(p@.steps =~= Seq::<StepView>::empty());
            return Ok(p);
        }
        let info = match self.known() {
            Some(i) => i,
            None => return Err(Error::NotInitialized),
        };
        let header = header_vec(info.address_mode, CMD_READ_DATA_3B, CMD_READ_DATA_4B, address);
        let mut steps: Vec<Step> = Vec::new();
        steps.push(single_write(header, len));
        let p = plan_of(steps);
        proof {
            let v = spec_read_address::<E1, E2>(self.info(), address, len as nat)->Ok_0;
            assert(p@.steps =~= v.steps);
            lemma_small_exchange(seq![address_header(info.address_mode, CMD_READ_DATA_3B, CMD_READ_DATA_4B, address)], len as nat);
            assert forall|i: int| 0 <= i < p@.steps.len() implies #[trigger] step_actions(p@.steps[i]).len() < usize::MAX by {}
        }
        Ok(p)
    }

    /// The plan of a read of `len` bytes of page `page` from `offset` on.
    pub fn plan_read_page<E1, E2>(&self, page: u32, offset: u32, len: usize) -> (r: Result<Plan, Error<E1, E2>>)
        ensures
            planned(r, spec_read_page(self.info(), page, offset, len as nat)),
    {
        let info = match self.known() {
            Some(i) => i,
            None => return Err(Error::NotInitialized),
        };
        if page >= info.page_count || offset > PAGE_SIZE || len > (PAGE_SIZE - offset) as usize {
            return Err(Error::OutOfBounds);
        }
        self.plan_read_address(info.page_address(page) + offset, len)
    }

    /// The plan of a read of `len` bytes of sector `sector` from `offset` on.
    pub fn plan_read_sector<E1, E2>(&self, sector: u32, offset: u32, len: usize) -> (r: Result<Plan, Error<E1, E2>>)
        ensures
            planned(r, spec_read_sector(self.info(), sector, offset, len as nat)),
    {
        let info = match self.known() {
            Some(i) => i,
            None => return Err(Error::NotInitialized),
        };
        if sector >= info.sector_count || offset > SECTOR_SIZE || len > (SECTOR_SIZE - offset) as usize {
            return Err(Error::OutOfBounds);
        }
        self.plan_read_address(info.sector_address(sector) + offset, len)
    }

    /// The plan of a read of `len` bytes of block `block` from `offset` on.
    pub fn plan_read_block<E1, E2>(&self, block: u32, offset: u32, len: usize) -> (r: Result<Plan, Error<E1, E2>>)
        ensures
            planned(r, spec_read_block(self.info(), block, offset, len as nat)),
    {
        let info = match self.known() {
            Some(i) => i,
            None => return Err(Error::NotInitialized),
        };
        if block >= info.block_count || offset > BLOCK_SIZE || len > (BLOCK_SIZE - offset) as usize {
            return Err(Error::OutOfBounds);
        }
        self.plan_read_address(info.block_address(block) + offset, len)
    }

    /// Ends identification: decodes the JEDEC id that the plan read,
    /// identifies the part, and remembers it; on failure the driver keeps
    /// what it knew before.
    pub fn finish_initialize<E1, E2>(&mut self, outcome: Result<Vec<u8>, Error<E1, E2>>) -> (r: Result<DeviceInfo, Error<E1, E2>>)
        requires
            outcome matches Ok(bytes) ==> bytes@.len() == 3,
        ensures
            r == spec_initialize_result(outcome_view(outcome)),
            final(self).info() == match r {
                Ok(i) => Some(i),
                Err(_) => old(self).info(),
            },
            final(self).identifications() == old(self).identifications().push(match r {
                Ok(i) => Some(i),
                Err(_) => None,
            }),
            final(self).parts() == old(self).parts(),
    {
        let ghost before = self.knowledge.history@;
        proof {
            use_type_invariant(&self.knowledge);
        }
        let r = match jedec_id_from(outcome) {
            Ok(jedec_id) => device_info_from_jedec(jedec_id),
            Err(e) => Err(e),
        };
        let part = match r {
            Ok(info) => Some(info),
            Err(_) => self.knowledge.part,
        };
        let ghost entry = match r {
            Ok(i) => Some(i),
            Err(_) => None::<DeviceInfo>,
        };
        let ghost after = before.push(entry);
        proof {
            assert(after.drop_last() =~= before);
        }
        self.knowledge = Knowledge { part, history: Ghost(after) };
        r
    }

    /// The plan that programs `data` at `address`, which must lie within one
    /// page.
    fn plan_program_page<E1, E2>(&self, address: u32, data: &[u8]) -> (r: Result<Plan, Error<E1, E2>>)
        ensures
            planned(r, spec_program_page(self.info(), address, data@)),
    {
        self.ensure_range(address, data.len())?;
        if data.len() == 0 {
            let p = plan_of(Vec::new());
            assert(p@.steps =~= Seq::<StepView>::empty());
            return Ok(p);
        }
        let info = match self.known() {
            Some(i) => i,
            None => return Err(Error::NotInitialized),
        };
        if crosses_boundary(address, data.len(), PAGE_SIZE) {
            return Err(Error::OutOfBounds);
        }
        let chunk = copy_range(data, 0, data.len());
        assert(chunk@ =~= data@);
        let mut steps: Vec<Step> = Vec::new();
        assert(steps@.map_values(|s: Step| s@) =~= Seq::<StepView>::empty());
        push_program(&mut steps, &info, address, chunk);
        assert(steps@.map_values(|s: Step| s@) =~= program_steps(info, address, data@));
        proof {
            lemma_program_steps_fit(info, address, data@);
        }
        Ok(plan_of(steps))
    }
}

} // verus!
