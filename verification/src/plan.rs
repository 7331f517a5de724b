use vstd::prelude::*;

use crate::command::CMD_READ_STATUS1;

verus! {

/// One chip-select framed SPI transaction: select the part, write each
/// buffer in turn, read `read_len` bytes when that is not zero, flush the
/// bus, release the part.
#[derive(Debug)]
pub struct Exchange {
    pub writes: Vec<Vec<u8>>,
    pub read_len: usize,
}

/// One step of a command plan.
#[derive(Debug)]
pub enum Step {
    /// Drive chip select high.
    Release,
    /// Wait the given number of milliseconds.
    Pause(u32),
    /// Run one transaction.
    Exchange(Exchange),
    /// Poll status register 1 until its busy bit clears, waiting 1 ms between
    /// polls and giving up after the given number of milliseconds.
    AwaitReady(u32),
}

/// What one operation does on the bus: its steps in order.
#[derive(Debug)]
pub struct Plan {
    pub steps: Vec<Step>,
}

/// A step as plain values.
pub enum StepView {
    Release,
    Pause(u32),
    Exchange(Seq<Seq<u8>>, nat),
    AwaitReady(u32),
}

/// A plan as plain values.
pub struct PlanView {
    pub steps: Seq<StepView>,
}

/// One thing the bus driver is asked to do.
#[derive(Debug)]
pub enum BusAction {
    /// Drive chip select low.
    Select,
    /// Drive chip select high.
    Deselect,
    /// Write these bytes on the bus.
    Write(Vec<u8>),
    /// Read this many bytes from the bus.
    Read(usize),
    /// Wait until the bus has finished all transfers.
    Flush,
    /// Wait this many milliseconds.
    DelayMs(u32),
    /// The operation is over; its outcome is ready.
    Finished,
}

/// A bus action as plain values.
pub enum ActionView {
    Select,
    Deselect,
    Write(Seq<u8>),
    Read(nat),
    Flush,
    DelayMs(u32),
    Finished,
}

/// What came of the last bus action.
#[derive(Debug)]
pub enum BusEvent<SpiError, PinError> {
    /// A pin change, write, flush or delay completed.
    Done,
    /// A read completed with these bytes.
    Data(Vec<u8>),
    /// The SPI bus failed.
    SpiFault(SpiError),
    /// The chip-select pin failed.
    PinFault(PinError),
}

/// A bus event as plain values.
pub enum EventView<SpiError, PinError> {
    Done,
    Data(Seq<u8>),
    SpiFault(SpiError),
    PinFault(PinError),
}

impl Exchange {
    pub open spec fn writes_view(&self) -> Seq<Seq<u8>> {
        self.writes@.map_values(|w: Vec<u8>| w@)
    }
}

impl View for Step {
    type V = StepView;

    open spec fn view(&self) -> StepView {
        match self {
            Step::Release => StepView::Release,
            Step::Pause(ms) => StepView::Pause(*ms),
            Step::Exchange(x) => StepView::Exchange(x.writes_view(), x.read_len as nat),
            Step::AwaitReady(t) => StepView::AwaitReady(*t),
        }
    }
}

impl View for Plan {
    type V = PlanView;

    open spec fn view(&self) -> PlanView {
        PlanView {
            steps: self.steps@.map_values(|s: Step| s@),
        }
    }
}

impl View for BusAction {
    type V = ActionView;

    open spec fn view(&self) -> ActionView {
        match self {
            BusAction::Select => ActionView::Select,
            BusAction::Deselect => ActionView::Deselect,
            BusAction::Write(b) => ActionView::Write(b@),
            BusAction::Read(n) => ActionView::Read(*n as nat),
            BusAction::Flush => ActionView::Flush,
            BusAction::DelayMs(ms) => ActionView::DelayMs(*ms),
            BusAction::Finished => ActionView::Finished,
        }
    }
}

impl<SpiError, PinError> View for BusEvent<SpiError, PinError> {
    type V = EventView<SpiError, PinError>;

    open spec fn view(&self) -> EventView<SpiError, PinError> {
        match self {
            BusEvent::Done => EventView::Done,
            BusEvent::Data(d) => EventView::Data(d@),
            BusEvent::SpiFault(e) => EventView::SpiFault(*e),
            BusEvent::PinFault(e) => EventView::PinFault(*e),
        }
    }
}

/// The actions of a transaction on a bus that never fails.
pub open spec fn exchange_actions(writes: Seq<Seq<u8>>, read_len: nat) -> Seq<ActionView> {
    seq![ActionView::Select] + writes.map_values(|w: Seq<u8>| ActionView::Write(w)) + (if read_len > 0 {
        seq![ActionView::Read(read_len)]
    } else {
        Seq::empty()
    }) + seq![ActionView::Flush, ActionView::Deselect]
}

/// The one-byte command that reads status register 1.
pub open spec fn status_command() -> Seq<Seq<u8>> {
    seq![seq![CMD_READ_STATUS1]]
}

/// The actions of a step on a bus that never fails and a part that is never
/// busy (for a status poll: one poll).
pub open spec fn step_actions(step: StepView) -> Seq<ActionView> {
    match step {
        StepView::Release => seq![ActionView::Deselect],
        StepView::Pause(ms) => seq![ActionView::DelayMs(ms)],
        StepView::Exchange(writes, read_len) => exchange_actions(writes, read_len),
        StepView::AwaitReady(_) => exchange_actions(status_command(), 1),
    }
}

/// The actions of a sequence of steps on a bus that never fails and a part
/// that is never busy: the actions of each step, in order.
pub open spec fn plan_actions(steps: Seq<StepView>) -> Seq<ActionView>
    decreases steps.len(),
{
    if steps.len() == 0 {
        Seq::empty()
    } else {
        plan_actions(steps.drop_last()) + step_actions(steps.last())
    }
}

/// Index `p` of the actions of a transaction.
pub proof fn lemma_exchange_index(writes: Seq<Seq<u8>>, read_len: nat, p: int)
    requires
        0 <= p < exchange_actions(writes, read_len).len(),
    ensures
        exchange_actions(writes, read_len).len() == writes.len() + (if read_len > 0 { 3int } else { 2int }) + 1,
        exchange_actions(writes, read_len)[p] == if p == 0 {
            ActionView::Select
        } else if p <= writes.len() {
            ActionView::Write(writes[p - 1])
        } else if read_len > 0 && p == writes.len() + 1 {
            ActionView::Read(read_len)
        } else if p == exchange_actions(writes, read_len).len() - 2 {
            ActionView::Flush
        } else {
            ActionView::Deselect
        },
{
    let a = seq![ActionView::Select];
    let b = writes.map_values(|w: Seq<u8>| ActionView::Write(w));
    let c: Seq<ActionView> = if read_len > 0 {
        seq![ActionView::Read(read_len)]
    } else {
        Seq::empty()
    };
    let d = seq![ActionView::Flush, ActionView::Deselect];
    assert(exchange_actions(writes, read_len) == a + b + c + d);
    if 1 <= p <= writes.len() {
        assert((a + b)[p] == b[p - 1]);
    }
}

/// Every step has at least one action.
pub proof fn lemma_step_actions_len(step: StepView)
    ensures
        step_actions(step).len() >= 1,
        step is Exchange || step is AwaitReady ==> step_actions(step).len() >= 3,
{
    match step {
        StepView::Exchange(w, r) => {
            lemma_exchange_index(w, r, 0);
        },
        StepView::AwaitReady(_) => {
            lemma_exchange_index(status_command(), 1, 0);
        },
        _ => {},
    }
}

} // verus!
