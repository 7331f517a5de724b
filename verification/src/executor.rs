use vstd::prelude::*;

use crate::command::STATUS_BUSY;
use crate::error::Error;
use crate::plan::{
    ActionView, BusAction, BusEvent, EventView, Exchange, Plan, PlanView, Step, StepView,
    exchange_actions, lemma_exchange_index, lemma_step_actions_len, plan_actions, status_command,
    step_actions,
};

verus! {

/// The state of a running plan, as plain values.
pub struct RunView<SpiError, PinError> {
    pub steps: Seq<StepView>,
    /// Index of the step being run.
    pub step: int,
    /// Index, in the actions of that step, of the next action.
    pub phase: int,
    /// Milliseconds waited so far for the part to become ready.
    pub waited: u32,
    /// Whether the next action is the 1 ms wait between two status polls.
    pub delaying: bool,
    /// A bus error that ends the operation once chip select is released.
    pub pending: Option<SpiError>,
    /// The bytes of the last data read.
    pub payload: Seq<u8>,
    /// The last status byte read.
    pub status: u8,
    pub outcome: Option<Result<Seq<u8>, Error<SpiError, PinError>>>,
    /// Every action performed so far.
    pub log: Seq<ActionView>,
    /// Whether every event so far was a success and every status poll found
    /// the part ready.
    pub clean: bool,
}

/// `x + 1`, held at `u32::MAX`.
pub open spec fn saturating_inc(x: u32) -> u32 {
    if x == u32::MAX { x } else { (x + 1) as u32 }
}

/// Whether a status byte says that the part is busy.
pub open spec fn is_busy(status: u8) -> bool {
    status & STATUS_BUSY != 0
}

/// Whether every step's actions can be counted in a `usize`.
pub open spec fn plan_fits(steps: Seq<StepView>) -> bool {
    forall|i: int| 0 <= i < steps.len() ==> #[trigger] step_actions(steps[i]).len() < usize::MAX
}

impl<SpiError, PinError> RunView<SpiError, PinError> {
    /// The actions of the current step on a bus that never fails.
    pub open spec fn current(self) -> Seq<ActionView> {
        step_actions(self.steps[self.step])
    }

    pub open spec fn is_finished(self) -> bool {
        self.outcome is Some
    }

    /// The action that the driver must perform next.
    pub open spec fn action(self) -> ActionView {
        if self.outcome is Some {
            ActionView::Finished
        } else if self.delaying {
            ActionView::DelayMs(1)
        } else {
            self.current()[self.phase]
        }
    }

    /// Whether an event is a possible reply to the next action: a pin
    /// action succeeds or fails on the pin, a write or flush succeeds or
    /// fails on the bus, a read yields exactly the bytes asked for or fails
    /// on the bus, and a delay always completes.
    pub open spec fn accepts(self, e: EventView<SpiError, PinError>) -> bool {
        match self.action() {
            ActionView::Select | ActionView::Deselect => e is Done || e is PinFault,
            ActionView::Write(_) | ActionView::Flush => e is Done || e is SpiFault,
            ActionView::Read(n) => (e matches EventView::Data(d) && d.len() == n) || e is SpiFault,
            ActionView::DelayMs(_) => e is Done,
            ActionView::Finished => false,
        }
    }

    /// The operation's result once every step has run: the bytes of its
    /// data read (none for an operation without one).
    pub open spec fn planned_outcome(self) -> Result<Seq<u8>, Error<SpiError, PinError>> {
        Ok(self.payload)
    }

    /// Ends the operation once no step is left.
    pub open spec fn settle(self) -> Self {
        if self.step >= self.steps.len() && self.outcome is None {
            RunView { outcome: Some(self.planned_outcome()), ..self }
        } else {
            self
        }
    }

    /// Moves on to the next step.
    pub open spec fn complete_step(self) -> Self {
        RunView { step: self.step + 1, phase: 0, waited: 0, ..self }.settle()
    }

    pub open spec fn finish(self, r: Result<Seq<u8>, Error<SpiError, PinError>>) -> Self {
        RunView { outcome: Some(r), ..self }
    }

    pub open spec fn to_phase(self, p: int) -> Self {
        RunView { phase: p, ..self }
    }

    /// A bus error inside a transaction: go straight to releasing the part.
    pub open spec fn fault(self, x: SpiError) -> Self {
        RunView { pending: Some(x), phase: self.current().len() - 1, ..self }
    }

    /// Whether an event is a success that, for a status poll, found the part
    /// ready.
    pub open spec fn clean_reply(self, e: EventView<SpiError, PinError>) -> bool {
        &&& (e is Done || e is Data)
        &&& !(self.steps[self.step] is AwaitReady && self.action() == ActionView::Deselect
            && is_busy(self.status))
    }

    /// The state after the driver performed the next action and reported `e`.
    pub open spec fn next(self, e: EventView<SpiError, PinError>) -> Self {
        let a = self.action();
        let s = RunView { log: self.log.push(a), clean: self.clean && self.clean_reply(e), ..self };
        match a {
            ActionView::Select => match e {
                EventView::PinFault(x) => s.finish(Err(Error::Pin(x))),
                _ => s.to_phase(self.phase + 1),
            },
            ActionView::Write(_) | ActionView::Flush => match e {
                EventView::SpiFault(x) => s.fault(x),
                _ => s.to_phase(self.phase + 1),
            },
            ActionView::Read(_) => match e {
                EventView::SpiFault(x) => s.fault(x),
                EventView::Data(d) => if self.steps[self.step] is AwaitReady {
                    RunView { status: d[0], ..s }.to_phase(self.phase + 1)
                } else {
                    RunView { payload: d, ..s }.to_phase(self.phase + 1)
                },
                _ => s.to_phase(self.phase + 1),
            },
            ActionView::Deselect => match e {
                EventView::PinFault(x) => s.finish(Err(Error::Pin(x))),
                _ => match self.pending {
                    Some(x) => RunView { pending: None, ..s }.finish(Err(Error::Spi(x))),
                    None => match self.steps[self.step] {
                        StepView::AwaitReady(timeout) => if !is_busy(self.status) {
                            s.complete_step()
                        } else if self.waited >= timeout {
                            s.finish(Err(Error::BusyTimeout))
                        } else {
                            RunView { delaying: true, phase: 0, ..s }
                        },
                        _ => s.complete_step(),
                    },
                },
            },
            ActionView::DelayMs(_) => if self.delaying {
                RunView { delaying: false, waited: saturating_inc(self.waited), phase: 0, ..s }
            } else {
                s.complete_step()
            },
            ActionView::Finished => self,
        }
    }

    /// Whether chip select is asserted: the current transaction selected the
    /// part and has not yet released it.
    pub open spec fn selected(self) -> bool {
        &&& self.outcome is None
        &&& !self.delaying
        &&& (self.steps[self.step] is Exchange || self.steps[self.step] is AwaitReady)
        &&& self.phase >= 1
    }

    /// The invariant of a running plan.
    pub open spec fn wf(self) -> bool {
        &&& plan_fits(self.steps)
        &&& 0 <= self.step <= self.steps.len()
        &&& self.outcome is None ==> self.step < self.steps.len() && 0 <= self.phase < self.current().len()
        &&& self.delaying ==> self.outcome is None && self.steps[self.step] is AwaitReady && self.phase == 0
        &&& self.outcome is None ==> match self.steps[self.step] {
            StepView::AwaitReady(timeout) => self.waited <= timeout && (self.delaying ==> self.waited < timeout),
            _ => true,
        }
        &&& self.pending is Some && self.outcome is None ==> {
            &&& !self.delaying
            &&& (self.steps[self.step] is Exchange || self.steps[self.step] is AwaitReady)
            &&& self.phase == self.current().len() - 1
        }
        &&& self.clean ==> self.pending is None && !self.delaying && self.waited == 0
        &&& self.clean && self.outcome is None ==> self.log == plan_actions(self.steps.take(self.step))
            + self.current().take(self.phase)
        &&& self.clean && self.outcome is Some ==> {
            &&& self.log == plan_actions(self.steps)
            &&& self.outcome == Some(self.planned_outcome())
        }
        &&& self.outcome matches Some(Ok(b)) ==> self.step >= self.steps.len() && b == self.payload
        &&& self.payload.len() == last_read_len(self.steps.take(self.step)) || self.read_in_step()
        &&& self.outcome is None && self.pending is None ==> match self.steps[self.step] {
            StepView::Exchange(w, r) => r > 0 && self.phase >= w.len() + 2 ==> self.payload.len() == r,
            _ => true,
        }
    }

    /// Whether the current step is a transaction with a data read that has
    /// already delivered its bytes into the payload.
    pub open spec fn read_in_step(self) -> bool {
        &&& self.step < self.steps.len()
        &&& self.steps[self.step] matches StepView::Exchange(w, r) && r > 0 && self.phase >= w.len() + 2
            && self.payload.len() == r
    }
}

/// How many bytes the last data read of these steps asks for (zero when
/// none reads data).
pub open spec fn last_read_len(steps: Seq<StepView>) -> nat
    decreases steps.len(),
{
    if steps.len() == 0 {
        0
    } else {
        match steps.last() {
            StepView::Exchange(_, r) => if r > 0 { r } else { last_read_len(steps.drop_last()) },
            _ => last_read_len(steps.drop_last()),
        }
    }
}

/// The result of an operation, as plain values.
pub open spec fn outcome_view<SpiError, PinError>(r: Result<Vec<u8>, Error<SpiError, PinError>>) -> Result<Seq<u8>, Error<SpiError, PinError>> {
    match r {
        Ok(v) => Ok(v@),
        Err(e) => Err(e),
    }
}

/// Runs a plan one bus action at a time: the driver asks `action` what to do,
/// does it, and reports what came of it to `advance`, until the action is
/// `Finished`.
pub struct Executor<SpiError, PinError> {
    steps: Vec<Step>,
    step: usize,
    phase: usize,
    waited: u32,
    delaying: bool,
    pending: Option<SpiError>,
    payload: Vec<u8>,
    status: u8,
    outcome: Option<Result<Vec<u8>, Error<SpiError, PinError>>>,
    log: Ghost<Seq<ActionView>>,
    clean: Ghost<bool>,
}

impl<SpiError, PinError> View for Executor<SpiError, PinError> {
    type V = RunView<SpiError, PinError>;

    closed spec fn view(&self) -> RunView<SpiError, PinError> {
        RunView {
            steps: self.steps@.map_values(|s: Step| s@),
            step: self.step as int,
            phase: self.phase as int,
            waited: self.waited,
            delaying: self.delaying,
            pending: self.pending,
            payload: self.payload@,
            status: self.status,
            outcome: match self.outcome {
                Some(r) => Some(outcome_view(r)),
                None => None,
            },
            log: self.log@,
            clean: self.clean@,
        }
    }
}

impl Plan {
    /// Whether every step's actions can be counted in a `usize`, as
    /// `Executor::new` needs.
    pub fn fits(&self) -> (b: bool)
        ensures
            b == plan_fits(self@.steps),
    {
        let mut i: usize = 0;
        while i < self.steps.len()
            invariant
                i <= self.steps@.len(),
                forall|j: int| 0 <= j < i ==> #[trigger] step_actions(self@.steps[j]).len() < usize::MAX,
            decreases self.steps@.len() - i,
        {
            proof {
                assert(self@.steps[i as int] == self.steps@[i as int]@);
                lemma_step_actions_len(self@.steps[i as int]);
            }
            let ok = match &self.steps[i] {
                Step::Exchange(x) => {
                    proof {
                        lemma_exchange_index(x.writes_view(), x.read_len as nat, 0);
                    }
                    if x.read_len > 0 {
                        x.writes.len() < usize::MAX - 4
                    } else {
                        x.writes.len() < usize::MAX - 3
                    }
                },
                Step::AwaitReady(_) => {
                    proof {
                        lemma_exchange_index(status_command(), 1, 0);
                    }
                    true
                },
                _ => true,
            };
            if !ok {
                return false;
            }
            i = i + 1;
        }
        true
    }
}

/// A copy of a byte vector.
pub fn copy_bytes(v: &Vec<u8>) -> (r: Vec<u8>)
    ensures
        r@ == v@,
{
    let mut r: Vec<u8> = Vec::new();
    let mut i: usize = 0;
    while i < v.len()
        invariant
            i <= v.len(),
            r@ == v@.take(i as int),
        decreases v.len() - i,
    {
        r.push(v[i]);
        i = i + 1;
        assert(r@ =~= v@.take(i as int));
    }
    assert(v@.take(v.len() as int) =~= v@);
    r
}

/// Action `phase` of a transaction.
fn exchange_action(x: &Exchange, phase: usize) -> (a: BusAction)
    requires
        phase < exchange_actions(x.writes_view(), x.read_len as nat).len(),
    ensures
        a@ == exchange_actions(x.writes_view(), x.read_len as nat)[phase as int],
{
    proof {
        lemma_exchange_index(x.writes_view(), x.read_len as nat, phase as int);
    }
    let k = x.writes.len();
    if phase == 0 {
        BusAction::Select
    } else if phase <= k {
        BusAction::Write(copy_bytes(&x.writes[phase - 1]))
    } else {
        let d = phase - k;
        if x.read_len > 0 {
            if d == 1 {
                BusAction::Read(x.read_len)
            } else if d == 2 {
                BusAction::Flush
            } else {
                BusAction::Deselect
            }
        } else {
            if d == 1 {
                BusAction::Flush
            } else {
                BusAction::Deselect
            }
        }
    }
}

/// The status poll as a transaction.
fn status_exchange() -> (x: Exchange)
    ensures
        x.writes_view() == status_command(),
        x.read_len == 1,
{
    let mut w: Vec<u8> = Vec::new();
    w.push(crate::command::CMD_READ_STATUS1);
    assert(w@ =~= seq![crate::command::CMD_READ_STATUS1]);
    let mut writes: Vec<Vec<u8>> = Vec::new();
    writes.push(w);
    let x = Exchange { writes, read_len: 1 };
    assert(x.writes_view()[0] == w@);
    assert(x.writes_view() =~= status_command());
    x
}

impl<SpiError, PinError> Executor<SpiError, PinError> {
    /// Starts running a plan.
    pub fn new(plan: Plan) -> (r: Self)
        requires
            plan_fits(plan@.steps),
        ensures
            r@ == start::<SpiError, PinError>(plan@),
            r@.wf(),
    {
        let n = plan.steps.len();
        let outcome = if n == 0 {
            Some(Ok(Vec::new()))
        } else {
            None
        };
        let r = Executor {
            steps: plan.steps,
            step: 0,
            phase: 0,
            waited: 0,
            delaying: false,
            pending: None,
            payload: Vec::new(),
            status: 0,
            outcome,
            log: Ghost(Seq::empty()),
            clean: Ghost(true),
        };
        proof {
            lemma_start_wf::<SpiError, PinError>(plan@);
            assert(r@.payload =~= Seq::<u8>::empty());
            assert(r@ == start::<SpiError, PinError>(plan@));
        }
        r
    }

    /// Whether the operation is over.
    pub fn is_finished(&self) -> (b: bool)
        ensures
            b == self@.is_finished(),
    {
        self.outcome.is_some()
    }

    /// The next bus action to perform.
    pub fn action(&self) -> (a: BusAction)
        requires
            self@.wf(),
        ensures
            a@ == self@.action(),
    {
        if self.outcome.is_some() {
            return BusAction::Finished;
        }
        if self.delaying {
            return BusAction::DelayMs(1);
        }
        proof {
            assert(self@.steps[self.step as int] == self.steps@[self.step as int]@);
        }
        match &self.steps[self.step] {
            Step::Release => BusAction::Deselect,
            Step::Pause(ms) => BusAction::DelayMs(*ms),
            Step::Exchange(x) => exchange_action(x, self.phase),
            Step::AwaitReady(_) => {
                let x = status_exchange();
                exchange_action(&x, self.phase)
            },
        }
    }

    /// Whether `event` is a possible reply to the next action.
    pub fn accepts(&self, event: &BusEvent<SpiError, PinError>) -> (b: bool)
        requires
            self@.wf(),
        ensures
            b == self@.accepts(event@),
    {
        match self.action() {
            BusAction::Select | BusAction::Deselect => match event {
                BusEvent::Done | BusEvent::PinFault(_) => true,
                _ => false,
            },
            BusAction::Write(_) | BusAction::Flush => match event {
                BusEvent::Done | BusEvent::SpiFault(_) => true,
                _ => false,
            },
            BusAction::Read(n) => match event {
                BusEvent::Data(d) => d.len() == n,
                BusEvent::SpiFault(_) => true,
                _ => false,
            },
            BusAction::DelayMs(_) => match event {
                BusEvent::Done => true,
                _ => false,
            },
            BusAction::Finished => false,
        }
    }

    /// Index of the last action (the release) of the current step.
    fn last_phase(&self) -> (p: usize)
        requires
            self@.wf(),
            !self@.is_finished(),
            self@.steps[self@.step] is Exchange || self@.steps[self@.step] is AwaitReady,
        ensures
            p == self@.current().len() - 1,
    {
        proof {
            assert(self@.steps[self.step as int] == self.steps@[self.step as int]@);
            assert(plan_fits(self@.steps));
            assert(step_actions(self@.steps[self@.step]).len() < usize::MAX);
        }
        match &self.steps[self.step] {
            Step::Exchange(x) => {
                proof {
                    lemma_exchange_index(x.writes_view(), x.read_len as nat, 0);
                }
                if x.read_len > 0 {
                    x.writes.len() + 3
                } else {
                    x.writes.len() + 2
                }
            },
            _ => {
                proof {
                    lemma_exchange_index(status_command(), 1, 0);
                }
                4
            },
        }
    }

    /// Moves on to the next step, ending the run after the last one.
    fn complete_step(&mut self)
        requires
            old(self)@.step < old(self)@.steps.len(),
            old(self)@.outcome is None,
        ensures
            final(self)@ == old(self)@.complete_step(),
    {
        assert(self@.steps.len() == self.steps@.len());
        assert(self.step < self.steps.len());
        self.step = self.step + 1;
        self.phase = 0;
        self.waited = 0;
        if self.step == self.steps.len() {
            self.outcome = Some(Ok(copy_bytes(&self.payload)));
        }
    }

    /// Records what came of the next action.
    pub fn advance(&mut self, event: BusEvent<SpiError, PinError>)
        requires
            old(self)@.wf(),
            !old(self)@.is_finished(),
            old(self)@.accepts(event@),
        ensures
            final(self)@ == old(self)@.next(event@),
            final(self)@.wf(),
    {
        proof {
            lemma_next_wf(self@, event@);
            assert(self@.steps[self.step as int] == self.steps@[self.step as int]@);
        }
        let ghost a = self@.action();
        let ghost reply_clean = self@.clean_reply(event@);
        let action = self.action();
        let is_poll = match &self.steps[self.step] {
            Step::AwaitReady(_) => true,
            _ => false,
        };
        let ghost new_log = self.log@.push(a);
        let ghost new_clean = self.clean@ && reply_clean;
        self.log = Ghost(new_log);
        self.clean = Ghost(new_clean);
        match action {
            BusAction::Select => match event {
                BusEvent::PinFault(x) => {
                    self.outcome = Some(Err(Error::Pin(x)));
                },
                _ => {
                    self.phase = self.phase + 1;
                },
            },
            BusAction::Write(_) | BusAction::Flush => match event {
                BusEvent::SpiFault(x) => {
                    self.phase = self.last_phase();
                    self.pending = Some(x);
                },
                _ => {
                    self.phase = self.phase + 1;
                },
            },
            BusAction::Read(_) => match event {
                BusEvent::SpiFault(x) => {
                    self.phase = self.last_phase();
                    self.pending = Some(x);
                },
                BusEvent::Data(d) => {
                    if is_poll {
                        self.status = d[0];
                    } else {
                        self.payload = d;
                    }
                    self.phase = self.phase + 1;
                },
                _ => {
                    self.phase = self.phase + 1;
                },
            },
            BusAction::Deselect => match event {
                BusEvent::PinFault(x) => {
                    self.outcome = Some(Err(Error::Pin(x)));
                },
                _ => match self.pending.take() {
                    Some(x) => {
                        self.outcome = Some(Err(Error::Spi(x)));
                    },
                    None => {
                        let timeout = match &self.steps[self.step] {
                            Step::AwaitReady(t) => Some(*t),
                            _ => None,
                        };
                        match timeout {
                            Some(t) => {
                                if self.status & STATUS_BUSY == 0 {
                                    self.complete_step();
                                } else if self.waited >= t {
                                    self.outcome = Some(Err(Error::BusyTimeout));
                                } else {
                                    self.delaying = true;
                                    self.phase = 0;
                                }
                            },
                            None => {
                                self.complete_step();
                            },
                        }
                    },
                },
            },
            BusAction::DelayMs(_) => {
                if self.delaying {
                    self.delaying = false;
                    self.waited = self.waited.saturating_add(1);
                    self.phase = 0;
                } else {
                    self.complete_step();
                }
            },
            BusAction::Finished => {},
        }
    }

    /// The result of a finished operation: the bytes of its data read, or
    /// why it failed.
    pub fn into_outcome(self) -> (r: Result<Vec<u8>, Error<SpiError, PinError>>)
        requires
            self@.is_finished(),
        ensures
            Some(outcome_view(r)) == self@.outcome,
    {
        match self.outcome {
            Some(r) => r,
            None => Err(Error::OutOfBounds),
        }
    }
}

/// The state in which a plan starts.
pub open spec fn start<SpiError, PinError>(plan: PlanView) -> RunView<SpiError, PinError> {
    RunView {
        steps: plan.steps,
        step: 0,
        phase: 0,
        waited: 0,
        delaying: false,
        pending: None,
        payload: Seq::empty(),
        status: 0,
        outcome: None,
        log: Seq::empty(),
        clean: true,
    }.settle()
}

proof fn lemma_plan_actions_step(steps: Seq<StepView>, i: int)
    requires
        0 <= i < steps.len(),
    ensures
        plan_actions(steps.take(i + 1)) == plan_actions(steps.take(i)) + step_actions(steps[i]),
{
    assert(steps.take(i + 1).drop_last() =~= steps.take(i));
}

/// A new run is well formed.
pub proof fn lemma_start_wf<SpiError, PinError>(plan: PlanView)
    requires
        plan_fits(plan.steps),
    ensures
        start::<SpiError, PinError>(plan).wf(),
{
    let s = start::<SpiError, PinError>(plan);
    assert(plan.steps.take(0) =~= Seq::<StepView>::empty());
    if plan.steps.len() > 0 {
        lemma_step_actions_len(plan.steps[0]);
        assert(s.current().take(0) =~= Seq::<ActionView>::empty());
    } else {
        assert(plan.steps =~= Seq::<StepView>::empty());
    }
}

/// Every step of a run keeps its invariant.
pub proof fn lemma_next_wf<SpiError, PinError>(s: RunView<SpiError, PinError>, e: EventView<SpiError, PinError>)
    requires
        s.wf(),
        !s.is_finished(),
        s.accepts(e),
    ensures
        s.next(e).wf(),
{
    let cur = s.current();
    lemma_step_actions_len(s.steps[s.step]);
    assert(s.step < s.steps.len());
    if s.clean {
        assert(cur.take(s.phase).push(cur[s.phase]) =~= cur.take(s.phase + 1));
    }
    if s.step + 1 < s.steps.len() {
        lemma_step_actions_len(s.steps[s.step + 1]);
        assert(step_actions(s.steps[s.step + 1]).take(0) =~= Seq::<ActionView>::empty());
    }
    if s.step + 1 == s.steps.len() {
        assert(s.steps.take(s.step + 1) =~= s.steps);
    }
    lemma_plan_actions_step(s.steps, s.step);
    assert(s.steps.take(s.step + 1).drop_last() =~= s.steps.take(s.step));
    if s.clean && s.phase + 1 == cur.len() {
        assert(cur.take(s.phase + 1) =~= cur);
    }
    match s.steps[s.step] {
        StepView::Exchange(w, r) => {
            lemma_exchange_index(w, r, s.phase);
        },
        StepView::AwaitReady(_) => {
            lemma_exchange_index(status_command(), 1, s.phase);
        },
        _ => {},
    }
}

/// Whether run state `t` lies strictly after run state `s`: a later step, or
/// in the same step more time waited for the part, or the wait between two
/// polls, or a later action of the same poll or transaction.
pub open spec fn later<SpiError, PinError>(s: RunView<SpiError, PinError>, t: RunView<SpiError, PinError>) -> bool {
    ||| t.step > s.step
    ||| t.step == s.step && t.waited > s.waited
    ||| t.step == s.step && t.waited == s.waited && t.delaying && !s.delaying
    ||| t.step == s.step && t.waited == s.waited && t.delaying == s.delaying && t.phase > s.phase
}

/// Every operation ends: each action either ends the run or moves it
/// strictly forward, and within a run the step index, the time waited for
/// the part (at most the step's timeout) and the action index are bounded,
/// so a part that stays busy ends the run with `BusyTimeout`.
pub proof fn lemma_progress<SpiError, PinError>(s: RunView<SpiError, PinError>, e: EventView<SpiError, PinError>)
    requires
        s.wf(),
        !s.is_finished(),
        s.accepts(e),
    ensures
        s.next(e).is_finished() || later(s, s.next(e)),
        s.step <= s.steps.len(),
        0 <= s.phase < s.current().len(),
        s.steps[s.step] matches StepView::AwaitReady(timeout) ==> s.waited <= timeout,
{
    lemma_step_actions_len(s.steps[s.step]);
    match s.steps[s.step] {
        StepView::Exchange(w, r) => {
            lemma_exchange_index(w, r, s.phase);
        },
        StepView::AwaitReady(_) => {
            lemma_exchange_index(status_command(), 1, s.phase);
        },
        _ => {},
    }
}

/// A run that met no fault and never found the part busy performed exactly
/// the actions of its plan, in order, and ended with the planned result: the
/// bytes of its data read.
pub proof fn lemma_clean_run<SpiError, PinError>(s: RunView<SpiError, PinError>)
    requires
        s.wf(),
        s.is_finished(),
        s.clean,
    ensures
        s.log == plan_actions(s.steps),
        s.outcome == Some(s.planned_outcome()),
{
}

/// A run that ends well returns exactly the bytes of its last data read,
/// as many as that read asked for (none for a plan without one).
pub proof fn lemma_ok_outcome_is_last_read<SpiError, PinError>(s: RunView<SpiError, PinError>)
    requires
        s.wf(),
        s.outcome matches Some(Ok(_)),
    ensures
        s.outcome->Some_0->Ok_0 == s.payload,
        s.payload.len() == last_read_len(s.steps),
{
    assert(s.steps.take(s.steps.len() as int) =~= s.steps);
}

/// A run never ends while it holds the part selected, unless the end comes
/// from the attempt to release it.
pub proof fn lemma_released_before_end<SpiError, PinError>(
    s: RunView<SpiError, PinError>,
    e: EventView<SpiError, PinError>,
)
    requires
        s.wf(),
        !s.is_finished(),
        s.accepts(e),
        s.next(e).is_finished(),
    ensures
        !s.selected() || s.action() == ActionView::Deselect,
{
    lemma_step_actions_len(s.steps[s.step]);
    match s.steps[s.step] {
        StepView::Exchange(w, r) => {
            lemma_exchange_index(w, r, s.phase);
        },
        StepView::AwaitReady(_) => {
            lemma_exchange_index(status_command(), 1, s.phase);
        },
        _ => {},
    }
}

/// A bus error while the part is selected leads straight to releasing it.
pub proof fn lemma_fault_releases<SpiError, PinError>(
    s: RunView<SpiError, PinError>,
    e: EventView<SpiError, PinError>,
)
    requires
        s.wf(),
        !s.is_finished(),
        s.accepts(e),
        s.selected(),
        e is SpiFault,
    ensures
        !s.next(e).is_finished(),
        s.next(e).action() == ActionView::Deselect,
        s.next(e).pending == Some(e->SpiFault_0),
{
    lemma_step_actions_len(s.steps[s.step]);
    match s.steps[s.step] {
        StepView::Exchange(w, r) => {
            lemma_exchange_index(w, r, s.phase);
            lemma_exchange_index(w, r, s.current().len() - 1);
        },
        StepView::AwaitReady(_) => {
            lemma_exchange_index(status_command(), 1, s.phase);
            lemma_exchange_index(status_command(), 1, s.current().len() - 1);
        },
        _ => {},
    }
}

/// The bytes a run returns are the bytes the bus delivered: the payload
/// changes only when a data read of a transaction (not a status poll)
/// completes, and then becomes exactly the bytes read.
pub proof fn lemma_payload_is_read_data<SpiError, PinError>(
    s: RunView<SpiError, PinError>,
    e: EventView<SpiError, PinError>,
)
    requires
        s.wf(),
        !s.is_finished(),
        s.accepts(e),
        s.next(e).payload != s.payload,
    ensures
        s.action() is Read,
        s.steps[s.step] is Exchange,
        e == EventView::<SpiError, PinError>::Data(s.next(e).payload),
{
    lemma_step_actions_len(s.steps[s.step]);
    match s.steps[s.step] {
        StepView::Exchange(w, r) => {
            lemma_exchange_index(w, r, s.phase);
        },
        StepView::AwaitReady(_) => {
            lemma_exchange_index(status_command(), 1, s.phase);
        },
        _ => {},
    }
}

/// A run reports `BusyTimeout` only from a status poll that found the part
/// busy after it had waited at least the step's timeout.
pub proof fn lemma_timeout_only_after_wait<SpiError, PinError>(
    s: RunView<SpiError, PinError>,
    e: EventView<SpiError, PinError>,
)
    requires
        s.wf(),
        !s.is_finished(),
        s.accepts(e),
        s.next(e).outcome == Some(Err::<Seq<u8>, Error<SpiError, PinError>>(Error::BusyTimeout)),
    ensures
        s.steps[s.step] matches StepView::AwaitReady(timeout) && s.waited >= timeout && is_busy(s.status),
        s.action() == ActionView::Deselect,
{
    lemma_step_actions_len(s.steps[s.step]);
    match s.steps[s.step] {
        StepView::Exchange(w, r) => {
            lemma_exchange_index(w, r, s.phase);
        },
        StepView::AwaitReady(_) => {
            lemma_exchange_index(status_command(), 1, s.phase);
        },
        _ => {},
    }
}

} // verus!
