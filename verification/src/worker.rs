//! The capture worker of one filter, as a state machine.
//!
//! A worker never blocks and never touches a capture handle or a channel. Its
//! driver hands it what happened (a packet arrived and the control channel
//! was polled; a blocking wait on the control channel ended) and the worker
//! answers with the [`Step`] the driver has to take next.

use vstd::prelude::*;
use crate::model::{Action, Filter, PacketHeader, Snapshot, Totals};

verus! {

/// A worker publishes its counters on every packet whose running count is a
/// multiple of this number, and keeps them to itself otherwise.
pub const PUBLISH_INTERVAL: u32 = 2;

/// Where a worker stands in its life.
#[derive(Debug, Clone, Copy, PartialEq, Eq, Structural)]
pub enum Phase {
    /// Reading packets and polling for signals.
    Running,
    /// Waiting for a signal, with one packet in hand.
    Suspended,
    /// Done for good.
    Stopped,
}

/// What a non-blocking look at the control channel found.
#[derive(Debug, Clone, Copy, PartialEq, Eq, Structural)]
pub enum Polled {
    /// No signal is pending.
    Empty,
    /// The oldest pending signal.
    Message(Action),
    /// No signal is pending and no sender is left.
    Disconnected,
}

/// What the driver of a worker does next.
#[derive(Debug, Clone, Copy, PartialEq, Eq, Structural)]
pub enum Step {
    /// A packet was counted and the counters are due: write the worker's
    /// snapshot into the store under the worker's rule, then read on.
    Publish,
    /// Read the next packet; there is nothing to publish.
    Continue,
    /// Wait for the next signal and hand it to `on_wake`; read no packet
    /// until then.
    Wait,
    /// Stop driving this worker.
    Exit,
}

/// The mathematical state of a worker.
pub struct WorkerState {
    /// The rule under which the worker publishes.
    pub rule: Seq<char>,
    pub phase: Phase,
    /// Packets counted so far.
    pub count: nat,
    /// Counters over the packets counted so far.
    pub acc: Totals,
    /// The packet in hand while `phase` is `Suspended`.
    pub held: PacketHeader,
}

impl WorkerState {
    /// A fresh worker for `rule`: running, with nothing counted.
    pub open spec fn start(rule: Seq<char>) -> WorkerState {
        WorkerState {
            rule,
            phase: Phase::Running,
            count: 0,
            acc: Totals::zero(),
            held: PacketHeader { len: 0, seconds: 0 },
        }
    }

    /// The worker after counting `header`.
    pub open spec fn counted(self, header: PacketHeader) -> WorkerState {
        WorkerState {
            phase: Phase::Running,
            count: self.count + 1,
            acc: self.acc.plus(header),
            ..self
        }
    }

    /// Whether the counters are due for publication.
    pub open spec fn due(self) -> bool {
        self.count % (PUBLISH_INTERVAL as nat) == 0
    }

    /// Whether `entry` is what the worker published last: its counters as
    /// they are where they are due, and as they were one packet ago where
    /// they are not.
    pub open spec fn lags(self, entry: Totals) -> bool {
        &&& self.count >= PUBLISH_INTERVAL
        &&& if self.due() {
            entry == self.acc
        } else {
            entry.total + self.acc.len == self.acc.total && entry.timestamp <= self.acc.timestamp
        }
    }

    /// What follows a counted packet.
    pub open spec fn step_counted(self, header: PacketHeader) -> Step {
        if self.counted(header).due() {
            Step::Publish
        } else {
            Step::Continue
        }
    }

    /// Whether counting `header` stays within the machine's counters.
    pub open spec fn fits(self, header: PacketHeader) -> bool {
        self.count < u32::MAX && self.acc.fits(header)
    }

    /// Whether a running worker that polled `polled` keeps the packet in
    /// hand, to count it now or after a suspension.
    pub open spec fn keeps(self, polled: Polled) -> bool {
        &&& self.phase is Running
        &&& polled != Polled::Message(Action::Stop)
        &&& polled != Polled::Disconnected
    }

    /// The worker after a packet arrived and the control channel was polled.
    ///
    /// Only a running worker takes a packet. It stops on `Stop` and on a
    /// disconnected channel, suspends with the packet in hand on `Suspend`,
    /// and counts the packet otherwise.
    pub open spec fn after_packet(self, polled: Polled, header: PacketHeader) -> WorkerState {
        if !(self.phase is Running) {
            self
        } else {
            match polled {
                Polled::Empty | Polled::Message(Action::Resume) => self.counted(header),
                Polled::Message(Action::Suspend) => WorkerState {
                    phase: Phase::Suspended,
                    held: header,
                    ..self
                },
                Polled::Message(Action::Stop) | Polled::Disconnected => WorkerState {
                    phase: Phase::Stopped,
                    ..self
                },
            }
        }
    }

    /// The step that goes with [`Self::after_packet`].
    pub open spec fn packet_step(self, polled: Polled, header: PacketHeader) -> Step {
        match self.phase {
            Phase::Stopped => Step::Exit,
            Phase::Suspended => Step::Wait,
            Phase::Running => match polled {
                Polled::Empty | Polled::Message(Action::Resume) => self.step_counted(header),
                Polled::Message(Action::Suspend) => Step::Wait,
                Polled::Message(Action::Stop) | Polled::Disconnected => Step::Exit,
            },
        }
    }

    /// The worker after its capture failed to open or gave no further packet:
    /// a running worker stops; a suspended one reads no packet and so does
    /// not notice.
    pub open spec fn closed(self) -> WorkerState {
        if self.phase is Running {
            WorkerState { phase: Phase::Stopped, ..self }
        } else {
            self
        }
    }

    /// The step that goes with [`Self::closed`].
    pub open spec fn close_step(self) -> Step {
        if self.phase is Suspended {
            Step::Wait
        } else {
            Step::Exit
        }
    }

    /// The worker after its blocking wait ended with `received`, where `None`
    /// stands for a closed channel.
    ///
    /// Only a suspended worker waits. It stops on `Stop` and on a closed
    /// channel; any other signal resumes it, and it counts the packet it held.
    pub open spec fn after_wake(self, received: Option<Action>) -> WorkerState {
        if !(self.phase is Suspended) {
            self
        } else {
            match received {
                Some(Action::Stop) | None => WorkerState { phase: Phase::Stopped, ..self },
                Some(_) => self.counted(self.held),
            }
        }
    }

    /// The step that goes with [`Self::after_wake`].
    pub open spec fn wake_step(self, received: Option<Action>) -> Step {
        match self.phase {
            Phase::Stopped => Step::Exit,
            Phase::Running => Step::Continue,
            Phase::Suspended => match received {
                Some(Action::Stop) | None => Step::Exit,
                Some(_) => self.step_counted(self.held),
            },
        }
    }
}

/// A stopped worker stays as it is, whatever happens.
pub proof fn law_stopped_is_final(
    worker: WorkerState,
    polled: Polled,
    header: PacketHeader,
    received: Option<Action>,
)
    requires
        worker.phase is Stopped,
    ensures
        worker.after_packet(polled, header) == worker,
        worker.after_wake(received) == worker,
        worker.closed() == worker,
        worker.packet_step(polled, header) == Step::Exit,
        worker.wake_step(received) == Step::Exit,
        worker.close_step() == Step::Exit,
{
}

/// Counting a packet adds its length and its seconds, sets the last length,
/// and asks for publication exactly on every second count.
pub proof fn law_counting(worker: WorkerState, header: PacketHeader)
    ensures
        worker.counted(header).count == worker.count + 1,
        worker.counted(header).acc.total == worker.acc.total + header.len,
        worker.counted(header).acc.len == header.len,
        worker.counted(header).acc.timestamp == worker.acc.timestamp + header.seconds,
        worker.step_counted(header) is Publish <==> worker.count % 2 == 1,
        worker.step_counted(header) is Continue <==> worker.count % 2 == 0,
{
}

/// The capture worker of one filter.
#[derive(Debug)]
pub struct Worker {
    filter: Filter,
    phase: Phase,
    count: u32,
    acc: Snapshot,
    held: PacketHeader,
}

impl View for Worker {
    type V = WorkerState;

    closed spec fn view(&self) -> WorkerState {
        WorkerState {
            rule: self.filter.rule@,
            phase: self.phase,
            count: self.count as nat,
            acc: self.acc@,
            held: self.held,
        }
    }
}

impl Worker {
    /// The filter the worker was made for.
    pub closed spec fn config(&self) -> Filter {
        self.filter
    }

    /// A suspended worker can count the packet it holds, and the worker
    /// publishes under the rule of its filter.
    pub closed spec fn wf(&self) -> bool {
        &&& self@.phase is Suspended ==> self@.fits(self@.held)
        &&& self@.rule == self.config().rule@
    }

    /// A running worker for `filter` that has counted nothing.
    pub fn new(filter: Filter) -> (worker: Worker)
        ensures
            worker.wf(),
            worker@ == WorkerState::start(filter.rule@),
            worker.config() == filter,
    {
        Worker {
            filter,
            phase: Phase::Running,
            count: 0,
            acc: Snapshot::default(),
            held: PacketHeader { len: 0, seconds: 0 },
        }
    }

    /// The filter the worker was made for: what to open the capture with.
    pub fn filter(&self) -> (filter: &Filter)
        ensures
            *filter == self.config(),
    {
        &self.filter
    }

    /// The rule under which the worker publishes.
    pub fn rule(&self) -> (rule: &String)
        requires
            self.wf(),
        ensures
            rule@ == self@.rule,
            *rule == self.config().rule,
    {
        &self.filter.rule
    }

    pub fn phase(&self) -> (phase: Phase)
        ensures
            phase == self@.phase,
    {
        self.phase
    }

    /// Packets counted so far.
    pub fn count(&self) -> (count: u32)
        ensures
            count == self@.count,
    {
        self.count
    }

    /// The counters over the packets counted so far.
    pub fn snapshot(&self) -> (snapshot: Snapshot)
        ensures
            snapshot@ == self@.acc,
    {
        self.acc
    }

    /// Whether one more packet with `header` stays within the counters.
    pub fn can_count(&self, header: PacketHeader) -> (ok: bool)
        ensures
            ok == self@.fits(header),
    {
        self.count < u32::MAX && self.acc.fits(header)
    }

    fn record(&mut self, header: PacketHeader) -> (step: Step)
        requires
            old(self).wf(),
            old(self)@.fits(header),
        ensures
            final(self).wf(),
            final(self)@ == old(self)@.counted(header),
            step == old(self)@.step_counted(header),
            final(self).config() == old(self).config(),
    {
        self.phase = Phase::Running;
        self.count = self.count + 1;
        self.acc = self.acc.plus(header);
        if self.count % PUBLISH_INTERVAL == 0 {
            Step::Publish
        } else {
            Step::Continue
        }
    }

    /// A packet with `header` arrived and a non-blocking look at the control
    /// channel gave `polled`.
    pub fn on_packet(&mut self, polled: Polled, header: PacketHeader) -> (step: Step)
        requires
            old(self).wf(),
            old(self)@.keeps(polled) ==> old(self)@.fits(header),
        ensures
            final(self).wf(),
            final(self)@ == old(self)@.after_packet(polled, header),
            step == old(self)@.packet_step(polled, header),
            final(self).config() == old(self).config(),
    {
        match self.phase {
            Phase::Stopped => Step::Exit,
            Phase::Suspended => Step::Wait,
            Phase::Running => match polled {
                Polled::Empty | Polled::Message(Action::Resume) => self.record(header),
                Polled::Message(Action::Suspend) => {
                    self.phase = Phase::Suspended;
                    self.held = header;
                    Step::Wait
                },
                Polled::Message(Action::Stop) | Polled::Disconnected => {
                    self.phase = Phase::Stopped;
                    Step::Exit
                },
            },
        }
    }

    /// The capture failed to open or gave no further packet.
    pub fn on_close(&mut self) -> (step: Step)
        requires
            old(self).wf(),
        ensures
            final(self).wf(),
            final(self)@ == old(self)@.closed(),
            step == old(self)@.close_step(),
            final(self).config() == old(self).config(),
    {
        match self.phase {
            Phase::Running => {
                self.phase = Phase::Stopped;
                Step::Exit
            },
            Phase::Suspended => Step::Wait,
            Phase::Stopped => Step::Exit,
        }
    }

    /// The blocking wait of a suspended worker ended with `received`; `None`
    /// stands for a closed channel.
    pub fn on_wake(&mut self, received: Option<Action>) -> (step: Step)
        requires
            old(self).wf(),
        ensures
            final(self).wf(),
            final(self)@ == old(self)@.after_wake(received),
            step == old(self)@.wake_step(received),
            final(self).config() == old(self).config(),
    {
        match self.phase {
            Phase::Stopped => Step::Exit,
            Phase::Running => Step::Continue,
            Phase::Suspended => match received {
                Some(Action::Stop) | None => {
                    self.phase = Phase::Stopped;
                    Step::Exit
                },
                Some(_) => {
                    let held = self.held;
                    self.record(held)
                },
            },
        }
    }
}

} // verus!
