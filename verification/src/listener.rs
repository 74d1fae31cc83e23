//! A worker together with the control signals sent to it and not yet taken.

use std::collections::VecDeque;
use vstd::prelude::*;
use crate::model::{Action, Filter, PacketHeader};
use crate::worker::{Phase, Polled, Step, Worker, WorkerState};

verus! {

/// The mathematical state of a listener.
pub struct ListenerState {
    pub worker: WorkerState,
    /// Signals sent and not yet taken, oldest first.
    pub inbox: Seq<Action>,
}

impl ListenerState {
    /// A fresh listener for `rule`: a fresh worker and no signal.
    pub open spec fn start(rule: Seq<char>) -> ListenerState {
        ListenerState { worker: WorkerState::start(rule), inbox: Seq::empty() }
    }

    /// What a non-blocking look at the inbox finds.
    pub open spec fn polled(self) -> Polled {
        if self.inbox.len() == 0 {
            Polled::Empty
        } else {
            Polled::Message(self.inbox[0])
        }
    }

    /// The inbox without its oldest signal.
    pub open spec fn rest(self) -> Seq<Action> {
        if self.inbox.len() == 0 {
            self.inbox
        } else {
            self.inbox.subrange(1, self.inbox.len() as int)
        }
    }

    /// The listener after `action` was sent to it. A stopped worker has left
    /// its channel, so the signal is dropped.
    pub open spec fn sent(self, action: Action) -> ListenerState {
        if self.worker.phase is Stopped {
            self
        } else {
            ListenerState { inbox: self.inbox.push(action), ..self }
        }
    }

    /// Whether a packet with `header` can be delivered within the machine's
    /// counters.
    pub open spec fn admits(self, header: PacketHeader) -> bool {
        self.worker.keeps(self.polled()) ==> self.worker.fits(header)
    }

    /// The listener after a packet with `header` arrived. A running worker
    /// takes the oldest signal, if there is one, and acts on it and on the
    /// packet; a suspended or stopped worker reads no packet.
    pub open spec fn delivered(self, header: PacketHeader) -> ListenerState {
        if self.worker.phase is Running {
            ListenerState {
                worker: self.worker.after_packet(self.polled(), header),
                inbox: self.rest(),
            }
        } else {
            self
        }
    }

    /// The packet that a delivery makes the worker count, if any: the one
    /// delivered, where the worker is running and polls no signal or a
    /// `Resume`.
    pub open spec fn counts_delivered(self, header: PacketHeader) -> Option<PacketHeader> {
        if self.worker.phase is Running && (self.polled() == Polled::Empty || self.polled()
            == Polled::Message(Action::Resume)) {
            Some(header)
        } else {
            None
        }
    }

    /// The packet that a wake-up makes the worker count, if any: the one it
    /// held, where it is suspended and takes a signal other than `Stop`.
    pub open spec fn counts_woken(self) -> Option<PacketHeader> {
        if self.worker.phase is Suspended && self.inbox.len() > 0 && self.inbox[0]
            != Action::Stop {
            Some(self.worker.held)
        } else {
            None
        }
    }

    /// The step that goes with [`Self::delivered`].
    pub open spec fn deliver_step(self, header: PacketHeader) -> Step {
        self.worker.packet_step(self.polled(), header)
    }

    /// The listener after its capture failed to open or gave no further
    /// packet.
    pub open spec fn closed(self) -> ListenerState {
        ListenerState { worker: self.worker.closed(), ..self }
    }

    /// The listener after its worker looked for the signal it waits for. A
    /// suspended worker with a signal in its inbox takes the oldest one;
    /// otherwise nothing changes.
    pub open spec fn woken(self) -> ListenerState {
        if self.worker.phase is Suspended && self.inbox.len() > 0 {
            ListenerState {
                worker: self.worker.after_wake(Some(self.inbox[0])),
                inbox: self.rest(),
            }
        } else {
            self
        }
    }

    /// The step that goes with [`Self::woken`].
    pub open spec fn wake_step(self) -> Step {
        if self.worker.phase is Suspended && self.inbox.len() == 0 {
            Step::Wait
        } else {
            self.worker.wake_step(Some(self.inbox[0]))
        }
    }
}

/// A worker and its inbox of control signals.
#[derive(Debug)]
pub struct Listener {
    worker: Worker,
    inbox: VecDeque<Action>,
}

impl View for Listener {
    type V = ListenerState;

    closed spec fn view(&self) -> ListenerState {
        ListenerState { worker: self.worker@, inbox: self.inbox@ }
    }
}

impl Listener {
    /// The filter the listener was made for.
    pub closed spec fn config(&self) -> Filter {
        self.worker.config()
    }

    /// The worker is well formed.
    pub closed spec fn wf(&self) -> bool {
        self.worker.wf()
    }

    /// A fresh listener for `filter`.
    pub fn new(filter: Filter) -> (listener: Listener)
        ensures
            listener.wf(),
            listener@ == ListenerState::start(filter.rule@),
            listener.config() == filter,
    {
        Listener { worker: Worker::new(filter), inbox: VecDeque::new() }
    }

    /// The listener's worker.
    pub fn worker(&self) -> (worker: &Worker)
        requires
            self.wf(),
        ensures
            worker.wf(),
            worker@ == self@.worker,
            worker.config() == self.config(),
    {
        &self.worker
    }

    /// The number of signals sent and not yet taken.
    pub fn pending(&self) -> (n: usize)
        ensures
            n == self@.inbox.len(),
    {
        self.inbox.len()
    }

    /// Whether a packet with `header` can be delivered within the machine's
    /// counters.
    pub fn can_deliver(&self, header: PacketHeader) -> (ok: bool)
        requires
            self.wf(),
        ensures
            ok == self@.admits(header),
    {
        let keeps = match self.worker.phase() {
            Phase::Running => !(self.inbox.len() > 0 && self.inbox[0] == Action::Stop),
            _ => false,
        };
        !keeps || self.worker.can_count(header)
    }

    /// Sends `action` to the worker.
    pub fn send(&mut self, action: Action)
        requires
            old(self).wf(),
        ensures
            final(self).wf(),
            final(self)@ == old(self)@.sent(action),
            final(self).config() == old(self).config(),
    {
        match self.worker.phase() {
            Phase::Stopped => {},
            _ => {
                self.inbox.push_back(action);
            },
        }
    }

    /// A packet with `header` arrived for the worker.
    pub fn deliver(&mut self, header: PacketHeader) -> (step: Step)
        requires
            old(self).wf(),
            old(self)@.admits(header),
        ensures
            final(self).wf(),
            final(self)@ == old(self)@.delivered(header),
            step == old(self)@.deliver_step(header),
            final(self).config() == old(self).config(),
    {
        match self.worker.phase() {
            Phase::Running => {
                let polled = match self.inbox.pop_front() {
                    Some(action) => Polled::Message(action),
                    None => Polled::Empty,
                };
                self.worker.on_packet(polled, header)
            },
            Phase::Suspended => Step::Wait,
            Phase::Stopped => Step::Exit,
        }
    }

    /// The capture of the worker failed to open or gave no further packet.
    pub fn close(&mut self) -> (step: Step)
        requires
            old(self).wf(),
        ensures
            final(self).wf(),
            final(self)@ == old(self)@.closed(),
            step == old(self)@.worker.close_step(),
            final(self).config() == old(self).config(),
    {
        self.worker.on_close()
    }

    /// The worker looks for the signal it waits for.
    pub fn wake(&mut self) -> (step: Step)
        requires
            old(self).wf(),
        ensures
            final(self).wf(),
            final(self)@ == old(self)@.woken(),
            step == old(self)@.wake_step(),
            final(self).config() == old(self).config(),
    {
        match self.worker.phase() {
            Phase::Suspended => match self.inbox.pop_front() {
                Some(action) => self.worker.on_wake(Some(action)),
                None => Step::Wait,
            },
            Phase::Running => Step::Continue,
            Phase::Stopped => Step::Exit,
        }
    }
}

} // verus!
