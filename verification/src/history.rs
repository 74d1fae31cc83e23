//! What holds of a registry over any sequence of events.
//!
//! A registry changes by five kinds of event: a listener is added, a control
//! signal is sent for a rule, a packet arrives for a listener, a waiting
//! listener looks for its signal, the capture of a listener ends. The
//! statements here quantify over every order in which such events can come.

use vstd::prelude::*;
use crate::listener::ListenerState;
use crate::model::{Action, PacketHeader, Totals};
use crate::traffic::{lemma_last_with, TrafficState};
use crate::worker::{Phase, PUBLISH_INTERVAL};

verus! {

/// One change of a registry.
pub enum Event {
    /// A listener for the rule is added.
    Add(Seq<char>),
    /// The signal is sent for the rule.
    Signal(Seq<char>, Action),
    /// A packet with the header arrives for the listener.
    Packet(int, PacketHeader),
    /// The listener looks for the signal it waits for.
    Wake(int),
    /// The capture of the listener failed to open or gave no further packet.
    Close(int),
}

impl Event {
    /// Whether the event adds a listener for `rule`.
    pub open spec fn adds(self, rule: Seq<char>) -> bool {
        self == Event::Add(rule)
    }

    /// Whether the event sends a signal for `rule`.
    pub open spec fn signals(self, rule: Seq<char>) -> bool {
        self matches Event::Signal(to, _) && to == rule
    }
}

/// No event of `events` adds a listener for `rule`.
pub open spec fn no_add(events: Seq<Event>, rule: Seq<char>) -> bool {
    forall|i: int| 0 <= i < events.len() ==> !(#[trigger] events[i]).adds(rule)
}

/// No event of `events` sends a signal for `rule`.
pub open spec fn no_signal(events: Seq<Event>, rule: Seq<char>) -> bool {
    forall|i: int| 0 <= i < events.len() ==> !(#[trigger] events[i]).signals(rule)
}

/// Whether `a` and `b` agree on the entry of `rule`: both lack it, or both
/// hold the same counters.
pub open spec fn same_entry(a: TrafficState, b: TrafficState, rule: Seq<char>) -> bool {
    &&& a.store.contains_key(rule) == b.store.contains_key(rule)
    &&& a.store.contains_key(rule) ==> a.store[rule] == b.store[rule]
}

/// The phase a worker ends in once it has taken every signal of `inbox`,
/// given packets enough to poll with.
pub open spec fn settles(phase: Phase, inbox: Seq<Action>) -> Phase
    decreases inbox.len(),
{
    if phase is Stopped || inbox.len() == 0 {
        phase
    } else {
        let rest = inbox.subrange(1, inbox.len() as int);
        match (phase, inbox[0]) {
            (_, Action::Stop) => Phase::Stopped,
            (Phase::Running, Action::Suspend) => settles(Phase::Suspended, rest),
            _ => settles(Phase::Running, rest),
        }
    }
}

impl ListenerState {
    /// Whether the listener will count no packet as long as no further
    /// signal reaches it: it has stopped, or it waits with nothing but a
    /// `Stop` to wake it, or the next signal it polls leads there.
    pub open spec fn frozen(self) -> bool {
        match self.worker.phase {
            Phase::Stopped => true,
            Phase::Suspended => self.inbox.len() == 0 || self.inbox[0] == Action::Stop,
            Phase::Running => self.inbox.len() > 0 && (self.inbox[0] == Action::Stop || (
                self.inbox[0] == Action::Suspend && (self.inbox.len() == 1 || self.inbox[1]
                    == Action::Stop))),
        }
    }

    /// Whether the listener will count no packet whatever is sent to it from
    /// now on: it has stopped, or a `Stop` is the next signal that it takes
    /// notice of.
    pub open spec fn doomed(self) -> bool {
        match self.worker.phase {
            Phase::Stopped => true,
            Phase::Suspended => self.inbox.len() > 0 && self.inbox[0] == Action::Stop,
            Phase::Running => self.inbox.len() > 0 && (self.inbox[0] == Action::Stop || (
                self.inbox[0] == Action::Suspend && self.inbox.len() > 1 && self.inbox[1]
                    == Action::Stop)),
        }
    }

    /// With nothing pending, a `Stop` dooms a listener and a `Suspend`
    /// freezes a running one.
    pub proof fn lemma_idle(self)
        requires
            self.inbox.len() == 0,
        ensures
            self.sent(Action::Stop).doomed(),
            self.worker.phase is Running ==> self.sent(Action::Suspend).frozen(),
            self.worker.phase is Running ==> !(settles(self.worker.phase, self.inbox)
                is Suspended),
    {
    }
}

impl TrafficState {
    /// The registry after `event`.
    pub open spec fn after(self, event: Event) -> TrafficState {
        match event {
            Event::Add(rule) => self.added(rule),
            Event::Signal(rule, action) => self.signalled(rule, action),
            Event::Packet(id, header) => self.delivered(id, header),
            Event::Wake(id) => self.woken(id),
            Event::Close(id) => self.closed(id),
        }
    }

    /// The registry after `events`, in their order.
    pub open spec fn run(self, events: Seq<Event>) -> TrafficState
        decreases events.len(),
    {
        if events.len() == 0 {
            self
        } else {
            self.run(events.drop_last()).after(events.last())
        }
    }

    /// An event leaves every listener in place, under its rule, with at
    /// least what it had counted; it touches the inbox and the worker of at
    /// most the listener it is for, and removes no entry from the store.
    pub proof fn lemma_after_grows(self, event: Event)
        ensures
            self.after(event).listeners.len() >= self.listeners.len(),
            forall|id: int|
                #![trigger self.after(event).listeners[id]]
                self.known(id) ==> {
                    &&& self.after(event).rule_of(id) == self.rule_of(id)
                    &&& self.after(event).listeners[id].worker.count
                        >= self.listeners[id].worker.count
                    &&& self.after(event).listeners[id].worker.acc.total
                        >= self.listeners[id].worker.acc.total
                },
            forall|rule: Seq<char>|
                self.store.contains_key(rule) ==> #[trigger] self.after(event).store.contains_key(
                    rule,
                ),
    {
        match event {
            Event::Signal(rule, _) => {
                lemma_last_with(self.listeners, rule);
            },
            _ => {},
        }
    }

    /// Every event keeps the invariant.
    pub proof fn lemma_after_inv(self, event: Event)
        requires
            self.inv(),
        ensures
            self.after(event).inv(),
    {
        match event {
            Event::Add(rule) => self.lemma_added_inv(rule),
            Event::Signal(rule, action) => self.lemma_signalled_inv(rule, action),
            Event::Packet(id, header) => self.lemma_delivered_inv(id, header),
            Event::Wake(id) => self.lemma_woken_inv(id),
            Event::Close(id) => self.lemma_closed_inv(id),
        }
    }

    /// Over any events the invariant is kept, every listener stays in place
    /// under its rule with at least what it had counted, and no entry leaves
    /// the store.
    pub proof fn lemma_run_grows(self, events: Seq<Event>)
        requires
            self.inv(),
        ensures
            self.run(events).inv(),
            self.run(events).listeners.len() >= self.listeners.len(),
            forall|id: int|
                #![trigger self.run(events).listeners[id]]
                self.known(id) ==> {
                    &&& self.run(events).rule_of(id) == self.rule_of(id)
                    &&& self.run(events).listeners[id].worker.count
                        >= self.listeners[id].worker.count
                    &&& self.run(events).listeners[id].worker.acc.total
                        >= self.listeners[id].worker.acc.total
                },
            forall|rule: Seq<char>|
                self.store.contains_key(rule) ==> #[trigger] self.run(events).store.contains_key(
                    rule,
                ),
        decreases events.len(),
    {
        if events.len() > 0 {
            let before = self.run(events.drop_last());
            self.lemma_run_grows(events.drop_last());
            before.lemma_after_grows(events.last());
            before.lemma_after_inv(events.last());
            assert forall|id: int|
                #![trigger self.run(events).listeners[id]]
                self.known(id) implies {
                &&& self.run(events).rule_of(id) == self.rule_of(id)
                &&& self.run(events).listeners[id].worker.count >= self.listeners[id].worker.count
                &&& self.run(events).listeners[id].worker.acc.total
                    >= self.listeners[id].worker.acc.total
            } by {
                let _ = before.listeners[id];
                let _ = before.after(events.last()).listeners[id];
            }
        }
    }

    /// A listener without namesake had none before the event either.
    pub proof fn lemma_sole_before(self, event: Event, id: int)
        requires
            self.known(id),
            self.after(event).sole(id),
        ensures
            self.sole(id),
    {
        let next = self.after(event);
        self.lemma_after_grows(event);
        assert forall|j: int|
            #![trigger self.listeners[j]]
            self.known(j) && j != id implies self.rule_of(j) != self.rule_of(id) by {
            let _ = next.listeners[j];
            let _ = next.listeners[id];
        }
    }
}

/// Once a listener has counted a full interval of packets, its rule has an
/// entry in the store, whatever else happened in between.
pub proof fn law_entry_appears(start: TrafficState, events: Seq<Event>, id: int)
    requires
        start.inv(),
        start.known(id),
        start.run(events).listeners[id].worker.count >= PUBLISH_INTERVAL,
    ensures
        start.run(events).store.contains_key(start.rule_of(id)),
{
    start.lemma_run_grows(events);
    let end = start.run(events);
    let _ = end.listeners[id];
}

/// For a rule with a single listener the store holds exactly what that
/// listener published last: no entry before its second packet, its counters
/// as they are after an even number of packets, and its counters without the
/// packet counted last after an odd number.
pub proof fn law_store_lags_by_one_packet(start: TrafficState, events: Seq<Event>, id: int)
    requires
        start.inv(),
        start.known(id),
        start.run(events).sole(id),
    ensures
        ({
            let end = start.run(events);
            let rule = start.rule_of(id);
            let worker = end.listeners[id].worker;
            &&& end.store.contains_key(rule) <==> worker.count >= PUBLISH_INTERVAL
            &&& end.store.contains_key(rule) && worker.count % 2 == 0 ==> end.store[rule]
                == worker.acc
            &&& end.store.contains_key(rule) && worker.count % 2 == 1 ==> {
                &&& end.store[rule].total + worker.acc.len == worker.acc.total
                &&& end.store[rule].timestamp <= worker.acc.timestamp
            }
        }),
{
    start.lemma_run_grows(events);
    let end = start.run(events);
    let _ = end.listeners[id];
}

/// The first two packets of a fresh listener that received no signal put
/// its rule into the store, with the counters over exactly these two.
pub proof fn law_second_packet_publishes(
    start: TrafficState,
    rule: Seq<char>,
    first: PacketHeader,
    second: PacketHeader,
)
    ensures
        ({
            let id = start.listeners.len() as int;
            let one = start.added(rule).delivered(id, first);
            let two = one.delivered(id, second);
            &&& same_entry(one, start, rule)
            &&& two.store.contains_key(rule)
            &&& two.store[rule] == Totals::zero().plus(first).plus(second)
        }),
{
}

/// One event never lowers the published total of a rule that has a single
/// listener.
pub proof fn lemma_total_step(state: TrafficState, event: Event, id: int)
    requires
        state.inv(),
        state.known(id),
        state.after(event).sole(id),
        state.store.contains_key(state.rule_of(id)),
    ensures
        state.after(event).store.contains_key(state.rule_of(id)),
        state.after(event).store[state.rule_of(id)].total >= state.store[state.rule_of(
            id,
        )].total,
{
    let next = state.after(event);
    state.lemma_after_grows(event);
    state.lemma_sole_before(event, id);
    let _ = state.listeners[id];
    let _ = next.listeners[id];
    match event {
        Event::Packet(other, _) | Event::Wake(other) | Event::Close(other) => {
            if state.known(other) && other != id {
                let _ = next.listeners[other];
                assert(next.rule_of(other) != next.rule_of(id));
            }
        },
        _ => {},
    }
}

/// The published total of a rule that has a single listener never
/// decreases, whatever the events.
///
/// Two listeners under one rule overwrite each other's entry, so the total
/// of such a rule can fall; the statement is about rules with one listener.
pub proof fn law_total_never_decreases(start: TrafficState, events: Seq<Event>, id: int)
    requires
        start.inv(),
        start.known(id),
        start.run(events).sole(id),
        start.store.contains_key(start.rule_of(id)),
    ensures
        start.run(events).store.contains_key(start.rule_of(id)),
        start.run(events).store[start.rule_of(id)].total >= start.store[start.rule_of(
            id,
        )].total,
    decreases events.len(),
{
    if events.len() > 0 {
        let before = start.run(events.drop_last());
        start.lemma_run_grows(events.drop_last());
        let _ = before.listeners[id];
        before.lemma_sole_before(events.last(), id);
        law_total_never_decreases(start, events.drop_last(), id);
        lemma_total_step(before, events.last(), id);
    }
}

/// A listener without namesake stays so over an event that adds no listener
/// for its rule.
proof fn lemma_sole_after(state: TrafficState, event: Event, id: int)
    requires
        state.sole(id),
        !event.adds(state.rule_of(id)),
    ensures
        state.after(event).sole(id),
        state.after(event).rule_of(id) == state.rule_of(id),
{
    let next = state.after(event);
    state.lemma_after_grows(event);
    if let Event::Signal(rule, _) = event {
        lemma_last_with(state.listeners, rule);
    }
    let _ = next.listeners[id];
    assert forall|j: int|
        #![trigger next.listeners[j]]
        next.known(j) && j != id implies next.rule_of(j) != next.rule_of(id) by {
        if state.known(j) {
            let _ = state.listeners[j];
        }
    }
}

/// An event that neither adds a listener for the rule of a frozen listener
/// nor signals that rule leaves the listener frozen, with what it counted,
/// and leaves the entry of its rule alone, provided no other listener
/// shares the rule.
pub proof fn lemma_frozen_step(state: TrafficState, event: Event, id: int)
    requires
        state.sole(id),
        state.listeners[id].frozen(),
        !event.adds(state.rule_of(id)),
        !event.signals(state.rule_of(id)),
    ensures
        state.after(event).sole(id),
        state.after(event).rule_of(id) == state.rule_of(id),
        state.after(event).listeners[id].frozen(),
        state.after(event).listeners[id].worker.acc == state.listeners[id].worker.acc,
        state.after(event).listeners[id].worker.count == state.listeners[id].worker.count,
        same_entry(state.after(event), state, state.rule_of(id)),
{
    lemma_sole_after(state, event, id);
    match event {
        Event::Add(_) => {},
        Event::Signal(rule, _) => {
            lemma_last_with(state.listeners, rule);
        },
        Event::Packet(other, _) | Event::Wake(other) | Event::Close(other) => {
            if state.known(other) && other != id {
                let _ = state.listeners[other];
            }
        },
    }
}

/// A frozen listener without namesake counts nothing, and the entry of its
/// rule stays as it is, over any events that neither add a listener for the
/// rule nor signal it.
pub proof fn law_frozen_listener_holds(start: TrafficState, events: Seq<Event>, id: int)
    requires
        start.sole(id),
        start.listeners[id].frozen(),
        no_add(events, start.rule_of(id)),
        no_signal(events, start.rule_of(id)),
    ensures
        start.run(events).sole(id),
        start.run(events).rule_of(id) == start.rule_of(id),
        start.run(events).listeners[id].frozen(),
        start.run(events).listeners[id].worker.acc == start.listeners[id].worker.acc,
        start.run(events).listeners[id].worker.count == start.listeners[id].worker.count,
        same_entry(start.run(events), start, start.rule_of(id)),
    decreases events.len(),
{
    if events.len() > 0 {
        let front = events.drop_last();
        assert forall|i: int| 0 <= i < front.len() implies !(#[trigger] front[i]).adds(
            start.rule_of(id),
        ) && !front[i].signals(start.rule_of(id)) by {
            assert(front[i] == events[i]);
        }
        law_frozen_listener_holds(start, front, id);
        let _ = events[events.len() - 1];
        lemma_frozen_step(start.run(front), events.last(), id);
    }
}

/// After `Suspend` was sent for a rule whose single listener it freezes,
/// the listener counts nothing and the entry of the rule does not change,
/// over any events that neither add a listener for the rule nor signal it
/// again. A running listener with an empty inbox is frozen by a `Suspend`
/// (see [`ListenerState::lemma_idle`]).
///
/// A second signal is left out because whatever wakes a suspended listener,
/// short of `Stop`, resumes it; a listener with a signal still pending may
/// not be frozen, because it acts on that signal first.
pub proof fn law_suspended_listener_holds(start: TrafficState, events: Seq<Event>, id: int)
    requires
        start.sole(id),
        start.listeners[id].sent(Action::Suspend).frozen(),
        no_add(events, start.rule_of(id)),
        no_signal(events, start.rule_of(id)),
    ensures
        ({
            let end = start.signalled(start.rule_of(id), Action::Suspend).run(events);
            &&& end.listeners[id].worker.acc == start.listeners[id].worker.acc
            &&& end.listeners[id].worker.count == start.listeners[id].worker.count
            &&& same_entry(end, start, start.rule_of(id))
        }),
{
    let rule = start.rule_of(id);
    lemma_last_with(start.listeners, rule);
    lemma_sole_after(start, Event::Signal(rule, Action::Suspend), id);
    law_frozen_listener_holds(start.signalled(rule, Action::Suspend), events, id);
}

/// An event that adds no listener for the rule of a doomed listener leaves
/// the listener doomed, with what it counted, and leaves the entry of its
/// rule alone, provided no other listener shares the rule.
pub proof fn lemma_doomed_step(state: TrafficState, event: Event, id: int)
    requires
        state.sole(id),
        state.listeners[id].doomed(),
        !event.adds(state.rule_of(id)),
    ensures
        state.after(event).sole(id),
        state.after(event).rule_of(id) == state.rule_of(id),
        state.after(event).listeners[id].doomed(),
        state.after(event).listeners[id].worker.acc == state.listeners[id].worker.acc,
        state.after(event).listeners[id].worker.count == state.listeners[id].worker.count,
        same_entry(state.after(event), state, state.rule_of(id)),
{
    lemma_sole_after(state, event, id);
    match event {
        Event::Add(_) => {},
        Event::Signal(rule, _) => {
            lemma_last_with(state.listeners, rule);
        },
        Event::Packet(other, _) | Event::Wake(other) | Event::Close(other) => {
            if state.known(other) && other != id {
                let _ = state.listeners[other];
            }
        },
    }
}

/// A doomed listener without namesake counts nothing, and the entry of its
/// rule stays as it is, over any events that add no listener for the rule.
pub proof fn law_doomed_listener_holds(start: TrafficState, events: Seq<Event>, id: int)
    requires
        start.sole(id),
        start.listeners[id].doomed(),
        no_add(events, start.rule_of(id)),
    ensures
        start.run(events).sole(id),
        start.run(events).rule_of(id) == start.rule_of(id),
        start.run(events).listeners[id].doomed(),
        start.run(events).listeners[id].worker.acc == start.listeners[id].worker.acc,
        start.run(events).listeners[id].worker.count == start.listeners[id].worker.count,
        same_entry(start.run(events), start, start.rule_of(id)),
    decreases events.len(),
{
    if events.len() > 0 {
        let front = events.drop_last();
        assert forall|i: int| 0 <= i < front.len() implies !(#[trigger] front[i]).adds(
            start.rule_of(id),
        ) by {
            assert(front[i] == events[i]);
        }
        law_doomed_listener_holds(start, front, id);
        let _ = events[events.len() - 1];
        lemma_doomed_step(start.run(front), events.last(), id);
    }
}

/// After `Stop` was sent for a rule whose single listener it dooms, the
/// listener counts nothing and the entry of the rule never changes again,
/// whatever packets arrive and whatever signals follow, as long as no
/// listener is added for the rule. A listener with an empty inbox is doomed
/// by a `Stop` (see [`ListenerState::lemma_idle`]).
///
/// A listener with a signal still pending may not be doomed, because it acts
/// on that signal before it sees the `Stop`.
pub proof fn law_removed_listener_holds(start: TrafficState, events: Seq<Event>, id: int)
    requires
        start.sole(id),
        start.listeners[id].sent(Action::Stop).doomed(),
        no_add(events, start.rule_of(id)),
    ensures
        ({
            let end = start.signalled(start.rule_of(id), Action::Stop).run(events);
            &&& end.listeners[id].worker.acc == start.listeners[id].worker.acc
            &&& end.listeners[id].worker.count == start.listeners[id].worker.count
            &&& same_entry(end, start, start.rule_of(id))
        }),
{
    let rule = start.rule_of(id);
    lemma_last_with(start.listeners, rule);
    lemma_sole_after(start, Event::Signal(rule, Action::Stop), id);
    law_doomed_listener_holds(start.signalled(rule, Action::Stop), events, id);
}

/// Whether `a` is `b` with at most one more `Resume` at the end of the inbox
/// of listener `id`, where that `Resume` will find the listener running or
/// stopped.
pub open spec fn shadows(a: TrafficState, b: TrafficState, id: int) -> bool {
    &&& a.store == b.store
    &&& a.listeners.len() == b.listeners.len()
    &&& b.known(id)
    &&& forall|k: int|
        #![trigger a.listeners[k]]
        b.known(k) && k != id ==> a.listeners[k] == b.listeners[k]
    &&& a.listeners[id].worker == b.listeners[id].worker
    &&& {
        ||| a.listeners[id].inbox == b.listeners[id].inbox
        ||| b.listeners[id].worker.phase is Stopped
        ||| {
            &&& a.listeners[id].inbox == b.listeners[id].inbox.push(Action::Resume)
            &&& !(settles(b.listeners[id].worker.phase, b.listeners[id].inbox) is Suspended)
        }
    }
}

/// Two registries of which one shadows the other route every rule alike.
proof fn lemma_shadow_routes(a: TrafficState, b: TrafficState, id: int, rule: Seq<char>)
    requires
        shadows(a, b, id),
    ensures
        a.route(rule) == b.route(rule),
{
    lemma_last_with(a.listeners, rule);
    lemma_last_with(b.listeners, rule);
    if let Some(k) = b.route(rule) {
        let _ = a.listeners[k];
    }
    if let Some(k) = a.route(rule) {
        let _ = a.listeners[k];
        assert(b.listeners[k].worker.rule == rule);
    }
}

/// An event that is no signal for the rule of listener `id` takes two
/// registries of which one shadows the other to two such registries.
pub proof fn lemma_shadow_step(a: TrafficState, b: TrafficState, event: Event, id: int)
    requires
        shadows(a, b, id),
        !event.signals(b.rule_of(id)),
    ensures
        shadows(a.after(event), b.after(event), id),
        b.after(event).rule_of(id) == b.rule_of(id),
{
    let a2 = a.after(event);
    let b2 = b.after(event);
    let la = a.listeners[id];
    let lb = b.listeners[id];
    match event {
        Event::Add(_) => {
            let _ = a2.listeners[id];
        },
        Event::Signal(rule, _) => {
            lemma_shadow_routes(a, b, id, rule);
            lemma_last_with(b.listeners, rule);
            if let Some(target) = b.route(rule) {
                let _ = a.listeners[target];
            }
        },
        Event::Packet(other, _) => {
            if other != id && b.known(other) {
                let _ = a.listeners[other];
            } else if lb.worker.phase is Running && la.inbox != lb.inbox {
                if lb.inbox.len() == 0 {
                    assert(la.inbox[0] == Action::Resume);
                    assert(la.rest() =~= lb.rest());
                } else {
                    assert(la.inbox[0] == lb.inbox[0]);
                    assert(la.rest() =~= lb.rest().push(Action::Resume));
                }
            }
        },
        Event::Wake(other) => {
            if other != id && b.known(other) {
                let _ = a.listeners[other];
            } else if lb.worker.phase is Suspended && la.inbox != lb.inbox {
                assert(lb.inbox.len() > 0);
                assert(la.inbox[0] == lb.inbox[0]);
                assert(la.rest() =~= lb.rest().push(Action::Resume));
            }
        },
        Event::Close(other) => {
            if b.known(other) {
                let _ = a.listeners[other];
            }
        },
    }
    assert forall|k: int|
        #![trigger a2.listeners[k]]
        b2.known(k) && k != id implies a2.listeners[k] == b2.listeners[k] by {
        if b.known(k) {
            let _ = a.listeners[k];
        }
    }
}

/// By itself a signal changes no counter: the store and every worker are
/// as before, and only an inbox has grown.
pub proof fn law_signal_changes_no_counter(start: TrafficState, rule: Seq<char>, action: Action)
    ensures
        start.signalled(rule, action).store == start.store,
        start.signalled(rule, action).listeners.len() == start.listeners.len(),
        forall|id: int|
            start.known(id) ==> (#[trigger] start.signalled(rule, action).listeners[id]).worker
                == start.listeners[id].worker,
{
    lemma_last_with(start.listeners, rule);
}

/// A `Resume` for a listener that is not suspended, and that no pending
/// signal will leave suspended, changes nothing that can be observed: over
/// any events that send no further signal for the rule, the store and every
/// worker are what they would have been without it.
///
/// A listener that is suspended, or about to be, with nothing to wake it is
/// left out: for it the `Resume` is the wake-up.
pub proof fn law_resume_without_effect(start: TrafficState, events: Seq<Event>, id: int)
    requires
        start.route(start.rule_of(id)) == Some(id),
        !(settles(start.listeners[id].worker.phase, start.listeners[id].inbox) is Suspended),
        no_signal(events, start.rule_of(id)),
    ensures
        ({
            let with = start.signalled(start.rule_of(id), Action::Resume).run(events);
            let without = start.run(events);
            &&& with.store == without.store
            &&& with.listeners.len() == without.listeners.len()
            &&& forall|k: int|
                without.known(k) ==> (#[trigger] with.listeners[k]).worker
                    == without.listeners[k].worker
        }),
{
    lemma_resume_shadows(start, events, id);
}

proof fn lemma_resume_shadows(start: TrafficState, events: Seq<Event>, id: int)
    requires
        start.route(start.rule_of(id)) == Some(id),
        !(settles(start.listeners[id].worker.phase, start.listeners[id].inbox) is Suspended),
        no_signal(events, start.rule_of(id)),
    ensures
        shadows(
            start.signalled(start.rule_of(id), Action::Resume).run(events),
            start.run(events),
            id,
        ),
        start.run(events).rule_of(id) == start.rule_of(id),
    decreases events.len(),
{
    let rule = start.rule_of(id);
    let sent = start.signalled(rule, Action::Resume);
    lemma_last_with(start.listeners, rule);
    if events.len() == 0 {
        let _ = sent.listeners[id];
    } else {
        let front = events.drop_last();
        assert forall|i: int| 0 <= i < front.len() implies !(#[trigger] front[i]).signals(
            rule,
        ) by {
            assert(front[i] == events[i]);
        }
        lemma_resume_shadows(start, front, id);
        let _ = events[events.len() - 1];
        lemma_shadow_step(sent.run(front), start.run(front), events.last(), id);
    }
}

} // verus!
