//! The registry: the listeners, the routing of control signals by rule, and
//! the store the listeners publish into.

use vstd::prelude::*;
use crate::listener::{Listener, ListenerState};
use crate::model::{Action, Filter, PacketHeader, Totals};
use crate::store::StatsStore;
use crate::worker::{Step, PUBLISH_INTERVAL};

verus! {

/// The listener registered last for `rule`, if any.
pub open spec fn last_with(listeners: Seq<ListenerState>, rule: Seq<char>) -> Option<int>
    decreases listeners.len(),
{
    if listeners.len() == 0 {
        None
    } else if listeners.last().worker.rule == rule {
        Some(listeners.len() - 1)
    } else {
        last_with(listeners.drop_last(), rule)
    }
}

/// `last_with` finds the greatest index whose listener publishes under
/// `rule`, and finds nothing only where no listener does.
pub proof fn lemma_last_with(listeners: Seq<ListenerState>, rule: Seq<char>)
    ensures
        match last_with(listeners, rule) {
            Some(id) => {
                &&& 0 <= id < listeners.len()
                &&& listeners[id].worker.rule == rule
                &&& forall|j: int| id < j < listeners.len() ==> listeners[j].worker.rule != rule
            },
            None => forall|j: int| 0 <= j < listeners.len() ==> listeners[j].worker.rule != rule,
        },
    decreases listeners.len(),
{
    if listeners.len() > 0 && listeners.last().worker.rule != rule {
        let front = listeners.drop_last();
        lemma_last_with(front, rule);
        assert forall|j: int| 0 <= j < front.len() implies front[j] == listeners[j] by {}
    }
}

/// The mathematical state of a registry.
pub struct TrafficState {
    /// The last published counters of every rule.
    pub store: Map<Seq<char>, Totals>,
    /// Every listener ever registered, in the order of registration.
    pub listeners: Seq<ListenerState>,
}

impl TrafficState {
    /// A registry without listeners and without published counters.
    pub open spec fn empty() -> TrafficState {
        TrafficState { store: Map::empty(), listeners: Seq::empty() }
    }

    /// Whether `id` names a listener.
    pub open spec fn known(self, id: int) -> bool {
        0 <= id < self.listeners.len()
    }

    /// The rule under which listener `id` publishes.
    pub open spec fn rule_of(self, id: int) -> Seq<char> {
        self.listeners[id].worker.rule
    }

    /// The listener that signals for `rule` go to: the one registered last
    /// for it.
    pub open spec fn route(self, rule: Seq<char>) -> Option<int> {
        last_with(self.listeners, rule)
    }

    /// Whether no other listener shares the rule of listener `id`.
    pub open spec fn sole(self, id: int) -> bool {
        &&& self.known(id)
        &&& forall|j: int|
            #![trigger self.listeners[j]]
            self.known(j) && j != id ==> self.rule_of(j) != self.rule_of(id)
    }

    /// Whether listener `id` publishes under `rule` and has done so.
    pub open spec fn published(self, id: int, rule: Seq<char>) -> bool {
        &&& self.known(id)
        &&& self.rule_of(id) == rule
        &&& self.listeners[id].worker.count >= PUBLISH_INTERVAL
    }

    /// What holds of every registry that grew from an empty one:
    /// a listener that has counted a full interval has an entry in the store,
    /// every entry was published by a listener of its rule, and the entry of
    /// a rule with a single listener is what that listener published last.
    pub open spec fn inv(self) -> bool {
        &&& forall|id: int|
            #![trigger self.listeners[id]]
            self.known(id) && self.listeners[id].worker.count >= PUBLISH_INTERVAL
                ==> self.store.contains_key(self.rule_of(id))
        &&& forall|rule: Seq<char>| #[trigger]
            self.store.contains_key(rule) ==> exists|id: int| self.published(id, rule)
        &&& forall|id: int|
            #![trigger self.listeners[id]]
            self.sole(id) && self.store.contains_key(self.rule_of(id))
                ==> self.listeners[id].worker.lags(self.store[self.rule_of(id)])
    }

    /// The registry after a listener for `rule` was added. An earlier
    /// listener for the same rule stays and keeps running; signals for the
    /// rule reach the new one only.
    pub open spec fn added(self, rule: Seq<char>) -> TrafficState {
        TrafficState { listeners: self.listeners.push(ListenerState::start(rule)), ..self }
    }

    /// The registry after `action` was sent for `rule`. Without a listener
    /// for the rule nothing changes.
    pub open spec fn signalled(self, rule: Seq<char>, action: Action) -> TrafficState {
        match self.route(rule) {
            Some(id) => TrafficState {
                listeners: self.listeners.update(id, self.listeners[id].sent(action)),
                ..self
            },
            None => self,
        }
    }

    /// The registry after listener `id` became `next` and took `step`: on
    /// `Publish` its counters are written into the store under its rule.
    pub open spec fn settled(self, id: int, next: ListenerState, step: Step) -> TrafficState {
        TrafficState {
            store: if step is Publish {
                self.store.insert(next.worker.rule, next.worker.acc)
            } else {
                self.store
            },
            listeners: self.listeners.update(id, next),
        }
    }

    /// Whether a packet with `header` can be delivered to listener `id`
    /// within the machine's counters.
    pub open spec fn admits(self, id: int, header: PacketHeader) -> bool {
        self.known(id) ==> self.listeners[id].admits(header)
    }

    /// The registry after a packet with `header` arrived for listener `id`.
    pub open spec fn delivered(self, id: int, header: PacketHeader) -> TrafficState {
        if self.known(id) {
            self.settled(
                id,
                self.listeners[id].delivered(header),
                self.listeners[id].deliver_step(header),
            )
        } else {
            self
        }
    }

    /// The step that goes with [`Self::delivered`].
    pub open spec fn deliver_step(self, id: int, header: PacketHeader) -> Step {
        if self.known(id) {
            self.listeners[id].deliver_step(header)
        } else {
            Step::Exit
        }
    }

    /// The registry after listener `id` looked for the signal it waits for.
    pub open spec fn woken(self, id: int) -> TrafficState {
        if self.known(id) {
            self.settled(id, self.listeners[id].woken(), self.listeners[id].wake_step())
        } else {
            self
        }
    }

    /// The step that goes with [`Self::woken`].
    pub open spec fn wake_step(self, id: int) -> Step {
        if self.known(id) {
            self.listeners[id].wake_step()
        } else {
            Step::Exit
        }
    }

    /// The registry after the capture of listener `id` failed to open or
    /// gave no further packet.
    pub open spec fn closed(self, id: int) -> TrafficState {
        if self.known(id) {
            self.settled(id, self.listeners[id].closed(), self.close_step(id))
        } else {
            self
        }
    }

    /// The step that goes with [`Self::closed`]; it never publishes.
    pub open spec fn close_step(self, id: int) -> Step {
        if self.known(id) {
            self.listeners[id].worker.close_step()
        } else {
            Step::Exit
        }
    }

    /// An empty registry satisfies the invariant.
    pub proof fn lemma_empty_inv()
        ensures
            Self::empty().inv(),
    {
    }

    /// Adding a listener keeps the invariant.
    pub proof fn lemma_added_inv(self, rule: Seq<char>)
        requires
            self.inv(),
        ensures
            self.added(rule).inv(),
    {
        let after = self.added(rule);
        let n = self.listeners.len() as int;
        assert forall|id: int|
            #![trigger after.listeners[id]]
            after.known(id) && id != n implies after.listeners[id] == self.listeners[id] by {}
        assert forall|r: Seq<char>| #[trigger] after.store.contains_key(r) implies exists|id: int|
            after.published(id, r) by {
            let id = choose|id: int| self.published(id, r);
            assert(self.published(id, r));
            assert(after.listeners[id] == self.listeners[id]);
            assert(after.published(id, r));
        }
        assert forall|id: int|
            #![trigger after.listeners[id]]
            after.sole(id) && after.store.contains_key(after.rule_of(id))
                implies after.listeners[id].worker.lags(after.store[after.rule_of(id)]) by {
            let r = after.rule_of(id);
            let w = choose|w: int| self.published(w, r);
            assert(self.published(w, r));
            assert(after.listeners[w] == self.listeners[w]);
            assert(w == id);
            assert forall|j: int|
                #![trigger self.listeners[j]]
                self.known(j) && j != id implies self.rule_of(j) != self.rule_of(id) by {
                assert(after.listeners[j] == self.listeners[j]);
            }
            assert(self.sole(id));
        }
    }

    /// Sending a signal keeps the invariant.
    pub proof fn lemma_signalled_inv(self, rule: Seq<char>, action: Action)
        requires
            self.inv(),
        ensures
            self.signalled(rule, action).inv(),
    {
        lemma_last_with(self.listeners, rule);
        match self.route(rule) {
            Some(target) => {
                let next = self.listeners[target].sent(action);
                assert(self.signalled(rule, action) == self.settled(target, next, Step::Continue));
                self.lemma_settled_inv(target, next, Step::Continue, None);
            },
            None => {},
        }
    }

    /// A listener that moves on under its own rule keeps the invariant where
    /// it either counts one packet and takes the step that counting asks
    /// for, or counts nothing and publishes nothing.
    pub proof fn lemma_settled_inv(
        self,
        id: int,
        next: ListenerState,
        step: Step,
        counted: Option<PacketHeader>,
    )
        requires
            self.inv(),
            self.known(id),
            match counted {
                Some(header) => {
                    &&& next.worker == self.listeners[id].worker.counted(header)
                    &&& step == self.listeners[id].worker.step_counted(header)
                },
                None => {
                    &&& next.worker.rule == self.rule_of(id)
                    &&& next.worker.count == self.listeners[id].worker.count
                    &&& next.worker.acc == self.listeners[id].worker.acc
                    &&& !(step is Publish)
                },
            },
        ensures
            self.settled(id, next, step).inv(),
    {
        let after = self.settled(id, next, step);
        let mine = self.rule_of(id);
        let old_worker = self.listeners[id].worker;
        assert forall|j: int| #![trigger after.listeners[j]] after.known(j) implies {
            &&& self.known(j)
            &&& after.rule_of(j) == self.rule_of(j)
            &&& j != id ==> after.listeners[j] == self.listeners[j]
        } by {}
        assert forall|j: int|
            #![trigger after.listeners[j]]
            after.known(j) && after.listeners[j].worker.count >= PUBLISH_INTERVAL
                implies after.store.contains_key(after.rule_of(j)) by {
            if j != id || !(step is Publish) {
                assert(self.listeners[j].worker.count >= PUBLISH_INTERVAL);
                assert(self.store.contains_key(self.rule_of(j)));
            }
        }
        assert forall|r: Seq<char>| #[trigger] after.store.contains_key(r) implies exists|w: int|
            after.published(w, r) by {
            if self.store.contains_key(r) {
                let w = choose|w: int| self.published(w, r);
                assert(self.published(w, r));
                assert(after.rule_of(w) == self.rule_of(w));
                assert(after.published(w, r));
            } else {
                assert(after.published(id, r));
            }
        }
        assert forall|j: int|
            #![trigger after.listeners[j]]
            after.sole(j) && after.store.contains_key(after.rule_of(j))
                implies after.listeners[j].worker.lags(after.store[after.rule_of(j)]) by {
            assert forall|k: int|
                #![trigger self.listeners[k]]
                self.known(k) && k != j implies self.rule_of(k) != self.rule_of(j) by {
                assert(after.rule_of(k) == self.rule_of(k));
                assert(after.known(k));
                let _ = after.listeners[k];
            }
            assert(self.sole(j));
            if j == id {
                if self.store.contains_key(mine) {
                    assert(old_worker.lags(self.store[mine]));
                } else {
                    assert(old_worker.count < PUBLISH_INTERVAL);
                }
            } else {
                let _ = after.listeners[id];
                assert(after.rule_of(id) != after.rule_of(j));
                assert(self.store.contains_key(self.rule_of(j)));
            }
        }
    }

    /// Delivering a packet keeps the invariant.
    pub proof fn lemma_delivered_inv(self, id: int, header: PacketHeader)
        requires
            self.inv(),
        ensures
            self.delivered(id, header).inv(),
    {
        if self.known(id) {
            let l = self.listeners[id];
            self.lemma_settled_inv(
                id,
                l.delivered(header),
                l.deliver_step(header),
                l.counts_delivered(header),
            );
        }
    }

    /// The end of a capture keeps the invariant.
    pub proof fn lemma_closed_inv(self, id: int)
        requires
            self.inv(),
        ensures
            self.closed(id).inv(),
    {
        if self.known(id) {
            self.lemma_settled_inv(id, self.listeners[id].closed(), self.close_step(id), None);
        }
    }

    /// A wake-up keeps the invariant.
    pub proof fn lemma_woken_inv(self, id: int)
        requires
            self.inv(),
        ensures
            self.woken(id).inv(),
    {
        if self.known(id) {
            let l = self.listeners[id];
            self.lemma_settled_inv(id, l.woken(), l.wake_step(), l.counts_woken());
        }
    }
}

/// The registry of listeners and of what they published.
#[derive(Debug)]
pub struct Traffic {
    data_center: StatsStore,
    listeners: Vec<Listener>,
}

impl View for Traffic {
    type V = TrafficState;

    closed spec fn view(&self) -> TrafficState {
        TrafficState {
            store: self.data_center@,
            listeners: self.listeners@.map_values(|listener: Listener| listener@),
        }
    }
}

impl Traffic {
    /// The filter that listener `id` was registered with.
    pub closed spec fn config(&self, id: int) -> Filter {
        self.listeners@[id].config()
    }

    /// The store and every listener are well formed, and the registry
    /// satisfies the invariant of [`TrafficState`].
    pub closed spec fn wf(&self) -> bool {
        &&& self.data_center.wf()
        &&& forall|id: int|
            0 <= id < self.listeners@.len() ==> (#[trigger] self.listeners@[id]).wf()
        &&& self@.inv()
    }

    /// A well-formed registry satisfies the invariant and holds finitely
    /// many published rules.
    pub proof fn lemma_wf(&self)
        requires
            self.wf(),
        ensures
            self@.inv(),
            self@.store.dom().finite(),
    {
        self.data_center.lemma_finite();
    }

    /// A registry without listeners.
    pub fn new() -> (traffic: Traffic)
        ensures
            traffic.wf(),
            traffic@ == TrafficState::empty(),
    {
        let traffic = Traffic { data_center: StatsStore::new(), listeners: Vec::new() };
        assert(traffic@.listeners =~= Seq::empty());
        traffic
    }

    /// The number of listeners registered so far.
    pub fn listeners(&self) -> (n: usize)
        ensures
            n == self@.listeners.len(),
    {
        self.listeners.len()
    }

    /// Listener `id`, if there is one.
    pub fn listener(&self, id: usize) -> (found: Option<&Listener>)
        requires
            self.wf(),
        ensures
            match found {
                Some(listener) => {
                    &&& self@.known(id as int)
                    &&& listener.wf()
                    &&& listener@ == self@.listeners[id as int]
                    &&& listener.config() == self.config(id as int)
                },
                None => !self@.known(id as int),
            },
    {
        if id < self.listeners.len() {
            Some(&self.listeners[id])
        } else {
            None
        }
    }

    /// The listener that signals for `rule` go to.
    pub fn route(&self, rule: &String) -> (found: Option<usize>)
        requires
            self.wf(),
        ensures
            match found {
                Some(id) => self@.route(rule@) == Some(id as int),
                None => self@.route(rule@) is None,
            },
    {
        proof {
            lemma_last_with(self@.listeners, rule@);
        }
        let mut i: usize = self.listeners.len();
        while i > 0
            invariant
                self.wf(),
                i <= self.listeners@.len(),
                forall|j: int|
                    i <= j < self.listeners@.len() ==> self@.listeners[j].worker.rule != rule@,
            decreases i,
        {
            i = i - 1;
            assert(self@.listeners[i as int] == self.listeners@[i as int]@);
            if *self.listeners[i].worker().rule() == *rule {
                proof {
                    lemma_last_with(self@.listeners, rule@);
                }
                return Some(i);
            }
        }
        None
    }

    /// Registers a listener for `filter` and returns its number, by which
    /// whoever runs the capture delivers its packets.
    ///
    /// A listener registered earlier for the same rule is neither stopped nor
    /// replaced: it keeps running, and signals for the rule no longer reach
    /// it.
    pub fn add_listener(&mut self, filter: Filter) -> (id: usize)
        requires
            old(self).wf(),
        ensures
            final(self).wf(),
            final(self)@ == old(self)@.added(filter.rule@),
            id == old(self)@.listeners.len(),
            final(self).config(id as int) == filter,
            forall|other: int|
                old(self)@.known(other) ==> final(self).config(other) == old(self).config(other),
    {
        let id = self.listeners.len();
        proof {
            self@.lemma_added_inv(filter.rule@);
        }
        self.listeners.push(Listener::new(filter));
        assert(self@.listeners =~= old(self)@.added(filter.rule@).listeners);
        id
    }

    fn send(&mut self, rule: &String, action: Action)
        requires
            old(self).wf(),
        ensures
            final(self).wf(),
            final(self)@ == old(self)@.signalled(rule@, action),
            forall|other: int|
                old(self)@.known(other) ==> final(self).config(other) == old(self).config(other),
    {
        proof {
            self@.lemma_signalled_inv(rule@, action);
            lemma_last_with(self@.listeners, rule@);
        }
        match self.route(rule) {
            Some(id) => {
                self.listeners[id].send(action);
                assert(self@.listeners =~= old(self)@.signalled(rule@, action).listeners);
            },
            None => {},
        }
    }

    /// Sends `Stop` to the listener of `rule`; without one, does nothing.
    pub fn remove_listener(&mut self, rule: String)
        requires
            old(self).wf(),
        ensures
            final(self).wf(),
            final(self)@ == old(self)@.signalled(rule@, Action::Stop),
            forall|other: int|
                old(self)@.known(other) ==> final(self).config(other) == old(self).config(other),
    {
        self.send(&rule, Action::Stop)
    }

    /// Sends `Suspend` to the listener of `rule`; without one, does nothing.
    pub fn suspend_listener(&mut self, rule: String)
        requires
            old(self).wf(),
        ensures
            final(self).wf(),
            final(self)@ == old(self)@.signalled(rule@, Action::Suspend),
            forall|other: int|
                old(self)@.known(other) ==> final(self).config(other) == old(self).config(other),
    {
        self.send(&rule, Action::Suspend)
    }

    /// Sends `Resume` to the listener of `rule`; without one, does nothing.
    pub fn resume_listener(&mut self, rule: String)
        requires
            old(self).wf(),
        ensures
            final(self).wf(),
            final(self)@ == old(self)@.signalled(rule@, Action::Resume),
            forall|other: int|
                old(self)@.known(other) ==> final(self).config(other) == old(self).config(other),
    {
        self.send(&rule, Action::Resume)
    }

    /// A full copy of what has been published.
    pub fn get_data(&self) -> (data: StatsStore)
        requires
            self.wf(),
        ensures
            data.wf(),
            data@ == self@.store,
    {
        self.data_center.read()
    }

    /// A full copy of what has been published, without waiting.
    ///
    /// A shared borrow of the registry rules out a writer at work, so the
    /// copy is always there; a caller that guards the registry with a lock
    /// answers `None` itself while a writer holds it.
    pub fn try_get_data(&self) -> (data: Option<StatsStore>)
        requires
            self.wf(),
        ensures
            data matches Some(store) && store.wf() && store@ == self@.store,
    {
        self.data_center.try_read()
    }

    /// Whether a packet with `header` can be delivered to listener `id`
    /// within the machine's counters.
    pub fn can_deliver(&self, id: usize, header: PacketHeader) -> (ok: bool)
        requires
            self.wf(),
        ensures
            ok == self@.admits(id as int, header),
    {
        if id < self.listeners.len() {
            self.listeners[id].can_deliver(header)
        } else {
            true
        }
    }

    fn settle(&mut self, id: usize, step: Step, Ghost(before): Ghost<TrafficState>)
        requires
            old(self).data_center.wf(),
            forall|k: int|
                0 <= k < old(self).listeners@.len() ==> (#[trigger] old(self).listeners@[k]).wf(),
            before.known(id as int),
            before.store == old(self)@.store,
            old(self)@.listeners == before.listeners.update(
                id as int,
                old(self)@.listeners[id as int],
            ),
            before.settled(id as int, old(self)@.listeners[id as int], step).inv(),
        ensures
            final(self).wf(),
            final(self)@ == before.settled(id as int, old(self)@.listeners[id as int], step),
            final(self).listeners == old(self).listeners,
    {
        match step {
            Step::Publish => {
                let worker = self.listeners[id].worker();
                let rule = worker.rule().clone();
                let snapshot = worker.snapshot();
                self.data_center.publish(rule, snapshot);
            },
            _ => {},
        }
        assert(self@.listeners =~= old(self)@.listeners);
    }

    /// A packet with `header` arrived for listener `id`.
    ///
    /// The listener polls its inbox and acts on the signal and the packet as
    /// its worker decides; if that makes its counters due, they are written
    /// into the store. Without a listener `id` nothing happens and the step
    /// is `Exit`.
    pub fn deliver(&mut self, id: usize, header: PacketHeader) -> (step: Step)
        requires
            old(self).wf(),
            old(self)@.admits(id as int, header),
        ensures
            final(self).wf(),
            final(self)@ == old(self)@.delivered(id as int, header),
            step == old(self)@.deliver_step(id as int, header),
            forall|other: int|
                old(self)@.known(other) ==> final(self).config(other) == old(self).config(other),
    {
        if id >= self.listeners.len() {
            return Step::Exit;
        }
        proof {
            self@.lemma_delivered_inv(id as int, header);
        }
        let step = self.listeners[id].deliver(header);
        assert(self@.listeners =~= old(self)@.listeners.update(
            id as int,
            self@.listeners[id as int],
        ));
        self.settle(id, step, Ghost(old(self)@));
        step
    }

    /// The capture of listener `id` failed to open or gave no further packet.
    ///
    /// A running listener stops, with what it had published left in the
    /// store; a suspended one reads no packet and does not notice. Without a
    /// listener `id` the step is `Exit`.
    pub fn close(&mut self, id: usize) -> (step: Step)
        requires
            old(self).wf(),
        ensures
            final(self).wf(),
            final(self)@ == old(self)@.closed(id as int),
            step == old(self)@.close_step(id as int),
            forall|other: int|
                old(self)@.known(other) ==> final(self).config(other) == old(self).config(other),
    {
        if id >= self.listeners.len() {
            return Step::Exit;
        }
        proof {
            self@.lemma_closed_inv(id as int);
        }
        let step = self.listeners[id].close();
        assert(self@.listeners =~= old(self)@.listeners.update(
            id as int,
            self@.listeners[id as int],
        ));
        self.settle(id, step, Ghost(old(self)@));
        step
    }

    /// Listener `id` looks for the signal it waits for.
    ///
    /// A suspended listener with a signal in its inbox takes it: it stops on
    /// `Stop` and otherwise resumes and counts the packet it held, which may
    /// make its counters due. In every other case nothing changes. Without a
    /// listener `id` the step is `Exit`.
    pub fn wake(&mut self, id: usize) -> (step: Step)
        requires
            old(self).wf(),
        ensures
            final(self).wf(),
            final(self)@ == old(self)@.woken(id as int),
            step == old(self)@.wake_step(id as int),
            forall|other: int|
                old(self)@.known(other) ==> final(self).config(other) == old(self).config(other),
    {
        if id >= self.listeners.len() {
            return Step::Exit;
        }
        proof {
            self@.lemma_woken_inv(id as int);
        }
        let step = self.listeners[id].wake();
        assert(self@.listeners =~= old(self)@.listeners.update(
            id as int,
            self@.listeners[id as int],
        ));
        self.settle(id, step, Ghost(old(self)@));
        step
    }
}

} // verus!
