//! Canonical order of session events and their replay.
//!
//! The router assigns session-local sequence numbers, keeps a bounded suffix
//! of the events for replay, and has every handler told of each event.
//! Handlers themselves are opaque to it: the caller hands in how one is run.
use std::collections::VecDeque;
use vstd::prelude::*;
use crate::keyed::{lemma_pick_next, picked_from};
use crate::session_protocol::{lemma_same_event_follows, same_event, SessionEvent};

verus! {

#[derive(Debug, Clone, Copy, PartialEq, Eq, Structural)]
pub enum SessionEventError {
    SequenceExhausted,
    HandlerPanicked,
    HandlerLimitReached { max: usize },
}

/// What a client that has seen events up to some sequence number is still owed.
#[derive(Debug, PartialEq, Eq)]
pub enum SessionReplay {
    Available { events: Vec<(u64, SessionEvent)>, latest_seq: u64 },
    SnapshotRequired { latest_seq: u64 },
}

/// A claim on the delivery of events, released by `unsubscribe`.
#[derive(Debug, PartialEq, Eq)]
pub struct SessionEventSubscription {
    handler_id: u64,
}

impl SessionEventSubscription {
    /// The id of the handler that a router was made with is no subscription's.
    #[verifier::type_invariant]
    spec fn is_subscription(self) -> bool {
        self.handler_id > 0
    }

    pub closed spec fn id(self) -> u64 {
        self.handler_id
    }

    pub fn handler_id(&self) -> (id: u64)
        ensures
            id == self.id(),
    {
        self.handler_id
    }
}

pub struct SessionEventRouter<H> {
    sequence: u64,
    next_handler_id: u64,
    fixed_count: usize,
    handlers: Vec<(u64, H)>,
    replay: VecDeque<(u64, SessionEvent)>,
    max_replay_events: usize,
    log: Ghost<Seq<SessionEvent>>,
}

/// The handlers but for those under an id, in order.
pub open spec fn without<H>(handlers: Seq<(u64, H)>, id: u64) -> Seq<(u64, H)>
    decreases handlers.len(),
{
    if handlers.len() == 0 {
        handlers
    } else if handlers.last().0 == id {
        without(handlers.drop_last(), id)
    } else {
        without(handlers.drop_last(), id).push(handlers.last())
    }
}

/// Whether some handler has an id.
pub open spec fn has_handler<H>(handlers: Seq<(u64, H)>, id: u64) -> bool {
    exists|i: int| 0 <= i < handlers.len() && (#[trigger] handlers[i]).0 == id
}

/// What counts of a router for who is told what.
pub struct RouterModel<H> {
    pub emitted: Seq<SessionEvent>,
    pub registered: Seq<(u64, H)>,
    pub next_id: u64,
}

/// One thing that a router does.
pub enum RouterStep<H> {
    Emit(SessionEvent),
    Subscribe(H),
    Unsubscribe(u64),
}

/// Whether one step leads from a router to another.
pub open spec fn stepped<H>(
    before: RouterModel<H>,
    after: RouterModel<H>,
    step: RouterStep<H>,
) -> bool {
    match step {
        RouterStep::Emit(event) => after == (RouterModel {
            emitted: before.emitted.push(event),
            ..before
        }),
        RouterStep::Subscribe(handler) => {
            &&& before.next_id < u64::MAX
            &&& after == (RouterModel {
                registered: before.registered.push((before.next_id, handler)),
                next_id: (before.next_id + 1) as u64,
                ..before
            })
        },
        RouterStep::Unsubscribe(id) => after == (RouterModel {
            registered: without(before.registered, id),
            ..before
        }),
    }
}

/// Whether every handler was told an event under its number. `panics` says of
/// each whether it panicked.
pub open spec fn delivered<H, F: Fn(&H, u64, &SessionEvent) -> bool>(
    deliver: F,
    handlers: Seq<(u64, H)>,
    sequence: u64,
    event: SessionEvent,
    panics: Seq<bool>,
) -> bool {
    &&& panics.len() == handlers.len()
    &&& forall|i: int|
        0 <= i < handlers.len() ==> deliver.ensures(
            (&(#[trigger] handlers[i]).1, sequence, &event),
            panics[i],
        )
}

impl<H> SessionEventRouter<H> {
    pub open spec fn model(self) -> RouterModel<H> {
        RouterModel {
            emitted: self.emitted(),
            registered: self.registered(),
            next_id: self.next_id(),
        }
    }

    /// Every event that the router has numbered; the event at index `i` has number `i + 1`.
    pub closed spec fn emitted(self) -> Seq<SessionEvent> {
        self.log@
    }

    /// How many of the newest events can be replayed at most.
    pub closed spec fn replay_limit(self) -> nat {
        self.max_replay_events as nat
    }

    /// The handlers that events are due to, each under its id.
    pub closed spec fn registered(self) -> Seq<(u64, H)> {
        self.handlers@
    }

    /// The id that the next subscription gets.
    pub closed spec fn next_id(self) -> u64 {
        self.next_handler_id
    }

    /// Handlers given at construction, which no subscription limit counts.
    pub closed spec fn fixed(self) -> nat {
        self.fixed_count as nat
    }

    /// How many subscriptions there are beside the fixed handlers.
    pub open spec fn live(self) -> int {
        self.registered().len() - self.fixed()
    }

    /// How many of the newest events can be replayed now.
    pub open spec fn retained(self) -> nat {
        if self.emitted().len() < self.replay_limit() {
            self.emitted().len()
        } else {
            self.replay_limit()
        }
    }

    pub closed spec fn well_formed(self) -> bool {
        &&& self.sequence == self.log@.len()
        &&& self.replay@.len() == self.retained()
        &&& forall|i: int|
            0 <= i < self.replay@.len() ==> {
                let at = self.log@.len() - self.replay@.len() + i;
                (#[trigger] self.replay@[i]).0 == at + 1 && same_event(
                    self.log@[at],
                    self.replay@[i].1,
                )
            }
        &&& self.next_handler_id > 0
        &&& self.fixed_count <= 1
        &&& self.fixed_count == 1 ==> self.handlers@.len() > 0 && self.handlers@[0].0 == 0
        &&& self.fixed_count == 0 ==> forall|i: int|
            0 <= i < self.handlers@.len() ==> (#[trigger] self.handlers@[i]).0 > 0
        &&& forall|i: int|
            0 <= i < self.handlers@.len() ==> (#[trigger] self.handlers@[i]).0
                < self.next_handler_id
        &&& forall|i: int, j: int|
            0 <= i < j < self.handlers@.len() ==> (#[trigger] self.handlers@[i]).0 < (
            #[trigger] self.handlers@[j]).0
    }

    pub fn new(handler: Option<H>) -> (router: Self)
        ensures
            router.well_formed(),
            router.emitted() == Seq::<SessionEvent>::empty(),
            router.replay_limit() == 0,
            router.next_id() == 1,
            router.fixed() == router.registered().len(),
            router.registered() == match handler {
                Some(handler) => seq![(0u64, handler)],
                None => seq![],
            },
    {
        SessionEventRouter::new_with_replay(handler, 0)
    }

    pub fn new_with_replay(handler: Option<H>, max_replay_events: usize) -> (router: Self)
        ensures
            router.well_formed(),
            router.emitted() == Seq::<SessionEvent>::empty(),
            router.replay_limit() == max_replay_events,
            router.next_id() == 1,
            router.fixed() == router.registered().len(),
            router.registered() == match handler {
                Some(handler) => seq![(0u64, handler)],
                None => seq![],
            },
    {
        let mut handlers: Vec<(u64, H)> = Vec::new();
        let mut fixed_count: usize = 0;
        if let Some(handler) = handler {
            handlers.push((0, handler));
            fixed_count = 1;
        }
        SessionEventRouter {
            sequence: 0,
            next_handler_id: 1,
            fixed_count,
            handlers,
            replay: VecDeque::new(),
            max_replay_events,
            log: Ghost(Seq::empty()),
        }
    }

    /// Numbers an event, has every registered handler told of it, and retains
    /// it for replay. `deliver` runs one handler and says whether it panicked;
    /// a handler that panics keeps no other from being told. The contract speaks
    /// of each run of a handler and does not count them.
    pub fn emit<F: Fn(&H, u64, &SessionEvent) -> bool>(
        &mut self,
        event: SessionEvent,
        deliver: F,
    ) -> (result: Result<u64, SessionEventError>)
        requires
            old(self).well_formed(),
            old(self).emitted().len() < u64::MAX ==> forall|i: int|
                0 <= i < old(self).registered().len() ==> deliver.requires(
                    (
                        &(#[trigger] old(self).registered()[i]).1,
                        (old(self).emitted().len() + 1) as u64,
                        &event,
                    ),
                ),
        ensures
            final(self).well_formed(),
            final(self).replay_limit() == old(self).replay_limit(),
            final(self).fixed() == old(self).fixed(),
            if old(self).emitted().len() < u64::MAX {
                let sequence = (old(self).emitted().len() + 1) as u64;
                &&& stepped(old(self).model(), final(self).model(), RouterStep::Emit(event))
                &&& exists|panics: Seq<bool>|
                    {
                        &&& #[trigger] delivered(
                            deliver,
                            old(self).registered(),
                            sequence,
                            event,
                            panics,
                        )
                        &&& result == if panics.contains(true) {
                            Err::<u64, SessionEventError>(SessionEventError::HandlerPanicked)
                        } else {
                            Ok(sequence)
                        }
                    }
            } else {
                &&& result == Err::<u64, SessionEventError>(SessionEventError::SequenceExhausted)
                &&& final(self).model() == old(self).model()
            },
    {
        match self.record(&event) {
            Err(error) => Err(error),
            Ok(sequence) => {
                assert(self.registered() == old(self).registered());
                tell_handlers(self.handlers.as_slice(), sequence, &event, deliver)
            },
        }
    }

    /// Numbers an event and retains it for replay, before anyone is told of it.
    pub fn record(&mut self, event: &SessionEvent) -> (result: Result<u64, SessionEventError>)
        requires
            old(self).well_formed(),
        ensures
            final(self).well_formed(),
            final(self).replay_limit() == old(self).replay_limit(),
            final(self).fixed() == old(self).fixed(),
            if old(self).emitted().len() < u64::MAX {
                &&& result == Ok::<u64, SessionEventError>((old(self).emitted().len() + 1) as u64)
                &&& stepped(old(self).model(), final(self).model(), RouterStep::Emit(*event))
            } else {
                &&& result == Err::<u64, SessionEventError>(SessionEventError::SequenceExhausted)
                &&& final(self).model() == old(self).model()
            },
    {
        if self.sequence == u64::MAX {
            return Err(SessionEventError::SequenceExhausted);
        }
        self.sequence = self.sequence + 1;
        let sequence: u64 = self.sequence;
        proof {
            self.log@ = self.log@.push(*event);
        }
        if self.max_replay_events > 0 {
            self.replay.push_back((sequence, event.clone()));
            if self.replay.len() > self.max_replay_events {
                let ghost full = self.replay@;
                self.replay.pop_front();
                assert(self.replay@ =~= full.drop_first());
            }
        }
        Ok(sequence)
    }

    /// The handlers that an event is due to.
    pub fn handlers(&self) -> (handlers: &[(u64, H)])
        ensures
            handlers@ == self.registered(),
    {
        self.handlers.as_slice()
    }

    /// Registers a handler unless the limit on subscriptions is reached.
    pub fn subscribe(&mut self, max_handlers: usize, handler: H) -> (result: Result<
        SessionEventSubscription,
        SessionEventError,
    >)
        requires
            old(self).well_formed(),
        ensures
            final(self).well_formed(),
            final(self).emitted() == old(self).emitted(),
            final(self).replay_limit() == old(self).replay_limit(),
            final(self).fixed() == old(self).fixed(),
            match result {
                Ok(subscription) => {
                    &&& old(self).live() < max_handlers
                    &&& old(self).next_id() < u64::MAX
                    &&& subscription.id() == old(self).next_id()
                    &&& subscription.id() > 0
                    &&& final(self).next_id() == old(self).next_id() + 1
                    &&& final(self).registered() == old(self).registered().push(
                        (old(self).next_id(), handler),
                    )
                    &&& !has_handler(old(self).registered(), subscription.id())
                    &&& stepped(
                        old(self).model(),
                        final(self).model(),
                        RouterStep::Subscribe(handler),
                    )
                },
                Err(error) => {
                    &&& final(self).registered() == old(self).registered()
                    &&& final(self).next_id() == old(self).next_id()
                    &&& if old(self).live() >= max_handlers {
                        error == SessionEventError::HandlerLimitReached { max: max_handlers }
                    } else {
                        error == SessionEventError::SequenceExhausted && old(self).next_id()
                            == u64::MAX
                    }
                },
            },
    {
        let live: usize = self.handlers.len() - self.fixed_count;
        if live >= max_handlers {
            return Err(SessionEventError::HandlerLimitReached { max: max_handlers });
        }
        if self.next_handler_id == u64::MAX {
            return Err(SessionEventError::SequenceExhausted);
        }
        let handler_id: u64 = self.next_handler_id;
        self.next_handler_id = handler_id + 1;
        self.handlers.push((handler_id, handler));
        Ok(SessionEventSubscription { handler_id })
    }

    /// Registers a handler and captures a value with no event in between: the
    /// value reflects exactly the events that the handler will not see.
    pub fn subscribe_and_capture<T, F: FnOnce() -> T>(
        &mut self,
        max_handlers: usize,
        handler: H,
        capture: F,
    ) -> (result: Result<(SessionEventSubscription, T), SessionEventError>)
        requires
            old(self).well_formed(),
            old(self).live() < max_handlers && old(self).next_id() < u64::MAX ==> capture.requires(()),
        ensures
            final(self).well_formed(),
            final(self).emitted() == old(self).emitted(),
            final(self).replay_limit() == old(self).replay_limit(),
            final(self).fixed() == old(self).fixed(),
            match result {
                Ok((subscription, captured)) => {
                    &&& old(self).live() < max_handlers
                    &&& old(self).next_id() < u64::MAX
                    &&& subscription.id() == old(self).next_id()
                    &&& subscription.id() > 0
                    &&& final(self).next_id() == old(self).next_id() + 1
                    &&& final(self).registered() == old(self).registered().push(
                        (old(self).next_id(), handler),
                    )
                    &&& capture.ensures((), captured)
                    &&& stepped(
                        old(self).model(),
                        final(self).model(),
                        RouterStep::Subscribe(handler),
                    )
                },
                Err(error) => {
                    &&& final(self).registered() == old(self).registered()
                    &&& final(self).next_id() == old(self).next_id()
                    &&& if old(self).live() >= max_handlers {
                        error == SessionEventError::HandlerLimitReached { max: max_handlers }
                    } else {
                        error == SessionEventError::SequenceExhausted && old(self).next_id()
                            == u64::MAX
                    }
                },
            },
    {
        match self.subscribe(max_handlers, handler) {
            Ok(subscription) => {
                let captured = capture();
                Ok((subscription, captured))
            },
            Err(error) => Err(error),
        }
    }

    /// Ends a subscription; the other handlers stay registered in order.
    pub fn unsubscribe(&mut self, subscription: SessionEventSubscription)
        requires
            old(self).well_formed(),
        ensures
            final(self).well_formed(),
            final(self).emitted() == old(self).emitted(),
            final(self).replay_limit() == old(self).replay_limit(),
            final(self).fixed() == old(self).fixed(),
            final(self).next_id() == old(self).next_id(),
            subscription.id() > 0,
            !has_handler(final(self).registered(), subscription.id()),
            !has_handler(old(self).registered(), subscription.id()) ==> final(self).registered()
                == old(self).registered(),
            forall|i: int|
                0 <= i < old(self).registered().len() && (
                #[trigger] old(self).registered()[i]).0 == subscription.id()
                    ==> final(self).registered() == old(self).registered().remove(i),
            stepped(
                old(self).model(),
                final(self).model(),
                RouterStep::Unsubscribe(subscription.id()),
            ),
    {
        proof {
            use_type_invariant(&subscription);
        }
        let mut i: usize = 0;
        while i < self.handlers.len()
            invariant
                i <= self.handlers@.len(),
                *self == *old(self),
                self.well_formed(),
                subscription.handler_id > 0,
                forall|j: int|
                    0 <= j < i ==> (#[trigger] self.handlers@[j]).0 != subscription.handler_id,
            decreases self.handlers@.len() - i,
        {
            if self.handlers[i].0 == subscription.handler_id {
                let ghost before = self.handlers@;
                self.handlers.remove(i);
                assert(self.handlers@ =~= before.remove(i as int));
                assert forall|j: int| 0 <= j < self.handlers@.len() implies (
                #[trigger] self.handlers@[j]).0 != subscription.handler_id by {
                    if j < i {
                        assert(self.handlers@[j] == before[j]);
                    } else {
                        assert(self.handlers@[j] == before[j + 1]);
                        assert(before[i as int].0 < before[j + 1].0);
                    }
                }
                proof {
                    lemma_without_one(before, i as int);
                }
                return ;
            }
            i = i + 1;
        }
        proof {
            lemma_without_none(self.handlers@, subscription.handler_id);
        }
    }

    pub fn latest_sequence(&self) -> (latest: u64)
        requires
            self.well_formed(),
        ensures
            latest == self.emitted().len(),
    {
        self.sequence
    }

    /// Whether every event after `last_seen_seq` can still be replayed.
    pub open spec fn can_replay(self, last_seen_seq: u64) -> bool {
        &&& last_seen_seq <= self.emitted().len()
        &&& self.emitted().len() - last_seen_seq <= self.retained()
    }

    /// Whether `events` are those after `last_seen_seq`, each under its number.
    pub open spec fn replays(
        self,
        last_seen_seq: u64,
        events: Seq<(u64, SessionEvent)>,
        latest_seq: u64,
    ) -> bool {
        &&& self.can_replay(last_seen_seq)
        &&& latest_seq == self.emitted().len()
        &&& events.len() == latest_seq - last_seen_seq
        &&& forall|i: int|
            0 <= i < events.len() ==> (#[trigger] events[i]).0 == last_seen_seq + 1 + i
                && same_event(self.emitted()[last_seen_seq + i], events[i].1)
    }

    /// Replays the events that a client has not seen: all of them, once and in
    /// order, or none and a snapshot is required.
    pub fn replay_since(&self, last_seen_seq: u64) -> (replay: SessionReplay)
        requires
            self.well_formed(),
        ensures
            match replay {
                SessionReplay::Available { events, latest_seq } => self.replays(
                    last_seen_seq,
                    events@,
                    latest_seq,
                ),
                SessionReplay::SnapshotRequired { latest_seq } => {
                    &&& !self.can_replay(last_seen_seq)
                    &&& latest_seq == self.emitted().len()
                },
            },
    {
        let latest_seq: u64 = self.sequence;
        if last_seen_seq > latest_seq {
            return SessionReplay::SnapshotRequired { latest_seq };
        }
        if last_seen_seq == latest_seq {
            return SessionReplay::Available { events: Vec::new(), latest_seq };
        }
        if self.replay.len() == 0 {
            return SessionReplay::SnapshotRequired { latest_seq };
        }
        let earliest_seq: u64 = self.replay[0].0;
        if last_seen_seq.saturating_add(1) < earliest_seq {
            return SessionReplay::SnapshotRequired { latest_seq };
        }
        let mut events: Vec<(u64, SessionEvent)> = Vec::new();
        let mut i: usize = 0;
        let ghost first = last_seen_seq + 1 - earliest_seq;
        while i < self.replay.len()
            invariant
                i <= self.replay@.len(),
                self.well_formed(),
                self.replay@.len() > 0,
                earliest_seq == self.replay@[0].0,
                last_seen_seq < self.sequence,
                first == last_seen_seq + 1 - earliest_seq,
                0 <= first < self.replay@.len(),
                events@.len() == if i < first {
                    0
                } else {
                    i - first
                },
                forall|j: int|
                    0 <= j < events@.len() ==> (#[trigger] events@[j]).0 == last_seen_seq + 1 + j
                        && same_event(self.log@[last_seen_seq + j], events@[j].1),
            decreases self.replay@.len() - i,
        {
            let entry = &self.replay[i];
            if entry.0 > last_seen_seq {
                let copy = entry.1.clone();
                proof {
                    let at = self.log@.len() - self.replay@.len() + i;
                    lemma_same_event_follows(self.log@[at], self.replay@[i as int].1, copy);
                }
                events.push((entry.0, copy));
            }
            i = i + 1;
        }
        SessionReplay::Available { events, latest_seq }
    }
}

/// Has every handler told of an event under its number, and reports the number,
/// or that a handler panicked. `deliver` runs one handler.
pub fn tell_handlers<H, F: Fn(&H, u64, &SessionEvent) -> bool>(
    handlers: &[(u64, H)],
    sequence: u64,
    event: &SessionEvent,
    deliver: F,
) -> (result: Result<u64, SessionEventError>)
    requires
        forall|i: int|
            0 <= i < handlers@.len() ==> deliver.requires(
                (&(#[trigger] handlers@[i]).1, sequence, event),
            ),
    ensures
        exists|panics: Seq<bool>|
            {
                &&& #[trigger] delivered(deliver, handlers@, sequence, *event, panics)
                &&& result == if panics.contains(true) {
                    Err::<u64, SessionEventError>(SessionEventError::HandlerPanicked)
                } else {
                    Ok(sequence)
                }
            },
{
    let ghost mut panics: Seq<bool> = Seq::empty();
    let mut handler_panicked = false;
    let mut i: usize = 0;
    while i < handlers.len()
        invariant
            i <= handlers@.len(),
            forall|k: int|
                0 <= k < handlers@.len() ==> deliver.requires(
                    (&(#[trigger] handlers@[k]).1, sequence, event),
                ),
            panics.len() == i,
            forall|k: int|
                0 <= k < i ==> deliver.ensures(
                    (&(#[trigger] handlers@[k]).1, sequence, event),
                    panics[k],
                ),
            handler_panicked == panics.contains(true),
        decreases handlers@.len() - i,
    {
        assert(handlers@[i as int] == handlers[i as int]);
        let panicked = deliver(&handlers[i].1, sequence, event);
        proof {
            let before = panics;
            panics = before.push(panicked);
            assert(panics[i as int] == panicked);
            if before.contains(true) {
                let at = choose|at: int| 0 <= at < before.len() && before[at] == true;
                assert(panics[at] == true);
            }
            if panics.contains(true) && !panicked {
                let at = choose|at: int| 0 <= at < panics.len() && panics[at] == true;
                assert(before[at] == true);
            }
        }
        if panicked {
            handler_panicked = true;
        }
        i = i + 1;
    }
    assert(delivered(deliver, handlers@, sequence, *event, panics));
    if handler_panicked {
        return Err(SessionEventError::HandlerPanicked);
    }
    Ok(sequence)
}

proof fn lemma_without_none<H>(handlers: Seq<(u64, H)>, id: u64)
    requires
        forall|i: int| 0 <= i < handlers.len() ==> (#[trigger] handlers[i]).0 != id,
    ensures
        without(handlers, id) == handlers,
    decreases handlers.len(),
{
    if handlers.len() > 0 {
        assert(handlers[handlers.len() - 1].0 != id);
        lemma_without_none(handlers.drop_last(), id);
        assert(handlers.drop_last().push(handlers.last()) =~= handlers);
    }
}

proof fn lemma_without_one<H>(handlers: Seq<(u64, H)>, at: int)
    requires
        0 <= at < handlers.len(),
        forall|i: int|
            0 <= i < handlers.len() && i != at ==> (#[trigger] handlers[i]).0 != handlers[at].0,
    ensures
        without(handlers, handlers[at].0) == handlers.remove(at),
    decreases handlers.len(),
{
    let id = handlers[at].0;
    let rest = handlers.drop_last();
    if at == handlers.len() - 1 {
        lemma_without_none(rest, id);
        assert(rest =~= handlers.remove(at));
    } else {
        assert(handlers[handlers.len() - 1].0 != id);
        assert(rest[at] == handlers[at]);
        lemma_without_one(rest, at);
        assert(rest.remove(at).push(handlers.last()) =~= handlers.remove(at));
    }
}

/// Leaving out an id leaves every other handler in.
proof fn lemma_without_holds<H>(handlers: Seq<(u64, H)>, id: u64)
    ensures
        !has_handler(without(handlers, id), id),
        forall|handler: (u64, H)|
            handler.0 != id ==> #[trigger] without(handlers, id).contains(handler)
                == handlers.contains(handler),
        forall|handler: (u64, H)| #[trigger]
            without(handlers, id).contains(handler) ==> handlers.contains(handler),
    decreases handlers.len(),
{
    if handlers.len() > 0 {
        let rest = handlers.drop_last();
        let last = handlers.last();
        lemma_without_holds(rest, id);
        let shorter = without(rest, id);
        let now = without(handlers, id);
        assert forall|handler: (u64, H)| handlers.contains(handler) == (rest.contains(handler)
            || handler == last) by {
            if handlers.contains(handler) {
                let i = choose|i: int| 0 <= i < handlers.len() && handlers[i] == handler;
                if i < rest.len() {
                    assert(rest[i] == handler);
                }
            }
            if rest.contains(handler) {
                let i = choose|i: int| 0 <= i < rest.len() && rest[i] == handler;
                assert(handlers[i] == handler);
            }
            assert(handlers[handlers.len() - 1] == last);
        }
        if last.0 != id {
            assert forall|handler: (u64, H)| now.contains(handler) == (shorter.contains(handler)
                || handler == last) by {
                if now.contains(handler) {
                    let i = choose|i: int| 0 <= i < now.len() && now[i] == handler;
                    if i < shorter.len() {
                        assert(shorter[i] == handler);
                    }
                }
                if shorter.contains(handler) {
                    let i = choose|i: int| 0 <= i < shorter.len() && shorter[i] == handler;
                    assert(now[i] == handler);
                }
                assert(now[now.len() - 1] == last);
            }
            if has_handler(now, id) {
                let i = choose|i: int| 0 <= i < now.len() && (#[trigger] now[i]).0 == id;
                assert(i < shorter.len());
                assert(shorter[i].0 == id);
            }
        }
    }
}

proof fn lemma_has_is_contains<H>(handlers: Seq<(u64, H)>, id: u64)
    ensures
        has_handler(handlers, id) <==> exists|handler: H| handlers.contains((id, handler)),
{
    if has_handler(handlers, id) {
        let i = choose|i: int| 0 <= i < handlers.len() && (#[trigger] handlers[i]).0 == id;
        assert(handlers[i] == (id, handlers[i].1));
        assert(handlers.contains((id, handlers[i].1)));
    }
    if exists|handler: H| handlers.contains((id, handler)) {
        let handler = choose|handler: H| handlers.contains((id, handler));
        let i = choose|i: int| 0 <= i < handlers.len() && handlers[i] == (id, handler);
        assert(handlers[i].0 == id);
    }
}

proof fn lemma_others_stay<H>(handlers: Seq<(u64, H)>, id: u64, other: u64)
    requires
        other != id,
    ensures
        has_handler(without(handlers, id), other) == has_handler(handlers, other),
{
    lemma_without_holds(handlers, id);
    lemma_has_is_contains(handlers, other);
    lemma_has_is_contains(without(handlers, id), other);
    if has_handler(handlers, other) {
        let handler = choose|handler: H| handlers.contains((other, handler));
        assert(without(handlers, id).contains((other, handler)));
    }
    if has_handler(without(handlers, id), other) {
        let handler = choose|handler: H| without(handlers, id).contains((other, handler));
        assert(handlers.contains((other, handler)));
    }
}

/// Whether a router went through some states, a step from each to the next.
pub open spec fn router_run<H>(states: Seq<RouterModel<H>>, steps: Seq<RouterStep<H>>) -> bool {
    &&& states.len() == steps.len() + 1
    &&& forall|i: int|
        0 <= i < steps.len() ==> stepped(states[i], states[i + 1], #[trigger] steps[i])
}

/// No handler has an id that is still to be given out.
pub open spec fn ids_given<H>(router: RouterModel<H>) -> bool {
    forall|id: u64| #[trigger] has_handler(router.registered, id) ==> id < router.next_id
}

proof fn lemma_ids_given<H>(states: Seq<RouterModel<H>>, steps: Seq<RouterStep<H>>, at: int)
    requires
        router_run(states, steps),
        ids_given(states[0]),
        0 <= at < states.len(),
    ensures
        ids_given(states[at]),
        states[0].next_id <= states[at].next_id,
    decreases at,
{
    if at > 0 {
        lemma_ids_given(states, steps, at - 1);
        let (a, b) = (states[at - 1], states[at]);
        assert(stepped(a, b, steps[at - 1]));
        assert forall|id: u64| #[trigger] has_handler(b.registered, id) implies id < b.next_id by {
            let i = choose|i: int|
                0 <= i < b.registered.len() && (#[trigger] b.registered[i]).0 == id;
            match steps[at - 1] {
                RouterStep::Emit(_) => {
                    assert(has_handler(a.registered, id));
                },
                RouterStep::Subscribe(_) => {
                    if i < a.registered.len() {
                        assert(a.registered[i].0 == id);
                        assert(has_handler(a.registered, id));
                    }
                },
                RouterStep::Unsubscribe(gone) => {
                    lemma_without_holds(a.registered, gone);
                    assert(id != gone);
                    lemma_others_stay(a.registered, gone, id);
                },
            }
        }
    }
}

proof fn lemma_registered_between<H>(
    states: Seq<RouterModel<H>>,
    steps: Seq<RouterStep<H>>,
    subscribed: int,
    unsubscribed: int,
    at: int,
)
    requires
        router_run(states, steps),
        ids_given(states[0]),
        0 <= subscribed < unsubscribed <= steps.len(),
        steps[subscribed] is Subscribe,
        forall|i: int|
            subscribed < i < unsubscribed ==> #[trigger] steps[i] != RouterStep::<H>::Unsubscribe(
                states[subscribed].next_id,
            ),
        unsubscribed < steps.len() ==> steps[unsubscribed] == RouterStep::<H>::Unsubscribe(
            states[subscribed].next_id,
        ),
        0 <= at < states.len(),
    ensures
        has_handler(states[at].registered, states[subscribed].next_id) <==> subscribed < at
            <= unsubscribed,
        subscribed < at ==> states[subscribed].next_id < states[at].next_id,
        subscribed < at <= unsubscribed ==> states[at].registered.contains(
            (states[subscribed].next_id, steps[subscribed]->Subscribe_0),
        ),
    decreases at,
{
    let id = states[subscribed].next_id;
    let told = (id, steps[subscribed]->Subscribe_0);
    lemma_ids_given(states, steps, subscribed);
    if at <= subscribed {
        lemma_next_ids_rise(states, steps, at, subscribed);
        lemma_ids_given(states, steps, at);
    } else {
        lemma_registered_between(states, steps, subscribed, unsubscribed, at - 1);
        let (a, b) = (states[at - 1], states[at]);
        assert(stepped(a, b, steps[at - 1]));
        match steps[at - 1] {
            RouterStep::Emit(_) => {},
            RouterStep::Subscribe(handler) => {
                if at - 1 == subscribed {
                    assert(b.registered[a.registered.len() as int] == told);
                    assert(has_handler(b.registered, id));
                } else {
                    if a.registered.contains(told) {
                        let i = choose|i: int|
                            0 <= i < a.registered.len() && a.registered[i] == told;
                        assert(b.registered[i] == told);
                    }
                    if has_handler(a.registered, id) {
                        let i = choose|i: int|
                            0 <= i < a.registered.len() && (#[trigger] a.registered[i]).0 == id;
                        assert(b.registered[i].0 == id);
                    }
                    if has_handler(b.registered, id) {
                        let i = choose|i: int|
                            0 <= i < b.registered.len() && (#[trigger] b.registered[i]).0 == id;
                        assert(i < a.registered.len());
                        assert(a.registered[i].0 == id);
                    }
                }
            },
            RouterStep::Unsubscribe(gone) => {
                lemma_without_holds(a.registered, gone);
                if gone == id {
                    assert(at - 1 >= unsubscribed);
                } else {
                    lemma_others_stay(a.registered, gone, id);
                    assert(at - 1 != unsubscribed);
                    assert(b.registered.contains(told) == a.registered.contains(told));
                }
            },
        }
    }
}

proof fn lemma_next_ids_rise<H>(
    states: Seq<RouterModel<H>>,
    steps: Seq<RouterStep<H>>,
    from: int,
    to: int,
)
    requires
        router_run(states, steps),
        0 <= from <= to < states.len(),
    ensures
        states[from].next_id <= states[to].next_id,
    decreases to - from,
{
    if from < to {
        lemma_next_ids_rise(states, steps, from, to - 1);
        assert(stepped(states[to - 1], states[to], steps[to - 1]));
    }
}

/// A handler is told exactly the events of its registration: in whatever a
/// router goes through, an event is due to the handler of a subscription if and
/// only if it is emitted after the subscription and before its end, and the
/// event then has the number that follows those emitted before it.
/// `unsubscribed` is the step that ends the subscription, or the number of
/// steps where none does.
pub proof fn law_subscription_bounds_delivery<H>(
    states: Seq<RouterModel<H>>,
    steps: Seq<RouterStep<H>>,
    subscribed: int,
    unsubscribed: int,
)
    requires
        router_run(states, steps),
        ids_given(states[0]),
        0 <= subscribed < unsubscribed <= steps.len(),
        steps[subscribed] is Subscribe,
        forall|i: int|
            subscribed < i < unsubscribed ==> #[trigger] steps[i] != RouterStep::<H>::Unsubscribe(
                states[subscribed].next_id,
            ),
        unsubscribed < steps.len() ==> steps[unsubscribed] == RouterStep::<H>::Unsubscribe(
            states[subscribed].next_id,
        ),
    ensures
        forall|i: int|
            0 <= i < steps.len() && #[trigger] steps[i] is Emit ==> {
                &&& subscribed < i < unsubscribed ==> states[i].registered.contains(
                    (states[subscribed].next_id, steps[subscribed]->Subscribe_0),
                )
                &&& has_handler(states[i].registered, states[subscribed].next_id) <==> subscribed
                    < i < unsubscribed
                &&& states[i + 1].emitted == states[i].emitted.push(steps[i]->Emit_0)
            },
{
    assert forall|i: int| 0 <= i < steps.len() && #[trigger] steps[i] is Emit implies {
        &&& subscribed < i < unsubscribed ==> states[i].registered.contains(
            (states[subscribed].next_id, steps[subscribed]->Subscribe_0),
        )
        &&& has_handler(states[i].registered, states[subscribed].next_id) <==> subscribed < i
            < unsubscribed
        &&& states[i + 1].emitted == states[i].emitted.push(steps[i]->Emit_0)
    } by {
        lemma_registered_between(states, steps, subscribed, unsubscribed, i);
        assert(stepped(states[i], states[i + 1], steps[i]));
    }
}

/// The subscriptions that were taken in the first steps and not ended in them.
pub open spec fn live_subscriptions<H>(
    states: Seq<RouterModel<H>>,
    steps: Seq<RouterStep<H>>,
    count: int,
) -> Seq<(u64, H)>
    decreases count,
{
    if count <= 0 {
        Seq::empty()
    } else {
        let before = live_subscriptions(states, steps, count - 1);
        match steps[count - 1] {
            RouterStep::Emit(_) => before,
            RouterStep::Subscribe(handler) => before.push((states[count - 1].next_id, handler)),
            RouterStep::Unsubscribe(id) => without(before, id),
        }
    }
}

proof fn lemma_without_behind<H>(fixed: Seq<(u64, H)>, others: Seq<(u64, H)>, id: u64)
    requires
        forall|i: int| 0 <= i < fixed.len() ==> (#[trigger] fixed[i]).0 != id,
    ensures
        without(fixed + others, id) == fixed + without(others, id),
    decreases others.len(),
{
    if others.len() == 0 {
        assert(fixed + others =~= fixed);
        assert(fixed + without(others, id) =~= fixed);
        lemma_without_none(fixed, id);
    } else {
        let rest = others.drop_last();
        assert((fixed + others).drop_last() =~= fixed + rest);
        assert((fixed + others).last() == others.last());
        lemma_without_behind(fixed, rest, id);
        assert(without(fixed + others, id) =~= fixed + without(others, id));
    }
}

/// What the limit on subscriptions counts are the subscriptions that are not
/// ended: beside the handler that a router was made with, exactly those are
/// registered, whatever the router goes through.
pub proof fn law_registered_are_the_live_subscriptions<H>(
    states: Seq<RouterModel<H>>,
    steps: Seq<RouterStep<H>>,
    count: int,
)
    requires
        router_run(states, steps),
        forall|i: int|
            0 <= i < states[0].registered.len() ==> (#[trigger] states[0].registered[i]).0 == 0,
        forall|i: int|
            0 <= i < steps.len() ==> (#[trigger] steps[i] matches RouterStep::Unsubscribe(id) ==> id
                > 0),
        0 <= count <= steps.len(),
    ensures
        states[count].registered == states[0].registered + live_subscriptions(states, steps, count),
    decreases count,
{
    let fixed = states[0].registered;
    if count == 0 {
        assert(fixed + live_subscriptions(states, steps, 0) =~= fixed);
    } else {
        law_registered_are_the_live_subscriptions(states, steps, count - 1);
        let before = live_subscriptions(states, steps, count - 1);
        assert(stepped(states[count - 1], states[count], steps[count - 1]));
        match steps[count - 1] {
            RouterStep::Emit(_) => {},
            RouterStep::Subscribe(handler) => {
                let taken = (states[count - 1].next_id, handler);
                assert((fixed + before).push(taken) =~= fixed + before.push(taken));
            },
            RouterStep::Unsubscribe(id) => {
                lemma_without_behind(fixed, before, id);
            },
        }
    }
}

/// A subscription's id is its own: no handler of a router has an id that the
/// router is still to give out.
pub proof fn law_handler_ids_were_given<H>(router: SessionEventRouter<H>)
    requires
        router.well_formed(),
    ensures
        ids_given(router.model()),
{
    assert forall|id: u64| #[trigger] has_handler(router.model().registered, id) implies id
        < router.model().next_id by {
        let i = choose|i: int|
            0 <= i < router.registered().len() && (#[trigger] router.registered()[i]).0 == id;
        assert(router.handlers@[i].0 < router.next_handler_id);
    }
}

/// A client that was up to date can be replayed the next event.
pub proof fn law_next_event_is_replayable<H>(
    before: SessionEventRouter<H>,
    after: SessionEventRouter<H>,
    event: SessionEvent,
)
    requires
        before.replay_limit() > 0,
        after.replay_limit() == before.replay_limit(),
        after.emitted() == before.emitted().push(event),
        before.emitted().len() < u64::MAX,
    ensures
        after.can_replay(before.emitted().len() as u64),
        after.emitted()[before.emitted().len() as int] == event,
{
}

/// A client can be served from replay exactly when it claims no event that is
/// yet to come and has missed no more events than the limit.
pub proof fn law_replay_window<H>(router: SessionEventRouter<H>, last_seen_seq: u64)
    ensures
        router.can_replay(last_seen_seq) <==> last_seen_seq <= router.emitted().len()
            && router.emitted().len() - last_seen_seq <= router.replay_limit(),
{
}

/// Every handler is told every event, under its number, and says whether it
/// panicked.
pub proof fn law_every_handler_is_told<H, F: Fn(&H, u64, &SessionEvent) -> bool>(
    deliver: F,
    handlers: Seq<(u64, H)>,
    sequence: u64,
    event: SessionEvent,
    panics: Seq<bool>,
    i: int,
)
    requires
        delivered(deliver, handlers, sequence, event, panics),
        0 <= i < handlers.len(),
    ensures
        panics.len() == handlers.len(),
        deliver.ensures((&handlers[i].1, sequence, &event), panics[i]),
{
    assert(handlers[i] == handlers[i]);
}

/// A replay brings every event behind the last one seen, each once, in order and
/// under its number, and nothing else. It can be had as long as all of them are
/// kept.
pub proof fn law_replay_brings_what_was_missed<H>(
    router: SessionEventRouter<H>,
    last_seen_seq: u64,
    events: Seq<(u64, SessionEvent)>,
    latest_seq: u64,
    i: int,
)
    requires
        router.replays(last_seen_seq, events, latest_seq),
    ensures
        latest_seq == router.emitted().len(),
        last_seen_seq <= latest_seq,
        last_seen_seq + events.len() == latest_seq,
        events.len() <= router.replay_limit(),
        0 <= i < events.len() ==> events[i].0 == last_seen_seq + 1 + i && same_event(
            router.emitted()[last_seen_seq + i],
            events[i].1,
        ),
{
}

/// A subscription that ends takes its handler away, and no other.
pub proof fn law_ended_subscription_takes_its_handler<H>(
    handlers: Seq<(u64, H)>,
    id: u64,
) -> (places: Seq<int>)
    ensures
        picked_from(without(handlers, id), handlers, places),
        forall|i: int|
            0 <= i < handlers.len() ==> (#[trigger] places.contains(i) <==> handlers[i].0 != id),
        !has_handler(without(handlers, id), id),
    decreases handlers.len(),
{
    if handlers.len() == 0 {
        seq![]
    } else {
        let rest = handlers.drop_last();
        let before = law_ended_subscription_takes_its_handler(rest, id);
        let left = without(handlers, id);
        lemma_pick_next(without(rest, id), rest, before, handlers.last());
        assert(rest.push(handlers.last()) =~= handlers);
        let places = if handlers.last().0 == id {
            before
        } else {
            before.push(rest.len() as int)
        };
        assert forall|i: int| 0 <= i < handlers.len() implies (#[trigger] places.contains(i)
            <==> handlers[i].0 != id) by {
            if i < rest.len() {
                assert(rest[i] == handlers[i]);
                assert(before.contains(i) <==> rest[i].0 != id);
            } else if before.contains(i) {
                let k = choose|k: int| 0 <= k < before.len() && before[k] == i;
                assert(before[k] < rest.len());
            }
        }
        assert forall|k: int| 0 <= k < left.len() implies (#[trigger] left[k]).0 != id by {
            assert(left[k] == handlers[places[k]]);
            assert(places.contains(places[k]));
        }
        places
    }
}

} // verus!
