//! The bus: the consuming end of the channel and the registered handlers.
//! One event at a time is taken from the channel and handed to every handler,
//! in the order in which the handlers were registered.

use crate::audio::{in_tune, lemma_in_tune_after_reaction, StationView};
use crate::events::{Channel, Emitter, HandlerError, VinylEvent};
use crate::queue::{reaction, refused, QueueStore};
use crate::sse::{mirrored, SseManager};
use crate::track::Track;
use vstd::prelude::*;

verus! {

/// A consumer of events that can be registered on the bus.
#[derive(Debug, Clone, Copy, PartialEq, Eq, Structural)]
pub enum Subscriber {
    /// The queue store, which reacts to the outcome of ingestions.
    Queues,
    /// The push channel, which mirrors events to its clients.
    Pusher,
}

/// How handing an event to one handler ended.
#[derive(Debug, PartialEq, Eq)]
pub struct Delivery {
    /// The handler's place in the order of registration.
    pub handler: usize,
    pub subscriber: Subscriber,
    /// The handler's failure, if it failed. It stops nothing.
    pub outcome: Result<(), HandlerError>,
}

/// What one tick did.
#[derive(Debug, PartialEq, Eq)]
pub struct Tick {
    /// The event that was taken from the channel.
    pub event: VinylEvent,
    /// One delivery for each registered handler, in the order of
    /// registration.
    pub deliveries: Vec<Delivery>,
}

/// The bus.
pub struct Bus {
    channel: Channel,
    handlers: Vec<Subscriber>,
    started: bool,
}

/// The bus as contracts speak of it.
pub struct BusView {
    /// The events that await dispatch, oldest first.
    pub channel: Seq<VinylEvent>,
    /// The handlers, in the order of registration.
    pub handlers: Seq<Subscriber>,
    /// Whether dispatch has started: from then on no handler is registered.
    pub started: bool,
}

/// What the handlers act on.
pub struct Audience {
    pub queues: Seq<Seq<Track>>,
    /// For each client of the push channel, the events that wait for it.
    pub clients: Map<usize, Seq<VinylEvent>>,
}

/// The audience after one handler was handed `event`.
pub open spec fn handled(subscriber: Subscriber, audience: Audience, event: VinylEvent) -> Audience {
    match subscriber {
        Subscriber::Queues => Audience { queues: reaction(audience.queues, event), ..audience },
        Subscriber::Pusher => Audience { clients: mirrored(audience.clients, event), ..audience },
    }
}

/// Whether a handler fails on `event`.
pub open spec fn fails(subscriber: Subscriber, event: VinylEvent) -> bool {
    subscriber == Subscriber::Queues && refused(event)
}

/// The audience after each of `handlers` was handed `event`, in order.
pub open spec fn delivered(handlers: Seq<Subscriber>, audience: Audience, event: VinylEvent) -> Audience
    decreases handlers.len(),
{
    if handlers.len() == 0 {
        audience
    } else {
        handled(handlers.last(), delivered(handlers.drop_last(), audience, event), event)
    }
}

/// The audience after each of `events` was dispatched, in order.
pub open spec fn dispatched(handlers: Seq<Subscriber>, audience: Audience, events: Seq<VinylEvent>) -> Audience
    decreases events.len(),
{
    if events.len() == 0 {
        audience
    } else {
        delivered(handlers, dispatched(handlers, audience, events.drop_last()), events.last())
    }
}

/// The deliveries of one tick: `event` goes to each of `handlers` handlers,
/// in the order of registration. A delivery is given by the handler's place
/// and the event.
pub open spec fn round(handlers: nat, event: VinylEvent) -> Seq<(int, VinylEvent)> {
    Seq::new(handlers, |h: int| (h, event))
}

/// All deliveries made while `events` are dispatched, in the order in which
/// they are made: one round for each event.
pub open spec fn trace(handlers: nat, events: Seq<VinylEvent>) -> Seq<(int, VinylEvent)>
    decreases events.len(),
{
    if events.len() == 0 {
        Seq::empty()
    } else {
        trace(handlers, events.drop_last()) + round(handlers, events.last())
    }
}

/// All deliveries that `ticks` made, in the order in which they were made.
pub open spec fn made_by(ticks: Seq<Tick>) -> Seq<(int, VinylEvent)>
    decreases ticks.len(),
{
    if ticks.len() == 0 {
        Seq::empty()
    } else {
        made_by(ticks.drop_last()) + ticks.last().made()
    }
}

/// The events that the handler at place `handler` is handed in the course
/// of `deliveries`, in the order in which it is handed them.
pub open spec fn observed(deliveries: Seq<(int, VinylEvent)>, handler: int) -> Seq<VinylEvent>
    decreases deliveries.len(),
{
    if deliveries.len() == 0 {
        Seq::empty()
    } else {
        let earlier = observed(deliveries.drop_last(), handler);
        if deliveries.last().0 == handler {
            earlier.push(deliveries.last().1)
        } else {
            earlier
        }
    }
}

proof fn lemma_observed_concat(a: Seq<(int, VinylEvent)>, b: Seq<(int, VinylEvent)>, handler: int)
    ensures
        observed(a + b, handler) == observed(a, handler) + observed(b, handler),
    decreases b.len(),
{
    if b.len() == 0 {
        assert(a + b =~= a);
        assert(observed(a, handler) + observed(b, handler) =~= observed(a, handler));
    } else {
        lemma_observed_concat(a, b.drop_last(), handler);
        assert((a + b).drop_last() =~= a + b.drop_last());
        assert((a + b).last() == b.last());
        if b.last().0 == handler {
            assert(observed(a, handler) + observed(b.drop_last(), handler).push(b.last().1)
                =~= (observed(a, handler) + observed(b.drop_last(), handler)).push(b.last().1));
        }
    }
}

proof fn lemma_observed_round(handlers: nat, event: VinylEvent, handler: int, upto: nat)
    requires
        upto <= handlers,
    ensures
        observed(round(handlers, event).take(upto as int), handler) == if 0 <= handler < upto {
            seq![event]
        } else {
            Seq::<VinylEvent>::empty()
        },
    decreases upto,
{
    let prefix = round(handlers, event).take(upto as int);
    if upto > 0 {
        lemma_observed_round(handlers, event, handler, (upto - 1) as nat);
        assert(prefix.drop_last() =~= round(handlers, event).take(upto - 1));
        assert(prefix.last() == (upto - 1, event));
        if handler == upto - 1 {
            assert(Seq::<VinylEvent>::empty().push(event) =~= seq![event]);
        }
    }
}

/// Bus ordering: every registered handler is handed the events in the same
/// order, which is the order in which the channel held them, each event
/// once.
pub proof fn lemma_handlers_agree(handlers: nat, events: Seq<VinylEvent>, handler: int)
    requires
        0 <= handler < handlers,
    ensures
        observed(trace(handlers, events), handler) == events,
    decreases events.len(),
{
    if events.len() == 0 {
    } else {
        let earlier = events.drop_last();
        lemma_handlers_agree(handlers, earlier, handler);
        lemma_observed_concat(trace(handlers, earlier), round(handlers, events.last()), handler);
        lemma_observed_round(handlers, events.last(), handler, handlers);
        assert(round(handlers, events.last()).take(handlers as int) =~= round(
            handlers,
            events.last(),
        ));
        assert(earlier + seq![events.last()] =~= events);
    }
}

/// Dispatch disturbs no station: the handlers resolve and fail pending
/// tracks, and a track that plays is neither.
pub proof fn lemma_in_tune_after_delivery(
    stations: Seq<StationView>,
    handlers: Seq<Subscriber>,
    audience: Audience,
    event: VinylEvent,
)
    requires
        in_tune(stations, audience.queues),
    ensures
        in_tune(stations, delivered(handlers, audience, event).queues),
    decreases handlers.len(),
{
    if handlers.len() > 0 {
        lemma_in_tune_after_delivery(stations, handlers.drop_last(), audience, event);
        lemma_in_tune_after_reaction(
            stations,
            delivered(handlers.drop_last(), audience, event).queues,
            event,
        );
    }
}

/// Dispatch goes event by event: what a run of events does to the audience
/// is what its first event does, followed by what the others do.
pub proof fn lemma_dispatched_first(
    handlers: Seq<Subscriber>,
    audience: Audience,
    events: Seq<VinylEvent>,
)
    requires
        events.len() > 0,
    ensures
        dispatched(handlers, audience, events) == dispatched(
            handlers,
            delivered(handlers, audience, events[0]),
            events.drop_first(),
        ),
    decreases events.len(),
{
    let first = delivered(handlers, audience, events[0]);
    if events.len() == 1 {
        assert(dispatched(handlers, audience, events.drop_last()) == audience);
        assert(dispatched(handlers, first, events.drop_first()) == first);
        assert(events.last() == events[0]);
    } else {
        lemma_dispatched_first(handlers, audience, events.drop_last());
        assert(events.drop_last().drop_first() =~= events.drop_first().drop_last());
        assert(events.drop_last()[0] == events[0]);
        assert(events.drop_first().last() == events.last());
        assert(dispatched(handlers, first, events.drop_first()) == delivered(
            handlers,
            dispatched(handlers, first, events.drop_first().drop_last()),
            events.last(),
        ));
    }
}

impl Tick {
    /// The deliveries of this tick, each given by the handler's place and
    /// the event, in the order in which they were made.
    pub open spec fn made(self) -> Seq<(int, VinylEvent)> {
        Seq::new(self.deliveries@.len(), |h: int| (self.deliveries@[h].handler as int, self.event))
    }
}

impl View for Bus {
    type V = BusView;

    closed spec fn view(&self) -> BusView {
        BusView { channel: self.channel@, handlers: self.handlers@, started: self.started }
    }
}

impl Bus {
    /// A bus that consumes `channel`, without handlers. Dispatch has not
    /// started.
    pub fn new(channel: Channel) -> (bus: Bus)
        ensures
            bus@ == (BusView { channel: channel@, handlers: Seq::empty(), started: false }),
    {
        Bus { channel, handlers: Vec::new(), started: false }
    }

    /// Registers a handler behind those registered before. Handlers are
    /// registered before dispatch starts: once it has, the handler is turned
    /// down and nothing changes. Returns whether the handler was registered.
    pub fn register(&mut self, handler: Subscriber) -> (registered: bool)
        ensures
            registered == !old(self)@.started,
            registered ==> final(self)@ == (BusView {
                handlers: old(self)@.handlers.push(handler),
                ..old(self)@
            }),
            !registered ==> final(self)@ == old(self)@,
    {
        if self.started {
            return false;
        }
        self.handlers.push(handler);
        true
    }

    /// Takes over what `emitter` holds, behind what the channel holds.
    pub fn accept(&mut self, emitter: &mut Emitter)
        ensures
            final(self)@ == (BusView {
                channel: old(self)@.channel + old(emitter)@,
                ..old(self)@
            }),
            final(emitter)@ == Seq::<VinylEvent>::empty(),
    {
        self.channel.accept(emitter);
    }

    /// Puts one event into the channel, behind what it holds.
    pub fn send(&mut self, event: VinylEvent)
        ensures
            final(self)@ == (BusView { channel: old(self)@.channel.push(event), ..old(self)@ }),
    {
        self.channel.send(event);
    }

    /// How many events await dispatch.
    pub fn pending(&self) -> (n: usize)
        ensures
            n == self@.channel.len(),
    {
        self.channel.len()
    }

    /// Dispatches the oldest event of the channel: it is handed to every
    /// handler, in the order of registration, whether or not an earlier
    /// handler failed. The failures are reported, not raised. Where the
    /// channel is empty nothing is dispatched and `None` is returned: the
    /// caller waits for an event and calls again. With the first tick
    /// dispatch has started.
    pub fn tick(&mut self, queues: &mut QueueStore, sse: &mut SseManager) -> (tick: Option<Tick>)
        ensures
            final(self)@.handlers == old(self)@.handlers,
            final(self)@.started,
            old(queues).wf() ==> final(queues).wf(),
            final(sse).issued() == old(sse).issued(),
            match tick {
                Some(tick) => {
                    &&& old(self)@.channel.len() > 0
                    &&& tick.event == old(self)@.channel[0]
                    &&& final(self)@.channel == old(self)@.channel.drop_first()
                    &&& (Audience { queues: final(queues)@, clients: final(sse)@ }) == delivered(
                        old(self)@.handlers,
                        Audience { queues: old(queues)@, clients: old(sse)@ },
                        tick.event,
                    )
                    &&& tick.made() == round(old(self)@.handlers.len(), tick.event)
                    &&& tick.deliveries@.len() == old(self)@.handlers.len()
                    &&& forall|h: int|
                        0 <= h < tick.deliveries@.len() ==> {
                            &&& (#[trigger] tick.deliveries@[h]).handler == h
                            &&& tick.deliveries@[h].subscriber == old(self)@.handlers[h]
                            &&& tick.deliveries@[h].outcome is Err <==> fails(
                                old(self)@.handlers[h],
                                tick.event,
                            )
                        }
                },
                None => {
                    &&& old(self)@.channel.len() == 0
                    &&& final(self)@.channel == old(self)@.channel
                    &&& final(queues)@ == old(queues)@
                    &&& final(sse)@ == old(sse)@
                },
            },
    {
        self.started = true;
        let event = match self.channel.recv() {
            Some(event) => event,
            None => {
                return None;
            },
        };
        let mut deliveries: Vec<Delivery> = Vec::new();
        let mut h: usize = 0;
        while h < self.handlers.len()
            invariant
                h <= self.handlers@.len(),
                self.handlers@ == old(self).handlers@,
                self.started,
                self.channel@ == old(self).channel@.drop_first(),
                old(queues).wf() ==> queues.wf(),
                sse.issued() == old(sse).issued(),
                (Audience { queues: queues@, clients: sse@ }) == delivered(
                    self.handlers@.take(h as int),
                    Audience { queues: old(queues)@, clients: old(sse)@ },
                    event,
                ),
                deliveries@.len() == h,
                forall|k: int|
                    0 <= k < h ==> {
                        &&& (#[trigger] deliveries@[k]).handler == k
                        &&& deliveries@[k].subscriber == self.handlers@[k]
                        &&& deliveries@[k].outcome is Err <==> fails(self.handlers@[k], event)
                    },
            decreases self.handlers@.len() - h,
        {
            let subscriber = self.handlers[h];
            proof {
                assert(self.handlers@.take(h + 1).drop_last() =~= self.handlers@.take(h as int));
                assert(self.handlers@.take(h + 1).last() == subscriber);
            }
            let outcome = match subscriber {
                Subscriber::Queues => queues.handle(&event),
                Subscriber::Pusher => {
                    sse.handle(&event);
                    Ok(())
                },
            };
            deliveries.push(Delivery { handler: h, subscriber, outcome });
            h += 1;
        }
        let tick = Tick { event, deliveries };
        proof {
            assert(self.handlers@.take(self.handlers@.len() as int) =~= self.handlers@);
            assert(tick.made() =~= round(self.handlers@.len(), tick.event));
        }
        Some(tick)
    }

    /// Dispatches every event that the channel holds, oldest first, and
    /// returns what each tick did.
    pub fn drain(&mut self, queues: &mut QueueStore, sse: &mut SseManager) -> (ticks: Vec<Tick>)
        ensures
            final(self)@ == (BusView { channel: Seq::empty(), started: true, ..old(self)@ }),
            old(queues).wf() ==> final(queues).wf(),
            final(sse).issued() == old(sse).issued(),
            (Audience { queues: final(queues)@, clients: final(sse)@ }) == dispatched(
                old(self)@.handlers,
                Audience { queues: old(queues)@, clients: old(sse)@ },
                old(self)@.channel,
            ),
            ticks@.len() == old(self)@.channel.len(),
            forall|t: int|
                0 <= t < ticks@.len() ==> (#[trigger] ticks@[t]).event == old(self)@.channel[t],
            made_by(ticks@) == trace(old(self)@.handlers.len(), old(self)@.channel),
    {
        let mut ticks: Vec<Tick> = Vec::new();
        let ghost all = self@.channel;
        let ghost start = Audience { queues: queues@, clients: sse@ };
        proof {
            assert(all.skip(0) =~= all);
        }
        loop
            invariant
                self@.handlers == old(self)@.handlers,
                ticks@.len() > 0 ==> self@.started,
                all == old(self)@.channel,
                start == (Audience { queues: old(queues)@, clients: old(sse)@ }),
                old(queues).wf() ==> queues.wf(),
                sse.issued() == old(sse).issued(),
                ticks@.len() <= all.len(),
                self@.channel == all.skip(ticks@.len() as int),
                dispatched(self@.handlers, start, all) == dispatched(
                    self@.handlers,
                    Audience { queues: queues@, clients: sse@ },
                    self@.channel,
                ),
                forall|t: int| 0 <= t < ticks@.len() ==> (#[trigger] ticks@[t]).event == all[t],
                made_by(ticks@) == trace(self@.handlers.len(), all.take(ticks@.len() as int)),
            ensures
                self@.channel.len() == 0,
                self@.started,
                ticks@.len() == all.len(),
            decreases self@.channel.len(),
        {
            let ghost before = Audience { queues: queues@, clients: sse@ };
            let ghost waiting = self@.channel;
            match self.tick(queues, sse) {
                Some(tick) => {
                    proof {
                        lemma_dispatched_first(self@.handlers, before, waiting);
                        assert(all.skip(ticks@.len() as int).drop_first() =~= all.skip(
                            ticks@.len() as int + 1,
                        ));
                        let done = ticks@.len() as int;
                        assert(ticks@.push(tick).drop_last() =~= ticks@);
                        assert(all.take(done + 1).drop_last() =~= all.take(done));
                        assert(all.take(done + 1).last() == tick.event);
                    }
                    ticks.push(tick);
                },
                None => {
                    break ;
                },
            }
        }
        proof {
            assert(self@.channel =~= Seq::<VinylEvent>::empty());
            assert(all.take(all.len() as int) =~= all);
        }
        ticks
    }
}

} // verus!
