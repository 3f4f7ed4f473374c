//! The server as a whole: the context that request handlers work on, the
//! bus that dispatches what they publish, and how both come up at startup.

use crate::bus::{
    delivered, fails, lemma_in_tune_after_delivery, round, Audience, Bus, BusView, Subscriber,
    Tick,
};
use crate::events::{Channel, Emitter, VinylEvent};
use crate::ingest::Job;
use crate::rooms::{
    empty_queues, fresh_stations, next_free, offence, offends, slots_extended, RestoreError,
    Room,
};
use crate::sse::SseManager;
use crate::store::{Store, StoreView};
use crate::util::DatabaseError;
use vstd::prelude::*;
use vstd::string::StringExecFns;

verus! {

/// What request handlers work on.
pub struct VinylContext {
    pub store: Store,
    pub sse: SseManager,
}

/// The server: its context and its bus.
pub struct Vinyl {
    pub context: VinylContext,
    pub event_bus: Bus,
}

/// Why the server did not come up.
#[derive(Debug, PartialEq, Eq)]
pub enum VinylError {
    /// The database could not be reached.
    Database(DatabaseError),
    /// Anything else, in words.
    Fatal(String),
}

/// How far the preparations for startup came.
#[derive(Debug, PartialEq, Eq)]
pub enum Boot {
    /// The async runtime could not be built; the reason is given.
    RuntimeFailed(String),
    /// The connection to the database failed.
    ConnectFailed(DatabaseError),
    /// The persisted rooms could not be read from the database.
    LoadFailed(DatabaseError),
    /// The rooms that were persisted, in the order in which they are to be
    /// listed.
    Loaded(Vec<Room>),
}

/// The handlers that the server registers, in order: the queue store, then
/// the push channel.
pub open spec fn registered() -> Seq<Subscriber> {
    seq![Subscriber::Queues, Subscriber::Pusher]
}

/// What an operator can do about a database error.
pub open spec fn database_hint() -> Seq<char> {
    "This is a database error. Make sure the SurrealDB instance is properly installed and running, then try again."@
}

/// What an operator can do about a fatal error.
pub open spec fn fatal_hint() -> Seq<char> {
    "This error is fatal, and should not happen."@
}

/// The words for an error that kept persisted rooms from being restored.
pub open spec fn restore_message(error: RestoreError) -> Seq<char> {
    match error {
        RestoreError::DuplicateId(_) => "Two persisted rooms share an id"@,
        RestoreError::IdOutOfRange(_) => "A persisted room has the last id there is"@,
    }
}

impl RestoreError {
    /// The error in words.
    pub fn to_string(&self) -> (text: String)
        ensures
            text@ == restore_message(*self),
    {
        match self {
            RestoreError::DuplicateId(_) => "Two persisted rooms share an id".to_string(),
            RestoreError::IdOutOfRange(_) => "A persisted room has the last id there is".to_string(),
        }
    }
}

impl VinylError {
    /// What an operator can do about the error.
    pub fn hint(&self) -> (text: String)
        ensures
            text@ == match self {
                VinylError::Database(_) => database_hint(),
                VinylError::Fatal(_) => fatal_hint(),
            },
    {
        match self {
            VinylError::Database(_) =>
                "This is a database error. Make sure the SurrealDB instance is properly installed and running, then try again.".to_string(),
            VinylError::Fatal(_) => "This error is fatal, and should not happen.".to_string(),
        }
    }

    /// The error in words.
    pub fn to_string(&self) -> (text: String)
        ensures
            text@ == match self {
                VinylError::Database(error) => "Could not initialize database: "@ + error.message@,
                VinylError::Fatal(reason) => "Fatal error: "@ + reason@,
            },
    {
        match self {
            VinylError::Database(error) => {
                let mut text = "Could not initialize database: ".to_string();
                text.append(error.message.as_str());
                text
            },
            VinylError::Fatal(reason) => {
                let mut text = "Fatal error: ".to_string();
                text.append(reason.as_str());
                text
            },
        }
    }
}

impl Vinyl {
    /// The store is well formed.
    pub open spec fn wf(&self) -> bool {
        self.context.store.wf()
    }

    /// Brings the server up from how far the preparations came. Where they
    /// came through, the persisted rooms are restored, each with an empty
    /// queue and an idle station, nothing is published, no client is
    /// subscribed, and the queue store and the push channel are registered
    /// on the bus, in that order. A connection that failed and rooms that
    /// could not be read are database errors, with the database's own words;
    /// a runtime that could not be built and rooms that cannot be restored
    /// are fatal.
    pub fn new(boot: Boot) -> (vinyl: Result<Vinyl, VinylError>)
        ensures
            match vinyl {
                Ok(vinyl) => {
                    &&& vinyl.wf()
                    &&& boot is Loaded
                    &&& forall|i: int| 0 <= i < boot->Loaded_0@.len() ==> !offends(boot->Loaded_0@, i)
                    &&& vinyl.context.store@.rooms.rooms == boot->Loaded_0@
                    &&& slots_extended(
                        vinyl.context.store@.rooms.slots,
                        Seq::empty(),
                        0,
                        boot->Loaded_0@.len(),
                    )
                    &&& vinyl.context.store@.rooms.next_id == next_free(boot->Loaded_0@)
                    &&& vinyl.context.store@.queues == empty_queues(boot->Loaded_0@.len())
                    &&& vinyl.context.store@.jobs == Map::<Seq<char>, Job>::empty()
                    &&& vinyl.context.store@.stations == fresh_stations(boot->Loaded_0@)
                    &&& vinyl.context.store@.emitted == Seq::<VinylEvent>::empty()
                    &&& vinyl.context.sse@ == Map::<usize, Seq<VinylEvent>>::empty()
                    &&& vinyl.context.sse.issued() == 0
                    &&& vinyl.event_bus@ == (BusView {
                        channel: Seq::empty(),
                        handlers: registered(),
                        started: false,
                    })
                },
                Err(error) => match boot {
                    Boot::RuntimeFailed(reason) => error == VinylError::Fatal(reason),
                    Boot::ConnectFailed(e) => error == VinylError::Database(e),
                    Boot::LoadFailed(e) => error == VinylError::Database(e),
                    Boot::Loaded(rooms) => {
                        &&& exists|i: int|
                            {
                                &&& 0 <= i < rooms@.len()
                                &&& #[trigger] offends(rooms@, i)
                                &&& error matches VinylError::Fatal(reason) && reason@
                                    == restore_message(offence(rooms@[i]))
                                &&& forall|k: int| 0 <= k < i ==> !offends(rooms@, k)
                            }
                    },
                },
            },
    {
        let rooms = match boot {
            Boot::RuntimeFailed(reason) => {
                return Err(VinylError::Fatal(reason));
            },
            Boot::ConnectFailed(error) => {
                return Err(VinylError::Database(error));
            },
            Boot::LoadFailed(error) => {
                return Err(VinylError::Database(error));
            },
            Boot::Loaded(rooms) => rooms,
        };
        let mut event_bus = Bus::new(Channel::new());
        let mut store = Store::new(Emitter::new());
        let sse = SseManager::new();
        let _queues = event_bus.register(Subscriber::Queues);
        let _pusher = event_bus.register(Subscriber::Pusher);
        proof {
            assert(Seq::<Room>::empty() + rooms@ =~= rooms@);
        }
        match store.init(&rooms) {
            Ok(_) => {
                proof {
                    assert(event_bus@.handlers =~= registered());
                    assert(store@.queues =~= empty_queues(rooms@.len()));
                    assert(store@.stations =~= fresh_stations(rooms@));
                }
                Ok(Vinyl { context: VinylContext { store, sse }, event_bus })
            },
            Err(error) => {
                let reason = error.to_string();
                Err(VinylError::Fatal(reason))
            },
        }
    }

    /// The context that request handlers work on.
    pub fn context(&self) -> (context: &VinylContext)
        ensures
            *context == self.context,
    {
        &self.context
    }

    /// One turn of the dispatch loop. What the stores have published moves
    /// into the channel, behind what it holds. Then the oldest event of the
    /// channel is handed to every handler, in the order of registration.
    /// `None` where there is no event: the caller waits and calls again.
    pub fn tick(&mut self) -> (tick: Option<Tick>)
        requires
            old(self).wf(),
        ensures
            final(self).wf(),
            final(self).event_bus@.handlers == old(self).event_bus@.handlers,
            final(self).event_bus@.started,
            final(self).context.sse.issued() == old(self).context.sse.issued(),
            final(self).context.store@ == (StoreView {
                queues: final(self).context.store@.queues,
                emitted: Seq::empty(),
                ..old(self).context.store@
            }),
            ({
                let waiting = old(self).event_bus@.channel + old(self).context.store@.emitted;
                let before = Audience {
                    queues: old(self).context.store@.queues,
                    clients: old(self).context.sse@,
                };
                let after = Audience {
                    queues: final(self).context.store@.queues,
                    clients: final(self).context.sse@,
                };
                match tick {
                    Some(tick) => {
                        &&& waiting.len() > 0
                        &&& tick.event == waiting[0]
                        &&& final(self).event_bus@.channel == waiting.drop_first()
                        &&& after == delivered(old(self).event_bus@.handlers, before, tick.event)
                        &&& tick.made() == round(old(self).event_bus@.handlers.len(), tick.event)
                        &&& tick.deliveries@.len() == old(self).event_bus@.handlers.len()
                        &&& forall|h: int|
                            0 <= h < tick.deliveries@.len() ==> {
                                &&& (#[trigger] tick.deliveries@[h]).handler == h
                                &&& tick.deliveries@[h].subscriber == old(
                                    self,
                                ).event_bus@.handlers[h]
                                &&& tick.deliveries@[h].outcome is Err <==> fails(
                                    old(self).event_bus@.handlers[h],
                                    tick.event,
                                )
                            }
                    },
                    None => {
                        &&& waiting.len() == 0
                        &&& final(self).event_bus@.channel == waiting
                        &&& after == before
                    },
                }
            }),
    {
        self.event_bus.accept(&mut self.context.store.emitter);
        let tick = self.event_bus.tick(&mut self.context.store.queue_store, &mut self.context.sse);
        proof {
            if tick is Some {
                lemma_in_tune_after_delivery(
                    old(self).context.store@.stations,
                    old(self).event_bus@.handlers,
                    Audience {
                        queues: old(self).context.store@.queues,
                        clients: old(self).context.sse@,
                    },
                    tick->Some_0.event,
                );
            }
        }
        tick
    }
}

} // verus!
