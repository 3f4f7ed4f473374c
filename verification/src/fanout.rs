//! The live output of one room: one buffer that the playback engine writes,
//! and any number of listeners that read it, each from its own position.
//! A listener hears what is written while it is attached, and nothing of
//! what was written before.

use vstd::prelude::*;

verus! {

/// The broadcast buffer of a room with the positions of its listeners.
pub struct Broadcast {
    /// The bytes that some listener may still have to read.
    buffer: Vec<u8>,
    /// For each listener ever attached, by id: how far into the buffer it
    /// has read, or `None` once it is detached.
    cursors: Vec<Option<usize>>,
}

/// What the listeners have before them after `bytes` were written: each has
/// the same bytes more, behind what it had not read yet.
pub open spec fn fed(listeners: Map<usize, Seq<u8>>, bytes: Seq<u8>) -> Map<usize, Seq<u8>> {
    Map::new(|l: usize| listeners.contains_key(l), |l: usize| listeners[l] + bytes)
}

/// What can happen at a broadcast, one thing at a time.
pub enum Turn {
    /// The engine writes these bytes.
    Written(Seq<u8>),
    /// This listener reads.
    Read(usize),
    /// A listener is attached under this id.
    Attached(usize),
    /// This listener is detached.
    Detached(usize),
}

/// What the listeners have before them after one turn.
pub open spec fn after(listeners: Map<usize, Seq<u8>>, turn: Turn) -> Map<usize, Seq<u8>> {
    match turn {
        Turn::Written(bytes) => fed(listeners, bytes),
        Turn::Read(listener) => if listeners.contains_key(listener) {
            listeners.insert(listener, Seq::empty())
        } else {
            listeners
        },
        Turn::Attached(listener) => listeners.insert(listener, Seq::empty()),
        Turn::Detached(listener) => listeners.remove(listener),
    }
}

/// What the listeners have before them after each of `turns`, in order.
pub open spec fn after_all(listeners: Map<usize, Seq<u8>>, turns: Seq<Turn>) -> Map<
    usize,
    Seq<u8>,
>
    decreases turns.len(),
{
    if turns.len() == 0 {
        listeners
    } else {
        after(after_all(listeners, turns.drop_last()), turns.last())
    }
}

/// What one turn hands to `listener`: the bytes before it, where the turn is
/// a read of this listener and it is attached; nothing in every other case.
pub open spec fn handed(listeners: Map<usize, Seq<u8>>, turn: Turn, listener: usize) -> Option<
    Seq<u8>,
> {
    match turn {
        Turn::Read(reader) => if reader == listener && listeners.contains_key(listener) {
            Some(listeners[listener])
        } else {
            None
        },
        _ => None,
    }
}

/// All that `listener` is handed in the course of `turns`: the bytes of each
/// of its reads, in order.
pub open spec fn heard(listeners: Map<usize, Seq<u8>>, turns: Seq<Turn>, listener: usize) -> Seq<
    Seq<u8>,
>
    decreases turns.len(),
{
    if turns.len() == 0 {
        Seq::empty()
    } else {
        let earlier = heard(listeners, turns.drop_last(), listener);
        match handed(after_all(listeners, turns.drop_last()), turns.last(), listener) {
            Some(bytes) => earlier.push(bytes),
            None => earlier,
        }
    }
}

/// No turn attaches a listener under the id `listener`.
pub open spec fn never_attached(turns: Seq<Turn>, listener: usize) -> bool {
    forall|t: int| 0 <= t < turns.len() ==> #[trigger] turns[t] != Turn::Attached(listener)
}

/// Listener isolation: compare what happens from some moment on, whatever
/// it is (writes, reads, listeners that come and go), with what the same
/// turns do where one listener was detached at that moment. Nothing differs
/// but that this listener is gone: every other listener has the same bytes
/// before it at every time, and is handed the same bytes by each of its
/// reads. An id is given out once, so no turn attaches the listener anew.
pub proof fn lemma_listener_isolation(
    listeners: Map<usize, Seq<u8>>,
    gone: usize,
    other: usize,
    turns: Seq<Turn>,
)
    requires
        other != gone,
        never_attached(turns, gone),
    ensures
        after_all(listeners.remove(gone), turns) == after_all(listeners, turns).remove(gone),
        after_all(listeners.remove(gone), turns).contains_key(other) == after_all(
            listeners,
            turns,
        ).contains_key(other),
        after_all(listeners, turns).contains_key(other) ==> after_all(
            listeners.remove(gone),
            turns,
        )[other] == after_all(listeners, turns)[other],
        heard(listeners.remove(gone), turns, other) == heard(listeners, turns, other),
    decreases turns.len(),
{
    if turns.len() > 0 {
        let earlier = turns.drop_last();
        assert forall|t: int| 0 <= t < earlier.len() implies #[trigger] earlier[t]
            != Turn::Attached(gone) by {
            assert(earlier[t] == turns[t]);
        }
        lemma_listener_isolation(listeners, gone, other, earlier);
        let without = after_all(listeners.remove(gone), earlier);
        let with = after_all(listeners, earlier);
        assert(turns.last() == turns[turns.len() - 1]);
        assert(after(without, turns.last()) =~= after(with, turns.last()).remove(gone));
    }
}

impl View for Broadcast {
    type V = Map<usize, Seq<u8>>;

    /// For each attached listener, the bytes written and not yet read by it.
    closed spec fn view(&self) -> Map<usize, Seq<u8>> {
        Map::new(
            |l: usize| l < self.cursors@.len() && self.cursors@[l as int] is Some,
            |l: usize| self.buffer@.skip(self.cursors@[l as int].unwrap() as int),
        )
    }
}

impl Broadcast {
    /// No listener has read beyond what was written.
    spec fn bounded(&self) -> bool {
        forall|l: int|
            0 <= l < self.cursors@.len() ==> match #[trigger] self.cursors@[l] {
                Some(cursor) => cursor <= self.buffer@.len(),
                None => true,
            }
    }

    /// No listener has read beyond what was written, and the buffer holds
    /// nothing that every attached listener has read.
    pub closed spec fn wf(&self) -> bool {
        &&& self.bounded()
        &&& self.buffer@.len() == 0 || exists|l: usize|
            l < self.cursors@.len() && #[trigger] self.cursors@[l as int] == Some(0usize)
    }

    /// How many listeners were ever attached. The next one gets this as its
    /// id.
    pub closed spec fn issued(&self) -> nat {
        self.cursors@.len()
    }

    /// How many bytes the buffer holds.
    pub closed spec fn held(&self) -> nat {
        self.buffer@.len()
    }

    /// The id of an attached listener is one that was issued.
    pub proof fn lemma_attached_was_issued(&self, listener: usize)
        requires
            self@.contains_key(listener),
        ensures
            listener < self.issued(),
    {
    }

    /// The buffer holds what the listener that is furthest behind has before
    /// it, and no more: nothing where no listener is attached.
    pub proof fn lemma_held(&self)
        requires
            self.wf(),
        ensures
            forall|l: usize| self@.contains_key(l) ==> (#[trigger] self@[l]).len() <= self.held(),
            self.held() == 0 || exists|l: usize|
                self@.contains_key(l) && (#[trigger] self@[l]).len() == self.held(),
    {
        if self.held() != 0 {
            let l = choose|l: usize|
                l < self.cursors@.len() && #[trigger] self.cursors@[l as int] == Some(0usize);
            assert(self@.contains_key(l));
            assert(self@[l].len() == self.held());
        }
    }

    /// A broadcast without listeners.
    pub fn new() -> (broadcast: Broadcast)
        ensures
            broadcast.wf(),
            broadcast.issued() == 0,
            broadcast@ == Map::<usize, Seq<u8>>::empty(),
    {
        let broadcast = Broadcast { buffer: Vec::new(), cursors: Vec::new() };
        proof {
            assert(broadcast@ =~= Map::<usize, Seq<u8>>::empty());
        }
        broadcast
    }

    /// Attaches a listener at the live position: it has nothing before it,
    /// whatever was written earlier. Returns the listener's id.
    pub fn attach(&mut self) -> (listener: usize)
        requires
            old(self).wf(),
        ensures
            final(self).wf(),
            listener == old(self).issued(),
            !old(self)@.contains_key(listener),
            final(self).issued() == old(self).issued() + 1,
            final(self)@ == old(self)@.insert(listener, Seq::<u8>::empty()),
    {
        let listener = self.cursors.len();
        let position = self.buffer.len();
        self.cursors.push(Some(position));
        proof {
            assert(self.buffer@.skip(position as int) =~= Seq::<u8>::empty());
            assert(self@ =~= old(self)@.insert(listener, Seq::<u8>::empty()));
        }
        self.compact();
        listener
    }

    /// Detaches `listener`. Returns whether it was attached. No other
    /// listener is touched.
    pub fn detach(&mut self, listener: usize) -> (attached: bool)
        requires
            old(self).wf(),
        ensures
            final(self).wf(),
            attached == old(self)@.contains_key(listener),
            final(self).issued() == old(self).issued(),
            final(self)@ == old(self)@.remove(listener),
    {
        if listener >= self.cursors.len() {
            proof {
                assert(self@ =~= old(self)@.remove(listener));
            }
            return false;
        }
        let attached = self.cursors[listener].is_some();
        self.cursors[listener] = None;
        proof {
            assert(self@ =~= old(self)@.remove(listener));
        }
        self.compact();
        attached
    }

    /// Whether `listener` is attached.
    pub fn is_attached(&self, listener: usize) -> (attached: bool)
        ensures
            attached == self@.contains_key(listener),
    {
        listener < self.cursors.len() && self.cursors[listener].is_some()
    }

    /// Writes `bytes` at the live position: every attached listener has them
    /// before it, behind what it had not read yet.
    pub fn write(&mut self, bytes: &Vec<u8>)
        requires
            old(self).wf(),
        ensures
            final(self).wf(),
            final(self).issued() == old(self).issued(),
            final(self)@ == fed(old(self)@, bytes@),
    {
        let mut i: usize = 0;
        while i < bytes.len()
            invariant
                i <= bytes.len(),
                self.cursors == old(self).cursors,
                self.buffer@ == old(self).buffer@ + bytes@.take(i as int),
            decreases bytes.len() - i,
        {
            self.buffer.push(bytes[i]);
            proof {
                assert(bytes@.take(i + 1) =~= bytes@.take(i as int).push(bytes@[i as int]));
                assert(self.buffer@ =~= old(self).buffer@ + bytes@.take(i + 1));
            }
            i += 1;
        }
        proof {
            assert(bytes@.take(bytes@.len() as int) =~= bytes@);
            assert forall|l: usize| #[trigger] self@.contains_key(l) implies self@[l] == old(self)@[l]
                + bytes@ by {
                let cursor = self.cursors@[l as int].unwrap() as int;
                assert(self.buffer@.skip(cursor) =~= old(self).buffer@.skip(cursor) + bytes@);
            }
            assert(self@ =~= fed(old(self)@, bytes@));
        }
        self.compact();
    }

    /// Hands `listener` the bytes written since it last read, or since it
    /// was attached, and moves it to the live position. `None` where no such
    /// listener is attached; nothing changes then.
    pub fn read(&mut self, listener: usize) -> (bytes: Option<Vec<u8>>)
        requires
            old(self).wf(),
        ensures
            final(self).wf(),
            final(self).issued() == old(self).issued(),
            match bytes {
                Some(bytes) => {
                    &&& old(self)@.contains_key(listener)
                    &&& bytes@ == old(self)@[listener]
                    &&& final(self)@ == old(self)@.insert(listener, Seq::<u8>::empty())
                },
                None => !old(self)@.contains_key(listener) && final(self)@ == old(self)@,
            },
    {
        if listener >= self.cursors.len() {
            return None;
        }
        let cursor = match self.cursors[listener] {
            Some(cursor) => cursor,
            None => {
                return None;
            },
        };
        let end = self.buffer.len();
        let mut bytes: Vec<u8> = Vec::new();
        let mut i: usize = cursor;
        while i < end
            invariant
                cursor <= i <= end,
                end == self.buffer@.len(),
                bytes@ == self.buffer@.subrange(cursor as int, i as int),
            decreases end - i,
        {
            bytes.push(self.buffer[i]);
            proof {
                assert(bytes@ =~= self.buffer@.subrange(cursor as int, i + 1));
            }
            i += 1;
        }
        self.cursors[listener] = Some(end);
        proof {
            assert(bytes@ =~= old(self)@[listener]);
            assert(self.buffer@.skip(end as int) =~= Seq::<u8>::empty());
            assert(self@ =~= old(self)@.insert(listener, Seq::<u8>::empty()));
        }
        self.compact();
        Some(bytes)
    }

    /// How many bytes the buffer holds at the moment.
    pub fn buffered(&self) -> (n: usize)
        ensures
            n == self.held(),
    {
        self.buffer.len()
    }

    /// Drops from the buffer what every attached listener has read. What
    /// each listener has before it stays as it is.
    fn compact(&mut self)
        requires
            old(self).bounded(),
        ensures
            final(self).wf(),
            final(self).issued() == old(self).issued(),
            final(self)@ == old(self)@,
    {
        let end = self.buffer.len();
        let mut low: usize = end;
        let mut l: usize = 0;
        while l < self.cursors.len()
            invariant
                self.bounded(),
                *self == *old(self),
                l <= self.cursors@.len(),
                low <= end,
                end == self.buffer@.len(),
                forall|k: int|
                    0 <= k < l ==> match #[trigger] self.cursors@[k] {
                        Some(cursor) => low <= cursor,
                        None => true,
                    },
                low == end || exists|k: usize|
                    k < l && #[trigger] self.cursors@[k as int] == Some(low),
            decreases self.cursors@.len() - l,
        {
            match self.cursors[l] {
                Some(cursor) => {
                    if cursor < low {
                        low = cursor;
                    }
                },
                None => {},
            }
            l += 1;
        }
        let mut kept: Vec<u8> = Vec::new();
        let mut i: usize = low;
        while i < end
            invariant
                *self == *old(self),
                low <= i <= end,
                end == self.buffer@.len(),
                kept@ == self.buffer@.subrange(low as int, i as int),
            decreases end - i,
        {
            kept.push(self.buffer[i]);
            proof {
                assert(kept@ =~= self.buffer@.subrange(low as int, i + 1));
            }
            i += 1;
        }
        proof {
            assert(kept@ =~= old(self).buffer@.skip(low as int));
        }
        self.buffer = kept;
        let mut l: usize = 0;
        while l < self.cursors.len()
            invariant
                l <= self.cursors@.len(),
                self.cursors@.len() == old(self).cursors@.len(),
                self.buffer@ == old(self).buffer@.skip(low as int),
                end == old(self).buffer@.len(),
                forall|k: int|
                    0 <= k < self.cursors@.len() ==> match #[trigger] old(self).cursors@[k] {
                        Some(cursor) => low <= cursor <= end,
                        None => true,
                    },
                forall|k: int|
                    0 <= k < l ==> #[trigger] self.cursors@[k] == match old(self).cursors@[k] {
                        Some(cursor) => Some((cursor - low) as usize),
                        None => None,
                    },
                forall|k: int| l <= k < self.cursors@.len() ==> #[trigger] self.cursors@[k] == old(self).cursors@[k],
            decreases self.cursors@.len() - l,
        {
            match self.cursors[l] {
                Some(cursor) => {
                    self.cursors[l] = Some(cursor - low);
                },
                None => {},
            }
            l += 1;
        }
        proof {
            assert forall|k: usize| #[trigger] self@.contains_key(k) implies self@[k] == old(self)@[k] by {
                let cursor = old(self).cursors@[k as int].unwrap() as int;
                assert(self.cursors@[k as int] == Some((cursor - low) as usize));
                assert(old(self).buffer@.skip(low as int).skip(cursor - low) =~= old(self).buffer@.skip(cursor));
            }
            assert(self@ =~= old(self)@);
            if low != end {
                let k = choose|k: usize|
                    k < old(self).cursors@.len() && #[trigger] old(self).cursors@[k as int] == Some(
                        low,
                    );
                assert(self.cursors@[k as int] == Some(0usize));
            }
        }
    }
}

} // verus!
