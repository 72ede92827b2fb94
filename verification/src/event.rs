//! Double-buffered broadcast event channels.
//!
//! An [`Events`] value keeps two generation buffers and a monotonic count
//! of all events ever sent. `send` appends to the active buffer; `update`
//! clears the buffer that is about to become two generations old and flips
//! which buffer is active. A reader owns nothing but a cursor — the count
//! at its last read — so reading drains nothing for other readers. An
//! event stays observable for at least one full update cycle after being
//! sent; a reader that sleeps through two updates misses what was cleared.

use vstd::prelude::*;

verus! {

/// The identity of one sent event: its position in the send order.
pub struct EventId {
    id: usize,
}

impl EventId {
    pub fn new(id: usize) -> (event_id: EventId)
        ensures
            event_id.id_spec() == id,
    {
        EventId { id }
    }

    pub closed spec fn id_spec(&self) -> usize {
        self.id
    }

    pub fn id(&self) -> (id: usize)
        ensures
            id == self.id_spec(),
    {
        self.id
    }

    pub fn clone(&self) -> (event_id: EventId)
        ensures
            event_id.id_spec() == self.id_spec(),
    {
        EventId { id: self.id }
    }
}

/// One sent event: the payload and its send-order identity.
pub struct EventInstance<T> {
    pub id: EventId,
    pub event: T,
}

enum State {
    A,
    B,
}

/// The double-buffered channel for payloads of type `T`.
pub struct Events<T> {
    state: State,
    buffer_a: Vec<EventInstance<T>>,
    buffer_b: Vec<EventInstance<T>>,
    event_count: usize,
    a_start_event_count: usize,
    b_start_event_count: usize,
}

impl<T> Events<T> {
    /// How many events were ever sent; also the id the next send gets.
    pub closed spec fn count(&self) -> usize {
        self.event_count
    }

    /// The id of the first event of the current generation.
    pub closed spec fn active_start(&self) -> usize {
        match self.state {
            State::A => self.a_start_event_count,
            State::B => self.b_start_event_count,
        }
    }

    /// The id of the oldest event still retained.
    pub closed spec fn retained_start(&self) -> usize {
        match self.state {
            State::A => self.b_start_event_count,
            State::B => self.a_start_event_count,
        }
    }

    spec fn active_buffer(&self) -> Seq<EventInstance<T>> {
        match self.state {
            State::A => self.buffer_a@,
            State::B => self.buffer_b@,
        }
    }

    spec fn inactive_buffer(&self) -> Seq<EventInstance<T>> {
        match self.state {
            State::A => self.buffer_b@,
            State::B => self.buffer_a@,
        }
    }

    /// Every event still observable, oldest first: the previous
    /// generation's buffer followed by the active one. Event `i` of this
    /// sequence carries id `retained_start() + i`.
    pub closed spec fn retained(&self) -> Seq<EventInstance<T>> {
        self.inactive_buffer() + self.active_buffer()
    }

    /// Channel soundness: the two buffers hold exactly the id ranges their
    /// watermarks claim, back to back below the total count.
    pub closed spec fn wf(&self) -> bool {
        &&& self.retained_start() <= self.active_start() <= self.count()
        &&& self.inactive_buffer().len() == self.active_start() - self.retained_start()
        &&& self.active_buffer().len() == self.count() - self.active_start()
        &&& forall|i: int|
            0 <= i < self.retained().len() ==> (#[trigger] self.retained()[i]).id.id_spec()
                == self.retained_start() + i
    }

    pub fn new() -> (events: Events<T>)
        ensures
            events.wf(),
            events.count() == 0,
            events.retained_start() == 0,
            events.active_start() == 0,
            events.retained() == Seq::<EventInstance<T>>::empty(),
    {
        let events = Events {
            state: State::A,
            buffer_a: Vec::new(),
            buffer_b: Vec::new(),
            event_count: 0,
            a_start_event_count: 0,
            b_start_event_count: 0,
        };
        proof {
            assert(events.retained() =~= Seq::<EventInstance<T>>::empty());
        }
        events
    }

    /// Appends `event` to the current generation under the next id, and
    /// reports that id.
    pub fn send(&mut self, event: T) -> (event_id: usize)
        requires
            old(self).wf(),
            old(self).count() < usize::MAX,
        ensures
            final(self).wf(),
            event_id == old(self).count(),
            final(self).count() == old(self).count() + 1,
            final(self).active_start() == old(self).active_start(),
            final(self).retained_start() == old(self).retained_start(),
            final(self).retained().len() == old(self).retained().len() + 1,
            forall|i: int|
                0 <= i < old(self).retained().len() ==> #[trigger] final(self).retained()[i]
                    == old(self).retained()[i],
            final(self).retained().last().id.id_spec() == old(self).count(),
            final(self).retained().last().event == event,
    {
        let ghost pre = *self;
        let id = EventId::new(self.event_count);
        let instance = EventInstance { id, event };
        match self.state {
            State::A => self.buffer_a.push(instance),
            State::B => self.buffer_b.push(instance),
        };
        self.event_count = self.event_count + 1;
        proof {
            assert(self.retained() =~= pre.retained().push(
                EventInstance { id: EventId { id: pre.event_count }, event },
            ));
        }
        self.event_count - 1
    }

    /// Sends the payload type's default value under the next id.
    pub fn send_default(&mut self) -> (event_id: usize) where T: Default
        requires
            old(self).wf(),
            old(self).count() < usize::MAX,
        ensures
            final(self).wf(),
            event_id == old(self).count(),
            final(self).count() == old(self).count() + 1,
            final(self).active_start() == old(self).active_start(),
            final(self).retained_start() == old(self).retained_start(),
            final(self).retained().len() == old(self).retained().len() + 1,
            forall|i: int|
                0 <= i < old(self).retained().len() ==> #[trigger] final(self).retained()[i]
                    == old(self).retained()[i],
            final(self).retained().last().id.id_spec() == old(self).count(),
    {
        self.send(Default::default())
    }

    /// What one buffer rotation does: events of the generation before the
    /// previous one are forgotten, the previous generation stays readable,
    /// and a fresh generation starts at the current count.
    pub open spec fn update_spec(pre: Events<T>, post: Events<T>) -> bool {
        &&& post.count() == pre.count()
        &&& post.retained_start() == pre.active_start()
        &&& post.active_start() == pre.count()
        &&& post.retained() == pre.retained().skip(
            pre.active_start() - pre.retained_start(),
        )
    }

    /// Rotates the generations: clears the buffer holding events sent two
    /// cycles ago and opens a fresh generation. Call once per cycle.
    pub fn update(&mut self)
        requires
            old(self).wf(),
        ensures
            final(self).wf(),
            Events::update_spec(*old(self), *final(self)),
    {
        let ghost pre = *self;
        match self.state {
            State::A => {
                self.buffer_b.clear();
                self.state = State::B;
                self.b_start_event_count = self.event_count;
            },
            State::B => {
                self.buffer_a.clear();
                self.state = State::A;
                self.a_start_event_count = self.event_count;
            },
        }
        proof {
            assert(self.retained() =~= pre.retained().skip(
                pre.active_start() - pre.retained_start(),
            ));
        }
    }

    /// Forgets every retained event; future reads observe only what is
    /// sent afterwards.
    pub fn clear(&mut self)
        requires
            old(self).wf(),
        ensures
            final(self).wf(),
            final(self).count() == old(self).count(),
            final(self).retained_start() == old(self).count(),
            final(self).active_start() == old(self).count(),
            final(self).retained() == Seq::<EventInstance<T>>::empty(),
    {
        self.reset_buffer_event_counts();
        self.buffer_a.clear();
        self.buffer_b.clear();
        proof {
            assert(self.retained() =~= Seq::<EventInstance<T>>::empty());
        }
    }

    fn reset_buffer_event_counts(&mut self)
        ensures
            *final(self) == (Events {
                a_start_event_count: old(self).event_count,
                b_start_event_count: old(self).event_count,
                ..*old(self)
            }),
    {
        self.a_start_event_count = self.event_count;
        self.b_start_event_count = self.event_count;
    }

    /// How many retained events a reader whose cursor is
    /// `last_event_count` has not yet observed.
    pub fn event_reader_len(&self, last_event_count: usize) -> (unread: usize)
        requires
            self.wf(),
        ensures
            unread == self.unread_count(last_event_count),
    {
        let a_len = if last_event_count <= self.a_start_event_count {
            self.buffer_a.len()
        } else {
            let consumed = last_event_count - self.a_start_event_count;
            if consumed <= self.buffer_a.len() {
                self.buffer_a.len() - consumed
            } else {
                0
            }
        };

        let b_len = if last_event_count <= self.b_start_event_count {
            self.buffer_b.len()
        } else {
            let consumed = last_event_count - self.b_start_event_count;
            if consumed <= self.buffer_b.len() {
                self.buffer_b.len() - consumed
            } else {
                0
            }
        };

        a_len + b_len
    }

    /// The number of retained events with id at or above `cursor`.
    pub open spec fn unread_count(&self, cursor: usize) -> int {
        if cursor <= self.retained_start() {
            self.retained().len() as int
        } else if cursor <= self.count() {
            self.count() - cursor
        } else {
            0
        }
    }
}

/// A consumer-side cursor over an event channel. Each reader observes
/// every retained event exactly once, in send order; reading advances only
/// this reader's cursor and drains nothing for other readers.
pub struct EventReader {
    last_event_count: usize,
}

impl EventReader {
    /// The id up to which this reader has observed events.
    pub closed spec fn cursor(&self) -> usize {
        self.last_event_count
    }

    /// A fresh reader that has observed nothing.
    pub fn new() -> (reader: EventReader)
        ensures
            reader.cursor() == 0,
    {
        EventReader { last_event_count: 0 }
    }

    /// A reader whose cursor stands at `last_event_count`.
    pub fn with_cursor(last_event_count: usize) -> (reader: EventReader)
        ensures
            reader.cursor() == last_event_count,
    {
        EventReader { last_event_count }
    }

    /// The raw cursor value, for storing as per-system local state.
    pub fn cursor_value(&self) -> (cursor: usize)
        ensures
            cursor == self.cursor(),
    {
        self.last_event_count
    }

    /// Hands out every not-yet-observed retained event, oldest first, as
    /// `(payload, identity)` pairs, and advances the cursor to the count.
    /// Events cleared before this reader got here are missed for good.
    pub fn iter<'a, T>(&mut self, events: &'a Events<T>) -> (unread: Vec<(&'a T, EventId)>)
        requires
            events.wf(),
        ensures
            final(self).cursor() == events.count(),
            unread@.len() == events.unread_count(old(self).cursor()),
            forall|k: int|
                0 <= k < unread@.len() ==> {
                    &&& *(#[trigger] unread@[k]).0 == events.retained()[events.retained().len()
                        - unread@.len() + k].event
                    &&& unread@[k].1.id_spec() == events.count() - unread@.len() + k
                },
    {
        let total = events.event_reader_len(self.last_event_count);
        let retained_len = {
            let inactive = if matches!(events.state, State::A) {
                events.buffer_b.len()
            } else {
                events.buffer_a.len()
            };
            let active = if matches!(events.state, State::A) {
                events.buffer_a.len()
            } else {
                events.buffer_b.len()
            };
            inactive + active
        };
        let start = retained_len - total;

        let mut unread: Vec<(&'a T, EventId)> = Vec::new();
        let mut k: usize = 0;
        while k < total
            invariant
                k <= total,
                events.wf(),
                total <= retained_len,
                retained_len == events.retained().len(),
                start == retained_len - total,
                unread@.len() == k,
                forall|l: int|
                    0 <= l < k ==> {
                        &&& *(#[trigger] unread@[l]).0 == events.retained()[start + l].event
                        &&& unread@[l].1.id_spec() == events.retained()[start + l].id.id_spec()
                    },
            decreases total - k,
        {
            let instance = Self::retained_at(events, start + k);
            unread.push((&instance.event, instance.id.clone()));
            k += 1;
        }
        self.last_event_count = events.event_count;
        proof {
            assert forall|l: int| 0 <= l < unread@.len() implies (#[trigger] unread@[l]).1.id_spec()
                == events.count() - unread@.len() + l by {
                assert(events.retained()[start + l].id.id_spec() == events.retained_start() + start + l);
            }
        }
        unread
    }

    /// The retained event at one position, previous generation first.
    fn retained_at<'a, T>(events: &'a Events<T>, position: usize) -> (instance: &'a EventInstance<T>)
        requires
            events.wf(),
            position < events.retained().len(),
        ensures
            *instance == events.retained()[position as int],
    {
        let inactive_len = match events.state {
            State::A => events.buffer_b.len(),
            State::B => events.buffer_a.len(),
        };
        if position < inactive_len {
            match events.state {
                State::A => &events.buffer_b[position],
                State::B => &events.buffer_a[position],
            }
        } else {
            match events.state {
                State::A => &events.buffer_a[position - inactive_len],
                State::B => &events.buffer_b[position - inactive_len],
            }
        }
    }
}

/// A producer-side handle: nothing but a witness that the holder declared
/// write access; sending goes straight to the channel.
pub struct EventWriter {
}

impl EventWriter {
    pub fn new() -> (writer: EventWriter) {
        EventWriter {  }
    }

    /// Sends one event; see [`Events::send`].
    pub fn send<T>(&mut self, events: &mut Events<T>, event: T) -> (event_id: usize)
        requires
            old(events).wf(),
            old(events).count() < usize::MAX,
        ensures
            final(events).wf(),
            event_id == old(events).count(),
            final(events).count() == old(events).count() + 1,
            final(events).retained_start() == old(events).retained_start(),
            final(events).active_start() == old(events).active_start(),
            final(events).retained().len() == old(events).retained().len() + 1,
            forall|i: int|
                0 <= i < old(events).retained().len() ==> #[trigger] final(events).retained()[i]
                    == old(events).retained()[i],
            final(events).retained().last().id.id_spec() == old(events).count(),
            final(events).retained().last().event == event,
    {
        events.send(event)
    }
}

impl EventWriter {
    /// Sends the payload type's default value; see [`Events::send_default`].
    pub fn send_default<T: Default>(&mut self, events: &mut Events<T>) -> (event_id: usize)
        requires
            old(events).wf(),
            old(events).count() < usize::MAX,
        ensures
            final(events).wf(),
            event_id == old(events).count(),
            final(events).count() == old(events).count() + 1,
            final(events).retained_start() == old(events).retained_start(),
            final(events).active_start() == old(events).active_start(),
            final(events).retained().len() == old(events).retained().len() + 1,
            forall|i: int|
                0 <= i < old(events).retained().len() ==> #[trigger] final(events).retained()[i]
                    == old(events).retained()[i],
            final(events).retained().last().id.id_spec() == old(events).count(),
    {
        events.send_default()
    }
}

/// Law: an event is never dropped before every reader had one full update
/// cycle to observe it. An event of the generation that was current when
/// `update` ran is still retained afterwards.
pub proof fn lemma_event_visible_for_one_cycle<T>(pre: Events<T>, post: Events<T>, position: int)
    requires
        pre.wf(),
        Events::<T>::update_spec(pre, post),
        pre.active_start() - pre.retained_start() <= position < pre.retained().len(),
    ensures
        post.retained().contains(pre.retained()[position]),
{
    let dropped = pre.active_start() - pre.retained_start();
    assert(post.retained()[position - dropped] == pre.retained()[position]);
}

/// Law: reading is observation in send order, exactly once. What a reader
/// with cursor `cursor` is handed is exactly the retained events with ids
/// `max(cursor, retained_start())` to `count()`, each id once, ascending.
pub proof fn lemma_reader_in_order_exactly_once<T>(events: Events<T>, cursor: usize, k1: int, k2: int)
    requires
        events.wf(),
        0 <= k1 < k2 < events.unread_count(cursor),
    ensures
        events.retained()[events.retained().len() - events.unread_count(cursor) + k1].id.id_spec()
            < events.retained()[events.retained().len() - events.unread_count(cursor) + k2].id.id_spec(),
        events.retained()[events.retained().len() - events.unread_count(cursor) + k1].id.id_spec()
            >= cursor || cursor <= events.retained_start(),
{
}

} // verus!
