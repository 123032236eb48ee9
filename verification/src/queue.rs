//! Per-queue state: pending messages, consumers, and round-robin fanout.
//!
//! A queue stores messages while nobody consumes, hands each incoming
//! message to one consumer in round-robin order once consumers exist,
//! and drains its backlog to a newly arriving consumer.

use vstd::prelude::*;
use crate::exchange::bytes_eq;
use crate::RuntimeError;
use crate::ErrorScope;

verus! {

/// A subscription: the client-chosen tag and the channel deliveries go
/// out on.
pub struct Consumer {
    pub tag: Vec<u8>,
    pub channel: u16,
}

/// A message waiting in a queue, with its delivery metadata.
pub struct QueuedMessage {
    pub exchange: Vec<u8>,
    pub routing_key: Vec<u8>,
    pub body: Vec<u8>,
}

/// One queue: its name, declared flags, backlog and consumers.
pub struct Queue {
    pub name: Vec<u8>,
    pub durable: bool,
    pub exclusive: bool,
    pub auto_delete: bool,
    pub messages: Vec<QueuedMessage>,
    pub consumers: Vec<Consumer>,
    pub next_consumer: usize,
}

/// The round-robin cursor stays in range.
pub open spec fn wf_queue(q: Queue) -> bool {
    &&& (q.consumers@.len() == 0 ==> q.next_consumer == 0)
    &&& (q.consumers@.len() > 0 ==> q.next_consumer < q.consumers@.len())
}

/// The index of the consumer with this tag, or -1.
pub open spec fn consumer_idx(s: Seq<Consumer>, tag: Seq<u8>) -> int
    decreases s.len(),
{
    if s.len() == 0 {
        -1
    } else if s[0].tag@ == tag {
        0
    } else {
        let r = consumer_idx(s.skip(1), tag);
        if r == -1 {
            -1
        } else {
            1 + r
        }
    }
}

pub proof fn lemma_consumer_idx(s: Seq<Consumer>, tag: Seq<u8>)
    ensures
        consumer_idx(s, tag) >= 0 ==> consumer_idx(s, tag) < s.len() && s[consumer_idx(
            s,
            tag,
        )].tag@ == tag,
    decreases s.len(),
{
    if s.len() > 0 && s[0].tag@ != tag {
        lemma_consumer_idx(s.skip(1), tag);
    }
}

impl Queue {
    /// A fresh, empty queue with the given name and flags.
    pub fn new(name: Vec<u8>, durable: bool, exclusive: bool, auto_delete: bool) -> (q: Queue)
        ensures
            q.name@ == name@,
            q.durable == durable,
            q.exclusive == exclusive,
            q.auto_delete == auto_delete,
            q.messages@.len() == 0,
            q.consumers@.len() == 0,
            q.next_consumer == 0,
            wf_queue(q),
    {
        Queue {
            name,
            durable,
            exclusive,
            auto_delete,
            messages: Vec::new(),
            consumers: Vec::new(),
            next_consumer: 0,
        }
    }

    /// Take one message in. With no consumer it joins the backlog;
    /// otherwise the round-robin consumer receives it and the cursor
    /// advances.
    pub fn enqueue(&mut self, m: QueuedMessage) -> (r: Option<(Vec<u8>, u16)>)
        requires
            wf_queue(*old(self)),
        ensures
            wf_queue(*final(self)),
            final(self).consumers@ == old(self).consumers@,
            final(self).name@ == old(self).name@,
            ({
                if old(self).consumers@.len() == 0 {
                    &&& r is None
                    &&& final(self).messages@ == old(self).messages@.push(m)
                    &&& final(self).next_consumer == old(self).next_consumer
                } else {
                    let t = r->0;
                    &&& r is Some
                    &&& t.0@ == old(self).consumers@[old(self).next_consumer as int].tag@
                    &&& t.1 == old(self).consumers@[old(self).next_consumer as int].channel
                    &&& final(self).messages@ == old(self).messages@
                    &&& final(self).next_consumer as int == (old(self).next_consumer + 1) as int
                        % old(self).consumers@.len() as int
                }
            }),
    {
        if self.consumers.len() == 0 {
            self.messages.push(m);
            None
        } else {
            let c = &self.consumers[self.next_consumer];
            let tag = vstd::slice::slice_to_vec(c.tag.as_slice());
            let channel = c.channel;
            self.next_consumer = (self.next_consumer + 1) % self.consumers.len();
            Some((tag, channel))
        }
    }

    /// Register a consumer and drain the backlog to it.
    pub fn consume(&mut self, tag: Vec<u8>, channel: u16) -> (drained: Vec<QueuedMessage>)
        requires
            wf_queue(*old(self)),
        ensures
            wf_queue(*final(self)),
            final(self).name@ == old(self).name@,
            final(self).messages@.len() == 0,
            drained@ == old(self).messages@,
            final(self).consumers@.len() == old(self).consumers@.len() + 1,
            final(self).consumers@[old(self).consumers@.len() as int].tag@ == tag@,
            final(self).consumers@[old(self).consumers@.len() as int].channel == channel,
            forall|k: int|
                0 <= k < old(self).consumers@.len() ==> final(self).consumers@[k] == old(
                    self,
                ).consumers@[k],
            final(self).next_consumer == old(self).next_consumer,
    {
        self.consumers.push(Consumer { tag, channel });
        let mut drained: Vec<QueuedMessage> = Vec::new();
        core::mem::swap(&mut drained, &mut self.messages);
        drained
    }

    /// Remove the consumer with this tag, if any; the round-robin
    /// cursor restarts.
    pub fn cancel(&mut self, tag: &[u8]) -> (found: bool)
        requires
            wf_queue(*old(self)),
        ensures
            wf_queue(*final(self)),
            final(self).name@ == old(self).name@,
            final(self).messages@ == old(self).messages@,
            ({
                let idx = consumer_idx(old(self).consumers@, tag@);
                if idx < 0 {
                    &&& !found
                    &&& final(self).consumers@ == old(self).consumers@
                    &&& final(self).next_consumer == old(self).next_consumer
                } else {
                    &&& found
                    &&& final(self).consumers@ == old(self).consumers@.remove(idx)
                    &&& final(self).next_consumer == 0
                }
            }),
    {
        let r = self.find_consumer(tag, 0);
        proof {
            assert(self.consumers@.skip(0) =~= self.consumers@);
            lemma_consumer_idx(self.consumers@, tag@);
        }
        match r {
            Some(i) => {
                self.consumers.remove(i);
                self.next_consumer = 0;
                true
            },
            None => false,
        }
    }

    fn find_consumer(&self, tag: &[u8], i: usize) -> (r: Option<usize>)
        requires
            i <= self.consumers@.len(),
        ensures
            match r {
                Some(j) => i <= j < self.consumers@.len() && consumer_idx(
                    self.consumers@.skip(i as int),
                    tag@,
                ) == j - i,
                None => consumer_idx(self.consumers@.skip(i as int), tag@) == -1,
            },
        decreases self.consumers@.len() - i,
    {
        if i == self.consumers.len() {
            assert(self.consumers@.skip(i as int) =~= Seq::<Consumer>::empty());
            return None;
        }
        assert(self.consumers@.skip(i as int)[0] == self.consumers@[i as int]);
        assert(self.consumers@.skip(i as int).skip(1) =~= self.consumers@.skip(i + 1));
        if bytes_eq(self.consumers[i].tag.as_slice(), tag) {
            Some(i)
        } else {
            self.find_consumer(tag, i + 1)
        }
    }
}

/// The broker-wide queue registry.
pub struct Queues {
    pub list: Vec<Queue>,
}

/// The index of the queue with this name, or -1.
pub open spec fn queue_idx(s: Seq<Queue>, name: Seq<u8>) -> int
    decreases s.len(),
{
    if s.len() == 0 {
        -1
    } else if s[0].name@ == name {
        0
    } else {
        let r = queue_idx(s.skip(1), name);
        if r == -1 {
            -1
        } else {
            1 + r
        }
    }
}

pub open spec fn has_queue(s: Seq<Queue>, name: Seq<u8>) -> bool {
    queue_idx(s, name) >= 0
}

pub proof fn lemma_queue_idx(s: Seq<Queue>, name: Seq<u8>)
    ensures
        queue_idx(s, name) >= 0 ==> queue_idx(s, name) < s.len() && s[queue_idx(s, name)].name@
            == name,
    decreases s.len(),
{
    if s.len() > 0 && s[0].name@ != name {
        lemma_queue_idx(s.skip(1), name);
    }
}

/// Every queue in the registry is well formed.
pub open spec fn wf_queues(s: Seq<Queue>) -> bool {
    forall|i: int| 0 <= i < s.len() ==> wf_queue(#[trigger] s[i])
}

impl Queues {
    /// An empty registry.
    pub fn new() -> (r: Queues)
        ensures
            r.list@.len() == 0,
            wf_queues(r.list@),
    {
        Queues { list: Vec::new() }
    }

    fn find_from(&self, name: &[u8], i: usize) -> (r: Option<usize>)
        requires
            i <= self.list@.len(),
        ensures
            match r {
                Some(j) => i <= j < self.list@.len() && queue_idx(
                    self.list@.skip(i as int),
                    name@,
                ) == j - i,
                None => queue_idx(self.list@.skip(i as int), name@) == -1,
            },
        decreases self.list@.len() - i,
    {
        if i == self.list.len() {
            assert(self.list@.skip(i as int) =~= Seq::<Queue>::empty());
            return None;
        }
        assert(self.list@.skip(i as int)[0] == self.list@[i as int]);
        assert(self.list@.skip(i as int).skip(1) =~= self.list@.skip(i + 1));
        if bytes_eq(self.list[i].name.as_slice(), name) {
            Some(i)
        } else {
            self.find_from(name, i + 1)
        }
    }

    /// Find a queue by name.
    pub fn lookup(&self, name: &[u8]) -> (r: Option<usize>)
        ensures
            match r {
                Some(j) => j == queue_idx(self.list@, name@) && j < self.list@.len()
                    && self.list@[j as int].name@ == name@,
                None => !has_queue(self.list@, name@),
            },
    {
        let r = self.find_from(name, 0);
        proof {
            assert(self.list@.skip(0) =~= self.list@);
            lemma_queue_idx(self.list@, name@);
        }
        r
    }

    /// Declare a queue: absent creates it; an equivalent redeclare
    /// succeeds; divergent flags fail with `406`.
    pub fn declare(&mut self, name: Vec<u8>, durable: bool, exclusive: bool, auto_delete: bool)
        -> (r: Result<usize, RuntimeError>)
        requires
            wf_queues(old(self).list@),
        ensures
            wf_queues(final(self).list@),
            ({
                let idx = queue_idx(old(self).list@, name@);
                if idx < 0 {
                    &&& r is Ok
                    &&& r->Ok_0 == old(self).list@.len()
                    &&& final(self).list@.len() == old(self).list@.len() + 1
                    &&& final(self).list@[old(self).list@.len() as int].name@ == name@
                    &&& final(self).list@[old(self).list@.len() as int].messages@.len() == 0
                    &&& (forall|k: int|
                        0 <= k < old(self).list@.len() ==> final(self).list@[k] == old(
                            self,
                        ).list@[k])
                } else {
                    if old(self).list@[idx].durable == durable && old(self).list@[idx].exclusive
                        == exclusive && old(self).list@[idx].auto_delete == auto_delete {
                        &&& r is Ok
                        &&& r->Ok_0 == idx
                        &&& final(self).list@ == old(self).list@
                    } else {
                        &&& r is Err
                        &&& r->Err_0.code == 406
                        &&& r->Err_0.scope == ErrorScope::Channel
                        &&& r->Err_0.class_method == crate::frame::QUEUE_DECLARE
                        &&& final(self).list@ == old(self).list@
                    }
                }
            }),
    {
        match self.lookup(name.as_slice()) {
            None => {
                let n = self.list.len();
                self.list.push(Queue::new(name, durable, exclusive, auto_delete));
                Ok(n)
            },
            Some(i) => {
                let cur = &self.list[i];
                if cur.durable == durable && cur.exclusive == exclusive && cur.auto_delete
                    == auto_delete {
                    Ok(i)
                } else {
                    Err(RuntimeError {
                        scope: ErrorScope::Channel,
                        code: 406,
                        text: String::from_str("Queue exists but properties are different"),
                        class_method: crate::frame::QUEUE_DECLARE,
                    })
                }
            },
        }
    }
}

} // verus!
