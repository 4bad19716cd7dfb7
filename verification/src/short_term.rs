//! The short-term store: a bounded, per-channel buffer of recent turns.
//!
//! Turns are appended per channel; once a channel's buffer exceeds the
//! capacity fixed at construction, the oldest turns are evicted and
//! returned to the caller as overflow, oldest first.

use std::collections::HashMap;
use std::collections::VecDeque;

use vstd::prelude::*;

use crate::models::ShortTermMessage;

verus! {

/// What one push does to a channel's buffer: append the new turn, then
/// evict from the front while the buffer is over capacity.  Returns the
/// new buffer and the evicted turns, oldest first.
pub open spec fn push_spec(
    buf: Seq<ShortTermMessage>,
    cap: nat,
    msg: ShortTermMessage,
) -> (Seq<ShortTermMessage>, Seq<ShortTermMessage>) {
    let grown = buf.push(msg);
    let evicted: int = if grown.len() > cap {
        grown.len() - cap
    } else {
        0
    };
    (grown.skip(evicted), grown.take(evicted))
}

/// The buffer and the cumulative overflow, oldest first, after pushing
/// `msgs` one by one onto `buf` under capacity `cap`.
pub open spec fn push_all(
    buf: Seq<ShortTermMessage>,
    cap: nat,
    msgs: Seq<ShortTermMessage>,
) -> (Seq<ShortTermMessage>, Seq<ShortTermMessage>)
    decreases msgs.len(),
{
    if msgs.len() == 0 {
        (buf, Seq::empty())
    } else {
        let stepped = push_spec(buf, cap, msgs[0]);
        let rest = push_all(stepped.0, cap, msgs.skip(1));
        (rest.0, stepped.1 + rest.1)
    }
}

/// Pushing any sequence of turns onto a buffer within capacity leaves
/// the last `cap` of the combined turns in the buffer and evicts the
/// earlier ones, in their original order.
pub proof fn lemma_push_all_bounded(buf: Seq<ShortTermMessage>, cap: nat, msgs: Seq<ShortTermMessage>)
    requires
        buf.len() <= cap,
    ensures
        ({
            let total = buf + msgs;
            let evicted: int = if total.len() > cap {
                total.len() - cap
            } else {
                0
            };
            push_all(buf, cap, msgs).0 == total.skip(evicted) && push_all(buf, cap, msgs).1
                == total.take(evicted)
        }),
    decreases msgs.len(),
{
    let total = buf + msgs;
    let evicted: int = if total.len() > cap {
        total.len() - cap
    } else {
        0
    };
    if msgs.len() == 0 {
        assert(total =~= buf);
        assert(push_all(buf, cap, msgs).0 =~= total.skip(evicted));
        assert(push_all(buf, cap, msgs).1 =~= total.take(evicted));
    } else {
        let stepped = push_spec(buf, cap, msgs[0]);
        let grown = buf.push(msgs[0]);
        let k: int = if grown.len() > cap {
            grown.len() - cap
        } else {
            0
        };
        assert(stepped.0 == grown.skip(k) && stepped.1 == grown.take(k));
        assert(stepped.0.len() <= cap);
        lemma_push_all_bounded(stepped.0, cap, msgs.skip(1));
        let rest_total = stepped.0 + msgs.skip(1);
        let rest_evicted: int = if rest_total.len() > cap {
            rest_total.len() - cap
        } else {
            0
        };
        assert(rest_total =~= total.skip(k));
        assert(evicted == k + rest_evicted);
        assert(push_all(buf, cap, msgs).0 =~= total.skip(evicted));
        assert(push_all(buf, cap, msgs).1 =~= total.take(evicted));
    }
}

/// For every capacity and every sequence of turns pushed into one
/// channel starting from an empty buffer: when more turns were pushed
/// than fit, the buffer afterwards holds exactly the last `cap` turns
/// and the cumulative overflow holds exactly the earlier ones, in
/// their original insertion order; otherwise nothing was evicted.
pub proof fn lemma_push_sequence(cap: nat, msgs: Seq<ShortTermMessage>)
    ensures
        msgs.len() > cap ==> push_all(Seq::empty(), cap, msgs).0 == msgs.skip(
            msgs.len() - cap,
        ) && push_all(Seq::empty(), cap, msgs).0.len() == cap && push_all(
            Seq::empty(),
            cap,
            msgs,
        ).1 == msgs.take(msgs.len() - cap) && push_all(Seq::empty(), cap, msgs).1.len()
            == msgs.len() - cap,
        msgs.len() <= cap ==> push_all(Seq::empty(), cap, msgs).0 == msgs && push_all(
            Seq::empty(),
            cap,
            msgs,
        ).1 == Seq::<ShortTermMessage>::empty(),
{
    lemma_push_all_bounded(Seq::empty(), cap, msgs);
    assert(Seq::<ShortTermMessage>::empty() + msgs =~= msgs);
    if msgs.len() <= cap {
        assert(push_all(Seq::empty(), cap, msgs).0 =~= msgs);
    }
}

/// A bounded per-channel buffer of recent turns.
pub trait ShortTermStore {
    /// The turns currently buffered for a channel, oldest first.
    spec fn buffer(&self, channel_id: u64) -> Seq<ShortTermMessage>;

    /// The bound on every channel's buffer length.
    spec fn capacity(&self) -> nat;

    /// Well-formedness: no channel's buffer exceeds the capacity.
    open spec fn wf(&self) -> bool {
        forall|c: u64| (#[trigger] self.buffer(c)).len() <= self.capacity()
    }

    /// Appends a turn to the channel's buffer and returns the evicted
    /// turns, oldest first; buffers of other channels are untouched.
    fn push(&mut self, channel_id: u64, message: ShortTermMessage) -> (overflow: Vec<
        ShortTermMessage,
    >)
        requires
            old(self).wf(),
        ensures
            final(self).wf(),
            final(self).capacity() == old(self).capacity(),
            final(self).buffer(channel_id) == push_spec(
                old(self).buffer(channel_id),
                old(self).capacity(),
                message,
            ).0,
            overflow@ == push_spec(
                old(self).buffer(channel_id),
                old(self).capacity(),
                message,
            ).1,
            forall|c: u64| c != channel_id ==> final(self).buffer(c) == old(self).buffer(c),
    ;

    /// The channel's full buffer in insertion order, oldest first;
    /// empty for an unknown channel.  Does not mutate state.
    fn get_context(&self, channel_id: u64) -> (context: Vec<ShortTermMessage>)
        ensures
            context@ == self.buffer(channel_id),
    ;
}

/// The in-memory short-term store, partitioned strictly by channel.
pub struct InMemoryStore {
    conversations: HashMap<u64, VecDeque<ShortTermMessage>>,
    max_short_term_messages: usize,
}

impl InMemoryStore {
    /// An empty store whose buffers are bounded by
    /// `max_short_term_messages`.
    pub fn new(max_short_term_messages: usize) -> (store: InMemoryStore)
        ensures
            store.wf(),
            store.capacity() == max_short_term_messages,
            forall|c: u64| store.buffer(c) == Seq::<ShortTermMessage>::empty(),
    {
        InMemoryStore { conversations: HashMap::new(), max_short_term_messages }
    }
}

impl ShortTermStore for InMemoryStore {
    closed spec fn buffer(&self, channel_id: u64) -> Seq<ShortTermMessage> {
        if self.conversations@.contains_key(channel_id) {
            self.conversations@[channel_id]@
        } else {
            Seq::empty()
        }
    }

    closed spec fn capacity(&self) -> nat {
        self.max_short_term_messages as nat
    }

    fn push(&mut self, channel_id: u64, message: ShortTermMessage) -> (overflow: Vec<
        ShortTermMessage,
    >) {
        let mut queue = match self.conversations.remove(&channel_id) {
            Some(q) => q,
            None => VecDeque::new(),
        };
        queue.push_back(message);
        let ghost grown = queue@;
        let mut overflow: Vec<ShortTermMessage> = Vec::new();
        while queue.len() > self.max_short_term_messages
            invariant
                grown == overflow@ + queue@,
                overflow@.len() > 0 ==> queue@.len() >= self.max_short_term_messages,
            decreases queue.len(),
        {
            if let Some(evicted) = queue.pop_front() {
                overflow.push(evicted);
            }
        }
        self.conversations.insert(channel_id, queue);
        proof {
            let cap = self.max_short_term_messages as nat;
            let target = push_spec(old(self).buffer(channel_id), cap, message);
            let k = overflow@.len() as int;
            assert(queue@ =~= grown.skip(k));
            assert(overflow@ =~= grown.take(k));
            assert(queue@ =~= target.0);
            assert(overflow@ =~= target.1);
            assert forall|c: u64| (#[trigger] self.buffer(c)).len() <= self.capacity() by {
                if c != channel_id {
                    assert(self.buffer(c) == old(self).buffer(c));
                }
            }
        }
        overflow
    }

    fn get_context(&self, channel_id: u64) -> (context: Vec<ShortTermMessage>) {
        let mut context: Vec<ShortTermMessage> = Vec::new();
        match self.conversations.get(&channel_id) {
            Some(queue) => {
                let mut i: usize = 0;
                while i < queue.len()
                    invariant
                        i <= queue@.len(),
                        context@ =~= queue@.take(i as int),
                    decreases queue@.len() - i,
                {
                    context.push(queue[i].duplicate());
                    i += 1;
                }
                proof {
                    assert(context@ =~= queue@);
                }
            },
            None => {},
        }
        context
    }
}

} // verus!
