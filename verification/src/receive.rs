//! The ordered receiver: the single consumer that takes completion messages
//! from the worker pool, re-orders them by job id, and decides, strictly in
//! input order, which job's captured output is replayed next.

use vstd::prelude::*;
use crate::reorder;

verus! {

/// A report from a worker about one job, sent over the coordination channel.
#[derive(Debug, PartialEq)]
pub enum State {
    /// The child for this id ran to completion (any exit status); its capture
    /// files are closed and ready to be replayed. Carries the input string.
    Completed(usize, String),
    /// The child could not be launched, or an irrecoverable I/O error struck
    /// its capture files. Carries the diagnostic; no capture files exist.
    Error(usize, String),
}

impl State {
    /// The job id this message reports on.
    pub open spec fn id(self) -> usize {
        match self {
            State::Completed(id, _) => id,
            State::Error(id, _) => id,
        }
    }

    pub open spec fn is_completed(self) -> bool {
        self matches State::Completed(_, _)
    }

    pub fn get_id(&self) -> (r: usize)
        ensures
            r == self.id(),
    {
        match self {
            State::Completed(id, _) => *id,
            State::Error(id, _) => *id,
        }
    }
}

/// What the receiver decided to do with one message or buffered entry.
#[derive(Debug, PartialEq)]
pub enum Delivery {
    /// The job at the cursor completed: append its input to the processed
    /// log, splice its capture files to the real output streams, and delete
    /// them.
    Deliver(usize, String),
    /// The job at the cursor could not run: append its diagnostic to the
    /// error log.
    Fail(usize, String),
    /// The message was for a later id and was set aside. The payload is true
    /// when the buffered message was a completion, which tells the caller to
    /// start tailing the current job's capture files while waiting.
    Buffered(bool),
}

/// The action the receiver owes for a message whose id is at the cursor.
pub open spec fn delivery_of(s: State) -> Delivery {
    match s {
        State::Completed(id, name) => Delivery::Deliver(id, name),
        State::Error(id, message) => Delivery::Fail(id, message),
    }
}

/// The ordered receiver's state: the cursor to the next id owed to the
/// aggregate outputs, and the reorder buffer of messages that arrived early.
pub struct Receiver {
    /// The next job id to be delivered; grows from 0 to `ninputs`.
    pub counter: usize,
    /// The total number of jobs; one message per id is expected.
    pub ninputs: usize,
    /// Out-of-order messages, none of them with an id below `counter`.
    pub buffer: reorder::ReorderBuffer,
    /// The messages delivered so far, in delivery order.
    pub delivered: Ghost<Seq<State>>,
    /// Every message taken from the channel so far, keyed by job id.
    pub received: Ghost<Map<int, State>>,
}

impl Receiver {
    /// Well-formedness: delivery happened exactly for the ids below the
    /// cursor, in id order, and the buffer holds exactly the received
    /// messages that are still owed.
    pub open spec fn wf(self) -> bool {
        &&& self.counter <= self.ninputs
        &&& self.delivered@.len() == self.counter
        &&& forall|i: int|
            0 <= i < self.delivered@.len() ==> {
                &&& (#[trigger] self.delivered@[i]).id() == i
                &&& self.received@.contains_key(i)
                &&& self.delivered@[i] == self.received@[i]
            }
        &&& forall|j: int|
            0 <= j < reorder::buffered(self.buffer).len() ==> {
                let s = #[trigger] reorder::buffered(self.buffer)[j];
                &&& self.counter <= s.id() < self.ninputs
                &&& self.received@.contains_key(s.id() as int)
                &&& self.received@[s.id() as int] == s
            }
        &&& forall|j: int, k: int|
            0 <= j < k < reorder::buffered(self.buffer).len() ==> (
            #[trigger] reorder::buffered(self.buffer)[j]).id()
                != (#[trigger] reorder::buffered(self.buffer)[k]).id()
        &&& forall|k: int|
            self.received@.contains_key(k) && self.counter <= k
                ==> exists|j: int|
                0 <= j < reorder::buffered(self.buffer).len()
                    && (#[trigger] reorder::buffered(self.buffer)[j]).id() == k
        &&& forall|k: int|
            #[trigger] self.received@.contains_key(k) ==> 0 <= k < self.ninputs
    }

    /// A fresh receiver for `ninputs` jobs: nothing delivered, nothing
    /// buffered.
    pub fn new(ninputs: usize) -> (r: Receiver)
        ensures
            r.wf(),
            r.counter == 0,
            r.ninputs == ninputs,
            r.delivered@ == Seq::<State>::empty(),
            r.received@ == Map::<int, State>::empty(),
            reorder::buffered(r.buffer) == Seq::<State>::empty(),
    {
        Receiver {
            counter: 0,
            ninputs,
            buffer: reorder::ReorderBuffer::new(),
            delivered: Ghost(Seq::empty()),
            received: Ghost(Map::empty()),
        }
    }

    /// The receiver exits exactly when every id has been delivered.
    pub fn is_done(&self) -> (r: bool)
        ensures
            r == (self.counter == self.ninputs),
    {
        self.counter == self.ninputs
    }

    /// Take one message from the channel. If its id is at the cursor it is
    /// delivered at once and the cursor advances; otherwise it is buffered,
    /// and the caller is told whether to tail the current job meanwhile.
    pub fn handle(&mut self, msg: State) -> (r: Delivery)
        requires
            old(self).wf(),
            msg.id() < old(self).ninputs,
            !old(self).received@.contains_key(msg.id() as int),
        ensures
            final(self).wf(),
            final(self).ninputs == old(self).ninputs,
            final(self).received@ == old(self).received@.insert(msg.id() as int, msg),
            msg.id() == old(self).counter ==> {
                &&& final(self).counter == old(self).counter + 1
                &&& final(self).delivered@ == old(self).delivered@.push(msg)
                &&& reorder::buffered(final(self).buffer) == reorder::buffered(old(self).buffer)
                &&& r == delivery_of(msg)
            },
            msg.id() != old(self).counter ==> {
                &&& final(self).counter == old(self).counter
                &&& final(self).delivered@ == old(self).delivered@
                &&& reorder::buffered(final(self).buffer) == reorder::buffered(
                    old(self).buffer,
                ).push(msg)
                &&& r == Delivery::Buffered(msg.is_completed())
            },
    {
        proof {
            // ids below the cursor were all received already, so this one is
            // at or past the cursor.
            if msg.id() < old(self).counter {
                assert(old(self).delivered@[msg.id() as int].id() == msg.id() as int);
            }
        }
        proof {
            // no buffered entry carries this id: every buffered id was
            // received, and this id was not.
            assert forall|j: int| 0 <= j < reorder::buffered(old(self).buffer).len() implies (
            #[trigger] reorder::buffered(old(self).buffer)[j]).id() != msg.id() by {
                assert(old(self).received@.contains_key(
                    reorder::buffered(old(self).buffer)[j].id() as int,
                ));
            }
        }
        let id = msg.get_id();
        self.received = Ghost(self.received@.insert(id as int, msg));
        if id == self.counter {
            self.delivered = Ghost(self.delivered@.push(msg));
            self.counter = self.counter + 1;
            proof {
                let post = *self;
                assert forall|i: int| 0 <= i < post.delivered@.len() implies {
                    &&& (#[trigger] post.delivered@[i]).id() == i
                    &&& post.received@.contains_key(i)
                    &&& post.delivered@[i] == post.received@[i]
                } by {
                    if i < old(self).counter {
                        assert(post.delivered@[i] == old(self).delivered@[i]);
                    }
                }
                let bold = reorder::buffered(old(self).buffer);
                assert forall|k: int|
                    post.received@.contains_key(k) && post.counter <= k implies exists|j: int|
                    0 <= j < reorder::buffered(post.buffer).len() && (
                    #[trigger] reorder::buffered(post.buffer)[j]).id() == k by {
                    assert(old(self).received@.contains_key(k) && old(self).counter <= k);
                    let j = choose|j: int| 0 <= j < bold.len() && (#[trigger] bold[j]).id() == k;
                    assert(reorder::buffered(post.buffer)[j].id() == k);
                }
            }
            match msg {
                State::Completed(id, name) => Delivery::Deliver(id, name),
                State::Error(id, message) => Delivery::Fail(id, message),
            }
        } else {
            let tail = match &msg {
                State::Completed(_, _) => true,
                State::Error(_, _) => false,
            };
            self.buffer.push(msg);
            proof {
                let post = *self;
                let bnew = reorder::buffered(post.buffer);
                let bold = reorder::buffered(old(self).buffer);
                assert forall|j: int| 0 <= j < bnew.len() implies {
                    let s = #[trigger] bnew[j];
                    &&& post.counter <= s.id() < post.ninputs
                    &&& post.received@.contains_key(s.id() as int)
                    &&& post.received@[s.id() as int] == s
                } by {
                    if j < bold.len() {
                        assert(bnew[j] == bold[j]);
                    } else {
                        assert(bnew[j] == msg);
                    }
                }
                assert forall|k: int|
                    post.received@.contains_key(k) && post.counter <= k implies exists|j: int|
                    0 <= j < bnew.len() && (#[trigger] bnew[j]).id() == k by {
                    if k == msg.id() as int {
                        assert(bnew[bold.len() as int].id() == k);
                    } else {
                        let j = choose|j: int| 0 <= j < bold.len() && (#[trigger] bold[j]).id()
                            == k;
                        assert(bnew[j].id() == k);
                    }
                }
            }
            Delivery::Buffered(tail)
        }
    }

    /// After any advance of the cursor, sweep the reorder buffer: deliver
    /// every buffered message whose id has come due, repeatedly, since each
    /// delivery can unblock the next. Returns the deliveries owed, in id
    /// order. Afterwards the cursor points at an id that has not been
    /// received yet, or past the last job.
    pub fn drain(&mut self) -> (r: Vec<Delivery>)
        requires
            old(self).wf(),
        ensures
            final(self).wf(),
            final(self).ninputs == old(self).ninputs,
            final(self).received@ == old(self).received@,
            old(self).counter <= final(self).counter,
            final(self).counter == final(self).ninputs || !final(self).received@.contains_key(
                final(self).counter as int,
            ),
            old(self).delivered@ == final(self).delivered@.take(old(self).delivered@.len() as int),
            r@ == final(self).delivered@.skip(old(self).delivered@.len() as int).map_values(
                |s: State| delivery_of(s),
            ),
    {
        let mut out: Vec<Delivery> = Vec::new();
        let ghost base = old(self).delivered@.len() as int;
        proof {
            assert(old(self).delivered@ =~= old(self).delivered@.take(base));
            assert(old(self).delivered@.skip(base) =~= Seq::<State>::empty());
            assert(out@ =~= old(self).delivered@.skip(base).map_values(
                |s: State| delivery_of(s),
            ));
        }
        let mut again = true;
        while again
            invariant
                self.wf(),
                self.ninputs == old(self).ninputs,
                self.received@ == old(self).received@,
                old(self).counter <= self.counter,
                base == old(self).delivered@.len(),
                base <= self.delivered@.len(),
                old(self).delivered@ == self.delivered@.take(base),
                out@ == self.delivered@.skip(base).map_values(|s: State| delivery_of(s)),
                !again ==> (self.counter == self.ninputs || !self.received@.contains_key(
                    self.counter as int,
                )),
            decreases self.ninputs - self.counter + (if again {
                1int
            } else {
                0int
            }),
        {
            let len = self.buffer.len();
            let mut i: usize = 0;
            let mut found = false;
            while i < len && !found
                invariant
                    len == reorder::buffered(self.buffer).len(),
                    i <= len,
                    found ==> i < len && reorder::buffered(self.buffer)[i as int].id()
                        == self.counter,
                    !found ==> forall|j: int|
                        0 <= j < i ==> (#[trigger] reorder::buffered(self.buffer)[j]).id()
                            != self.counter,
                decreases len - i + (if found {
                    0int
                } else {
                    1int
                }),
            {
                if self.buffer.id_at(i) == self.counter {
                    found = true;
                } else {
                    i = i + 1;
                }
            }
            if found {
                let ghost pre = *self;
                let ghost bold = reorder::buffered(pre.buffer);
                let s = self.buffer.remove(i);
                self.delivered = Ghost(self.delivered@.push(s));
                self.counter = self.counter + 1;
                proof {
                    let post = *self;
                    let bnew = reorder::buffered(post.buffer);
                    assert forall|j: int| 0 <= j < bnew.len() implies {
                        let e = #[trigger] bnew[j];
                        &&& post.counter <= e.id() < post.ninputs
                        &&& post.received@.contains_key(e.id() as int)
                        &&& post.received@[e.id() as int] == e
                    } by {
                        if j < i {
                            assert(bnew[j] == bold[j]);
                            assert(bold[j].id() != bold[i as int].id());
                        } else {
                            assert(bnew[j] == bold[j + 1]);
                            assert(bold[j + 1].id() != bold[i as int].id());
                        }
                    }
                    assert forall|j: int, k: int| 0 <= j < k < bnew.len() implies (
                    #[trigger] bnew[j]).id() != (#[trigger] bnew[k]).id() by {
                        let j0 = if j < i {
                            j
                        } else {
                            j + 1
                        };
                        let k0 = if k < i {
                            k
                        } else {
                            k + 1
                        };
                        assert(bnew[j] == bold[j0] && bnew[k] == bold[k0]);
                    }
                    assert forall|k: int|
                        post.received@.contains_key(k) && post.counter <= k implies exists|j: int|
                        0 <= j < bnew.len() && (#[trigger] bnew[j]).id() == k by {
                        let j0 = choose|j0: int|
                            0 <= j0 < bold.len() && (#[trigger] bold[j0]).id() == k;
                        let j = if j0 < i {
                            j0
                        } else {
                            j0 - 1
                        };
                        assert(j0 != i);
                        assert(bnew[j] == bold[j0]);
                        assert(bnew[j].id() == k);
                    }
                    assert forall|x: int| 0 <= x < post.delivered@.len() implies {
                        &&& (#[trigger] post.delivered@[x]).id() == x
                        &&& post.received@.contains_key(x)
                        &&& post.delivered@[x] == post.received@[x]
                    } by {
                        if x < pre.counter {
                            assert(post.delivered@[x] == pre.delivered@[x]);
                        } else {
                            assert(post.delivered@[x] == s);
                        }
                    }
                    assert(base <= pre.delivered@.len());
                    assert(post.delivered@ == pre.delivered@.push(s));
                    assert(post.delivered@.take(base) =~= pre.delivered@.take(base));
                    assert(post.delivered@.skip(base) =~= pre.delivered@.skip(base).push(s));
                    assert(post.delivered@.skip(base).map_values(|e: State| delivery_of(e))
                        =~= pre.delivered@.skip(base).map_values(|e: State| delivery_of(e)).push(
                        delivery_of(s),
                    ));
                }
                match s {
                    State::Completed(id, name) => out.push(Delivery::Deliver(id, name)),
                    State::Error(id, message) => out.push(Delivery::Fail(id, message)),
                }
            } else {
                proof {
                    // nothing in the buffer carries the cursor's id, so by
                    // buffer completeness the cursor's id was not received.
                    if self.counter < self.ninputs && self.received@.contains_key(
                        self.counter as int,
                    ) {
                        let j = choose|j: int|
                            0 <= j < reorder::buffered(self.buffer).len() && (
                            #[trigger] reorder::buffered(self.buffer)[j]).id() == self.counter;
                        assert(false);
                    }
                }
                again = false;
            }
        }
        out
    }
}

/// The number of delivered completions: the processed-log receives exactly
/// one line per such message.
pub open spec fn count_completed(s: Seq<State>) -> int
    decreases s.len(),
{
    if s.len() == 0 {
        0
    } else {
        count_completed(s.drop_last()) + if s.last().is_completed() {
            1int
        } else {
            0int
        }
    }
}

/// The number of delivered errors: the error-log receives exactly one entry
/// per such message.
pub open spec fn count_errors(s: Seq<State>) -> int
    decreases s.len(),
{
    if s.len() == 0 {
        0
    } else {
        count_errors(s.drop_last()) + if s.last().is_completed() {
            0int
        } else {
            1int
        }
    }
}

/// Every message is either a completion or an error, so the two counts
/// partition the deliveries.
pub proof fn lemma_counts_partition(s: Seq<State>)
    ensures
        count_completed(s) + count_errors(s) == s.len(),
    decreases s.len(),
{
    if s.len() > 0 {
        lemma_counts_partition(s.drop_last());
    }
}

/// Ordering law: in everything the receiver emits, any two delivered jobs
/// appear in strictly increasing id order, whatever order their messages
/// arrived in.
pub proof fn lemma_deliveries_ordered(r: Receiver)
    requires
        r.wf(),
    ensures
        forall|a: int, b: int|
            0 <= a < b < r.delivered@.len() ==> (#[trigger] r.delivered@[a]).id() < (
            #[trigger] r.delivered@[b]).id(),
{
}

/// Completeness law: once the receiver is done, the number of processed-log
/// lines plus the number of error-log entries equals the number of inputs.
pub proof fn lemma_completeness(r: Receiver)
    requires
        r.wf(),
        r.counter == r.ninputs,
    ensures
        count_completed(r.delivered@) + count_errors(r.delivered@) == r.ninputs,
{
    lemma_counts_partition(r.delivered@);
}

/// Once the receiver is done, the reorder buffer is empty: nothing is left
/// behind undelivered.
pub proof fn lemma_done_buffer_empty(r: Receiver)
    requires
        r.wf(),
        r.counter == r.ninputs,
    ensures
        reorder::buffered(r.buffer).len() == 0,
{
    if reorder::buffered(r.buffer).len() > 0 {
        assert(reorder::buffered(r.buffer)[0].id() < r.ninputs);
    }
}

/// Deterministic replay law: two finished runs that received the same message
/// for every id deliver byte-identical sequences, whatever the arrival
/// orders were. Scheduling cannot change the aggregate outputs.
pub proof fn lemma_replay_deterministic(r1: Receiver, r2: Receiver)
    requires
        r1.wf(),
        r2.wf(),
        r1.counter == r1.ninputs,
        r2.counter == r2.ninputs,
        r1.ninputs == r2.ninputs,
        r1.received@ == r2.received@,
    ensures
        r1.delivered@ == r2.delivered@,
{
    assert forall|i: int| 0 <= i < r1.delivered@.len() implies r1.delivered@[i]
        == r2.delivered@[i] by {
        assert(r1.delivered@[i] == r1.received@[i]);
        assert(r2.delivered@[i] == r2.received@[i]);
    }
    assert(r1.delivered@ =~= r2.delivered@);
}

} // verus!
