//! Fan-out of the provisioner's output lines to live subscribers.
//!
//! Each subscriber has a delivery queue of its own (a flume channel), fed by
//! one call of `publish`; a slow subscriber never holds up the others. The
//! registry keeps, for each subscriber, a ghost record of the lines it has
//! been handed since it registered.

use vstd::prelude::*;

verus! {

/// For each registered subscriber, the lines handed to it since it registered.
pub type Deliveries = Map<nat, Seq<Seq<char>>>;

/// A registration from `pre` to `post` under the fresh identity `id`: the
/// new subscriber has been handed nothing yet.
pub open spec fn subscribe_step(pre: Deliveries, id: nat, post: Deliveries) -> bool {
    !pre.contains_key(id) && post == pre.insert(id, Seq::empty())
}

/// One publication of `line` from `pre` to `post`: every subscriber that is
/// still registered was registered before and has been handed `line` once,
/// after what it had. A subscriber whose receiving end was dropped leaves
/// the registry.
pub open spec fn publish_step(pre: Deliveries, line: Seq<char>, post: Deliveries) -> bool {
    &&& post.dom().subset_of(pre.dom())
    &&& forall|id: nat| #[trigger] post.contains_key(id) ==> post[id] == pre[id].push(line)
}

/// `states` is a run of publications of `lines`, one after the other.
pub open spec fn publishes(states: Seq<Deliveries>, lines: Seq<Seq<char>>) -> bool {
    &&& states.len() == lines.len() + 1
    &&& forall|i: int| 0 <= i < lines.len() ==> #[trigger] publish_step(states[i], lines[i], states[i + 1])
}

/// The identities among `ids` whose delivery queue took the line, in order:
/// `sent[i]` tells whether the queue of `ids[i]` took it.
pub open spec fn survivors(ids: Seq<nat>, sent: Seq<bool>) -> Seq<nat>
    decreases ids.len(),
{
    if ids.len() == 0 {
        Seq::empty()
    } else {
        survivors(ids.drop_last(), sent) + if sent[ids.len() - 1] {
            seq![ids.last()]
        } else {
            Seq::empty()
        }
    }
}

/// The sending side of the broadcast channel: the registry of subscribers'
/// delivery queues, all fed by one call of `publish`.
pub struct Tx {
    senders: Vec<flume::Sender<String>>,
    ids: Ghost<Seq<nat>>,
    next_id: Ghost<nat>,
    delivered: Ghost<Deliveries>,
}

/// A subscription: the receiving end of one subscriber's delivery queue.
/// Dropping it ends the subscription; the registry forgets it at the next
/// publication.
pub struct Rx {
    receiver: flume::Receiver<String>,
    id: Ghost<nat>,
}

impl Rx {
    /// The identity of this subscription in its registry.
    pub closed spec fn id(&self) -> nat {
        self.id@
    }

    /// The receiving end, from which the lines are read in the order they
    /// were published.
    pub fn receiver(&self) -> (r: &flume::Receiver<String>) {
        &self.receiver
    }
}

impl View for Tx {
    type V = Deliveries;

    closed spec fn view(&self) -> Deliveries {
        self.delivered@
    }
}

impl Tx {
    /// The registry's internal consistency: one identity per delivery queue,
    /// all distinct, all below the next identity to hand out, and exactly
    /// the keys of the deliveries.
    pub closed spec fn wf(&self) -> bool {
        &&& self.ids@.len() == self.senders@.len()
        &&& self.ids@.no_duplicates()
        &&& forall|i: int| 0 <= i < self.ids@.len() ==> #[trigger] self.ids@[i] < self.next_id@
        &&& self.delivered@.dom() == self.ids@.to_set()
    }

    pub fn new() -> (r: Tx)
        ensures
            r.wf(),
            r@ == Map::<nat, Seq<Seq<char>>>::empty(),
    {
        let r = Tx {
            senders: Vec::new(),
            ids: Ghost(Seq::empty()),
            next_id: Ghost(0),
            delivered: Ghost(Map::empty()),
        };
        assert(r.delivered@.dom() =~= r.ids@.to_set());
        r
    }

    /// Registers a new subscriber; it is handed every line published from
    /// now on, and none published before.
    pub fn subscribe(&mut self) -> (r: Rx)
        requires
            old(self).wf(),
        ensures
            final(self).wf(),
            subscribe_step(old(self)@, r.id(), final(self)@),
            final(self).subscribers() == old(self).subscribers().push(r.id()),
    {
        let (sender, receiver) = flume::unbounded::<String>();
        let ghost id = self.next_id@;
        proof {
            if self.ids@.contains(id) {
                let i = self.ids@.index_of(id);
                assert(self.ids@[i] < self.next_id@);
            }
        }
        self.senders.push(sender);
        self.ids = Ghost(self.ids@.push(id));
        self.next_id = Ghost(id + 1);
        self.delivered = Ghost(self.delivered@.insert(id, Seq::empty()));
        proof {
            old(self).ids@.lemma_push_to_set_commute(id);
            assert(self.delivered@.dom() =~= self.ids@.to_set());
            assert forall|i: int| 0 <= i < self.ids@.len() implies #[trigger] self.ids@[i] < self.next_id@ by {
                if i < self.ids@.len() - 1 {
                    assert(self.ids@[i] == old(self).ids@[i]);
                }
            }
        }
        Rx { receiver, id: Ghost(id) }
    }

    /// The identities of the registered subscribers, in registration order.
    pub closed spec fn subscribers(&self) -> Seq<nat> {
        self.ids@
    }

    /// Hands `line` to every registered subscriber, without waiting for any
    /// of them to read it; subscribers whose receiving end was dropped are
    /// removed. With no subscriber the line is discarded.
    pub fn publish(&mut self, line: String)
        requires
            old(self).wf(),
        ensures
            final(self).wf(),
            publish_step(old(self)@, line@, final(self)@),
            exists|sent: Seq<bool>|
                sent.len() == old(self).subscribers().len() && final(self).subscribers() == survivors(
                    old(self).subscribers(),
                    sent,
                ),
    {
        let mut sent: Vec<bool> = Vec::new();
        let mut k: usize = 0;
        while k < self.senders.len()
            invariant
                sent@.len() == k,
                k <= self.senders@.len(),
                *self == *old(self),
            decreases self.senders@.len() - k,
        {
            let outcome = self.senders[k].send(line.clone());
            sent.push(outcome.is_ok());
            k = k + 1;
        }
        self.settle(&sent, &line);
    }

    /// Records one publication of `line`, given for each subscriber, in
    /// registration order, whether its delivery queue took the line: those
    /// whose queue took it stay and have been handed the line; the others
    /// leave the registry.
    fn settle(&mut self, sent: &Vec<bool>, line: &String)
        requires
            old(self).wf(),
            sent@.len() == old(self).ids@.len(),
        ensures
            final(self).wf(),
            final(self).subscribers() == survivors(old(self).subscribers(), sent@),
            publish_step(old(self)@, line@, final(self)@),
    {
        let ghost pre = self.delivered@;
        let ghost o_ids = self.ids@;
        let mut i: usize = 0;
        let mut k: usize = 0;
        proof {
            assert(o_ids.skip(0) =~= o_ids);
            assert(survivors(o_ids.take(0), sent@) =~= Seq::<nat>::empty());
            assert(self.ids@ =~= survivors(o_ids.take(0), sent@) + o_ids.skip(0));
        }
        while k < sent.len()
            invariant
                k <= sent@.len(),
                sent@.len() == o_ids.len(),
                self.ids@ == survivors(o_ids.take(k as int), sent@) + o_ids.skip(k as int),
                i == survivors(o_ids.take(k as int), sent@).len(),
                self.ids@.len() == self.senders@.len(),
                i <= self.ids@.len(),
                self.ids@.no_duplicates(),
                forall|j: int| 0 <= j < self.ids@.len() ==> #[trigger] self.ids@[j] < self.next_id@,
                self.delivered@.dom() == self.ids@.to_set(),
                self.delivered@.dom().subset_of(pre.dom()),
                forall|j: int|
                    0 <= j < i ==> #[trigger] self.delivered@[self.ids@[j]] == pre[self.ids@[j]].push(line@),
                forall|j: int|
                    i <= j < self.ids@.len() ==> #[trigger] self.delivered@[self.ids@[j]] == pre[self.ids@[j]],
                self.next_id@ == old(self).next_id@,
            decreases sent@.len() - k,
        {
            let ghost kept = survivors(o_ids.take(k as int), sent@);
            proof {
                assert(o_ids.take(k + 1).drop_last() =~= o_ids.take(k as int));
                assert(o_ids.skip(k as int) =~= seq![o_ids[k as int]] + o_ids.skip(k + 1));
                assert(self.ids@ =~= kept + seq![o_ids[k as int]] + o_ids.skip(k + 1));
                assert(self.ids@[i as int] == o_ids[k as int]);
            }
            let ghost id = self.ids@[i as int];
            let registered = self.senders.len();
            assert(i < registered);
            if sent[k] {
                self.delivered = Ghost(self.delivered@.insert(id, self.delivered@[id].push(line@)));
                proof {
                    assert(self.ids@.to_set().contains(id));
                    assert(self.delivered@.dom() =~= self.ids@.to_set());
                    assert forall|j: int| 0 <= j < i + 1 implies #[trigger] self.delivered@[self.ids@[j]]
                        == pre[self.ids@[j]].push(line@) by {
                        if j < i {
                            assert(self.ids@[j] != id);
                        }
                    }
                    assert forall|j: int| i + 1 <= j < self.ids@.len() implies #[trigger] self.delivered@[self.ids@[j]]
                        == pre[self.ids@[j]] by {
                        assert(self.ids@[j] != id);
                    }
                }
                i = i + 1;
                proof {
                    assert(survivors(o_ids.take(k + 1), sent@) =~= kept + seq![o_ids[k as int]]);
                }
            } else {
                let ghost old_ids = self.ids@;
                let ghost old_delivered = self.delivered@;
                self.senders.remove(i);
                self.ids = Ghost(self.ids@.remove(i as int));
                self.delivered = Ghost(self.delivered@.remove(id));
                proof {
                    assert forall|j: int| 0 <= j < self.ids@.len() implies #[trigger] self.ids@[j] == if j < i {
                        old_ids[j]
                    } else {
                        old_ids[j + 1]
                    } by {}
                    assert(self.ids@.no_duplicates()) by {
                        assert forall|a: int, b: int|
                            0 <= a < self.ids@.len() && 0 <= b < self.ids@.len() && a != b implies self.ids@[a]
                            != self.ids@[b] by {
                            let oa = if a < i { a } else { a + 1 };
                            let ob = if b < i { b } else { b + 1 };
                            assert(old_ids[oa] != old_ids[ob]);
                        }
                    }
                    assert forall|j: int| 0 <= j < self.ids@.len() implies #[trigger] self.ids@[j]
                        < self.next_id@ by {
                        let oj = if j < i { j } else { j + 1 };
                        assert(old_ids[oj] < self.next_id@);
                    }
                    assert forall|x: nat| self.ids@.to_set().contains(x) <==> old_ids.to_set().remove(
                        id,
                    ).contains(x) by {
                        if self.ids@.to_set().contains(x) {
                            let j = self.ids@.index_of(x);
                            let oj = if j < i { j } else { j + 1 };
                            assert(old_ids[oj] == x);
                            assert(old_ids[i as int] == id);
                            assert(oj != i);
                        }
                        if old_ids.to_set().remove(id).contains(x) {
                            let oj = old_ids.index_of(x);
                            assert(oj != i);
                            let j = if oj < i { oj } else { oj - 1 };
                            assert(self.ids@[j] == x);
                        }
                    }
                    assert(self.delivered@.dom() =~= self.ids@.to_set());
                    assert forall|j: int| 0 <= j < i implies #[trigger] self.delivered@[self.ids@[j]]
                        == pre[self.ids@[j]].push(line@) by {
                        assert(self.ids@[j] == old_ids[j]);
                        assert(old_ids[j] != id);
                    }
                    assert forall|j: int| i <= j < self.ids@.len() implies #[trigger] self.delivered@[self.ids@[j]]
                        == pre[self.ids@[j]] by {
                        assert(self.ids@[j] == old_ids[j + 1]);
                        assert(old_ids[j + 1] != id);
                    }
                }
                proof {
                    assert(survivors(o_ids.take(k + 1), sent@) =~= kept);
                    assert(self.ids@ =~= kept + o_ids.skip(k + 1));
                }
            }
            k = k + 1;
        }
        proof {
            assert(o_ids.take(k as int) =~= o_ids);
            assert(self.ids@ =~= survivors(o_ids, sent@));
            assert forall|id: nat| #[trigger] self.delivered@.contains_key(id) implies self.delivered@[id]
                == pre[id].push(line@) by {
                assert(self.ids@.to_set().contains(id));
                let j = self.ids@.index_of(id);
                assert(self.delivered@[self.ids@[j]] == pre[self.ids@[j]].push(line@));
            }
        }
    }

    /// The number of registered subscribers.
    pub fn subscriber_count(&self) -> (r: usize)
        requires
            self.wf(),
        ensures
            r == self@.dom().len(),
    {
        proof {
            self.ids@.unique_seq_to_set();
        }
        self.senders.len()
    }
}

/// A subscriber that is registered before a run of publications and is
/// still registered after it has been handed every line of the run, in the
/// order published, each once, after what it held before.
pub proof fn lemma_subscriber_receives_every_line(states: Seq<Deliveries>, lines: Seq<Seq<char>>, id: nat)
    requires
        publishes(states, lines),
        states.last().contains_key(id),
    ensures
        states[0].contains_key(id),
        states.last()[id] == states[0][id] + lines,
    decreases lines.len(),
{
    if lines.len() == 0 {
        assert(states[0][id] + lines =~= states[0][id]);
    } else {
        let n = lines.len() - 1;
        let earlier_states = states.take(n + 1);
        let earlier_lines = lines.take(n);
        assert(publish_step(states[n], lines[n], states[n + 1]));
        assert(states[n + 1] == states.last());
        assert(publishes(earlier_states, earlier_lines)) by {
            assert forall|i: int| 0 <= i < earlier_lines.len() implies #[trigger] publish_step(
                earlier_states[i],
                earlier_lines[i],
                earlier_states[i + 1],
            ) by {
                assert(publish_step(states[i], lines[i], states[i + 1]));
            }
        }
        lemma_subscriber_receives_every_line(earlier_states, earlier_lines, id);
        assert(states.last()[id] =~= states[0][id] + lines);
    }
}

/// A subscriber that registers after some lines were published is handed
/// none of them: it holds exactly the lines published after it registered.
pub proof fn lemma_late_subscriber_gets_no_replay(
    before: Deliveries,
    id: nat,
    states: Seq<Deliveries>,
    lines: Seq<Seq<char>>,
)
    requires
        publishes(states, lines),
        subscribe_step(before, id, states[0]),
        states.last().contains_key(id),
    ensures
        states.last()[id] == lines,
{
    lemma_subscriber_receives_every_line(states, lines, id);
    assert(states[0][id] == Seq::<Seq<char>>::empty());
    assert(states[0][id] + lines =~= lines);
}

/// Two subscribers registered throughout a run of publications are handed
/// identical copies of its lines, in the same order.
pub proof fn lemma_subscribers_get_identical_copies(
    states: Seq<Deliveries>,
    lines: Seq<Seq<char>>,
    a: nat,
    b: nat,
)
    requires
        publishes(states, lines),
        states.last().contains_key(a),
        states.last().contains_key(b),
    ensures
        states.last()[a].skip(states[0][a].len() as int) == lines,
        states.last()[b].skip(states[0][b].len() as int) == lines,
{
    lemma_subscriber_receives_every_line(states, lines, a);
    lemma_subscriber_receives_every_line(states, lines, b);
    assert(states.last()[a].skip(states[0][a].len() as int) =~= lines);
    assert(states.last()[b].skip(states[0][b].len() as int) =~= lines);
}

} // verus!
