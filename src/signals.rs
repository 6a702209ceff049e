use vstd::prelude::*;

use crate::ids::MessageId;

verus! {

/// A broken protocol invariant. These are not ordinary results: the caller
/// is expected to abort the current invocation.
#[derive(Clone, Copy, Debug, PartialEq, Eq, Structural)]
pub enum Fault {
    /// A reply arrived for a message that nobody awaits.
    UnknownReply,
    /// A reply was polled for a message that was never awaited.
    NeverAwaited,
}

/// What the registry holds for one awaited message.
pub struct PendingReply {
    /// The logical task to resume once the reply is there.
    pub wake_target: MessageId,
    /// The reply's bytes, absent until it arrives.
    pub payload: Option<Seq<u8>>,
}

/// The result of polling the registry for one awaited message.
pub enum ReplyPoll {
    /// Nothing is registered for the message.
    Absent,
    /// The message is awaited and its reply has not arrived.
    Pending,
    /// The reply arrived; the entry has been consumed.
    Ready(Vec<u8>),
}

/// Model of [`ReplyPoll`].
pub enum PollOutcome {
    Absent,
    Pending,
    Ready(Seq<u8>),
}

impl View for ReplyPoll {
    type V = PollOutcome;

    open spec fn view(&self) -> PollOutcome {
        match self {
            ReplyPoll::Absent => PollOutcome::Absent,
            ReplyPoll::Pending => PollOutcome::Pending,
            ReplyPoll::Ready(p) => PollOutcome::Ready(p@),
        }
    }
}

/// The registry after `awaited` starts waiting on behalf of `wake_target`.
pub open spec fn registered(
    m: Map<Seq<u8>, PendingReply>,
    awaited: Seq<u8>,
    wake_target: MessageId,
) -> Map<Seq<u8>, PendingReply> {
    m.insert(awaited, PendingReply { wake_target, payload: None })
}

/// The registry after the reply `payload` to `awaited` is stored.
pub open spec fn recorded(
    m: Map<Seq<u8>, PendingReply>,
    awaited: Seq<u8>,
    payload: Seq<u8>,
) -> Map<Seq<u8>, PendingReply> {
    m.insert(awaited, PendingReply { wake_target: m[awaited].wake_target, payload: Some(payload) })
}

/// What a poll for `awaited` reports.
pub open spec fn poll_outcome(m: Map<Seq<u8>, PendingReply>, awaited: Seq<u8>) -> PollOutcome {
    if !m.contains_key(awaited) {
        PollOutcome::Absent
    } else {
        match m[awaited].payload {
            Option::None => PollOutcome::Pending,
            Option::Some(p) => PollOutcome::Ready(p),
        }
    }
}

/// The registry after a poll for `awaited`: a delivered reply is consumed.
pub open spec fn polled(m: Map<Seq<u8>, PendingReply>, awaited: Seq<u8>) -> Map<
    Seq<u8>,
    PendingReply,
> {
    if m.contains_key(awaited) && m[awaited].payload is Some {
        m.remove(awaited)
    } else {
        m
    }
}

struct WakeSignal {
    awaited: MessageId,
    message_id: MessageId,
    payload: Option<Vec<u8>>,
}

spec fn entry_view(e: WakeSignal) -> PendingReply {
    PendingReply {
        wake_target: e.message_id,
        payload: match e.payload {
            Option::Some(p) => Option::Some(p@),
            Option::None => Option::None,
        },
    }
}

spec fn map_of(s: Seq<WakeSignal>) -> Map<Seq<u8>, PendingReply>
    decreases s.len(),
{
    if s.len() == 0 {
        Map::empty()
    } else {
        map_of(s.drop_last()).insert(s.last().awaited@, entry_view(s.last()))
    }
}

spec fn keys_unique(s: Seq<WakeSignal>) -> bool {
    forall|i: int, j: int| 0 <= i < j < s.len() ==> s[i].awaited@ != s[j].awaited@
}

proof fn lemma_map_of(s: Seq<WakeSignal>)
    requires
        keys_unique(s),
    ensures
        forall|i: int|
            0 <= i < s.len() ==> #[trigger] map_of(s).contains_key(s[i].awaited@) && map_of(s)[s[i].awaited@]
                == entry_view(s[i]),
        forall|k: Seq<u8>|
            #[trigger] map_of(s).contains_key(k) ==> exists|i: int|
                0 <= i < s.len() && s[i].awaited@ == k,
    decreases s.len(),
{
    if s.len() > 0 {
        let t = s.drop_last();
        assert(keys_unique(t));
        lemma_map_of(t);
        assert forall|k: Seq<u8>| #[trigger] map_of(s).contains_key(k) implies exists|i: int|
            0 <= i < s.len() && s[i].awaited@ == k by {
            if k != s.last().awaited@ {
                let i = choose|i: int| 0 <= i < t.len() && t[i].awaited@ == k;
                assert(s[i] == t[i]);
            } else {
                assert(s[s.len() - 1].awaited@ == k);
            }
        }
        assert forall|i: int| 0 <= i < s.len() implies #[trigger] map_of(s).contains_key(
            s[i].awaited@,
        ) && map_of(s)[s[i].awaited@] == entry_view(s[i]) by {
            if i < s.len() - 1 {
                assert(s[i] == t[i]);
            }
        }
    }
}

proof fn lemma_map_of_update(s: Seq<WakeSignal>, i: int, e: WakeSignal)
    requires
        keys_unique(s),
        0 <= i < s.len(),
        e.awaited@ == s[i].awaited@,
    ensures
        keys_unique(s.update(i, e)),
        map_of(s.update(i, e)) == map_of(s).insert(e.awaited@, entry_view(e)),
{
    let t = s.update(i, e);
    assert(keys_unique(t)) by {
        assert forall|a: int, b: int| 0 <= a < b < t.len() implies t[a].awaited@ != t[b].awaited@ by {
            assert(s[a].awaited@ != s[b].awaited@);
        }
    }
    lemma_map_of(s);
    lemma_map_of(t);
    let want = map_of(s).insert(e.awaited@, entry_view(e));
    assert forall|k: Seq<u8>| #[trigger] map_of(t).contains_key(k) <==> want.contains_key(k) by {
        if map_of(t).contains_key(k) {
            let j = choose|j: int| 0 <= j < t.len() && t[j].awaited@ == k;
            if j != i {
                assert(map_of(s).contains_key(s[j].awaited@));
            }
        }
        if want.contains_key(k) && k != e.awaited@ {
            let j = choose|j: int| 0 <= j < s.len() && s[j].awaited@ == k;
            assert(map_of(t).contains_key(t[j].awaited@));
        }
        if k == e.awaited@ {
            assert(map_of(t).contains_key(t[i].awaited@));
        }
    }
    assert forall|k: Seq<u8>| #[trigger] map_of(t).contains_key(k) implies map_of(t)[k] == want[k] by {
        let j = choose|j: int| 0 <= j < t.len() && t[j].awaited@ == k;
        if j != i {
            assert(map_of(s).contains_key(s[j].awaited@));
        }
    }
    assert(map_of(t) =~= want);
}

proof fn lemma_map_of_remove(s: Seq<WakeSignal>, i: int)
    requires
        keys_unique(s),
        0 <= i < s.len(),
    ensures
        keys_unique(s.remove(i)),
        map_of(s.remove(i)) == map_of(s).remove(s[i].awaited@),
{
    let t = s.remove(i);
    let gone = s[i].awaited@;
    assert(keys_unique(t)) by {
        assert forall|a: int, b: int| 0 <= a < b < t.len() implies t[a].awaited@ != t[b].awaited@ by {
            if a < i && b >= i {
                assert(s[a].awaited@ != s[b + 1].awaited@);
            } else if a >= i {
                assert(s[a + 1].awaited@ != s[b + 1].awaited@);
            } else {
                assert(s[a].awaited@ != s[b].awaited@);
            }
        }
    }
    lemma_map_of(s);
    lemma_map_of(t);
    let want = map_of(s).remove(gone);
    assert forall|k: Seq<u8>| #[trigger] map_of(t).contains_key(k) <==> want.contains_key(k) by {
        if map_of(t).contains_key(k) {
            let j = choose|j: int| 0 <= j < t.len() && t[j].awaited@ == k;
            if j < i {
                assert(map_of(s).contains_key(s[j].awaited@));
                assert(s[j].awaited@ != s[i].awaited@);
            } else {
                assert(map_of(s).contains_key(s[j + 1].awaited@));
                assert(s[j + 1].awaited@ != s[i].awaited@);
            }
        }
        if want.contains_key(k) {
            let j = choose|j: int| 0 <= j < s.len() && s[j].awaited@ == k;
            if j < i {
                assert(map_of(t).contains_key(t[j].awaited@));
            } else {
                assert(j != i);
                assert(map_of(t).contains_key(t[j - 1].awaited@));
            }
        }
    }
    assert forall|k: Seq<u8>| #[trigger] map_of(t).contains_key(k) implies map_of(t)[k] == want[k] by {
        let j = choose|j: int| 0 <= j < t.len() && t[j].awaited@ == k;
        if j < i {
            assert(map_of(s).contains_key(s[j].awaited@));
        } else {
            assert(map_of(s).contains_key(s[j + 1].awaited@));
        }
    }
    assert(map_of(t) =~= want);
}

/// The table of awaited replies, keyed by the id of the message whose reply
/// is awaited.
pub struct WakeSignals {
    signals: Vec<WakeSignal>,
}

impl View for WakeSignals {
    type V = Map<Seq<u8>, PendingReply>;

    closed spec fn view(&self) -> Map<Seq<u8>, PendingReply> {
        map_of(self.signals@)
    }
}

impl WakeSignals {
    /// At most one entry per awaited message.
    pub closed spec fn wf(&self) -> bool {
        keys_unique(self.signals@)
    }

    /// An empty registry.
    pub fn new() -> (r: Self)
        ensures
            r.wf(),
            r@ == Map::<Seq<u8>, PendingReply>::empty(),
    {
        WakeSignals { signals: Vec::new() }
    }

    fn find(&self, awaited: &MessageId) -> (r: Option<usize>)
        requires
            self.wf(),
        ensures
            match r {
                Option::Some(i) => i < self.signals@.len() && self.signals@[i as int].awaited@
                    == awaited@,
                Option::None => !self@.contains_key(awaited@),
            },
    {
        proof {
            lemma_map_of(self.signals@);
        }
        let mut i: usize = 0;
        while i < self.signals.len()
            invariant
                0 <= i <= self.signals@.len(),
                forall|j: int| 0 <= j < i ==> self.signals@[j].awaited@ != awaited@,
            decreases self.signals@.len() - i,
        {
            if self.signals[i].awaited == *awaited {
                return Some(i);
            }
            i = i + 1;
        }
        None
    }
    /// Starts awaiting the reply to `waiting_reply_to`, to resume
    /// `wake_this_message` once it arrives. An earlier entry for the same
    /// message is replaced.
    pub fn register_signal(&mut self, waiting_reply_to: MessageId, wake_this_message: MessageId)
        requires
            old(self).wf(),
        ensures
            final(self).wf(),
            final(self)@ == registered(old(self)@, waiting_reply_to@, wake_this_message),
    {
        let entry = WakeSignal {
            awaited: waiting_reply_to,
            message_id: wake_this_message,
            payload: None,
        };
        match self.find(&waiting_reply_to) {
            Some(i) => {
                proof {
                    lemma_map_of_update(self.signals@, i as int, entry);
                }
                self.signals[i] = entry;
            },
            None => {
                proof {
                    lemma_map_of(self.signals@);
                    assert forall|j: int| 0 <= j < self.signals@.len() implies self.signals@[j].awaited@
                        != waiting_reply_to@ by {
                        assert(map_of(self.signals@).contains_key(self.signals@[j].awaited@));
                    }
                }
                self.signals.push(entry);
                proof {
                    assert(self.signals@.drop_last() =~= old(self).signals@);
                }
            },
        }
    }

    /// Stores the reply to `waiting_reply_to` and returns the task to wake.
    /// A reply that nobody awaits is a fault, and the table is left as it was.
    pub fn record_reply(&mut self, waiting_reply_to: MessageId, payload: Vec<u8>) -> (r: Result<
        MessageId,
        Fault,
    >)
        requires
            old(self).wf(),
        ensures
            final(self).wf(),
            match r {
                Ok(wake) => {
                    &&& old(self)@.contains_key(waiting_reply_to@)
                    &&& wake == old(self)@[waiting_reply_to@].wake_target
                    &&& final(self)@ == recorded(old(self)@, waiting_reply_to@, payload@)
                },
                Err(f) => {
                    &&& f == Fault::UnknownReply
                    &&& !old(self)@.contains_key(waiting_reply_to@)
                    &&& final(self)@ == old(self)@
                },
            },
    {
        match self.find(&waiting_reply_to) {
            Some(i) => {
                proof {
                    lemma_map_of(self.signals@);
                    assert(map_of(self.signals@).contains_key(self.signals@[i as int].awaited@));
                }
                let wake = self.signals[i].message_id;
                let entry = WakeSignal {
                    awaited: self.signals[i].awaited,
                    message_id: wake,
                    payload: Some(payload),
                };
                proof {
                    lemma_map_of_update(self.signals@, i as int, entry);
                }
                self.signals[i] = entry;
                Ok(wake)
            },
            None => Err(Fault::UnknownReply),
        }
    }

    /// Reports whether the reply to `message_reply_to` is there. A delivered
    /// reply is handed out once and its entry removed; a pending entry is left
    /// as it is.
    pub fn poll(&mut self, message_reply_to: MessageId) -> (r: ReplyPoll)
        requires
            old(self).wf(),
        ensures
            final(self).wf(),
            r@ == poll_outcome(old(self)@, message_reply_to@),
            final(self)@ == polled(old(self)@, message_reply_to@),
    {
        match self.find(&message_reply_to) {
            None => ReplyPoll::Absent,
            Some(i) => {
                proof {
                    lemma_map_of(self.signals@);
                }
                if self.signals[i].payload.is_none() {
                    ReplyPoll::Pending
                } else {
                    proof {
                        lemma_map_of_remove(self.signals@, i as int);
                    }
                    let entry = self.signals.remove(i);
                    match entry.payload {
                        Some(p) => ReplyPoll::Ready(p),
                        None => ReplyPoll::Pending,
                    }
                }
            },
        }
    }
}

/// The registry after `n` polls for `awaited`.
pub open spec fn polled_times(m: Map<Seq<u8>, PendingReply>, awaited: Seq<u8>, n: nat) -> Map<
    Seq<u8>,
    PendingReply,
>
    decreases n,
{
    if n == 0 {
        m
    } else {
        polled_times(polled(m, awaited), awaited, (n - 1) as nat)
    }
}

/// Once the reply to an awaited message is recorded, the next poll hands out
/// exactly the recorded bytes; after it the message reads as never awaited,
/// until it is registered again.
pub proof fn lemma_reply_handed_out_once(
    m: Map<Seq<u8>, PendingReply>,
    awaited: Seq<u8>,
    wake_target: MessageId,
    payload: Seq<u8>,
    next_wake_target: MessageId,
)
    ensures
        ({
            let full = recorded(registered(m, awaited, wake_target), awaited, payload);
            let after = polled(full, awaited);
            &&& poll_outcome(full, awaited) == PollOutcome::Ready(payload)
            &&& after == m.remove(awaited)
            &&& poll_outcome(after, awaited) == PollOutcome::Absent
            &&& poll_outcome(registered(after, awaited, next_wake_target), awaited)
                == PollOutcome::Pending
        }),
{
    let full = recorded(registered(m, awaited, wake_target), awaited, payload);
    assert(polled(full, awaited) =~= m.remove(awaited));
}

/// Polling a message whose reply has not arrived reports it pending however
/// often it is done, and leaves the registry as it was.
pub proof fn lemma_pending_poll_stable(m: Map<Seq<u8>, PendingReply>, awaited: Seq<u8>, n: nat)
    requires
        m.contains_key(awaited),
        m[awaited].payload is None,
    ensures
        polled_times(m, awaited, n) == m,
        poll_outcome(polled_times(m, awaited, n), awaited) == PollOutcome::Pending,
    decreases n,
{
    if n > 0 {
        lemma_pending_poll_stable(m, awaited, (n - 1) as nat);
    }
}

} // verus!
