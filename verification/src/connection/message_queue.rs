//! Messages from the relay that wait to be used, by kind and by connection.

use std::collections::VecDeque;
use vstd::prelude::*;
use vstd::string::*;

use crate::connection::types::GoSignal;
use crate::punch::targets::PeerInfo;

verus! {

/// How many messages of a kind are kept; the oldest one makes room for a further one.
pub const MAX_QUEUE_SIZE: usize = 100;

/// A queue after a message has come in.
pub open spec fn pushed<T>(queue: Seq<T>, item: T) -> Seq<T> {
    if queue.len() >= MAX_QUEUE_SIZE {
        queue.skip(1).push(item)
    } else {
        queue.push(item)
    }
}

/// Where the first message for a connection stands.
pub open spec fn position<T>(queue: Seq<(u32, T)>, conn_num: u32) -> Option<int>
    decreases queue.len(),
{
    if queue.len() == 0 {
        None
    } else if queue[0].0 == conn_num {
        Some(0)
    } else {
        match position(queue.skip(1), conn_num) {
            Some(i) => Some(i + 1),
            None => None,
        }
    }
}

/// The first message for a connection, and the queue without it.
pub open spec fn popped<T>(queue: Seq<(u32, T)>, conn_num: u32) -> (Option<T>, Seq<(u32, T)>) {
    match position(queue, conn_num) {
        Some(i) => (Some(queue[i].1), queue.remove(i)),
        None => (None, queue),
    }
}

pub proof fn lemma_position<T>(queue: Seq<(u32, T)>, conn_num: u32)
    ensures
        match position(queue, conn_num) {
            Some(i) => {
                &&& 0 <= i < queue.len()
                &&& queue[i].0 == conn_num
                &&& forall|k: int| 0 <= k < i ==> (#[trigger] queue[k]).0 != conn_num
            },
            None => forall|k: int| 0 <= k < queue.len() ==> (#[trigger] queue[k]).0 != conn_num,
        },
    decreases queue.len(),
{
    if queue.len() > 0 && queue[0].0 != conn_num {
        let rest = queue.skip(1);
        lemma_position(rest, conn_num);
        match position(rest, conn_num) {
            Some(i) => {
                assert forall|k: int| 0 <= k < i + 1 implies (#[trigger] queue[k]).0
                    != conn_num by {
                    if k > 0 {
                        assert(rest[k - 1] == queue[k]);
                    }
                }
            },
            None => {
                assert forall|k: int| 0 <= k < queue.len() implies (#[trigger] queue[k]).0
                    != conn_num by {
                    if k > 0 {
                        assert(rest[k - 1] == queue[k]);
                    }
                }
            },
        }
    }
}

/// The waiting messages.
#[verifier::ext_equal]
pub struct QueuesView {
    /// For a connection: what is known of the peer, and how many connections the peer wants.
    pub peer_infos: Seq<(u32, (PeerInfo, u32))>,
    pub go_signals: Seq<(u32, GoSignal)>,
    pub ports_acks: Seq<Vec<u16>>,
    pub peer_added_ports: Seq<Vec<u16>>,
    pub retry_granted: Seq<(u32, ())>,
    pub retry_rejected: Seq<(u32, String)>,
    pub errors: Seq<String>,
    pub shutdown: bool,
    /// Whether the last connection is being established.
    pub last_connection: bool,
}

impl QueuesView {
    /// No kind of message has more than the bound waiting.
    pub open spec fn bounded(self) -> bool {
        &&& self.peer_infos.len() <= MAX_QUEUE_SIZE
        &&& self.go_signals.len() <= MAX_QUEUE_SIZE
        &&& self.ports_acks.len() <= MAX_QUEUE_SIZE
        &&& self.peer_added_ports.len() <= MAX_QUEUE_SIZE
        &&& self.retry_granted.len() <= MAX_QUEUE_SIZE
        &&& self.retry_rejected.len() <= MAX_QUEUE_SIZE
        &&& self.errors.len() <= MAX_QUEUE_SIZE
    }
}

/// Messages from the relay that wait to be used.
pub struct MessageQueues {
    peer_infos: VecDeque<(u32, (PeerInfo, u32))>,
    go_signals: VecDeque<(u32, GoSignal)>,
    ports_acks: VecDeque<Vec<u16>>,
    peer_added_ports: VecDeque<Vec<u16>>,
    retry_granted: VecDeque<(u32, ())>,
    retry_rejected: VecDeque<(u32, String)>,
    errors: VecDeque<String>,
    shutdown: bool,
    last_connection: bool,
}

fn push<T>(queue: &mut VecDeque<T>, item: T)
    ensures
        final(queue)@ == pushed(old(queue)@, item),
{
    if queue.len() >= MAX_QUEUE_SIZE {
        queue.pop_front();
        assert(queue@ == old(queue)@.skip(1));
    }
    queue.push_back(item);
}

fn pop_for<T>(queue: &mut VecDeque<(u32, T)>, conn_num: u32) -> (item: Option<T>)
    ensures
        (item, final(queue)@) == popped(old(queue)@, conn_num),
{
    proof {
        lemma_position(queue@, conn_num);
    }
    let mut i: usize = 0;
    while i < queue.len()
        invariant
            i <= queue@.len(),
            queue@ == old(queue)@,
            forall|k: int| 0 <= k < i ==> (#[trigger] queue@[k]).0 != conn_num,
        decreases queue@.len() - i,
    {
        if queue[i].0 == conn_num {
            proof {
                lemma_position(queue@, conn_num);
            }
            return match queue.remove(i) {
                Some((_, item)) => Some(item),
                None => None,
            };
        }
        i = i + 1;
    }
    None
}

impl View for MessageQueues {
    type V = QueuesView;

    closed spec fn view(&self) -> QueuesView {
        QueuesView {
            peer_infos: self.peer_infos@,
            go_signals: self.go_signals@,
            ports_acks: self.ports_acks@,
            peer_added_ports: self.peer_added_ports@,
            retry_granted: self.retry_granted@,
            retry_rejected: self.retry_rejected@,
            errors: self.errors@,
            shutdown: self.shutdown,
            last_connection: self.last_connection,
        }
    }
}

impl MessageQueues {
    pub fn new() -> (q: MessageQueues)
        ensures
            q@ == (QueuesView {
                peer_infos: Seq::empty(),
                go_signals: Seq::empty(),
                ports_acks: Seq::empty(),
                peer_added_ports: Seq::empty(),
                retry_granted: Seq::empty(),
                retry_rejected: Seq::empty(),
                errors: Seq::empty(),
                shutdown: false,
                last_connection: false,
            }),
            q@.bounded(),
    {
        MessageQueues {
            peer_infos: VecDeque::new(),
            go_signals: VecDeque::new(),
            ports_acks: VecDeque::new(),
            peer_added_ports: VecDeque::new(),
            retry_granted: VecDeque::new(),
            retry_rejected: VecDeque::new(),
            errors: VecDeque::new(),
            shutdown: false,
            last_connection: false,
        }
    }

    pub fn push_peer_info(&mut self, conn_num: u32, info: PeerInfo, tcp_connections: u32)
        ensures
            final(self)@ == (QueuesView {
                peer_infos: pushed(old(self)@.peer_infos, (conn_num, (info, tcp_connections))),
                ..old(self)@
            }),
    {
        push(&mut self.peer_infos, (conn_num, (info, tcp_connections)));
    }

    /// What is known of the peer for a connection, and how many connections the peer wants.
    pub fn pop_peer_info(&mut self, conn_num: u32) -> (info: Option<(PeerInfo, u32)>)
        ensures
            info == popped(old(self)@.peer_infos, conn_num).0,
            final(self)@ == (QueuesView {
                peer_infos: popped(old(self)@.peer_infos, conn_num).1,
                ..old(self)@
            }),
    {
        pop_for(&mut self.peer_infos, conn_num)
    }

    pub fn push_go(&mut self, conn_num: u32, signal: GoSignal)
        ensures
            final(self)@ == (QueuesView {
                go_signals: pushed(old(self)@.go_signals, (conn_num, signal)),
                ..old(self)@
            }),
    {
        push(&mut self.go_signals, (conn_num, signal));
    }

    pub fn pop_go(&mut self, conn_num: u32) -> (signal: Option<GoSignal>)
        ensures
            signal == popped(old(self)@.go_signals, conn_num).0,
            final(self)@ == (QueuesView {
                go_signals: popped(old(self)@.go_signals, conn_num).1,
                ..old(self)@
            }),
    {
        pop_for(&mut self.go_signals, conn_num)
    }

    pub fn push_ports_ack(&mut self, ports: Vec<u16>)
        ensures
            final(self)@ == (QueuesView {
                ports_acks: pushed(old(self)@.ports_acks, ports),
                ..old(self)@
            }),
    {
        push(&mut self.ports_acks, ports);
    }

    /// The oldest confirmation of ports.
    pub fn pop_ports_ack(&mut self) -> (ports: Option<Vec<u16>>)
        ensures
            ports == if old(self)@.ports_acks.len() > 0 {
                Some(old(self)@.ports_acks[0])
            } else {
                None
            },
            final(self)@ == (QueuesView {
                ports_acks: if old(self)@.ports_acks.len() > 0 {
                    old(self)@.ports_acks.skip(1)
                } else {
                    old(self)@.ports_acks
                },
                ..old(self)@
            }),
    {
        self.ports_acks.pop_front()
    }

    pub fn push_peer_added_ports(&mut self, ports: Vec<u16>)
        ensures
            final(self)@ == (QueuesView {
                peer_added_ports: pushed(old(self)@.peer_added_ports, ports),
                ..old(self)@
            }),
    {
        push(&mut self.peer_added_ports, ports);
    }

    /// All ports that the peer has added, in the order in which they were told. They stay.
    pub fn get_peer_added_ports(&self) -> (ports: Vec<u16>)
        ensures
            ports@ == all_ports(self@.peer_added_ports),
    {
        let mut ports: Vec<u16> = Vec::new();
        let mut i: usize = 0;
        assert(self.peer_added_ports@.take(0) == Seq::<Vec<u16>>::empty());
        while i < self.peer_added_ports.len()
            invariant
                i <= self.peer_added_ports@.len(),
                ports@ == all_ports(self.peer_added_ports@.take(i as int)),
            decreases self.peer_added_ports@.len() - i,
        {
            let list = &self.peer_added_ports[i];
            let ghost before = ports@;
            let mut k: usize = 0;
            while k < list.len()
                invariant
                    k <= list@.len(),
                    ports@ == before + list@.take(k as int),
                decreases list@.len() - k,
            {
                ports.push(list[k]);
                k = k + 1;
            }
            proof {
                assert(list@.take(k as int) == list@);
                let next = self.peer_added_ports@.take(i + 1);
                assert(next.drop_last() == self.peer_added_ports@.take(i as int));
            }
            i = i + 1;
        }
        assert(self.peer_added_ports@.take(i as int) == self.peer_added_ports@);
        ports
    }

    pub fn push_retry_granted(&mut self, conn_num: u32)
        ensures
            final(self)@ == (QueuesView {
                retry_granted: pushed(old(self)@.retry_granted, (conn_num, ())),
                ..old(self)@
            }),
    {
        push(&mut self.retry_granted, (conn_num, ()));
    }

    /// The number of the connection, if another try at it has been granted.
    pub fn pop_retry_granted(&mut self, conn_num: u32) -> (granted: Option<u32>)
        ensures
            granted == if popped(old(self)@.retry_granted, conn_num).0 is Some {
                Some(conn_num)
            } else {
                None
            },
            final(self)@ == (QueuesView {
                retry_granted: popped(old(self)@.retry_granted, conn_num).1,
                ..old(self)@
            }),
    {
        match pop_for(&mut self.retry_granted, conn_num) {
            Some(_) => Some(conn_num),
            None => None,
        }
    }

    pub fn push_retry_rejected(&mut self, conn_num: u32, reason: String)
        ensures
            final(self)@ == (QueuesView {
                retry_rejected: pushed(old(self)@.retry_rejected, (conn_num, reason)),
                ..old(self)@
            }),
    {
        push(&mut self.retry_rejected, (conn_num, reason));
    }

    /// Why another try at a connection has been refused.
    pub fn pop_retry_rejected(&mut self, conn_num: u32) -> (reason: Option<String>)
        ensures
            reason == popped(old(self)@.retry_rejected, conn_num).0,
            final(self)@ == (QueuesView {
                retry_rejected: popped(old(self)@.retry_rejected, conn_num).1,
                ..old(self)@
            }),
    {
        pop_for(&mut self.retry_rejected, conn_num)
    }

    pub fn push_error(&mut self, error: String)
        ensures
            final(self)@ == (QueuesView {
                errors: pushed(old(self)@.errors, error),
                ..old(self)@
            }),
    {
        push(&mut self.errors, error);
    }

    /// The oldest error. It stays.
    pub fn has_error(&self) -> (error: Option<String>)
        ensures
            match error {
                Some(text) => self@.errors.len() > 0 && text@ == self@.errors[0]@,
                None => self@.errors.len() == 0,
            },
    {
        if self.errors.len() > 0 {
            Some(self.errors[0].clone())
        } else {
            None
        }
    }

    pub fn set_shutdown(&mut self)
        ensures
            final(self)@ == (QueuesView { shutdown: true, ..old(self)@ }),
    {
        self.shutdown = true;
    }

    pub fn is_shutdown(&self) -> (yes: bool)
        ensures
            yes == self@.shutdown,
    {
        self.shutdown
    }

    /// Notes that the last connection is being established: from then on the relay may hang up.
    pub fn set_letzte_verbindung(&mut self)
        ensures
            final(self)@ == (QueuesView { last_connection: true, ..old(self)@ }),
    {
        self.last_connection = true;
    }

    pub fn ist_letzte_verbindung(&self) -> (yes: bool)
        ensures
            yes == self@.last_connection,
    {
        self.last_connection
    }
}

/// The ports of several lists, one list after the other.
pub open spec fn all_ports(lists: Seq<Vec<u16>>) -> Seq<u16>
    decreases lists.len(),
{
    if lists.len() == 0 {
        Seq::empty()
    } else {
        all_ports(lists.drop_last()) + lists.last()@
    }
}

/// A message that comes in for a connection that has none waiting is the next one to come out, and
/// taking it leaves the queue as it was, if the queue was not full.
pub proof fn law_push_then_pop<T>(queue: Seq<(u32, T)>, conn_num: u32, item: T)
    requires
        queue.len() < MAX_QUEUE_SIZE,
        position(queue, conn_num) is None,
    ensures
        popped(pushed(queue, (conn_num, item)), conn_num) == (Some(item), queue),
{
    let more = pushed(queue, (conn_num, item));
    lemma_position(queue, conn_num);
    lemma_position(more, conn_num);
    assert(more[queue.len() as int].0 == conn_num);
    match position(more, conn_num) {
        Some(i) => {
            if i < queue.len() {
                assert(queue[i].0 == conn_num);
            }
            assert(more.remove(i) =~= queue);
        },
        None => {},
    }
}

/// Messages for a connection come out in the order in which they came in, and taking one for a
/// connection leaves those for all other connections in their order.
pub proof fn law_messages_stay_in_order<T>(
    queue: Seq<(u32, T)>,
    conn_num: u32,
    other: u32,
)
    requires
        position(queue, conn_num) is Some,
    ensures
        other != conn_num ==> for_connection(popped(queue, conn_num).1, other) == for_connection(
            queue,
            other,
        ),
        for_connection(queue, conn_num).len() > 0,
        popped(queue, conn_num).0 == Some(for_connection(queue, conn_num)[0]),
        for_connection(popped(queue, conn_num).1, conn_num) == for_connection(
            queue,
            conn_num,
        ).skip(1),
{
    lemma_position(queue, conn_num);
    let i = position(queue, conn_num).unwrap();
    let (front, back) = (queue.take(i), queue.skip(i + 1));
    assert(queue =~= front + seq![queue[i]] + back);
    assert(queue.remove(i) =~= front + back);
    lemma_for_connection_adds(front + seq![queue[i]], back, other);
    lemma_for_connection_adds(front, seq![queue[i]], other);
    lemma_for_connection_adds(front, back, other);
    lemma_for_connection_adds(front + seq![queue[i]], back, conn_num);
    lemma_for_connection_adds(front, seq![queue[i]], conn_num);
    lemma_for_connection_adds(front, back, conn_num);
    lemma_for_connection_one(queue[i], other);
    lemma_for_connection_one(queue[i], conn_num);
    lemma_for_connection_none(front, conn_num);
    let all = for_connection(queue, conn_num);
    assert(all =~= seq![queue[i].1] + for_connection(back, conn_num));
    assert(all.skip(1) =~= for_connection(back, conn_num));
    assert(for_connection(front, other) + Seq::<T>::empty() =~= for_connection(front, other));
    assert(Seq::<T>::empty() + for_connection(back, conn_num) =~= for_connection(back, conn_num));
}

/// The message that is taken for a connection is the first one for it: none before it is for that
/// connection, and the others stay as they are. Without one for it, nothing is taken.
pub proof fn law_first_message_is_taken<T>(queue: Seq<(u32, T)>, conn_num: u32, i: int)
    requires
        0 <= i < queue.len(),
        queue[i].0 == conn_num,
        forall|k: int| 0 <= k < i ==> (#[trigger] queue[k]).0 != conn_num,
    ensures
        popped(queue, conn_num) == (Some(queue[i].1), queue.take(i) + queue.skip(i + 1)),
{
    lemma_position(queue, conn_num);
    assert(queue.remove(i) =~= queue.take(i) + queue.skip(i + 1));
}

/// Where no message for a connection waits, none is taken.
pub proof fn law_nothing_is_taken_for_others<T>(queue: Seq<(u32, T)>, conn_num: u32)
    requires
        forall|k: int| 0 <= k < queue.len() ==> (#[trigger] queue[k]).0 != conn_num,
    ensures
        popped(queue, conn_num) == (None::<T>, queue),
{
    lemma_position(queue, conn_num);
}

/// The ports of several lists stand one list after the other, each as it was told.
pub proof fn law_added_ports_are_joined(lists: Seq<Vec<u16>>, more: Vec<u16>)
    ensures
        all_ports(lists.push(more)) == all_ports(lists) + more@,
        all_ports(Seq::empty()) == Seq::<u16>::empty(),
{
    assert(lists.push(more).drop_last() =~= lists);
}

/// The messages for one connection, in their order.
pub open spec fn for_connection<T>(queue: Seq<(u32, T)>, conn_num: u32) -> Seq<T>
    decreases queue.len(),
{
    if queue.len() == 0 {
        Seq::empty()
    } else if queue.last().0 == conn_num {
        for_connection(queue.drop_last(), conn_num).push(queue.last().1)
    } else {
        for_connection(queue.drop_last(), conn_num)
    }
}

proof fn lemma_for_connection_adds<T>(a: Seq<(u32, T)>, b: Seq<(u32, T)>, conn_num: u32)
    ensures
        for_connection(a + b, conn_num) == for_connection(a, conn_num) + for_connection(
            b,
            conn_num,
        ),
    decreases b.len(),
{
    if b.len() == 0 {
        assert(a + b =~= a);
    } else {
        lemma_for_connection_adds(a, b.drop_last(), conn_num);
        assert((a + b).drop_last() =~= a + b.drop_last());
    }
}

proof fn lemma_for_connection_one<T>(item: (u32, T), conn_num: u32)
    ensures
        for_connection(seq![item], conn_num) == if item.0 == conn_num {
            seq![item.1]
        } else {
            Seq::empty()
        },
{
    let one = seq![item];
    assert(one.drop_last() =~= Seq::<(u32, T)>::empty());
    reveal_with_fuel(for_connection, 2);
}

proof fn lemma_for_connection_none<T>(queue: Seq<(u32, T)>, conn_num: u32)
    requires
        forall|k: int| 0 <= k < queue.len() ==> (#[trigger] queue[k]).0 != conn_num,
    ensures
        for_connection(queue, conn_num) == Seq::<T>::empty(),
    decreases queue.len(),
{
    if queue.len() > 0 {
        assert(queue[queue.len() - 1].0 != conn_num);
        assert forall|k: int| 0 <= k < queue.drop_last().len() implies (
        #[trigger] queue.drop_last()[k]).0 != conn_num by {
            assert(queue[k].0 != conn_num);
        }
        lemma_for_connection_none(queue.drop_last(), conn_num);
    }
}

/// No kind of message ever has more than the bound waiting: a further message makes room for
/// itself by pushing out the oldest one, and is the last one then. The others stay in their order.
pub proof fn law_queues_are_bounded<T>(queue: Seq<T>, item: T)
    requires
        queue.len() <= MAX_QUEUE_SIZE,
    ensures
        pushed(queue, item).len() <= MAX_QUEUE_SIZE,
        pushed(queue, item).last() == item,
        queue.len() < MAX_QUEUE_SIZE ==> queue.is_prefix_of(pushed(queue, item)),
        queue.len() < 100 ==> pushed(queue, item).len() == queue.len() + 1,
        queue.len() == 100 ==> pushed(queue, item).len() == 100 && (forall|i: int|
            0 <= i < 99 ==> #[trigger] pushed(queue, item)[i] == queue[i + 1]),
{
    if queue.len() < MAX_QUEUE_SIZE {
        assert(queue =~= pushed(queue, item).subrange(0, queue.len() as int));
    }
}

} // verus!
