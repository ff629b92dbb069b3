//! The decisions of the connector, which asks a worker to reach peers over
//! Tor and hands back the connections that the worker makes. The waiting on
//! channels is done by the caller, which reports each event.
use crate::transport::same_key;
use std::collections::VecDeque;
use vstd::prelude::*;

verus! {

/// The connector's bookkeeping: the peers whose connection is still awaited,
/// and the peers not yet handed to the worker, first in line first.
pub struct ConnectorModel {
    pub peers: Set<[u8; 32]>,
    pub pending: Seq<[u8; 32]>,
}

/// What the caller does next to make progress towards a connection.
#[derive(Debug, PartialEq, Eq, Clone, Copy)]
pub enum ConnectorAction {
    /// No connection is awaited: the wait ends at once.
    Idle,
    /// Hand this peer to the worker, while also waiting for a connection.
    SendKey([u8; 32]),
    /// Wait for the worker to report a connection.
    AwaitResult,
}

/// The action the connector takes in a given state.
pub open spec fn connector_action(m: ConnectorModel) -> ConnectorAction {
    if m.peers.is_empty() {
        ConnectorAction::Idle
    } else if m.pending.len() > 0 {
        ConnectorAction::SendKey(m.pending[0])
    } else {
        ConnectorAction::AwaitResult
    }
}

/// The set of a list of keys.
pub open spec fn key_set(keys: Seq<[u8; 32]>) -> Set<[u8; 32]> {
    Set::new(|s: [u8; 32]| exists|i: int| 0 <= i < keys.len() && #[trigger] keys[i] == s)
}

/// Tracks the peers being connected to.
///
/// The awaited peers are a list with each key once, in place of a
/// `HashSet`: vstd specifies `HashSet` only for element types with a key
/// model, and 32-byte keys have none. The queue is a `VecDeque`.
pub struct Connector {
    peers: Vec<[u8; 32]>,
    pending: VecDeque<[u8; 32]>,
}

impl View for Connector {
    type V = ConnectorModel;

    closed spec fn view(&self) -> ConnectorModel {
        ConnectorModel { peers: key_set(self.peers@), pending: self.pending@ }
    }
}

fn find_key(keys: &Vec<[u8; 32]>, key: &[u8; 32]) -> (r: Option<usize>)
    ensures
        match r {
            Some(i) => i < keys.len() && keys@[i as int] == *key,
            None => forall|i: int| 0 <= i < keys.len() ==> #[trigger] keys@[i] != *key,
        },
{
    let mut i: usize = 0;
    while i < keys.len()
        invariant
            0 <= i <= keys.len(),
            forall|j: int| 0 <= j < i ==> #[trigger] keys@[j] != *key,
        decreases keys.len() - i,
    {
        if same_key(&keys[i], key) {
            return Some(i);
        }
        i = i + 1;
    }
    None
}

impl Connector {
    /// The connector's lists hold each awaited peer once.
    pub closed spec fn wf(&self) -> bool {
        forall|i: int, j: int|
            0 <= i < j < self.peers@.len() ==> #[trigger] self.peers@[i] != #[trigger] self.peers@[j]
    }

    /// No peer awaited.
    pub fn new() -> (c: Self)
        ensures
            c.wf(),
            c@.peers == Set::<[u8; 32]>::empty(),
            c@.pending == Seq::<[u8; 32]>::empty(),
    {
        let c = Connector { peers: Vec::new(), pending: VecDeque::new() };
        assert(key_set(c.peers@) =~= Set::<[u8; 32]>::empty());
        assert(c.pending@ =~= Seq::<[u8; 32]>::empty());
        c
    }

    /// Asks for a connection to `peer`: it is awaited, and queued for the worker.
    pub fn connect_peer(&mut self, peer: [u8; 32])
        requires
            old(self).wf(),
        ensures
            final(self).wf(),
            final(self)@.peers == old(self)@.peers.insert(peer),
            final(self)@.pending == old(self)@.pending.push(peer),
    {
        let found = find_key(&self.peers, &peer);
        if found.is_none() {
            self.peers.push(peer);
            proof {
                assert forall|i: int, j: int| 0 <= i < j < self.peers@.len() implies
                    #[trigger] self.peers@[i] != #[trigger] self.peers@[j] by {
                    if j < old(self).peers@.len() {
                        assert(self.peers@[i] == old(self).peers@[i]);
                        assert(self.peers@[j] == old(self).peers@[j]);
                    } else {
                        assert(self.peers@[i] == old(self).peers@[i]);
                    }
                }
                assert(key_set(self.peers@) =~= key_set(old(self).peers@).insert(peer)) by {
                    assert forall|s: [u8; 32]| key_set(old(self).peers@).insert(peer).contains(s)
                        implies key_set(self.peers@).contains(s) by {
                        if s == peer {
                            assert(self.peers@[self.peers@.len() - 1] == s);
                        } else {
                            let i = choose|i: int|
                                0 <= i < old(self).peers@.len() && #[trigger] old(self).peers@[i]
                                    == s;
                            assert(self.peers@[i] == old(self).peers@[i]);
                        }
                    }
                    assert forall|s: [u8; 32]| key_set(self.peers@).contains(s) implies key_set(
                        old(self).peers@,
                    ).insert(peer).contains(s) by {
                        let i = choose|i: int|
                            0 <= i < self.peers@.len() && #[trigger] self.peers@[i] == s;
                        if i < old(self).peers@.len() {
                            assert(self.peers@[i] == old(self).peers@[i]);
                        }
                    }
                }
            }
        } else {
            proof {
                let i = found->0 as int;
                assert(key_set(self.peers@) =~= key_set(self.peers@).insert(peer)) by {
                    assert(key_set(self.peers@).contains(peer)) by {
                        assert(self.peers@[i] == peer);
                    }
                }
            }
        }
        self.pending.push_back(peer);
        assert(self.pending@ =~= old(self).pending@.push(peer));
    }

    /// Whether some connection is still awaited.
    pub fn has_pending_connections(&self) -> (b: bool)
        ensures
            b == !self@.peers.is_empty(),
    {
        if self.peers.len() == 0 {
            assert(key_set(self.peers@) =~= Set::<[u8; 32]>::empty());
            false
        } else {
            assert(key_set(self.peers@).contains(self.peers@[0]));
            true
        }
    }

    /// What to do next while waiting for a connection.
    pub fn next_action(&self) -> (a: ConnectorAction)
        ensures
            a == connector_action(self@),
    {
        let waiting = self.has_pending_connections();
        if !waiting {
            ConnectorAction::Idle
        } else if self.pending.len() > 0 {
            let k = self.pending[0];
            ConnectorAction::SendKey(k)
        } else {
            ConnectorAction::AwaitResult
        }
    }

    /// The peer at the front of the queue has been handed to the worker.
    pub fn key_sent(&mut self)
        requires
            old(self).wf(),
            old(self)@.pending.len() > 0,
        ensures
            final(self).wf(),
            final(self)@.peers == old(self)@.peers,
            final(self)@.pending == old(self)@.pending.drop_first(),
    {
        self.pending.pop_front();
        assert(self.pending@ =~= old(self).pending@.drop_first());
    }

    /// The worker has finished with `peer`, connected or not: it is no
    /// longer awaited.
    pub fn result_received(&mut self, peer: &[u8; 32])
        requires
            old(self).wf(),
        ensures
            final(self).wf(),
            final(self)@.peers == old(self)@.peers.remove(*peer),
            final(self)@.pending == old(self)@.pending,
    {
        let found = find_key(&self.peers, peer);
        match found {
            Some(i) => {
                self.peers.remove(i);
                proof {
                    let old_peers = old(self).peers@;
                    assert forall|a: int, b: int| 0 <= a < b < self.peers@.len() implies
                        #[trigger] self.peers@[a] != #[trigger] self.peers@[b] by {
                        let oa = if a < i { a } else { a + 1 };
                        let ob = if b < i { b } else { b + 1 };
                        assert(self.peers@[a] == old_peers[oa]);
                        assert(self.peers@[b] == old_peers[ob]);
                    }
                    assert(key_set(self.peers@) =~= key_set(old_peers).remove(*peer)) by {
                        assert forall|s: [u8; 32]| key_set(old_peers).remove(*peer).contains(s)
                            implies key_set(self.peers@).contains(s) by {
                            let j = choose|j: int|
                                0 <= j < old_peers.len() && #[trigger] old_peers[j] == s;
                            assert(j != i);
                            if j < i {
                                assert(self.peers@[j] == old_peers[j]);
                            } else {
                                assert(self.peers@[j - 1] == old_peers[j]);
                            }
                        }
                        assert forall|s: [u8; 32]| key_set(self.peers@).contains(s) implies key_set(
                            old_peers,
                        ).remove(*peer).contains(s) by {
                            let j = choose|j: int|
                                0 <= j < self.peers@.len() && #[trigger] self.peers@[j] == s;
                            let oj = if j < i { j } else { j + 1 };
                            assert(self.peers@[j] == old_peers[oj]);
                            assert(oj != i);
                        }
                    }
                }
            },
            None => {
                proof {
                    assert(key_set(self.peers@) =~= key_set(self.peers@).remove(*peer));
                }
            },
        }
    }
}

/// Once a peer has been asked for, a connection is awaited until the worker
/// reports on that peer.
pub proof fn law_requested_peer_is_awaited(m: ConnectorModel, peer: [u8; 32])
    ensures
        !m.peers.insert(peer).is_empty(),
        connector_action(ConnectorModel { peers: m.peers.insert(peer), pending: m.pending.push(peer) }) != ConnectorAction::Idle,
{
    assert(m.peers.insert(peer).contains(peer));
}

/// A report on a peer ends the wait for it, and for no other peer.
pub proof fn law_result_ends_only_its_wait(m: ConnectorModel, peer: [u8; 32], other: [u8; 32])
    requires
        peer != other,
    ensures
        !m.peers.remove(peer).contains(peer),
        m.peers.remove(peer).contains(other) == m.peers.contains(other),
{
}


/// The worker's outbox: whether a finished connection is being handed back,
/// and the finished connections waiting their turn.
pub struct WorkerModel<T> {
    pub sending: bool,
    pub queue: Seq<T>,
}

/// A connection attempt has finished: it is handed back at once when nothing
/// else is being handed back, and else waits at the back of the queue.
pub open spec fn worker_attempt_finished<T>(w: WorkerModel<T>, item: T) -> (WorkerModel<T>, Option<T>) {
    if !w.sending {
        (WorkerModel { sending: true, queue: w.queue }, Some(item))
    } else {
        (WorkerModel { sending: true, queue: w.queue.push(item) }, None)
    }
}

/// A hand-back has completed: the connection that waited last goes next.
pub open spec fn worker_send_finished<T>(w: WorkerModel<T>) -> (WorkerModel<T>, Option<T>) {
    if w.queue.len() == 0 {
        (WorkerModel { sending: false, queue: w.queue }, None)
    } else {
        (WorkerModel { sending: true, queue: w.queue.drop_last() }, Some(w.queue.last()))
    }
}

/// The worker's side of the connector: it hands finished connections back one
/// at a time, and holds the others meanwhile.
pub struct ConnectorWorker<T> {
    sending: bool,
    queue: VecDeque<T>,
}

impl<T> View for ConnectorWorker<T> {
    type V = WorkerModel<T>;

    closed spec fn view(&self) -> WorkerModel<T> {
        WorkerModel { sending: self.sending, queue: self.queue@ }
    }
}

impl<T> ConnectorWorker<T> {
    /// Nothing to hand back.
    pub fn new() -> (w: Self)
        ensures
            !w@.sending,
            w@.queue == Seq::<T>::empty(),
    {
        ConnectorWorker { sending: false, queue: VecDeque::new() }
    }

    /// A connection attempt has finished. It is handed back at once when
    /// nothing else is being handed back (the result is that connection),
    /// and else it waits at the back of the queue (the result is none).
    pub fn attempt_finished(&mut self, item: T) -> (send_now: Option<T>)
        ensures
            (final(self)@, send_now) == worker_attempt_finished(old(self)@, item),
    {
        if !self.sending {
            self.sending = true;
            Some(item)
        } else {
            self.queue.push_back(item);
            None
        }
    }

    /// A hand-back has completed. The connection that waited last is handed
    /// back next, if any.
    pub fn send_finished(&mut self) -> (send_now: Option<T>)
        ensures
            (final(self)@, send_now) == worker_send_finished(old(self)@),
    {
        match self.queue.pop_back() {
            Some(item) => {
                self.sending = true;
                Some(item)
            },
            None => {
                self.sending = false;
                None
            },
        }
    }
}

/// A finished connection is never lost: it is handed back at once or held in
/// the queue.
pub proof fn law_finished_connection_is_kept<T>(w: WorkerModel<T>, item: T)
    ensures
        ({
            let (after, send_now) = worker_attempt_finished(w, item);
            &&& send_now == Some(item) || after.queue.last() == item
            &&& after.queue.len() + (if send_now is Some { 1int } else { 0 }) == w.queue.len() + 1
            &&& after.sending
        }),
{
}

/// While connections wait in the queue, a completed hand-back always starts
/// the next one, so the queue drains one connection per hand-back.
pub proof fn law_queue_drains<T>(w: WorkerModel<T>)
    requires
        w.queue.len() > 0,
    ensures
        worker_send_finished(w).1 is Some,
        worker_send_finished(w).0.queue.len() == w.queue.len() - 1,
        worker_send_finished(w).0.sending,
{
}

} // verus!
