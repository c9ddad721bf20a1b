//! Batching on the client: items for each server wait in a queue until they
//! are sent together as one message, which takes the server's next nonce; a
//! connection start goes alone, after what was waiting.
use vstd::prelude::*;
use vstd::pervasive::VecAdditionalExecFns;
use crate::address::SocksAddress;
use crate::message::{ClientItem, ClientMessage, ClientMessageType, ClientMessageView};

verus! {

/// The items waiting for one server, and the nonce its next message takes.
pub struct ServerQueue {
    pub next_nonce: u64,
    pub items: Vec<ClientMessageType>,
}

/// What a `ServerQueue` denotes.
pub struct QueueView {
    pub next_nonce: u64,
    pub items: Seq<ClientItem>,
}

impl View for ServerQueue {
    type V = QueueView;

    open spec fn view(&self) -> QueueView {
        QueueView { next_nonce: self.next_nonce, items: self.items@.map_values(|m: ClientMessageType| m@) }
    }
}

/// The nonce after `n`, wrapping at `u64::MAX` as the counter does.
pub open spec fn nonce_after(n: u64) -> u64 {
    if n == u64::MAX {
        0
    } else {
        (n + 1) as u64
    }
}

/// The messages that sending everything waiting on the servers below `k`
/// gives, in server order: one for each server with items waiting, under its
/// next nonce.
pub open spec fn flushed_up_to(key: Seq<u8>, qs: Seq<QueueView>, k: int) -> Seq<(usize, ClientMessageView)>
    decreases k,
{
    if k <= 0 {
        seq![]
    } else if qs[k - 1].items.len() == 0 {
        flushed_up_to(key, qs, k - 1)
    } else {
        flushed_up_to(key, qs, k - 1).push(
            (
                (k - 1) as usize,
                ClientMessageView { client_public_key: key, nonce: qs[k - 1].next_nonce, messages: qs[k - 1].items },
            ),
        )
    }
}

/// A queue once what waited has been sent: empty, and its nonce moved on
/// when a message was sent.
pub open spec fn queue_after_flush(q: QueueView) -> QueueView {
    QueueView {
        next_nonce: if q.items.len() == 0 {
            q.next_nonce
        } else {
            nonce_after(q.next_nonce)
        },
        items: seq![],
    }
}

/// The queues of all servers, by server index. Servers are numbered
/// densely from 0 by their place in the configuration, so a `Vec` indexed by
/// that number is the map from server to queue; it also fixes the order in
/// which a flush sends, which a hash map would leave open.
pub struct Batcher {
    queues: Vec<ServerQueue>,
}

impl View for Batcher {
    type V = Seq<QueueView>;

    closed spec fn view(&self) -> Seq<QueueView> {
        self.queues@.map_values(|q: ServerQueue| q@)
    }
}

impl Batcher {
    /// Empty queues for `servers` servers, whose first messages take
    /// `first_nonce`.
    pub fn new(servers: usize, first_nonce: u64) -> (r: Self)
        ensures
            r@.len() == servers,
            forall|i: int|
                0 <= i < servers ==> #[trigger] r@[i] == (QueueView {
                    next_nonce: first_nonce,
                    items: seq![],
                }),
    {
        let mut queues: Vec<ServerQueue> = Vec::new();
        let mut k: usize = 0;
        while k < servers
            invariant
                0 <= k <= servers,
                queues@.len() == k,
                forall|i: int|
                    0 <= i < k ==> #[trigger] queues@[i]@ == (QueueView {
                        next_nonce: first_nonce,
                        items: seq![],
                    }),
            decreases servers - k,
        {
            let q = ServerQueue { next_nonce: first_nonce, items: Vec::new() };
            assert(q@.items =~= seq![]);
            queues.push(q);
            k = k + 1;
        }
        Batcher { queues }
    }

    /// How many servers there are.
    pub fn servers(&self) -> (r: usize)
        ensures
            r == self@.len(),
    {
        self.queues.len()
    }

    /// Whether no item waits.
    pub fn is_empty(&self) -> (r: bool)
        ensures
            r == (forall|i: int| 0 <= i < self@.len() ==> #[trigger] self@[i].items.len() == 0),
    {
        let mut k: usize = 0;
        while k < self.queues.len()
            invariant
                0 <= k <= self.queues@.len(),
                forall|i: int| 0 <= i < k ==> #[trigger] self@[i].items.len() == 0,
            decreases self.queues@.len() - k,
        {
            if self.queues[k].items.len() > 0 {
                assert(self@[k as int].items.len() > 0);
                return false;
            }
            k = k + 1;
        }
        true
    }

    /// Add an item to the queue of `server`, behind what waits there.
    pub fn queue(&mut self, server: usize, item: ClientMessageType)
        requires
            server < old(self)@.len(),
        ensures
            final(self)@ == old(self)@.update(
                server as int,
                QueueView {
                    next_nonce: old(self)@[server as int].next_nonce,
                    items: old(self)@[server as int].items.push(item@),
                },
            ),
    {
        let mut q = ServerQueue { next_nonce: 0, items: Vec::new() };
        self.queues.set_and_swap(server, &mut q);
        let ghost before = q@.items;
        q.items.push(item);
        assert(q@.items =~= before.push(item@));
        self.queues.set(server, q);
        assert(self@ =~= old(self)@.update(
            server as int,
            QueueView {
                next_nonce: old(self)@[server as int].next_nonce,
                items: old(self)@[server as int].items.push(item@),
            },
        ));
    }

    /// The nonce of the next message to `server`, which then moves on.
    pub fn take_nonce(&mut self, server: usize) -> (r: u64)
        requires
            server < old(self)@.len(),
        ensures
            r == old(self)@[server as int].next_nonce,
            final(self)@ == old(self)@.update(
                server as int,
                QueueView { next_nonce: nonce_after(r), items: old(self)@[server as int].items },
            ),
    {
        let mut q = ServerQueue { next_nonce: 0, items: Vec::new() };
        self.queues.set_and_swap(server, &mut q);
        let nonce = q.next_nonce;
        q.next_nonce = if nonce == u64::MAX { 0 } else { nonce + 1 };
        self.queues.set(server, q);
        assert(self@ =~= old(self)@.update(
            server as int,
            QueueView { next_nonce: nonce_after(nonce), items: old(self)@[server as int].items },
        ));
        nonce
    }

    /// Send everything that waits: one message per server with items
    /// waiting, in server order, carrying those items in the order they were
    /// queued under the server's next nonce. Every queue is then empty, and
    /// the nonce of each server that got a message has moved on.
    pub fn flush(&mut self, client_public_key: &[u8; 32]) -> (r: Vec<(usize, ClientMessage)>)
        ensures
            r@.map_values(|b: (usize, ClientMessage)| (b.0, b.1@)) == flushed_up_to(
                client_public_key@,
                old(self)@,
                old(self)@.len() as int,
            ),
            final(self)@ == old(self)@.map_values(|q: QueueView| queue_after_flush(q)),
    {
        let ghost qs = self@;
        let mut out: Vec<(usize, ClientMessage)> = Vec::new();
        let n = self.queues.len();
        let mut k: usize = 0;
        while k < n
            invariant
                n == self.queues@.len(),
                qs.len() == n,
                0 <= k <= n,
                out@.map_values(|b: (usize, ClientMessage)| (b.0, b.1@)) == flushed_up_to(
                    client_public_key@,
                    qs,
                    k as int,
                ),
                forall|i: int| 0 <= i < k ==> #[trigger] self@[i] == queue_after_flush(qs[i]),
                forall|i: int| k <= i < n ==> #[trigger] self@[i] == qs[i],
            decreases n - k,
        {
            let ghost done = out@.map_values(|b: (usize, ClientMessage)| (b.0, b.1@));
            assert(self@[k as int] == qs[k as int]);
            let ghost before = self@;
            let ghost before_q = self.queues@;
            if self.queues[k].items.len() > 0 {
                let mut q = ServerQueue { next_nonce: 0, items: Vec::new() };
                self.queues.set_and_swap(k, &mut q);
                let nonce = q.next_nonce;
                let items = q.items;
                let emptied = ServerQueue {
                    next_nonce: if nonce == u64::MAX { 0 } else { nonce + 1 },
                    items: Vec::new(),
                };
                assert(emptied@.items =~= seq![]);
                assert(emptied@ == queue_after_flush(qs[k as int]));
                self.queues.set(k, emptied);
                assert forall|i: int| 0 <= i < n implies #[trigger] self@[i] == (if i == k {
                    queue_after_flush(qs[k as int])
                } else {
                    before[i]
                }) by {
                    if i != k {
                        assert(self.queues@[i] == before_q[i]);
                    }
                }
                let message = ClientMessage { client_public_key: *client_public_key, nonce, messages: items };
                out.push((k, message));
                assert(out@.map_values(|b: (usize, ClientMessage)| (b.0, b.1@)) =~= done.push(
                    (k, message@),
                ));
            } else {
                proof {
                    assert(qs[k as int].items.len() == 0);
                    assert(qs[k as int].items =~= seq![]);
                    assert(queue_after_flush(qs[k as int]) == qs[k as int]);
                }
            }
            k = k + 1;
        }
        assert(self@ =~= qs.map_values(|q: QueueView| queue_after_flush(q)));
        out
    }

    /// Start a connection to `host:port` through `server`: first everything
    /// that waits is sent, as by `flush`; then the start goes alone, under
    /// the server's next nonce.
    pub fn start(
        &mut self,
        client_public_key: &[u8; 32],
        server: usize,
        host: SocksAddress,
        port: u16,
    ) -> (r: (Vec<(usize, ClientMessage)>, ClientMessage))
        requires
            server < old(self)@.len(),
        ensures
            r.0@.map_values(|b: (usize, ClientMessage)| (b.0, b.1@)) == flushed_up_to(
                client_public_key@,
                old(self)@,
                old(self)@.len() as int,
            ),
            r.1@ == (ClientMessageView {
                client_public_key: client_public_key@,
                nonce: queue_after_flush(old(self)@[server as int]).next_nonce,
                messages: seq![ClientItem::StartConnection { host: host@, port }],
            }),
            final(self)@ == old(self)@.map_values(|q: QueueView| queue_after_flush(q)).update(
                server as int,
                QueueView {
                    next_nonce: nonce_after(queue_after_flush(old(self)@[server as int]).next_nonce),
                    items: seq![],
                },
            ),
    {
        let sent = self.flush(client_public_key);
        let nonce = self.take_nonce(server);
        let mut messages: Vec<ClientMessageType> = Vec::new();
        messages.push(ClientMessageType::StartConnection { host, port });
        let message = ClientMessage { client_public_key: *client_public_key, nonce, messages };
        assert(message@.messages =~= seq![ClientItem::StartConnection { host: host@, port }]);
        (sent, message)
    }
}

/// What the client's sending loop is handed: a connection start for a
/// server, or another item (data, close, poll) for a server's queue.
pub enum Outgoing {
    Start { server: usize, host: SocksAddress, port: u16 },
    Item { server: usize, item: ClientMessageType },
}

/// One step of the client's sending loop. An item joins its server's queue
/// and nothing is sent. A start sends everything that waits, as by `flush`,
/// then the start alone under its server's next nonce: the start is the last
/// message returned.
pub fn sender_step(batcher: &mut Batcher, client_public_key: &[u8; 32], event: Outgoing) -> (r: Vec<
    (usize, ClientMessage),
>)
    requires
        match event {
            Outgoing::Start { server, .. } => server < old(batcher)@.len(),
            Outgoing::Item { server, .. } => server < old(batcher)@.len(),
        },
    ensures
        match event {
            Outgoing::Item { server, item } => r@.len() == 0 && final(batcher)@ == old(batcher)@.update(
                server as int,
                QueueView {
                    next_nonce: old(batcher)@[server as int].next_nonce,
                    items: old(batcher)@[server as int].items.push(item@),
                },
            ),
            Outgoing::Start { server, host, port } => r@.map_values(
                |b: (usize, ClientMessage)| (b.0, b.1@),
            ) == flushed_up_to(client_public_key@, old(batcher)@, old(batcher)@.len() as int).push(
                (
                    server,
                    ClientMessageView {
                        client_public_key: client_public_key@,
                        nonce: queue_after_flush(old(batcher)@[server as int]).next_nonce,
                        messages: seq![ClientItem::StartConnection { host: host@, port }],
                    },
                ),
            ) && final(batcher)@ == old(batcher)@.map_values(|q: QueueView| queue_after_flush(q)).update(
                server as int,
                QueueView {
                    next_nonce: nonce_after(queue_after_flush(old(batcher)@[server as int]).next_nonce),
                    items: seq![],
                },
            ),
        },
{
    match event {
        Outgoing::Item { server, item } => {
            batcher.queue(server, item);
            Vec::new()
        },
        Outgoing::Start { server, host, port } => {
            let (mut sent, start) = batcher.start(client_public_key, server, host, port);
            let ghost before = sent@.map_values(|b: (usize, ClientMessage)| (b.0, b.1@));
            sent.push((server, start));
            assert(sent@.map_values(|b: (usize, ClientMessage)| (b.0, b.1@)) =~= before.push(
                (server, start@),
            ));
            sent
        },
    }
}

/// Whether some open connection, given as (server, connection id), goes
/// through server `i`.
pub open spec fn has_connection(connections: Seq<(usize, u64)>, i: usize) -> bool {
    exists|k: int| 0 <= k < connections.len() && #[trigger] connections[k].0 == i
}

/// The servers to poll: each of the `servers` servers through which some
/// connection is open, once, in increasing order.
pub fn servers_to_poll(servers: usize, connections: &Vec<(usize, u64)>) -> (r: Vec<usize>)
    ensures
        forall|a: int, b: int| 0 <= a < b < r@.len() ==> r@[a] < r@[b],
        forall|i: usize| r@.contains(i) <==> (i < servers && has_connection(connections@, i)),
{
    let mut out: Vec<usize> = Vec::new();
    let mut i: usize = 0;
    while i < servers
        invariant
            0 <= i <= servers,
            forall|a: int, b: int| 0 <= a < b < out@.len() ==> out@[a] < out@[b],
            forall|a: int| 0 <= a < out@.len() ==> out@[a] < i,
            forall|j: usize| out@.contains(j) <==> (j < i && has_connection(connections@, j)),
        decreases servers - i,
    {
        let mut found = false;
        let mut k: usize = 0;
        while k < connections.len()
            invariant
                0 <= k <= connections@.len(),
                found <==> exists|m: int| 0 <= m < k && #[trigger] connections@[m].0 == i,
            decreases connections@.len() - k,
        {
            if connections[k].0 == i {
                found = true;
            }
            k = k + 1;
        }
        let ghost before = out@;
        if found {
            out.push(i);
        }
        assert forall|j: usize| out@.contains(j) <==> (j < i + 1 && has_connection(connections@, j)) by {
            if j == i {
                if found {
                    assert(out@[out@.len() - 1] == i);
                } else {
                    assert(!before.contains(j));
                }
            } else if out@.contains(j) {
                let a = choose|a: int| 0 <= a < out@.len() && out@[a] == j;
                if found && a == out@.len() - 1 {
                } else {
                    assert(before[a] == j);
                }
            } else if before.contains(j) {
                let a = choose|a: int| 0 <= a < before.len() && before[a] == j;
                assert(out@[a] == j);
            }
        }
        i = i + 1;
    }
    out
}

/// Nonces a server receives never repeat while its counter does not wrap:
/// after a flush, the nonce of every server that got a message is one past
/// the nonce that message carried.
pub proof fn lemma_flush_moves_nonces(key: Seq<u8>, qs: Seq<QueueView>, k: int, j: int)
    requires
        0 <= k <= qs.len() <= usize::MAX,
        0 <= j < flushed_up_to(key, qs, k).len(),
    ensures
        ({
            let (s, m) = flushed_up_to(key, qs, k)[j];
            &&& s < k
            &&& m.nonce == qs[s as int].next_nonce
            &&& m.messages == qs[s as int].items
            &&& m.messages.len() > 0
            &&& queue_after_flush(qs[s as int]).next_nonce == nonce_after(m.nonce)
        }),
    decreases k,
{
    if k > 0 {
        if qs[k - 1].items.len() == 0 {
            lemma_flush_moves_nonces(key, qs, k - 1, j);
        } else if j < flushed_up_to(key, qs, k - 1).len() {
            lemma_flush_moves_nonces(key, qs, k - 1, j);
        } else {
            assert(flushed_up_to(key, qs, k)[j].0 == (k - 1) as usize);
        }
    }
}

/// Each server gets at most one message from a flush: the servers of the
/// messages strictly increase.
pub proof fn lemma_flush_one_per_server(key: Seq<u8>, qs: Seq<QueueView>, k: int, i: int, j: int)
    requires
        0 <= k <= qs.len() <= usize::MAX,
        0 <= i < j < flushed_up_to(key, qs, k).len(),
    ensures
        flushed_up_to(key, qs, k)[i].0 < flushed_up_to(key, qs, k)[j].0,
    decreases k,
{
    if k > 0 {
        let prev = flushed_up_to(key, qs, k - 1);
        if qs[k - 1].items.len() == 0 {
            lemma_flush_one_per_server(key, qs, k - 1, i, j);
        } else if j < prev.len() {
            lemma_flush_one_per_server(key, qs, k - 1, i, j);
        } else {
            lemma_flush_moves_nonces(key, qs, k - 1, i);
        }
    }
}

} // verus!
