//! The transport pump: once per tick it moves every message that is ready
//! on a registered type's channels into that type's delivery queue.

use vstd::prelude::*;
use renet::{RenetClient, RenetServer};
use crate::channel_map::ChannelMap;
use crate::delivery::ReceiverMap;
use crate::transport::{
    client_channels,
    client_inbox,
    client_limit,
    client_open,
    client_outbox,
    client_receive,
    server_channels,
    server_clients,
    server_clients_id,
    server_inbox,
    server_limit,
    server_outbox,
    server_receive,
};

verus! {

/// What a client holds ready for the type at position `k`: the messages of
/// its unreliable channel first, then those of its reliable-unordered
/// channel, then those of its reliable-ordered channel, each in the
/// channel's order.
pub open spec fn client_arrivals(client: RenetClient, k: int) -> Seq<Seq<u8>> {
    client_inbox(client, (3 * k) as u8) + client_inbox(client, (3 * k + 1) as u8) + client_inbox(
        client,
        (3 * k + 2) as u8,
    )
}

/// Moves everything that is ready on one channel to the end of the queue
/// at position `k`.
fn drain_client_channel(client: &mut RenetClient, channel_id: u8, rec_map: &mut ReceiverMap, k: usize)
    requires
        old(rec_map).wf(),
        k < old(rec_map).names().len(),
        client_channels(*old(client)).contains(channel_id),
    ensures
        final(rec_map).wf(),
        final(rec_map).names() == old(rec_map).names(),
        final(rec_map).queues() == old(rec_map).queues().update(
            k as int,
            old(rec_map).queues()[k as int] + client_inbox(*old(client), channel_id),
        ),
        client_channels(*final(client)) == client_channels(*old(client)),
        client_open(*final(client)) == client_open(*old(client)),
        forall|id: u8| #[trigger] client_limit(*final(client), id) == client_limit(*old(client), id),
        forall|id: u8|
            #[trigger] client_outbox(*final(client), id) == client_outbox(*old(client), id),
        forall|id: u8|
            id != channel_id ==> #[trigger] client_inbox(*final(client), id) == client_inbox(
                *old(client),
                id,
            ),
        client_inbox(*final(client), channel_id) == Seq::<Seq<u8>>::empty(),
{
    let ghost ready = client_inbox(*client, channel_id);
    let ghost mut taken: Seq<Seq<u8>> = Seq::empty();
    proof {
        assert(rec_map.queues() =~= old(rec_map).queues().update(
            k as int,
            old(rec_map).queues()[k as int] + taken,
        ));
        assert(taken + client_inbox(*client, channel_id) =~= ready);
    }
    loop
        invariant
            old(rec_map).wf(),
            rec_map.wf(),
            rec_map.names() == old(rec_map).names(),
            k < rec_map.names().len(),
            client_channels(*client) == client_channels(*old(client)),
            client_open(*client) == client_open(*old(client)),
            forall|id: u8| #[trigger] client_limit(*client, id) == client_limit(*old(client), id),
            client_channels(*client).contains(channel_id),
            forall|id: u8| #[trigger] client_outbox(*client, id) == client_outbox(*old(client), id),
            forall|id: u8|
                id != channel_id ==> #[trigger] client_inbox(*client, id) == client_inbox(
                    *old(client),
                    id,
                ),
            ready == client_inbox(*old(client), channel_id),
            taken + client_inbox(*client, channel_id) == ready,
            rec_map.queues() == old(rec_map).queues().update(
                k as int,
                old(rec_map).queues()[k as int] + taken,
            ),
        ensures
            client_inbox(*client, channel_id).len() == 0,
        decreases client_inbox(*client, channel_id).len(),
    {
        let ghost waiting = client_inbox(*client, channel_id);
        match client_receive(client, channel_id) {
            Some(message) => {
                let ghost payload = message@;
                rec_map.push(k, message);
                proof {
                    assert(taken.push(payload) + waiting.drop_first() =~= taken + waiting);
                    assert(old(rec_map).queues()[k as int] + taken.push(payload) =~= (old(
                        rec_map,
                    ).queues()[k as int] + taken).push(payload));
                    taken = taken.push(payload);
                    assert(rec_map.queues() =~= old(rec_map).queues().update(
                        k as int,
                        old(rec_map).queues()[k as int] + taken,
                    ));
                }
            },
            None => {
                break ;
            },
        }
    }
    proof {
        assert(client_inbox(*client, channel_id) =~= Seq::<Seq<u8>>::empty());
        assert(taken =~= ready);
    }
}

/// One tick of a client's pump: for each registered type, in registration
/// order, everything that is ready on its three channels moves to the end
/// of its delivery queue. The pump does not wait: where nothing is ready,
/// nothing moves.
pub fn pump_client(channel_map: &ChannelMap, client: &mut RenetClient, rec_map: &mut ReceiverMap)
    requires
        channel_map.wf(),
        old(rec_map).wf(),
        old(rec_map).names() == channel_map.names(),
        channel_map.ids().subset_of(client_channels(*old(client))),
    ensures
        final(rec_map).wf(),
        final(rec_map).names() == old(rec_map).names(),
        forall|k: int|
            0 <= k < channel_map.names().len() ==> #[trigger] final(rec_map).queues()[k] == old(
                rec_map,
            ).queues()[k] + client_arrivals(*old(client), k),
        client_channels(*final(client)) == client_channels(*old(client)),
        client_open(*final(client)) == client_open(*old(client)),
        forall|id: u8| #[trigger] client_limit(*final(client), id) == client_limit(*old(client), id),
        forall|id: u8|
            #[trigger] client_outbox(*final(client), id) == client_outbox(*old(client), id),
        forall|id: u8|
            #[trigger] client_inbox(*final(client), id) == if channel_map.ids().contains(id) {
                Seq::<Seq<u8>>::empty()
            } else {
                client_inbox(*old(client), id)
            },
{
    let n = channel_map.len();
    let mut k: usize = 0;
    while k < n
        invariant
            channel_map.wf(),
            n == channel_map.names().len(),
            k <= n,
            old(rec_map).wf(),
            rec_map.wf(),
            rec_map.names() == old(rec_map).names(),
            rec_map.names() == channel_map.names(),
            channel_map.ids().subset_of(client_channels(*client)),
            client_channels(*client) == client_channels(*old(client)),
            client_open(*client) == client_open(*old(client)),
            forall|id: u8| #[trigger] client_limit(*client, id) == client_limit(*old(client), id),
            forall|id: u8| #[trigger] client_outbox(*client, id) == client_outbox(*old(client), id),
            forall|j: int|
                0 <= j < k ==> #[trigger] rec_map.queues()[j] == old(rec_map).queues()[j]
                    + client_arrivals(*old(client), j),
            forall|j: int| k <= j < n ==> #[trigger] rec_map.queues()[j] == old(rec_map).queues()[j],
            forall|id: u8|
                #[trigger] client_inbox(*client, id) == if id < 3 * k {
                    Seq::<Seq<u8>>::empty()
                } else {
                    client_inbox(*old(client), id)
                },
        decreases n - k,
    {
        let first: u8 = (3 * k) as u8;
        assert(channel_map.ids().contains(first));
        assert(channel_map.ids().contains((first + 1) as u8));
        assert(channel_map.ids().contains((first + 2) as u8));
        let ghost before = rec_map.queues();
        drain_client_channel(client, first, rec_map, k);
        drain_client_channel(client, first + 1, rec_map, k);
        drain_client_channel(client, first + 2, rec_map, k);
        proof {
            assert(rec_map.queues()[k as int] =~= before[k as int] + client_arrivals(
                *old(client),
                k as int,
            ));
        }
        k += 1;
    }
}

/// What a server holds ready on one channel from `peers`, peer after peer
/// in their order, each peer's messages in the channel's order.
pub open spec fn from_peers(server: RenetServer, peers: Seq<u64>, channel_id: u8) -> Seq<Seq<u8>>
    decreases peers.len(),
{
    if peers.len() == 0 {
        Seq::empty()
    } else {
        from_peers(server, peers.drop_last(), channel_id) + server_inbox(
            server,
            peers.last(),
            channel_id,
        )
    }
}

/// What a server holds ready from `peers` for the type at position `k`:
/// the messages of its unreliable channel first, then those of its
/// reliable-unordered channel, then those of its reliable-ordered channel.
pub open spec fn server_arrivals(server: RenetServer, peers: Seq<u64>, k: int) -> Seq<Seq<u8>> {
    from_peers(server, peers, (3 * k) as u8) + from_peers(server, peers, (3 * k + 1) as u8)
        + from_peers(server, peers, (3 * k + 2) as u8)
}

/// Moves everything that is ready from one client on one channel to the
/// end of the queue at position `k`.
fn drain_server_channel(
    server: &mut RenetServer,
    client_id: u64,
    channel_id: u8,
    rec_map: &mut ReceiverMap,
    k: usize,
)
    requires
        old(rec_map).wf(),
        k < old(rec_map).names().len(),
        server_channels(*old(server)).contains(channel_id),
    ensures
        final(rec_map).wf(),
        final(rec_map).names() == old(rec_map).names(),
        final(rec_map).queues() == old(rec_map).queues().update(
            k as int,
            old(rec_map).queues()[k as int] + server_inbox(*old(server), client_id, channel_id),
        ),
        server_channels(*final(server)) == server_channels(*old(server)),
        forall|id: u8| #[trigger] server_limit(*final(server), id) == server_limit(*old(server), id),
        server_clients(*final(server)) == server_clients(*old(server)),
        forall|c: u64, id: u8|
            #[trigger] server_outbox(*final(server), c, id) == server_outbox(*old(server), c, id),
        forall|c: u64, id: u8|
            c != client_id || id != channel_id ==> #[trigger] server_inbox(*final(server), c, id)
                == server_inbox(*old(server), c, id),
        server_inbox(*final(server), client_id, channel_id) == Seq::<Seq<u8>>::empty(),
{
    let ghost ready = server_inbox(*server, client_id, channel_id);
    let ghost mut taken: Seq<Seq<u8>> = Seq::empty();
    proof {
        assert(rec_map.queues() =~= old(rec_map).queues().update(
            k as int,
            old(rec_map).queues()[k as int] + taken,
        ));
        assert(taken + server_inbox(*server, client_id, channel_id) =~= ready);
    }
    loop
        invariant
            old(rec_map).wf(),
            rec_map.wf(),
            rec_map.names() == old(rec_map).names(),
            k < rec_map.names().len(),
            server_channels(*server) == server_channels(*old(server)),
            forall|id: u8| #[trigger] server_limit(*server, id) == server_limit(*old(server), id),
            server_channels(*server).contains(channel_id),
            server_clients(*server) == server_clients(*old(server)),
            forall|c: u64, id: u8|
                #[trigger] server_outbox(*server, c, id) == server_outbox(*old(server), c, id),
            forall|c: u64, id: u8|
                c != client_id || id != channel_id ==> #[trigger] server_inbox(*server, c, id)
                    == server_inbox(*old(server), c, id),
            ready == server_inbox(*old(server), client_id, channel_id),
            taken + server_inbox(*server, client_id, channel_id) == ready,
            rec_map.queues() == old(rec_map).queues().update(
                k as int,
                old(rec_map).queues()[k as int] + taken,
            ),
        ensures
            server_inbox(*server, client_id, channel_id).len() == 0,
        decreases server_inbox(*server, client_id, channel_id).len(),
    {
        let ghost waiting = server_inbox(*server, client_id, channel_id);
        match server_receive(server, client_id, channel_id) {
            Some(message) => {
                let ghost payload = message@;
                rec_map.push(k, message);
                proof {
                    assert(taken.push(payload) + waiting.drop_first() =~= taken + waiting);
                    assert(old(rec_map).queues()[k as int] + taken.push(payload) =~= (old(
                        rec_map,
                    ).queues()[k as int] + taken).push(payload));
                    taken = taken.push(payload);
                    assert(rec_map.queues() =~= old(rec_map).queues().update(
                        k as int,
                        old(rec_map).queues()[k as int] + taken,
                    ));
                }
            },
            None => {
                break ;
            },
        }
    }
    proof {
        assert(server_inbox(*server, client_id, channel_id) =~= Seq::<Seq<u8>>::empty());
        assert(taken =~= ready);
    }
}

/// Moves everything that is ready on one channel from each of `peers`, in
/// their order, to the end of the queue at position `k`.
fn drain_peers(
    server: &mut RenetServer,
    peers: &Vec<u64>,
    channel_id: u8,
    rec_map: &mut ReceiverMap,
    k: usize,
)
    requires
        old(rec_map).wf(),
        k < old(rec_map).names().len(),
        server_channels(*old(server)).contains(channel_id),
        peers@.no_duplicates(),
    ensures
        final(rec_map).wf(),
        final(rec_map).names() == old(rec_map).names(),
        final(rec_map).queues() == old(rec_map).queues().update(
            k as int,
            old(rec_map).queues()[k as int] + from_peers(*old(server), peers@, channel_id),
        ),
        server_channels(*final(server)) == server_channels(*old(server)),
        forall|id: u8| #[trigger] server_limit(*final(server), id) == server_limit(*old(server), id),
        server_clients(*final(server)) == server_clients(*old(server)),
        forall|c: u64, id: u8|
            #[trigger] server_outbox(*final(server), c, id) == server_outbox(*old(server), c, id),
        forall|c: u64, id: u8|
            #[trigger] server_inbox(*final(server), c, id) == if id == channel_id
                && peers@.contains(c) {
                Seq::<Seq<u8>>::empty()
            } else {
                server_inbox(*old(server), c, id)
            },
{
    let mut i: usize = 0;
    proof {
        assert(peers@.take(0) =~= Seq::<u64>::empty());
        assert(rec_map.queues() =~= old(rec_map).queues().update(
            k as int,
            old(rec_map).queues()[k as int] + from_peers(*old(server), peers@.take(0), channel_id),
        ));
    }
    while i < peers.len()
        invariant
            old(rec_map).wf(),
            rec_map.wf(),
            rec_map.names() == old(rec_map).names(),
            k < rec_map.names().len(),
            peers@.no_duplicates(),
            i <= peers.len(),
            server_channels(*server) == server_channels(*old(server)),
            forall|id: u8| #[trigger] server_limit(*server, id) == server_limit(*old(server), id),
            server_channels(*server).contains(channel_id),
            server_clients(*server) == server_clients(*old(server)),
            forall|c: u64, id: u8|
                #[trigger] server_outbox(*server, c, id) == server_outbox(*old(server), c, id),
            forall|c: u64, id: u8|
                #[trigger] server_inbox(*server, c, id) == if id == channel_id && peers@.take(
                    i as int,
                ).contains(c) {
                    Seq::<Seq<u8>>::empty()
                } else {
                    server_inbox(*old(server), c, id)
                },
            rec_map.queues() == old(rec_map).queues().update(
                k as int,
                old(rec_map).queues()[k as int] + from_peers(
                    *old(server),
                    peers@.take(i as int),
                    channel_id,
                ),
            ),
        decreases peers.len() - i,
    {
        let peer = peers[i];
        let ghost seen = peers@.take(i as int);
        let ghost next = peers@.take(i as int + 1);
        proof {
            assert(!seen.contains(peer)) by {
                if seen.contains(peer) {
                    let j = choose|j: int| 0 <= j < seen.len() && seen[j] == peer;
                    assert(peers@[j] == peers@[i as int]);
                }
            }
            assert(next.drop_last() =~= seen);
            assert(next.last() == peer);
        }
        let ghost here = *server;
        drain_server_channel(server, peer, channel_id, rec_map, k);
        proof {
            let head = old(rec_map).queues()[k as int];
            let from_seen = from_peers(*old(server), seen, channel_id);
            let from_peer = server_inbox(*old(server), peer, channel_id);
            assert(server_inbox(here, peer, channel_id) == from_peer);
            assert(from_peers(*old(server), next, channel_id) == from_seen + from_peer);
            assert((head + from_seen) + from_peer =~= head + (from_seen + from_peer));
            assert(rec_map.queues() =~= old(rec_map).queues().update(
                k as int,
                old(rec_map).queues()[k as int] + from_peers(*old(server), next, channel_id),
            ));
            assert forall|c: u64, id: u8|
                #[trigger] server_inbox(*server, c, id) == if id == channel_id && next.contains(
                    c,
                ) {
                    Seq::<Seq<u8>>::empty()
                } else {
                    server_inbox(*old(server), c, id)
                } by {
                if next.contains(c) {
                    let j = choose|j: int| 0 <= j < next.len() && next[j] == c;
                    if j < i {
                        assert(seen[j] == c);
                    }
                }
                if seen.contains(c) {
                    let j = choose|j: int| 0 <= j < seen.len() && seen[j] == c;
                    assert(next[j] == c);
                }
                assert(next[i as int] == peer);
            }
        }
        i += 1;
    }
    proof {
        assert(peers@.take(i as int) =~= peers@);
    }
}

/// One tick of a server's pump over the clients `peers`, each named once:
/// for each registered type, in registration order, everything that is
/// ready from those clients on its three channels moves to the end of its
/// delivery queue, channel after channel and, within a channel, client
/// after client in the order of `peers`.
pub fn pump_server_from(
    channel_map: &ChannelMap,
    server: &mut RenetServer,
    rec_map: &mut ReceiverMap,
    peers: &Vec<u64>,
)
    requires
        channel_map.wf(),
        old(rec_map).wf(),
        old(rec_map).names() == channel_map.names(),
        channel_map.ids().subset_of(server_channels(*old(server))),
        peers@.no_duplicates(),
    ensures
        final(rec_map).wf(),
        final(rec_map).names() == old(rec_map).names(),
        forall|k: int|
            0 <= k < channel_map.names().len() ==> #[trigger] final(rec_map).queues()[k] == old(
                rec_map,
            ).queues()[k] + server_arrivals(*old(server), peers@, k),
        server_channels(*final(server)) == server_channels(*old(server)),
        forall|id: u8| #[trigger] server_limit(*final(server), id) == server_limit(*old(server), id),
        server_clients(*final(server)) == server_clients(*old(server)),
        forall|c: u64, id: u8|
            #[trigger] server_outbox(*final(server), c, id) == server_outbox(*old(server), c, id),
        forall|c: u64, id: u8|
            #[trigger] server_inbox(*final(server), c, id) == if channel_map.ids().contains(id)
                && peers@.contains(c) {
                Seq::<Seq<u8>>::empty()
            } else {
                server_inbox(*old(server), c, id)
            },
{
    let n = channel_map.len();
    let mut k: usize = 0;
    while k < n
        invariant
            channel_map.wf(),
            n == channel_map.names().len(),
            k <= n,
            old(rec_map).wf(),
            rec_map.wf(),
            rec_map.names() == old(rec_map).names(),
            rec_map.names() == channel_map.names(),
            peers@.no_duplicates(),
            channel_map.ids().subset_of(server_channels(*server)),
            server_channels(*server) == server_channels(*old(server)),
            forall|id: u8| #[trigger] server_limit(*server, id) == server_limit(*old(server), id),
            server_clients(*server) == server_clients(*old(server)),
            forall|c: u64, id: u8|
                #[trigger] server_outbox(*server, c, id) == server_outbox(*old(server), c, id),
            forall|j: int|
                0 <= j < k ==> #[trigger] rec_map.queues()[j] == old(rec_map).queues()[j]
                    + server_arrivals(*old(server), peers@, j),
            forall|j: int| k <= j < n ==> #[trigger] rec_map.queues()[j] == old(rec_map).queues()[j],
            forall|c: u64, id: u8|
                #[trigger] server_inbox(*server, c, id) == if id < 3 * k && peers@.contains(c) {
                    Seq::<Seq<u8>>::empty()
                } else {
                    server_inbox(*old(server), c, id)
                },
        decreases n - k,
    {
        let first: u8 = (3 * k) as u8;
        assert(channel_map.ids().contains(first));
        assert(channel_map.ids().contains((first + 1) as u8));
        assert(channel_map.ids().contains((first + 2) as u8));
        let ghost before = rec_map.queues();
        let ghost entry = *server;
        drain_peers(server, peers, first, rec_map, k);
        let ghost second = *server;
        drain_peers(server, peers, first + 1, rec_map, k);
        let ghost third = *server;
        drain_peers(server, peers, first + 2, rec_map, k);
        proof {
            lemma_from_peers_same(entry, *old(server), peers@, first);
            lemma_from_peers_same(second, *old(server), peers@, (first + 1) as u8);
            lemma_from_peers_same(third, *old(server), peers@, (first + 2) as u8);
            assert(rec_map.queues()[k as int] =~= before[k as int] + server_arrivals(
                *old(server),
                peers@,
                k as int,
            ));
        }
        k += 1;
    }
}

/// Two servers that hold the same messages on a channel hand the same
/// messages out on it.
proof fn lemma_from_peers_same(a: RenetServer, b: RenetServer, peers: Seq<u64>, channel_id: u8)
    requires
        forall|c: u64| #[trigger] server_inbox(a, c, channel_id) == server_inbox(b, c, channel_id),
    ensures
        from_peers(a, peers, channel_id) == from_peers(b, peers, channel_id),
    decreases peers.len(),
{
    if peers.len() > 0 {
        lemma_from_peers_same(a, b, peers.drop_last(), channel_id);
    }
}

/// One tick of a server's pump: the clients whose connection is open are
/// asked for once, and the pump runs over them in the order in which the
/// server names them.
pub fn pump_server(channel_map: &ChannelMap, server: &mut RenetServer, rec_map: &mut ReceiverMap)
    requires
        channel_map.wf(),
        old(rec_map).wf(),
        old(rec_map).names() == channel_map.names(),
        channel_map.ids().subset_of(server_channels(*old(server))),
    ensures
        final(rec_map).wf(),
        final(rec_map).names() == old(rec_map).names(),
        exists|peers: Seq<u64>|
            {
                &&& peers.no_duplicates()
                &&& peers.to_set() == server_clients(*old(server))
                &&& forall|k: int|
                    0 <= k < channel_map.names().len() ==> #[trigger] final(rec_map).queues()[k]
                        == old(rec_map).queues()[k] + server_arrivals(*old(server), peers, k)
            },
        server_channels(*final(server)) == server_channels(*old(server)),
        forall|id: u8| #[trigger] server_limit(*final(server), id) == server_limit(*old(server), id),
        server_clients(*final(server)) == server_clients(*old(server)),
        forall|c: u64, id: u8|
            #[trigger] server_outbox(*final(server), c, id) == server_outbox(*old(server), c, id),
        forall|c: u64, id: u8|
            #[trigger] server_inbox(*final(server), c, id) == if channel_map.ids().contains(id)
                && server_clients(*old(server)).contains(c) {
                Seq::<Seq<u8>>::empty()
            } else {
                server_inbox(*old(server), c, id)
            },
{
    let peers = server_clients_id(server);
    pump_server_from(channel_map, server, rec_map, &peers);
    proof {
        assert forall|c: u64| peers@.contains(c) == server_clients(*old(server)).contains(c) by {
            assert(peers@.to_set().contains(c) == peers@.contains(c));
        }
    }
}

/// The pump keeps the order of each channel: within what is ready for a
/// type, the messages of one channel stand together and in the order in
/// which the channel hands them out, after those of the type's earlier
/// channels.
pub proof fn lemma_client_arrivals_keep_channel_order(client: RenetClient, k: int, offset: int)
    requires
        0 <= offset < 3,
    ensures
        ({
            let ready = client_inbox(client, (3 * k + offset) as u8);
            let before: int = if offset == 0 {
                0
            } else if offset == 1 {
                client_inbox(client, (3 * k) as u8).len() as int
            } else {
                (client_inbox(client, (3 * k) as u8).len() + client_inbox(
                    client,
                    (3 * k + 1) as u8,
                ).len()) as int
            };
            client_arrivals(client, k).subrange(before, before + ready.len()) == ready
        }),
{
    let ready = client_inbox(client, (3 * k + offset) as u8);
    let first = client_inbox(client, (3 * k) as u8);
    let second = client_inbox(client, (3 * k + 1) as u8);
    let third = client_inbox(client, (3 * k + 2) as u8);
    let all = client_arrivals(client, k);
    let a = first.len() as int;
    let b = a + second.len();
    if offset == 0 {
        assert(all.subrange(0, a) =~= first);
    } else if offset == 1 {
        assert(all.subrange(a, b) =~= second);
    } else {
        assert(all.subrange(b, b + third.len()) =~= third);
    }
}

/// The server's pump keeps the order of each client's channel: within
/// what is ready on a channel from `peers`, the messages of the peer at
/// place `i` stand together and in the order in which the channel hands
/// them out, after those of the peers before it.
pub proof fn lemma_from_peers_keeps_channel_order(
    server: RenetServer,
    peers: Seq<u64>,
    channel_id: u8,
    i: int,
)
    requires
        0 <= i < peers.len(),
    ensures
        ({
            let ready = server_inbox(server, peers[i], channel_id);
            let before = from_peers(server, peers.take(i), channel_id).len() as int;
            &&& before + ready.len() <= from_peers(server, peers, channel_id).len()
            &&& from_peers(server, peers, channel_id).subrange(
                before,
                before + ready.len(),
            ) == ready
        }),
    decreases peers.len(),
{
    let ready = server_inbox(server, peers[i], channel_id);
    let front = peers.drop_last();
    let all = from_peers(server, peers, channel_id);
    if i == peers.len() - 1 {
        assert(peers.take(i) =~= front);
        let before = from_peers(server, front, channel_id).len() as int;
        assert(all.subrange(before, before + ready.len()) =~= ready);
    } else {
        lemma_from_peers_keeps_channel_order(server, front, channel_id, i);
        assert(front.take(i) =~= peers.take(i));
        assert(front[i] == peers[i]);
        let before = from_peers(server, peers.take(i), channel_id).len() as int;
        assert(all.subrange(before, before + ready.len()) =~= from_peers(
            server,
            front,
            channel_id,
        ).subrange(before, before + ready.len()));
    }
}

} // verus!
