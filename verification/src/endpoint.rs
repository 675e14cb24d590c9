//! Typed writers and readers: the view that application code has of one
//! message type's channels and delivery queue.

use vstd::prelude::*;
use core::marker::PhantomData;
use renet::{RenetClient, RenetServer};
use crate::channel_map::{ChannelMap, DeliveryMode};
use crate::delivery::ReceiverMap;
use crate::message::{decode_all, encodes_to, read_as, Channel, Malformed};
use crate::transport::{
    client_accepts,
    client_channels,
    client_inbox,
    client_limit,
    client_open,
    client_outbox,
    client_send,
    server_accepts,
    server_channels,
    server_clients,
    server_clients_id,
    server_inbox,
    server_limit,
    server_outbox,
    server_send,
};

verus! {

/// Takes what waits for the readers of `T`, oldest first, and reads each
/// payload as a `T`. The queue is left empty, so a second call finds only
/// what arrived in between. A payload that does not decode is reported in
/// its place and the others are still read.
pub fn read_queue<T: Channel>(rec_map: &mut ReceiverMap) -> (messages: Vec<Result<T, Malformed>>)
    requires
        old(rec_map).wf(),
        old(rec_map).contains(T::NAME@),
    ensures
        final(rec_map).wf(),
        final(rec_map).names() == old(rec_map).names(),
        final(rec_map).queues() == old(rec_map).queues().update(
            old(rec_map).position(T::NAME@),
            Seq::<Seq<u8>>::empty(),
        ),
        messages@.len() == old(rec_map).waiting(T::NAME@).len(),
        forall|i: int|
            0 <= i < messages@.len() ==> read_as(
                old(rec_map).waiting(T::NAME@)[i],
                #[trigger] messages@[i],
            ),
{
    let payloads = rec_map.drain(T::NAME).unwrap();
    decode_all::<T>(payloads)
}

/// What a writer hands to the transport for `data` in the mode
/// `send_type`: the channel that carries `T` in that mode, and the bytes
/// that `T`'s codec gives for `data`.
pub fn outgoing<T: Channel>(channel_map: &ChannelMap, data: &T, send_type: DeliveryMode) -> (out: (
    u8,
    Vec<u8>,
))
    requires
        channel_map.wf(),
        channel_map.contains(T::NAME@),
    ensures
        out.0 == channel_map.channel_of(T::NAME@, send_type),
        channel_map.ids().contains(out.0),
        encodes_to(*data, out.1@),
{
    let channel_id = channel_map.channel_id(T::NAME, send_type);
    let bytes = data.encode();
    (channel_id, bytes)
}

/// Sends messages of type `T` from a client to the server.
pub struct ClientChannelWriter<'w, T: Channel> {
    pub client: &'w mut RenetClient,
    pub channel_map: &'w ChannelMap,
    pub phantom: PhantomData<T>,
}

impl<'w, T: Channel> ClientChannelWriter<'w, T> {
    /// Encodes `data` and hands it to the connection on the channel that
    /// carries `T` in the mode `send_type`. An open connection whose
    /// channel has room for the bytes within its bound puts them at the end
    /// of what the channel holds for sending. Otherwise nothing is queued:
    /// a closed connection takes nothing, a full unreliable channel drops
    /// the bytes, and a full reliable channel closes the connection, which
    /// then hands out nothing more.
    pub fn send(&mut self, data: T, send_type: DeliveryMode)
        requires
            old(self).channel_map.wf(),
            old(self).channel_map.contains(T::NAME@),
            old(self).channel_map.ids().subset_of(client_channels(*old(self).client)),
        ensures
            final(self).channel_map == old(self).channel_map,
            *final(final(self).client) == *final(old(self).client),
            client_channels(*final(self).client) == client_channels(*old(self).client),
            forall|id: u8|
                #[trigger] client_limit(*final(self).client, id) == client_limit(
                    *old(self).client,
                    id,
                ),
            forall|id: u8|
                id != old(self).channel_map.channel_of(T::NAME@, send_type)
                    ==> #[trigger] client_outbox(*final(self).client, id) == client_outbox(
                    *old(self).client,
                    id,
                ),
            ({
                let id = old(self).channel_map.channel_of(T::NAME@, send_type);
                let queued = client_outbox(*old(self).client, id);
                exists|bytes: Seq<u8>|
                    {
                        &&& #[trigger] encodes_to(data, bytes)
                        &&& client_outbox(*final(self).client, id) == if client_accepts(
                            *old(self).client,
                            id,
                            bytes,
                        ) {
                            queued.push(bytes)
                        } else {
                            queued
                        }
                        &&& client_accepts(*old(self).client, id, bytes) ==> client_open(
                            *final(self).client,
                        )
                    }
            }),
            client_open(*final(self).client) ==> client_open(*old(self).client),
            client_open(*final(self).client) ==> forall|id: u8|
                #[trigger] client_inbox(*final(self).client, id) == client_inbox(
                    *old(self).client,
                    id,
                ),
            !client_open(*final(self).client) ==> forall|id: u8|
                #[trigger] client_inbox(*final(self).client, id).len() == 0,
    {
        let (channel_id, bytes) = outgoing(self.channel_map, &data, send_type);
        let ghost sent = bytes@;
        client_send(self.client, channel_id, bytes);
        assert(encodes_to(data, sent));
    }
}

/// Reads the messages of type `T` that a client has received.
pub struct ClientChannelReader<'w, T: Channel> {
    pub rec_map: &'w mut ReceiverMap,
    pub phantom_data: PhantomData<T>,
}

impl<'w, T: Channel> ClientChannelReader<'w, T> {
    /// Everything that has arrived for `T` since the last call, oldest
    /// first, each payload read as a `T`.
    pub fn read(&mut self) -> (messages: Vec<Result<T, Malformed>>)
        requires
            old(self).rec_map.wf(),
            old(self).rec_map.contains(T::NAME@),
        ensures
            *final(final(self).rec_map) == *final(old(self).rec_map),
            final(self).rec_map.wf(),
            final(self).rec_map.names() == old(self).rec_map.names(),
            final(self).rec_map.queues() == old(self).rec_map.queues().update(
                old(self).rec_map.position(T::NAME@),
                Seq::<Seq<u8>>::empty(),
            ),
            messages@.len() == old(self).rec_map.waiting(T::NAME@).len(),
            forall|i: int|
                0 <= i < messages@.len() ==> read_as(
                    old(self).rec_map.waiting(T::NAME@)[i],
                    #[trigger] messages@[i],
                ),
    {
        read_queue::<T>(self.rec_map)
    }
}

/// Sends messages of type `T` from the server to its clients.
pub struct ServerChannelWriter<'w, T: Channel> {
    pub server: &'w mut RenetServer,
    pub channel_map: &'w ChannelMap,
    pub phantom: PhantomData<T>,
}

impl<'w, T: Channel> ServerChannelWriter<'w, T> {
    /// Encodes `data` and hands it to the server for the client
    /// `client_id`, on the channel that carries `T` in the mode
    /// `send_type`. Where that client's connection is open and the channel
    /// has room for the bytes within its bound, they join the end of what
    /// is held for that client on that channel. Otherwise nothing is
    /// queued: an unknown client and a closed connection take nothing, a
    /// full unreliable channel drops the bytes, and a full reliable channel
    /// closes that client's connection. No other client is touched.
    pub fn send(&mut self, data: T, send_type: DeliveryMode, client_id: u64)
        requires
            old(self).channel_map.wf(),
            old(self).channel_map.contains(T::NAME@),
            old(self).channel_map.ids().subset_of(server_channels(*old(self).server)),
        ensures
            final(self).channel_map == old(self).channel_map,
            *final(final(self).server) == *final(old(self).server),
            server_channels(*final(self).server) == server_channels(*old(self).server),
            forall|id: u8|
                #[trigger] server_limit(*final(self).server, id) == server_limit(
                    *old(self).server,
                    id,
                ),
            forall|c: u64, id: u8|
                c != client_id || id != old(self).channel_map.channel_of(T::NAME@, send_type)
                    ==> #[trigger] server_outbox(*final(self).server, c, id) == server_outbox(
                    *old(self).server,
                    c,
                    id,
                ),
            ({
                let id = old(self).channel_map.channel_of(T::NAME@, send_type);
                let queued = server_outbox(*old(self).server, client_id, id);
                exists|bytes: Seq<u8>|
                    {
                        &&& #[trigger] encodes_to(data, bytes)
                        &&& server_outbox(*final(self).server, client_id, id) == if server_accepts(
                            *old(self).server,
                            client_id,
                            id,
                            bytes,
                        ) {
                            queued.push(bytes)
                        } else {
                            queued
                        }
                        &&& server_accepts(*old(self).server, client_id, id, bytes)
                            ==> server_clients(*final(self).server) == server_clients(
                            *old(self).server,
                        )
                    }
            }),
            server_clients(*final(self).server) == server_clients(*old(self).server)
                || server_clients(*final(self).server) == server_clients(
                *old(self).server,
            ).remove(client_id),
            forall|c: u64, id: u8|
                c != client_id ==> #[trigger] server_inbox(*final(self).server, c, id)
                    == server_inbox(*old(self).server, c, id),
            server_clients(*final(self).server).contains(client_id) ==> forall|id: u8|
                #[trigger] server_inbox(*final(self).server, client_id, id) == server_inbox(
                    *old(self).server,
                    client_id,
                    id,
                ),
            !server_clients(*final(self).server).contains(client_id) ==> forall|id: u8|
                #[trigger] server_inbox(*final(self).server, client_id, id).len() == 0,
    {
        let (channel_id, bytes) = outgoing(self.channel_map, &data, send_type);
        let ghost sent = bytes@;
        server_send(self.server, client_id, channel_id, bytes);
        assert(encodes_to(data, sent));
    }

    /// The clients whose connection is open, each once, in no stated
    /// order.
    pub fn clients_id(&self) -> (ids: Vec<u64>)
        ensures
            ids@.no_duplicates(),
            ids@.to_set() == server_clients(*old(self.server)),
    {
        server_clients_id(self.server)
    }
}

/// Reads the messages of type `T` that the server has received.
pub struct ServerChannelReader<'w, T: Channel> {
    pub rec_map: &'w mut ReceiverMap,
    pub phantom_data: PhantomData<T>,
}

impl<'w, T: Channel> ServerChannelReader<'w, T> {
    /// Everything that has arrived for `T` since the last call, oldest
    /// first, each payload read as a `T`.
    pub fn read(&mut self) -> (messages: Vec<Result<T, Malformed>>)
        requires
            old(self).rec_map.wf(),
            old(self).rec_map.contains(T::NAME@),
        ensures
            *final(final(self).rec_map) == *final(old(self).rec_map),
            final(self).rec_map.wf(),
            final(self).rec_map.names() == old(self).rec_map.names(),
            final(self).rec_map.queues() == old(self).rec_map.queues().update(
                old(self).rec_map.position(T::NAME@),
                Seq::<Seq<u8>>::empty(),
            ),
            messages@.len() == old(self).rec_map.waiting(T::NAME@).len(),
            forall|i: int|
                0 <= i < messages@.len() ==> read_as(
                    old(self).rec_map.waiting(T::NAME@)[i],
                    #[trigger] messages@[i],
                ),
    {
        read_queue::<T>(self.rec_map)
    }
}

} // verus!
