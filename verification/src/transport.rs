//! The transport: client and server connections of `renet`, which hold the
//! channels and move the bytes. Nothing in this file is proved: each
//! contract says what the connection's own code does.

use vstd::prelude::*;
use renet::{ChannelConfig, ConnectionConfig, RenetClient, RenetServer, SendType};
use std::time::Duration;
use crate::channel_map::{ChannelSetup, DeliveryMode};

verus! {

#[verifier::external_type_specification]
#[verifier::external_body]
pub struct ExRenetClient(renet::RenetClient);

#[verifier::external_type_specification]
#[verifier::external_body]
pub struct ExRenetServer(renet::RenetServer);

/// The channel ids that a client connection was made with.
pub uninterp spec fn client_channels(client: RenetClient) -> Set<u8>;

/// The messages that a client connection holds ready on a channel, in the
/// order in which it hands them out; none where the connection is closed or
/// was not made with the channel.
pub uninterp spec fn client_inbox(client: RenetClient, channel_id: u8) -> Seq<Seq<u8>>;

/// The messages that a client connection holds for sending on a channel,
/// oldest first.
pub uninterp spec fn client_outbox(client: RenetClient, channel_id: u8) -> Seq<Seq<u8>>;

/// Whether a client connection is open. A connection is made open and
/// stays so until it is closed; it never opens again.
pub uninterp spec fn client_open(client: RenetClient) -> bool;

/// How many bytes a client connection may hold for sending on a channel:
/// the bound that the channel was made with.
pub uninterp spec fn client_limit(client: RenetClient, channel_id: u8) -> usize;

/// The channel ids that a server gives each of its connections.
pub uninterp spec fn server_channels(server: RenetServer) -> Set<u8>;

/// The ids of the clients whose connection to a server is open.
pub uninterp spec fn server_clients(server: RenetServer) -> Set<u64>;

/// The messages that a server holds ready from a client on a channel, in
/// the order in which it hands them out; none where the client is unknown
/// or its connection closed.
pub uninterp spec fn server_inbox(server: RenetServer, client_id: u64, channel_id: u8) -> Seq<
    Seq<u8>,
>;

/// The messages that a server holds for sending to a client on a channel,
/// oldest first.
pub uninterp spec fn server_outbox(server: RenetServer, client_id: u64, channel_id: u8) -> Seq<
    Seq<u8>,
>;

/// How many bytes a server may hold for sending to one client on a
/// channel: the bound that the channel was made with.
pub uninterp spec fn server_limit(server: RenetServer, channel_id: u8) -> usize;

/// How many bytes `messages` hold together.
pub open spec fn held_bytes(messages: Seq<Seq<u8>>) -> nat
    decreases messages.len(),
{
    if messages.len() == 0 {
        0
    } else {
        held_bytes(messages.drop_last()) + messages.last().len()
    }
}

/// Whether a client connection takes `message` for sending on a channel:
/// it does while it is open and the channel, with the message, holds no
/// more bytes than its bound.
pub open spec fn client_accepts(client: RenetClient, channel_id: u8, message: Seq<u8>) -> bool {
    &&& client_open(client)
    &&& held_bytes(client_outbox(client, channel_id)) + message.len() <= client_limit(
        client,
        channel_id,
    )
}

/// Whether a server takes `message` for sending to a client on a channel:
/// it does while the client's connection is open and the channel, with the
/// message, holds no more bytes for that client than its bound.
pub open spec fn server_accepts(
    server: RenetServer,
    client_id: u64,
    channel_id: u8,
    message: Seq<u8>,
) -> bool {
    &&& server_clients(server).contains(client_id)
    &&& held_bytes(server_outbox(server, client_id, channel_id)) + message.len() <= server_limit(
        server,
        channel_id,
    )
}

/// The channel ids of `setups`.
pub open spec fn setup_ids(setups: Seq<ChannelSetup>) -> Seq<u8> {
    setups.map_values(|s: ChannelSetup| s.channel_id)
}

/// `RenetClient::new`, with the same channels in both directions. The
/// constructor asserts that no channel id occurs twice; the connection
/// starts open, with those channels and their bounds, and with nothing
/// received or queued.
#[verifier::external_body]
pub(crate) fn new_client(
    available_bytes_per_tick: u64,
    resend_millis: u64,
    setups: &Vec<ChannelSetup>,
) -> (client: RenetClient)
    requires
        setup_ids(setups@).no_duplicates(),
    ensures
        client_channels(client) == setup_ids(setups@).to_set(),
        client_open(client),
        forall|i: int|
            0 <= i < setups@.len() ==> client_limit(client, #[trigger] setups@[i].channel_id)
                == setups@[i].max_memory_usage_bytes,
        forall|id: u8| #[trigger] client_inbox(client, id).len() == 0,
        forall|id: u8| #[trigger] client_outbox(client, id).len() == 0,
{
    let resend_time = Duration::from_millis(resend_millis);
    let channels: Vec<ChannelConfig> = setups.iter().map(|s| ChannelConfig {
        channel_id: s.channel_id,
        max_memory_usage_bytes: s.max_memory_usage_bytes,
        send_type: match s.mode {
            DeliveryMode::Unreliable => SendType::Unreliable,
            DeliveryMode::ReliableUnordered => SendType::ReliableUnordered { resend_time },
            DeliveryMode::ReliableOrdered => SendType::ReliableOrdered { resend_time },
        },
    }).collect();
    let server_channels_config = channels.clone();
    RenetClient::new(ConnectionConfig { available_bytes_per_tick, server_channels_config, client_channels_config: channels })
}

/// `RenetClient::receive_message`, which panics on a channel that the
/// connection was not made with. It hands out the first ready message of
/// the channel and keeps the rest, or `None` when none is ready; what is
/// held for sending stays, and the connection stays open or closed.
#[verifier::external_body]
pub(crate) fn client_receive(client: &mut RenetClient, channel_id: u8) -> (message: Option<Vec<u8>>)
    requires
        client_channels(*old(client)).contains(channel_id),
    ensures
        client_channels(*final(client)) == client_channels(*old(client)),
        client_open(*final(client)) == client_open(*old(client)),
        forall|id: u8| #[trigger] client_limit(*final(client), id) == client_limit(*old(client), id),
        forall|id: u8|
            #[trigger] client_outbox(*final(client), id) == client_outbox(*old(client), id),
        forall|id: u8|
            id != channel_id ==> #[trigger] client_inbox(*final(client), id) == client_inbox(
                *old(client),
                id,
            ),
        match message {
            Some(m) => {
                &&& client_inbox(*old(client), channel_id).len() > 0
                &&& m@ == client_inbox(*old(client), channel_id).first()
                &&& client_inbox(*final(client), channel_id) == client_inbox(
                    *old(client),
                    channel_id,
                ).drop_first()
            },
            None => {
                &&& client_inbox(*old(client), channel_id).len() == 0
                &&& client_inbox(*final(client), channel_id).len() == 0
            },
        },
{
    client.receive_message(channel_id).map(|bytes| bytes.to_vec())
}

/// `RenetClient::send_message`, which panics on a channel that the
/// connection was not made with. A closed connection takes nothing. An
/// open one counts the bytes that the channel holds for sending: where
/// they stay within the channel's bound with the message, the message
/// joins the end of what the channel holds; where not, an unreliable
/// channel drops the message and a reliable channel closes the
/// connection. A closed connection hands out nothing more.
#[verifier::external_body]
pub(crate) fn client_send(client: &mut RenetClient, channel_id: u8, message: Vec<u8>)
    requires
        client_channels(*old(client)).contains(channel_id),
    ensures
        client_channels(*final(client)) == client_channels(*old(client)),
        forall|id: u8| #[trigger] client_limit(*final(client), id) == client_limit(*old(client), id),
        forall|id: u8|
            id != channel_id ==> #[trigger] client_outbox(*final(client), id) == client_outbox(
                *old(client),
                id,
            ),
        client_outbox(*final(client), channel_id) == if client_accepts(
            *old(client),
            channel_id,
            message@,
        ) {
            client_outbox(*old(client), channel_id).push(message@)
        } else {
            client_outbox(*old(client), channel_id)
        },
        client_accepts(*old(client), channel_id, message@) ==> client_open(*final(client)),
        client_open(*final(client)) ==> client_open(*old(client)),
        client_open(*final(client)) ==> forall|id: u8|
            #[trigger] client_inbox(*final(client), id) == client_inbox(*old(client), id),
        !client_open(*final(client)) ==> forall|id: u8|
            #[trigger] client_inbox(*final(client), id).len() == 0,
{
    client.send_message(channel_id, message)
}

/// `RenetServer::new`, with the same channels in both directions. Each
/// connection that the server later accepts is made with these channels,
/// by the constructor that asserts that no channel id occurs twice. The
/// server starts without clients.
#[verifier::external_body]
pub(crate) fn new_server(
    available_bytes_per_tick: u64,
    resend_millis: u64,
    setups: &Vec<ChannelSetup>,
) -> (server: RenetServer)
    requires
        setup_ids(setups@).no_duplicates(),
    ensures
        server_channels(server) == setup_ids(setups@).to_set(),
        server_clients(server) == Set::<u64>::empty(),
        forall|i: int|
            0 <= i < setups@.len() ==> server_limit(server, #[trigger] setups@[i].channel_id)
                == setups@[i].max_memory_usage_bytes,
        forall|client_id: u64, id: u8| #[trigger] server_inbox(server, client_id, id).len() == 0,
        forall|client_id: u64, id: u8| #[trigger] server_outbox(server, client_id, id).len() == 0,
{
    let resend_time = Duration::from_millis(resend_millis);
    let channels: Vec<ChannelConfig> = setups.iter().map(|s| ChannelConfig {
        channel_id: s.channel_id,
        max_memory_usage_bytes: s.max_memory_usage_bytes,
        send_type: match s.mode {
            DeliveryMode::Unreliable => SendType::Unreliable,
            DeliveryMode::ReliableUnordered => SendType::ReliableUnordered { resend_time },
            DeliveryMode::ReliableOrdered => SendType::ReliableOrdered { resend_time },
        },
    }).collect();
    let server_channels_config = channels.clone();
    RenetServer::new(ConnectionConfig { available_bytes_per_tick, server_channels_config, client_channels_config: channels })
}

/// `RenetServer::clients_id`: the clients whose connection is open, each
/// once, in no stated order.
#[verifier::external_body]
pub(crate) fn server_clients_id(server: &RenetServer) -> (ids: Vec<u64>)
    ensures
        ids@.no_duplicates(),
        ids@.to_set() == server_clients(*server),
{
    server.clients_id()
}

/// `RenetServer::receive_message`, which panics on a channel that the
/// server's connections are not made with. It hands out the first ready
/// message of that client and channel and keeps the rest, or `None` when
/// none is ready; the clients and what is held for sending stay.
#[verifier::external_body]
pub(crate) fn server_receive(server: &mut RenetServer, client_id: u64, channel_id: u8) -> (message:
    Option<Vec<u8>>)
    requires
        server_channels(*old(server)).contains(channel_id),
    ensures
        server_channels(*final(server)) == server_channels(*old(server)),
        server_clients(*final(server)) == server_clients(*old(server)),
        forall|id: u8| #[trigger] server_limit(*final(server), id) == server_limit(*old(server), id),
        forall|c: u64, id: u8|
            #[trigger] server_outbox(*final(server), c, id) == server_outbox(*old(server), c, id),
        forall|c: u64, id: u8|
            c != client_id || id != channel_id ==> #[trigger] server_inbox(*final(server), c, id)
                == server_inbox(*old(server), c, id),
        match message {
            Some(m) => {
                &&& server_inbox(*old(server), client_id, channel_id).len() > 0
                &&& m@ == server_inbox(*old(server), client_id, channel_id).first()
                &&& server_inbox(*final(server), client_id, channel_id) == server_inbox(
                    *old(server),
                    client_id,
                    channel_id,
                ).drop_first()
            },
            None => {
                &&& server_inbox(*old(server), client_id, channel_id).len() == 0
                &&& server_inbox(*final(server), client_id, channel_id).len() == 0
            },
        },
{
    server.receive_message(client_id, channel_id).map(|bytes| bytes.to_vec())
}

/// `RenetServer::send_message`, which panics on a channel that the
/// server's connections are not made with. For an unknown client and for
/// one whose connection is closed the server takes nothing. For an open
/// connection it counts the bytes that the channel holds for that client:
/// where they stay within the channel's bound with the message, the
/// message joins the end of what is held; where not, an unreliable channel
/// drops the message and a reliable channel closes that client's
/// connection. No other client is touched.
#[verifier::external_body]
pub(crate) fn server_send(server: &mut RenetServer, client_id: u64, channel_id: u8, message: Vec<u8>)
    requires
        server_channels(*old(server)).contains(channel_id),
    ensures
        server_channels(*final(server)) == server_channels(*old(server)),
        forall|id: u8| #[trigger] server_limit(*final(server), id) == server_limit(*old(server), id),
        forall|c: u64, id: u8|
            c != client_id || id != channel_id ==> #[trigger] server_outbox(*final(server), c, id)
                == server_outbox(*old(server), c, id),
        server_outbox(*final(server), client_id, channel_id) == if server_accepts(
            *old(server),
            client_id,
            channel_id,
            message@,
        ) {
            server_outbox(*old(server), client_id, channel_id).push(message@)
        } else {
            server_outbox(*old(server), client_id, channel_id)
        },
        server_clients(*final(server)) == server_clients(*old(server)) || server_clients(
            *final(server),
        ) == server_clients(*old(server)).remove(client_id),
        server_accepts(*old(server), client_id, channel_id, message@) ==> server_clients(
            *final(server),
        ) == server_clients(*old(server)),
        forall|c: u64, id: u8|
            c != client_id ==> #[trigger] server_inbox(*final(server), c, id) == server_inbox(
                *old(server),
                c,
                id,
            ),
        server_clients(*final(server)).contains(client_id) ==> forall|id: u8|
            #[trigger] server_inbox(*final(server), client_id, id) == server_inbox(
                *old(server),
                client_id,
                id,
            ),
        !server_clients(*final(server)).contains(client_id) ==> forall|id: u8|
            #[trigger] server_inbox(*final(server), client_id, id).len() == 0,
{
    server.send_message(client_id, channel_id, message)
}

} // verus!
