//! Setting up: registering message types and making the connections that
//! carry their channels.

use vstd::prelude::*;
use renet::{RenetClient, RenetServer};
use crate::channel_map::{triple_of, ChannelMap, RegisterError, MAX_TYPES};
use crate::delivery::ReceiverMap;
use crate::message::Channel;
use crate::transport::{
    client_channels,
    client_inbox,
    client_limit,
    client_open,
    client_outbox,
    new_client,
    new_server,
    server_channels,
    server_clients,
    server_inbox,
    server_limit,
    server_outbox,
    setup_ids,
};

verus! {

/// How many bytes a connection may send in one tick.
pub const AVAILABLE_BYTES_PER_TICK: u64 = 60000;

/// After how many milliseconds a reliable channel sends an unacknowledged
/// message again.
pub const RESEND_MILLIS: u64 = 0;

/// The channels told to the transport are the channel ids in use, each
/// once.
pub proof fn lemma_setups_cover_ids(channel_map: &ChannelMap)
    requires
        channel_map.wf(),
    ensures
        setup_ids(channel_map.setups()).no_duplicates(),
        setup_ids(channel_map.setups()).to_set() == channel_map.ids(),
{
    let ids = setup_ids(channel_map.setups());
    assert forall|i: int| 0 <= i < ids.len() implies #[trigger] ids[i] == i as u8 by {}
    assert forall|id: u8| channel_map.ids().contains(id) implies ids.to_set().contains(id) by {
        assert(ids[id as int] == id);
    }
    assert(ids.to_set() =~= channel_map.ids());
}

/// Registers the message type `T` with the buffered-bytes bound of its
/// channels: it gets the next three channel ids and an empty delivery
/// queue. A type that is already registered is refused, and so is a new
/// type once the table is full; a refused call changes nothing.
pub fn register_channel<T: Channel>(
    channel_map: &mut ChannelMap,
    rec_map: &mut ReceiverMap,
    max_memory_usage_bytes: usize,
) -> (registered: Result<[u8; 3], RegisterError>)
    requires
        old(channel_map).wf(),
        old(rec_map).wf(),
        old(rec_map).names() == old(channel_map).names(),
    ensures
        final(channel_map).wf(),
        final(rec_map).wf(),
        final(rec_map).names() == final(channel_map).names(),
        match registered {
            Ok(ids) => {
                &&& !old(channel_map).contains(T::NAME@)
                &&& old(channel_map).names().len() < MAX_TYPES
                &&& final(channel_map).names() == old(channel_map).names().push(T::NAME@)
                &&& final(channel_map).bounds() == old(channel_map).bounds().push(
                    max_memory_usage_bytes,
                )
                &&& final(rec_map).queues() == old(rec_map).queues().push(Seq::<Seq<u8>>::empty())
                &&& final(channel_map).contains(T::NAME@)
                &&& final(channel_map).position(T::NAME@) == old(channel_map).names().len()
                &&& ids@ == triple_of(old(channel_map).names().len() as int)
            },
            Err(RegisterError::Duplicate) => {
                &&& old(channel_map).contains(T::NAME@)
                &&& *final(channel_map) == *old(channel_map)
                &&& *final(rec_map) == *old(rec_map)
            },
            Err(RegisterError::TooManyTypes) => {
                &&& !old(channel_map).contains(T::NAME@)
                &&& old(channel_map).names().len() >= MAX_TYPES
                &&& *final(channel_map) == *old(channel_map)
                &&& *final(rec_map) == *old(rec_map)
            },
        },
{
    match channel_map.register(T::NAME, max_memory_usage_bytes) {
        Ok(ids) => {
            rec_map.add_queue(T::NAME);
            Ok(ids)
        },
        Err(refused) => Err(refused),
    }
}

/// Makes a client connection with the channels of the registered types,
/// each with the bound of its type. It starts open, with nothing received
/// and nothing queued.
pub fn connect(channel_map: &ChannelMap) -> (client: RenetClient)
    requires
        channel_map.wf(),
    ensures
        client_channels(client) == channel_map.ids(),
        client_open(client),
        forall|id: u8|
            channel_map.ids().contains(id) ==> #[trigger] client_limit(client, id)
                == channel_map.bounds()[id as int / 3],
        forall|id: u8| #[trigger] client_inbox(client, id).len() == 0,
        forall|id: u8| #[trigger] client_outbox(client, id).len() == 0,
{
    let setups = channel_map.connection_channels();
    proof {
        lemma_setups_cover_ids(channel_map);
    }
    let client = new_client(AVAILABLE_BYTES_PER_TICK, RESEND_MILLIS, &setups);
    proof {
        assert forall|id: u8| channel_map.ids().contains(id) implies #[trigger] client_limit(
            client,
            id,
        ) == channel_map.bounds()[id as int / 3] by {
            assert(setups@[id as int].channel_id == id);
        }
    }
    client
}

/// Makes a server that gives each client the channels of the registered
/// types, each with the bound of its type. It starts without clients.
pub fn serve(channel_map: &ChannelMap) -> (server: RenetServer)
    requires
        channel_map.wf(),
    ensures
        server_channels(server) == channel_map.ids(),
        forall|id: u8|
            channel_map.ids().contains(id) ==> #[trigger] server_limit(server, id)
                == channel_map.bounds()[id as int / 3],
        server_clients(server) == Set::<u64>::empty(),
        forall|client_id: u64, id: u8| #[trigger] server_inbox(server, client_id, id).len() == 0,
        forall|client_id: u64, id: u8| #[trigger] server_outbox(server, client_id, id).len() == 0,
{
    let setups = channel_map.connection_channels();
    proof {
        lemma_setups_cover_ids(channel_map);
    }
    let server = new_server(AVAILABLE_BYTES_PER_TICK, RESEND_MILLIS, &setups);
    proof {
        assert forall|id: u8| channel_map.ids().contains(id) implies #[trigger] server_limit(
            server,
            id,
        ) == channel_map.bounds()[id as int / 3] by {
            assert(setups@[id as int].channel_id == id);
        }
    }
    server
}

} // verus!
