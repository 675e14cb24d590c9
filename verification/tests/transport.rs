use std::marker::PhantomData;

use leknet::channel_map::{ChannelMap, DeliveryMode, RegisterError};
use leknet::delivery::ReceiverMap;
use leknet::endpoint::{
    outgoing, ClientChannelReader, ClientChannelWriter, ServerChannelReader, ServerChannelWriter,
};
use leknet::message::{Channel, Malformed, TestMessage};
use leknet::pump::{pump_client, pump_server, pump_server_from};
use leknet::setup::{connect, register_channel, serve};
use renet::{RenetClient, RenetServer};

#[derive(Debug, Clone, PartialEq)]
struct Ping {
    seq: u32,
}

impl Channel for Ping {
    const NAME: &'static str = "Ping";

    fn encode(&self) -> Vec<u8> {
        bincode::serialize(&self.seq).unwrap()
    }

    fn decode(bytes: &[u8]) -> Option<Self> {
        bincode::deserialize::<u32>(bytes).ok().map(|seq| Ping { seq })
    }
}

#[derive(Debug, Clone, PartialEq)]
struct Note {
    text: String,
}

impl Channel for Note {
    const NAME: &'static str = "Note";

    fn encode(&self) -> Vec<u8> {
        bincode::serialize(&self.text).unwrap()
    }

    fn decode(bytes: &[u8]) -> Option<Self> {
        bincode::deserialize::<String>(bytes).ok().map(|text| Note { text })
    }
}

/// One side of a connection with its tables.
struct Side {
    channel_map: ChannelMap,
    rec_map: ReceiverMap,
}

fn side() -> Side {
    let mut channel_map = ChannelMap::new();
    let mut rec_map = ReceiverMap::new();
    assert_eq!(register_channel::<Ping>(&mut channel_map, &mut rec_map, 1 << 20), Ok([0, 1, 2]));
    assert_eq!(register_channel::<Note>(&mut channel_map, &mut rec_map, 1 << 20), Ok([3, 4, 5]));
    Side { channel_map, rec_map }
}

fn side_with_bound(max_memory_usage_bytes: usize) -> Side {
    let mut channel_map = ChannelMap::new();
    let mut rec_map = ReceiverMap::new();
    assert_eq!(register_channel::<Ping>(&mut channel_map, &mut rec_map, max_memory_usage_bytes), Ok([0, 1, 2]));
    Side { channel_map, rec_map }
}

fn to_server(client: &mut RenetClient, server: &mut RenetServer, client_id: u64) {
    for packet in client.get_packets_to_send() {
        server.process_packet_from(&packet, client_id).unwrap();
    }
}

fn to_client(server: &mut RenetServer, client: &mut RenetClient, client_id: u64) {
    for packet in server.get_packets_to_send(client_id).unwrap() {
        client.process_packet(&packet);
    }
}

fn send_from_client<T: Channel>(client: &mut RenetClient, channel_map: &ChannelMap, data: T, mode: DeliveryMode) {
    ClientChannelWriter::<T> { client, channel_map, phantom: PhantomData }.send(data, mode);
}

fn send_from_server<T: Channel>(
    server: &mut RenetServer,
    channel_map: &ChannelMap,
    data: T,
    mode: DeliveryMode,
    client_id: u64,
) {
    ServerChannelWriter::<T> { server, channel_map, phantom: PhantomData }.send(data, mode, client_id);
}

fn read_on_client<T: Channel>(rec_map: &mut ReceiverMap) -> Vec<Result<T, Malformed>> {
    ClientChannelReader::<T> { rec_map, phantom_data: PhantomData }.read()
}

fn read_on_server<T: Channel>(rec_map: &mut ReceiverMap) -> Vec<Result<T, Malformed>> {
    ServerChannelReader::<T> { rec_map, phantom_data: PhantomData }.read()
}

#[test]
fn registering_a_type_gives_it_channels_and_a_queue() {
    let mut channel_map = ChannelMap::new();
    let mut rec_map = ReceiverMap::new();
    assert_eq!(register_channel::<Ping>(&mut channel_map, &mut rec_map, 64), Ok([0, 1, 2]));
    assert_eq!(register_channel::<TestMessage>(&mut channel_map, &mut rec_map, 64), Ok([3, 4, 5]));
    assert_eq!(register_channel::<Ping>(&mut channel_map, &mut rec_map, 64), Err(RegisterError::Duplicate));
    assert_eq!(channel_map.len(), 2);
    assert_eq!(rec_map.len(), 2);
    assert_eq!(rec_map.find("TestMessage"), Some(1));
    assert_eq!(read_on_client::<TestMessage>(&mut rec_map), vec![]);
}

#[test]
fn a_writer_hands_over_the_channel_of_the_mode_and_the_encoded_bytes() {
    let here = side();
    assert_eq!(outgoing(&here.channel_map, &Ping { seq: 1 }, DeliveryMode::Unreliable), (0, vec![1, 0, 0, 0]));
    assert_eq!(
        outgoing(&here.channel_map, &Ping { seq: 258 }, DeliveryMode::ReliableOrdered),
        (2, vec![2, 1, 0, 0])
    );
    let hi = Note { text: "hi".to_string() };
    assert_eq!(
        outgoing(&here.channel_map, &hi, DeliveryMode::ReliableUnordered),
        (4, vec![2, 0, 0, 0, 0, 0, 0, 0, b'h', b'i'])
    );
}

#[test]
fn a_ping_sent_ordered_is_read_once() {
    let mut here = side();
    let there = side();
    let mut client = connect(&here.channel_map);
    let mut server = serve(&there.channel_map);
    server.add_connection(7);

    send_from_server(&mut server, &there.channel_map, Ping { seq: 1 }, DeliveryMode::ReliableOrdered, 7);
    to_client(&mut server, &mut client, 7);
    assert_eq!(read_on_client::<Ping>(&mut here.rec_map), vec![]);
    pump_client(&here.channel_map, &mut client, &mut here.rec_map);
    assert_eq!(read_on_client::<Ping>(&mut here.rec_map), vec![Ok(Ping { seq: 1 })]);
    assert_eq!(read_on_client::<Ping>(&mut here.rec_map), vec![]);
    pump_client(&here.channel_map, &mut client, &mut here.rec_map);
    assert_eq!(read_on_client::<Ping>(&mut here.rec_map), vec![]);
}

#[test]
fn a_client_reaches_the_server_in_every_mode() {
    let here = side();
    let mut there = side();
    let mut client = connect(&here.channel_map);
    let mut server = serve(&there.channel_map);
    server.add_connection(7);

    send_from_client(&mut client, &here.channel_map, Ping { seq: 1 }, DeliveryMode::Unreliable);
    send_from_client(&mut client, &here.channel_map, Ping { seq: 2 }, DeliveryMode::ReliableUnordered);
    send_from_client(&mut client, &here.channel_map, Ping { seq: 3 }, DeliveryMode::ReliableOrdered);
    send_from_client(&mut client, &here.channel_map, Note { text: "hi".to_string() }, DeliveryMode::ReliableOrdered);
    to_server(&mut client, &mut server, 7);
    pump_server(&there.channel_map, &mut server, &mut there.rec_map);
    assert_eq!(
        read_on_server::<Ping>(&mut there.rec_map),
        vec![Ok(Ping { seq: 1 }), Ok(Ping { seq: 2 }), Ok(Ping { seq: 3 })]
    );
    assert_eq!(read_on_server::<Note>(&mut there.rec_map), vec![Ok(Note { text: "hi".to_string() })]);
    assert_eq!(read_on_server::<Ping>(&mut there.rec_map), vec![]);
}

#[test]
fn one_channel_delivers_in_send_order() {
    let here = side();
    let mut there = side();
    let mut client = connect(&here.channel_map);
    let mut server = serve(&there.channel_map);
    server.add_connection(7);

    for seq in 0..50 {
        send_from_client(&mut client, &here.channel_map, Ping { seq }, DeliveryMode::ReliableOrdered);
        if seq % 7 == 0 {
            to_server(&mut client, &mut server, 7);
            to_client(&mut server, &mut client, 7);
        }
        if seq % 11 == 0 {
            pump_server(&there.channel_map, &mut server, &mut there.rec_map);
        }
    }
    to_server(&mut client, &mut server, 7);
    pump_server(&there.channel_map, &mut server, &mut there.rec_map);
    let expected: Vec<Result<Ping, Malformed>> = (0..50).map(|seq| Ok(Ping { seq })).collect();
    assert_eq!(read_on_server::<Ping>(&mut there.rec_map), expected);
}

#[test]
fn the_pump_takes_everything_that_is_ready() {
    let here = side();
    let mut there = side();
    let mut client = connect(&here.channel_map);
    let mut server = serve(&there.channel_map);
    server.add_connection(7);
    for seq in 0..5 {
        send_from_client(&mut client, &here.channel_map, Ping { seq }, DeliveryMode::Unreliable);
    }
    to_server(&mut client, &mut server, 7);
    pump_server(&there.channel_map, &mut server, &mut there.rec_map);
    assert_eq!(server.receive_message(7, 0u8), None);
    assert_eq!(read_on_server::<Ping>(&mut there.rec_map).len(), 5);
}

#[test]
fn two_producers_lose_and_repeat_nothing() {
    let here = side();
    let mut there = side();
    let mut first = connect(&here.channel_map);
    let mut second = connect(&here.channel_map);
    let mut server = serve(&there.channel_map);
    server.add_connection(1);
    server.add_connection(2);

    let mut seen: Vec<u32> = Vec::new();
    for i in 0..100u32 {
        send_from_client(&mut first, &here.channel_map, Ping { seq: i }, DeliveryMode::ReliableOrdered);
        send_from_client(&mut second, &here.channel_map, Ping { seq: 1000 + i }, DeliveryMode::ReliableOrdered);
        if i % 3 == 0 {
            to_server(&mut first, &mut server, 1);
            to_client(&mut server, &mut first, 1);
        }
        if i % 5 == 0 {
            to_server(&mut second, &mut server, 2);
            to_client(&mut server, &mut second, 2);
        }
        if i % 4 == 0 {
            pump_server(&there.channel_map, &mut server, &mut there.rec_map);
        }
        if i % 6 == 0 {
            seen.extend(read_on_server::<Ping>(&mut there.rec_map).into_iter().map(|m| m.unwrap().seq));
        }
    }
    to_server(&mut first, &mut server, 1);
    to_server(&mut second, &mut server, 2);
    pump_server(&there.channel_map, &mut server, &mut there.rec_map);
    seen.extend(read_on_server::<Ping>(&mut there.rec_map).into_iter().map(|m| m.unwrap().seq));

    assert_eq!(seen.len(), 200);
    let from_first: Vec<u32> = seen.iter().copied().filter(|seq| *seq < 1000).collect();
    let from_second: Vec<u32> = seen.iter().copied().filter(|seq| *seq >= 1000).collect();
    assert_eq!(from_first, (0..100).collect::<Vec<u32>>());
    assert_eq!(from_second, (1000..1100).collect::<Vec<u32>>());
}

#[test]
fn the_server_pump_follows_the_given_peers() {
    let here = side();
    let mut there = side();
    let mut first = connect(&here.channel_map);
    let mut second = connect(&here.channel_map);
    let mut server = serve(&there.channel_map);
    server.add_connection(1);
    server.add_connection(2);
    send_from_client(&mut first, &here.channel_map, Ping { seq: 10 }, DeliveryMode::Unreliable);
    send_from_client(&mut first, &here.channel_map, Ping { seq: 11 }, DeliveryMode::ReliableOrdered);
    send_from_client(&mut second, &here.channel_map, Ping { seq: 20 }, DeliveryMode::Unreliable);
    send_from_client(&mut second, &here.channel_map, Ping { seq: 21 }, DeliveryMode::ReliableOrdered);
    to_server(&mut first, &mut server, 1);
    to_server(&mut second, &mut server, 2);

    pump_server_from(&there.channel_map, &mut server, &mut there.rec_map, &vec![2]);
    assert_eq!(read_on_server::<Ping>(&mut there.rec_map), vec![Ok(Ping { seq: 20 }), Ok(Ping { seq: 21 })]);
    pump_server_from(&there.channel_map, &mut server, &mut there.rec_map, &vec![2, 1, 9]);
    assert_eq!(read_on_server::<Ping>(&mut there.rec_map), vec![Ok(Ping { seq: 10 }), Ok(Ping { seq: 11 })]);
}

#[test]
fn the_server_pump_goes_channel_by_channel() {
    let here = side();
    let mut there = side();
    let mut first = connect(&here.channel_map);
    let mut second = connect(&here.channel_map);
    let mut server = serve(&there.channel_map);
    server.add_connection(1);
    server.add_connection(2);
    send_from_client(&mut first, &here.channel_map, Ping { seq: 12 }, DeliveryMode::ReliableOrdered);
    send_from_client(&mut first, &here.channel_map, Ping { seq: 10 }, DeliveryMode::Unreliable);
    send_from_client(&mut second, &here.channel_map, Ping { seq: 22 }, DeliveryMode::ReliableOrdered);
    send_from_client(&mut second, &here.channel_map, Ping { seq: 20 }, DeliveryMode::Unreliable);
    to_server(&mut first, &mut server, 1);
    to_server(&mut second, &mut server, 2);
    pump_server_from(&there.channel_map, &mut server, &mut there.rec_map, &vec![2, 1]);
    assert_eq!(
        read_on_server::<Ping>(&mut there.rec_map),
        vec![Ok(Ping { seq: 20 }), Ok(Ping { seq: 10 }), Ok(Ping { seq: 22 }), Ok(Ping { seq: 12 })]
    );
}

#[test]
fn the_server_names_its_open_connections() {
    let there = side();
    let mut server = serve(&there.channel_map);
    let writer = ServerChannelWriter::<Ping> { server: &mut server, channel_map: &there.channel_map, phantom: PhantomData };
    assert_eq!(writer.clients_id(), Vec::<u64>::new());
    server.add_connection(3);
    server.add_connection(8);
    server.disconnect(3);
    server.add_connection(5);
    let writer = ServerChannelWriter::<Ping> { server: &mut server, channel_map: &there.channel_map, phantom: PhantomData };
    let mut ids = writer.clients_id();
    ids.sort();
    assert_eq!(ids, vec![5, 8]);
}

#[test]
fn a_message_for_an_unknown_client_goes_nowhere() {
    let mut here = side();
    let there = side();
    let mut client = connect(&here.channel_map);
    let mut server = serve(&there.channel_map);
    server.add_connection(7);
    send_from_server(&mut server, &there.channel_map, Ping { seq: 1 }, DeliveryMode::ReliableOrdered, 8);
    to_client(&mut server, &mut client, 7);
    pump_client(&here.channel_map, &mut client, &mut here.rec_map);
    assert_eq!(read_on_client::<Ping>(&mut here.rec_map), vec![]);
}

#[test]
fn a_payload_that_does_not_decode_is_reported() {
    let mut here = side();
    let there = side();
    let mut client = connect(&here.channel_map);
    let mut server = serve(&there.channel_map);
    server.add_connection(7);
    server.send_message(7, 2u8, vec![1u8, 2]);
    send_from_server(&mut server, &there.channel_map, Ping { seq: 9 }, DeliveryMode::ReliableOrdered, 7);
    to_client(&mut server, &mut client, 7);
    pump_client(&here.channel_map, &mut client, &mut here.rec_map);
    assert_eq!(
        read_on_client::<Ping>(&mut here.rec_map),
        vec![Err(Malformed { payload: vec![1, 2] }), Ok(Ping { seq: 9 })]
    );
}

#[test]
fn a_connection_has_the_channels_of_every_registered_type() {
    let mut channel_map = ChannelMap::new();
    for name in ["A", "B", "C", "D"] {
        channel_map.add_channels(name);
    }
    let mut client = connect(&channel_map);
    let mut server = serve(&channel_map);
    server.add_connection(1);
    for channel_id in 0..12u8 {
        client.send_message(channel_id, vec![channel_id]);
    }
    to_server(&mut client, &mut server, 1);
    for channel_id in 0..12u8 {
        let received = server.receive_message(1, channel_id).map(|bytes| bytes.to_vec());
        assert_eq!(received, Some(vec![channel_id]));
        assert_eq!(server.receive_message(1, channel_id), None);
    }
}

#[test]
fn the_pump_of_a_fresh_connection_moves_nothing() {
    let mut here = side();
    let mut client = connect(&here.channel_map);
    pump_client(&here.channel_map, &mut client, &mut here.rec_map);
    assert_eq!(read_on_client::<Ping>(&mut here.rec_map), vec![]);
    assert_eq!(read_on_client::<Note>(&mut here.rec_map), vec![]);
    let mut server = serve(&here.channel_map);
    pump_server(&here.channel_map, &mut server, &mut here.rec_map);
    assert_eq!(read_on_server::<Ping>(&mut here.rec_map), vec![]);
}

#[test]
fn a_channel_takes_messages_up_to_its_bound() {
    let here = side_with_bound(8);
    let mut there = side_with_bound(8);
    let mut client = connect(&here.channel_map);
    let mut server = serve(&there.channel_map);
    server.add_connection(7);
    send_from_client(&mut client, &here.channel_map, Ping { seq: 1 }, DeliveryMode::ReliableOrdered);
    send_from_client(&mut client, &here.channel_map, Ping { seq: 2 }, DeliveryMode::ReliableOrdered);
    assert!(!client.is_disconnected());
    to_server(&mut client, &mut server, 7);
    pump_server(&there.channel_map, &mut server, &mut there.rec_map);
    assert_eq!(read_on_server::<Ping>(&mut there.rec_map), vec![Ok(Ping { seq: 1 }), Ok(Ping { seq: 2 })]);
}

#[test]
fn a_full_unreliable_channel_drops_the_message() {
    let here = side_with_bound(10);
    let mut there = side_with_bound(10);
    let mut client = connect(&here.channel_map);
    let mut server = serve(&there.channel_map);
    server.add_connection(7);
    for seq in 1..=3 {
        send_from_client(&mut client, &here.channel_map, Ping { seq }, DeliveryMode::Unreliable);
    }
    assert!(!client.is_disconnected());
    to_server(&mut client, &mut server, 7);
    pump_server(&there.channel_map, &mut server, &mut there.rec_map);
    assert_eq!(read_on_server::<Ping>(&mut there.rec_map), vec![Ok(Ping { seq: 1 }), Ok(Ping { seq: 2 })]);
    send_from_client(&mut client, &here.channel_map, Ping { seq: 4 }, DeliveryMode::Unreliable);
    to_server(&mut client, &mut server, 7);
    pump_server(&there.channel_map, &mut server, &mut there.rec_map);
    assert_eq!(read_on_server::<Ping>(&mut there.rec_map), vec![Ok(Ping { seq: 4 })]);
}

#[test]
fn a_full_reliable_channel_closes_the_connection() {
    let mut here = side_with_bound(10);
    let there = side_with_bound(10);
    let mut client = connect(&here.channel_map);
    let mut server = serve(&there.channel_map);
    server.add_connection(7);
    send_from_server(&mut server, &there.channel_map, Ping { seq: 9 }, DeliveryMode::Unreliable, 7);
    to_client(&mut server, &mut client, 7);
    for seq in 1..=2 {
        send_from_client(&mut client, &here.channel_map, Ping { seq }, DeliveryMode::ReliableUnordered);
    }
    assert!(!client.is_disconnected());
    send_from_client(&mut client, &here.channel_map, Ping { seq: 3 }, DeliveryMode::ReliableUnordered);
    assert!(client.is_disconnected());
    pump_client(&here.channel_map, &mut client, &mut here.rec_map);
    assert_eq!(read_on_client::<Ping>(&mut here.rec_map), vec![]);
    assert_eq!(client.get_packets_to_send().len(), 0);
}

#[test]
fn the_bound_of_one_channel_leaves_the_others_their_room() {
    let here = side_with_bound(4);
    let mut there = side_with_bound(4);
    let mut client = connect(&here.channel_map);
    let mut server = serve(&there.channel_map);
    server.add_connection(7);
    send_from_client(&mut client, &here.channel_map, Ping { seq: 1 }, DeliveryMode::Unreliable);
    send_from_client(&mut client, &here.channel_map, Ping { seq: 2 }, DeliveryMode::ReliableUnordered);
    send_from_client(&mut client, &here.channel_map, Ping { seq: 3 }, DeliveryMode::ReliableOrdered);
    send_from_client(&mut client, &here.channel_map, Ping { seq: 4 }, DeliveryMode::Unreliable);
    to_server(&mut client, &mut server, 7);
    pump_server(&there.channel_map, &mut server, &mut there.rec_map);
    assert_eq!(
        read_on_server::<Ping>(&mut there.rec_map),
        vec![Ok(Ping { seq: 1 }), Ok(Ping { seq: 2 }), Ok(Ping { seq: 3 })]
    );
}

#[test]
fn a_closed_connection_takes_nothing_from_the_server() {
    let mut here = side_with_bound(100);
    let there = side_with_bound(100);
    let mut client = connect(&here.channel_map);
    let mut server = serve(&there.channel_map);
    server.add_connection(7);
    server.disconnect(7);
    send_from_server(&mut server, &there.channel_map, Ping { seq: 1 }, DeliveryMode::ReliableOrdered, 7);
    to_client(&mut server, &mut client, 7);
    pump_client(&here.channel_map, &mut client, &mut here.rec_map);
    assert_eq!(read_on_client::<Ping>(&mut here.rec_map), vec![]);
}

#[test]
fn a_full_reliable_channel_of_the_server_closes_that_client_only() {
    let there = side_with_bound(4);
    let mut server = serve(&there.channel_map);
    server.add_connection(1);
    server.add_connection(2);
    send_from_server(&mut server, &there.channel_map, Ping { seq: 1 }, DeliveryMode::ReliableOrdered, 1);
    send_from_server(&mut server, &there.channel_map, Ping { seq: 2 }, DeliveryMode::ReliableOrdered, 2);
    assert!(server.is_connected(1));
    send_from_server(&mut server, &there.channel_map, Ping { seq: 3 }, DeliveryMode::ReliableOrdered, 1);
    assert!(!server.is_connected(1));
    assert!(server.is_connected(2));
    let writer = ServerChannelWriter::<Ping> { server: &mut server, channel_map: &there.channel_map, phantom: PhantomData };
    assert_eq!(writer.clients_id(), vec![2]);
}
