use leknet::envelope::Envelope;

fn envelope(name: &str, payload: &[u8]) -> Envelope {
    Envelope { name: name.to_string(), payload: payload.to_vec() }
}

#[test]
fn an_envelope_is_two_length_prefixed_fields() {
    let bytes = envelope("Ping", &[1, 2, 3]).encode();
    assert_eq!(
        bytes,
        vec![4, 0, 0, 0, 0, 0, 0, 0, b'P', b'i', b'n', b'g', 3, 0, 0, 0, 0, 0, 0, 0, 1, 2, 3]
    );
}

#[test]
fn an_empty_envelope_is_sixteen_zero_bytes() {
    assert_eq!(envelope("", &[]).encode(), vec![0u8; 16]);
    assert_eq!(Envelope::decode(&[0u8; 16]), Some(envelope("", &[])));
}

#[test]
fn an_envelope_reads_as_a_serialized_pair() {
    let bytes = envelope("Grüße", &[0, 255, 7]).encode();
    assert_eq!(bytes, bincode::serialize(&("Grüße".to_string(), vec![0u8, 255, 7])).unwrap());
    let pair: (String, Vec<u8>) = bincode::deserialize(&bytes).unwrap();
    assert_eq!(pair, ("Grüße".to_string(), vec![0u8, 255, 7]));
}

#[test]
fn envelopes_round_trip() {
    for (name, payload) in [
        ("Ping", vec![1u8, 2, 3]),
        ("", vec![]),
        ("leknet::test::TestMessage", vec![0, 0, 0, 0]),
        ("Grüße", vec![0; 300]),
    ] {
        let sent = envelope(name, &payload);
        assert_eq!(Envelope::decode(&sent.encode()), Some(sent));
    }
}

#[test]
fn short_bytes_are_no_envelope() {
    assert_eq!(Envelope::decode(&[]), None);
    assert_eq!(Envelope::decode(&[0, 0, 0, 0, 0, 0, 0]), None);
    assert_eq!(Envelope::decode(&[0; 15]), None);
    let bytes = envelope("Ping", &[1, 2, 3]).encode();
    for cut in 0..bytes.len() {
        assert_eq!(Envelope::decode(&bytes[..cut]), None);
    }
}

#[test]
fn trailing_bytes_are_no_envelope() {
    let mut bytes = envelope("Ping", &[1, 2, 3]).encode();
    bytes.push(0);
    assert_eq!(Envelope::decode(&bytes), None);
}

#[test]
fn a_length_beyond_the_bytes_is_no_envelope() {
    let mut bytes = envelope("Ping", &[1, 2, 3]).encode();
    bytes[0] = 200;
    assert_eq!(Envelope::decode(&bytes), None);
    let mut bytes = envelope("Ping", &[1, 2, 3]).encode();
    bytes[7] = 255;
    assert_eq!(Envelope::decode(&bytes), None);
    let mut bytes = envelope("Ping", &[1, 2, 3]).encode();
    bytes[12] = 4;
    assert_eq!(Envelope::decode(&bytes), None);
    assert_eq!(Envelope::decode(&[255; 16]), None);
}

#[test]
fn a_name_that_is_no_text_is_no_envelope() {
    let mut bytes = envelope("Ping", &[1, 2, 3]).encode();
    bytes[8] = 0xff;
    assert_eq!(Envelope::decode(&bytes), None);
    let mut bytes = envelope("Grüße", &[]).encode();
    bytes[10] = b'u';
    assert_eq!(Envelope::decode(&bytes), None);
}
