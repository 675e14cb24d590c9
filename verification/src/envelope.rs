//! The envelope: the wire record that names the type of the payload it
//! carries, for messages of many types on one shared channel.
//!
//! On the wire an envelope is the length of the name's UTF-8 bytes as eight
//! little-endian bytes, the name's bytes, the length of the payload as
//! eight little-endian bytes, and the payload.

use vstd::prelude::*;
use vstd::bytes::{
    lemma_auto_spec_u64_to_from_le_bytes,
    spec_u64_from_le_bytes,
    spec_u64_to_le_bytes,
    u64_from_le_bytes,
    u64_to_le_bytes,
};
use vstd::slice::{slice_subrange, slice_to_vec};
use vstd::utf8::{decode_utf8, decode_utf8_encode_utf8, encode_utf8, encode_utf8_decode_utf8, encode_utf8_valid_utf8, valid_utf8};

verus! {

/// A payload together with the name of its message type.
#[derive(Debug, PartialEq, Eq)]
pub struct Envelope {
    pub name: String,
    pub payload: Vec<u8>,
}

/// The bytes that stand for an envelope on the wire.
pub open spec fn envelope_bytes(name: Seq<char>, payload: Seq<u8>) -> Seq<u8> {
    let name_bytes = encode_utf8(name);
    spec_u64_to_le_bytes(name_bytes.len() as u64) + name_bytes + spec_u64_to_le_bytes(
        payload.len() as u64,
    ) + payload
}

/// The envelope that `bytes` stand for, if they stand for one: the two
/// lengths must fit the bytes exactly and the name must be well-formed
/// UTF-8.
pub open spec fn parse_envelope(bytes: Seq<u8>) -> Option<(Seq<char>, Seq<u8>)> {
    if bytes.len() < 8 {
        None
    } else {
        let name_len = spec_u64_from_le_bytes(bytes.subrange(0, 8)) as int;
        if bytes.len() - 8 < name_len || bytes.len() - 8 - name_len < 8 {
            None
        } else {
            let name = bytes.subrange(8, 8 + name_len);
            let payload_len = spec_u64_from_le_bytes(
                bytes.subrange(8 + name_len, 16 + name_len),
            ) as int;
            if bytes.len() - 16 - name_len != payload_len || !valid_utf8(name) {
                None
            } else {
                Some((decode_utf8(name), bytes.subrange(16 + name_len, bytes.len() as int)))
            }
        }
    }
}

/// Parsing the bytes of an envelope gives the envelope back.
pub proof fn lemma_envelope_round_trip(name: Seq<char>, payload: Seq<u8>)
    requires
        encode_utf8(name).len() <= u64::MAX,
        payload.len() <= u64::MAX,
    ensures
        parse_envelope(envelope_bytes(name, payload)) == Some((name, payload)),
{
    lemma_auto_spec_u64_to_from_le_bytes();
    let name_bytes = encode_utf8(name);
    let bytes = envelope_bytes(name, payload);
    let n = name_bytes.len() as int;
    assert(bytes.subrange(0, 8) =~= spec_u64_to_le_bytes(name_bytes.len() as u64));
    assert(bytes.subrange(8, 8 + n) =~= name_bytes);
    assert(bytes.subrange(8 + n, 16 + n) =~= spec_u64_to_le_bytes(payload.len() as u64));
    assert(bytes.subrange(16 + n, bytes.len() as int) =~= payload);
    encode_utf8_valid_utf8(name);
    encode_utf8_decode_utf8(name);
}

/// Bytes that parse as an envelope are the bytes of that envelope: no two
/// byte strings stand for the same envelope.
pub proof fn lemma_parsed_envelope_is_canonical(bytes: Seq<u8>)
    requires
        parse_envelope(bytes) is Some,
    ensures
        envelope_bytes(parse_envelope(bytes)->Some_0.0, parse_envelope(bytes)->Some_0.1) == bytes,
{
    lemma_auto_spec_u64_to_from_le_bytes();
    let n = spec_u64_from_le_bytes(bytes.subrange(0, 8)) as int;
    let name = bytes.subrange(8, 8 + n);
    let m = spec_u64_from_le_bytes(bytes.subrange(8 + n, 16 + n)) as int;
    let payload = bytes.subrange(16 + n, bytes.len() as int);
    decode_utf8_encode_utf8(name);
    assert(spec_u64_to_le_bytes(n as u64) == bytes.subrange(0, 8));
    assert(spec_u64_to_le_bytes(m as u64) == bytes.subrange(8 + n, 16 + n));
    assert(bytes.subrange(0, 8) + name + bytes.subrange(8 + n, 16 + n) + payload =~= bytes);
}

/// Puts `bytes` at the end of `out`.
fn append(out: &mut Vec<u8>, bytes: &[u8])
    ensures
        final(out)@ == old(out)@ + bytes@,
{
    let mut i: usize = 0;
    while i < bytes.len()
        invariant
            i <= bytes.len(),
            out@ == old(out)@ + bytes@.take(i as int),
        decreases bytes.len() - i,
    {
        out.push(bytes[i]);
        assert(bytes@.take(i as int + 1) =~= bytes@.take(i as int).push(bytes@[i as int]));
        i += 1;
    }
    assert(bytes@.take(i as int) =~= bytes@);
}

/// `core::str::from_utf8`: the text that `bytes` encode, which there is
/// exactly where the bytes are well-formed UTF-8.
#[verifier::external_body]
fn text_of(bytes: &[u8]) -> (text: Option<&str>)
    ensures
        match text {
            Some(t) => valid_utf8(bytes@) && t@ == decode_utf8(bytes@),
            None => !valid_utf8(bytes@),
        },
{
    core::str::from_utf8(bytes).ok()
}

impl Envelope {
    /// The bytes that stand for this envelope on the wire.
    pub fn encode(&self) -> (bytes: Vec<u8>)
        ensures
            bytes@ == envelope_bytes(self.name@, self.payload@),
            parse_envelope(bytes@) == Some((self.name@, self.payload@)),
    {
        let name_bytes = self.name.as_str().as_bytes();
        let mut bytes = u64_to_le_bytes(name_bytes.len() as u64);
        append(&mut bytes, name_bytes);
        let payload_len = u64_to_le_bytes(self.payload.len() as u64);
        append(&mut bytes, payload_len.as_slice());
        append(&mut bytes, self.payload.as_slice());
        proof {
            lemma_envelope_round_trip(self.name@, self.payload@);
        }
        bytes
    }

    /// Reads an envelope from the wire: the envelope that `bytes` stand
    /// for, or `None` where they stand for none.
    pub fn decode(bytes: &[u8]) -> (envelope: Option<Envelope>)
        ensures
            match envelope {
                Some(e) => parse_envelope(bytes@) == Some((e.name@, e.payload@)),
                None => parse_envelope(bytes@) is None,
            },
    {
        let len = bytes.len();
        if len < 8 {
            return None;
        }
        let name_len = u64_from_le_bytes(slice_subrange(bytes, 0, 8));
        if name_len > (len - 8) as u64 {
            return None;
        }
        let name_len: usize = name_len as usize;
        if len - 8 - name_len < 8 {
            return None;
        }
        let name_end: usize = 8 + name_len;
        let payload_len = u64_from_le_bytes(slice_subrange(bytes, name_end, name_end + 8));
        if payload_len != (len - 8 - name_end) as u64 {
            return None;
        }
        match text_of(slice_subrange(bytes, 8, name_end)) {
            Some(text) => {
                let name = text.to_owned();
                let payload = slice_to_vec(slice_subrange(bytes, name_end + 8, len));
                Some(Envelope { name, payload })
            },
            None => None,
        }
    }
}

} // verus!
