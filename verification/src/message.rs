//! Message types and their codec.

use vstd::prelude::*;

verus! {

/// A message type that can travel over its own channels: it has a stable
/// name, under which it is registered, and a codec. The library promises
/// of a message only what the type's own `encode` and `decode` give.
pub trait Channel: Sized {
    /// The name under which the type is registered, unique among the
    /// registered types.
    const NAME: &'static str;

    /// The bytes that stand for the message on the wire.
    fn encode(&self) -> Vec<u8>;

    /// The message that `bytes` stand for, or `None` where they stand for
    /// none.
    fn decode(bytes: &[u8]) -> Option<Self>;
}

/// A greeting in two words, for trying a connection out.
#[derive(Clone, Copy, Debug, PartialEq, Eq, Structural)]
pub enum TestMessage {
    Hi,
    Bye,
}

impl TestMessage {
    /// The variant's number in four little-endian bytes.
    pub open spec fn encoding(&self) -> Seq<u8> {
        match self {
            TestMessage::Hi => seq![0u8, 0u8, 0u8, 0u8],
            TestMessage::Bye => seq![1u8, 0u8, 0u8, 0u8],
        }
    }

    /// The variant whose number `bytes` are, if they are four bytes and
    /// the number of a variant.
    pub open spec fn decoding(bytes: Seq<u8>) -> Option<Self> {
        if bytes == seq![0u8, 0u8, 0u8, 0u8] {
            Some(TestMessage::Hi)
        } else if bytes == seq![1u8, 0u8, 0u8, 0u8] {
            Some(TestMessage::Bye)
        } else {
            None
        }
    }
}

impl Channel for TestMessage {
    const NAME: &'static str = "TestMessage";

    fn encode(&self) -> (bytes: Vec<u8>)
        ensures
            bytes@ == self.encoding(),
    {
        let tag: u8 = match self {
            TestMessage::Hi => 0,
            TestMessage::Bye => 1,
        };
        let mut bytes = Vec::new();
        bytes.push(tag);
        bytes.push(0);
        bytes.push(0);
        bytes.push(0);
        assert(bytes@ =~= self.encoding());
        bytes
    }

    fn decode(bytes: &[u8]) -> (message: Option<Self>)
        ensures
            message == Self::decoding(bytes@),
    {
        if bytes.len() == 4 && bytes[1] == 0 && bytes[2] == 0 && bytes[3] == 0 {
            if bytes[0] == 0 {
                assert(bytes@ =~= seq![0u8, 0u8, 0u8, 0u8]);
                return Some(TestMessage::Hi);
            } else if bytes[0] == 1 {
                assert(bytes@ =~= seq![1u8, 0u8, 0u8, 0u8]);
                return Some(TestMessage::Bye);
            }
        }
        None
    }
}

/// `bytes` is what `T`'s `encode` can give for `message`.
pub open spec fn encodes_to<T: Channel>(message: T, bytes: Seq<u8>) -> bool {
    exists|v: Vec<u8>| v@ == bytes && #[trigger] call_ensures(T::encode, (&message,), v)
}

/// `message` is what `T`'s `decode` can give for `bytes`.
pub open spec fn decodes_to<T: Channel>(bytes: Seq<u8>, message: Option<T>) -> bool {
    exists|s: &[u8]| s@ == bytes && #[trigger] call_ensures(T::decode, (s,), message)
}

/// What `T`'s codec gives for a message decodes to that message.
pub open spec fn round_trips<T: Channel>() -> bool {
    forall|message: T, bytes: Seq<u8>, back: Option<T>|
        #![trigger encodes_to(message, bytes), decodes_to(bytes, back)]
        encodes_to(message, bytes) && decodes_to(bytes, back) ==> back == Some(message)
}

/// The codec of `TestMessage` gives every message back.
pub proof fn lemma_test_message_round_trips()
    ensures
        round_trips::<TestMessage>(),
{
    assert(seq![1u8, 0u8, 0u8, 0u8][0] != seq![0u8, 0u8, 0u8, 0u8][0]);
}

/// A payload that its type's codec does not accept.
#[derive(Debug, PartialEq, Eq)]
pub struct Malformed {
    pub payload: Vec<u8>,
}

/// `outcome` is what reading `payload` as a `T` gives: the message that
/// `T`'s `decode` makes of it, or the payload itself where `decode` makes
/// none.
pub open spec fn read_as<T: Channel>(payload: Seq<u8>, outcome: Result<T, Malformed>) -> bool {
    match outcome {
        Ok(message) => decodes_to(payload, Some(message)),
        Err(malformed) => decodes_to(payload, None::<T>) && malformed.payload@ == payload,
    }
}

/// Where `T`'s codec gives every message back, reading the bytes of a
/// message gives that message, never an error and never another message.
pub proof fn lemma_reading_gives_the_message_back<T: Channel>(
    message: T,
    bytes: Seq<u8>,
    outcome: Result<T, Malformed>,
)
    requires
        round_trips::<T>(),
        encodes_to(message, bytes),
        read_as(bytes, outcome),
    ensures
        outcome == Ok::<T, Malformed>(message),
{
    match outcome {
        Ok(read) => {
            assert(decodes_to(bytes, Some(read)));
        },
        Err(_) => {
            assert(decodes_to(bytes, None::<T>));
        },
    }
}

/// Reads each of `payloads` as a `T`, in their order.
pub fn decode_all<T: Channel>(payloads: Vec<Vec<u8>>) -> (messages: Vec<Result<T, Malformed>>)
    ensures
        messages@.len() == payloads@.len(),
        forall|i: int|
            0 <= i < payloads@.len() ==> read_as(payloads@[i]@, #[trigger] messages@[i]),
{
    let mut payloads = payloads;
    let ghost all = payloads@;
    let mut messages: Vec<Result<T, Malformed>> = Vec::new();
    let n = payloads.len();
    let mut i: usize = 0;
    while i < n
        invariant
            i <= n,
            n == all.len(),
            payloads@.len() == n,
            messages@.len() == i,
            forall|j: int| i <= j < n ==> payloads@[j] == all[j],
            forall|j: int| 0 <= j < i ==> read_as(all[j]@, #[trigger] messages@[j]),
        decreases n - i,
    {
        let mut payload: Vec<u8> = Vec::new();
        core::mem::swap(&mut payload, &mut payloads[i]);
        let outcome = match T::decode(payload.as_slice()) {
            Some(message) => Ok(message),
            None => Err(Malformed { payload }),
        };
        messages.push(outcome);
        i += 1;
    }
    messages
}

} // verus!
