//! The channel allocation table: each registered message type owns three
//! consecutive transport channels, one per delivery mode.

use vstd::prelude::*;
use crate::names::same_name;

verus! {

/// The most message types one table can hold: three channels each, out of
/// the 255 that fit the transport's one-byte channel ids.
pub const MAX_TYPES: usize = 85;

/// The buffered-bytes bound that a type's channels get when none is given.
pub const DEFAULT_MAX_MEMORY_USAGE_BYTES: usize = 5242880;

/// How the transport delivers the messages of one channel.
#[derive(Clone, Copy, Debug, PartialEq, Eq, Structural)]
pub enum DeliveryMode {
    /// Messages may be lost or arrive out of order.
    Unreliable,
    /// Messages arrive, in any order.
    ReliableUnordered,
    /// Messages arrive in the order in which they were sent.
    ReliableOrdered,
}

impl DeliveryMode {
    /// The place of this mode's channel within a type's three channels.
    pub open spec fn offset(self) -> int {
        match self {
            DeliveryMode::Unreliable => 0,
            DeliveryMode::ReliableUnordered => 1,
            DeliveryMode::ReliableOrdered => 2,
        }
    }
}

/// Why a message type could not be registered.
#[derive(Clone, Copy, Debug, PartialEq, Eq, Structural)]
pub enum RegisterError {
    /// The table already holds `MAX_TYPES` types.
    TooManyTypes,
    /// The name is already registered.
    Duplicate,
}

/// The channel ids of the type registered at position `k`:
/// unreliable, reliable-unordered, reliable-ordered.
pub open spec fn triple_of(k: int) -> Seq<u8> {
    seq![(3 * k) as u8, (3 * k + 1) as u8, (3 * k + 2) as u8]
}

/// The mode of the channel at place `offset` within a type's three channels.
pub open spec fn mode_at(offset: int) -> DeliveryMode {
    if offset == 0 {
        DeliveryMode::Unreliable
    } else if offset == 1 {
        DeliveryMode::ReliableUnordered
    } else {
        DeliveryMode::ReliableOrdered
    }
}

/// What the transport is told of one channel when a connection is made.
#[derive(Clone, Copy, Debug, PartialEq, Eq, Structural)]
pub struct ChannelSetup {
    pub channel_id: u8,
    /// How many bytes the channel may buffer.
    pub max_memory_usage_bytes: usize,
    pub mode: DeliveryMode,
}

/// One registered message type.
struct Entry {
    name: &'static str,
    max_memory_usage_bytes: usize,
}

/// The registered message types in registration order.
pub struct ChannelMap {
    entries: Vec<Entry>,
}

impl ChannelMap {
    /// The registered names, in registration order.
    pub closed spec fn names(&self) -> Seq<Seq<char>> {
        self.entries@.map_values(|e: Entry| e.name@)
    }

    /// The buffered-bytes bound of each registered type, in registration
    /// order.
    pub closed spec fn bounds(&self) -> Seq<usize> {
        self.entries@.map_values(|e: Entry| e.max_memory_usage_bytes)
    }

    /// No name is registered twice, and every channel id fits a byte.
    pub open spec fn wf(&self) -> bool {
        &&& self.names().no_duplicates()
        &&& self.names().len() <= MAX_TYPES
        &&& self.bounds().len() == self.names().len()
    }

    /// Whether `name` is registered.
    pub open spec fn contains(&self, name: Seq<char>) -> bool {
        self.names().contains(name)
    }

    /// The position at which `name` was registered.
    pub open spec fn position(&self, name: Seq<char>) -> int {
        self.names().index_of(name)
    }

    /// The three channel ids of `name`.
    pub open spec fn triple(&self, name: Seq<char>) -> Seq<u8> {
        triple_of(self.position(name))
    }

    /// The channel that carries `name` in `mode`.
    pub open spec fn channel_of(&self, name: Seq<char>, mode: DeliveryMode) -> u8 {
        self.triple(name)[mode.offset()]
    }

    /// The channel ids in use: those below three times the number of
    /// registered types.
    pub open spec fn ids(&self) -> Set<u8> {
        Set::new(|id: u8| id < 3 * self.names().len())
    }

    /// What the transport is told of each channel in use, in the order of
    /// the channel ids.
    pub open spec fn setups(&self) -> Seq<ChannelSetup> {
        Seq::new(
            3 * self.names().len(),
            |id: int|
                ChannelSetup {
                    channel_id: id as u8,
                    max_memory_usage_bytes: self.bounds()[id / 3],
                    mode: mode_at(id % 3),
                },
        )
    }

    /// A table without types.
    pub fn new() -> (map: Self)
        ensures
            map.wf(),
            map.names() == Seq::<Seq<char>>::empty(),
            map.bounds() == Seq::<usize>::empty(),
    {
        let map = ChannelMap { entries: Vec::new() };
        assert(map.names() =~= Seq::<Seq<char>>::empty());
        assert(map.bounds() =~= Seq::<usize>::empty());
        map
    }

    /// How many types are registered.
    pub fn len(&self) -> (n: usize)
        ensures
            n == self.names().len(),
    {
        self.entries.len()
    }

    /// Finds the position at which `name` was registered.
    pub fn find(&self, name: &str) -> (found: Option<usize>)
        requires
            self.wf(),
        ensures
            match found {
                Some(k) => self.contains(name@) && k == self.position(name@),
                None => !self.contains(name@),
            },
    {
        let mut i: usize = 0;
        while i < self.entries.len()
            invariant
                self.wf(),
                i <= self.entries.len(),
                forall|j: int| 0 <= j < i ==> self.names()[j] != name@,
            decreases self.entries.len() - i,
        {
            if same_name(self.entries[i].name, name) {
                assert(self.names()[i as int] == name@);
                assert(self.names()[self.position(name@)] == name@);
                return Some(i);
            }
            i += 1;
        }
        None
    }

    /// Registers `name` with the buffered-bytes bound of its channels and
    /// gives it the next three channel ids. A name that is already
    /// registered is refused, and so is a new name once the table is full;
    /// a refused call leaves the table as it was.
    pub fn register(&mut self, name: &'static str, max_memory_usage_bytes: usize) -> (registered:
        Result<[u8; 3], RegisterError>)
        requires
            old(self).wf(),
        ensures
            final(self).wf(),
            match registered {
                Ok(ids) => {
                    &&& !old(self).contains(name@)
                    &&& old(self).names().len() < MAX_TYPES
                    &&& final(self).names() == old(self).names().push(name@)
                    &&& final(self).bounds() == old(self).bounds().push(max_memory_usage_bytes)
                    &&& final(self).contains(name@)
                    &&& final(self).position(name@) == old(self).names().len()
                    &&& ids@ == triple_of(old(self).names().len() as int)
                },
                Err(RegisterError::Duplicate) => {
                    &&& old(self).contains(name@)
                    &&& *final(self) == *old(self)
                },
                Err(RegisterError::TooManyTypes) => {
                    &&& !old(self).contains(name@)
                    &&& old(self).names().len() >= MAX_TYPES
                    &&& *final(self) == *old(self)
                },
            },
    {
        if self.find(name).is_some() {
            return Err(RegisterError::Duplicate);
        }
        let k = self.entries.len();
        if k >= MAX_TYPES {
            return Err(RegisterError::TooManyTypes);
        }
        self.entries.push(Entry { name, max_memory_usage_bytes });
        proof {
            assert(self.names() =~= old(self).names().push(name@));
            assert(self.bounds() =~= old(self).bounds().push(max_memory_usage_bytes));
            assert(self.names()[k as int] == name@);
            assert(self.names()[self.position(name@)] == name@);
        }
        let start: u8 = (3 * k) as u8;
        Ok([start, start + 1, start + 2])
    }

    /// Registers `name` with the default bound. The name must be new and
    /// the table must have room.
    pub fn add_channels(&mut self, name: &'static str)
        requires
            old(self).wf(),
            !old(self).contains(name@),
            old(self).names().len() < MAX_TYPES,
        ensures
            final(self).wf(),
            final(self).names() == old(self).names().push(name@),
            final(self).bounds() == old(self).bounds().push(DEFAULT_MAX_MEMORY_USAGE_BYTES),
            final(self).contains(name@),
            final(self).position(name@) == old(self).names().len(),
    {
        let _ = self.register(name, DEFAULT_MAX_MEMORY_USAGE_BYTES);
    }

    /// The three channel ids of a registered name: unreliable,
    /// reliable-unordered, reliable-ordered.
    pub fn get(&self, name: &'static str) -> (ids: [u8; 3])
        requires
            self.wf(),
            self.contains(name@),
        ensures
            ids@ == self.triple(name@),
    {
        let k = self.find(name).unwrap();
        let start: u8 = (3 * k) as u8;
        [start, start + 1, start + 2]
    }

    /// The channel that carries the registered `name` in `mode`.
    pub fn channel_id(&self, name: &str, mode: DeliveryMode) -> (id: u8)
        requires
            self.wf(),
            self.contains(name@),
        ensures
            id == self.channel_of(name@, mode),
            self.ids().contains(id),
    {
        let k = self.find(name).unwrap();
        let start: u8 = (3 * k) as u8;
        match mode {
            DeliveryMode::Unreliable => start,
            DeliveryMode::ReliableUnordered => start + 1,
            DeliveryMode::ReliableOrdered => start + 2,
        }
    }

    /// The three channel ids of `name`, if it is registered.
    pub fn lookup(&self, name: &str) -> (ids: Option<[u8; 3]>)
        requires
            self.wf(),
        ensures
            match ids {
                Some(ids) => self.contains(name@) && ids@ == self.triple(name@),
                None => !self.contains(name@),
            },
    {
        match self.find(name) {
            Some(k) => {
                let start: u8 = (3 * k) as u8;
                Some([start, start + 1, start + 2])
            },
            None => None,
        }
    }

    /// What the transport is told of each channel in use when a connection
    /// is made: for each registered type an unreliable, a reliable-unordered
    /// and a reliable-ordered channel, each with the type's bound.
    pub fn connection_channels(&self) -> (setups: Vec<ChannelSetup>)
        requires
            self.wf(),
        ensures
            setups@ == self.setups(),
    {
        let mut setups: Vec<ChannelSetup> = Vec::new();
        let mut k: usize = 0;
        while k < self.entries.len()
            invariant
                self.wf(),
                k <= self.entries.len(),
                setups@.len() == 3 * k,
                forall|id: int| 0 <= id < 3 * k ==> setups@[id] == self.setups()[id],
            decreases self.entries.len() - k,
        {
            let max_memory_usage_bytes = self.entries[k].max_memory_usage_bytes;
            let start: u8 = (3 * k) as u8;
            assert(self.bounds()[k as int] == max_memory_usage_bytes);
            setups.push(
                ChannelSetup { channel_id: start, max_memory_usage_bytes, mode: DeliveryMode::Unreliable },
            );
            setups.push(
                ChannelSetup {
                    channel_id: start + 1,
                    max_memory_usage_bytes,
                    mode: DeliveryMode::ReliableUnordered,
                },
            );
            setups.push(
                ChannelSetup {
                    channel_id: start + 2,
                    max_memory_usage_bytes,
                    mode: DeliveryMode::ReliableOrdered,
                },
            );
            k += 1;
        }
        assert(setups@ =~= self.setups());
        setups
    }
}

/// Registered types never share a channel id, and the ids of all of them
/// together are, without a gap, the ids from zero up to three times their
/// number.
pub proof fn lemma_triples_disjoint_and_contiguous(map: &ChannelMap)
    requires
        map.wf(),
    ensures
        forall|a: Seq<char>, b: Seq<char>, i: int, j: int|
            map.contains(a) && map.contains(b) && a != b && 0 <= i < 3 && 0 <= j < 3
                ==> #[trigger] map.triple(a)[i] != #[trigger] map.triple(b)[j],
        forall|id: u8|
            #[trigger] map.ids().contains(id) <==> exists|a: Seq<char>, i: int|
                map.contains(a) && 0 <= i < 3 && #[trigger] map.triple(a)[i] == id,
{
    let names = map.names();
    assert forall|a: Seq<char>, b: Seq<char>, i: int, j: int|
        map.contains(a) && map.contains(b) && a != b && 0 <= i < 3 && 0 <= j < 3
            implies #[trigger] map.triple(a)[i] != #[trigger] map.triple(b)[j] by {
        assert(names[map.position(a)] == a);
        assert(names[map.position(b)] == b);
        assert(map.position(a) != map.position(b));
    }
    assert forall|id: u8| #[trigger] map.ids().contains(id) implies exists|a: Seq<char>, i: int|
        map.contains(a) && 0 <= i < 3 && #[trigger] map.triple(a)[i] == id by {
        let k = id as int / 3;
        let a = names[k];
        assert(map.contains(a));
        assert(names[map.position(a)] == a);
        assert(map.position(a) == k);
        assert(map.triple(a)[id as int % 3] == id);
    }
    assert forall|id: u8|
        (exists|a: Seq<char>, i: int|
            map.contains(a) && 0 <= i < 3 && #[trigger] map.triple(a)[i] == id)
            implies #[trigger] map.ids().contains(id) by {
        let (a, i) = choose|a: Seq<char>, i: int|
            map.contains(a) && 0 <= i < 3 && #[trigger] map.triple(a)[i] == id;
        assert(names[map.position(a)] == a);
    }
}

} // verus!
