//! The delivery queues: one first-in, first-out queue of payloads for each
//! registered message type, filled by the pump and emptied by the readers.

use vstd::prelude::*;
use std::collections::VecDeque;
use crate::names::same_name;

verus! {

/// The contents of each of `payloads`.
pub open spec fn views(payloads: Seq<Vec<u8>>) -> Seq<Seq<u8>> {
    payloads.map_values(|p: Vec<u8>| p@)
}

/// The payloads that wait for the readers of one message type.
struct Queue {
    name: &'static str,
    payloads: VecDeque<Vec<u8>>,
}

impl Queue {
    spec fn waiting(self) -> Seq<Seq<u8>> {
        views(self.payloads@)
    }
}

/// The delivery queues of the registered message types, in registration
/// order.
pub struct ReceiverMap {
    queues: Vec<Queue>,
}

impl ReceiverMap {
    /// The names of the types that have a queue, in registration order.
    pub closed spec fn names(&self) -> Seq<Seq<char>> {
        self.queues@.map_values(|q: Queue| q.name@)
    }

    /// What waits in each queue, oldest first, in registration order.
    pub closed spec fn queues(&self) -> Seq<Seq<Seq<u8>>> {
        self.queues@.map_values(|q: Queue| q.waiting())
    }

    /// No name has two queues.
    pub open spec fn wf(&self) -> bool {
        &&& self.names().no_duplicates()
        &&& self.queues().len() == self.names().len()
    }

    /// Whether `name` has a queue.
    pub open spec fn contains(&self, name: Seq<char>) -> bool {
        self.names().contains(name)
    }

    /// The position of the queue of `name`.
    pub open spec fn position(&self, name: Seq<char>) -> int {
        self.names().index_of(name)
    }

    /// What waits for the readers of `name`, oldest first.
    pub open spec fn waiting(&self, name: Seq<char>) -> Seq<Seq<u8>> {
        self.queues()[self.position(name)]
    }

    /// A set without queues.
    pub fn new() -> (map: Self)
        ensures
            map.wf(),
            map.names() == Seq::<Seq<char>>::empty(),
            map.queues() == Seq::<Seq<Seq<u8>>>::empty(),
    {
        let map = ReceiverMap { queues: Vec::new() };
        assert(map.names() =~= Seq::<Seq<char>>::empty());
        assert(map.queues() =~= Seq::<Seq<Seq<u8>>>::empty());
        map
    }

    /// How many queues there are.
    pub fn len(&self) -> (n: usize)
        ensures
            n == self.names().len(),
    {
        self.queues.len()
    }

    /// Finds the position of the queue of `name`.
    pub fn find(&self, name: &str) -> (found: Option<usize>)
        requires
            self.wf(),
        ensures
            match found {
                Some(k) => self.contains(name@) && k == self.position(name@),
                None => !self.contains(name@),
            },
    {
        let mut i: usize = 0;
        while i < self.queues.len()
            invariant
                self.wf(),
                i <= self.queues.len(),
                forall|j: int| 0 <= j < i ==> self.names()[j] != name@,
            decreases self.queues.len() - i,
        {
            if same_name(self.queues[i].name, name) {
                assert(self.names()[i as int] == name@);
                assert(self.names()[self.position(name@)] == name@);
                return Some(i);
            }
            i += 1;
        }
        None
    }

    /// Gives `name`, which has none yet, an empty queue after the others.
    pub fn add_queue(&mut self, name: &'static str)
        requires
            old(self).wf(),
            !old(self).contains(name@),
        ensures
            final(self).wf(),
            final(self).names() == old(self).names().push(name@),
            final(self).queues() == old(self).queues().push(Seq::<Seq<u8>>::empty()),
            final(self).contains(name@),
            final(self).position(name@) == old(self).names().len(),
    {
        let queue = Queue { name, payloads: VecDeque::new() };
        assert(queue.waiting() =~= Seq::<Seq<u8>>::empty());
        self.queues.push(queue);
        assert(self.names() =~= old(self).names().push(name@));
        assert(self.queues() =~= old(self).queues().push(Seq::<Seq<u8>>::empty()));
        assert(self.names()[old(self).names().len() as int] == name@);
        assert(self.names()[self.position(name@)] == name@);
    }

    /// Puts `payload` at the end of the queue at position `k`.
    pub fn push(&mut self, k: usize, payload: Vec<u8>)
        requires
            old(self).wf(),
            k < old(self).names().len(),
        ensures
            final(self).wf(),
            final(self).names() == old(self).names(),
            final(self).queues() == old(self).queues().update(
                k as int,
                old(self).queues()[k as int].push(payload@),
            ),
    {
        self.queues[k].payloads.push_back(payload);
        assert(self.queues@[k as int].waiting() =~= old(self).queues@[k as int].waiting().push(
            payload@,
        ));
        assert(self.names() =~= old(self).names());
        assert(self.queues() =~= old(self).queues().update(
            k as int,
            old(self).queues()[k as int].push(payload@),
        ));
    }

    /// Takes everything that waits for the readers of `name`, oldest first,
    /// and leaves that queue empty; `None`, and nothing taken, where the
    /// name has no queue.
    pub fn drain(&mut self, name: &str) -> (drained: Option<Vec<Vec<u8>>>)
        requires
            old(self).wf(),
        ensures
            final(self).wf(),
            final(self).names() == old(self).names(),
            match drained {
                Some(payloads) => {
                    &&& old(self).contains(name@)
                    &&& views(payloads@) == old(self).waiting(name@)
                    &&& final(self).queues() == old(self).queues().update(
                        old(self).position(name@),
                        Seq::<Seq<u8>>::empty(),
                    )
                },
                None => !old(self).contains(name@) && final(self).queues() == old(self).queues(),
            },
    {
        let k = match self.find(name) {
            Some(k) => k,
            None => {
                return None;
            },
        };
        let mut payloads: Vec<Vec<u8>> = Vec::new();
        assert(views(payloads@) + self.queues()[k as int] =~= old(self).queues()[k as int]);
        loop
            invariant
                k < self.queues.len(),
                self.names() == old(self).names(),
                self.queues().len() == old(self).queues().len(),
                forall|j: int|
                    0 <= j < self.queues().len() && j != k ==> self.queues()[j] == old(
                        self,
                    ).queues()[j],
                views(payloads@) + self.queues()[k as int] == old(self).queues()[k as int],
            ensures
                self.queues()[k as int].len() == 0,
            decreases self.queues@[k as int].payloads@.len(),
        {
            let ghost before = *self;
            match self.queues[k].payloads.pop_front() {
                Some(payload) => {
                    payloads.push(payload);
                    proof {
                        assert(self.names() =~= before.names());
                        assert(self.queues()[k as int] =~= before.queues()[k as int].drop_first());
                        assert(views(payloads@) + self.queues()[k as int] =~= old(
                            self,
                        ).queues()[k as int]);
                        assert forall|j: int|
                            0 <= j < self.queues().len() && j != k implies self.queues()[j] == old(
                            self,
                        ).queues()[j] by {
                            assert(self.queues()[j] == before.queues()[j]);
                        }
                    }
                },
                None => {
                    proof {
                        assert(self.names() =~= before.names());
                        assert(self.queues() =~= before.queues());
                    }
                    break ;
                },
            }
        }
        proof {
            assert(self.queues()[k as int] =~= Seq::<Seq<u8>>::empty());
            assert(views(payloads@) =~= old(self).queues()[k as int]);
            assert(self.queues() =~= old(self).queues().update(
                k as int,
                Seq::<Seq<u8>>::empty(),
            ));
        }
        Some(payloads)
    }
}

} // verus!
