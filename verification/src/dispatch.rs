//! The dispatch registry: one handler for each registered type name. A
//! dispatch takes the handler out of the registry for as long as it runs
//! and puts it back afterwards, so that no handler ever runs twice at once.

use vstd::prelude::*;
use crate::envelope::{parse_envelope, Envelope};
use crate::names::same_name;

verus! {

/// Where a type name stands in the registry.
#[derive(Clone, Copy, Debug, PartialEq, Eq, Structural)]
pub enum HandlerState {
    /// No handler was ever registered under the name.
    Unregistered,
    /// The handler is in the registry.
    Registered,
    /// The handler is out: a dispatch for the name is running.
    Dispatching,
}

/// Why the registry refused a call.
#[derive(Clone, Copy, Debug, PartialEq, Eq, Structural)]
pub enum DispatchError {
    /// The bytes are no envelope.
    Malformed,
    /// No handler is registered under the name.
    UnknownType,
    /// The handler of the name is out: a dispatch for it is running.
    InFlight,
    /// The name is registered already.
    Duplicate,
    /// No dispatch for the name is running.
    NotInFlight,
}

/// The handler registered under one name; `None` while it is out.
struct Entry<H> {
    name: String,
    handler: Option<H>,
}

/// How often a handler is held under `name` among the entries given by
/// `names` and `handlers`.
pub open spec fn count_held<H>(names: Seq<Seq<char>>, handlers: Seq<Option<H>>, name: Seq<char>) -> nat
    decreases names.len(),
{
    if names.len() == 0 {
        0
    } else {
        count_held(names.drop_last(), handlers.drop_last(), name) + if names.last() == name
            && handlers.last() is Some {
            1nat
        } else {
            0nat
        }
    }
}

/// The handlers of the registered type names.
pub struct DispatchRegistry<H> {
    entries: Vec<Entry<H>>,
}

/// What a dispatch hands to its caller: the handler to run, the payload to
/// run it on, and the name under which to give the handler back.
pub struct Invocation<H> {
    pub name: String,
    pub handler: H,
    pub payload: Vec<u8>,
}

impl<H> DispatchRegistry<H> {
    /// The names that were registered, in registration order.
    pub closed spec fn names(&self) -> Seq<Seq<char>> {
        self.entries@.map_values(|e: Entry<H>| e.name@)
    }

    /// For each registered name its handler, or `None` while it is out.
    pub closed spec fn handlers(&self) -> Seq<Option<H>> {
        self.entries@.map_values(|e: Entry<H>| e.handler)
    }

    /// No name has two entries.
    pub open spec fn wf(&self) -> bool {
        &&& self.names().no_duplicates()
        &&& self.handlers().len() == self.names().len()
    }

    /// Whether `name` was registered.
    pub open spec fn contains(&self, name: Seq<char>) -> bool {
        self.names().contains(name)
    }

    /// The position of the entry of `name`.
    pub open spec fn position(&self, name: Seq<char>) -> int {
        self.names().index_of(name)
    }

    /// Where `name` stands.
    pub open spec fn state(&self, name: Seq<char>) -> HandlerState {
        if !self.contains(name) {
            HandlerState::Unregistered
        } else if self.handlers()[self.position(name)] is Some {
            HandlerState::Registered
        } else {
            HandlerState::Dispatching
        }
    }

    /// The handler that the registry holds under `name`.
    pub open spec fn handler(&self, name: Seq<char>) -> Option<H> {
        if self.contains(name) {
            self.handlers()[self.position(name)]
        } else {
            None
        }
    }

    /// How often the registry holds a handler under `name`.
    pub open spec fn held(&self, name: Seq<char>) -> nat {
        count_held(self.names(), self.handlers(), name)
    }

    /// A registry without handlers.
    pub fn new() -> (registry: Self)
        ensures
            registry.wf(),
            registry.names() == Seq::<Seq<char>>::empty(),
            registry.handlers() == Seq::<Option<H>>::empty(),
    {
        let registry = DispatchRegistry { entries: Vec::new() };
        assert(registry.names() =~= Seq::<Seq<char>>::empty());
        assert(registry.handlers() =~= Seq::<Option<H>>::empty());
        registry
    }

    /// Finds the entry of `name`.
    fn find(&self, name: &str) -> (found: Option<usize>)
        requires
            self.wf(),
        ensures
            match found {
                Some(k) => self.contains(name@) && k == self.position(name@),
                None => !self.contains(name@),
            },
    {
        let mut i: usize = 0;
        while i < self.entries.len()
            invariant
                self.wf(),
                i <= self.entries.len(),
                forall|j: int| 0 <= j < i ==> self.names()[j] != name@,
            decreases self.entries.len() - i,
        {
            if same_name(self.entries[i].name.as_str(), name) {
                assert(self.names()[i as int] == name@);
                assert(self.names()[self.position(name@)] == name@);
                return Some(i);
            }
            i += 1;
        }
        None
    }

    /// Where `name` stands.
    pub fn state_of(&self, name: &str) -> (state: HandlerState)
        requires
            self.wf(),
        ensures
            state == self.state(name@),
    {
        match self.find(name) {
            None => HandlerState::Unregistered,
            Some(k) => {
                assert(self.handlers()[k as int] == self.entries@[k as int].handler);
                if self.entries[k].handler.is_some() {
                    HandlerState::Registered
                } else {
                    HandlerState::Dispatching
                }
            },
        }
    }

    /// Registers `handler` under `name`. A name that is registered
    /// already, with its handler in or out, is refused and the registry
    /// stays as it was.
    pub fn register(&mut self, name: &str, handler: H) -> (registered: Result<(), DispatchError>)
        requires
            old(self).wf(),
        ensures
            final(self).wf(),
            match registered {
                Ok(()) => {
                    &&& !old(self).contains(name@)
                    &&& final(self).names() == old(self).names().push(name@)
                    &&& final(self).handlers() == old(self).handlers().push(Some(handler))
                    &&& final(self).state(name@) == HandlerState::Registered
                    &&& final(self).handler(name@) == Some(handler)
                },
                Err(refused) => {
                    &&& refused == DispatchError::Duplicate
                    &&& old(self).contains(name@)
                    &&& final(self).names() == old(self).names()
                    &&& final(self).handlers() == old(self).handlers()
                },
            },
    {
        if self.find(name).is_some() {
            return Err(DispatchError::Duplicate);
        }
        let ghost k = self.entries.len() as int;
        self.entries.push(Entry { name: name.to_owned(), handler: Some(handler) });
        proof {
            assert(self.names() =~= old(self).names().push(name@));
            assert(self.handlers() =~= old(self).handlers().push(Some(handler)));
            assert(self.names()[k] == name@);
            assert(self.names()[self.position(name@)] == name@);
        }
        Ok(())
    }

    /// Begins a dispatch for `name`: takes its handler out of the registry
    /// and hands it over. Until the handler is given back, no dispatch for
    /// the same name can begin; every other name stays as it was.
    pub fn begin_dispatch(&mut self, name: &str) -> (taken: Result<H, DispatchError>)
        requires
            old(self).wf(),
        ensures
            final(self).wf(),
            final(self).names() == old(self).names(),
            match taken {
                Ok(handler) => {
                    &&& old(self).state(name@) == HandlerState::Registered
                    &&& old(self).handler(name@) == Some(handler)
                    &&& final(self).handlers() == old(self).handlers().update(
                        old(self).position(name@),
                        None,
                    )
                    &&& final(self).state(name@) == HandlerState::Dispatching
                },
                Err(refused) => {
                    &&& final(self).handlers() == old(self).handlers()
                    &&& refused == if old(self).state(name@) == HandlerState::Unregistered {
                        DispatchError::UnknownType
                    } else {
                        DispatchError::InFlight
                    }
                    &&& old(self).state(name@) != HandlerState::Registered
                },
            },
    {
        let k = match self.find(name) {
            Some(k) => k,
            None => {
                return Err(DispatchError::UnknownType);
            },
        };
        assert(self.handlers()[k as int] == self.entries@[k as int].handler);
        match self.entries[k].handler.take() {
            Some(handler) => {
                proof {
                    assert(self.names() =~= old(self).names());
                    assert(self.handlers() =~= old(self).handlers().update(k as int, None));
                }
                Ok(handler)
            },
            None => {
                proof {
                    assert(self.names() =~= old(self).names());
                    assert(self.handlers() =~= old(self).handlers());
                }
                Err(DispatchError::InFlight)
            },
        }
    }

    /// Ends the dispatch for `name`: puts `handler` back under the name.
    /// Where no dispatch for the name is running, the registry stays as it
    /// was.
    pub fn end_dispatch(&mut self, name: &str, handler: H) -> (ended: Result<(), DispatchError>)
        requires
            old(self).wf(),
        ensures
            final(self).wf(),
            final(self).names() == old(self).names(),
            match ended {
                Ok(()) => {
                    &&& old(self).state(name@) == HandlerState::Dispatching
                    &&& final(self).handlers() == old(self).handlers().update(
                        old(self).position(name@),
                        Some(handler),
                    )
                    &&& final(self).state(name@) == HandlerState::Registered
                    &&& final(self).handler(name@) == Some(handler)
                },
                Err(refused) => {
                    &&& final(self).handlers() == old(self).handlers()
                    &&& refused == if old(self).state(name@) == HandlerState::Unregistered {
                        DispatchError::UnknownType
                    } else {
                        DispatchError::NotInFlight
                    }
                    &&& old(self).state(name@) != HandlerState::Dispatching
                },
            },
    {
        let k = match self.find(name) {
            Some(k) => k,
            None => {
                return Err(DispatchError::UnknownType);
            },
        };
        assert(self.handlers()[k as int] == self.entries@[k as int].handler);
        if self.entries[k].handler.is_some() {
            return Err(DispatchError::NotInFlight);
        }
        self.entries[k].handler = Some(handler);
        proof {
            assert(self.names() =~= old(self).names());
            assert(self.handlers() =~= old(self).handlers().update(k as int, Some(handler)));
        }
        Ok(())
    }

    /// Routes an envelope: begins a dispatch for the type that it names
    /// and hands over the handler together with the payload.
    pub fn route(&mut self, envelope: Envelope) -> (routed: Result<Invocation<H>, DispatchError>)
        requires
            old(self).wf(),
        ensures
            final(self).wf(),
            final(self).names() == old(self).names(),
            match routed {
                Ok(invocation) => {
                    &&& invocation.name@ == envelope.name@
                    &&& invocation.payload@ == envelope.payload@
                    &&& old(self).state(envelope.name@) == HandlerState::Registered
                    &&& old(self).handler(envelope.name@) == Some(invocation.handler)
                    &&& final(self).handlers() == old(self).handlers().update(
                        old(self).position(envelope.name@),
                        None,
                    )
                    &&& final(self).state(envelope.name@) == HandlerState::Dispatching
                },
                Err(refused) => {
                    &&& final(self).handlers() == old(self).handlers()
                    &&& refused == if old(self).state(envelope.name@)
                        == HandlerState::Unregistered {
                        DispatchError::UnknownType
                    } else {
                        DispatchError::InFlight
                    }
                    &&& old(self).state(envelope.name@) != HandlerState::Registered
                },
            },
    {
        let Envelope { name, payload } = envelope;
        match self.begin_dispatch(name.as_str()) {
            Ok(handler) => Ok(Invocation { name, handler, payload }),
            Err(refused) => Err(refused),
        }
    }

    /// Receives one message from the wire: reads the envelope and routes
    /// it. Bytes that are no envelope are refused as malformed and change
    /// nothing.
    pub fn receive(&mut self, wire: &[u8]) -> (routed: Result<Invocation<H>, DispatchError>)
        requires
            old(self).wf(),
        ensures
            final(self).wf(),
            final(self).names() == old(self).names(),
            match parse_envelope(wire@) {
                None => {
                    &&& routed matches Err(refused)
                    &&& refused == DispatchError::Malformed
                    &&& final(self).handlers() == old(self).handlers()
                },
                Some((name, payload)) => match routed {
                    Ok(invocation) => {
                        &&& invocation.name@ == name
                        &&& invocation.payload@ == payload
                        &&& old(self).state(name) == HandlerState::Registered
                        &&& old(self).handler(name) == Some(invocation.handler)
                        &&& final(self).handlers() == old(self).handlers().update(
                            old(self).position(name),
                            None,
                        )
                        &&& final(self).state(name) == HandlerState::Dispatching
                    },
                    Err(refused) => {
                        &&& final(self).handlers() == old(self).handlers()
                        &&& refused == if old(self).state(name) == HandlerState::Unregistered {
                            DispatchError::UnknownType
                        } else {
                            DispatchError::InFlight
                        }
                        &&& old(self).state(name) != HandlerState::Registered
                    },
                },
            },
    {
        match Envelope::decode(wire) {
            Some(envelope) => self.route(envelope),
            None => Err(DispatchError::Malformed),
        }
    }
}

/// Among entries without a repeated name, a handler is held under `name`
/// once where the name's entry holds one, and not at all otherwise.
proof fn lemma_count_held<H>(names: Seq<Seq<char>>, handlers: Seq<Option<H>>, name: Seq<char>)
    requires
        names.no_duplicates(),
        handlers.len() == names.len(),
    ensures
        count_held(names, handlers, name) == if names.contains(name) && handlers[names.index_of(
            name,
        )] is Some {
            1nat
        } else {
            0nat
        },
    decreases names.len(),
{
    if names.len() > 0 {
        let front = names.drop_last();
        let last = names.len() - 1;
        lemma_count_held(front, handlers.drop_last(), name);
        if names.contains(name) {
            let k = names.index_of(name);
            assert(names[k] == name);
            if names.last() == name {
                assert(k == last);
                if front.contains(name) {
                    let j = front.index_of(name);
                    assert(front[j] == name);
                    assert(names[j] == name);
                }
            } else {
                assert(front[k] == name);
                let j = front.index_of(name);
                assert(front[j] == name);
                assert(names[j] == name);
                assert(handlers.drop_last()[j] == handlers[k]);
            }
        } else {
            if front.contains(name) {
                let j = front.index_of(name);
                assert(front[j] == name);
                assert(names[j] == name);
            }
        }
    }
}

/// In every state of the registry a handler is held exactly once under a
/// name whose handler is in, and not at all under a name whose handler is
/// out for a running dispatch or that was never registered.
pub proof fn lemma_held_once_unless_dispatching<H>(registry: &DispatchRegistry<H>, name: Seq<char>)
    requires
        registry.wf(),
    ensures
        registry.held(name) == match registry.state(name) {
            HandlerState::Registered => 1nat,
            HandlerState::Dispatching => 0nat,
            HandlerState::Unregistered => 0nat,
        },
{
    lemma_count_held(registry.names(), registry.handlers(), name);
}

/// A dispatch that runs for one name leaves every other name as it was:
/// between the registry `before` a dispatch for `running` began and the
/// registry `during` it, any other name stands as before and keeps its
/// handler, so that a dispatch for it can still begin.
pub proof fn lemma_dispatch_leaves_others<H>(
    before: &DispatchRegistry<H>,
    during: &DispatchRegistry<H>,
    running: Seq<char>,
    other: Seq<char>,
)
    requires
        before.wf(),
        before.state(running) == HandlerState::Registered,
        during.names() == before.names(),
        during.handlers() == before.handlers().update(before.position(running), None),
        other != running,
    ensures
        during.state(running) == HandlerState::Dispatching,
        during.state(other) == before.state(other),
        during.handler(other) == before.handler(other),
{
    if before.contains(other) {
        assert(before.names()[before.position(other)] == other);
        assert(before.names()[before.position(running)] == running);
    }
}

} // verus!
