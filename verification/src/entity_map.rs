//! The entity identity map: which remote identity stands for which local
//! one. Each identity has at most one partner, and the two directions
//! always agree.

use vstd::prelude::*;
use std::collections::HashMap;

verus! {

broadcast use vstd::std_specs::hash::group_hash_axioms;

/// Why the map refused a call.
#[derive(Clone, Copy, Debug, PartialEq, Eq, Structural)]
pub enum IdentityError {
    /// The local identity already has a partner.
    LocalTaken,
    /// The remote identity already has a partner.
    RemoteTaken,
    /// The identity has no partner.
    Missing,
}

/// Pairs of a local and a remote identity.
pub struct EntityMap {
    to_remote: HashMap<u64, u64>,
    to_local: HashMap<u64, u64>,
}

impl EntityMap {
    /// The remote partner of each paired local identity.
    pub closed spec fn remotes(&self) -> Map<u64, u64> {
        self.to_remote@
    }

    /// The local partner of each paired remote identity.
    pub closed spec fn locals(&self) -> Map<u64, u64> {
        self.to_local@
    }

    /// The two directions hold the same pairs.
    pub open spec fn wf(&self) -> bool {
        &&& forall|local: u64| #[trigger]
            self.remotes().contains_key(local) ==> self.locals().contains_key(
                self.remotes()[local],
            ) && self.locals()[self.remotes()[local]] == local
        &&& forall|remote: u64| #[trigger]
            self.locals().contains_key(remote) ==> self.remotes().contains_key(
                self.locals()[remote],
            ) && self.remotes()[self.locals()[remote]] == remote
    }

    /// The remote partner of `local`.
    pub open spec fn remote_of(&self, local: u64) -> Option<u64> {
        if self.remotes().contains_key(local) {
            Some(self.remotes()[local])
        } else {
            None
        }
    }

    /// The local partner of `remote`.
    pub open spec fn local_of(&self, remote: u64) -> Option<u64> {
        if self.locals().contains_key(remote) {
            Some(self.locals()[remote])
        } else {
            None
        }
    }

    /// A map without pairs.
    pub fn new() -> (map: Self)
        ensures
            map.wf(),
            map.remotes() == Map::<u64, u64>::empty(),
            map.locals() == Map::<u64, u64>::empty(),
    {
        EntityMap { to_remote: HashMap::new(), to_local: HashMap::new() }
    }

    /// The remote partner of `local`, if it has one.
    pub fn lookup_by_local(&self, local: u64) -> (remote: Option<u64>)
        ensures
            remote == self.remote_of(local),
    {
        match self.to_remote.get(&local) {
            Some(remote) => Some(*remote),
            None => None,
        }
    }

    /// The local partner of `remote`, if it has one.
    pub fn lookup_by_remote(&self, remote: u64) -> (local: Option<u64>)
        ensures
            local == self.local_of(remote),
    {
        match self.to_local.get(&remote) {
            Some(local) => Some(*local),
            None => None,
        }
    }

    /// Pairs `local` with `remote`. Where either already has a partner the
    /// pair is refused and the map stays as it was: a pair never replaces
    /// another silently.
    pub fn insert(&mut self, local: u64, remote: u64) -> (inserted: Result<(), IdentityError>)
        requires
            old(self).wf(),
        ensures
            final(self).wf(),
            match inserted {
                Ok(()) => {
                    &&& old(self).remote_of(local) is None
                    &&& old(self).local_of(remote) is None
                    &&& final(self).remotes() == old(self).remotes().insert(local, remote)
                    &&& final(self).locals() == old(self).locals().insert(remote, local)
                    &&& final(self).remote_of(local) == Some(remote)
                    &&& final(self).local_of(remote) == Some(local)
                },
                Err(refused) => {
                    &&& final(self).remotes() == old(self).remotes()
                    &&& final(self).locals() == old(self).locals()
                    &&& refused == if old(self).remote_of(local) is Some {
                        IdentityError::LocalTaken
                    } else {
                        IdentityError::RemoteTaken
                    }
                    &&& old(self).remote_of(local) is Some || old(self).local_of(remote) is Some
                },
            },
    {
        if self.to_remote.contains_key(&local) {
            return Err(IdentityError::LocalTaken);
        }
        if self.to_local.contains_key(&remote) {
            return Err(IdentityError::RemoteTaken);
        }
        self.to_remote.insert(local, remote);
        self.to_local.insert(remote, local);
        Ok(())
    }

    /// Parts `local` from its partner and hands the partner out.
    pub fn remove_by_local(&mut self, local: u64) -> (removed: Result<u64, IdentityError>)
        requires
            old(self).wf(),
        ensures
            final(self).wf(),
            match removed {
                Ok(remote) => {
                    &&& old(self).remote_of(local) == Some(remote)
                    &&& final(self).remotes() == old(self).remotes().remove(local)
                    &&& final(self).locals() == old(self).locals().remove(remote)
                },
                Err(refused) => {
                    &&& refused == IdentityError::Missing
                    &&& old(self).remote_of(local) is None
                    &&& final(self).remotes() == old(self).remotes()
                    &&& final(self).locals() == old(self).locals()
                },
            },
    {
        match self.to_remote.remove(&local) {
            Some(remote) => {
                self.to_local.remove(&remote);
                proof {
                    assert(old(self).remotes().contains_key(local));
                    assert(self.remotes() =~= old(self).remotes().remove(local));
                    assert(self.locals() =~= old(self).locals().remove(remote));
                    assert forall|l: u64| #[trigger] self.remotes().contains_key(l) implies {
                        &&& self.locals().contains_key(self.remotes()[l])
                        &&& self.locals()[self.remotes()[l]] == l
                    } by {
                        assert(old(self).remotes().contains_key(l));
                    }
                    assert forall|r: u64| #[trigger] self.locals().contains_key(r) implies {
                        &&& self.remotes().contains_key(self.locals()[r])
                        &&& self.remotes()[self.locals()[r]] == r
                    } by {
                        assert(old(self).locals().contains_key(r));
                    }
                }
                Ok(remote)
            },
            None => {
                proof {
                    assert(self.remotes() =~= old(self).remotes());
                    assert(self.locals() =~= old(self).locals());
                }
                Err(IdentityError::Missing)
            },
        }
    }

    /// Parts `remote` from its partner and hands the partner out.
    pub fn remove_by_remote(&mut self, remote: u64) -> (removed: Result<u64, IdentityError>)
        requires
            old(self).wf(),
        ensures
            final(self).wf(),
            match removed {
                Ok(local) => {
                    &&& old(self).local_of(remote) == Some(local)
                    &&& final(self).remotes() == old(self).remotes().remove(local)
                    &&& final(self).locals() == old(self).locals().remove(remote)
                },
                Err(refused) => {
                    &&& refused == IdentityError::Missing
                    &&& old(self).local_of(remote) is None
                    &&& final(self).remotes() == old(self).remotes()
                    &&& final(self).locals() == old(self).locals()
                },
            },
    {
        match self.to_local.remove(&remote) {
            Some(local) => {
                self.to_remote.remove(&local);
                proof {
                    assert(old(self).locals().contains_key(remote));
                    assert(self.remotes() =~= old(self).remotes().remove(local));
                    assert(self.locals() =~= old(self).locals().remove(remote));
                    assert forall|l: u64| #[trigger] self.remotes().contains_key(l) implies {
                        &&& self.locals().contains_key(self.remotes()[l])
                        &&& self.locals()[self.remotes()[l]] == l
                    } by {
                        assert(old(self).remotes().contains_key(l));
                    }
                    assert forall|r: u64| #[trigger] self.locals().contains_key(r) implies {
                        &&& self.remotes().contains_key(self.locals()[r])
                        &&& self.remotes()[self.locals()[r]] == r
                    } by {
                        assert(old(self).locals().contains_key(r));
                    }
                }
                Ok(local)
            },
            None => {
                proof {
                    assert(self.remotes() =~= old(self).remotes());
                    assert(self.locals() =~= old(self).locals());
                }
                Err(IdentityError::Missing)
            },
        }
    }

    /// How many pairs the map holds.
    pub fn len(&self) -> (n: usize)
        ensures
            n == self.remotes().len(),
    {
        self.to_remote.len()
    }
}

/// The two lookups always agree: `remote` is the partner of `local`
/// exactly where `local` is the partner of `remote`.
pub proof fn lemma_lookups_agree(map: &EntityMap, local: u64, remote: u64)
    requires
        map.wf(),
    ensures
        map.remote_of(local) == Some(remote) <==> map.local_of(remote) == Some(local),
{
    if map.remote_of(local) == Some(remote) {
        assert(map.remotes().contains_key(local));
    }
    if map.local_of(remote) == Some(local) {
        assert(map.locals().contains_key(remote));
    }
}

/// No identity has two partners: two pairs with the same local identity,
/// or with the same remote identity, are the same pair.
pub proof fn lemma_partners_are_unique(map: &EntityMap, a: u64, b: u64)
    requires
        map.wf(),
        map.remote_of(a) is Some,
        map.remote_of(a) == map.remote_of(b),
    ensures
        a == b,
{
    assert(map.remotes().contains_key(a));
    assert(map.remotes().contains_key(b));
}

} // verus!
