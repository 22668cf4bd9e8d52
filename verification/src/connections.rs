//! The registry of live client connections: client identifier to connection
//! handle. Entries come and go with connects and disconnects, driven from
//! outside; comment fan-out only reads it.

use vstd::prelude::*;
use vstd::pervasive::VecAdditionalExecFns;

verus! {

/// Maps each connected client identifier to the handle of its live
/// connection. A handle is an opaque token the caller uses to reach the
/// actual connection; this registry never dereferences one.
pub struct ConnectionRegistry {
    pub entries: Vec<(String, u64)>,
}

impl ConnectionRegistry {
    /// At most one entry per client identifier.
    pub open spec fn wf(self) -> bool {
        forall|i: int, j: int|
            0 <= i < j < self.entries@.len() ==> self.entries@[i].0@ != self.entries@[j].0@
    }

    /// Whether `client` currently has a live connection.
    pub open spec fn resolves(self, client: Seq<char>) -> bool {
        exists|i: int| 0 <= i < self.entries@.len() && self.entries@[i].0@ == client
    }

    pub open spec fn idx_of(self, client: Seq<char>) -> int {
        choose|i: int| 0 <= i < self.entries@.len() && self.entries@[i].0@ == client
    }

    /// The handle of `client`'s connection; meaningful only when
    /// `resolves(client)` holds and entries are unique.
    pub open spec fn handle_of(self, client: Seq<char>) -> u64 {
        self.entries@[self.idx_of(client)].1
    }

    /// With unique clients, a position whose entry carries `client` is the
    /// position every client-keyed reading of the registry refers to.
    pub proof fn lemma_entry_at(self, client: Seq<char>, i: int)
        requires
            self.wf(),
            0 <= i < self.entries@.len(),
            self.entries@[i].0@ == client,
        ensures
            self.resolves(client),
            self.idx_of(client) == i,
    {
        assert(self.resolves(client));
        let j = self.idx_of(client);
        if i < j {
            assert(self.entries@[i].0@ != self.entries@[j].0@);
        } else if j < i {
            assert(self.entries@[j].0@ != self.entries@[i].0@);
        }
    }

    /// An empty registry.
    pub fn new() -> (r: ConnectionRegistry)
        ensures
            r.wf(),
            forall|c: Seq<char>| !r.resolves(c),
    {
        ConnectionRegistry { entries: Vec::new() }
    }

    /// The position of `client`'s entry, if there is one.
    fn find(&self, client: &String) -> (r: Option<usize>)
        requires
            self.wf(),
        ensures
            (r is Some) == self.resolves(client@),
            r matches Some(i) ==> 0 <= i < self.entries@.len() && self.entries@[i as int].0@
                == client@ && self.idx_of(client@) == i,
    {
        let n = self.entries.len();
        let mut i: usize = 0;
        while i < n
            invariant
                self.wf(),
                n == self.entries@.len(),
                i <= n,
                forall|k: int| 0 <= k < i ==> self.entries@[k].0@ != client@,
            decreases n - i,
        {
            if self.entries[i].0 == *client {
                proof {
                    self.lemma_entry_at(client@, i as int);
                }
                return Some(i);
            }
            i = i + 1;
        }
        None
    }

    /// The handle of `client`'s live connection, or `None` when the client
    /// is not connected.
    pub fn resolve(&self, client: &String) -> (r: Option<u64>)
        requires
            self.wf(),
        ensures
            (r is Some) == self.resolves(client@),
            r matches Some(h) ==> h == self.handle_of(client@),
    {
        match self.find(client) {
            None => None,
            Some(i) => Some(self.entries[i].1),
        }
    }

    /// Binds `client` to `handle`, replacing any earlier binding. Called on
    /// connect. Every other client's binding reads the same afterwards.
    pub fn register(&mut self, client: String, handle: u64)
        requires
            old(self).wf(),
        ensures
            final(self).wf(),
            final(self).resolves(client@),
            final(self).handle_of(client@) == handle,
            forall|c: Seq<char>|
                c != client@ ==> final(self).resolves(c) == old(self).resolves(c),
            forall|c: Seq<char>|
                c != client@ && old(self).resolves(c) ==> final(self).handle_of(c) == old(self).handle_of(c),
    {
        let found = self.find(&client);
        let ghost prev = *self;
        match found {
            Some(i) => {
                let ghost oldpair = self.entries@[i as int];
                self.entries.set(i, (client, handle));
                proof {
                    assert forall|a: int, b: int|
                        0 <= a < b < self.entries@.len() implies self.entries@[a].0@
                        != self.entries@[b].0@ by {
                        assert(prev.entries@[a].0@ != prev.entries@[b].0@);
                        assert(self.entries@[a].0@ == prev.entries@[a].0@);
                        assert(self.entries@[b].0@ == prev.entries@[b].0@);
                    }
                    assert(self.wf());
                    self.lemma_entry_at(oldpair.0@, i as int);
                    assert(self.handle_of(oldpair.0@) == handle);
                    assert forall|c: Seq<char>|
                        c != oldpair.0@ implies self.resolves(c) == prev.resolves(c) by {
                        if self.resolves(c) {
                            let k = self.idx_of(c);
                            assert(prev.entries@[k].0@ == c);
                            assert(prev.resolves(c));
                        }
                        if prev.resolves(c) {
                            let k = prev.idx_of(c);
                            assert(self.entries@[k].0@ == c);
                            assert(self.resolves(c));
                        }
                    }
                    assert forall|c: Seq<char>|
                        c != oldpair.0@ && prev.resolves(c) implies self.handle_of(c)
                        == prev.handle_of(c) by {
                        let k = prev.idx_of(c);
                        prev.lemma_entry_at(c, k);
                        self.lemma_entry_at(c, k);
                    }
                }
            },
            None => {
                let ghost cv = client@;
                self.entries.push((client, handle));
                proof {
                    let len = prev.entries@.len() as int;
                    assert(self.entries@[len].0@ == cv);
                    assert forall|a: int, b: int|
                        0 <= a < b < self.entries@.len() implies self.entries@[a].0@
                        != self.entries@[b].0@ by {
                        if b < len {
                            assert(prev.entries@[a].0@ != prev.entries@[b].0@);
                        } else {
                            assert(self.entries@[a].0@ == prev.entries@[a].0@);
                            assert(!prev.resolves(cv));
                        }
                    }
                    assert(self.wf());
                    self.lemma_entry_at(cv, len);
                    assert forall|c: Seq<char>|
                        c != cv implies self.resolves(c) == prev.resolves(c) by {
                        if self.resolves(c) {
                            let k = self.idx_of(c);
                            assert(k < len);
                            assert(prev.entries@[k].0@ == c);
                            assert(prev.resolves(c));
                        }
                        if prev.resolves(c) {
                            let k = prev.idx_of(c);
                            assert(self.entries@[k].0@ == c);
                            assert(self.resolves(c));
                        }
                    }
                    assert forall|c: Seq<char>|
                        c != cv && prev.resolves(c) implies self.handle_of(c) == prev.handle_of(
                            c,
                        ) by {
                        let k = prev.idx_of(c);
                        prev.lemma_entry_at(c, k);
                        self.lemma_entry_at(c, k);
                    }
                }
            },
        }
    }

    /// Drops `client`'s binding, if any. Called on disconnect, so that a
    /// dead handle is never resolved again. Every other client's binding
    /// reads the same afterwards.
    pub fn unregister(&mut self, client: &String)
        requires
            old(self).wf(),
        ensures
            final(self).wf(),
            !final(self).resolves(client@),
            forall|c: Seq<char>|
                c != client@ ==> final(self).resolves(c) == old(self).resolves(c),
            forall|c: Seq<char>|
                c != client@ && old(self).resolves(c) ==> final(self).handle_of(c) == old(self).handle_of(c),
    {
        let found = self.find(client);
        let ghost prev = *self;
        match found {
            None => {
                proof {
                    assert(!self.resolves(client@));
                }
            },
            Some(i) => {
                self.entries.swap_remove(i);
                proof {
                    let len = prev.entries@.len() as int;
                    let last = prev.entries@[len - 1];
                    assert forall|a: int, b: int|
                        0 <= a < b < self.entries@.len() implies self.entries@[a].0@
                        != self.entries@[b].0@ by {
                        let pa: int = if a == i as int { len - 1 } else { a };
                        let pb: int = if b == i as int { len - 1 } else { b };
                        assert(self.entries@[a] == prev.entries@[pa]);
                        assert(self.entries@[b] == prev.entries@[pb]);
                    }
                    assert(self.wf());
                    assert forall|c: Seq<char>| self.resolves(c) implies c != client@
                        && prev.resolves(c) by {
                        let k = self.idx_of(c);
                        let pk: int = if k == i as int { len - 1 } else { k };
                        assert(self.entries@[k] == prev.entries@[pk]);
                        assert(prev.entries@[pk].0@ == c);
                        assert(prev.resolves(c));
                        prev.lemma_entry_at(c, pk);
                        assert(prev.idx_of(client@) == i);
                        if pk == i as int {
                            assert(c == client@);
                            assert(false);
                        }
                    }
                    assert forall|c: Seq<char>|
                        c != client@ && prev.resolves(c) implies self.resolves(c)
                        && self.handle_of(c) == prev.handle_of(c) by {
                        let pk = prev.idx_of(c);
                        prev.lemma_entry_at(c, pk);
                        assert(pk != i as int);
                        let k: int = if pk == len - 1 {
                            i as int
                        } else {
                            pk
                        };
                        if k < self.entries@.len() {
                            assert(self.entries@[k] == prev.entries@[pk]);
                            self.lemma_entry_at(c, k);
                        }
                    }
                }
            },
        }
    }
}

} // verus!
