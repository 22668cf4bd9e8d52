//! A chat room: a name, a set of member client identifiers, and an ordered,
//! append-only log of comments.

use vstd::prelude::*;

verus! {

/// A named room. `comments` only ever grows, and `members` has set
/// semantics: no client identifier occurs twice.
pub struct Room {
    pub name: String,
    pub members: Vec<String>,
    pub comments: Vec<String>,
}

impl Room {
    /// Member identifiers form a set: no duplicates.
    pub open spec fn wf(self) -> bool {
        forall|i: int, j: int|
            0 <= i < j < self.members@.len() ==> self.members@[i]@ != self.members@[j]@
    }

    /// The comment log, oldest first.
    pub open spec fn comments_view(self) -> Seq<Seq<char>> {
        self.comments.deep_view()
    }

    /// The member identifiers, in insertion order.
    pub open spec fn members_view(self) -> Seq<Seq<char>> {
        self.members.deep_view()
    }

    pub open spec fn is_member(self, client: Seq<char>) -> bool {
        self.members_view().contains(client)
    }

    /// A fresh room: no members, no comments.
    pub fn new(name: String) -> (r: Room)
        ensures
            r.name@ == name@,
            r.comments_view() == Seq::<Seq<char>>::empty(),
            r.members_view() == Seq::<Seq<char>>::empty(),
            r.wf(),
    {
        let r = Room { name, members: Vec::new(), comments: Vec::new() };
        proof {
            assert(r.comments_view() =~= Seq::<Seq<char>>::empty());
            assert(r.members_view() =~= Seq::<Seq<char>>::empty());
        }
        r
    }

    /// Appends one comment to the log; nothing else changes. The comment is
    /// accepted as-is: no content is rejected.
    pub fn add_comment(&mut self, comment: String)
        ensures
            final(self).comments_view() == old(self).comments_view().push(comment@),
            final(self).name == old(self).name,
            final(self).members == old(self).members,
            final(self).wf() == old(self).wf(),
    {
        self.comments.push(comment);
        proof {
            assert(self.comments_view() =~= old(self).comments_view().push(comment@));
        }
    }

    /// Adds a client to the member set. Returns whether the client was new;
    /// a client already present is left alone, keeping set semantics.
    pub fn add_member(&mut self, client: String) -> (added: bool)
        requires
            old(self).wf(),
        ensures
            final(self).wf(),
            final(self).name == old(self).name,
            final(self).comments == old(self).comments,
            added == !old(self).is_member(client@),
            added ==> final(self).members_view() == old(self).members_view().push(client@),
            !added ==> final(self).members == old(self).members,
            final(self).is_member(client@),
            forall|c: Seq<char>|
                c != client@ ==> final(self).is_member(c) == old(self).is_member(c),
    {
        let n = self.members.len();
        let mut i: usize = 0;
        while i < n
            invariant
                *self == *old(self),
                old(self).wf(),
                n == self.members@.len(),
                i <= n,
                forall|k: int| 0 <= k < i ==> self.members@[k]@ != client@,
            decreases n - i,
        {
            if self.members[i] == client {
                proof {
                    assert(self.members_view()[i as int] == client@);
                    assert(self.is_member(client@));
                }
                return false;
            }
            i = i + 1;
        }
        proof {
            assert forall|k: int|
                0 <= k < self.members_view().len() implies self.members_view()[k] != client@ by {
                assert(self.members@[k]@ != client@);
            }
            assert(!self.is_member(client@));
        }
        self.members.push(client);
        proof {
            assert(self.members_view() =~= old(self).members_view().push(client@));
            assert(self.members_view()[self.members_view().len() - 1] == client@);
            assert(self.is_member(client@));
            assert forall|c: Seq<char>|
                c != client@ implies self.is_member(c) == old(self).is_member(c) by {
                if old(self).is_member(c) {
                    let k = choose|k: int|
                        0 <= k < old(self).members_view().len() && old(self).members_view()[k]
                            == c;
                    assert(self.members_view()[k] == c);
                }
                if self.is_member(c) {
                    let k = choose|k: int|
                        0 <= k < self.members_view().len() && self.members_view()[k] == c;
                    assert(k < old(self).members_view().len());
                    assert(old(self).members_view()[k] == c);
                }
            }
        }
        true
    }

    /// A copy of the comment log, not a live view.
    pub fn snapshot_comments(&self) -> (r: Vec<String>)
        ensures
            r.deep_view() == self.comments_view(),
    {
        let r = self.comments.clone();
        proof {
            assert(r.deep_view() =~= self.comments_view());
        }
        r
    }

    /// A copy of the member set, not a live view.
    pub fn snapshot_members(&self) -> (r: Vec<String>)
        ensures
            r.deep_view() == self.members_view(),
    {
        let r = self.members.clone();
        proof {
            assert(r.deep_view() =~= self.members_view());
        }
        r
    }
}

} // verus!
