//! The orchestrator: one shared value composing the room registry and the
//! connection registry. Posting a comment appends it to the room's log,
//! resolves the room's members to live connections, and hands back the
//! deliveries to perform — delivery itself is the caller's fire-and-forget
//! job and can never fail the post.

use vstd::prelude::*;
use crate::connections::ConnectionRegistry;
use crate::json;
use crate::room::Room;
use crate::rooms::CreateStatus;
use crate::rooms::RoomRegistry;

verus! {

/// The room a request path names.
pub struct RoomSelection {
    pub room: String,
}

/// One push the caller must perform: deliver `payload` to the connection
/// behind `handle`. The caller's failure to deliver is swallowed, never
/// surfaced.
pub struct Delivery {
    pub handle: u64,
    pub payload: String,
}

/// The handles of the members that have a live connection, in member order;
/// members without one are silently skipped.
pub open spec fn resolved_handles(
    members: Seq<Seq<char>>,
    connections: ConnectionRegistry,
) -> Seq<u64>
    decreases members.len(),
{
    if members.len() == 0 {
        Seq::empty()
    } else {
        resolved_handles(members.drop_last(), connections) + (
        if connections.resolves(members.last()) {
            seq![connections.handle_of(members.last())]
        } else {
            Seq::<u64>::empty()
        })
    }
}

/// The room list as served on the list endpoint: a JSON array with one
/// summary per room.
pub open spec fn room_list_json_view(rooms: Seq<Room>) -> Seq<char> {
    json::json_array(
        rooms.map_values(|rm: Room| json::room_summary_json(rm.name@, rm.members_view())),
    )
}

/// The shared chat state: every operation of the backend goes through one
/// value of this type.
pub struct ChatBox {
    pub rooms: RoomRegistry,
    pub connections: ConnectionRegistry,
}

impl ChatBox {
    pub open spec fn wf(self) -> bool {
        self.rooms.wf() && self.connections.wf()
    }

    /// A fresh backend: no rooms, no connections.
    pub fn new() -> (r: ChatBox)
        ensures
            r.wf(),
            r.rooms.rooms@.len() == 0,
            forall|n: Seq<char>| !r.rooms.has_room(n),
            forall|c: Seq<char>| !r.connections.resolves(c),
    {
        ChatBox { rooms: RoomRegistry::new(), connections: ConnectionRegistry::new() }
    }

    /// Creates the named room if it is absent. Idempotent: a create of an
    /// existing name reports `AlreadyExists` and leaves every room — its
    /// comments and its members — exactly as it was; a create of a new name
    /// adds an empty room and touches no other.
    pub fn create_room(&mut self, selection: &RoomSelection) -> (r: CreateStatus)
        requires
            old(self).wf(),
        ensures
            final(self).wf(),
            final(self).connections == old(self).connections,
            (r == CreateStatus::AlreadyExists) == old(self).rooms.has_room(selection.room@),
            old(self).rooms.has_room(selection.room@) ==> *final(self) == *old(self),
            !old(self).rooms.has_room(selection.room@) ==> {
                &&& r == CreateStatus::Created
                &&& final(self).rooms.room_comments(selection.room@) == Seq::<Seq<char>>::empty()
                &&& final(self).rooms.room_members(selection.room@) == Seq::<Seq<char>>::empty()
            },
            final(self).rooms.has_room(selection.room@),
            forall|n: Seq<char>|
                final(self).rooms.has_room(n) == (n == selection.room@ || old(self).rooms.has_room(n)),
            forall|n: Seq<char>|
                old(self).rooms.has_room(n) ==> final(self).rooms.room_comments(n) == old(self).rooms.room_comments(n) && final(self).rooms.room_members(n) == old(self).rooms.room_members(n),
    {
        let name = selection.room.clone();
        self.rooms.create_room(name)
    }

    /// The central operation. Appends `text` to the named room's log, then
    /// resolves each member of that room — a snapshot taken at append time —
    /// to a live connection and computes one delivery of the comment event
    /// per resolved member. Members without a connection are skipped, no
    /// other room is touched, and a missing room changes nothing and reports
    /// `None` so the caller can surface the miss.
    pub fn post_comment(&mut self, selection: &RoomSelection, text: String) -> (r: Option<
        Vec<Delivery>,
    >)
        requires
            old(self).wf(),
        ensures
            final(self).wf(),
            final(self).connections == old(self).connections,
            (r is Some) == old(self).rooms.has_room(selection.room@),
            r is None ==> *final(self) == *old(self),
            r matches Some(deliveries) ==> ({
                &&& final(self).rooms.room_comments(selection.room@) == old(self).rooms.room_comments(selection.room@).push(text@)
                &&& final(self).rooms.room_members(selection.room@) == old(self).rooms.room_members(selection.room@)
                &&& forall|n: Seq<char>|
                    final(self).rooms.has_room(n) == old(self).rooms.has_room(n)
                &&& forall|n: Seq<char>|
                    n != selection.room@ && old(self).rooms.has_room(n) ==> final(self).rooms.room_comments(n) == old(self).rooms.room_comments(n) && final(self).rooms.room_members(n) == old(self).rooms.room_members(n)
                &&& deliveries@.map_values(|d: Delivery| d.handle) == resolved_handles(
                    old(self).rooms.room_members(selection.room@),
                    old(self).connections,
                )
                &&& forall|k: int|
                    0 <= k < deliveries@.len() ==> deliveries@[k].payload@
                        == json::comment_event(selection.room@, text@)
            }),
    {
        let ghost tv = text@;
        let payload = json::comment_event_of(selection.room.as_str(), text.as_str());
        match self.rooms.post(&selection.room, text) {
            None => None,
            Some(members) => {
                let ghost conns = self.connections;
                let ghost mv = members.deep_view();
                let mut deliveries: Vec<Delivery> = Vec::new();
                let n = members.len();
                let mut i: usize = 0;
                proof {
                    assert(resolved_handles(mv.subrange(0, 0), conns)
                        =~= Seq::<u64>::empty());
                }
                while i < n
                    invariant
                        self.connections == conns,
                        conns.wf(),
                        n == members@.len(),
                        mv == members.deep_view(),
                        i <= n,
                        payload@ == json::comment_event(selection.room@, tv),
                        deliveries@.map_values(|d: Delivery| d.handle) == resolved_handles(
                            mv.subrange(0, i as int),
                            conns,
                        ),
                        forall|k: int|
                            0 <= k < deliveries@.len() ==> deliveries@[k].payload@ == payload@,
                    decreases n - i,
                {
                    let ghost dprev = deliveries@;
                    match self.connections.resolve(&members[i]) {
                        Some(h) => {
                            deliveries.push(Delivery { handle: h, payload: payload.clone() });
                        },
                        None => {},
                    }
                    proof {
                        assert(mv.subrange(0, i as int + 1).drop_last() =~= mv.subrange(
                            0,
                            i as int,
                        ));
                        assert(mv.subrange(0, i as int + 1).last() == members@[i as int]@);
                        if conns.resolves(members@[i as int]@) {
                            assert(deliveries@.last().handle == conns.handle_of(
                                members@[i as int]@,
                            ));
                            assert(deliveries@.map_values(|d: Delivery| d.handle)
                                =~= dprev.map_values(|d: Delivery| d.handle).push(
                                conns.handle_of(members@[i as int]@),
                            ));
                        } else {
                            assert(deliveries@.map_values(|d: Delivery| d.handle)
                                =~= dprev.map_values(|d: Delivery| d.handle));
                        }
                        assert(deliveries@.map_values(|d: Delivery| d.handle)
                            =~= resolved_handles(mv.subrange(0, i as int + 1), conns));
                    }
                    i = i + 1;
                }
                proof {
                    assert(mv.subrange(0, n as int) =~= mv);
                }
                Some(deliveries)
            },
        }
    }

    /// Adds `client` to the named room's member set, making it a recipient
    /// of that room's future comment events. No HTTP operation seeds
    /// membership, so this explicit join is how a caller — for instance the
    /// push-channel handshake — binds a client into the room it opened.
    pub fn join_room(&mut self, selection: &RoomSelection, client: String) -> (r: Option<bool>)
        requires
            old(self).wf(),
        ensures
            final(self).wf(),
            final(self).connections == old(self).connections,
            (r is Some) == old(self).rooms.has_room(selection.room@),
            r is None ==> *final(self) == *old(self),
            r matches Some(added) ==> ({
                &&& added == !old(self).rooms.room_members(selection.room@).contains(client@)
                &&& added ==> final(self).rooms.room_members(selection.room@) == old(self).rooms.room_members(selection.room@).push(client@)
                &&& !added ==> final(self).rooms.room_members(selection.room@) == old(self).rooms.room_members(selection.room@)
                &&& final(self).rooms.room_comments(selection.room@) == old(self).rooms.room_comments(selection.room@)
                &&& forall|n: Seq<char>|
                    final(self).rooms.has_room(n) == old(self).rooms.has_room(n)
                &&& forall|n: Seq<char>|
                    n != selection.room@ && old(self).rooms.has_room(n) ==> final(self).rooms.room_comments(n) == old(self).rooms.room_comments(n) && final(self).rooms.room_members(n) == old(self).rooms.room_members(n)
            }),
    {
        self.rooms.add_member(&selection.room, client)
    }

    /// Binds `client` to a live connection handle; called on connect.
    pub fn register_connection(&mut self, client: String, handle: u64)
        requires
            old(self).wf(),
        ensures
            final(self).wf(),
            final(self).rooms == old(self).rooms,
            final(self).connections.resolves(client@),
            final(self).connections.handle_of(client@) == handle,
            forall|c: Seq<char>|
                c != client@ ==> final(self).connections.resolves(c) == old(self).connections.resolves(c),
            forall|c: Seq<char>|
                c != client@ && old(self).connections.resolves(c) ==> final(self).connections.handle_of(c) == old(self).connections.handle_of(c),
    {
        self.connections.register(client, handle);
    }

    /// Drops `client`'s connection binding; called on disconnect.
    pub fn unregister_connection(&mut self, client: &String)
        requires
            old(self).wf(),
        ensures
            final(self).wf(),
            final(self).rooms == old(self).rooms,
            !final(self).connections.resolves(client@),
            forall|c: Seq<char>|
                c != client@ ==> final(self).connections.resolves(c) == old(self).connections.resolves(c),
            forall|c: Seq<char>|
                c != client@ && old(self).connections.resolves(c) ==> final(self).connections.handle_of(c) == old(self).connections.handle_of(c),
    {
        self.connections.unregister(client);
    }

    /// The named room's comment log as a JSON array of strings; `None` when
    /// the room is absent, which the caller serves as its not-found reply.
    pub fn comments_json(&self, selection: &RoomSelection) -> (r: Option<String>)
        requires
            self.wf(),
        ensures
            (r is Some) == self.rooms.has_room(selection.room@),
            r matches Some(s) ==> s@ == json::json_string_array(
                self.rooms.room_comments(selection.room@),
            ),
    {
        match self.rooms.find(&selection.room) {
            None => None,
            Some(i) => {
                proof {
                    self.rooms.lemma_room_at(selection.room@, i as int);
                }
                Some(json::json_string_array_of(&self.rooms.rooms[i].comments))
            },
        }
    }

    /// The named room's public projection — name, members, comments — as a
    /// JSON object; `None` when the room is absent.
    pub fn room_json(&self, selection: &RoomSelection) -> (r: Option<String>)
        requires
            self.wf(),
        ensures
            (r is Some) == self.rooms.has_room(selection.room@),
            r matches Some(s) ==> s@ == json::room_detail_json(
                selection.room@,
                self.rooms.room_members(selection.room@),
                self.rooms.room_comments(selection.room@),
            ),
    {
        match self.rooms.find(&selection.room) {
            None => None,
            Some(i) => {
                proof {
                    self.rooms.lemma_room_at(selection.room@, i as int);
                }
                let room = &self.rooms.rooms[i];
                Some(json::room_detail_json_of(room.name.as_str(), &room.members, &room.comments))
            },
        }
    }

    /// Every room's summary as one JSON array. With zero rooms this is the
    /// well-formed empty array `[]`, never a malformed trailing separator.
    pub fn room_list_json(&self) -> (r: String)
        requires
            self.wf(),
        ensures
            r@ == room_list_json_view(self.rooms.rooms@),
            self.rooms.rooms@.len() == 0 ==> r@ == "[]"@,
    {
        let ghost lits = self.rooms.rooms@.map_values(
            |rm: Room| json::room_summary_json(rm.name@, rm.members_view()),
        );
        let mut out = String::new();
        out.append("[");
        proof {
            reveal_strlit("[");
            assert(out@ =~= seq!['[']);
        }
        let n = self.rooms.rooms.len();
        let mut i: usize = 0;
        while i < n
            invariant
                n == self.rooms.rooms@.len(),
                i <= n,
                lits == self.rooms.rooms@.map_values(
                    (|rm: Room| json::room_summary_json(rm.name@, rm.members_view())),
                ),
                lits.len() == n,
                out@ == seq!['['] + json::comma_joined(lits.subrange(0, i as int)),
            decreases n - i,
        {
            if i > 0 {
                out.append(",");
                proof {
                    reveal_strlit(",");
                }
            }
            let room = &self.rooms.rooms[i];
            json::push_room_summary(&mut out, room.name.as_str(), &room.members);
            proof {
                assert(lits[i as int] == json::room_summary_json(
                    self.rooms.rooms@[i as int].name@,
                    self.rooms.rooms@[i as int].members_view(),
                ));
                if i == 0 {
                    assert(lits.subrange(0, 1) =~= seq![lits[0]]);
                    assert(json::comma_joined(seq![lits[0]]) == lits[0]);
                    assert(out@ =~= seq!['['] + json::comma_joined(lits.subrange(0, 1)));
                } else {
                    assert(lits.subrange(0, i as int + 1).drop_last() =~= lits.subrange(
                        0,
                        i as int,
                    ));
                    assert(lits.subrange(0, i as int + 1).last() == lits[i as int]);
                    assert(out@ =~= seq!['['] + json::comma_joined(
                        lits.subrange(0, i as int + 1),
                    ));
                }
            }
            i = i + 1;
        }
        out.append("]");
        proof {
            reveal_strlit("]");
            assert(lits.subrange(0, n as int) =~= lits);
            assert(out@ =~= room_list_json_view(self.rooms.rooms@));
            if n == 0 {
                reveal_strlit("[]");
                assert(out@ =~= "[]"@);
            }
        }
        out
    }

    /// The body served when the comment log of an absent room is requested.
    pub fn missing_room_message() -> (r: String)
        ensures
            r@ == "That room does not exist"@,
    {
        String::from_str("That room does not exist")
    }
}

/// The comment log after the texts are posted to one room in call order,
/// one post at a time; each successful `post_comment` appends exactly its
/// text, as its contract states.
pub open spec fn log_after_posts(log: Seq<Seq<char>>, texts: Seq<Seq<char>>) -> Seq<Seq<char>>
    decreases texts.len(),
{
    if texts.len() == 0 {
        log
    } else {
        log_after_posts(log.push(texts[0]), texts.drop_first())
    }
}

/// The log is append-only, with no lost and no duplicated entries: after
/// any sequence of posts to a room, the earlier log stands unchanged as a
/// prefix, the posted texts follow it in call order, and the length — the
/// count of successful appends — never decreases along the way.
pub proof fn lemma_append_only(log: Seq<Seq<char>>, texts: Seq<Seq<char>>)
    ensures
        log_after_posts(log, texts).len() == log.len() + texts.len(),
        forall|i: int| 0 <= i < log.len() ==> log_after_posts(log, texts)[i] == log[i],
        forall|j: int|
            0 <= j < texts.len() ==> log_after_posts(log, texts)[log.len() + j] == texts[j],
    decreases texts.len(),
{
    if texts.len() > 0 {
        let stepped = log.push(texts[0]);
        let rest = texts.drop_first();
        lemma_append_only(stepped, rest);
        assert(log_after_posts(log, texts) == log_after_posts(stepped, rest));
        assert forall|i: int| 0 <= i < log.len() implies log_after_posts(log, texts)[i]
            == log[i] by {
            assert(log_after_posts(stepped, rest)[i] == stepped[i]);
            assert(stepped[i] == log[i]);
        }
        assert forall|j: int|
            0 <= j < texts.len() implies log_after_posts(log, texts)[log.len() + j]
            == texts[j] by {
            if j == 0 {
                assert(log_after_posts(stepped, rest)[log.len() as int] == stepped[log.len() as int]);
            } else {
                assert(log_after_posts(stepped, rest)[stepped.len() + (j - 1)] == rest[j - 1]);
                assert(rest[j - 1] == texts[j]);
            }
        }
    }
}

/// Fan-out correctness for a room with two members of which only the first
/// has a live connection: exactly one delivery is computed, to that
/// member's handle, and none to anyone else.
pub proof fn lemma_fanout_one_of_two(
    m1: Seq<char>,
    m2: Seq<char>,
    connections: ConnectionRegistry,
)
    requires
        connections.resolves(m1),
        !connections.resolves(m2),
    ensures
        resolved_handles(seq![m1, m2], connections) == seq![connections.handle_of(m1)],
{
    let ms = seq![m1, m2];
    assert(ms.drop_last() =~= seq![m1]);
    assert(seq![m1].drop_last() =~= Seq::<Seq<char>>::empty());
    assert(resolved_handles(Seq::<Seq<char>>::empty(), connections) == Seq::<u64>::empty());
    assert(resolved_handles(seq![m1], connections) =~= seq![connections.handle_of(m1)]);
    assert(resolved_handles(ms, connections) =~= seq![connections.handle_of(m1)]);
}

} // verus!
