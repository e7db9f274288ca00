//! The room directory: which connections are pending, which peers are active,
//! and who is waiting in which room.

use std::collections::HashMap;
use vstd::prelude::*;
use crate::assoc::{
    as_map, has_key, keys_unique, lemma_as_map_at, lemma_as_map_push, lemma_as_map_remove,
    lemma_as_map_update,
};
use crate::room::{ClientAddr, PeerId, RequestedRoom, RoomKey};
use crate::transport::{channel_send, SignalingChannel};

verus! {

broadcast use vstd::std_specs::hash::group_hash_axioms;

/// Why the directory refused an operation.
#[derive(Debug, Clone, Copy, PartialEq, Eq, Structural)]
pub enum DirectoryError {
    /// The address is pending already.
    DuplicateAddress,
    /// No connection is pending at the address.
    UnknownAddress,
    /// No connection is pending under the identity.
    UnknownPendingPeer,
    /// No peer is active under the identity.
    UnknownPeer,
}

/// A peer that has joined: its identity, its room, and the handle through
/// which events reach its connection.
#[derive(Debug)]
pub struct Peer {
    pub uuid: PeerId,
    pub room: RequestedRoom,
    pub sender: SignalingChannel,
}

/// What the directory holds, as four maps.
pub struct Directory {
    /// The room each connection asked for, by address, until it has an identity.
    pub waiting: Map<ClientAddr, RequestedRoom>,
    /// The room each connection asked for, by identity, until it joins.
    pub queued: Map<PeerId, RequestedRoom>,
    /// The peers that have joined.
    pub active: Map<PeerId, Peer>,
    /// Who is waiting for each room to fill.
    pub rooms: Map<RoomKey, Set<PeerId>>,
}

impl Directory {
    /// The directory that holds nothing.
    pub open spec fn empty() -> Directory {
        Directory { waiting: Map::empty(), queued: Map::empty(), active: Map::empty(), rooms: Map::empty() }
    }

    /// Records that the connection at `origin` asked for `room`.
    pub open spec fn register(self, origin: ClientAddr, room: RequestedRoom) -> Directory {
        Directory { waiting: self.waiting.insert(origin, room), ..self }
    }

    /// Files the room pending at `origin` under `peer_id` instead.
    pub open spec fn promote(self, origin: ClientAddr, peer_id: PeerId) -> Directory {
        Directory {
            waiting: self.waiting.remove(origin),
            queued: self.queued.insert(peer_id, self.waiting[origin]),
            ..self
        }
    }

    /// Takes out what is pending under `peer_id`.
    pub open spec fn claim(self, peer_id: PeerId) -> Directory {
        Directory { queued: self.queued.remove(peer_id), ..self }
    }

    /// Who is waiting in `room`: nobody, where the room is not listed.
    pub open spec fn members(self, room: RoomKey) -> Set<PeerId> {
        if self.rooms.contains_key(room) {
            self.rooms[room]
        } else {
            Set::empty()
        }
    }

    /// Whoever waits in a room is an active peer of that room. The converse
    /// need not hold: a room that has just filled lists nobody.
    pub open spec fn consistent(self) -> bool {
        forall|room: RoomKey, id: PeerId|
            self.rooms.contains_key(room) && #[trigger] self.rooms[room].contains(id)
                ==> self.active.contains_key(id) && self.active[id].room@ == room
    }

    /// Who waits in the room of `peer` once `peer` has joined: nobody, where
    /// it completes the room; else those who waited, and `peer`.
    pub open spec fn members_after_join(self, peer: Peer) -> Set<PeerId> {
        let prior = self.members(peer.room@);
        if completes(prior.len(), peer.room.next) {
            Set::empty()
        } else {
            prior.insert(peer.uuid)
        }
    }

    /// Makes `peer` active and runs the room-fill rule on its room.
    pub open spec fn join(self, peer: Peer) -> Directory {
        Directory {
            active: self.active.insert(peer.uuid, peer),
            rooms: self.rooms.insert(peer.room@, self.members_after_join(peer)),
            ..self
        }
    }

    /// Takes the peer `peer_id` out, and out of the waiting list of its room,
    /// where it is active; changes nothing where it is not.
    pub open spec fn leave(self, peer_id: PeerId) -> Directory {
        if self.active.contains_key(peer_id) {
            let room = self.active[peer_id].room@;
            Directory {
                active: self.active.remove(peer_id),
                rooms: if self.rooms.contains_key(room) {
                    self.rooms.insert(room, self.rooms[room].remove(peer_id))
                } else {
                    self.rooms
                },
                ..self
            }
        } else {
            self
        }
    }
}

/// The room-fill rule: a peer that finds `waiting` peers in a room of
/// capacity `next` completes it exactly when it is the last one missing.
pub open spec fn completes(waiting: nat, next: Option<usize>) -> bool {
    match next {
        Some(n) => n >= 1 && waiting == n - 1,
        None => false,
    }
}

/// Whether a message was handed to a peer's channel.
#[derive(Debug, Clone, Copy, PartialEq, Eq, Structural)]
pub enum Handoff {
    /// The channel took the message.
    Queued,
    /// The channel is closed: the message is lost.
    Undeliverable,
}

/// One room with the peers waiting in it.
#[derive(Debug)]
struct RoomEntry {
    room: RequestedRoom,
    peers: Vec<PeerId>,
}

/// The directory. All four structures are private: they change only through
/// the operations below, which keep every address and every room listed once
/// and every peer once in a room.
#[derive(Debug)]
pub struct ServerState {
    clients_waiting: Vec<(ClientAddr, RequestedRoom)>,
    clients_in_queue: HashMap<PeerId, RequestedRoom>,
    clients: HashMap<PeerId, Peer>,
    rooms: Vec<RoomEntry>,
}

/// The rooms as pairs of a key and a set.
spec fn room_pairs(rooms: Seq<RoomEntry>) -> Seq<(RoomKey, Set<PeerId>)> {
    rooms.map_values(|e: RoomEntry| (e.room@, e.peers@.to_set()))
}

/// No room is listed twice, and no peer twice in one room.
spec fn rooms_wf(rooms: Seq<RoomEntry>) -> bool {
    &&& keys_unique(room_pairs(rooms))
    &&& forall|i: int| 0 <= i < rooms.len() ==> (#[trigger] rooms[i]).peers@.no_duplicates()
}

/// Who waits in `room` once the peer `id` has joined it, given who waited.
spec fn waiting_after(prior: Set<PeerId>, room: RequestedRoom, id: PeerId) -> Set<PeerId> {
    if completes(prior.len(), room.next) {
        Set::empty()
    } else {
        prior.insert(id)
    }
}

/// Where `origin` is listed among the pending addresses, if it is.
fn find_waiting(waiting: &Vec<(ClientAddr, RequestedRoom)>, origin: ClientAddr) -> (found: Option<
    usize,
>)
    ensures
        match found {
            Some(i) => i < waiting@.len() && waiting@[i as int].0 == origin,
            None => !has_key(waiting@, origin),
        },
{
    let mut i: usize = 0;
    while i < waiting.len()
        invariant
            i <= waiting@.len(),
            forall|j: int| 0 <= j < i ==> (#[trigger] waiting@[j]).0 != origin,
        decreases waiting@.len() - i,
    {
        if waiting[i].0 == origin {
            return Some(i);
        }
        i += 1;
    }
    None
}

/// Where `room` is listed, if it is.
fn find_room(rooms: &Vec<RoomEntry>, room: &RequestedRoom) -> (found: Option<usize>)
    ensures
        match found {
            Some(i) => i < rooms@.len() && rooms@[i as int].room@ == room@,
            None => !has_key(room_pairs(rooms@), room@),
        },
{
    let mut i: usize = 0;
    while i < rooms.len()
        invariant
            i <= rooms@.len(),
            forall|j: int| 0 <= j < i ==> (#[trigger] rooms@[j]).room@ != room@,
        decreases rooms@.len() - i,
    {
        if rooms[i].room.same_as(room) {
            return Some(i);
        }
        i += 1;
    }
    proof {
        assert forall|j: int| 0 <= j < room_pairs(rooms@).len() implies (#[trigger] room_pairs(
            rooms@,
        )[j]).0 != room@ by {
            assert(room_pairs(rooms@)[j].0 == rooms@[j].room@);
        }
    }
    None
}

/// Those listed for `room`, each once: nobody, where the room is not listed.
fn listed(rooms: &Vec<RoomEntry>, room: &RequestedRoom) -> (peers: Vec<PeerId>)
    requires
        rooms_wf(rooms@),
    ensures
        peers@.no_duplicates(),
        as_map(room_pairs(rooms@)).contains_key(room@) ==> peers@.to_set() == as_map(
            room_pairs(rooms@),
        )[room@],
        !as_map(room_pairs(rooms@)).contains_key(room@) ==> peers@.to_set() == Set::<PeerId>::empty(),
{
    match find_room(rooms, room) {
        None => {
            let peers: Vec<PeerId> = Vec::new();
            assert(peers@.to_set() =~= Set::<PeerId>::empty());
            peers
        },
        Some(i) => {
            proof {
                lemma_as_map_at(room_pairs(rooms@), i as int);
            }
            rooms[i].peers.clone()
        },
    }
}

/// Runs the room-fill rule for the peer `id` on `room`, and returns those who
/// were listed for the room before.
fn enter_room(rooms: &mut Vec<RoomEntry>, room: RequestedRoom, id: PeerId) -> (prior: Vec<PeerId>)
    requires
        rooms_wf(old(rooms)@),
    ensures
        rooms_wf(final(rooms)@),
        prior@.no_duplicates(),
        as_map(room_pairs(old(rooms)@)).contains_key(room@) ==> prior@.to_set() == as_map(
            room_pairs(old(rooms)@),
        )[room@],
        !as_map(room_pairs(old(rooms)@)).contains_key(room@) ==> prior@.to_set() == Set::<
            PeerId,
        >::empty(),
        as_map(room_pairs(final(rooms)@)) == as_map(room_pairs(old(rooms)@)).insert(
            room@,
            waiting_after(prior@.to_set(), room, id),
        ),
{
    let ghost pairs = room_pairs(rooms@);
    match find_room(rooms, &room) {
        None => {
            let prior: Vec<PeerId> = Vec::new();
            let mut peers: Vec<PeerId> = Vec::new();
            if !fills(0, room.next) {
                peers.push(id);
            }
            proof {
                assert(prior@.to_set() =~= Set::<PeerId>::empty());
                assert(Set::<PeerId>::empty().len() == 0);
                lemma_with(prior@, id);
                assert(peers@.to_set() =~= waiting_after(prior@.to_set(), room, id));
                lemma_as_map_push(pairs, room@, peers@.to_set());
            }
            rooms.push(RoomEntry { room, peers });
            proof {
                assert(room_pairs(rooms@) =~= pairs.push((room@, peers@.to_set())));
            }
            prior
        },
        Some(i) => {
            let prior = rooms[i].peers.clone();
            proof {
                lemma_as_map_at(pairs, i as int);
                prior@.unique_seq_to_set();
            }
            if fills(prior.len(), room.next) {
                rooms[i].peers.clear();
            } else if position(&prior, id).is_none() {
                rooms[i].peers.push(id);
            }
            proof {
                let after = rooms@[i as int].peers@;
                lemma_with(prior@, id);
                assert(Seq::<PeerId>::empty().to_set() =~= Set::<PeerId>::empty());
                assert(after.to_set() =~= waiting_after(prior@.to_set(), room, id));
                lemma_as_map_update(pairs, i as int, after.to_set());
                assert(room_pairs(rooms@) =~= pairs.update(i as int, (room@, after.to_set())));
            }
            prior
        },
    }
}

/// Takes the peer `id` off the list of `room`, where the room is listed.
fn quit_room(rooms: &mut Vec<RoomEntry>, room: &RequestedRoom, id: PeerId)
    requires
        rooms_wf(old(rooms)@),
    ensures
        rooms_wf(final(rooms)@),
        as_map(room_pairs(final(rooms)@)) == if as_map(room_pairs(old(rooms)@)).contains_key(room@) {
            as_map(room_pairs(old(rooms)@)).insert(
                room@,
                as_map(room_pairs(old(rooms)@))[room@].remove(id),
            )
        } else {
            as_map(room_pairs(old(rooms)@))
        },
{
    let ghost pairs = room_pairs(rooms@);
    match find_room(rooms, room) {
        None => {},
        Some(i) => {
            let ghost before = rooms@[i as int].peers@;
            proof {
                lemma_as_map_at(pairs, i as int);
                lemma_without(before, id);
            }
            match position(&rooms[i].peers, id) {
                None => {},
                Some(at) => {
                    rooms[i].peers.remove(at);
                },
            }
            proof {
                let after = rooms@[i as int].peers@;
                assert(after.to_set() =~= before.to_set().remove(id));
                lemma_as_map_update(pairs, i as int, after.to_set());
                assert(room_pairs(rooms@) =~= pairs.update(i as int, (room@, after.to_set())));
            }
        },
    }
}

impl ServerState {
    /// No address and no room is listed twice, and no peer twice in one room.
    #[verifier::type_invariant]
    spec fn wf(&self) -> bool {
        &&& keys_unique(self.clients_waiting@)
        &&& rooms_wf(self.rooms@)
    }

    /// A directory that holds nothing.
    pub fn new() -> (state: ServerState)
        ensures
            state@ == Directory::empty(),
    {
        let state = ServerState {
            clients_waiting: Vec::new(),
            clients_in_queue: HashMap::new(),
            clients: HashMap::new(),
            rooms: Vec::new(),
        };
        proof {
            assert(as_map(state.clients_waiting@) =~= Map::empty());
            assert(as_map(room_pairs(state.rooms@)) =~= Map::empty());
        }
        state
    }

    /// Records that the connection at `origin` asked for `room`. An address
    /// that is pending already is refused, and nothing changes.
    pub fn add_waiting_client(&mut self, origin: ClientAddr, room: RequestedRoom) -> (done: Result<
        (),
        DirectoryError,
    >)
        ensures
            old(self)@.waiting.contains_key(origin) ==> done == Err::<(), DirectoryError>(
                DirectoryError::DuplicateAddress,
            ) && final(self)@ == old(self)@,
            !old(self)@.waiting.contains_key(origin) ==> done == Ok::<(), DirectoryError>(())
                && final(self)@ == old(self)@.register(origin, room),
    {
        proof {
            use_type_invariant(&*self);
        }
        match find_waiting(&self.clients_waiting, origin) {
            Some(_) => Err(DirectoryError::DuplicateAddress),
            None => {
                let mut waiting: Vec<(ClientAddr, RequestedRoom)> = Vec::new();
                std::mem::swap(&mut waiting, &mut self.clients_waiting);
                proof {
                    lemma_as_map_push(waiting@, origin, room);
                }
                waiting.push((origin, room));
                self.clients_waiting = waiting;
                Ok(())
            },
        }
    }

    /// Files the room pending at `origin` under `peer_id`, and returns it.
    /// Fails, changing nothing, where no connection is pending at `origin`.
    pub fn assign_id_to_waiting_client(&mut self, origin: ClientAddr, peer_id: PeerId) -> (room:
        Result<RequestedRoom, DirectoryError>)
        ensures
            !old(self)@.waiting.contains_key(origin) ==> room == Err::<RequestedRoom, DirectoryError>(
                DirectoryError::UnknownAddress,
            ) && final(self)@ == old(self)@,
            old(self)@.waiting.contains_key(origin) ==> room == Ok::<RequestedRoom, DirectoryError>(
                old(self)@.waiting[origin],
            ) && final(self)@ == old(self)@.promote(origin, peer_id),
    {
        proof {
            use_type_invariant(&*self);
        }
        match find_waiting(&self.clients_waiting, origin) {
            None => Err(DirectoryError::UnknownAddress),
            Some(i) => {
                let mut waiting: Vec<(ClientAddr, RequestedRoom)> = Vec::new();
                std::mem::swap(&mut waiting, &mut self.clients_waiting);
                proof {
                    lemma_as_map_at(waiting@, i as int);
                    lemma_as_map_remove(waiting@, i as int);
                }
                let (_, room) = waiting.remove(i);
                self.clients_waiting = waiting;
                let mut queue: HashMap<PeerId, RequestedRoom> = HashMap::new();
                std::mem::swap(&mut queue, &mut self.clients_in_queue);
                queue.insert(peer_id, room.duplicate());
                self.clients_in_queue = queue;
                Ok(room)
            },
        }
    }

    /// Takes out and returns the room pending under `peer_id`. Fails, changing
    /// nothing, where none is.
    pub fn remove_waiting_peer(&mut self, peer_id: PeerId) -> (room: Result<RequestedRoom, DirectoryError>)
        ensures
            !old(self)@.queued.contains_key(peer_id) ==> room == Err::<RequestedRoom, DirectoryError>(
                DirectoryError::UnknownPendingPeer,
            ) && final(self)@ == old(self)@,
            old(self)@.queued.contains_key(peer_id) ==> room == Ok::<RequestedRoom, DirectoryError>(
                old(self)@.queued[peer_id],
            ) && final(self)@ == old(self)@.claim(peer_id),
    {
        proof {
            use_type_invariant(&*self);
        }
        let mut queue: HashMap<PeerId, RequestedRoom> = HashMap::new();
        std::mem::swap(&mut queue, &mut self.clients_in_queue);
        let claimed = queue.remove(&peer_id);
        self.clients_in_queue = queue;
        match claimed {
            None => {
                assert(self.clients_in_queue@ =~= old(self).clients_in_queue@);
                Err(DirectoryError::UnknownPendingPeer)
            },
            Some(room) => Ok(room),
        }
    }

    /// Makes `peer` active, replacing a peer of the same identity, and runs
    /// the room-fill rule on its room. Returns those who waited in the room
    /// before, each once: they are to be told of the newcomer.
    pub fn add_peer(&mut self, peer: Peer) -> (prior: Vec<PeerId>)
        ensures
            final(self)@ == old(self)@.join(peer),
            prior@.no_duplicates(),
            prior@.to_set() == old(self)@.members(peer.room@),
    {
        proof {
            use_type_invariant(&*self);
        }
        let peer_id = peer.uuid;
        let room = peer.room.duplicate();
        let mut clients: HashMap<PeerId, Peer> = HashMap::new();
        std::mem::swap(&mut clients, &mut self.clients);
        clients.insert(peer_id, peer);
        self.clients = clients;
        let mut rooms: Vec<RoomEntry> = Vec::new();
        std::mem::swap(&mut rooms, &mut self.rooms);
        let prior = enter_room(&mut rooms, room, peer_id);
        self.rooms = rooms;
        prior
    }

    /// The active peer `peer_id`, if there is one.
    pub fn get_peer(&self, peer_id: &PeerId) -> (peer: Option<&Peer>)
        ensures
            match peer {
                Some(p) => self@.active.contains_key(*peer_id) && *p == self@.active[*peer_id],
                None => !self@.active.contains_key(*peer_id),
            },
    {
        self.clients.get(peer_id)
    }

    /// Those who are waiting in `room` now, each once.
    pub fn get_room_peers(&self, room: &RequestedRoom) -> (peers: Vec<PeerId>)
        ensures
            peers@.no_duplicates(),
            peers@.to_set() == self@.members(room@),
    {
        proof {
            use_type_invariant(self);
        }
        listed(&self.rooms, room)
    }

    /// Takes the active peer `peer_id` out and returns it, and takes it out of
    /// the waiting list of its room if it is still there. Where no such peer
    /// is active, nothing changes and nothing is returned.
    pub fn remove_peer(&mut self, peer_id: &PeerId) -> (removed: Option<Peer>)
        ensures
            final(self)@ == old(self)@.leave(*peer_id),
            removed == if old(self)@.active.contains_key(*peer_id) {
                Some(old(self)@.active[*peer_id])
            } else {
                None::<Peer>
            },
    {
        proof {
            use_type_invariant(&*self);
        }
        let mut clients: HashMap<PeerId, Peer> = HashMap::new();
        std::mem::swap(&mut clients, &mut self.clients);
        let removed = clients.remove(peer_id);
        self.clients = clients;
        match &removed {
            None => {
                assert(self.clients@ =~= old(self).clients@);
            },
            Some(peer) => {
                let mut rooms: Vec<RoomEntry> = Vec::new();
                std::mem::swap(&mut rooms, &mut self.rooms);
                quit_room(&mut rooms, &peer.room, *peer_id);
                self.rooms = rooms;
            },
        }
        removed
    }

    /// Hands `message` to the channel of the active peer `id` without
    /// blocking. Fails where no such peer is active. A channel that no longer
    /// takes messages is no failure: the result says that the message is lost.
    pub fn try_send(&self, id: PeerId, message: axum::extract::ws::Message) -> (sent: Result<
        Handoff,
        DirectoryError,
    >)
        ensures
            self@.active.contains_key(id) <==> sent is Ok,
            sent is Err ==> sent == Err::<Handoff, DirectoryError>(DirectoryError::UnknownPeer),
    {
        match self.clients.get(&id) {
            Some(peer) => match channel_send(&peer.sender, message) {
                Ok(()) => Ok(Handoff::Queued),
                Err(_) => Ok(Handoff::Undeliverable),
            },
            None => Err(DirectoryError::UnknownPeer),
        }
    }
}

impl Default for ServerState {
    fn default() -> (state: ServerState)
        ensures
            state@ == Directory::empty(),
    {
        ServerState::new()
    }
}

impl View for ServerState {
    type V = Directory;

    closed spec fn view(&self) -> Directory {
        Directory {
            waiting: as_map(self.clients_waiting@),
            queued: self.clients_in_queue@,
            active: self.clients@,
            rooms: as_map(room_pairs(self.rooms@)),
        }
    }
}

/// The room-fill rule, computed.
fn fills(waiting: usize, next: Option<usize>) -> (full: bool)
    ensures
        full == completes(waiting as nat, next),
{
    match next {
        Some(n) => n >= 1 && waiting == n - 1,
        None => false,
    }
}

/// Where `id` stands in `peers`, if it does.
pub(crate) fn position(peers: &Vec<PeerId>, id: PeerId) -> (found: Option<usize>)
    ensures
        match found {
            Some(i) => i < peers@.len() && peers@[i as int] == id,
            None => !peers@.contains(id),
        },
{
    let mut i: usize = 0;
    while i < peers.len()
        invariant
            i <= peers@.len(),
            forall|j: int| 0 <= j < i ==> peers@[j] != id,
        decreases peers@.len() - i,
    {
        if peers[i] == id {
            return Some(i);
        }
        i += 1;
    }
    None
}

/// Appending `id` to a list adds it to the peers listed; where the list is
/// without repetitions and lacks `id`, it stays without repetitions.
proof fn lemma_with(peers: Seq<PeerId>, id: PeerId)
    ensures
        peers.push(id).to_set() =~= peers.to_set().insert(id),
        peers.contains(id) ==> peers.to_set().insert(id) =~= peers.to_set(),
        peers.no_duplicates() && !peers.contains(id) ==> peers.push(id).no_duplicates(),
{
    let more = peers.push(id);
    assert forall|p: PeerId| more.to_set().contains(p) <==> peers.to_set().insert(id).contains(p) by {
        if more.contains(p) {
            let j = choose|j: int| 0 <= j < more.len() && more[j] == p;
            if j < peers.len() {
                assert(peers[j] == p);
            }
        }
        if peers.contains(p) {
            let j = choose|j: int| 0 <= j < peers.len() && peers[j] == p;
            assert(more[j] == p);
        }
        if p == id {
            assert(more[peers.len() as int] == p);
        }
    }
}

/// Taking the one occurrence of `id` out of a list without repetitions
/// leaves a list without repetitions, of the same peers but `id`.
pub(crate) proof fn lemma_without(peers: Seq<PeerId>, id: PeerId)
    requires
        peers.no_duplicates(),
    ensures
        forall|at: int|
            0 <= at < peers.len() && peers[at] == id ==> (#[trigger] peers.remove(at)).no_duplicates()
                && peers.remove(at).to_set() =~= peers.to_set().remove(id),
        !peers.contains(id) ==> peers.to_set() =~= peers.to_set().remove(id),
{
    assert forall|at: int| 0 <= at < peers.len() && peers[at] == id implies (#[trigger] peers.remove(
        at,
    )).no_duplicates() && peers.remove(at).to_set() =~= peers.to_set().remove(id) by {
        let rest = peers.remove(at);
        assert forall|p: PeerId| rest.to_set().contains(p) <==> peers.to_set().remove(id).contains(
            p,
        ) by {
            if rest.contains(p) {
                let j = choose|j: int| 0 <= j < rest.len() && rest[j] == p;
                let j0 = if j < at { j } else { j + 1 };
                assert(peers[j0] == p);
            }
            if peers.contains(p) && p != id {
                let j0 = choose|j: int| 0 <= j < peers.len() && peers[j] == p;
                let j = if j0 < at { j0 } else { j0 - 1 };
                assert(rest[j] == p);
            }
        }
    }
}

} // verus!
