//! The relay that serves one connection: it joins the peer to its room, relays
//! its signals, and announces its departure.

use vstd::prelude::*;
use crate::count::{count_in, parse_count};
use crate::room::{capacity, PeerId, RequestedRoom, RoomKey};
use crate::state::{lemma_without, position, Directory, DirectoryError, Handoff, Peer, ServerState};
use crate::transport::{frame_of, parse_frame, read_as, Inbound, Notice, SignalingChannel};

verus! {

/// Who was told of a join or a departure, and how each handoff went.
#[derive(Debug)]
pub struct Announcement {
    /// What they were told.
    pub notice: Notice,
    /// The peers that were to be told, each once.
    pub notified: Vec<PeerId>,
    /// For each of them, in the same order, what became of the message.
    pub outcomes: Vec<Result<Handoff, DirectoryError>>,
}

/// What the relay did with one read from its connection.
#[derive(Debug)]
pub enum Step {
    /// A signal was handed on to its recipient.
    Relayed { to: PeerId, notice: Notice, outcome: Handoff },
    /// A signal named a peer that is not active: it is dropped.
    UnknownRecipient(PeerId),
    /// A keep-alive: nothing to do.
    Idle,
    /// The read carried no request: it is skipped.
    Skipped,
    /// The connection is over.
    Stop,
}

/// What the relay hands to another peer on a read: a signal that names an
/// active peer goes to that peer, stamped with its sender; nothing else
/// leaves.
pub open spec fn outbound(directory: Directory, from: PeerId, inbound: Inbound) -> Option<
    (PeerId, Notice),
> {
    match inbound {
        Inbound::Signal { receiver, data } => if directory.active.contains_key(receiver) {
            Some((receiver, Notice::Signal { sender: from, data }))
        } else {
            None
        },
        _ => None,
    }
}

/// The relay in which peers wait in rooms until a room is complete.
#[derive(Debug, Default)]
pub struct MatchmakingDemoTopology;

/// The room that a handshake asks for: named by the path of the request, or
/// by the empty name where there is none, with the capacity that the `next`
/// parameter of its query holds.
pub open spec fn requested_key(path: Option<String>, next: Option<&str>) -> RoomKey {
    (
        match path {
            Some(name) => name@,
            None => Seq::<char>::empty(),
        },
        match next {
            Some(text) => capacity(count_in(text@)),
            None => None,
        },
    )
}

impl MatchmakingDemoTopology {
    /// The room that a handshake asks for. A `next` parameter that is absent,
    /// holds no count, or holds zero leaves the room without a capacity.
    pub fn requested_room(path: Option<String>, next: Option<&str>) -> (room: RequestedRoom)
        ensures
            room.wf(),
            room@ == requested_key(path, next),
    {
        let id = match path {
            Some(name) => name,
            None => String::new(),
        };
        let count = match next {
            Some(text) => parse_count(text),
            None => None,
        };
        RequestedRoom::new(id, count)
    }

    /// Hands `notice` to each of `recipients` in turn. A recipient that is not
    /// active, or whose channel is closed, does not stop the round.
    pub fn announce(state: &ServerState, recipients: Vec<PeerId>, notice: Notice) -> (told:
        Announcement)
        ensures
            told.notice == notice,
            told.notified == recipients,
            told.outcomes@.len() == recipients@.len(),
            forall|i: int|
                0 <= i < recipients@.len() ==> ((#[trigger] told.outcomes@[i]) is Ok
                    <==> state@.active.contains_key(recipients@[i])),
            forall|i: int|
                0 <= i < recipients@.len() && (#[trigger] told.outcomes@[i]) is Err
                    ==> told.outcomes@[i] == Err::<Handoff, DirectoryError>(DirectoryError::UnknownPeer),
    {
        let mut outcomes: Vec<Result<Handoff, DirectoryError>> = Vec::new();
        let mut i: usize = 0;
        while i < recipients.len()
            invariant
                i <= recipients@.len(),
                outcomes@.len() == i,
                forall|j: int|
                    0 <= j < i ==> ((#[trigger] outcomes@[j]) is Ok <==> state@.active.contains_key(
                        recipients@[j],
                    )),
                forall|j: int|
                    0 <= j < i && (#[trigger] outcomes@[j]) is Err ==> outcomes@[j] == Err::<
                        Handoff,
                        DirectoryError,
                    >(DirectoryError::UnknownPeer),
            decreases recipients@.len() - i,
        {
            let sent = state.try_send(recipients[i], frame_of(&notice));
            outcomes.push(sent);
            i += 1;
        }
        Announcement { notice, notified: recipients, outcomes }
    }

    /// Joining: claims the room pending under `peer_id`, makes the peer active
    /// with `sender` as its handle, and tells those who waited in the room of
    /// the newcomer. Fails, changing nothing, where nothing is pending under
    /// `peer_id`.
    pub fn join(state: &mut ServerState, peer_id: PeerId, sender: SignalingChannel) -> (told: Result<
        Announcement,
        DirectoryError,
    >)
        ensures
            told is Ok <==> old(state)@.queued.contains_key(peer_id),
            told is Err ==> told == Err::<Announcement, DirectoryError>(
                DirectoryError::UnknownPendingPeer,
            ) && final(state)@ == old(state)@,
            told matches Ok(t) ==> {
                let peer = Peer { uuid: peer_id, room: old(state)@.queued[peer_id], sender };
                &&& final(state)@ == old(state)@.claim(peer_id).join(peer)
                &&& t.notice == Notice::NewPeer(peer_id)
                &&& t.notified@.no_duplicates()
                &&& t.notified@.to_set() == old(state)@.members(peer.room@)
                &&& t.outcomes@.len() == t.notified@.len()
                &&& forall|i: int|
                    0 <= i < t.notified@.len() ==> ((#[trigger] t.outcomes@[i]) is Ok
                        <==> final(state)@.active.contains_key(t.notified@[i]))
            },
    {
        match state.remove_waiting_peer(peer_id) {
            Err(_) => Err(DirectoryError::UnknownPendingPeer),
            Ok(room) => {
                let prior = state.add_peer(Peer { uuid: peer_id, room, sender });
                Ok(Self::announce(state, prior, Notice::NewPeer(peer_id)))
            },
        }
    }

    /// Acts on one read of the connection of `peer_id`. A signal for an active
    /// peer is handed to it with `peer_id` as its sender and its body as it
    /// came; one for an unknown peer is dropped. Only a failed transport or a
    /// close ends the connection.
    pub fn react(state: &ServerState, peer_id: PeerId, inbound: Inbound) -> (step: Step)
        ensures
            match outbound(state@, peer_id, inbound) {
                Some((to, notice)) => (step matches Step::Relayed { to: t, notice: n, .. } && t == to
                    && n == notice),
                None => match inbound {
                    Inbound::Signal { receiver, .. } => step == Step::UnknownRecipient(receiver),
                    Inbound::KeepAlive => step == Step::Idle,
                    Inbound::Malformed | Inbound::Unsupported => step == Step::Skipped,
                    Inbound::TransportError | Inbound::Closed => step == Step::Stop,
                },
            },
    {
        match inbound {
            Inbound::Signal { receiver, data } => {
                let notice = Notice::Signal { sender: peer_id, data };
                match state.try_send(receiver, frame_of(&notice)) {
                    Ok(outcome) => Step::Relayed { to: receiver, notice, outcome },
                    Err(_) => Step::UnknownRecipient(receiver),
                }
            },
            Inbound::KeepAlive => Step::Idle,
            Inbound::Malformed | Inbound::Unsupported => Step::Skipped,
            Inbound::TransportError | Inbound::Closed => Step::Stop,
        }
    }

    /// Reads `frame` as a request of the peer `peer_id` and acts on it as
    /// `react` does on what the frame amounts to: a failed read or a close
    /// frame ends the connection, a frame without a request is skipped, and
    /// the request in a text frame is served.
    pub fn receive(state: &ServerState, peer_id: PeerId, frame: Result<
        axum::extract::ws::Message,
        axum::Error,
    >) -> (step: Step)
        ensures
            match outbound(state@, peer_id, read_as(frame)) {
                Some((to, notice)) => (step matches Step::Relayed { to: t, notice: n, .. } && t == to
                    && n == notice),
                None => match read_as(frame) {
                    Inbound::Signal { receiver, .. } => step == Step::UnknownRecipient(receiver),
                    Inbound::KeepAlive => step == Step::Idle,
                    Inbound::Malformed | Inbound::Unsupported => step == Step::Skipped,
                    Inbound::TransportError | Inbound::Closed => step == Step::Stop,
                },
            },
    {
        Self::react(state, peer_id, parse_frame(frame))
    }

    /// Leaving: takes the peer `peer_id` out and tells those still waiting in
    /// its room, never the peer itself. Where no such peer is active, nothing
    /// changes and nobody is told.
    pub fn leave(state: &mut ServerState, peer_id: PeerId) -> (told: Option<Announcement>)
        ensures
            final(state)@ == old(state)@.leave(peer_id),
            told is Some <==> old(state)@.active.contains_key(peer_id),
            told matches Some(t) ==> {
                let room = old(state)@.active[peer_id].room@;
                &&& t.notice == Notice::PeerLeft(peer_id)
                &&& t.notified@.no_duplicates()
                &&& t.notified@.to_set() == final(state)@.members(room).remove(peer_id)
                &&& t.outcomes@.len() == t.notified@.len()
                &&& forall|i: int|
                    0 <= i < t.notified@.len() ==> ((#[trigger] t.outcomes@[i]) is Ok
                        <==> final(state)@.active.contains_key(t.notified@[i]))
            },
    {
        match state.remove_peer(&peer_id) {
            None => None,
            Some(removed) => {
                let mut others = state.get_room_peers(&removed.room);
                proof {
                    lemma_without(others@, peer_id);
                }
                match position(&others, peer_id) {
                    Some(at) => {
                        others.remove(at);
                    },
                    None => {},
                }
                Some(Self::announce(state, others, Notice::PeerLeft(peer_id)))
            },
        }
    }
}

} // verus!
