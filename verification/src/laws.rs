//! What holds of the directory over whole runs of joins and departures.

use vstd::prelude::*;
use crate::room::{PeerId, RequestedRoom, RoomKey};
use crate::state::{Directory, Peer};
use crate::topology::outbound;
use crate::transport::{Inbound, Notice};

verus! {

/// A change of the directory's membership.
pub enum Change {
    /// The peer joins its room.
    Join(Peer),
    /// The peer of this identity departs.
    Leave(PeerId),
}

/// The directory after one change.
pub open spec fn apply(d: Directory, change: Change) -> Directory {
    match change {
        Change::Join(peer) => d.join(peer),
        Change::Leave(id) => d.leave(id),
    }
}

/// The directory after a run of changes, in order.
pub open spec fn run(d: Directory, changes: Seq<Change>) -> Directory
    decreases changes.len(),
{
    if changes.len() == 0 {
        d
    } else {
        apply(run(d, changes.drop_last()), changes.last())
    }
}

/// Identities are unique: whoever joins in the run is not active when it does.
pub open spec fn orderly(d: Directory, changes: Seq<Change>) -> bool
    decreases changes.len(),
{
    if changes.len() == 0 {
        true
    } else {
        &&& orderly(d, changes.drop_last())
        &&& match changes.last() {
            Change::Join(peer) => !run(d, changes.drop_last()).active.contains_key(peer.uuid),
            Change::Leave(_) => true,
        }
    }
}

/// Those of `start` and those who joined `room` in the run, less those who
/// departed, in the order in which it happened.
pub open spec fn tally(start: Set<PeerId>, room: RoomKey, changes: Seq<Change>) -> Set<PeerId>
    decreases changes.len(),
{
    if changes.len() == 0 {
        start
    } else {
        let before = tally(start, room, changes.drop_last());
        match changes.last() {
            Change::Join(peer) => if peer.room@ == room {
                before.insert(peer.uuid)
            } else {
                before
            },
            Change::Leave(id) => before.remove(id),
        }
    }
}

/// A join of a peer that is not yet active keeps the directory consistent.
pub proof fn law_join_keeps_consistent(d: Directory, peer: Peer)
    requires
        d.consistent(),
        !d.active.contains_key(peer.uuid),
    ensures
        d.join(peer).consistent(),
{
    let after = d.join(peer);
    assert forall|room: RoomKey, id: PeerId|
        after.rooms.contains_key(room) && #[trigger] after.rooms[room].contains(id) implies after.active.contains_key(
        id,
    ) && after.active[id].room@ == room by {
        if id != peer.uuid {
            if room == peer.room@ {
                assert(d.members(room).contains(id));
            }
            assert(d.rooms.contains_key(room) && d.rooms[room].contains(id));
        }
    }
}

/// A departure keeps the directory consistent.
pub proof fn law_leave_keeps_consistent(d: Directory, id: PeerId)
    requires
        d.consistent(),
    ensures
        d.leave(id).consistent(),
{
    let after = d.leave(id);
    assert forall|room: RoomKey, other: PeerId|
        after.rooms.contains_key(room) && #[trigger] after.rooms[room].contains(other) implies after.active.contains_key(
        other,
    ) && after.active[other].room@ == room by {
        assert(d.rooms.contains_key(room) && d.rooms[room].contains(other));
    }
}

/// In a consistent directory a peer that is not active waits in no room: a
/// newcomer is never among those told of its own arrival, and a peer that
/// arrives later was told of no earlier one.
pub proof fn law_newcomer_is_not_told(d: Directory, id: PeerId, room: RoomKey)
    requires
        d.consistent(),
        !d.active.contains_key(id),
    ensures
        !d.members(room).contains(id),
{
}

/// How one change moves the waiting list of a room without a capacity.
proof fn lemma_open_room_step(d: Directory, room: RoomKey, change: Change)
    requires
        d.consistent(),
        room.1 is None,
    ensures
        apply(d, change).members(room) == match change {
            Change::Join(peer) => if peer.room@ == room {
                d.members(room).insert(peer.uuid)
            } else {
                d.members(room)
            },
            Change::Leave(id) => d.members(room).remove(id),
        },
{
    match change {
        Change::Join(peer) => {},
        Change::Leave(id) => {
            if d.active.contains_key(id) && d.active[id].room@ == room {
                assert(d.leave(id).members(room) =~= d.members(room).remove(id));
            } else {
                assert(!d.members(room).contains(id));
                assert(d.members(room).remove(id) =~= d.members(room));
            }
        },
    }
}

/// In a room without a capacity, after any run of joins and departures, those
/// waiting are exactly those who waited before or joined the room since, less
/// those who departed. The run keeps the directory consistent.
pub proof fn law_open_room_membership(d: Directory, room: RoomKey, changes: Seq<Change>)
    requires
        d.consistent(),
        orderly(d, changes),
        room.1 is None,
    ensures
        run(d, changes).consistent(),
        run(d, changes).members(room) == tally(d.members(room), room, changes),
    decreases changes.len(),
{
    if changes.len() > 0 {
        let earlier = changes.drop_last();
        law_open_room_membership(d, room, earlier);
        let before = run(d, earlier);
        lemma_open_room_step(before, room, changes.last());
        match changes.last() {
            Change::Join(peer) => law_join_keeps_consistent(before, peer),
            Change::Leave(id) => law_leave_keeps_consistent(before, id),
        }
    }
}

/// The directory after the peers of `peers` have joined, in order.
pub open spec fn join_all(d: Directory, peers: Seq<Peer>) -> Directory
    decreases peers.len(),
{
    if peers.len() == 0 {
        d
    } else {
        join_all(d, peers.drop_last()).join(peers.last())
    }
}

/// The identities of `peers`.
pub open spec fn identities(peers: Seq<Peer>) -> Set<PeerId> {
    peers.map_values(|peer: Peer| peer.uuid).to_set()
}

/// `peers` are distinct peers that all ask for `room`.
pub open spec fn batch_for(room: RequestedRoom, peers: Seq<Peer>) -> bool {
    &&& forall|i: int| 0 <= i < peers.len() ==> (#[trigger] peers[i]).room@ == room@
    &&& forall|i: int, j: int|
        0 <= i < j < peers.len() ==> (#[trigger] peers[i]).uuid != (#[trigger] peers[j]).uuid
}

/// While fewer peers have joined an empty room than it has capacity for, all
/// of them wait in it.
pub proof fn law_batch_waits(d: Directory, room: RequestedRoom, peers: Seq<Peer>)
    requires
        room.next matches Some(n) && peers.len() < n,
        batch_for(room, peers),
        d.members(room@) == Set::<PeerId>::empty(),
    ensures
        join_all(d, peers).members(room@) == identities(peers),
        identities(peers).finite(),
        identities(peers).len() == peers.len(),
    decreases peers.len(),
{
    let listed = peers.map_values(|peer: Peer| peer.uuid);
    if peers.len() == 0 {
        assert(identities(peers) =~= Set::<PeerId>::empty());
    } else {
        let earlier = peers.drop_last();
        let last = peers.last();
        law_batch_waits(d, room, earlier);
        let before = join_all(d, earlier);
        let earlier_listed = earlier.map_values(|peer: Peer| peer.uuid);
        assert(listed =~= earlier_listed.push(last.uuid));
        assert(!identities(earlier).contains(last.uuid)) by {
            if earlier_listed.contains(last.uuid) {
                let i = choose|i: int| 0 <= i < earlier_listed.len() && earlier_listed[i] == last.uuid;
                assert(peers[i].uuid == peers[peers.len() - 1].uuid);
            }
        }
        assert(identities(peers) =~= identities(earlier).insert(last.uuid)) by {
            assert forall|id: PeerId| identities(peers).contains(id) <==> identities(earlier).insert(
                last.uuid,
            ).contains(id) by {
                if listed.contains(id) {
                    let i = choose|i: int| 0 <= i < listed.len() && listed[i] == id;
                    if i < earlier_listed.len() {
                        assert(earlier_listed[i] == id);
                    }
                }
                if earlier_listed.contains(id) {
                    let i = choose|i: int| 0 <= i < earlier_listed.len() && earlier_listed[i] == id;
                    assert(listed[i] == id);
                }
                if id == last.uuid {
                    assert(listed[listed.len() - 1] == id);
                }
            }
        }
        assert(last.room@ == room@);
        assert(before.join(last).members(room@) =~= identities(earlier).insert(last.uuid));
    }
}

/// A room of capacity N that was empty is empty again once N distinct peers
/// have joined it, so that whoever joins next finds nobody and starts a fresh
/// batch. The last of the N found exactly the other N - 1 waiting.
pub proof fn law_room_fills_and_resets(d: Directory, room: RequestedRoom, peers: Seq<Peer>)
    requires
        room.next matches Some(n) && n >= 1 && peers.len() == n,
        batch_for(room, peers),
        d.members(room@) == Set::<PeerId>::empty(),
    ensures
        join_all(d, peers.drop_last()).members(room@) == identities(peers.drop_last()),
        join_all(d, peers).members(room@) == Set::<PeerId>::empty(),
{
    let earlier = peers.drop_last();
    law_batch_waits(d, room, earlier);
    let before = join_all(d, earlier);
    assert(peers.last().room@ == room@);
    assert(before.join(peers.last()).members(room@) =~= Set::<PeerId>::empty());
}

/// A signal for an active peer leaves for that peer with its sender's
/// identity and its body as it came; one for any other peer leaves for nobody.
pub proof fn law_signal_is_relayed_verbatim(
    d: Directory,
    from: PeerId,
    receiver: PeerId,
    data: serde_json::Value,
)
    ensures
        d.active.contains_key(receiver) ==> outbound(d, from, Inbound::Signal { receiver, data })
            == Some((receiver, Notice::Signal { sender: from, data })),
        !d.active.contains_key(receiver) ==> outbound(d, from, Inbound::Signal { receiver, data })
            is None,
{
}

/// A keep-alive hands nothing to anybody.
pub proof fn law_keep_alive_is_silent(d: Directory, from: PeerId)
    ensures
        outbound(d, from, Inbound::KeepAlive) is None,
{
}

/// Departing twice is departing once: after the first departure the peer is
/// not active, and the second changes nothing.
pub proof fn law_leave_is_idempotent(d: Directory, id: PeerId)
    ensures
        !d.leave(id).active.contains_key(id),
        d.leave(id).leave(id) == d.leave(id),
{
}

} // verus!
