//! Room descriptors and connection addresses.

use vstd::prelude::*;

verus! {

/// The identity that the transport assigns to a connection: the 128 bits of
/// its UUID.
pub type PeerId = u128;

/// What a room descriptor is, mathematically: its name and its optional
/// capacity.
pub type RoomKey = (Seq<char>, Option<usize>);

/// The name of a room.
#[derive(Debug, Default, Clone, PartialEq, Eq, Hash)]
pub struct RoomId(pub String);

impl View for RoomId {
    type V = Seq<char>;

    open spec fn view(&self) -> Seq<char> {
        self.0@
    }
}

/// The room a connection asked for: a name and, optionally, the number of
/// peers that complete it. A room without a capacity is open and never resets.
#[derive(Debug, Clone, PartialEq, Eq, Hash)]
pub struct RequestedRoom {
    pub id: RoomId,
    pub next: Option<usize>,
}

impl View for RequestedRoom {
    type V = RoomKey;

    open spec fn view(&self) -> RoomKey {
        (self.id@, self.next)
    }
}

/// The capacity that a requested count stands for: a positive count is a
/// capacity, anything else is none.
pub open spec fn capacity(count: Option<usize>) -> Option<usize> {
    if count == Some(0usize) {
        None
    } else {
        count
    }
}

impl RequestedRoom {
    /// A capacity, where there is one, is positive.
    pub open spec fn wf(&self) -> bool {
        self.next != Some(0usize)
    }

    /// The room named `id` for `count` peers. A count of zero is no capacity.
    pub fn new(id: String, count: Option<usize>) -> (room: RequestedRoom)
        ensures
            room.wf(),
            room.id@ == id@,
            room.next == capacity(count),
    {
        let next = match count {
            Some(0) => None,
            other => other,
        };
        RequestedRoom { id: RoomId(id), next }
    }

    /// Two descriptors are the same room exactly when name and capacity agree.
    pub fn same_as(&self, other: &RequestedRoom) -> (same: bool)
        ensures
            same == (self@ == other@),
    {
        let names = self.id.0 == other.id.0;
        let caps = match (self.next, other.next) {
            (None, None) => true,
            (Some(a), Some(b)) => a == b,
            _ => false,
        };
        names && caps
    }

    /// A second descriptor of the same room.
    pub fn duplicate(&self) -> (copy: RequestedRoom)
        ensures
            copy@ == self@,
            copy == *self,
    {
        RequestedRoom { id: RoomId(self.id.0.clone()), next: self.next }
    }
}

/// Where a connection comes from. Two addresses are the same connection
/// exactly when every field agrees.
#[derive(Debug, Clone, Copy, PartialEq, Eq, Structural, Hash)]
pub enum ClientAddr {
    V4 { octets: u32, port: u16 },
    V6 { segments: u128, port: u16, flowinfo: u32, scope_id: u32 },
}

} // verus!
