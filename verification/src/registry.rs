//! The room/peer registry: the local peer's identity, the joined room,
//! and the last peer list the relay broadcast.

use vstd::prelude::*;

verus! {

/// Abstract view of the registry.
#[verifier::ext_equal]
pub struct RegistryView {
    pub local_id: Seq<char>,
    pub room: Option<Seq<char>>,
    pub peers: Seq<Seq<char>>,
}

/// Relies on `uuid::Uuid::new_v4` and its `Display` impl: a random
/// version-4 UUID rendered in the hyphenated form, which is always 36
/// characters. Nothing else can be promised of a random identifier.
#[verifier::external_body]
fn fresh_uuid_string() -> (r: String)
    ensures
        r@.len() == 36,
{
    uuid::Uuid::new_v4().to_string()
}

/// The local peer's identity, its room, and the cached peer list.
pub struct Registry {
    local_id: String,
    room: Option<String>,
    peers: Vec<String>,
}

impl View for Registry {
    type V = RegistryView;

    closed spec fn view(&self) -> RegistryView {
        RegistryView {
            local_id: self.local_id@,
            room: match &self.room {
                Some(r) => Some(r@),
                None => None,
            },
            peers: self.peers@.map_values(|p: String| p@),
        }
    }
}

impl Registry {
    /// A registry for a caller-chosen identity, not yet in a room.
    pub fn new(local_id: String) -> (r: Registry)
        ensures
            r@.local_id == local_id@,
            r@.room is None,
            r@.peers == Seq::<Seq<char>>::empty(),
    {
        let r = Registry { local_id, room: None, peers: Vec::new() };
        proof {
            assert(r@.peers =~= Seq::<Seq<char>>::empty());
        }
        r
    }

    /// A registry for a freshly drawn random identity, not yet in a room.
    pub fn with_fresh_id() -> (r: Registry)
        ensures
            r@.local_id.len() == 36,
            r@.room is None,
            r@.peers == Seq::<Seq<char>>::empty(),
    {
        Registry::new(fresh_uuid_string())
    }

    /// This peer's identity.
    pub fn local_id(&self) -> (r: &String)
        ensures
            r@ == self@.local_id,
    {
        &self.local_id
    }

    /// The joined room, if any.
    pub fn room(&self) -> (r: &Option<String>)
        ensures
            match r {
                Some(rm) => self@.room == Some(rm@),
                None => self@.room is None,
            },
    {
        &self.room
    }

    /// Join a room (replacing any previous one).
    pub fn set_room(&mut self, room: String)
        ensures
            final(self)@.room == Some(room@),
            final(self)@.local_id == old(self)@.local_id,
            final(self)@.peers == old(self)@.peers,
    {
        self.room = Some(room);
    }

    /// Replace the cached peer list with the relay's latest broadcast.
    pub fn set_peers(&mut self, peers: Vec<String>)
        ensures
            final(self)@.peers == peers@.map_values(|p: String| p@),
            final(self)@.local_id == old(self)@.local_id,
            final(self)@.room == old(self)@.room,
    {
        self.peers = peers;
    }

    /// The last-known peers in the room.
    pub fn peers(&self) -> (r: &Vec<String>)
        ensures
            r@.map_values(|p: String| p@) == self@.peers,
    {
        &self.peers
    }
}

} // verus!
