//! A builder for `SmartHome` whose type says whether a room has been added:
//! devices can only be added once there is a room, and the compiler holds
//! callers to that (`add_device` exists on `SmartHomeBuilder<HasRoom>` only).
use vstd::prelude::*;

use std::marker::PhantomData;

use crate::devices::{IntoDevice, SmartDevice};
use crate::home::SmartHome;
use crate::keyed::KeyedVec;
use crate::room::Room;

verus! {

/// The state before the first room.
pub struct NoRoom;

/// The state once a room has been added.
pub struct HasRoom;

/// What a builder's state says of it.
pub trait BuilderState {
    /// A room has been added, so devices have a room to go to.
    spec fn has_room() -> bool;
}

impl BuilderState for NoRoom {
    open spec fn has_room() -> bool {
        false
    }
}

impl BuilderState for HasRoom {
    open spec fn has_room() -> bool {
        true
    }
}

/// Builds a `SmartHome` room by room; devices go to the room added last.
pub struct SmartHomeBuilder<State> {
    name: String,
    rooms: KeyedVec<Room>,
    current_room_key: Option<String>,
    _state: PhantomData<State>,
}

impl<State: BuilderState> SmartHomeBuilder<State> {
    /// Well-formed: one room per key, each room well-formed, the current
    /// room, if any, among them, and a current room once the state says a
    /// room has been added.
    pub closed spec fn wf(&self) -> bool {
        &&& self.rooms.wf()
        &&& forall|k: Seq<char>| #[trigger] self.rooms.map().contains_key(k) ==> self.rooms.map()[k].wf()
        &&& self.current_room_key matches Some(c) ==> self.rooms.map().contains_key(c@)
        &&& State::has_room() ==> self.current_room_key is Some
    }

    pub closed spec fn spec_name(&self) -> Seq<char> {
        self.name@
    }

    /// The rooms built so far, by key.
    pub closed spec fn rooms(&self) -> Map<Seq<char>, Room> {
        self.rooms.map()
    }

    /// The key of the room that devices go to.
    pub closed spec fn current(&self) -> Option<Seq<char>> {
        match self.current_room_key {
            Some(c) => Some(c@),
            None => None,
        }
    }
}

/// `rooms` is `old` with an empty room named `display` under `key`.
pub open spec fn room_added(
    rooms: Map<Seq<char>, Room>,
    old: Map<Seq<char>, Room>,
    key: Seq<char>,
    display: Seq<char>,
) -> bool {
    &&& rooms.dom() == old.dom().insert(key)
    &&& rooms[key].spec_name() == display
    &&& rooms[key].devices() == Map::<Seq<char>, SmartDevice>::empty()
    &&& forall|k: Seq<char>| k != key && #[trigger] old.contains_key(k) ==> rooms[k] == old[k]
}

impl SmartHomeBuilder<NoRoom> {
    /// A builder for a home named `name`, with no rooms yet.
    pub fn new(name: &str) -> (r: Self)
        ensures
            r.wf(),
            r.spec_name() == name@,
            r.rooms() == Map::<Seq<char>, Room>::empty(),
            r.current() is None,
    {
        SmartHomeBuilder { name: name.to_owned(), rooms: KeyedVec::new(), current_room_key: None, _state: PhantomData }
    }

    /// Adds the first room, an empty room named `display_name` under `key`;
    /// devices go to it from now on.
    pub fn add_room(self, key: &str, display_name: &str) -> (r: SmartHomeBuilder<HasRoom>)
        requires
            self.wf(),
        ensures
            r.wf(),
            r.spec_name() == self.spec_name(),
            room_added(r.rooms(), self.rooms(), key@, display_name@),
            r.current() == Some(key@),
    {
        let mut rooms = self.rooms;
        rooms.insert(key.to_owned(), Room::empty(display_name));
        SmartHomeBuilder { name: self.name, rooms, current_room_key: Some(key.to_owned()), _state: PhantomData }
    }
}

impl SmartHomeBuilder<HasRoom> {
    /// Adds an empty room named `display_name` under `key` (replacing one
    /// under the same key); devices go to it from now on.
    pub fn add_room(self, key: &str, display_name: &str) -> (r: Self)
        requires
            self.wf(),
        ensures
            r.wf(),
            r.spec_name() == self.spec_name(),
            room_added(r.rooms(), self.rooms(), key@, display_name@),
            r.current() == Some(key@),
    {
        let mut rooms = self.rooms;
        rooms.insert(key.to_owned(), Room::empty(display_name));
        SmartHomeBuilder { name: self.name, rooms, current_room_key: Some(key.to_owned()), _state: PhantomData }
    }

    /// Adds `device` under `device_key` to the room added last.
    pub fn add_device<D: IntoDevice>(self, device_key: &str, device: D) -> (r: Self)
        requires
            self.wf(),
        ensures
            self.current() is Some,
            r.wf(),
            r.spec_name() == self.spec_name(),
            r.current() == self.current(),
            ({
                let c = self.current().unwrap();
                &&& r.rooms().dom() == self.rooms().dom()
                &&& r.rooms()[c].spec_name() == self.rooms()[c].spec_name()
                &&& r.rooms()[c].devices() == self.rooms()[c].devices().insert(device_key@, device.device_spec())
                &&& forall|k: Seq<char>| k != c && #[trigger] self.rooms().contains_key(k) ==> r.rooms()[k] == self.rooms()[k]
            }),
    {
        let mut b = self;
        let key = match &b.current_room_key {
            Some(k) => k.clone(),
            None => String::new(),
        };
        let ghost old_rooms = b.rooms.map();
        match b.rooms.get_mut(key.as_str()) {
            Some(room) => {
                room.add_device(device_key, device);
            },
            None => {},
        }
        assert(b.rooms.map().dom() =~= old_rooms.dom());
        b
    }

    /// The home built.
    pub fn build(self) -> (r: SmartHome)
        requires
            self.wf(),
        ensures
            r.wf(),
            r.spec_name() == self.spec_name(),
            r.rooms() == self.rooms(),
    {
        SmartHome::from_rooms(self.name.as_str(), self.rooms)
    }
}

} // verus!
