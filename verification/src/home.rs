//! The smart home: rooms by key.
use vstd::prelude::*;

use crate::devices::SmartDevice;
use crate::error::SmartHomeError;
use crate::keyed::{strictly_sorted, KeyedVec};
use crate::report::{lemma_readings_compose, readings_recorded, answers_target, append_lines, join_lines, target_views, targets_of, Probe, RemoteAnswer, RemoteTarget, Report};
use crate::room::{law_answered_room_ready, room_ready, room_report_text, Room};

verus! {

/// A smart home.
pub struct SmartHome {
    name: String,
    rooms: KeyedVec<Room>,
}

/// The map that a list of key and room pairs builds; a later pair replaces
/// an earlier one with the same key.
pub open spec fn room_pairs_map(pairs: Seq<(String, Room)>) -> Map<Seq<char>, Room>
    decreases pairs.len(),
{
    if pairs.len() == 0 {
        Map::empty()
    } else {
        room_pairs_map(pairs.drop_last()).insert(pairs.last().0@, pairs.last().1)
    }
}

/// What looking a device up by room and device key gives.
pub open spec fn lookup_ok(home: SmartHome, room: Seq<char>, device: Seq<char>) -> bool {
    home.rooms().contains_key(room) && home.rooms()[room].devices().contains_key(device)
}

impl SmartHome {
    /// Well-formed: one room per key, each room well-formed.
    pub closed spec fn wf(&self) -> bool {
        &&& self.rooms.wf()
        &&& forall|k: Seq<char>| #[trigger] self.rooms.map().contains_key(k) ==> self.rooms.map()[k].wf()
    }

    pub closed spec fn spec_name(&self) -> Seq<char> {
        self.name@
    }

    /// The rooms, by key.
    pub closed spec fn rooms(&self) -> Map<Seq<char>, Room> {
        self.rooms.map()
    }

    /// The keys of the rooms, in ascending order.
    pub closed spec fn room_key_seq(&self) -> Seq<Seq<char>> {
        self.rooms.keys()
    }

    /// The rooms, in the order of their keys.
    pub closed spec fn room_seq(&self) -> Seq<Room> {
        self.rooms.values()
    }

    proof fn lemma_room_seq_wf(&self)
        requires
            self.wf(),
        ensures
            forall|i: int| 0 <= i < self.room_seq().len() ==> (#[trigger] self.room_seq()[i]).wf(),
            self.room_seq().len() == self.room_key_seq().len(),
            forall|i: int| 0 <= i < self.room_seq().len() ==> self.rooms()[#[trigger] self.room_key_seq()[i]] == self.room_seq()[i],
    {
        self.rooms.lemma_keys();
        assert forall|i: int| 0 <= i < self.room_seq().len() implies (#[trigger] self.room_seq()[i]).wf() by {
            let k = self.rooms.keys()[i];
            assert(self.rooms.keys().contains(k));
            assert(self.rooms.map().contains_key(k));
            assert(self.rooms.map()[k] == self.rooms.values()[i]);
        }
    }

    /// A home named `name` holding `rooms`; where a key occurs twice, the
    /// later room stands.
    pub fn new(name: &str, rooms: Vec<(String, Room)>) -> (r: SmartHome)
        requires
            forall|i: int| 0 <= i < rooms@.len() ==> (#[trigger] rooms@[i]).1.wf(),
        ensures
            r.wf(),
            r.spec_name() == name@,
            r.rooms() == room_pairs_map(rooms@),
    {
        let mut map: KeyedVec<Room> = KeyedVec::new();
        let mut rest = rooms;
        let ghost all = rest@;
        assert(room_pairs_map(all.take(0)) =~= Map::<Seq<char>, Room>::empty());
        assert(all.skip(0) =~= all);
        while rest.len() > 0
            invariant
                map.wf(),
                forall|k: Seq<char>| #[trigger] map.map().contains_key(k) ==> map.map()[k].wf(),
                forall|i: int| 0 <= i < all.len() ==> (#[trigger] all[i]).1.wf(),
                rest@.len() <= all.len(),
                rest@ == all.skip(all.len() - rest@.len()),
                map.map() == room_pairs_map(all.take(all.len() - rest@.len())),
            decreases rest@.len(),
        {
            let ghost i = all.len() - rest@.len();
            let (k, room) = rest.remove(0);
            assert(all[i] == (k, room));
            assert(all.take(i + 1).drop_last() =~= all.take(i));
            map.insert(k, room);
            assert(rest@ =~= all.skip(all.len() - rest@.len()));
        }
        assert(all.take(all.len() as int) =~= all);
        SmartHome { name: name.to_owned(), rooms: map }
    }

    /// A home named `name` holding `rooms`.
    pub(crate) fn from_rooms(name: &str, rooms: KeyedVec<Room>) -> (r: SmartHome)
        requires
            rooms.wf(),
            forall|k: Seq<char>| #[trigger] rooms.map().contains_key(k) ==> rooms.map()[k].wf(),
        ensures
            r.wf(),
            r.spec_name() == name@,
            r.rooms() == rooms.map(),
    {
        SmartHome { name: name.to_owned(), rooms }
    }

    /// A home with no rooms.
    pub fn empty(name: &str) -> (r: SmartHome)
        ensures
            r.wf(),
            r.spec_name() == name@,
            r.rooms() == Map::<Seq<char>, Room>::empty(),
            r.room_key_seq() == Seq::<Seq<char>>::empty(),
    {
        let r = SmartHome::new(name, Vec::new());
        proof { r.rooms.lemma_keys(); }
        assert(r.rooms.keys() =~= Seq::<Seq<char>>::empty());
        r
    }

    pub fn name(&self) -> (r: &str)
        ensures
            r@ == self.spec_name(),
    {
        self.name.as_str()
    }

    /// The room under `key`.
    pub fn get_room(&self, key: &str) -> (r: Option<&Room>)
        requires
            self.wf(),
        ensures
            r is Some <==> self.rooms().contains_key(key@),
            r matches Some(room) ==> *room == self.rooms()[key@] && room.wf(),
    {
        self.rooms.get(key)
    }

    /// The room under `key`, to change; what the room becomes is what `key`
    /// holds after.
    pub fn get_room_mut(&mut self, key: &str) -> (r: Option<&mut Room>)
        requires
            old(self).wf(),
        ensures
            final(self).spec_name() == old(self).spec_name(),
            final(self).room_key_seq() == old(self).room_key_seq(),
            r is Some <==> old(self).rooms().contains_key(key@),
            r matches Some(room) ==> {
                &&& *room == old(self).rooms()[key@]
                &&& room.wf()
                &&& final(self).rooms() == old(self).rooms().insert(key@, *final(room))
                &&& final(room).wf() ==> final(self).wf()
            },
            r is None ==> final(self).rooms() == old(self).rooms() && final(self).wf(),
    {
        let r = self.rooms.get_mut(key);
        proof {
            if r.is_some() {
                assert forall|new_room: Room| new_room.wf() implies {
                    let m = old(self).rooms.map().insert(key@, new_room);
                    forall|k: Seq<char>| #[trigger] m.contains_key(k) ==> m[k].wf()
                } by {
                }
            }
        }
        r
    }

    /// Adds `room` under `key`, and gives back the room that `key` held.
    pub fn add_room(&mut self, key: &str, room: Room) -> (r: Option<Room>)
        requires
            old(self).wf(),
            room.wf(),
        ensures
            final(self).wf(),
            final(self).spec_name() == old(self).spec_name(),
            final(self).rooms() == old(self).rooms().insert(key@, room),
            r is Some <==> old(self).rooms().contains_key(key@),
            r matches Some(old_room) ==> old_room == old(self).rooms()[key@],
    {
        self.rooms.insert(key.to_owned(), room)
    }

    /// Removes the room under `key` and gives it back.
    pub fn remove_room(&mut self, key: &str) -> (r: Option<Room>)
        requires
            old(self).wf(),
        ensures
            final(self).wf(),
            final(self).spec_name() == old(self).spec_name(),
            final(self).rooms() == old(self).rooms().remove(key@),
            r is Some <==> old(self).rooms().contains_key(key@),
            r matches Some(old_room) ==> old_room == old(self).rooms()[key@],
    {
        self.rooms.remove(key)
    }

    /// The keys of the rooms, in ascending order, each once.
    pub fn room_keys(&self) -> (r: Vec<&str>)
        requires
            self.wf(),
        ensures
            r@.len() == self.rooms().dom().len(),
            forall|i: int| 0 <= i < r@.len() ==> #[trigger] r@[i]@ == self.room_key_seq()[i],
            self.room_key_seq().len() == r@.len(),
            strictly_sorted(self.room_key_seq()),
            forall|k: Seq<char>| #[trigger] self.rooms().contains_key(k) <==> self.room_key_seq().contains(k),
    {
        proof { self.rooms.lemma_keys(); }
        self.rooms.key_list()
    }

    /// The device `device` of the room `room`: an error names the room when
    /// the room is missing, and both keys when the device is.
    pub fn get_device(&self, room: &str, device: &str) -> (r: Result<&SmartDevice, SmartHomeError>)
        requires
            self.wf(),
        ensures
            !self.rooms().contains_key(room@) ==> (r matches Err(SmartHomeError::RoomNotFound(x)) && x@ == room@),
            self.rooms().contains_key(room@) && !self.rooms()[room@].devices().contains_key(device@) ==> (r matches Err(
                SmartHomeError::DeviceNotFound { room: a, device: b },
            ) && a@ == room@ && b@ == device@),
            lookup_ok(*self, room@, device@) ==> (r matches Ok(d) && *d == self.rooms()[room@].devices()[device@]),
    {
        match self.get_room(room) {
            None => Err(SmartHomeError::RoomNotFound(room.to_owned())),
            Some(room_ref) => match room_ref.get_device(device) {
                None => Err(SmartHomeError::DeviceNotFound { room: room.to_owned(), device: device.to_owned() }),
                Some(d) => Ok(d),
            },
        }
    }
}

/// The first line of a home's report.
pub open spec fn home_header(name: Seq<char>) -> Seq<char> {
    "=== Умный дом: '"@ + name + "' ==="@
}

/// The last line of a home's report.
pub open spec fn home_footer() -> Seq<char> {
    "=============================="@
}

/// For each room in key order, its key in brackets, then its report.
pub open spec fn home_room_lines(keys: Seq<Seq<char>>, rooms: Seq<Room>, answers: Map<Seq<char>, RemoteAnswer>) -> Seq<Seq<char>>
    decreases keys.len(),
{
    if keys.len() == 0 || rooms.len() == 0 {
        Seq::empty()
    } else {
        home_room_lines(keys.drop_last(), rooms.drop_last(), answers)
            .push("["@ + keys.last() + "]"@)
            .push(room_report_text(rooms.last(), answers))
    }
}

/// The report of a home.
pub open spec fn home_report_text(home: SmartHome, answers: Map<Seq<char>, RemoteAnswer>) -> Seq<char> {
    join_lines(
        seq![home_header(home.spec_name())] + home_room_lines(home.room_key_seq(), home.room_seq(), answers)
            + seq![home_footer()],
    )
}

proof fn lemma_home_room_lines(keys: Seq<Seq<char>>, rooms: Seq<Room>, answers: Map<Seq<char>, RemoteAnswer>)
    requires
        keys.len() == rooms.len(),
    ensures
        home_room_lines(keys, rooms, answers).len() == 2 * keys.len(),
        forall|i: int| 0 <= i < keys.len() ==> {
            &&& #[trigger] home_room_lines(keys, rooms, answers)[2 * i] == "["@ + keys[i] + "]"@
            &&& home_room_lines(keys, rooms, answers)[2 * i + 1] == room_report_text(rooms[i], answers)
        },
    decreases keys.len(),
{
    if keys.len() > 0 {
        let (k0, r0) = (keys.drop_last(), rooms.drop_last());
        lemma_home_room_lines(k0, r0, answers);
        let l = home_room_lines(keys, rooms, answers);
        let prev = home_room_lines(k0, r0, answers);
        assert forall|i: int| 0 <= i < keys.len() implies {
            &&& #[trigger] l[2 * i] == "["@ + keys[i] + "]"@
            &&& l[2 * i + 1] == room_report_text(rooms[i], answers)
        } by {
            if i < keys.len() - 1 {
                assert(l[2 * i] == prev[2 * i]);
                assert(l[2 * i + 1] == prev[2 * i + 1]);
                assert(k0[i] == keys[i]);
                assert(r0[i] == rooms[i]);
            }
        }
    }
}

/// The report of a home has one section per room, rooms in ascending key
/// order: the room's key in brackets, then the room's report.  Between the
/// header and the footer there is nothing else.
pub proof fn law_home_report_sections(home: SmartHome, answers: Map<Seq<char>, RemoteAnswer>)
    requires
        home.wf(),
    ensures
        ({
            let keys = home.room_key_seq();
            let lines = home_room_lines(keys, home.room_seq(), answers);
            &&& home_report_text(home, answers) == join_lines(seq![home_header(home.spec_name())] + lines + seq![home_footer()])
            &&& lines.len() == 2 * home.rooms().dom().len()
            &&& keys.len() == home.rooms().dom().len()
            &&& forall|k: Seq<char>| #[trigger] home.rooms().contains_key(k) <==> keys.contains(k)
            &&& forall|i: int| 0 <= i < keys.len() ==> {
                &&& #[trigger] lines[2 * i] == "["@ + keys[i] + "]"@
                &&& lines[2 * i + 1] == room_report_text(home.rooms()[keys[i]], answers)
            }
        }),
{
    home.lemma_room_seq_wf();
    home.rooms.lemma_keys();
    lemma_home_room_lines(home.room_key_seq(), home.room_seq(), answers);
}


/// Whether `answers` holds what the reports of a home's rooms need.
pub open spec fn home_ready(home: SmartHome, answers: Map<Seq<char>, RemoteAnswer>) -> bool {
    &&& home.wf()
    &&& forall|i: int| 0 <= i < home.room_seq().len() ==> room_ready(#[trigger] home.room_seq()[i], answers)
}

/// The targets of the remote devices of `rooms`, room after room.
pub open spec fn rooms_targets(rooms: Seq<Room>) -> Seq<(Seq<char>, bool)>
    decreases rooms.len(),
{
    if rooms.len() == 0 {
        Seq::empty()
    } else {
        rooms_targets(rooms.drop_last()) + targets_of(rooms.last().device_seq())
    }
}

impl SmartHome {
    /// The targets of the remote devices of all rooms, rooms in key order:
    /// what must be asked before the home's report.
    pub fn remote_targets(&self) -> (r: Vec<RemoteTarget>)
        requires
            self.wf(),
        ensures
            target_views(r@) == rooms_targets(self.room_seq()),
    {
        proof { self.lemma_room_seq_wf(); self.rooms.lemma_keys(); }
        let ghost rooms = self.room_seq();
        let n = self.rooms.len();
        let mut out: Vec<RemoteTarget> = Vec::new();
        let mut i: usize = 0;
        assert(rooms.take(0) =~= Seq::<Room>::empty());
        assert(target_views(out@) =~= Seq::<(Seq<char>, bool)>::empty());
        while i < n
            invariant
                self.wf(),
                rooms == self.room_seq(),
                forall|j: int| 0 <= j < rooms.len() ==> (#[trigger] rooms[j]).wf(),
                n == rooms.len(),
                n == self.room_key_seq().len(),
                i <= n,
                target_views(out@) == rooms_targets(rooms.take(i as int)),
            decreases n - i,
        {
            let room = self.rooms.value_at_index(i);
            assert(rooms[i as int].wf());
            room.push_remote_targets(&mut out);
            assert(rooms.take(i + 1).drop_last() =~= rooms.take(i as int));
            assert(rooms.take(i + 1).last() == *room);
            i = i + 1;
        }
        assert(rooms.take(n as int) =~= rooms);
        out
    }

    /// Records the reading of each thermometer of the home that hears UDP
    /// packets.
    pub fn record_readings(&self, probe: &mut Probe)
        requires
            self.wf(),
            old(probe).wf(),
        ensures
            final(probe).wf(),
            readings_recorded(old(probe).answers(), final(probe).answers(), rooms_targets(self.room_seq())),
    {
        proof { self.lemma_room_seq_wf(); self.rooms.lemma_keys(); }
        let ghost rooms = self.room_seq();
        let ghost start = probe.answers();
        let n = self.rooms.len();
        let mut i: usize = 0;
        assert(rooms.take(0) =~= Seq::<Room>::empty());
        while i < n
            invariant
                self.wf(),
                probe.wf(),
                rooms == self.room_seq(),
                forall|j: int| 0 <= j < rooms.len() ==> (#[trigger] rooms[j]).wf(),
                n == rooms.len(),
                n == self.room_key_seq().len(),
                i <= n,
                readings_recorded(start, probe.answers(), rooms_targets(rooms.take(i as int))),
            decreases n - i,
        {
            let room = self.rooms.value_at_index(i);
            assert(rooms[i as int].wf());
            let ghost before = probe.answers();
            room.record_readings(probe);
            proof {
                lemma_readings_compose(start, before, probe.answers(), rooms_targets(rooms.take(i as int)), targets_of(room.device_seq()));
                assert(rooms.take(i + 1).drop_last() =~= rooms.take(i as int));
                assert(rooms.take(i + 1).last() == *room);
            }
            i = i + 1;
        }
        assert(rooms.take(n as int) =~= rooms);
    }

    /// Whether `probe` holds what the home's report needs.
    pub fn probe_ready(&self, probe: &Probe) -> (r: bool)
        requires
            self.wf(),
            probe.wf(),
        ensures
            r == home_ready(*self, probe.answers()),
    {
        proof { self.lemma_room_seq_wf(); self.rooms.lemma_keys(); }
        let n = self.rooms.len();
        let mut i: usize = 0;
        while i < n
            invariant
                self.wf(),
                probe.wf(),
                forall|j: int| 0 <= j < self.room_seq().len() ==> (#[trigger] self.room_seq()[j]).wf(),
                n == self.room_seq().len(),
                n == self.room_key_seq().len(),
                i <= n,
                forall|j: int| 0 <= j < i ==> room_ready(#[trigger] self.room_seq()[j], probe.answers()),
            decreases n - i,
        {
            let room = self.rooms.value_at_index(i);
            assert(self.room_seq()[i as int].wf());
            if !room.probe_ready(probe) {
                return false;
            }
            i = i + 1;
        }
        true
    }
}

/// After a room is added under `key` (what `add_room` does to the rooms),
/// the home holds that room under `key`, and every other key holds what it
/// held before.
pub proof fn law_home_get_after_add(before: SmartHome, after: SmartHome, key: Seq<char>, room: Room)
    requires
        after.rooms() == before.rooms().insert(key, room),
    ensures
        after.rooms().contains_key(key),
        after.rooms()[key] == room,
        forall|k: Seq<char>| k != key ==> (#[trigger] after.rooms().contains_key(k) <==> before.rooms().contains_key(k)),
        forall|k: Seq<char>| k != key && before.rooms().contains_key(k) ==> #[trigger] after.rooms()[k] == before.rooms()[k],
{
}

/// Adding a room under a key the home did not hold, then removing it (what
/// `add_room` and `remove_room` do to the rooms), leaves the rooms as they
/// were.
pub proof fn law_home_remove_undoes_add(
    before: SmartHome,
    added: SmartHome,
    after: SmartHome,
    key: Seq<char>,
    room: Room,
)
    requires
        !before.rooms().contains_key(key),
        added.rooms() == before.rooms().insert(key, room),
        after.rooms() == added.rooms().remove(key),
    ensures
        after.rooms() == before.rooms(),
{
    assert(after.rooms() =~= before.rooms());
}

/// Looking a device up by room and device key succeeds exactly where the
/// home holds the room and the room holds the device; after a room holding
/// `device` under `dkey` is added under `rkey`, the lookup finds it.
pub proof fn law_lookup_after_add_room(home: SmartHome, rkey: Seq<char>, room: Room, dkey: Seq<char>)
    requires
        room.devices().contains_key(dkey),
    ensures
        forall|h: SmartHome| h.rooms() == home.rooms().insert(rkey, room) ==> #[trigger] lookup_ok(h, rkey, dkey)
            && h.rooms()[rkey].devices()[dkey] == room.devices()[dkey],
{
}

proof fn lemma_rooms_targets_contains(rooms: Seq<Room>, i: int, t: (Seq<char>, bool))
    requires
        0 <= i < rooms.len(),
        targets_of(rooms[i].device_seq()).contains(t),
    ensures
        rooms_targets(rooms).contains(t),
    decreases rooms.len(),
{
    let last = rooms.len() - 1;
    let prev = rooms_targets(rooms.drop_last());
    let mine = targets_of(rooms.last().device_seq());
    if i == last {
        let k = choose|k: int| 0 <= k < mine.len() && mine[k] == t;
        assert((prev + mine)[prev.len() + k] == t);
    } else {
        lemma_rooms_targets_contains(rooms.drop_last(), i, t);
        let k = choose|k: int| 0 <= k < prev.len() && prev[k] == t;
        assert((prev + mine)[k] == t);
    }
}

/// A home whose remote targets are all answered, each with an answer of
/// its kind, is ready for its report.
pub proof fn law_answered_home_ready(home: SmartHome, answers: Map<Seq<char>, RemoteAnswer>)
    requires
        home.wf(),
        forall|t: (Seq<char>, bool)| rooms_targets(home.room_seq()).contains(t) ==> #[trigger] answers_target(answers, t),
    ensures
        home_ready(home, answers),
{
    home.lemma_room_seq_wf();
    assert forall|i: int| 0 <= i < home.room_seq().len() implies room_ready(#[trigger] home.room_seq()[i], answers) by {
        let room = home.room_seq()[i];
        assert forall|t: (Seq<char>, bool)| targets_of(room.device_seq()).contains(t) implies #[trigger] answers_target(answers, t) by {
            lemma_rooms_targets_contains(home.room_seq(), i, t);
        }
        law_answered_room_ready(room, answers);
    }
}

impl Report for SmartHome {
    open spec fn ready(&self, answers: Map<Seq<char>, RemoteAnswer>) -> bool {
        home_ready(*self, answers)
    }

    fn report(&self, probe: &Probe) -> (r: Result<String, SmartHomeError>)
        ensures
            r matches Ok(s) && s@ == home_report_text(*self, probe.answers()),
    {
        proof { self.lemma_room_seq_wf(); self.rooms.lemma_keys(); }
        let ghost keys = self.room_key_seq();
        let ghost rooms = self.room_seq();
        let n = self.rooms.len();
        let mut lines: Vec<String> = Vec::new();
        let mut i: usize = 0;
        assert(keys.take(0) =~= Seq::<Seq<char>>::empty());
        assert(rooms.take(0) =~= Seq::<Room>::empty());
        assert(lines@.map_values(|l: String| l@) =~= Seq::<Seq<char>>::empty());
        while i < n
            invariant
                probe.wf(),
                home_ready(*self, probe.answers()),
                keys == self.room_key_seq(),
                rooms == self.room_seq(),
                n == keys.len(),
                n == rooms.len(),
                i <= n,
                lines@.map_values(|l: String| l@) == home_room_lines(keys.take(i as int), rooms.take(i as int), probe.answers()),
            decreases n - i,
        {
            let key = self.rooms.key_at_index(i);
            let room = self.rooms.value_at_index(i);
            assert(room_ready(rooms[i as int], probe.answers()));
            let rep = room.report(probe);
            let mut head = String::new();
            head.append("[");
            head.append(key);
            head.append("]");
            lines.push(head);
            match rep {
                Ok(text) => {
                    lines.push(text);
                },
                Err(e) => {
                    // A room's report never fails; this line is what a failure would read.
                    let mut line = String::new();
                    line.append("  ОШИБКА в комнате '");
                    line.append(key);
                    line.append("': ");
                    line.append(e.message().as_str());
                    lines.push(line);
                },
            }
            assert(keys.take(i + 1).drop_last() =~= keys.take(i as int));
            assert(rooms.take(i + 1).drop_last() =~= rooms.take(i as int));
            assert(lines@.map_values(|l: String| l@) =~= home_room_lines(keys.take(i + 1), rooms.take(i + 1), probe.answers()));
            i = i + 1;
        }
        assert(keys.take(n as int) =~= keys);
        assert(rooms.take(n as int) =~= rooms);
        let mut out = String::new();
        out.append("=== Умный дом: '");
        out.append(self.name.as_str());
        out.append("' ===");
        let ghost head = seq![home_header(self.spec_name())];
        assert(out@ =~= home_header(self.spec_name()));
        assert(join_lines(head) == out@);
        append_lines(&mut out, &lines);
        let ghost head2 = head + lines@.map_values(|l: String| l@);
        assert(join_lines(head2) == out@);
        let mut footer: Vec<String> = Vec::new();
        footer.push("==============================".to_owned());
        append_lines(&mut out, &footer);
        assert(footer@.map_values(|l: String| l@) =~= seq![home_footer()]);
        Ok(out)
    }
}

} // verus!
