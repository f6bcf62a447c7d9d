//! Rooms: named collections of devices, by key, with observers that hear of
//! every device added.
use vstd::prelude::*;

use crate::devices::{IntoDevice, SmartDevice};
use crate::error::{error_text, SmartHomeError};
use crate::keyed::{strictly_sorted, KeyedVec};
use crate::report::{
    device_target_seq, lemma_readings_compose, readings_recorded, answers_target, append_lines, device_ready, device_report, device_target, is_report, join_lines, lemma_answered_device_ready,
    target_views, targets_of, Probe, RemoteAnswer, RemoteTarget, Report,
};

verus! {

/// What an observer hears of one device added: the room's name, the key,
/// the device.
pub type Notice = (Seq<char>, Seq<char>, SmartDevice);

/// Hears of every device added to a room it is subscribed to.
pub trait DeviceObserver: Send + Sync {
    /// Whether the observer keeps an account of what it has heard (`heard`).
    /// An observer that keeps none leaves this `false`.
    open spec fn keeps_log(&self) -> bool {
        false
    }

    /// What the observer has heard so far, in the order it heard it.
    open spec fn heard(&self) -> Seq<Notice> {
        Seq::empty()
    }

    /// Told that `device` is being added under `key` to the room named
    /// `room`: an observer that keeps an account adds exactly this notice
    /// to it.
    fn on_device_added(&mut self, room: &str, key: &str, device: &SmartDevice)
        ensures
            final(self).keeps_log() == old(self).keeps_log(),
            old(self).keeps_log() ==> final(self).heard() == old(self).heard().push((room@, key@, *device)),
    ;
}

/// An observer, boxed as the room holds it.
pub open spec fn boxed<O: DeviceObserver + 'static>(o: O) -> Box<dyn DeviceObserver> {
    Box::new(o)
}

/// The observer that `Room::subscribe_fn` makes of the closure `f`: it
/// calls `f` on each notice and keeps an account of them, empty at first.
pub closed spec fn closure_observer<F: Fn(&str, &str, &SmartDevice) + Send + Sync + 'static>(f: F) -> Box<dyn DeviceObserver> {
    Box::new(fresh_fn_observer(f))
}

/// A closure observer that has heard nothing yet.
spec fn fresh_fn_observer<F: Fn(&str, &str, &SmartDevice) + Send + Sync + 'static>(f: F) -> FnObserver<F> {
    FnObserver { f, log: Ghost(Seq::empty()) }
}

/// The closure `f` has run on values whose views make up `n`.
pub open spec fn closure_ran<F: Fn(&str, &str, &SmartDevice)>(f: F, n: Notice) -> bool {
    exists|r: &str, k: &str, d: &SmartDevice| r@ == n.0 && k@ == n.1 && *d == n.2 && #[trigger] call_ensures(f, (r, k, d), ())
}

/// Adapts a closure to `DeviceObserver`, keeping an account of the calls.
struct FnObserver<F: Fn(&str, &str, &SmartDevice) + Send + Sync> {
    f: F,
    log: Ghost<Seq<Notice>>,
}

impl<F: Fn(&str, &str, &SmartDevice) + Send + Sync> FnObserver<F> {
    #[verifier::type_invariant]
    spec fn callable(&self) -> bool {
        &&& forall|room: &str, key: &str, device: &SmartDevice| call_requires(self.f, (room, key, device))
        &&& forall|i: int| 0 <= i < self.log@.len() ==> closure_ran(self.f, #[trigger] self.log@[i])
    }
}

impl<F: Fn(&str, &str, &SmartDevice) + Send + Sync> DeviceObserver for FnObserver<F> {
    closed spec fn keeps_log(&self) -> bool {
        true
    }

    /// Each notice heard is one the closure ran on.
    closed spec fn heard(&self) -> Seq<Notice> {
        self.log@
    }

    fn on_device_added(&mut self, room: &str, key: &str, device: &SmartDevice) {
        proof { use_type_invariant(&*self); }
        (self.f)(room, key, device);
        assert(call_ensures(self.f, (room, key, device), ()));
        let ghost n: Notice = (room@, key@, *device);
        assert(closure_ran(self.f, n));
        let ghost old_log = self.log@;
        proof {
            assert forall|i: int| 0 <= i < old_log.push(n).len() implies closure_ran(self.f, #[trigger] old_log.push(n)[i]) by {
                if i < old_log.len() {
                    assert(old_log.push(n)[i] == old_log[i]);
                }
            }
        }
        self.log = Ghost(old_log.push(n));
    }
}

/// A room.
pub struct Room {
    name: String,
    devices: KeyedVec<SmartDevice>,
    observers: Vec<Box<dyn DeviceObserver>>,
    told: Ghost<Seq<int>>,
}

impl Room {
    /// Well-formed: one device per key.
    pub closed spec fn wf(&self) -> bool {
        self.devices.wf()
    }

    pub closed spec fn spec_name(&self) -> Seq<char> {
        self.name@
    }

    /// The devices, by key.
    pub closed spec fn devices(&self) -> Map<Seq<char>, SmartDevice> {
        self.devices.map()
    }

    /// The keys of the devices, in ascending order.
    pub closed spec fn device_key_seq(&self) -> Seq<Seq<char>> {
        self.devices.keys()
    }

    /// The devices, in the order of their keys.
    pub closed spec fn device_seq(&self) -> Seq<SmartDevice> {
        self.devices.values()
    }

    /// The observers, in the order they subscribed.
    pub closed spec fn observers(&self) -> Seq<Box<dyn DeviceObserver>> {
        self.observers@
    }

    /// The observers the room has told of added devices, by their place in
    /// `observers()`, in the order they were told.
    pub closed spec fn told(&self) -> Seq<int> {
        self.told@
    }

    /// How many observers are subscribed.
    pub open spec fn observer_count(&self) -> nat {
        self.observers().len()
    }

    /// A room named `name` holding `devices`; where a key occurs twice, the
    /// later device stands.
    pub fn new(name: &str, devices: Vec<(String, SmartDevice)>) -> (r: Room)
        ensures
            r.wf(),
            r.spec_name() == name@,
            r.devices() == pairs_map(devices@),
            r.observer_count() == 0,
            r.told() == Seq::<int>::empty(),
    {
        let mut map: KeyedVec<SmartDevice> = KeyedVec::new();
        let mut rest = devices;
        let ghost all = rest@;
        assert(pairs_map(all.take(0)) =~= Map::<Seq<char>, SmartDevice>::empty());
        assert(all.skip(0) =~= all);
        while rest.len() > 0
            invariant
                map.wf(),
                rest@.len() <= all.len(),
                rest@ == all.skip(all.len() - rest@.len()),
                map.map() == pairs_map(all.take(all.len() - rest@.len())),
            decreases rest@.len(),
        {
            let ghost i = all.len() - rest@.len();
            let (k, d) = rest.remove(0);
            assert(all[i] == (k, d));
            assert(all.take(i + 1).drop_last() =~= all.take(i));
            map.insert(k, d);
            assert(rest@ =~= all.skip(all.len() - rest@.len()));
        }
        assert(all.take(all.len() as int) =~= all);
        Room { name: name.to_owned(), devices: map, observers: Vec::new(), told: Ghost(Seq::empty()) }
    }
}

impl Room {
    /// A room with no devices.
    pub fn empty(name: &str) -> (r: Room)
        ensures
            r.wf(),
            r.spec_name() == name@,
            r.devices() == Map::<Seq<char>, SmartDevice>::empty(),
            r.device_key_seq() == Seq::<Seq<char>>::empty(),
            r.observer_count() == 0,
            r.told() == Seq::<int>::empty(),
    {
        let r = Room::new(name, Vec::new());
        proof { r.devices.lemma_keys(); }
        assert(r.devices.keys() =~= Seq::<Seq<char>>::empty());
        r
    }

    pub fn name(&self) -> (r: &str)
        ensures
            r@ == self.spec_name(),
    {
        self.name.as_str()
    }

    /// The device under `key`.
    pub fn get_device(&self, key: &str) -> (r: Option<&SmartDevice>)
        requires
            self.wf(),
        ensures
            r is Some <==> self.devices().contains_key(key@),
            r matches Some(d) ==> *d == self.devices()[key@],
    {
        self.devices.get(key)
    }

    /// The device under `key`, to change; what is written through the
    /// reference becomes the device under `key`.
    pub fn get_device_mut(&mut self, key: &str) -> (r: Option<&mut SmartDevice>)
        requires
            old(self).wf(),
        ensures
            final(self).wf(),
            final(self).spec_name() == old(self).spec_name(),
            final(self).device_key_seq() == old(self).device_key_seq(),
            r is Some <==> old(self).devices().contains_key(key@),
            r matches Some(d) ==> *d == old(self).devices()[key@]
                && final(self).devices() == old(self).devices().insert(key@, *final(d)),
            r is None ==> final(self).devices() == old(self).devices(),
    {
        self.devices.get_mut(key)
    }

    /// Adds `device` under `key`, after telling each observer, in the order
    /// they subscribed; gives back the device that `key` held before.
    pub fn add_device<D: IntoDevice>(&mut self, key: &str, device: D) -> (r: Option<SmartDevice>)
        requires
            old(self).wf(),
        ensures
            final(self).wf(),
            final(self).spec_name() == old(self).spec_name(),
            final(self).devices() == old(self).devices().insert(key@, device.device_spec()),
            r is Some <==> old(self).devices().contains_key(key@),
            r matches Some(d) ==> d == old(self).devices()[key@],
            final(self).observer_count() == old(self).observer_count(),
            final(self).told() == old(self).told() + Seq::new(old(self).observer_count(), |i: int| i),
            forall|i: int| 0 <= i < final(self).observer_count() ==> {
                let (o, o2) = (#[trigger] old(self).observers()[i], final(self).observers()[i]);
                &&& o2.keeps_log() == o.keeps_log()
                &&& o.keeps_log() ==> o2.heard() == o.heard().push((old(self).spec_name(), key@, device.device_spec()))
            },
    {
        let device = device.into_device();
        let n = self.observers.len();
        let mut i: usize = 0;
        while i < n
            invariant
                n == self.observers@.len(),
                i <= n,
                self.devices == old(self).devices,
                self.name == old(self).name,
                self.told@ == old(self).told@ + Seq::new(i as nat, |j: int| j),
                forall|j: int| i <= j < n ==> #[trigger] self.observers@[j] == old(self).observers@[j],
                forall|j: int| 0 <= j < i ==> {
                    let (o, o2) = (#[trigger] old(self).observers@[j], self.observers@[j]);
                    &&& o2.keeps_log() == o.keeps_log()
                    &&& o.keeps_log() ==> o2.heard() == o.heard().push((self.name@, key@, device))
                },
            decreases n - i,
        {
            let ghost before = self.observers@;
            self.observers[i].on_device_added(self.name.as_str(), key, &device);
            proof {
                assert forall|j: int| 0 <= j < n && j != i implies #[trigger] self.observers@[j] == before[j] by {}
                assert(before[i as int] == old(self).observers@[i as int]);
                self.told@ = self.told@.push(i as int);
                assert(self.told@ =~= old(self).told@ + Seq::new((i + 1) as nat, |j: int| j));
            }
            i = i + 1;
        }
        self.devices.insert(key.to_owned(), device)
    }

    /// Removes the device under `key` and gives it back.
    pub fn remove_device(&mut self, key: &str) -> (r: Option<SmartDevice>)
        requires
            old(self).wf(),
        ensures
            final(self).wf(),
            final(self).spec_name() == old(self).spec_name(),
            final(self).devices() == old(self).devices().remove(key@),
            r is Some <==> old(self).devices().contains_key(key@),
            r matches Some(d) ==> d == old(self).devices()[key@],
    {
        self.devices.remove(key)
    }

    /// The keys of the devices, in ascending order, each once.
    pub fn device_keys(&self) -> (r: Vec<&str>)
        requires
            self.wf(),
        ensures
            r@.len() == self.devices().dom().len(),
            forall|i: int| 0 <= i < r@.len() ==> #[trigger] r@[i]@ == self.device_key_seq()[i],
            self.device_key_seq().len() == r@.len(),
            strictly_sorted(self.device_key_seq()),
            forall|k: Seq<char>| #[trigger] self.devices().contains_key(k) <==> self.device_key_seq().contains(k),
    {
        proof { self.devices.lemma_keys(); }
        self.devices.key_list()
    }

    /// Subscribes `observer` to the devices added from now on.
    pub fn subscribe<O: DeviceObserver + 'static>(&mut self, observer: O)
        requires
            old(self).wf(),
        ensures
            final(self).wf(),
            final(self).spec_name() == old(self).spec_name(),
            final(self).devices() == old(self).devices(),
            final(self).device_key_seq() == old(self).device_key_seq(),
            final(self).observer_count() == old(self).observer_count() + 1,
            forall|i: int| 0 <= i < old(self).observer_count() ==> #[trigger] final(self).observers()[i] == old(self).observers()[i],
            final(self).observers()[old(self).observer_count() as int] == boxed(observer),
            final(self).told() == old(self).told(),
    {
        let held: Box<dyn DeviceObserver> = Box::new(observer);
        let ghost before = self.observers@;
        self.observers.push(held);
        assert(self.observers@ == before.push(held));
        proof {
            vstd::seq::axiom_seq_push_len(before, held);
            assert forall|i: int| 0 <= i < before.len() implies #[trigger] self.observers@[i] == before[i] by {
                vstd::seq::axiom_seq_push_index_different(before, held, i);
            }
        }
    }

    /// Subscribes the closure `f` to the devices added from now on.
    pub fn subscribe_fn<F>(&mut self, f: F)
        where F: Fn(&str, &str, &SmartDevice) + Send + Sync + 'static,
        requires
            old(self).wf(),
            forall|room: &str, key: &str, device: &SmartDevice| call_requires(f, (room, key, device)),
        ensures
            final(self).wf(),
            final(self).spec_name() == old(self).spec_name(),
            final(self).devices() == old(self).devices(),
            final(self).device_key_seq() == old(self).device_key_seq(),
            final(self).observer_count() == old(self).observer_count() + 1,
            forall|i: int| 0 <= i < old(self).observer_count() ==> #[trigger] final(self).observers()[i] == old(self).observers()[i],
            final(self).told() == old(self).told(),
            final(self).observers()[old(self).observer_count() as int] == closure_observer(f),
    {
        let obs = FnObserver { f, log: Ghost(Seq::empty()) };
        assert(obs == fresh_fn_observer(f));
        self.subscribe(obs);
    }
}

/// The report line of a device.
pub open spec fn device_line(key: Seq<char>, text: Seq<char>) -> Seq<char> {
    "    ["@ + key + "] "@ + text
}

/// The report line of a device whose report failed.
pub open spec fn device_error_line(key: Seq<char>, e: SmartHomeError) -> Seq<char> {
    "    ["@ + key + "] ОШИБКА: "@ + error_text(e)
}

/// The lines of the devices whose reports succeeded, in key order.
pub open spec fn ok_lines(keys: Seq<Seq<char>>, reps: Seq<Result<Seq<char>, SmartHomeError>>) -> Seq<Seq<char>>
    decreases keys.len(),
{
    if keys.len() == 0 || reps.len() == 0 {
        Seq::empty()
    } else {
        let prev = ok_lines(keys.drop_last(), reps.drop_last());
        match reps.last() {
            Ok(t) => prev.push(device_line(keys.last(), t)),
            Err(_) => prev,
        }
    }
}

/// The lines of the devices whose reports failed, in key order.
pub open spec fn error_lines(keys: Seq<Seq<char>>, reps: Seq<Result<Seq<char>, SmartHomeError>>) -> Seq<Seq<char>>
    decreases keys.len(),
{
    if keys.len() == 0 || reps.len() == 0 {
        Seq::empty()
    } else {
        let prev = error_lines(keys.drop_last(), reps.drop_last());
        match reps.last() {
            Ok(_) => prev,
            Err(e) => prev.push(device_error_line(keys.last(), e)),
        }
    }
}

/// The first line of a room's report.
pub open spec fn room_header(name: Seq<char>) -> Seq<char> {
    "  Комната: '"@ + name + "'"@
}

/// The reports of a room's devices, in key order.
pub open spec fn room_device_reports(room: Room, answers: Map<Seq<char>, RemoteAnswer>) -> Seq<Result<Seq<char>, SmartHomeError>> {
    Seq::new(room.device_seq().len(), |i: int| device_report(room.device_seq()[i], answers))
}

/// The report of a room: its name, then the devices whose reports
/// succeeded, then those whose reports failed, each group in key order.
pub open spec fn room_report_text(room: Room, answers: Map<Seq<char>, RemoteAnswer>) -> Seq<char> {
    let reps = room_device_reports(room, answers);
    join_lines(
        seq![room_header(room.spec_name())] + ok_lines(room.device_key_seq(), reps) + error_lines(room.device_key_seq(), reps),
    )
}

proof fn lemma_device_lines(keys: Seq<Seq<char>>, reps: Seq<Result<Seq<char>, SmartHomeError>>)
    requires
        keys.len() == reps.len(),
    ensures
        ok_lines(keys, reps).len() + error_lines(keys, reps).len() == keys.len(),
        forall|i: int| 0 <= i < keys.len() ==> match #[trigger] reps[i] {
            Ok(t) => ok_lines(keys, reps).contains(device_line(keys[i], t)),
            Err(e) => error_lines(keys, reps).contains(device_error_line(keys[i], e)),
        },
    decreases keys.len(),
{
    if keys.len() > 0 {
        let (k0, r0) = (keys.drop_last(), reps.drop_last());
        lemma_device_lines(k0, r0);
        let (ok0, er0) = (ok_lines(k0, r0), error_lines(k0, r0));
        let (ok, er) = (ok_lines(keys, reps), error_lines(keys, reps));
        assert forall|i: int| 0 <= i < keys.len() implies match #[trigger] reps[i] {
            Ok(t) => ok.contains(device_line(keys[i], t)),
            Err(e) => er.contains(device_error_line(keys[i], e)),
        } by {
            if i < keys.len() - 1 {
                assert(r0[i] == reps[i]);
                assert(k0[i] == keys[i]);
                match reps[i] {
                    Ok(t) => {
                        let j = choose|j: int| 0 <= j < ok0.len() && ok0[j] == device_line(keys[i], t);
                        assert(ok[j] == ok0[j]);
                    },
                    Err(e) => {
                        let j = choose|j: int| 0 <= j < er0.len() && er0[j] == device_error_line(keys[i], e);
                        assert(er[j] == er0[j]);
                    },
                }
            } else {
                match reps[i] {
                    Ok(t) => { assert(ok[ok.len() - 1] == device_line(keys[i], t)); },
                    Err(e) => { assert(er[er.len() - 1] == device_error_line(keys[i], e)); },
                }
            }
        }
    }
}

/// Every device of a room gets exactly one line in the room's report:
/// under the room's name, a line for each device whose report succeeded,
/// then a line for each whose report failed, with the failure; as many
/// lines as the room has devices.
pub proof fn law_room_report_every_device(room: Room, answers: Map<Seq<char>, RemoteAnswer>)
    requires
        room.wf(),
    ensures
        ({
            let keys = room.device_key_seq();
            let reps = room_device_reports(room, answers);
            let (ok, er) = (ok_lines(keys, reps), error_lines(keys, reps));
            &&& room_report_text(room, answers) == join_lines(seq![room_header(room.spec_name())] + ok + er)
            &&& ok.len() + er.len() == room.devices().dom().len()
            &&& forall|k: Seq<char>| #[trigger] room.devices().contains_key(k) ==> match device_report(room.devices()[k], answers) {
                Ok(t) => ok.contains(device_line(k, t)),
                Err(e) => er.contains(device_error_line(k, e)),
            }
        }),
{
    room.devices.lemma_keys();
    let keys = room.device_key_seq();
    let reps = room_device_reports(room, answers);
    lemma_device_lines(keys, reps);
    assert forall|k: Seq<char>| #[trigger] room.devices().contains_key(k) implies match device_report(room.devices()[k], answers) {
        Ok(t) => ok_lines(keys, reps).contains(device_line(k, t)),
        Err(e) => error_lines(keys, reps).contains(device_error_line(k, e)),
    } by {
        let i = choose|i: int| 0 <= i < keys.len() && keys[i] == k;
        assert(room.devices()[keys[i]] == room.device_seq()[i]);
        assert(reps[i] == device_report(room.device_seq()[i], answers));
    }
}

/// Whether `answers` holds what the reports of a room's devices need.
pub open spec fn room_ready(room: Room, answers: Map<Seq<char>, RemoteAnswer>) -> bool {
    &&& room.wf()
    &&& forall|i: int| 0 <= i < room.device_seq().len() ==> device_ready(#[trigger] room.device_seq()[i], answers)
}

impl Room {
    /// Appends the targets of the room's remote devices, in key order.
    pub fn push_remote_targets(&self, out: &mut Vec<RemoteTarget>)
        requires
            self.wf(),
        ensures
            target_views(final(out)@) == target_views(old(out)@) + targets_of(self.device_seq()),
    {
        proof { self.devices.lemma_keys(); }
        let ghost devs = self.device_seq();
        let ghost start = target_views(out@);
        let n = self.devices.len();
        let mut i: usize = 0;
        assert(devs.take(0) =~= Seq::<SmartDevice>::empty());
        assert(start + targets_of(devs.take(0)) =~= start);
        while i < n
            invariant
                self.wf(),
                devs == self.device_seq(),
                n == devs.len(),
                n == self.device_key_seq().len(),
                i <= n,
                target_views(out@) == start + targets_of(devs.take(i as int)),
            decreases n - i,
        {
            let d = self.devices.value_at_index(i);
            assert(devs.take(i + 1).drop_last() =~= devs.take(i as int));
            assert(devs.take(i + 1).last() == *d);
            let ghost before = out@;
            match d.remote_target() {
                Some(t) => {
                    out.push(t);
                    assert(out@ == before.push(t));
                    assert(target_views(out@) =~= target_views(before).push((t.addr@, t.is_socket)));
                    assert(target_views(out@) =~= start + targets_of(devs.take(i + 1)));
                },
                None => {
                    assert(target_views(out@) =~= start + targets_of(devs.take(i + 1)));
                },
            }
            i = i + 1;
        }
        assert(devs.take(n as int) =~= devs);
    }

    /// The targets of the room's remote devices, in key order: what must be
    /// asked before the room's report.
    pub fn remote_targets(&self) -> (r: Vec<RemoteTarget>)
        requires
            self.wf(),
        ensures
            target_views(r@) == targets_of(self.device_seq()),
    {
        let mut out: Vec<RemoteTarget> = Vec::new();
        self.push_remote_targets(&mut out);
        assert(target_views(Seq::<RemoteTarget>::empty()) =~= Seq::<(Seq<char>, bool)>::empty());
        assert(target_views(out@) =~= targets_of(self.device_seq()));
        out
    }

    /// Records the reading of each of the room's thermometers that hear UDP
    /// packets.
    pub fn record_readings(&self, probe: &mut Probe)
        requires
            self.wf(),
            old(probe).wf(),
        ensures
            final(probe).wf(),
            readings_recorded(old(probe).answers(), final(probe).answers(), targets_of(self.device_seq())),
    {
        proof { self.devices.lemma_keys(); }
        let ghost devs = self.device_seq();
        let ghost start = probe.answers();
        let n = self.devices.len();
        let mut i: usize = 0;
        assert(devs.take(0) =~= Seq::<SmartDevice>::empty());
        while i < n
            invariant
                self.wf(),
                probe.wf(),
                devs == self.device_seq(),
                n == devs.len(),
                n == self.device_key_seq().len(),
                i <= n,
                readings_recorded(start, probe.answers(), targets_of(devs.take(i as int))),
            decreases n - i,
        {
            let d = self.devices.value_at_index(i);
            let ghost before = probe.answers();
            d.record_reading(probe);
            proof {
                lemma_readings_compose(start, before, probe.answers(), targets_of(devs.take(i as int)), device_target_seq(*d));
                assert(devs.take(i + 1).drop_last() =~= devs.take(i as int));
                assert(devs.take(i + 1).last() == *d);
                assert(targets_of(devs.take(i + 1)) =~= targets_of(devs.take(i as int)) + device_target_seq(*d));
            }
            i = i + 1;
        }
        assert(devs.take(n as int) =~= devs);
    }

    /// Whether `probe` holds what the room's report needs.
    pub fn probe_ready(&self, probe: &Probe) -> (r: bool)
        requires
            self.wf(),
            probe.wf(),
        ensures
            r == room_ready(*self, probe.answers()),
    {
        proof { self.devices.lemma_keys(); }
        let n = self.devices.len();
        let mut i: usize = 0;
        while i < n
            invariant
                self.wf(),
                probe.wf(),
                n == self.device_seq().len(),
                n == self.device_key_seq().len(),
                i <= n,
                forall|j: int| 0 <= j < i ==> device_ready(#[trigger] self.device_seq()[j], probe.answers()),
            decreases n - i,
        {
            let d = self.devices.value_at_index(i);
            if !d.probe_ready(probe) {
                return false;
            }
            i = i + 1;
        }
        true
    }
}

/// After a device is added under `key` (what `add_device` does to the
/// devices), the room holds that device under `key`, and every other key
/// holds what it held before.
pub proof fn law_room_get_after_add(before: Room, after: Room, key: Seq<char>, device: SmartDevice)
    requires
        after.devices() == before.devices().insert(key, device),
    ensures
        after.devices().contains_key(key),
        after.devices()[key] == device,
        forall|k: Seq<char>| k != key ==> (#[trigger] after.devices().contains_key(k) <==> before.devices().contains_key(k)),
        forall|k: Seq<char>| k != key && before.devices().contains_key(k) ==> #[trigger] after.devices()[k] == before.devices()[k],
{
}

/// Adding a device under a key the room did not hold, then removing it
/// (what `add_device` and `remove_device` do to the devices), leaves the
/// devices as they were; the removal hands back the device added.
pub proof fn law_room_remove_undoes_add(
    before: Room,
    added: Room,
    after: Room,
    key: Seq<char>,
    device: SmartDevice,
)
    requires
        !before.devices().contains_key(key),
        added.devices() == before.devices().insert(key, device),
        after.devices() == added.devices().remove(key),
    ensures
        after.devices() == before.devices(),
        added.devices().contains_key(key) && added.devices()[key] == device,
{
    assert(after.devices() =~= before.devices());
}

/// After a device is removed (what `remove_device` does to the devices),
/// the room holds nothing under its key.
pub proof fn law_room_get_after_remove(before: Room, after: Room, key: Seq<char>)
    requires
        after.devices() == before.devices().remove(key),
    ensures
        !after.devices().contains_key(key),
        forall|k: Seq<char>| k != key ==> (#[trigger] after.devices().contains_key(k) <==> before.devices().contains_key(k)),
{
}

/// Every target of `devs`, in `devs`'s order, is an element of `targets_of(devs)`.
proof fn lemma_targets_of_contains(devs: Seq<SmartDevice>, i: int)
    requires
        0 <= i < devs.len(),
        device_target(devs[i]) is Some,
    ensures
        targets_of(devs).contains(device_target(devs[i])->0),
    decreases devs.len(),
{
    let last = devs.len() - 1;
    if i == last {
        assert(targets_of(devs).last() == device_target(devs[i])->0);
    } else {
        lemma_targets_of_contains(devs.drop_last(), i);
        let prev = targets_of(devs.drop_last());
        let t = device_target(devs[i])->0;
        let k = choose|k: int| 0 <= k < prev.len() && prev[k] == t;
        match device_target(devs.last()) {
            Some(u) => { assert(prev.push(u)[k] == t); },
            None => {},
        }
    }
}

/// A room whose remote targets are all answered, each with an answer of
/// its kind, is ready for its report.
pub proof fn law_answered_room_ready(room: Room, answers: Map<Seq<char>, RemoteAnswer>)
    requires
        room.wf(),
        forall|t: (Seq<char>, bool)| targets_of(room.device_seq()).contains(t) ==> #[trigger] answers_target(answers, t),
    ensures
        room_ready(room, answers),
{
    assert forall|i: int| 0 <= i < room.device_seq().len() implies device_ready(#[trigger] room.device_seq()[i], answers) by {
        let d = room.device_seq()[i];
        if device_target(d) is Some {
            lemma_targets_of_contains(room.device_seq(), i);
            assert(answers_target(answers, device_target(d)->0));
        }
        lemma_answered_device_ready(d, answers);
    }
}

impl Report for Room {
    open spec fn ready(&self, answers: Map<Seq<char>, RemoteAnswer>) -> bool {
        room_ready(*self, answers)
    }

    fn report(&self, probe: &Probe) -> (r: Result<String, SmartHomeError>)
        ensures
            r matches Ok(s) && s@ == room_report_text(*self, probe.answers()),
    {
        proof { self.devices.lemma_keys(); }
        let ghost keys = self.device_key_seq();
        let ghost reps = room_device_reports(*self, probe.answers());
        let n = self.devices.len();
        let mut ok: Vec<String> = Vec::new();
        let mut errs: Vec<String> = Vec::new();
        let mut i: usize = 0;
        assert(keys.take(0) =~= Seq::<Seq<char>>::empty());
        assert(reps.take(0) =~= Seq::<Result<Seq<char>, SmartHomeError>>::empty());
        assert(ok@.map_values(|l: String| l@) =~= Seq::<Seq<char>>::empty());
        while i < n
            invariant
                probe.wf(),
                room_ready(*self, probe.answers()),
                keys == self.device_key_seq(),
                reps == room_device_reports(*self, probe.answers()),
                n == keys.len(),
                n == reps.len(),
                i <= n,
                ok@.map_values(|l: String| l@) == ok_lines(keys.take(i as int), reps.take(i as int)),
                errs@.map_values(|l: String| l@) == error_lines(keys.take(i as int), reps.take(i as int)),
            decreases n - i,
        {
            let key = self.devices.key_at_index(i);
            let device = self.devices.value_at_index(i);
            assert(device_ready(self.device_seq()[i as int], probe.answers()));
            let rep = device.report(probe);
            assert(keys.take(i + 1).drop_last() =~= keys.take(i as int));
            assert(reps.take(i + 1).drop_last() =~= reps.take(i as int));
            assert(reps.take(i + 1).last() == reps[i as int]);
            let mut line = String::new();
            line.append("    [");
            line.append(key);
            match rep {
                Ok(text) => {
                    line.append("] ");
                    line.append(text.as_str());
                    assert(line@ =~= device_line(keys[i as int], text@));
                    ok.push(line);
                    assert(ok@.map_values(|l: String| l@) =~= ok_lines(keys.take(i + 1), reps.take(i + 1)));
                    assert(errs@.map_values(|l: String| l@) =~= error_lines(keys.take(i + 1), reps.take(i + 1)));
                },
                Err(e) => {
                    line.append("] ОШИБКА: ");
                    let msg = e.message();
                    line.append(msg.as_str());
                    assert(line@ =~= device_error_line(keys[i as int], e));
                    errs.push(line);
                    assert(ok@.map_values(|l: String| l@) =~= ok_lines(keys.take(i + 1), reps.take(i + 1)));
                    assert(errs@.map_values(|l: String| l@) =~= error_lines(keys.take(i + 1), reps.take(i + 1)));
                },
            }
            i = i + 1;
        }
        assert(keys.take(n as int) =~= keys);
        assert(reps.take(n as int) =~= reps);
        let mut out = String::new();
        out.append("  Комната: '");
        out.append(self.name.as_str());
        out.append("'");
        let ghost head = seq![room_header(self.spec_name())];
        assert(out@ =~= room_header(self.spec_name()));
        assert(join_lines(head) == out@);
        append_lines(&mut out, &ok);
        let ghost head2 = head + ok@.map_values(|l: String| l@);
        assert(join_lines(head2) == out@);
        append_lines(&mut out, &errs);
        assert(join_lines(head2 + errs@.map_values(|l: String| l@)) == out@);
        Ok(out)
    }
}

/// The map that a list of key and device pairs builds; a later pair
/// replaces an earlier one with the same key.
pub open spec fn pairs_map(pairs: Seq<(String, SmartDevice)>) -> Map<Seq<char>, SmartDevice>
    decreases pairs.len(),
{
    if pairs.len() == 0 {
        Map::empty()
    } else {
        pairs_map(pairs.drop_last()).insert(pairs.last().0@, pairs.last().1)
    }
}

} // verus!
