//! Text reports of devices, rooms and homes.
//!
//! A report is computed from the values held here and, for devices reached
//! over the network, from a `Probe`: the answers that those devices gave
//! when they were asked, just before the report.
use vstd::prelude::*;

use crate::devices::{no_data_message, SmartDevice, SmartSocket, SmartThermometer, NO_DATA};
use crate::error::{error_text, SmartHomeError};
use crate::keyed::KeyedVec;
use crate::text::{one_decimal_text, push_one_decimal};

verus! {

/// What a remote device answered when it was asked for a report.
#[derive(Debug)]
pub enum RemoteAnswer {
    /// A socket's answers to `STATE` and to `POWER` (power in milliwatts).
    Socket { is_on: Result<bool, SmartHomeError>, power: Result<i64, SmartHomeError> },
    /// The temperature a UDP thermometer holds, in thousandths of a degree.
    Thermometer { reading: Result<i64, SmartHomeError> },
}

/// The answers of remote devices, by address.
pub struct Probe {
    answers: KeyedVec<RemoteAnswer>,
}

impl Probe {
    /// Well-formed.
    pub closed spec fn wf(&self) -> bool {
        self.answers.wf()
    }

    /// The answers, by address.
    pub closed spec fn answers(&self) -> Map<Seq<char>, RemoteAnswer> {
        self.answers.map()
    }

    /// No answers: enough for anything that holds only local devices.
    pub fn new() -> (r: Self)
        ensures
            r.wf(),
            r.answers() == Map::<Seq<char>, RemoteAnswer>::empty(),
    {
        Probe { answers: KeyedVec::new() }
    }

    /// Records the answer of the device at `addr`.
    pub fn record(&mut self, addr: &str, answer: RemoteAnswer)
        requires
            old(self).wf(),
        ensures
            final(self).wf(),
            final(self).answers() == old(self).answers().insert(addr@, answer),
    {
        self.answers.insert(addr.to_owned(), answer);
    }

    /// The answer of the device at `addr`.
    pub fn answer(&self, addr: &str) -> (r: Option<&RemoteAnswer>)
        requires
            self.wf(),
        ensures
            r is Some <==> self.answers().contains_key(addr@),
            r matches Some(a) ==> *a == self.answers()[addr@],
    {
        self.answers.get(addr)
    }
}

/// The report line of a socket.
pub open spec fn socket_line(name: Seq<char>, on: bool, power: int) -> Seq<char> {
    "[Розетка '"@ + name + "'] Состояние: "@ + (if on { "включена"@ } else { "выключена"@ })
        + ", Мощность: "@ + one_decimal_text(power) + " Вт"@
}

/// The report line of a thermometer.
pub open spec fn thermometer_line(name: Seq<char>, t: int) -> Seq<char> {
    "[Термометр '"@ + name + "'] Температура: "@ + one_decimal_text(t) + "°C"@
}

/// Whether `answers` holds what a remote socket's report needs.
pub open spec fn socket_ready(s: SmartSocket, answers: Map<Seq<char>, RemoteAnswer>) -> bool {
    s.is_remote() ==> answers.contains_key(s.spec_addr()) && answers[s.spec_addr()] is Socket
}

/// Whether `answers` holds what a UDP thermometer's report needs.
pub open spec fn thermometer_ready(t: SmartThermometer, answers: Map<Seq<char>, RemoteAnswer>) -> bool {
    t.is_remote() ==> answers.contains_key(t.spec_addr()) && answers[t.spec_addr()] is Thermometer
}

pub open spec fn device_ready(d: SmartDevice, answers: Map<Seq<char>, RemoteAnswer>) -> bool {
    match d {
        SmartDevice::Socket(s) => socket_ready(s, answers),
        SmartDevice::Thermometer(t) => thermometer_ready(t, answers),
    }
}

/// The report of a socket: its state first, then its power; the first of
/// them that fails is the error.  (A remote socket is only reported on
/// once its answer is a socket's, see `socket_ready`; the text for an
/// answer of the other kind is left empty.)
pub open spec fn socket_report(s: SmartSocket, answers: Map<Seq<char>, RemoteAnswer>) -> Result<Seq<char>, SmartHomeError> {
    if !s.is_remote() {
        Ok(socket_line(s.spec_name(), s.spec_on(), s.spec_power() as int))
    } else {
        match answers[s.spec_addr()] {
            RemoteAnswer::Socket { is_on, power } => match is_on {
                Err(e) => Err(e),
                Ok(b) => match power {
                    Err(e) => Err(e),
                    Ok(p) => Ok(socket_line(s.spec_name(), b, p as int)),
                },
            },
            RemoteAnswer::Thermometer { .. } => Ok(Seq::empty()),
        }
    }
}

/// A socket is reported in the state it is in and with the power it
/// draws: for one held here its own state and power, for a remote one the
/// state and power it answered.  The text names the socket, then says
/// "включена" when on and "выключена" when off, then the power in watts
/// with one decimal.
pub proof fn law_socket_report_shows_state(s: SmartSocket, answers: Map<Seq<char>, RemoteAnswer>, on: bool, power: i64)
    requires
        !s.is_remote() ==> on == s.spec_on() && power == s.spec_power(),
        s.is_remote() ==> answers.contains_key(s.spec_addr())
            && answers[s.spec_addr()] == (RemoteAnswer::Socket { is_on: Ok(on), power: Ok(power) }),
    ensures
        socket_report(s, answers) == Ok::<Seq<char>, SmartHomeError>(
            "[Розетка '"@ + s.spec_name() + "'] Состояние: "@ + (if on { "включена"@ } else { "выключена"@ })
                + ", Мощность: "@ + one_decimal_text(power as int) + " Вт"@,
        ),
{
}

/// A thermometer is reported with the temperature it has: for one held
/// here its own, for a remote one the reading it gave, in degrees with one
/// decimal after its name; a failed reading is the report's error.
pub proof fn law_thermometer_report_shows_temperature(
    t: SmartThermometer,
    answers: Map<Seq<char>, RemoteAnswer>,
    reading: Result<i64, SmartHomeError>,
)
    requires
        !t.is_remote() ==> reading == Ok::<i64, SmartHomeError>(t.spec_temperature()),
        t.is_remote() ==> answers.contains_key(t.spec_addr())
            && answers[t.spec_addr()] == (RemoteAnswer::Thermometer { reading }),
    ensures
        reading matches Ok(v) ==> thermometer_report(t, answers) == Ok::<Seq<char>, SmartHomeError>(
            "[Термометр '"@ + t.spec_name() + "'] Температура: "@ + one_decimal_text(v as int) + "°C"@,
        ),
        reading matches Err(e) ==> thermometer_report(t, answers) == Err::<Seq<char>, SmartHomeError>(e),
{
}

/// A remote socket that answered state `on` and power `p` is reported as a
/// socket held here with that name, state and power would be.
pub proof fn law_remote_socket_reports_like_local(
    s: SmartSocket,
    local: SmartSocket,
    answers: Map<Seq<char>, RemoteAnswer>,
    on: bool,
    power: i64,
)
    requires
        s.is_remote(),
        answers.contains_key(s.spec_addr()),
        answers[s.spec_addr()] == (RemoteAnswer::Socket { is_on: Ok(on), power: Ok(power) }),
        !local.is_remote(),
        local.spec_name() == s.spec_name(),
        local.spec_on() == on,
        local.spec_power() == power,
    ensures
        socket_report(s, answers) == socket_report(local, answers),
{
}

/// The state word of a socket's report tells the states apart: reports
/// of an on socket and an off one differ, whatever their names and powers.
pub proof fn law_socket_state_words_differ(name: Seq<char>, p: int, q: int)
    ensures
        socket_line(name, true, p) != socket_line(name, false, q),
{
    reveal_strlit("[Розетка '");
    reveal_strlit("'] Состояние: ");
    reveal_strlit("включена");
    reveal_strlit("выключена");
    let pre = "[Розетка '"@ + name + "'] Состояние: "@;
    let a = socket_line(name, true, p);
    let b = socket_line(name, false, q);
    assert(a[pre.len() as int + 1] == 'к');
    assert(b[pre.len() as int + 1] == 'ы');
}

/// The report of a thermometer.  (A remote thermometer is only reported on
/// once its answer is a thermometer's, see `thermometer_ready`; the text
/// for an answer of the other kind is left empty.)
pub open spec fn thermometer_report(t: SmartThermometer, answers: Map<Seq<char>, RemoteAnswer>) -> Result<Seq<char>, SmartHomeError> {
    if !t.is_remote() {
        Ok(thermometer_line(t.spec_name(), t.spec_temperature() as int))
    } else {
        match answers[t.spec_addr()] {
            RemoteAnswer::Thermometer { reading } => match reading {
                Err(e) => Err(e),
                Ok(v) => Ok(thermometer_line(t.spec_name(), v as int)),
            },
            RemoteAnswer::Socket { .. } => Ok(Seq::empty()),
        }
    }
}

pub open spec fn device_report(d: SmartDevice, answers: Map<Seq<char>, RemoteAnswer>) -> Result<Seq<char>, SmartHomeError> {
    match d {
        SmartDevice::Socket(s) => socket_report(s, answers),
        SmartDevice::Thermometer(t) => thermometer_report(t, answers),
    }
}

/// `r` is the report that `s` describes.
pub open spec fn is_report(r: Result<String, SmartHomeError>, s: Result<Seq<char>, SmartHomeError>) -> bool {
    match (r, s) {
        (Ok(a), Ok(b)) => a@ == b,
        (Err(a), Err(b)) => a == b,
        _ => false,
    }
}

/// Lines joined with line ends between them.
pub open spec fn join_lines(lines: Seq<Seq<char>>) -> Seq<char>
    decreases lines.len(),
{
    if lines.len() == 0 {
        Seq::empty()
    } else if lines.len() == 1 {
        lines[0]
    } else {
        join_lines(lines.drop_last()) + "\n"@ + lines.last()
    }
}

/// Appends `lines[..]` to `out`, each after a line end.
pub fn append_lines(out: &mut String, lines: &Vec<String>)
    ensures
        forall|head: Seq<Seq<char>>| #[trigger] join_lines(head) == old(out)@ && head.len() > 0 ==>
            join_lines(head + lines@.map_values(|l: String| l@)) == final(out)@,
{
    let n = lines.len();
    let mut i: usize = 0;
    let ghost start = out@;
    let ghost views = lines@.map_values(|l: String| l@);
    while i < n
        invariant
            n == lines@.len(),
            i <= n,
            views == lines@.map_values(|l: String| l@),
            forall|head: Seq<Seq<char>>| #[trigger] join_lines(head) == start && head.len() > 0 ==>
                join_lines(head + views.take(i as int)) == out@,
        decreases n - i,
    {
        let ghost before = out@;
        out.append("\n");
        out.append(lines[i].as_str());
        assert forall|head: Seq<Seq<char>>| #[trigger] join_lines(head) == start && head.len() > 0 implies
            join_lines(head + views.take(i + 1)) == out@ by {
            assert((head + views.take(i + 1)).drop_last() =~= head + views.take(i as int));
            assert((head + views.take(i + 1)).last() == lines@[i as int]@);
        }
        i = i + 1;
    }
    assert(views.take(n as int) =~= views);
}

/// A remote device to ask before a report: its address, and whether it is
/// a socket (asked `STATE` and `POWER`) or a thermometer (its cell read).
#[derive(Debug)]
pub struct RemoteTarget {
    pub addr: String,
    pub is_socket: bool,
}

/// The target of a device: its address and kind where it is remote.
pub open spec fn device_target(d: SmartDevice) -> Option<(Seq<char>, bool)> {
    match d {
        SmartDevice::Socket(s) => if s.is_remote() { Some((s.spec_addr(), true)) } else { None },
        SmartDevice::Thermometer(t) => if t.is_remote() { Some((t.spec_addr(), false)) } else { None },
    }
}

/// The targets of the remote devices among `devs`, in their order.
pub open spec fn targets_of(devs: Seq<SmartDevice>) -> Seq<(Seq<char>, bool)>
    decreases devs.len(),
{
    if devs.len() == 0 {
        Seq::empty()
    } else {
        let prev = targets_of(devs.drop_last());
        match device_target(devs.last()) {
            Some(t) => prev.push(t),
            None => prev,
        }
    }
}

/// Targets as plain values.
pub open spec fn target_views(ts: Seq<RemoteTarget>) -> Seq<(Seq<char>, bool)> {
    ts.map_values(|t: RemoteTarget| (t.addr@, t.is_socket))
}

/// `answers` answers the target `t` with an answer of its kind.
pub open spec fn answers_target(answers: Map<Seq<char>, RemoteAnswer>, t: (Seq<char>, bool)) -> bool {
    &&& answers.contains_key(t.0)
    &&& (answers[t.0] is Socket) == t.1
}

impl SmartDevice {
    /// The target of the device, where it is remote.
    pub fn remote_target(&self) -> (r: Option<RemoteTarget>)
        ensures
            r matches Some(t) ==> device_target(*self) == Some((t.addr@, t.is_socket)),
            r is None ==> device_target(*self) is None,
    {
        match self {
            SmartDevice::Socket(s) => match s.remote_addr() {
                Some(a) => Some(RemoteTarget { addr: a.to_owned(), is_socket: true }),
                None => None,
            },
            SmartDevice::Thermometer(t) => match t.remote_addr() {
                Some(a) => Some(RemoteTarget { addr: a.to_owned(), is_socket: false }),
                None => None,
            },
        }
    }

    /// Whether `probe` holds what the device's report needs.
    pub fn probe_ready(&self, probe: &Probe) -> (r: bool)
        requires
            probe.wf(),
        ensures
            r == device_ready(*self, probe.answers()),
    {
        match self.remote_target() {
            None => true,
            Some(t) => match probe.answer(t.addr.as_str()) {
                None => false,
                Some(RemoteAnswer::Socket { .. }) => t.is_socket,
                Some(RemoteAnswer::Thermometer { .. }) => !t.is_socket,
            },
        }
    }
}

/// `k` is the address of a thermometer among `targets`.
pub open spec fn thermometer_addr(targets: Seq<(Seq<char>, bool)>, k: Seq<char>) -> bool {
    exists|t: (Seq<char>, bool)| #[trigger] targets.contains(t) && !t.1 && t.0 == k
}

/// A reading that the cell of a UDP thermometer can give: a temperature
/// other than the "no data" value, or the error that no packet has
/// arrived yet.
pub open spec fn cell_reading(r: Result<i64, SmartHomeError>) -> bool {
    match r {
        Ok(t) => t != NO_DATA,
        Err(e) => e matches SmartHomeError::NetworkError(m) && m@ == no_data_message(),
    }
}

/// `answers` holds, for the thermometer target `t`, a reading of its cell.
pub open spec fn reading_answered(answers: Map<Seq<char>, RemoteAnswer>, t: (Seq<char>, bool)) -> bool {
    &&& answers_target(answers, t)
    &&& answers[t.0] matches RemoteAnswer::Thermometer { reading } && cell_reading(reading)
}

/// `after` is `before` with a reading of its cell recorded for each
/// thermometer among `targets`, and nothing else changed.
pub open spec fn readings_recorded(
    before: Map<Seq<char>, RemoteAnswer>,
    after: Map<Seq<char>, RemoteAnswer>,
    targets: Seq<(Seq<char>, bool)>,
) -> bool {
    &&& forall|t: (Seq<char>, bool)| #[trigger] targets.contains(t) && !t.1 ==> reading_answered(after, t)
    &&& forall|k: Seq<char>| !#[trigger] thermometer_addr(targets, k) ==> (after.contains_key(k) == before.contains_key(k)
        && (before.contains_key(k) ==> after[k] == before[k]))
}

/// Recording the readings of two lists of targets one after the other
/// records the readings of both.
pub proof fn lemma_readings_compose(
    a: Map<Seq<char>, RemoteAnswer>,
    b: Map<Seq<char>, RemoteAnswer>,
    c: Map<Seq<char>, RemoteAnswer>,
    t1: Seq<(Seq<char>, bool)>,
    t2: Seq<(Seq<char>, bool)>,
)
    requires
        readings_recorded(a, b, t1),
        readings_recorded(b, c, t2),
    ensures
        readings_recorded(a, c, t1 + t2),
{
    let t12 = t1 + t2;
    assert forall|t: (Seq<char>, bool)| #[trigger] t12.contains(t) && !t.1 implies reading_answered(c, t) by {
        let i = choose|i: int| 0 <= i < t12.len() && t12[i] == t;
        if i < t1.len() {
            assert(t1[i] == t);
            assert(t1.contains(t));
            if thermometer_addr(t2, t.0) {
                let u = choose|u: (Seq<char>, bool)| #[trigger] t2.contains(u) && !u.1 && u.0 == t.0;
                assert(reading_answered(c, u));
            }
        } else {
            assert(t2[i - t1.len()] == t);
            assert(t2.contains(t));
        }
    }
    assert forall|k: Seq<char>| !#[trigger] thermometer_addr(t12, k) implies (c.contains_key(k) == a.contains_key(k)
        && (a.contains_key(k) ==> c[k] == a[k])) by {
        if thermometer_addr(t1, k) {
            let u = choose|u: (Seq<char>, bool)| #[trigger] t1.contains(u) && !u.1 && u.0 == k;
            let i = choose|i: int| 0 <= i < t1.len() && t1[i] == u;
            assert(t12[i] == u);
            assert(t12.contains(u));
        }
        if thermometer_addr(t2, k) {
            let u = choose|u: (Seq<char>, bool)| #[trigger] t2.contains(u) && !u.1 && u.0 == k;
            let i = choose|i: int| 0 <= i < t2.len() && t2[i] == u;
            assert(t12[t1.len() + i] == u);
            assert(t12.contains(u));
        }
    }
}

/// The targets of one device, as a list.
pub open spec fn device_target_seq(d: SmartDevice) -> Seq<(Seq<char>, bool)> {
    match device_target(d) {
        Some(t) => seq![t],
        None => Seq::empty(),
    }
}

impl SmartDevice {
    /// Records the reading of a thermometer that hears UDP packets (the
    /// value its cell holds now, or the error while it holds none).
    pub fn record_reading(&self, probe: &mut Probe)
        requires
            old(probe).wf(),
        ensures
            final(probe).wf(),
            readings_recorded(old(probe).answers(), final(probe).answers(), device_target_seq(*self)),
    {
        let ghost ts = device_target_seq(*self);
        match self {
            SmartDevice::Thermometer(t) => match t.remote_addr() {
                Some(addr) => {
                    let reading = t.temperature();
                    let ghost before = probe.answers();
                    probe.record(addr, RemoteAnswer::Thermometer { reading });
                    proof {
                        assert(ts =~= seq![(addr@, false)]);
                        assert(ts.contains((addr@, false))) by { assert(ts[0] == (addr@, false)); }
                        assert forall|k: Seq<char>| !#[trigger] thermometer_addr(ts, k) implies (probe.answers().contains_key(k)
                            == before.contains_key(k) && (before.contains_key(k) ==> probe.answers()[k] == before[k])) by {
                            if k == addr@ {
                                assert(ts.contains((addr@, false)));
                            }
                        }
                    }
                },
                None => {
                    assert(ts =~= Seq::<(Seq<char>, bool)>::empty());
                },
            },
            SmartDevice::Socket(s) => {
                assert(forall|t: (Seq<char>, bool)| #[trigger] ts.contains(t) ==> t.1);
                assert forall|k: Seq<char>| !#[trigger] thermometer_addr(ts, k) implies true by {}
            },
        }
    }
}

/// A device whose target is answered with an answer of its kind is ready
/// for its report.
pub proof fn lemma_answered_device_ready(d: SmartDevice, answers: Map<Seq<char>, RemoteAnswer>)
    requires
        device_target(d) matches Some(t) ==> answers_target(answers, t),
    ensures
        device_ready(d, answers),
{
}

/// Something that can be reported on.
pub trait Report {
    /// Whether `answers` holds what the report needs from remote devices.
    spec fn ready(&self, answers: Map<Seq<char>, RemoteAnswer>) -> bool;

    /// The report, computed from the values held here and the answers of
    /// remote devices in `probe`.
    fn report(&self, probe: &Probe) -> (r: Result<String, SmartHomeError>)
        requires
            probe.wf(),
            self.ready(probe.answers()),
    ;
}

fn push_socket_line(out: &mut String, name: &str, on: bool, power: i64)
    ensures
        final(out)@ == old(out)@ + socket_line(name@, on, power as int),
{
    let ghost start = out@;
    out.append("[Розетка '");
    out.append(name);
    out.append("'] Состояние: ");
    if on {
        out.append("включена");
    } else {
        out.append("выключена");
    }
    out.append(", Мощность: ");
    push_one_decimal(out, power);
    out.append(" Вт");
    assert(out@ =~= start + socket_line(name@, on, power as int));
}

fn push_thermometer_line(out: &mut String, name: &str, t: i64)
    ensures
        final(out)@ == old(out)@ + thermometer_line(name@, t as int),
{
    let ghost start = out@;
    out.append("[Термометр '");
    out.append(name);
    out.append("'] Температура: ");
    push_one_decimal(out, t);
    out.append("°C");
    assert(out@ =~= start + thermometer_line(name@, t as int));
}

impl Report for SmartSocket {
    open spec fn ready(&self, answers: Map<Seq<char>, RemoteAnswer>) -> bool {
        socket_ready(*self, answers)
    }

    fn report(&self, probe: &Probe) -> (r: Result<String, SmartHomeError>)
        ensures
            is_report(r, socket_report(*self, probe.answers())),
    {
        let mut out = String::new();
        match self.remote_addr() {
            None => {
                let on = match self.is_on().done() {
                    Some(Ok(b)) => b,
                    _ => false,
                };
                let power = match self.current_power().done() {
                    Some(Ok(p)) => p,
                    _ => 0,
                };
                push_socket_line(&mut out, self.name(), on, power);
                Ok(out)
            },
            Some(addr) => {
                match probe.answer(addr) {
                    Some(RemoteAnswer::Socket { is_on, power }) => {
                        let on = match is_on {
                            Ok(b) => *b,
                            Err(e) => { return Err(e.duplicate()); },
                        };
                        let p = match power {
                            Ok(p) => *p,
                            Err(e) => { return Err(e.duplicate()); },
                        };
                        push_socket_line(&mut out, self.name(), on, p);
                        Ok(out)
                    },
                    _ => Ok(out),
                }
            },
        }
    }
}

impl Report for SmartThermometer {
    open spec fn ready(&self, answers: Map<Seq<char>, RemoteAnswer>) -> bool {
        thermometer_ready(*self, answers)
    }

    fn report(&self, probe: &Probe) -> (r: Result<String, SmartHomeError>)
        ensures
            is_report(r, thermometer_report(*self, probe.answers())),
    {
        let mut out = String::new();
        match self.remote_addr() {
            None => {
                let t = match self.temperature() {
                    Ok(t) => t,
                    Err(_) => 0,
                };
                push_thermometer_line(&mut out, self.name(), t);
                Ok(out)
            },
            Some(addr) => {
                match probe.answer(addr) {
                    Some(RemoteAnswer::Thermometer { reading }) => {
                        match reading {
                            Ok(v) => {
                                push_thermometer_line(&mut out, self.name(), *v);
                                Ok(out)
                            },
                            Err(e) => Err(e.duplicate()),
                        }
                    },
                    _ => Ok(out),
                }
            },
        }
    }
}

impl Report for SmartDevice {
    open spec fn ready(&self, answers: Map<Seq<char>, RemoteAnswer>) -> bool {
        device_ready(*self, answers)
    }

    fn report(&self, probe: &Probe) -> (r: Result<String, SmartHomeError>)
        ensures
            is_report(r, device_report(*self, probe.answers())),
    {
        match self {
            SmartDevice::Thermometer(t) => t.report(probe),
            SmartDevice::Socket(s) => s.report(probe),
        }
    }
}

} // verus!
