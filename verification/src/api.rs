//! The operations of the home's REST service, apart from HTTP and JSON:
//! what each request does to the home and what it answers.  Quantities are
//! fixed-point as elsewhere (power in milliwatts, temperature in
//! thousandths of a degree).
use vstd::prelude::*;

use crate::devices::{SmartDevice, SmartSocket, SmartThermometer, SocketCall, SocketCommand};
use crate::error::{error_text, SmartHomeError};
use crate::home::{home_ready, SmartHome};
use crate::report::{device_ready, Probe, RemoteAnswer, Report};
use crate::room::Room;
use crate::text::{str_eq, trim, trim_str};

verus! {

/// HTTP status codes the service answers with.
pub const STATUS_OK: u16 = 200;
pub const STATUS_CREATED: u16 = 201;
pub const STATUS_NO_CONTENT: u16 = 204;
pub const STATUS_BAD_REQUEST: u16 = 400;
pub const STATUS_NOT_FOUND: u16 = 404;
pub const STATUS_INTERNAL_ERROR: u16 = 500;

/// A refused request: its status and message.
#[derive(Debug, PartialEq, Eq)]
pub struct ApiError {
    pub status: u16,
    pub message: String,
}

/// Body of a request to add a room.
#[derive(Debug, PartialEq, Eq)]
pub struct CreateRoomRequest {
    pub name: String,
}

/// A room in the list of rooms.
#[derive(Debug, PartialEq, Eq)]
pub struct RoomSummary {
    pub key: String,
    pub name: String,
    pub device_count: usize,
}

/// A device in a list of devices.
#[derive(Debug, PartialEq, Eq)]
pub struct DeviceSummary {
    pub key: String,
    pub device_type: String,
    pub name: String,
}

/// A room with its devices.
#[derive(Debug, PartialEq, Eq)]
pub struct RoomInfo {
    pub key: String,
    pub name: String,
    pub devices: Vec<DeviceSummary>,
}

/// Body of a request to add a device (power in milliwatts, temperature in
/// thousandths of a degree).
#[derive(Debug, PartialEq, Eq)]
pub struct CreateDeviceRequest {
    pub key: String,
    pub device_type: String,
    pub name: String,
    pub is_on: Option<bool>,
    pub power: Option<i64>,
    pub temperature: Option<i64>,
}

/// A device with what it reports (power in milliwatts, temperature in
/// thousandths of a degree).
#[derive(Debug, PartialEq, Eq)]
pub struct DeviceInfo {
    pub key: String,
    pub device_type: String,
    pub name: String,
    pub is_on: Option<bool>,
    pub power: Option<i64>,
    pub temperature: Option<i64>,
}

/// The home's report.
#[derive(Debug, PartialEq, Eq)]
pub struct ReportResponse {
    pub report: String,
}

/// The body of a refused request.
#[derive(Debug, PartialEq, Eq)]
pub struct ErrorResponse {
    pub error: String,
}

/// `e` has status `status` and message `msg`.
pub open spec fn is_api_error(e: ApiError, status: u16, msg: Seq<char>) -> bool {
    e.status == status && e.message@ == msg
}

pub open spec fn room_not_found_text(room: Seq<char>) -> Seq<char> {
    "Комната '"@ + room + "' не найдена"@
}

pub open spec fn device_not_found_text(device: Seq<char>) -> Seq<char> {
    "Устройство '"@ + device + "' не найдено"@
}

fn not_found_room(room: &str) -> (r: ApiError)
    ensures
        is_api_error(r, STATUS_NOT_FOUND, room_not_found_text(room@)),
{
    let mut m = String::new();
    m.append("Комната '");
    m.append(room);
    m.append("' не найдена");
    ApiError { status: STATUS_NOT_FOUND, message: m }
}

fn not_found_device(device: &str) -> (r: ApiError)
    ensures
        is_api_error(r, STATUS_NOT_FOUND, device_not_found_text(device@)),
{
    let mut m = String::new();
    m.append("Устройство '");
    m.append(device);
    m.append("' не найдено");
    ApiError { status: STATUS_NOT_FOUND, message: m }
}

/// The answer to an error of the home: 404 for a missing room or device,
/// 500 for a network failure, with the error's message.
pub fn map_home_error(e: SmartHomeError) -> (r: ApiError)
    ensures
        r.message@ == error_text(e),
        r.status == (if e is NetworkError { STATUS_INTERNAL_ERROR } else { STATUS_NOT_FOUND }),
{
    let status = match &e {
        SmartHomeError::NetworkError(_) => STATUS_INTERNAL_ERROR,
        _ => STATUS_NOT_FOUND,
    };
    ApiError { status, message: e.message() }
}

/// The type name of a device: `socket` or `thermometer`.
pub open spec fn device_type_text(d: SmartDevice) -> Seq<char> {
    match d {
        SmartDevice::Socket(_) => "socket"@,
        SmartDevice::Thermometer(_) => "thermometer"@,
    }
}

/// A device's entry in a list.
pub fn device_summary(key: &str, device: &SmartDevice) -> (r: DeviceSummary)
    ensures
        r.key@ == key@,
        r.device_type@ == device_type_text(*device),
        r.name@ == device.spec_name(),
{
    let t = match device {
        SmartDevice::Socket(_) => "socket",
        SmartDevice::Thermometer(_) => "thermometer",
    };
    DeviceSummary { key: key.to_owned(), device_type: t.to_owned(), name: device.name().to_owned() }
}

fn room_device_summaries(room: &Room) -> (r: Vec<DeviceSummary>)
    requires
        room.wf(),
    ensures
        r@.len() == room.device_key_seq().len(),
        forall|i: int| 0 <= i < r@.len() ==> {
            let k = room.device_key_seq()[i];
            &&& (#[trigger] r@[i]).key@ == k
            &&& r@[i].device_type@ == device_type_text(room.devices()[k])
            &&& r@[i].name@ == room.devices()[k].spec_name()
        },
{
    let keys = room.device_keys();
    let mut out: Vec<DeviceSummary> = Vec::new();
    let mut i: usize = 0;
    while i < keys.len()
        invariant
            room.wf(),
            keys@.len() == room.device_key_seq().len(),
            forall|j: int| 0 <= j < keys@.len() ==> #[trigger] keys@[j]@ == room.device_key_seq()[j],
            forall|k: Seq<char>| #[trigger] room.devices().contains_key(k) <==> room.device_key_seq().contains(k),
            i <= keys@.len(),
            out@.len() == i,
            forall|j: int| 0 <= j < i ==> {
                let k = room.device_key_seq()[j];
                &&& (#[trigger] out@[j]).key@ == k
                &&& out@[j].device_type@ == device_type_text(room.devices()[k])
                &&& out@[j].name@ == room.devices()[k].spec_name()
            },
        decreases keys@.len() - i,
    {
        let key = keys[i];
        assert(room.device_key_seq().contains(key@));
        match room.get_device(key) {
            Some(d) => {
                out.push(device_summary(key, d));
            },
            None => {},
        }
        i = i + 1;
    }
    out
}

/// The list of rooms, in key order.
pub fn list_rooms(home: &SmartHome) -> (r: Vec<RoomSummary>)
    requires
        home.wf(),
    ensures
        r@.len() == home.room_key_seq().len(),
        forall|i: int| 0 <= i < r@.len() ==> {
            let k = home.room_key_seq()[i];
            &&& (#[trigger] r@[i]).key@ == k
            &&& r@[i].name@ == home.rooms()[k].spec_name()
            &&& r@[i].device_count == home.rooms()[k].devices().dom().len()
        },
{
    let keys = home.room_keys();
    let mut out: Vec<RoomSummary> = Vec::new();
    let mut i: usize = 0;
    while i < keys.len()
        invariant
            home.wf(),
            keys@.len() == home.room_key_seq().len(),
            forall|j: int| 0 <= j < keys@.len() ==> #[trigger] keys@[j]@ == home.room_key_seq()[j],
            forall|k: Seq<char>| #[trigger] home.rooms().contains_key(k) <==> home.room_key_seq().contains(k),
            i <= keys@.len(),
            out@.len() == i,
            forall|j: int| 0 <= j < i ==> {
                let k = home.room_key_seq()[j];
                &&& (#[trigger] out@[j]).key@ == k
                &&& out@[j].name@ == home.rooms()[k].spec_name()
                &&& out@[j].device_count == home.rooms()[k].devices().dom().len()
            },
        decreases keys@.len() - i,
    {
        let key = keys[i];
        assert(home.room_key_seq().contains(key@));
        match home.get_room(key) {
            Some(room) => {
                let count = room.device_keys().len();
                out.push(RoomSummary { key: key.to_owned(), name: room.name().to_owned(), device_count: count });
            },
            None => {},
        }
        i = i + 1;
    }
    out
}

/// Adds an empty room under the key and with the name `req.name`; refused
/// with 400 when the name is blank.  Gives the new room's key.
pub fn add_room(home: &mut SmartHome, req: &CreateRoomRequest) -> (r: Result<String, ApiError>)
    requires
        old(home).wf(),
    ensures
        final(home).wf(),
        final(home).spec_name() == old(home).spec_name(),
        trim(req.name@).len() == 0 ==> {
            &&& r matches Err(e) && is_api_error(e, STATUS_BAD_REQUEST, "Имя комнаты не может быть пустым"@)
            &&& final(home).rooms() == old(home).rooms()
        },
        trim(req.name@).len() > 0 ==> {
            &&& r matches Ok(k) && k@ == req.name@
            &&& final(home).rooms().dom() == old(home).rooms().dom().insert(req.name@)
            &&& final(home).rooms()[req.name@].spec_name() == req.name@
            &&& final(home).rooms()[req.name@].devices() == Map::<Seq<char>, SmartDevice>::empty()
            &&& forall|k: Seq<char>| k != req.name@ && #[trigger] old(home).rooms().contains_key(k) ==> final(home).rooms()[k] == old(home).rooms()[k]
        },
{
    if trim_str(req.name.as_str()).unicode_len() == 0 {
        return Err(ApiError { status: STATUS_BAD_REQUEST, message: "Имя комнаты не может быть пустым".to_owned() });
    }
    let room = Room::empty(req.name.as_str());
    home.add_room(req.name.as_str(), room);
    Ok(req.name.clone())
}

/// A room with its devices in key order; 404 when there is no such room.
pub fn get_room(home: &SmartHome, room_key: &str) -> (r: Result<RoomInfo, ApiError>)
    requires
        home.wf(),
    ensures
        !home.rooms().contains_key(room_key@) ==> (r matches Err(e) && is_api_error(e, STATUS_NOT_FOUND, room_not_found_text(room_key@))),
        home.rooms().contains_key(room_key@) ==> (r matches Ok(info) && {
            let room = home.rooms()[room_key@];
            &&& info.key@ == room_key@
            &&& info.name@ == room.spec_name()
            &&& info.devices@.len() == room.device_key_seq().len()
            &&& forall|i: int| 0 <= i < info.devices@.len() ==> {
                let k = room.device_key_seq()[i];
                &&& (#[trigger] info.devices@[i]).key@ == k
                &&& info.devices@[i].device_type@ == device_type_text(room.devices()[k])
                &&& info.devices@[i].name@ == room.devices()[k].spec_name()
            }
        }),
{
    match home.get_room(room_key) {
        None => Err(not_found_room(room_key)),
        Some(room) => {
            let devices = room_device_summaries(room);
            Ok(RoomInfo { key: room_key.to_owned(), name: room.name().to_owned(), devices })
        },
    }
}

/// Removes a room; 404 when there is no such room.
pub fn remove_room(home: &mut SmartHome, room_key: &str) -> (r: Result<(), ApiError>)
    requires
        old(home).wf(),
    ensures
        final(home).wf(),
        final(home).spec_name() == old(home).spec_name(),
        final(home).rooms() == old(home).rooms().remove(room_key@),
        r is Ok <==> old(home).rooms().contains_key(room_key@),
        r matches Err(e) ==> is_api_error(e, STATUS_NOT_FOUND, room_not_found_text(room_key@)),
{
    match home.remove_room(room_key) {
        Some(_) => Ok(()),
        None => Err(not_found_room(room_key)),
    }
}

/// The devices of a room in key order; 404 when there is no such room.
pub fn list_devices(home: &SmartHome, room_key: &str) -> (r: Result<Vec<DeviceSummary>, ApiError>)
    requires
        home.wf(),
    ensures
        !home.rooms().contains_key(room_key@) ==> (r matches Err(e) && is_api_error(e, STATUS_NOT_FOUND, room_not_found_text(room_key@))),
        home.rooms().contains_key(room_key@) ==> (r matches Ok(list) && {
            let room = home.rooms()[room_key@];
            &&& list@.len() == room.device_key_seq().len()
            &&& forall|i: int| 0 <= i < list@.len() ==> {
                let k = room.device_key_seq()[i];
                &&& (#[trigger] list@[i]).key@ == k
                &&& list@[i].device_type@ == device_type_text(room.devices()[k])
                &&& list@[i].name@ == room.devices()[k].spec_name()
            }
        }),
{
    match home.get_room(room_key) {
        None => Err(not_found_room(room_key)),
        Some(room) => Ok(room_device_summaries(room)),
    }
}

/// The message for a device type that is neither socket nor thermometer.
pub open spec fn unknown_type_text(t: Seq<char>) -> Seq<char> {
    "Неизвестный тип устройства: '"@ + t + "'. Допустимые: socket, thermometer"@
}

/// Which refusal, if any, a request to add a device meets before its room
/// is looked up: a blank key, then a blank name, then an unknown type.
pub open spec fn device_request_error(req: CreateDeviceRequest) -> Option<Seq<char>> {
    if trim(req.key@).len() == 0 {
        Some("Ключ устройства не может быть пустым"@)
    } else if trim(req.name@).len() == 0 {
        Some("Имя устройства не может быть пустым"@)
    } else if req.device_type@ != "socket"@ && req.device_type@ != "thermometer"@ {
        Some(unknown_type_text(req.device_type@))
    } else {
        None
    }
}

/// The device a valid request describes: a socket, off and rated at 0 W
/// unless the request says otherwise, or a thermometer at 20 degrees unless
/// the request says otherwise.
pub open spec fn requested_device_ok(req: CreateDeviceRequest, d: SmartDevice) -> bool {
    if req.device_type@ == "socket"@ {
        d matches SmartDevice::Socket(s) && {
            &&& s.spec_name() == req.name@
            &&& !s.is_remote()
            &&& s.spec_on() == (match req.is_on { Some(b) => b, None => false })
            &&& s.spec_rated() == (match req.power { Some(p) => p, None => 0 })
        }
    } else {
        d matches SmartDevice::Thermometer(t) && {
            &&& t.spec_name() == req.name@
            &&& !t.is_remote()
            &&& t.spec_temperature() == (match req.temperature { Some(v) => v, None => 20_000 })
        }
    }
}

/// A device added by a valid request and then looked up (what `add_device`
/// leaves under the request's key, described as `get_device` describes it)
/// is as the request asked: a socket in the requested state (off unless it
/// asked for on) drawing its requested rating when on (0 W unless given)
/// and nothing when off; a thermometer at the requested temperature (20
/// degrees unless given).
pub proof fn law_added_device_as_requested(
    req: CreateDeviceRequest,
    d: SmartDevice,
    info: DeviceInfo,
    answers: Map<Seq<char>, RemoteAnswer>,
)
    requires
        device_request_error(req) is None,
        requested_device_ok(req, d),
        describes(info, req.key@, d, answers),
    ensures
        info.key@ == req.key@,
        info.name@ == req.name@,
        info.device_type@ == req.device_type@,
        req.device_type@ == "socket"@ ==> {
            let on = match req.is_on { Some(b) => b, None => false };
            &&& info.is_on == Some(on)
            &&& info.power == Some(if on { match req.power { Some(p) => p, None => 0i64 } } else { 0i64 })
            &&& info.temperature is None
        },
        req.device_type@ != "socket"@ ==> {
            &&& req.device_type@ == "thermometer"@
            &&& info.temperature == Some(match req.temperature { Some(v) => v, None => 20_000i64 })
            &&& info.is_on is None && info.power is None
        },
{
    reveal_strlit("socket");
    reveal_strlit("thermometer");
}

/// Adds the device a request describes to a room, after checking the
/// request (400 as `device_request_error` says) and the room (404).  Gives
/// the device's key.
pub fn add_device(home: &mut SmartHome, room_key: &str, req: &CreateDeviceRequest) -> (r: Result<String, ApiError>)
    requires
        old(home).wf(),
    ensures
        final(home).wf(),
        final(home).spec_name() == old(home).spec_name(),
        device_request_error(*req) matches Some(m) ==> {
            &&& r matches Err(e) && is_api_error(e, STATUS_BAD_REQUEST, m)
            &&& final(home).rooms() == old(home).rooms()
        },
        device_request_error(*req) is None && !old(home).rooms().contains_key(room_key@) ==> {
            &&& r matches Err(e) && is_api_error(e, STATUS_NOT_FOUND, room_not_found_text(room_key@))
            &&& final(home).rooms() == old(home).rooms()
        },
        device_request_error(*req) is None && old(home).rooms().contains_key(room_key@) ==> {
            let before = old(home).rooms()[room_key@];
            let after = final(home).rooms()[room_key@];
            &&& r matches Ok(k) && k@ == req.key@
            &&& final(home).rooms().dom() == old(home).rooms().dom()
            &&& forall|k: Seq<char>| k != room_key@ && #[trigger] old(home).rooms().contains_key(k) ==> final(home).rooms()[k] == old(home).rooms()[k]
            &&& after.spec_name() == before.spec_name()
            &&& after.devices().dom() == before.devices().dom().insert(req.key@)
            &&& requested_device_ok(*req, after.devices()[req.key@])
            &&& forall|k: Seq<char>| k != req.key@ && #[trigger] before.devices().contains_key(k) ==> after.devices()[k] == before.devices()[k]
        },
{
    proof {
        reveal_strlit("socket");
        reveal_strlit("thermometer");
        assert("socket"@.len() != "thermometer"@.len());
    }
    if trim_str(req.key.as_str()).unicode_len() == 0 {
        return Err(ApiError { status: STATUS_BAD_REQUEST, message: "Ключ устройства не может быть пустым".to_owned() });
    }
    if trim_str(req.name.as_str()).unicode_len() == 0 {
        return Err(ApiError { status: STATUS_BAD_REQUEST, message: "Имя устройства не может быть пустым".to_owned() });
    }
    let device = if str_eq(req.device_type.as_str(), "socket") {
        let is_on = match req.is_on { Some(b) => b, None => false };
        let power = match req.power { Some(p) => p, None => 0 };
        SmartDevice::Socket(SmartSocket::local(req.name.as_str(), is_on, power))
    } else if str_eq(req.device_type.as_str(), "thermometer") {
        let t = match req.temperature { Some(v) => v, None => 20_000 };
        SmartDevice::Thermometer(SmartThermometer::local(req.name.as_str(), t))
    } else {
        let mut m = String::new();
        m.append("Неизвестный тип устройства: '");
        m.append(req.device_type.as_str());
        m.append("'. Допустимые: socket, thermometer");
        return Err(ApiError { status: STATUS_BAD_REQUEST, message: m });
    };
    match home.get_room_mut(room_key) {
        None => Err(not_found_room(room_key)),
        Some(room) => {
            room.add_device(req.key.as_str(), device);
            Ok(req.key.clone())
        },
    }
}

/// `info` describes the device `device` under `key`: its type and name, a
/// socket's state and power, a thermometer's temperature, each absent where
/// asking for it failed (for a remote device, as `answers` says).
pub open spec fn describes(info: DeviceInfo, key: Seq<char>, device: SmartDevice, answers: Map<Seq<char>, RemoteAnswer>) -> bool {
    &&& info.key@ == key
    &&& info.device_type@ == device_type_text(device)
    &&& info.name@ == device.spec_name()
    &&& device matches SmartDevice::Socket(s) ==> {
        &&& info.temperature is None
        &&& !s.is_remote() ==> info.is_on == Some(s.spec_on()) && info.power == Some(s.spec_power())
        &&& s.is_remote() ==> (answers[s.spec_addr()] matches RemoteAnswer::Socket { is_on, power } && info.is_on == is_on.ok()
            && info.power == power.ok())
    }
    &&& device matches SmartDevice::Thermometer(t) ==> {
        &&& info.is_on is None && info.power is None
        &&& !t.is_remote() ==> info.temperature == Some(t.spec_temperature())
        &&& t.is_remote() ==> (answers[t.spec_addr()] matches RemoteAnswer::Thermometer { reading } && info.temperature == reading.ok())
    }
}

/// A device with what it reports: a socket's state and power, a
/// thermometer's temperature, each absent where asking for it failed.
pub fn device_info(key: &str, device: &SmartDevice, probe: &Probe) -> (r: DeviceInfo)
    requires
        probe.wf(),
        device_ready(*device, probe.answers()),
    ensures
        describes(r, key@, *device, probe.answers()),
{
    let summary = device_summary(key, device);
    match device {
        SmartDevice::Socket(s) => {
            let (is_on, power) = match s.remote_addr() {
                None => {
                    let on = match s.is_on().done() { Some(Ok(b)) => Some(b), _ => None };
                    let p = match s.current_power().done() { Some(Ok(p)) => Some(p), _ => None };
                    (on, p)
                },
                Some(addr) => match probe.answer(addr) {
                    Some(RemoteAnswer::Socket { is_on, power }) => {
                        let on = match is_on { Ok(b) => Some(*b), Err(_) => None };
                        let p = match power { Ok(p) => Some(*p), Err(_) => None };
                        (on, p)
                    },
                    _ => (None, None),
                },
            };
            DeviceInfo { key: summary.key, device_type: summary.device_type, name: summary.name, is_on, power, temperature: None }
        },
        SmartDevice::Thermometer(t) => {
            let temperature = match t.remote_addr() {
                None => match t.temperature() { Ok(v) => Some(v), Err(_) => None },
                Some(addr) => match probe.answer(addr) {
                    Some(RemoteAnswer::Thermometer { reading }) => match reading { Ok(v) => Some(*v), Err(_) => None },
                    _ => None,
                },
            };
            DeviceInfo { key: summary.key, device_type: summary.device_type, name: summary.name, is_on: None, power: None, temperature }
        },
    }
}

/// A device of a room; 404 as `map_home_error` says when the room or the
/// device is missing.
pub fn get_device(home: &SmartHome, room_key: &str, device_key: &str, probe: &Probe) -> (r: Result<DeviceInfo, ApiError>)
    requires
        home.wf(),
        probe.wf(),
        home.rooms().contains_key(room_key@) && home.rooms()[room_key@].devices().contains_key(device_key@)
            ==> device_ready(home.rooms()[room_key@].devices()[device_key@], probe.answers()),
    ensures
        !home.rooms().contains_key(room_key@) ==> (r matches Err(e) && is_api_error(e, STATUS_NOT_FOUND, room_not_found_text(room_key@))),
        home.rooms().contains_key(room_key@) && !home.rooms()[room_key@].devices().contains_key(device_key@) ==> (r matches Err(e)
            && is_api_error(e, STATUS_NOT_FOUND, "Устройство '"@ + device_key@ + "' не найдено в комнате '"@ + room_key@ + "'"@)),
        home.rooms().contains_key(room_key@) && home.rooms()[room_key@].devices().contains_key(device_key@) ==> (r matches Ok(info)
            && describes(info, device_key@, home.rooms()[room_key@].devices()[device_key@], probe.answers())),
{
    match home.get_device(room_key, device_key) {
        Err(e) => Err(map_home_error(e)),
        Ok(d) => Ok(device_info(device_key, d, probe)),
    }
}

/// Removes a device from a room; 404 when the room or the device is
/// missing.
pub fn remove_device(home: &mut SmartHome, room_key: &str, device_key: &str) -> (r: Result<(), ApiError>)
    requires
        old(home).wf(),
    ensures
        final(home).wf(),
        final(home).spec_name() == old(home).spec_name(),
        !old(home).rooms().contains_key(room_key@) ==> {
            &&& r matches Err(e) && is_api_error(e, STATUS_NOT_FOUND, room_not_found_text(room_key@))
            &&& final(home).rooms() == old(home).rooms()
        },
        old(home).rooms().contains_key(room_key@) ==> {
            let before = old(home).rooms()[room_key@];
            let after = final(home).rooms()[room_key@];
            &&& final(home).rooms().dom() == old(home).rooms().dom()
            &&& forall|k: Seq<char>| k != room_key@ && #[trigger] old(home).rooms().contains_key(k) ==> final(home).rooms()[k] == old(home).rooms()[k]
            &&& after.spec_name() == before.spec_name()
            &&& after.devices() == before.devices().remove(device_key@)
            &&& (r is Ok <==> before.devices().contains_key(device_key@))
            &&& r matches Err(e) ==> is_api_error(e, STATUS_NOT_FOUND, device_not_found_text(device_key@))
        },
{
    match home.get_room_mut(room_key) {
        None => Err(not_found_room(room_key)),
        Some(room) => match room.remove_device(device_key) {
            Some(_) => Ok(()),
            None => Err(not_found_device(device_key)),
        },
    }
}

/// What switching the device `device_key` of the room `room_key` on (or
/// off) does: 404 when the room or the device is missing, 400 for a
/// thermometer, and a refused request changes nothing; a socket held here
/// is switched at once, a remote one is to be asked (the `SocketCall`,
/// finished with `switch_status`).  Nothing else in the home changes: the
/// other rooms, the room's name and its other devices stay, and the socket
/// keeps its key, name, rating and address.
pub open spec fn switch_effect(
    before: SmartHome,
    after: SmartHome,
    room_key: Seq<char>,
    device_key: Seq<char>,
    on: bool,
    r: Result<SocketCall<()>, ApiError>,
) -> bool {
    &&& after.wf()
    &&& after.spec_name() == before.spec_name()
    &&& after.rooms().dom() =~= before.rooms().dom()
    &&& r is Err ==> after.rooms() =~= before.rooms()
    &&& !before.rooms().contains_key(room_key) ==> (r matches Err(e) && is_api_error(e, STATUS_NOT_FOUND, room_not_found_text(room_key)))
    &&& before.rooms().contains_key(room_key) && !before.rooms()[room_key].devices().contains_key(device_key) ==> (r matches Err(e)
        && is_api_error(e, STATUS_NOT_FOUND, device_not_found_text(device_key)))
    &&& before.rooms().contains_key(room_key) && before.rooms()[room_key].devices().contains_key(device_key) ==> {
        let room = before.rooms()[room_key];
        let room2 = after.rooms()[room_key];
        let d = room.devices()[device_key];
        let d2 = room2.devices()[device_key];
        &&& d is Thermometer ==> (r matches Err(e) && is_api_error(e, STATUS_BAD_REQUEST, "Термометр нельзя включить/выключить"@))
        &&& d matches SmartDevice::Socket(s) ==> {
            &&& after.rooms() =~= before.rooms().insert(room_key, room2)
            &&& room2.spec_name() == room.spec_name()
            &&& room2.devices() =~= room.devices().insert(device_key, d2)
            &&& d2 matches SmartDevice::Socket(s2) && {
                &&& s2.spec_name() == s.spec_name()
                &&& s2.is_remote() == s.is_remote()
                &&& s2.spec_addr() == s.spec_addr()
                &&& s2.spec_rated() == s.spec_rated()
                &&& !s.is_remote() ==> s2.spec_on() == on && r == Ok::<SocketCall<()>, ApiError>(SocketCall::Done(Ok(())))
                &&& s.is_remote() ==> s2.spec_on() == s.spec_on() && (r matches Ok(SocketCall::Remote { addr, command })
                    && addr@ == s.spec_addr() && command == (if on { SocketCommand::On } else { SocketCommand::Off }))
            }
        }
    }
}

fn switch_device(home: &mut SmartHome, room_key: &str, device_key: &str, on: bool) -> (r: Result<SocketCall<()>, ApiError>)
    requires
        old(home).wf(),
    ensures
        switch_effect(*old(home), *final(home), room_key@, device_key@, on, r),
{
    match home.get_room(room_key) {
        None => {
            return Err(not_found_room(room_key));
        },
        Some(room) => match room.get_device(device_key) {
            None => {
                return Err(not_found_device(device_key));
            },
            Some(SmartDevice::Thermometer(_)) => {
                return Err(ApiError {
                    status: STATUS_BAD_REQUEST,
                    message: "Термометр нельзя включить/выключить".to_owned(),
                });
            },
            Some(SmartDevice::Socket(_)) => {},
        },
    }
    match home.get_room_mut(room_key) {
        Some(room) => match room.get_device_mut(device_key) {
            Some(SmartDevice::Socket(s)) => {
                if on {
                    Ok(s.turn_on())
                } else {
                    Ok(s.turn_off())
                }
            },
            _ => Err(not_found_device(device_key)),
        },
        None => Err(not_found_room(room_key)),
    }
}

/// Switches a socket on, as `switch_effect` says.
pub fn turn_on(home: &mut SmartHome, room_key: &str, device_key: &str) -> (r: Result<SocketCall<()>, ApiError>)
    requires
        old(home).wf(),
    ensures
        switch_effect(*old(home), *final(home), room_key@, device_key@, true, r),
{
    switch_device(home, room_key, device_key, true)
}

/// Switches a socket off, as `switch_effect` says.
pub fn turn_off(home: &mut SmartHome, room_key: &str, device_key: &str) -> (r: Result<SocketCall<()>, ApiError>)
    requires
        old(home).wf(),
    ensures
        switch_effect(*old(home), *final(home), room_key@, device_key@, false, r),
{
    switch_device(home, room_key, device_key, false)
}

/// The answer to a switched socket: its new state (`on` or `off`), or 500
/// with the error's message.
pub fn switch_status(result: Result<(), SmartHomeError>, on: bool) -> (r: Result<&'static str, ApiError>)
    ensures
        result is Ok ==> (r matches Ok(t) && t@ == (if on { "on"@ } else { "off"@ })),
        result matches Err(e) ==> (r matches Err(a) && is_api_error(a, STATUS_INTERNAL_ERROR, error_text(e))),
{
    match result {
        Ok(()) => Ok(if on { "on" } else { "off" }),
        Err(e) => Err(ApiError { status: STATUS_INTERNAL_ERROR, message: e.message() }),
    }
}

/// The home's report.
pub fn get_report(home: &SmartHome, probe: &Probe) -> (r: Result<ReportResponse, ApiError>)
    requires
        probe.wf(),
        home_ready(*home, probe.answers()),
    ensures
        r matches Ok(resp) && resp.report@ == crate::home::home_report_text(*home, probe.answers()),
{
    match home.report(probe) {
        Ok(report) => Ok(ReportResponse { report }),
        Err(e) => Err(ApiError { status: STATUS_INTERNAL_ERROR, message: e.message() }),
    }
}

/// The home the service starts with: a living room with a TV socket (on,
/// 150 W) and a thermometer (22.5 degrees), and a kitchen with a kettle
/// socket (off, 1200 W).
pub fn default_home() -> (r: SmartHome)
    ensures
        r.wf(),
        r.spec_name() == "Мой умный дом"@,
        r.rooms().dom() == set!["Гостиная"@, "Кухня"@],
        r.rooms()["Гостиная"@].spec_name() == "Гостиная"@,
        r.rooms()["Гостиная"@].devices().dom() == set!["tv"@, "temp1"@],
        r.rooms()["Гостиная"@].devices()["tv"@] matches SmartDevice::Socket(s) && s.spec_name() == "Телевизор"@
            && !s.is_remote() && s.spec_on() && s.spec_rated() == 150_000,
        r.rooms()["Гостиная"@].devices()["temp1"@] matches SmartDevice::Thermometer(t) && t.spec_name() == "Термометр"@
            && !t.is_remote() && t.spec_temperature() == 22_500,
        r.rooms()["Кухня"@].spec_name() == "Кухня"@,
        r.rooms()["Кухня"@].devices().dom() == set!["kettle"@],
        r.rooms()["Кухня"@].devices()["kettle"@] matches SmartDevice::Socket(s) && s.spec_name() == "Чайник"@
            && !s.is_remote() && !s.spec_on() && s.spec_rated() == 1_200_000,
{
    proof {
        reveal_strlit("Гостиная");
        reveal_strlit("Кухня");
        reveal_strlit("tv");
        reveal_strlit("temp1");
        assert("tv"@.len() != "temp1"@.len());
        assert("Гостиная"@.len() != "Кухня"@.len());
    }
    let mut home = SmartHome::empty("Мой умный дом");
    let mut living = Room::empty("Гостиная");
    let tv = SmartSocket::local("Телевизор", true, 150_000);
    let ghost tv_d = SmartDevice::Socket(tv);
    living.add_device("tv", tv);
    let temp1 = SmartThermometer::local("Термометр", 22_500);
    let ghost temp_d = SmartDevice::Thermometer(temp1);
    living.add_device("temp1", temp1);
    assert(living.devices() =~= map!["tv"@ => tv_d, "temp1"@ => temp_d]);
    let mut kitchen = Room::empty("Кухня");
    let kettle = SmartSocket::local("Чайник", false, 1_200_000);
    let ghost kettle_d = SmartDevice::Socket(kettle);
    kitchen.add_device("kettle", kettle);
    assert(kitchen.devices() =~= map!["kettle"@ => kettle_d]);
    let ghost living_v = living;
    let ghost kitchen_v = kitchen;
    home.add_room("Гостиная", living);
    home.add_room("Кухня", kitchen);
    assert(home.rooms()["Гостиная"@] == living_v);
    assert(home.rooms()["Кухня"@] == kitchen_v);
    assert(home.rooms().dom() =~= set!["Гостиная"@, "Кухня"@]);
    assert(home.rooms()["Гостиная"@].devices().dom() =~= set!["tv"@, "temp1"@]);
    assert(home.rooms()["Кухня"@].devices().dom() =~= set!["kettle"@]);
    home
}

} // verus!
