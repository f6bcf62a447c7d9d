//! Smart sockets and thermometers.
//!
//! A socket is either held here (its state lives in this value) or remote,
//! reached over the text protocol of `crate::protocol` at an address.  What
//! a remote socket is asked is decided here; the exchange itself is done by
//! the caller, who hands the reply back (see `SocketCall`).
//!
//! A thermometer either has a fixed temperature or reads a shared cell that
//! a receiver of UDP packets keeps up to date.  Quantities are fixed-point:
//! temperatures in thousandths of a degree Celsius, power in milliwatts.
use vstd::prelude::*;

use std::sync::atomic::{AtomicI64, Ordering};
use std::sync::Arc;

use crate::error::SmartHomeError;

verus! {

/// What the cell of a UDP thermometer holds until the first packet arrives.
pub const NO_DATA: i64 = -9223372036854775808i64;

/// The commands of the socket protocol.
#[derive(Debug, Clone, Copy, PartialEq, Eq)]
pub enum SocketCommand {
    On,
    Off,
    State,
    Power,
}

/// The text of a command on the wire (without the line end).
pub open spec fn command_text(c: SocketCommand) -> Seq<char> {
    match c {
        SocketCommand::On => "ON"@,
        SocketCommand::Off => "OFF"@,
        SocketCommand::State => "STATE"@,
        SocketCommand::Power => "POWER"@,
    }
}

impl SocketCommand {
    /// The text of the command on the wire (without the line end).
    pub fn text(&self) -> (r: &'static str)
        ensures
            r@ == command_text(*self),
    {
        match self {
            SocketCommand::On => "ON",
            SocketCommand::Off => "OFF",
            SocketCommand::State => "STATE",
            SocketCommand::Power => "POWER",
        }
    }
}

/// An operation on a socket: finished here, or waiting for the reply of the
/// remote socket at `addr` to `command`.
#[derive(Debug)]
pub enum SocketCall<T> {
    Done(Result<T, SmartHomeError>),
    Remote { addr: String, command: SocketCommand },
}

impl<T> SocketCall<T> {
    /// The result, where the operation finished here.
    pub fn done(self) -> (r: Option<Result<T, SmartHomeError>>)
        ensures
            match self {
                SocketCall::Done(res) => r == Some(res),
                SocketCall::Remote { .. } => r is None,
            },
    {
        match self {
            SocketCall::Done(res) => Some(res),
            SocketCall::Remote { .. } => None,
        }
    }
}

#[derive(Debug)]
enum SocketBackend {
    Local { is_on: bool, power_milliwatts: i64 },
    Tcp(String),
}

/// A smart socket.
#[derive(Debug)]
pub struct SmartSocket {
    name: String,
    backend: SocketBackend,
}

impl SmartSocket {
    pub closed spec fn spec_name(&self) -> Seq<char> {
        self.name@
    }

    /// Whether the socket is reached over the network.
    pub closed spec fn is_remote(&self) -> bool {
        self.backend is Tcp
    }

    /// The address of a remote socket.
    pub closed spec fn spec_addr(&self) -> Seq<char> {
        match self.backend {
            SocketBackend::Tcp(addr) => addr@,
            _ => Seq::empty(),
        }
    }

    /// Whether a socket held here is switched on.
    pub closed spec fn spec_on(&self) -> bool {
        match self.backend {
            SocketBackend::Local { is_on, .. } => is_on,
            _ => false,
        }
    }

    /// The rated power of a socket held here, in milliwatts.
    pub closed spec fn spec_rated(&self) -> i64 {
        match self.backend {
            SocketBackend::Local { power_milliwatts, .. } => power_milliwatts,
            _ => 0,
        }
    }

    /// What a socket held here draws: its rated power when on, else nothing.
    pub open spec fn spec_power(&self) -> i64 {
        if self.spec_on() { self.spec_rated() } else { 0 }
    }

    /// A socket held here.
    pub fn local(name: &str, is_on: bool, power_milliwatts: i64) -> (r: Self)
        ensures
            r.spec_name() == name@,
            !r.is_remote(),
            r.spec_on() == is_on,
            r.spec_rated() == power_milliwatts,
    {
        SmartSocket {
            name: name.to_owned(),
            backend: SocketBackend::Local { is_on, power_milliwatts },
        }
    }

    /// A socket reached over the network at `addr`.
    pub fn tcp(name: &str, addr: &str) -> (r: Self)
        ensures
            r.spec_name() == name@,
            r.is_remote(),
            r.spec_addr() == addr@,
    {
        SmartSocket { name: name.to_owned(), backend: SocketBackend::Tcp(addr.to_owned()) }
    }

    pub fn name(&self) -> (r: &str)
        ensures
            r@ == self.spec_name(),
    {
        self.name.as_str()
    }

    /// The address of a remote socket.
    pub fn remote_addr(&self) -> (r: Option<&str>)
        ensures
            r is Some <==> self.is_remote(),
            r matches Some(a) ==> a@ == self.spec_addr(),
    {
        match &self.backend {
            SocketBackend::Tcp(addr) => Some(addr.as_str()),
            _ => None,
        }
    }

    fn switch(&mut self, on: bool, command: SocketCommand) -> (r: SocketCall<()>)
        ensures
            final(self).spec_name() == old(self).spec_name(),
            final(self).is_remote() == old(self).is_remote(),
            final(self).spec_addr() == old(self).spec_addr(),
            final(self).spec_rated() == old(self).spec_rated(),
            !old(self).is_remote() ==> final(self).spec_on() == on && r == SocketCall::<()>::Done(Ok(())),
            old(self).is_remote() ==> final(self).spec_on() == old(self).spec_on() && (r matches SocketCall::Remote { addr, command: c } && addr@ == old(self).spec_addr() && c == command),
    {
        match &mut self.backend {
            SocketBackend::Local { is_on, .. } => {
                *is_on = on;
                SocketCall::Done(Ok(()))
            },
            SocketBackend::Tcp(addr) => {
                SocketCall::Remote { addr: addr.clone(), command }
            },
        }
    }

    /// Switches the socket on: at once when it is held here, else by sending
    /// `ON` to the remote socket.
    pub fn turn_on(&mut self) -> (r: SocketCall<()>)
        ensures
            final(self).spec_name() == old(self).spec_name(),
            final(self).is_remote() == old(self).is_remote(),
            final(self).spec_addr() == old(self).spec_addr(),
            final(self).spec_rated() == old(self).spec_rated(),
            !old(self).is_remote() ==> final(self).spec_on() && r == SocketCall::<()>::Done(Ok(())),
            old(self).is_remote() ==> final(self).spec_on() == old(self).spec_on() && (r matches SocketCall::Remote { addr, command } && addr@ == old(self).spec_addr() && command == SocketCommand::On),
    {
        self.switch(true, SocketCommand::On)
    }

    /// Switches the socket off: at once when it is held here, else by sending
    /// `OFF` to the remote socket.
    pub fn turn_off(&mut self) -> (r: SocketCall<()>)
        ensures
            final(self).spec_name() == old(self).spec_name(),
            final(self).is_remote() == old(self).is_remote(),
            final(self).spec_addr() == old(self).spec_addr(),
            final(self).spec_rated() == old(self).spec_rated(),
            !old(self).is_remote() ==> !final(self).spec_on() && r == SocketCall::<()>::Done(Ok(())),
            old(self).is_remote() ==> final(self).spec_on() == old(self).spec_on() && (r matches SocketCall::Remote { addr, command } && addr@ == old(self).spec_addr() && command == SocketCommand::Off),
    {
        self.switch(false, SocketCommand::Off)
    }

    /// The power drawn, in milliwatts: the rated power when on, nothing when
    /// off; a remote socket is asked with `POWER`.
    pub fn current_power(&self) -> (r: SocketCall<i64>)
        ensures
            !self.is_remote() ==> r == SocketCall::<i64>::Done(Ok(self.spec_power())),
            self.is_remote() ==> (r matches SocketCall::Remote { addr, command } && addr@ == self.spec_addr() && command == SocketCommand::Power),
    {
        match &self.backend {
            SocketBackend::Local { is_on, power_milliwatts } => {
                SocketCall::Done(Ok(if *is_on { *power_milliwatts } else { 0 }))
            },
            SocketBackend::Tcp(addr) => SocketCall::Remote { addr: addr.clone(), command: SocketCommand::Power },
        }
    }

    /// Whether the socket is on; a remote socket is asked with `STATE`.
    pub fn is_on(&self) -> (r: SocketCall<bool>)
        ensures
            !self.is_remote() ==> r == SocketCall::<bool>::Done(Ok(self.spec_on())),
            self.is_remote() ==> (r matches SocketCall::Remote { addr, command } && addr@ == self.spec_addr() && command == SocketCommand::State),
    {
        match &self.backend {
            SocketBackend::Local { is_on, .. } => SocketCall::Done(Ok(*is_on)),
            SocketBackend::Tcp(addr) => SocketCall::Remote { addr: addr.clone(), command: SocketCommand::State },
        }
    }
}

#[derive(Debug)]
enum ThermometerBackend {
    Local(i64),
    Udp { bind_addr: String, reading: Arc<AtomicI64> },
}

/// A smart thermometer.
#[derive(Debug)]
pub struct SmartThermometer {
    name: String,
    backend: ThermometerBackend,
}

/// The message when a UDP thermometer has not heard from its sender yet.
pub open spec fn no_data_message() -> Seq<char> {
    "данные от термометра ещё не получены"@
}

/// The temperature that a value of the shared cell stands for: an error
/// while no packet has arrived.
pub fn reading_from_raw(raw: i64) -> (r: Result<i64, SmartHomeError>)
    ensures
        raw == NO_DATA ==> (r matches Err(SmartHomeError::NetworkError(m)) && m@ == no_data_message()),
        raw != NO_DATA ==> r == Ok::<i64, SmartHomeError>(raw),
{
    if raw == NO_DATA {
        Err(SmartHomeError::NetworkError("данные от термометра ещё не получены".to_owned()))
    } else {
        Ok(raw)
    }
}

impl SmartThermometer {
    pub closed spec fn spec_name(&self) -> Seq<char> {
        self.name@
    }

    /// Whether the temperature comes from UDP packets.
    pub closed spec fn is_remote(&self) -> bool {
        self.backend is Udp
    }

    /// The address a UDP thermometer listens on.
    pub closed spec fn spec_addr(&self) -> Seq<char> {
        match self.backend {
            ThermometerBackend::Udp { bind_addr, .. } => bind_addr@,
            _ => Seq::empty(),
        }
    }

    /// The shared cell that a UDP thermometer reads.
    pub closed spec fn spec_cell(&self) -> Option<Arc<AtomicI64>> {
        match self.backend {
            ThermometerBackend::Udp { reading, .. } => Some(reading),
            _ => None,
        }
    }

    /// The fixed temperature of a thermometer held here, in thousandths of a
    /// degree.
    pub closed spec fn spec_temperature(&self) -> i64 {
        match self.backend {
            ThermometerBackend::Local(t) => t,
            _ => 0,
        }
    }

    /// A thermometer with a fixed temperature.
    pub fn local(name: &str, temperature_milli: i64) -> (r: Self)
        ensures
            r.spec_name() == name@,
            !r.is_remote(),
            r.spec_temperature() == temperature_milli,
            r.spec_cell() is None,
    {
        SmartThermometer { name: name.to_owned(), backend: ThermometerBackend::Local(temperature_milli) }
    }

    /// A thermometer that reads the cell `reading`, which the receiver of
    /// the UDP packets sent to `bind_addr` keeps up to date (`NO_DATA` until
    /// the first packet).
    pub fn udp(name: &str, bind_addr: &str, reading: Arc<AtomicI64>) -> (r: Self)
        ensures
            r.spec_name() == name@,
            r.is_remote(),
            r.spec_addr() == bind_addr@,
            r.spec_cell() == Some(reading),
    {
        SmartThermometer {
            name: name.to_owned(),
            backend: ThermometerBackend::Udp { bind_addr: bind_addr.to_owned(), reading },
        }
    }

    pub fn name(&self) -> (r: &str)
        ensures
            r@ == self.spec_name(),
    {
        self.name.as_str()
    }

    /// The address a UDP thermometer listens on.
    pub fn remote_addr(&self) -> (r: Option<&str>)
        ensures
            r is Some <==> self.is_remote(),
            r matches Some(a) ==> a@ == self.spec_addr(),
    {
        match &self.backend {
            ThermometerBackend::Udp { bind_addr, .. } => Some(bind_addr.as_str()),
            _ => None,
        }
    }

    /// The temperature in thousandths of a degree.  A UDP thermometer gives
    /// the last value received, or an error while none has arrived.
    pub fn temperature(&self) -> (r: Result<i64, SmartHomeError>)
        ensures
            !self.is_remote() ==> r == Ok::<i64, SmartHomeError>(self.spec_temperature()),
            self.is_remote() ==> match r {
                Ok(t) => t != NO_DATA,
                Err(e) => e matches SmartHomeError::NetworkError(m) && m@ == no_data_message(),
            },
    {
        match &self.backend {
            ThermometerBackend::Local(t) => Ok(*t),
            ThermometerBackend::Udp { reading, .. } => {
                let raw = reading.load(Ordering::Acquire);
                reading_from_raw(raw)
            },
        }
    }
}

} // verus!

verus! {

/// A device of a room.
#[derive(Debug)]
pub enum SmartDevice {
    Thermometer(SmartThermometer),
    Socket(SmartSocket),
}

impl From<SmartSocket> for SmartDevice {
    fn from(value: SmartSocket) -> (r: Self) {
        SmartDevice::Socket(value)
    }
}

impl vstd::std_specs::convert::FromSpecImpl<SmartSocket> for SmartDevice {
    open spec fn obeys_from_spec() -> bool {
        true
    }

    open spec fn from_spec(v: SmartSocket) -> SmartDevice {
        SmartDevice::Socket(v)
    }
}

impl From<SmartThermometer> for SmartDevice {
    fn from(value: SmartThermometer) -> (r: Self) {
        SmartDevice::Thermometer(value)
    }
}

impl vstd::std_specs::convert::FromSpecImpl<SmartThermometer> for SmartDevice {
    open spec fn obeys_from_spec() -> bool {
        true
    }

    open spec fn from_spec(v: SmartThermometer) -> SmartDevice {
        SmartDevice::Thermometer(v)
    }
}

/// What can be added to a room as a device.
pub trait IntoDevice: Sized {
    spec fn device_spec(self) -> SmartDevice;

    fn into_device(self) -> (r: SmartDevice)
        ensures
            r == self.device_spec(),
    ;
}

impl IntoDevice for SmartDevice {
    open spec fn device_spec(self) -> SmartDevice {
        self
    }

    fn into_device(self) -> (r: SmartDevice) {
        self
    }
}

impl IntoDevice for SmartSocket {
    open spec fn device_spec(self) -> SmartDevice {
        SmartDevice::Socket(self)
    }

    fn into_device(self) -> (r: SmartDevice) {
        SmartDevice::Socket(self)
    }
}

impl IntoDevice for SmartThermometer {
    open spec fn device_spec(self) -> SmartDevice {
        SmartDevice::Thermometer(self)
    }

    fn into_device(self) -> (r: SmartDevice) {
        SmartDevice::Thermometer(self)
    }
}

impl SmartDevice {
    /// The name of the device.
    pub open spec fn spec_name(&self) -> Seq<char> {
        match self {
            SmartDevice::Thermometer(t) => t.spec_name(),
            SmartDevice::Socket(s) => s.spec_name(),
        }
    }

    pub fn name(&self) -> (r: &str)
        ensures
            r@ == self.spec_name(),
    {
        match self {
            SmartDevice::Thermometer(t) => t.name(),
            SmartDevice::Socket(s) => s.name(),
        }
    }
}

} // verus!
