//! A smart home: rooms of smart sockets and thermometers, their reports,
//! and the protocols of the simulated devices.
pub mod api;
pub mod builder;
pub mod c_abi;
pub mod composer;
pub mod devices;
pub mod error;
pub mod home;
pub mod keyed;
pub mod protocol;
pub mod report;
pub mod room;
pub mod text;
pub mod thermometer_sim;

pub use devices::{IntoDevice, SmartDevice, SmartSocket, SmartThermometer, SocketCall, SocketCommand};
pub use error::SmartHomeError;
pub use home::SmartHome;
pub use report::{Probe, RemoteAnswer, Report};
pub use room::{DeviceObserver, Room};
