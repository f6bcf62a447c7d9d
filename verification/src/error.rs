//! Errors of the smart home.
use vstd::prelude::*;

verus! {

/// What can go wrong when a room, a device or a remote device is asked for.
#[derive(Debug, PartialEq, Eq)]
pub enum SmartHomeError {
    RoomNotFound(String),
    DeviceNotFound { room: String, device: String },
    NetworkError(String),
}

/// The message of an error, as the error is displayed.
pub open spec fn error_text(e: SmartHomeError) -> Seq<char> {
    match e {
        SmartHomeError::RoomNotFound(room) => "Комната '"@ + room@ + "' не найдена"@,
        SmartHomeError::DeviceNotFound { room, device } =>
            "Устройство '"@ + device@ + "' не найдено в комнате '"@ + room@ + "'"@,
        SmartHomeError::NetworkError(msg) => "Сетевая ошибка: "@ + msg@,
    }
}

impl SmartHomeError {
    /// A copy of the error.
    pub fn duplicate(&self) -> (r: Self)
        ensures
            r == *self,
    {
        match self {
            SmartHomeError::RoomNotFound(room) => SmartHomeError::RoomNotFound(room.clone()),
            SmartHomeError::DeviceNotFound { room, device } => SmartHomeError::DeviceNotFound {
                room: room.clone(),
                device: device.clone(),
            },
            SmartHomeError::NetworkError(msg) => SmartHomeError::NetworkError(msg.clone()),
        }
    }

    /// The message of the error, as it is displayed.
    pub fn message(&self) -> (r: String)
        ensures
            r@ == error_text(*self),
    {
        let mut out = String::new();
        match self {
            SmartHomeError::RoomNotFound(room) => {
                out.append("Комната '");
                out.append(room.as_str());
                out.append("' не найдена");
            },
            SmartHomeError::DeviceNotFound { room, device } => {
                out.append("Устройство '");
                out.append(device.as_str());
                out.append("' не найдено в комнате '");
                out.append(room.as_str());
                out.append("'");
            },
            SmartHomeError::NetworkError(msg) => {
                out.append("Сетевая ошибка: ");
                out.append(msg.as_str());
            },
        }
        assert(out@ =~= error_text(*self));
        out
    }
}

} // verus!
