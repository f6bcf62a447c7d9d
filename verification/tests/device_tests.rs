use std::sync::atomic::AtomicI64;
use std::sync::Arc;

use smart_home::c_abi::{
    socket_create, socket_is_on, socket_power, socket_turn_off, socket_turn_on, ERR_NULL, ERR_POWER, OK,
};
use smart_home::devices::{reading_from_raw, NO_DATA};
use smart_home::report::{RemoteAnswer, RemoteTarget};
use smart_home::{Probe, Report, Room, SmartDevice, SmartHome, SmartHomeError, SmartSocket, SmartThermometer, SocketCall, SocketCommand};

#[test]
fn local_initial_state_off() {
    let s = SmartSocket::local("Тест", false, 1_500_000);
    assert!(!s.is_on().done().unwrap().unwrap());
}

#[test]
fn local_initial_state_on() {
    let s = SmartSocket::local("Тест", true, 1_500_000);
    assert!(s.is_on().done().unwrap().unwrap());
}

#[test]
fn local_turn_on_off() {
    let mut s = SmartSocket::local("Тест", false, 1_000_000);
    s.turn_on().done().unwrap().unwrap();
    assert!(s.is_on().done().unwrap().unwrap());
    s.turn_off().done().unwrap().unwrap();
    assert!(!s.is_on().done().unwrap().unwrap());
}

#[test]
fn local_power_zero_when_off() {
    let s = SmartSocket::local("Тест", false, 800_000);
    assert_eq!(s.current_power().done().unwrap().unwrap(), 0);
}

#[test]
fn local_power_when_on() {
    let s = SmartSocket::local("Тест", true, 800_000);
    assert_eq!(s.current_power().done().unwrap().unwrap(), 800_000);
}

#[test]
fn local_report_contains_name_and_state() {
    let s = SmartSocket::local("Гостиная", true, 500_000);
    let r = s.report(&Probe::new()).unwrap();
    assert!(r.contains("Гостиная"));
    assert!(r.contains("включена"));
}

#[test]
fn socket_report_exact_text() {
    let s = SmartSocket::local("Гостиная", true, 1_234_560);
    assert_eq!(
        s.report(&Probe::new()).unwrap(),
        "[Розетка 'Гостиная'] Состояние: включена, Мощность: 1234.6 Вт"
    );
}

#[test]
fn thermometer_local_thermometer_returns_fixed_temperature() {
    let t = SmartThermometer::local("Тест", 21_500);
    assert_eq!(t.temperature().unwrap(), 21_500);
}

#[test]
fn thermometer_udp_thermometer_no_data_returns_error() {
    let cell = Arc::new(AtomicI64::new(NO_DATA));
    let t = SmartThermometer::udp("Тест", "127.0.0.1:0", cell);
    assert!(matches!(t.temperature(), Err(SmartHomeError::NetworkError(_))));
}

#[test]
fn udp_thermometer_reads_its_cell() {
    let cell = Arc::new(AtomicI64::new(NO_DATA));
    let t = SmartThermometer::udp("Тест", "127.0.0.1:9000", Arc::clone(&cell));
    cell.store(23_500, std::sync::atomic::Ordering::Release);
    assert_eq!(t.temperature(), Ok(23_500));
    assert_eq!(t.remote_addr(), Some("127.0.0.1:9000"));
}

#[test]
fn reading_from_raw_no_data_message() {
    assert_eq!(
        reading_from_raw(NO_DATA),
        Err(SmartHomeError::NetworkError("данные от термометра ещё не получены".to_owned()))
    );
    assert_eq!(reading_from_raw(-5), Ok(-5));
}

#[test]
fn thermometer_report_exact_text() {
    let t = SmartThermometer::local("Т1", -3_050);
    assert_eq!(t.report(&Probe::new()).unwrap(), "[Термометр 'Т1'] Температура: -3.0°C");
}

#[test]
fn remote_socket_is_asked() {
    let mut s = SmartSocket::tcp("Тест", "127.0.0.1:7878");
    match s.turn_on() {
        SocketCall::Remote { addr, command } => {
            assert_eq!(addr, "127.0.0.1:7878");
            assert_eq!(command, SocketCommand::On);
        }
        SocketCall::Done(_) => panic!("a remote socket is asked"),
    }
    assert!(s.is_on().done().is_none());
    assert!(matches!(s.current_power(), SocketCall::Remote { command: SocketCommand::Power, .. }));
    assert_eq!(SocketCommand::State.text(), "STATE");
}

#[test]
fn remote_socket_report_uses_probe() {
    let s = SmartSocket::tcp("Кухня", "127.0.0.1:7879");
    let mut probe = Probe::new();
    probe.record("127.0.0.1:7879", RemoteAnswer::Socket { is_on: Ok(true), power: Ok(1_500_000) });
    assert_eq!(
        s.report(&probe).unwrap(),
        "[Розетка 'Кухня'] Состояние: включена, Мощность: 1500.0 Вт"
    );
    let mut failing = Probe::new();
    let err = SmartHomeError::NetworkError("нет связи".to_owned());
    failing.record("127.0.0.1:7879", RemoteAnswer::Socket { is_on: Err(err), power: Ok(0) });
    assert_eq!(
        s.report(&failing),
        Err(SmartHomeError::NetworkError("нет связи".to_owned()))
    );
}

#[test]
fn room_report_lists_failures_last() {
    let mut room = Room::empty("Гостиная");
    room.add_device("a_remote", SmartSocket::tcp("Удалённая", "10.0.0.1:1"));
    room.add_device("b_local", SmartSocket::local("Лампа", false, 60_000));
    let mut probe = Probe::new();
    let err = SmartHomeError::NetworkError("connection refused".to_owned());
    probe.record("10.0.0.1:1", RemoteAnswer::Socket { is_on: Err(err), power: Ok(0) });
    assert!(room.probe_ready(&probe));
    assert_eq!(
        room.report(&probe).unwrap(),
        "  Комната: 'Гостиная'\n    [b_local] [Розетка 'Лампа'] Состояние: выключена, Мощность: 0.0 Вт\n    [a_remote] ОШИБКА: Сетевая ошибка: connection refused"
    );
}

#[test]
fn remote_targets_and_readiness() {
    let mut home = SmartHome::empty("Дом");
    let mut room = Room::empty("Кухня");
    room.add_device("t", SmartThermometer::udp("Т", "127.0.0.1:9001", Arc::new(AtomicI64::new(NO_DATA))));
    room.add_device("s", SmartSocket::tcp("С", "127.0.0.1:7878"));
    room.add_device("l", SmartSocket::local("Л", true, 1));
    home.add_room("kitchen", room);
    let targets: Vec<RemoteTarget> = home.remote_targets();
    let views: Vec<(String, bool)> = targets.iter().map(|t| (t.addr.clone(), t.is_socket)).collect();
    assert_eq!(views, vec![("127.0.0.1:7878".to_owned(), true), ("127.0.0.1:9001".to_owned(), false)]);

    let mut probe = Probe::new();
    assert!(!home.probe_ready(&probe));
    probe.record("127.0.0.1:7878", RemoteAnswer::Thermometer { reading: Ok(1) });
    probe.record("127.0.0.1:9001", RemoteAnswer::Thermometer { reading: Ok(1) });
    assert!(!home.probe_ready(&probe));
    probe.record("127.0.0.1:7878", RemoteAnswer::Socket { is_on: Ok(false), power: Ok(0) });
    assert!(home.probe_ready(&probe));
}

#[test]
fn device_from_socket_and_thermometer() {
    let d: SmartDevice = SmartSocket::local("Розетка", false, 0).into();
    assert_eq!(d.name(), "Розетка");
    let t: SmartDevice = SmartThermometer::local("Термометр", 0).into();
    assert!(matches!(t, SmartDevice::Thermometer(_)));
}

#[test]
fn null_ptr_returns_sentinel() {
    assert_eq!(socket_turn_on(None), ERR_NULL);
    assert_eq!(socket_turn_off(None), ERR_NULL);
    assert_eq!(socket_is_on(None), ERR_NULL);
    assert_eq!(socket_power(None), ERR_POWER);
}

#[test]
fn create_with_null_name_returns_null() {
    assert!(socket_create(None, 0, 100_000).is_none());
}

#[test]
fn c_abi_turn_on_off_round_trip() {
    let mut s = socket_create(Some("Розетка"), 0, 1_500_000).unwrap();
    assert_eq!(socket_is_on(Some(&s)), 0);
    assert_eq!(socket_turn_on(Some(&mut s)), OK);
    assert_eq!(socket_is_on(Some(&s)), 1);
    assert_eq!(socket_power(Some(&s)), 1_500_000);
    assert_eq!(socket_turn_off(Some(&mut s)), OK);
    assert_eq!(socket_is_on(Some(&s)), 0);
    assert_eq!(socket_power(Some(&s)), 0);
}

#[test]
fn rust_api_direct() {
    let mut sock = SmartSocket::local("Прямой", true, 200_000);
    assert!(sock.is_on().done().unwrap().unwrap());
    sock.turn_off().done().unwrap().unwrap();
    assert!(!sock.is_on().done().unwrap().unwrap());
    assert_eq!(sock.current_power().done().unwrap().unwrap(), 0);
}

#[test]
fn tcp_no_server_returns_network_error() {
    // The library asks for the exchange; the connection itself is made by
    // the caller, and a refused connection comes back as a network error.
    let s = SmartSocket::tcp("Тест", "127.0.0.1:1");
    match s.is_on() {
        SocketCall::Remote { addr, command } => {
            assert_eq!(addr, "127.0.0.1:1");
            assert_eq!(command, SocketCommand::State);
            let refused = Err(SmartHomeError::NetworkError("Connection refused (os error 111)".to_owned()));
            assert!(
                matches!(smart_home::protocol::state_reply(refused), Err(SmartHomeError::NetworkError(_))),
                "Ожидали NetworkError при недоступном сервере"
            );
        }
        SocketCall::Done(_) => panic!("a remote socket is asked"),
    }
}
