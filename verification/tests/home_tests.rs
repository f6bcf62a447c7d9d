use smart_home::{Probe, Report, Room, SmartHome, SmartHomeError, SmartSocket, SmartThermometer};

#[test]
fn lib_get_room_and_device_return_option() {
    let mut home = SmartHome::empty("Дом");
    let mut room = Room::empty("Гостиная");
    room.add_device("socket_tv", SmartSocket::local("TV", true, 150_000));
    room.add_device("thermo", SmartThermometer::local("T1", 22_500));
    home.add_room("living", room);

    assert!(home.get_room("living").is_some());
    assert!(home.get_room("kitchen").is_none());

    let living = home
        .get_room("living")
        .expect("Комната должна существовать");
    assert!(living.get_device("socket_tv").is_some());
    assert!(living.get_device("none").is_none());
}

#[test]
fn lib_can_add_and_remove_rooms_and_devices() {
    let mut room = Room::empty("Кухня");
    room.add_device("socket", SmartSocket::local("Чайник", true, 1_200_000));
    assert!(room.get_device("socket").is_some());
    assert!(room.remove_device("socket").is_some());
    assert!(room.get_device("socket").is_none());

    let mut home = SmartHome::empty("Дом");
    home.add_room("kitchen", room);
    assert!(home.get_room("kitchen").is_some());
    assert!(home.remove_room("kitchen").is_some());
    assert!(home.get_room("kitchen").is_none());
}

#[test]
fn lib_get_device_returns_typed_error() {
    let home = SmartHome::empty("Дом");
    let err = home
        .get_device("missing_room", "socket")
        .expect_err("Ожидаем ошибку отсутствующей комнаты");
    assert_eq!(err, SmartHomeError::RoomNotFound("missing_room".into()));

    let mut home = SmartHome::empty("Дом");
    let mut room = Room::empty("Спальня");
    room.add_device("thermo", SmartThermometer::local("Т", 19_000));
    home.add_room("bedroom", room);

    let err = home
        .get_device("bedroom", "socket")
        .expect_err("Ожидаем ошибку отсутствующего устройства");
    assert_eq!(
        err,
        SmartHomeError::DeviceNotFound {
            room: "bedroom".into(),
            device: "socket".into()
        }
    );
}

#[test]
fn lib_report_trait_is_implemented() {
    let mut home = SmartHome::empty("Дом");
    let mut room = Room::empty("Кабинет");
    room.add_device("thermo", SmartThermometer::local("Т1", 21_200));
    room.add_device("socket", SmartSocket::local("ПК", false, 500_000));
    let probe = Probe::new();
    let room_report = room.report(&probe).expect("report не должен упасть");
    home.add_room("office", room);
    let home_report = home.report(&probe).expect("report не должен упасть");
    assert!(room_report.contains("Комната"));
    assert!(home_report.contains("Умный дом"));
}

#[test]
fn room_empty_equals_new_with_empty_map() {
    let r1 = Room::empty("X");
    let r2 = Room::new("X", Vec::new());
    assert_eq!(r1.name(), r2.name());
    assert!(r1.get_device("any").is_none());
    assert!(r2.get_device("any").is_none());
}

#[test]
fn smart_home_empty_equals_new_with_empty_map() {
    let h1 = SmartHome::empty("Дом");
    let h2 = SmartHome::new("Дом", Vec::new());
    assert_eq!(h1.name(), h2.name());
}

#[test]
fn home_report_exact_text() {
    let mut home = SmartHome::empty("Дом");
    let mut room = Room::empty("Кабинет");
    room.add_device("thermo", SmartThermometer::local("Т1", 21_200));
    room.add_device("socket", SmartSocket::local("ПК", false, 500_000));
    home.add_room("office", room);
    let text = home.report(&Probe::new()).unwrap();
    assert_eq!(
        text,
        "=== Умный дом: 'Дом' ===\n[office]\n  Комната: 'Кабинет'\n    [socket] [Розетка 'ПК'] Состояние: выключена, Мощность: 0.0 Вт\n    [thermo] [Термометр 'Т1'] Температура: 21.2°C\n=============================="
    );
}
