use std::sync::{Arc, Mutex};

use smart_home::api::{
    add_device, add_room, default_home, get_device, get_report, get_room, list_devices, list_rooms, map_home_error,
    remove_device, remove_room, switch_status, turn_off, turn_on, CreateDeviceRequest, CreateRoomRequest, STATUS_BAD_REQUEST,
    STATUS_INTERNAL_ERROR, STATUS_NOT_FOUND,
};
use smart_home::builder::SmartHomeBuilder;
use smart_home::composer::ReportComposer;
use smart_home::{Probe, Report, Room, SmartHome, SmartHomeError, SmartSocket, SmartThermometer, SocketCall};

fn socket_request(key: &str, name: &str, is_on: Option<bool>, power: Option<i64>) -> CreateDeviceRequest {
    CreateDeviceRequest {
        key: key.to_owned(),
        device_type: "socket".to_owned(),
        name: name.to_owned(),
        is_on,
        power,
        temperature: None,
    }
}

#[test]
fn service_room_crud() {
    let mut home = SmartHome::empty("Тестовый дом");
    assert!(list_rooms(&home).is_empty());
    let key = add_room(&mut home, &CreateRoomRequest { name: "Гостиная".to_owned() }).unwrap();
    assert_eq!(key, "Гостиная");
    let rooms = list_rooms(&home);
    assert_eq!(rooms.len(), 1);
    assert_eq!(rooms[0].name, "Гостиная");
    assert_eq!(rooms[0].device_count, 0);
    let err = add_room(&mut home, &CreateRoomRequest { name: "   ".to_owned() }).unwrap_err();
    assert_eq!(err.status, STATUS_BAD_REQUEST);
    assert_eq!(err.message, "Имя комнаты не может быть пустым");
    let err = get_room(&home, "Несуществующая").unwrap_err();
    assert_eq!(err.status, STATUS_NOT_FOUND);
    assert_eq!(err.message, "Комната 'Несуществующая' не найдена");
    assert!(remove_room(&mut home, "Гостиная").is_ok());
    assert_eq!(remove_room(&mut home, "Гостиная").unwrap_err().status, STATUS_NOT_FOUND);
}

#[test]
fn service_device_crud_and_switch() {
    let mut home = SmartHome::empty("Дом");
    add_room(&mut home, &CreateRoomRequest { name: "Test".to_owned() }).unwrap();
    add_device(&mut home, "Test", &socket_request("socket", "Розетка", None, Some(100_000))).unwrap();
    let therm = CreateDeviceRequest {
        key: "temp".to_owned(),
        device_type: "thermometer".to_owned(),
        name: "Термометр".to_owned(),
        is_on: None,
        power: None,
        temperature: None,
    };
    add_device(&mut home, "Test", &therm).unwrap();
    let list = list_devices(&home, "Test").unwrap();
    assert_eq!(list.iter().map(|d| d.key.as_str()).collect::<Vec<_>>(), vec!["socket", "temp"]);
    assert_eq!(list[1].device_type, "thermometer");

    let probe = Probe::new();
    let info = get_device(&home, "Test", "socket", &probe).unwrap();
    assert_eq!(info.is_on, Some(false));
    assert_eq!(info.power, Some(0));
    let info = get_device(&home, "Test", "temp", &probe).unwrap();
    assert_eq!(info.temperature, Some(20_000));

    assert!(matches!(turn_on(&mut home, "Test", "socket"), Ok(SocketCall::Done(Ok(())))));
    let info = get_device(&home, "Test", "socket", &probe).unwrap();
    assert_eq!(info.is_on, Some(true));
    assert_eq!(info.power, Some(100_000));
    assert!(matches!(turn_off(&mut home, "Test", "socket"), Ok(SocketCall::Done(Ok(())))));
    assert_eq!(get_device(&home, "Test", "socket", &probe).unwrap().is_on, Some(false));

    let err = turn_on(&mut home, "Test", "temp").unwrap_err();
    assert_eq!(err.status, STATUS_BAD_REQUEST);
    assert_eq!(err.message, "Термометр нельзя включить/выключить");
    assert_eq!(turn_on(&mut home, "Test", "ghost").unwrap_err().message, "Устройство 'ghost' не найдено");

    assert!(remove_device(&mut home, "Test", "socket").is_ok());
    let err = get_device(&home, "Test", "socket", &probe).unwrap_err();
    assert_eq!(err.status, STATUS_NOT_FOUND);
    assert_eq!(err.message, "Устройство 'socket' не найдено в комнате 'Test'");
}

#[test]
fn service_device_request_checks() {
    let mut home = SmartHome::empty("Дом");
    add_room(&mut home, &CreateRoomRequest { name: "Test".to_owned() }).unwrap();
    let mut req = socket_request("dev", "Холодильник", None, None);
    req.device_type = "fridge".to_owned();
    let err = add_device(&mut home, "Test", &req).unwrap_err();
    assert_eq!(err.status, STATUS_BAD_REQUEST);
    assert_eq!(err.message, "Неизвестный тип устройства: 'fridge'. Допустимые: socket, thermometer");
    let err = add_device(&mut home, "Test", &socket_request(" ", "x", None, None)).unwrap_err();
    assert_eq!(err.message, "Ключ устройства не может быть пустым");
    let err = add_device(&mut home, "Test", &socket_request("k", "", None, None)).unwrap_err();
    assert_eq!(err.message, "Имя устройства не может быть пустым");
    let err = add_device(&mut home, "Nope", &socket_request("dev", "Test", None, None)).unwrap_err();
    assert_eq!(err.status, STATUS_NOT_FOUND);
}

#[test]
fn service_errors_and_status() {
    let e = map_home_error(SmartHomeError::NetworkError("x".to_owned()));
    assert_eq!(e.status, STATUS_INTERNAL_ERROR);
    assert_eq!(e.message, "Сетевая ошибка: x");
    let e = map_home_error(SmartHomeError::RoomNotFound("r".to_owned()));
    assert_eq!(e.status, STATUS_NOT_FOUND);
    assert_eq!(switch_status(Ok(()), true).unwrap(), "on");
    assert_eq!(switch_status(Ok(()), false).unwrap(), "off");
    assert_eq!(switch_status(Err(SmartHomeError::NetworkError("y".to_owned())), true).unwrap_err().status, STATUS_INTERNAL_ERROR);
}

#[test]
fn service_default_home_report() {
    let home = default_home();
    assert_eq!(home.room_keys(), vec!["Гостиная", "Кухня"]);
    let report = get_report(&home, &Probe::new()).unwrap().report;
    assert!(report.contains("Мой умный дом"));
    assert!(report.contains("[Розетка 'Телевизор'] Состояние: включена, Мощность: 150.0 Вт"));
    assert!(report.contains("[Термометр 'Термометр'] Температура: 22.5°C"));
    let empty = get_report(&SmartHome::empty("Тестовый дом"), &Probe::new()).unwrap().report;
    assert_eq!(empty, "=== Умный дом: 'Тестовый дом' ===\n==============================");
}

#[test]
fn builder_puts_devices_in_last_room() {
    let home = SmartHomeBuilder::new("Мой дом")
        .add_room("living", "Гостиная")
        .add_device("tv", SmartSocket::local("TV", true, 80_000))
        .add_room("kitchen", "Кухня")
        .add_device("kettle", SmartSocket::local("Чайник", false, 1_500_000))
        .build();
    assert_eq!(home.name(), "Мой дом");
    assert_eq!(home.room_keys(), vec!["kitchen", "living"]);
    assert!(home.get_device("living", "tv").is_ok());
    assert!(home.get_device("kitchen", "kettle").is_ok());
    assert!(home.get_device("living", "kettle").is_err());
    assert_eq!(home.get_room("kitchen").unwrap().name(), "Кухня");
}

#[test]
fn composer_renders_items_in_order() {
    let mut room = Room::empty("Гостиная");
    room.add_device("t", SmartThermometer::local("T1", 22_000));
    let mut composer = ReportComposer::new("Общий отчёт");
    composer.add(room);
    composer.add(SmartHome::empty("Дом"));
    assert_eq!(
        composer.render(&Probe::new()),
        "\nОбщий отчёт\n  Комната: 'Гостиная'\n    [t] [Термометр 'T1'] Температура: 22.0°C\n=== Умный дом: 'Дом' ===\n==============================\n"
    );
}

#[test]
fn room_later_device_replaces_earlier() {
    let mut room = Room::new(
        "Комната",
        vec![
            ("a".to_owned(), SmartSocket::local("Первая", false, 1).into()),
            ("a".to_owned(), SmartSocket::local("Вторая", false, 1).into()),
        ],
    );
    assert_eq!(room.get_device("a").unwrap().name(), "Вторая");
    let old = room.add_device("a", SmartThermometer::local("Третья", 0));
    assert_eq!(old.unwrap().name(), "Вторая");
    assert_eq!(room.device_keys(), vec!["a"]);
    let removed = room.remove_device("a");
    assert_eq!(removed.unwrap().name(), "Третья");
    assert!(room.get_device("a").is_none());
    assert!(room.report(&Probe::new()).unwrap().ends_with("'Комната'"));
}

#[test]
fn room_observer_hears_added_devices() {
    let seen: Arc<Mutex<Vec<String>>> = Arc::new(Mutex::new(Vec::new()));
    let mut room = Room::empty("Кабинет");
    let log = Arc::clone(&seen);
    room.subscribe_fn(move |room_name, key, device| {
        log.lock().unwrap().push(format!("{}/{}/{}", room_name, key, device.name()));
    });
    room.add_device("pc", SmartSocket::local("ПК", true, 300_000));
    room.add_device("t", SmartThermometer::local("Т", 20_000));
    assert_eq!(*seen.lock().unwrap(), vec!["Кабинет/pc/ПК".to_owned(), "Кабинет/t/Т".to_owned()]);
}

#[test]
fn refused_switch_leaves_home_unchanged() {
    let mut home = default_home();
    let before = get_device(&home, "Гостиная", "temp1", &Probe::new()).unwrap();
    let err = turn_off(&mut home, "Гостиная", "temp1").unwrap_err();
    assert_eq!(err.status, STATUS_BAD_REQUEST);
    assert_eq!(get_device(&home, "Гостиная", "temp1", &Probe::new()).unwrap(), before);
    assert_eq!(list_devices(&home, "Гостиная").unwrap().len(), 2);
    assert_eq!(turn_on(&mut home, "Нет", "tv").unwrap_err().status, STATUS_NOT_FOUND);
    assert_eq!(home.room_keys(), vec!["Гостиная", "Кухня"]);
    let tv = get_device(&home, "Гостиная", "tv", &Probe::new()).unwrap();
    assert_eq!(tv.is_on, Some(true));
    assert_eq!(tv.power, Some(150_000));
}

#[test]
fn observers_hear_each_device_once_in_order() {
    let seen: Arc<Mutex<Vec<String>>> = Arc::new(Mutex::new(Vec::new()));
    let mut room = Room::empty("Зал");
    for tag in ["первый", "второй"] {
        let log = Arc::clone(&seen);
        room.subscribe_fn(move |_room, key, _device| log.lock().unwrap().push(format!("{}:{}", tag, key)));
    }
    room.add_device("a", SmartSocket::local("A", false, 1));
    room.add_device("a", SmartSocket::local("A2", false, 1));
    assert_eq!(
        *seen.lock().unwrap(),
        vec!["первый:a".to_owned(), "второй:a".to_owned(), "первый:a".to_owned(), "второй:a".to_owned()]
    );
}
