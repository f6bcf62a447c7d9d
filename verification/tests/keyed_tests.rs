use smart_home::keyed::KeyedVec;
use smart_home::text::{digit_str, find_char_from, push_nat, push_one_decimal, push_three_decimal, str_eq, str_lt};
use smart_home::thermometer_sim::{temperature_message, TempGenerator};
use smart_home::{Room, SmartHome, SmartSocket};

#[test]
fn keyed_keeps_keys_sorted_and_unique() {
    let mut m: KeyedVec<u32> = KeyedVec::new();
    assert_eq!(m.insert("b".to_owned(), 2), None);
    assert_eq!(m.insert("a".to_owned(), 1), None);
    assert_eq!(m.insert("c".to_owned(), 3), None);
    assert_eq!(m.insert("b".to_owned(), 20), Some(2));
    assert_eq!(m.len(), 3);
    assert_eq!(m.key_list(), vec!["a", "b", "c"]);
    assert_eq!(m.get("b"), Some(&20));
    assert!(m.contains_key("c"));
    assert!(!m.contains_key("d"));
    if let Some(v) = m.get_mut("a") {
        *v = 10;
    }
    assert_eq!(m.get("a"), Some(&10));
    assert_eq!(m.remove("a"), Some(10));
    assert_eq!(m.remove("a"), None);
    assert_eq!(m.key_list(), vec!["b", "c"]);
    assert_eq!(m.key_at_index(0), "b");
    assert_eq!(*m.value_at_index(1), 3);
}

#[test]
fn keyed_orders_by_code_points() {
    let mut m: KeyedVec<()> = KeyedVec::new();
    for k in ["Кухня", "kitchen", "Гостиная", "", "living", "Z"] {
        m.insert(k.to_owned(), ());
    }
    assert_eq!(m.key_list(), vec!["", "Z", "kitchen", "living", "Гостиная", "Кухня"]);
}

#[test]
fn room_add_then_remove_restores() {
    let mut room = Room::empty("Комната");
    room.add_device("lamp", SmartSocket::local("Лампа", true, 60_000));
    let before = room.device_keys().iter().map(|k| k.to_string()).collect::<Vec<_>>();
    room.add_device("tv", SmartSocket::local("TV", false, 1));
    assert!(room.get_device("tv").is_some());
    assert_eq!(room.remove_device("tv").unwrap().name(), "TV");
    let after = room.device_keys().iter().map(|k| k.to_string()).collect::<Vec<_>>();
    assert_eq!(before, after);
    assert_eq!(room.get_device("lamp").unwrap().name(), "Лампа");
}

#[test]
fn home_add_then_remove_restores() {
    let mut home = SmartHome::empty("Дом");
    home.add_room("a", Room::empty("A"));
    assert!(home.add_room("b", Room::empty("B")).is_none());
    assert_eq!(home.get_room("b").unwrap().name(), "B");
    assert_eq!(home.remove_room("b").unwrap().name(), "B");
    assert_eq!(home.room_keys(), vec!["a"]);
    assert_eq!(home.add_room("a", Room::empty("A2")).unwrap().name(), "A");
    assert_eq!(home.get_room("a").unwrap().name(), "A2");
}

#[test]
fn text_helpers() {
    assert!(str_eq("абв", "абв"));
    assert!(!str_eq("абв", "аб"));
    assert!(str_lt("ab", "b"));
    assert!(str_lt("a", "ab"));
    assert!(!str_lt("b", "b"));
    assert_eq!(find_char_from("a=b=c", 2, '='), 3);
    assert_eq!(find_char_from("abc", 0, '='), 3);
    assert_eq!(digit_str(7), "7");
    let mut out = String::new();
    push_nat(&mut out, 1_234_567_890);
    assert_eq!(out, "1234567890");
}

#[test]
fn decimals_round_half_to_even() {
    let cases: [(i64, &str); 8] = [
        (0, "0.0"),
        (50, "0.0"),
        (150, "0.2"),
        (250, "0.2"),
        (251, "0.3"),
        (-1_950, "-2.0"),
        (-49, "-0.0"),
        (22_500, "22.5"),
    ];
    for (m, expected) in cases {
        let mut out = String::new();
        push_one_decimal(&mut out, m);
        assert_eq!(out, expected, "{}", m);
    }
    let mut out = String::new();
    push_three_decimal(&mut out, i64::MIN);
    assert_eq!(out, "-9223372036854775.808");
}

#[test]
fn temperature_generator_sequence() {
    let mut g = TempGenerator::with_seed(0);
    let t = g.next_temp();
    // 1442695040888963407 % 80 == 47
    assert_eq!(t, 22_700);
    assert_eq!(temperature_message(t), "22.7");
}
