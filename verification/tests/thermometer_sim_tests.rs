use smart_home::thermometer_sim::{parse_config_str, temperature_message, TempGenerator};

#[test]
fn parse_config_defaults() {
    // Пустой файл — используются значения по умолчанию
    let cfg = parse_config_str("");
    assert_eq!(cfg.target_addr, "127.0.0.1:9000");
    assert_eq!(cfg.interval_ms, 1000);
}

#[test]
fn parse_config_full() {
    let content = "target_addr=192.168.1.10:5555\ninterval_ms=250\n";
    let cfg = parse_config_str(content);
    assert_eq!(cfg.target_addr, "192.168.1.10:5555");
    assert_eq!(cfg.interval_ms, 250);
}

#[test]
fn parse_config_ignores_comments_and_blanks() {
    let content = "
            # это комментарий

            target_addr = 10.0.0.1:8888
            # interval не задан — должно быть 1000
        ";
    let cfg = parse_config_str(content);
    assert_eq!(cfg.target_addr, "10.0.0.1:8888");
    assert_eq!(cfg.interval_ms, 1000);
}

#[test]
fn parse_config_invalid_interval_falls_back_to_default() {
    let content = "interval_ms=not_a_number\n";
    let cfg = parse_config_str(content);
    assert_eq!(cfg.interval_ms, 1000);
}

#[test]
fn parse_config_unknown_keys_ignored() {
    let content = "unknown_key=foobar\ntarget_addr=1.2.3.4:1234\n";
    let cfg = parse_config_str(content);
    assert_eq!(cfg.target_addr, "1.2.3.4:1234");
    assert_eq!(cfg.interval_ms, 1000);
}

#[test]
fn parse_config_later_line_wins_and_plus_sign() {
    let cfg = parse_config_str("interval_ms=5\r\ninterval_ms=+7\ntarget_addr=a=b");
    assert_eq!(cfg.interval_ms, 7);
    assert_eq!(cfg.target_addr, "a=b");
    let cfg = parse_config_str("interval_ms=18446744073709551616");
    assert_eq!(cfg.interval_ms, 1000);
    let cfg = parse_config_str("interval_ms=18446744073709551615");
    assert_eq!(cfg.interval_ms, 18446744073709551615);
    let cfg = parse_config_str("interval_ms=-1");
    assert_eq!(cfg.interval_ms, 1000);
}

#[test]
fn pseudo_random_temp_in_range() {
    // 1000 значений — все должны лежать в [18.0, 25.9]
    let mut g = TempGenerator::new();
    for _ in 0..1000 {
        let t = g.next_temp() as f64 / 1000.0;
        assert!(
            (18.0..=25.9).contains(&t),
            "Температура вышла за диапазон: {}",
            t
        );
    }
}

#[test]
fn pseudo_random_temp_one_decimal_place() {
    // Округление до десятых: (t * 10).round() == t * 10
    let mut g = TempGenerator::new();
    for _ in 0..200 {
        let t = g.next_temp() as f64 / 1000.0;
        let rounded = (t * 10.0).round() / 10.0;
        assert!(
            (t - rounded).abs() < 1e-9,
            "Значение {} не округлено до десятых",
            t
        );
    }
}

#[test]
fn pseudo_random_temp_not_constant() {
    // Генератор должен давать разные значения
    let mut g = TempGenerator::new();
    let vals: Vec<i64> = (0..20).map(|_| g.next_temp()).collect();
    let unique: std::collections::HashSet<i64> = vals.iter().copied().collect();
    assert!(unique.len() > 1, "Генератор выдаёт одно и то же значение");
}

#[test]
fn temperature_message_has_one_decimal() {
    assert_eq!(temperature_message(18_000), "18.0");
    assert_eq!(temperature_message(25_900), "25.9");
    assert_eq!(temperature_message(-5_000), "-5.0");
    assert_eq!(temperature_message(22_250), "22.2");
    assert_eq!(temperature_message(22_350), "22.4");
    assert_eq!(temperature_message(22_351), "22.4");
    assert_eq!(temperature_message(-40), "-0.0");
}

#[test]
fn first_seed_gives_expected_temperature() {
    // 12345 * 6364136223846793005 + 1442695040888963407 (mod 2^64)
    let next = 12345u64
        .wrapping_mul(6364136223846793005)
        .wrapping_add(1442695040888963407);
    let mut g = TempGenerator::new();
    assert_eq!(g.next_temp(), ((180 + next % 80) * 100) as i64);
}

#[test]
fn successive_temperatures_differ_for_any_seed() {
    for seed in [0u64, 1, 12345, u64::MAX, 0xDEAD_BEEF] {
        let mut g = TempGenerator::with_seed(seed);
        let mut prev = g.next_temp();
        for _ in 0..50 {
            let t = g.next_temp();
            assert_ne!(t, prev);
            prev = t;
        }
    }
}

#[test]
fn skipped_lines_change_nothing_before_or_after() {
    let content = "target_addr=1.2.3.4:5\ninterval_ms=20";
    let base = parse_config_str(content);
    for s in ["", "   ", "# target_addr=x", "no equals sign", "colour = blue", " interval_msx=3"] {
        assert_eq!(parse_config_str(&format!("{}\n{}", content, s)), base);
        assert_eq!(parse_config_str(&format!("{}\n{}", s, content)), base);
    }
    let later = parse_config_str(&format!("{}\ntarget_addr=  9.9.9.9:1 ", content));
    assert_eq!(later.target_addr, "9.9.9.9:1");
    assert_eq!(later.interval_ms, 20);
}
