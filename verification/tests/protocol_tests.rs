use smart_home::protocol::{power_reply, process_command, state_reply, switch_reply, LineBuffer, SocketSimState};
use smart_home::text::{parse_u64, trim_str};
use smart_home::SmartHomeError;

#[test]
fn simulator_on_off_state_sequence() {
    let mut st = SocketSimState::initial();
    assert_eq!(process_command("STATE", &mut st), "OFF\n");
    assert_eq!(process_command("ON", &mut st), "OK\n");
    assert_eq!(process_command("STATE", &mut st), "ON\n");
    assert_eq!(process_command("POWER", &mut st), "1500.000\n");
    assert_eq!(process_command("OFF", &mut st), "OK\n");
    assert_eq!(process_command("STATE", &mut st), "OFF\n");
    assert_eq!(process_command("POWER", &mut st), "0.000\n");
}

#[test]
fn simulator_unknown_command() {
    let mut st = SocketSimState::initial();
    assert_eq!(process_command("FOOBAR", &mut st), "ERR unknown command: FOOBAR\n");
    assert_eq!(st, SocketSimState::initial());
}

#[test]
fn simulator_power_has_three_decimals() {
    let mut st = SocketSimState { is_on: true, power_milliwatts: -1_005 };
    assert_eq!(process_command("POWER", &mut st), "-1.005\n");
    let mut st = SocketSimState { is_on: true, power_milliwatts: 12 };
    assert_eq!(process_command("POWER", &mut st), "0.012\n");
}

#[test]
fn client_reads_simulator_replies() {
    // What the simulator answers, the client reads back.
    let mut st = SocketSimState::initial();
    assert_eq!(switch_reply(Ok(process_command("ON", &mut st))), Ok(()));
    assert_eq!(state_reply(Ok(process_command("STATE", &mut st))), Ok(true));
    assert_eq!(process_command("POWER", &mut st), "1500.000\n");
    assert_eq!(power_reply(Ok(Ok(1_500_000))), Ok(1_500_000));
    assert_eq!(switch_reply(Ok(process_command("OFF", &mut st))), Ok(()));
    assert_eq!(state_reply(Ok(process_command("STATE", &mut st))), Ok(false));
    assert_eq!(process_command("POWER", &mut st), "0.000\n");
}

#[test]
fn switch_reply_not_ok_is_error() {
    assert_eq!(
        switch_reply(Ok("ERR unknown command: X\n".to_owned())),
        Err(SmartHomeError::NetworkError("ERR unknown command: X\n".to_owned()))
    );
    let e = SmartHomeError::NetworkError("connection refused".to_owned());
    assert_eq!(switch_reply(Err(e)), Err(SmartHomeError::NetworkError("connection refused".to_owned())));
}

#[test]
fn state_reply_unexpected() {
    assert_eq!(
        state_reply(Ok("  MAYBE \n".to_owned())),
        Err(SmartHomeError::NetworkError("Неожиданный ответ: MAYBE".to_owned()))
    );
}

#[test]
fn power_reply_errors() {
    assert_eq!(
        power_reply(Ok(Err("invalid float literal".to_owned()))),
        Err(SmartHomeError::NetworkError("invalid float literal".to_owned()))
    );
    let e = SmartHomeError::NetworkError("connection refused".to_owned());
    assert_eq!(power_reply(Err(e)), Err(SmartHomeError::NetworkError("connection refused".to_owned())));
    assert_eq!(power_reply(Ok(Ok(23_500))), Ok(23_500));
}

#[test]
fn parse_u64_cases() {
    assert_eq!(parse_u64("250"), Some(250));
    assert_eq!(parse_u64("+1"), Some(1));
    assert_eq!(parse_u64("18446744073709551615"), Some(u64::MAX));
    assert_eq!(parse_u64("18446744073709551616"), None);
    assert_eq!(parse_u64("-1"), None);
    assert_eq!(parse_u64("+"), None);
    assert_eq!(parse_u64(""), None);
}

#[test]
fn trim_str_removes_white_space() {
    assert_eq!(trim_str("\t a b \r\n"), "a b");
    assert_eq!(trim_str("   "), "");
}

#[test]
fn line_buffer_hands_out_whole_lines() {
    let mut b = LineBuffer::new();
    b.push_bytes(b"ON");
    assert_eq!(b.take_line(), None);
    b.push_bytes(b"\nSTA");
    assert_eq!(b.take_line(), Some(b"ON\n".to_vec()));
    assert_eq!(b.take_line(), None);
    b.push_bytes(b"TE\nPOWER\n");
    assert_eq!(b.take_line(), Some(b"STATE\n".to_vec()));
    assert_eq!(b.take_line(), Some(b"POWER\n".to_vec()));
    assert_eq!(b.take_line(), None);
}
