use spyder::backend::{MockBackend, MotorBackend};
use spyder::errors::RuntimeError;
use spyder::stepper::{firmware_ack, move_command, StepperBackend};
use spyder::transport::{MockTransport, Transport};

#[test]
fn stepper_sends_protocol_and_updates_positions() {
    let mut t = MockTransport::new();
    t.push_reply("OK");
    let mut backend = StepperBackend::new(Box::new(t), 4);
    // Step periods 0.001 s, 0.002 s, 0 s and 0.004 s, in microseconds.
    backend.move_steps(&[100, -50, 0, 25], &[1000, 2000, 0, 4000]).unwrap();
    assert_eq!(backend.positions(), &[100, -50, 0, 25]);
}

#[test]
fn move_command_text_is_exact() {
    assert_eq!(move_command(&[100, -50, 0, 25], &[1000, 2000, 0, 4000]), "M 4 100 1000 -50 2000 0 0 25 4000");
    // A moving axis never gets a zero period.
    assert_eq!(move_command(&[7, 0], &[0, 0]), "M 2 7 200 0 0");
    assert_eq!(move_command(&[i64::MIN], &[5]), "M 1 -9223372036854775808 5");
    assert_eq!(move_command(&[], &[]), "M 0");
}

#[test]
fn firmware_ack_accepts_ok_prefix_only() {
    assert!(firmware_ack("OK").is_ok());
    assert!(firmware_ack("OK estop").is_ok());
    match firmware_ack("ERR parse") {
        Err(RuntimeError::Backend(m)) => assert_eq!(m, "stepper firmware: ERR parse"),
        other => panic!("unexpected {other:?}"),
    }
    assert!(firmware_ack("O").is_err());
    assert!(firmware_ack("").is_err());
}

#[test]
fn stepper_reports_firmware_refusal() {
    let mut t = MockTransport::new();
    t.push_reply("ERR bad");
    let mut backend = StepperBackend::new(Box::new(t), 2);
    let e = backend.move_steps(&[1, 2], &[10, 10]).unwrap_err();
    assert_eq!(e.message(), "backend: stepper firmware: ERR bad");
    assert_eq!(backend.positions(), &[0, 0]);
}

#[test]
fn stepper_rejects_length_mismatch() {
    let t = MockTransport::new();
    let mut backend = StepperBackend::new(Box::new(t), 2);
    match backend.move_steps(&[1], &[10]) {
        Err(RuntimeError::Config(m)) => assert_eq!(m, "step/delay length mismatch"),
        other => panic!("unexpected {other:?}"),
    }
    assert_eq!(backend.axis_count(), 2);
}

#[test]
fn stepper_without_ack_does_not_read() {
    let mut t = MockTransport::new();
    t.push_reply("ERR never read");
    let mut backend = StepperBackend::new(Box::new(t), 1).without_ack();
    backend.move_steps(&[3], &[10]).unwrap();
    backend.move_steps(&[4], &[10]).unwrap();
    assert_eq!(backend.positions(), &[7]);
    backend.home().unwrap();
    assert_eq!(backend.positions(), &[0]);
}

#[test]
fn mock_transport_records_and_replays() {
    let mut t = MockTransport::new();
    t.push_reply("first");
    t.push_reply("second");
    t.write_all(b"M 1 2 3\n").unwrap();
    assert_eq!(t.writes, vec!["M 1 2 3\n".to_string()]);
    assert_eq!(t.read_line().unwrap(), "first");
    assert_eq!(t.read_line().unwrap(), "second");
    assert_eq!(t.read_line().unwrap(), "OK");
    t.write_all(&[0x66, 0xff, 0x67]).unwrap();
    assert_eq!(t.writes[1], "f\u{fffd}g");
}

#[test]
fn refused_home_keeps_positions() {
    let mut t = MockTransport::new();
    t.push_reply("OK");
    t.push_reply("ERR busy");
    let mut b = StepperBackend::new(Box::new(t), 2);
    b.move_steps(&[5, -3], &[10000, 10000]).unwrap();
    assert!(matches!(b.home(), Err(RuntimeError::Backend(m)) if m == "stepper firmware: ERR busy"));
    assert_eq!(b.positions(), &[5, -3]);
    b.home_hardware().unwrap();
    assert_eq!(b.positions(), &[0, 0]);
}

#[test]
fn mock_backend_moves_and_homes() {
    let mut b = MockBackend::new(3);
    b.move_steps(&[1, -2, 3], &[0, 0, 0]).unwrap();
    b.move_steps(&[1, 1, 1], &[0, 0, 0]).unwrap();
    assert_eq!(b.positions(), &[2, -1, 4]);
    assert_eq!(b.log, vec![vec![1, -2, 3], vec![1, 1, 1]]);
    assert_eq!(b.read_feedback_steps().unwrap(), vec![2, -1, 4]);
    b.estop().unwrap();
    assert!(b.estopped);
    b.home_hardware().unwrap();
    assert_eq!(b.positions(), &[0, 0, 0]);
    assert!(b.move_steps(&[1], &[0]).is_err());
}
