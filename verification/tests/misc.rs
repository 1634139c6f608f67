use spyder::cable_model::{cable_model_from_name, cable_model_str, CableModelKind};
use spyder::cli::{take_flag, transport_kind, unix_timestamp_label, TransportKind};
use spyder::dto::{default_html_format, default_true, health_response, version, ApiError};
use spyder::errors::RuntimeError;
use spyder::safety::{estop_message, StepGuard};
use spyder::text::str_contains;
use spyder::session::{pad_motor_axes, plan_backend, BackendPlan};
use spyder::transport::LineBuffer;

fn args(v: &[&str]) -> Vec<String> {
    v.iter().map(|s| s.to_string()).collect()
}

#[test]
fn take_flag_removes_flag_and_value() {
    let mut a = args(&["play", "--device", "/dev/ttyUSB0", "--baud", "9600"]);
    assert_eq!(take_flag(&mut a, "--baud"), Some("9600".to_string()));
    assert_eq!(a, args(&["play", "--device", "/dev/ttyUSB0"]));
    assert_eq!(take_flag(&mut a, "--device"), Some("/dev/ttyUSB0".to_string()));
    assert_eq!(a, args(&["play"]));
}

#[test]
fn take_flag_absent_or_last() {
    let mut a = args(&["x", "--cal"]);
    assert_eq!(take_flag(&mut a, "--axis-map"), None);
    assert_eq!(a, args(&["x", "--cal"]));
    assert_eq!(take_flag(&mut a, "--cal"), None);
    assert_eq!(a, args(&["x"]));
    let mut b = args(&["--n", "1", "--n", "2"]);
    assert_eq!(take_flag(&mut b, "--n"), Some("1".to_string()));
    assert_eq!(b, args(&["--n", "2"]));
}

#[test]
fn transport_kind_for_devices() {
    assert_eq!(transport_kind("MoCk", true), TransportKind::Mock);
    assert_eq!(transport_kind("mock", false), TransportKind::Serial);
    assert_eq!(transport_kind("127.0.0.1:9000", true), TransportKind::Tcp);
    assert_eq!(transport_kind("/dev/tty:1", true), TransportKind::Serial);
    assert_eq!(transport_kind("COM3", false), TransportKind::Serial);
    assert_eq!(transport_kind("COM:3", false), TransportKind::Serial);
    assert_eq!(transport_kind("/dev/ttyACM0", false), TransportKind::Serial);
    assert_eq!(transport_kind("mocks", true), TransportKind::Serial);
}

#[test]
fn timestamp_label() {
    assert_eq!(unix_timestamp_label(0), "unix:0");
    assert_eq!(unix_timestamp_label(1700000000), "unix:1700000000");
}

#[test]
fn cable_model_names_round_trip() {
    for m in [CableModelKind::Ideal, CableModelKind::Pulley, CableModelKind::Sag] {
        assert_eq!(cable_model_from_name(cable_model_str(&m)).unwrap(), m);
    }
    assert_eq!(cable_model_str(&CableModelKind::Pulley), "pulley");
    assert_eq!(cable_model_from_name("Ideal").unwrap_err(), "unknown cable model: Ideal");
}

#[test]
fn health_and_errors() {
    let h = health_response();
    assert!(h.ok);
    assert_eq!(h.version, version());
    assert_eq!(version(), "0.1.0");
    let e: ApiError = String::from("bad venue").into();
    assert_eq!(e.body().error, "bad venue");
    assert!(default_true());
    assert_eq!(default_html_format(), "html");
}

#[test]
fn rejects_step_burst_over_limit() {
    let s = StepGuard { max_steps_per_move: 100, ..StepGuard::new() };
    assert!(s.check_steps(&[50, 50, 0, 0]).is_ok());
    assert!(matches!(
        s.check_steps(&[200, 0, 0, 0]).unwrap_err(),
        RuntimeError::Safety(msg) if msg.contains("steps")
    ));
}

#[test]
fn step_guard_messages_and_latch() {
    let mut s = StepGuard::new();
    assert_eq!(s.max_steps_per_move, 50_000);
    match s.check_steps(&[10, -60_000, 70_000]) {
        Err(e) => assert_eq!(e.message(), "safety: steps 60000 exceed max_steps_per_move 50000"),
        Ok(()) => panic!("accepted"),
    }
    s.trip_estop();
    assert_eq!(s.check_steps(&[]).unwrap_err().message(), "safety: e-stop active");
    assert!(s.check_estop().is_err());
    s.clear_estop();
    assert!(s.check_estop().is_ok());
    assert!(s.check_steps(&[50_000, -50_000]).is_ok());
}

#[test]
fn line_buffer_frames_lines() {
    let mut b = LineBuffer::new();
    assert!(b.is_empty());
    b.extend(b"OK\r\nP 1");
    assert_eq!(b.take_line(), Some("OK".to_string()));
    assert_eq!(b.take_line(), None);
    b.extend(b" 2\n\n");
    assert_eq!(b.take_line(), Some("P 1 2".to_string()));
    assert_eq!(b.take_line(), Some(String::new()));
    assert!(b.is_empty());
    assert_eq!(b.take_rest(), None);
    b.extend(b"partial\r");
    assert_eq!(b.take_rest(), Some("partial".to_string()));
    assert!(b.is_empty());
}

#[test]
fn pads_defaults() {
    const DEFAULT_DRUM: f64 = 0.05;
    const DEFAULT_SPR: f64 = 200.0;
    let axes = pad_motor_axes::<(f64, f64)>(&[], 4, (DEFAULT_DRUM, DEFAULT_SPR));
    assert_eq!(axes.len(), 4);
    assert!((axes[0].0 - DEFAULT_DRUM).abs() < 1e-9);
}

#[test]
fn pads_and_trims() {
    assert_eq!(pad_motor_axes(&[1, 2, 3], 2, 0), vec![1, 2]);
    assert_eq!(pad_motor_axes(&[1], 3, 9), vec![1, 9, 9]);
}

#[test]
fn backend_plans() {
    assert!(matches!(plan_backend("mock", &None, false, false), Ok(BackendPlan::Mock)));
    match plan_backend("stepper", &Some("/dev/ttyUSB0".to_string()), false, false) {
        Ok(BackendPlan::Stepper { device }) => assert_eq!(device, "/dev/ttyUSB0"),
        _ => panic!("unexpected plan"),
    }
    assert_eq!(
        plan_backend("odrive", &None, true, false).err().unwrap(),
        "odrive requires device path or host:port"
    );
    assert_eq!(
        plan_backend("stepper", &None, false, false).err().unwrap(),
        "stepper requires device path or host:port"
    );
    assert_eq!(plan_backend("multiboard", &None, false, true).err().unwrap(), "multiboard requires axis_map JSON");
    let p = plan_backend("multiboard", &None, true, true).ok().unwrap();
    assert_eq!(p.name(), "multiboard-mock");
    assert_eq!(plan_backend("multiboard", &None, true, false).ok().unwrap().name(), "multiboard");
    assert_eq!(plan_backend("can", &None, false, false).err().unwrap(), "unknown backend: can");
}

#[test]
fn estop_errors_are_recognised() {
    let e = RuntimeError::Safety("e-stop active".to_string());
    assert_eq!(estop_message(&e), Some("e-stop active".to_string()));
    assert_eq!(estop_message(&RuntimeError::Safety("steps 9 exceed max_steps_per_move 1".to_string())), None);
    assert_eq!(estop_message(&RuntimeError::Backend("e-stop active".to_string())), None);
}

#[test]
fn str_contains_matches_std() {
    for (s, t) in [("abc", ""), ("", ""), ("", "a"), ("e-stop active", "e-stop"), ("ab", "abc"), ("aab", "ab"), ("xyz", "yx")] {
        assert_eq!(str_contains(s, t), s.contains(t), "{s:?} {t:?}");
    }
}

#[test]
fn sent_line_reads_back_whole() {
    let text = "M 12 -3 Grüße µs";
    let mut sent = text.to_string();
    sent.push('\n');
    sent.push_str("H");
    let mut b = LineBuffer::new();
    b.extend(sent.as_bytes());
    assert_eq!(b.take_line(), Some(text.to_string()));
    assert_eq!(b.take_line(), None);
    assert_eq!(b.take_rest(), Some("H".to_string()));
}

#[test]
fn earlier_burst_wins_over_min_step() {
    let s = StepGuard { max_steps_per_move: 100, estop: false };
    match s.check_steps(&[200, i64::MIN]) {
        Err(RuntimeError::Safety(m)) => assert_eq!(m, "steps 200 exceed max_steps_per_move 100"),
        other => panic!("unexpected {other:?}"),
    }
    let mut t = StepGuard::new();
    t.trip_estop();
    assert_eq!(t.check_steps(&[i64::MIN]).unwrap_err().message(), "safety: e-stop active");
}
