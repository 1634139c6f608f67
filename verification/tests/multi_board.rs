use spyder::axis_map::{AxisEndpoint, AxisMap, CableRoute};
use spyder::backend::{MockBackend, MotorBackend};
use spyder::errors::RuntimeError;
use spyder::multi_board::{fan_out, MultiBoardBackend};
use spyder::stepper::StepperBackend;
use spyder::transport::MockTransport;

fn endpoint(device: &str, axis: u8) -> AxisEndpoint {
    AxisEndpoint { device: device.to_string(), baud: 115200, axis, steps_per_rev_positive: true }
}

fn dual_mock_map() -> AxisMap {
    AxisMap {
        cables: vec![
            endpoint("board-a", 0),
            endpoint("board-a", 1),
            endpoint("board-b", 0),
            endpoint("board-b", 1),
        ],
    }
}

#[test]
fn fans_out_steps_to_two_mock_boards() {
    let map = dual_mock_map();
    let mut backend = MultiBoardBackend::mock_from_map(map).unwrap();
    assert_eq!(backend.board_count(), 2);
    // Step periods of 0.01 s, in microseconds.
    backend.move_steps(&[10, -20, 30, -40], &[10000, 10000, 10000, 10000]).unwrap();
    assert_eq!(backend.positions(), &[10, -20, 30, -40]);
    let fb = backend.read_feedback_steps().unwrap();
    assert_eq!(fb, vec![10, -20, 30, -40]);
}

#[test]
fn groups_devices() {
    let m = AxisMap::example_dual_odrive();
    m.validate().unwrap();
    assert_eq!(m.devices().len(), 2);
}

#[test]
fn devices_keep_first_seen_order() {
    let m = AxisMap {
        cables: vec![endpoint("b", 0), endpoint("a", 0), endpoint("b", 1), endpoint("c", 0), endpoint("a", 1)],
    };
    assert_eq!(m.devices(), vec!["b".to_string(), "a".to_string(), "c".to_string()]);
    assert_eq!(m.count_on_device(&"a".to_string()), 2);
    assert_eq!(m.count_on_device(&"z".to_string()), 0);
}

#[test]
fn validate_reports_first_problem() {
    let empty = AxisMap { cables: vec![] };
    match empty.validate() {
        Err(RuntimeError::Config(m)) => assert_eq!(m, "axis map empty"),
        other => panic!("unexpected {other:?}"),
    }
    let mut bad = dual_mock_map();
    bad.cables[2].steps_per_rev_positive = false;
    bad.cables[1].device = String::new();
    match bad.validate() {
        Err(RuntimeError::Config(m)) => assert_eq!(m, "cable 1 device empty"),
        other => panic!("unexpected {other:?}"),
    }
    bad.cables[1].device = "board-a".to_string();
    match bad.validate() {
        Err(RuntimeError::Config(m)) => assert_eq!(m, "cable 2 steps_per_rev must be > 0"),
        other => panic!("unexpected {other:?}"),
    }
}

#[test]
fn routes_sort_by_axis_within_a_board() {
    let m = AxisMap { cables: vec![endpoint("x", 1), endpoint("y", 0), endpoint("x", 0)] };
    let devices = m.devices();
    let routes = m.routes(&devices);
    assert_eq!(
        routes,
        vec![
            CableRoute { board: 0, local: 1 },
            CableRoute { board: 1, local: 0 },
            CableRoute { board: 0, local: 0 },
        ]
    );
    assert_eq!(m.board_sizes(&devices), vec![2, 1]);
    let per_board = fan_out(&routes, &m.board_sizes(&devices), &[5i64, 6, 7], 0);
    assert_eq!(per_board, vec![vec![7, 5], vec![6]]);
}

#[test]
fn example_map_bauds_and_axes() {
    let m = AxisMap::example_dual_odrive();
    assert_eq!(m.cables.len(), 4);
    assert_eq!(m.cables[2].device, "/dev/ttyACM1");
    assert_eq!(m.cables[3].axis, 1);
    assert_eq!(m.device_baud(&"/dev/ttyACM0".to_string()), 115200);
    let custom = AxisMap {
        cables: vec![
            AxisEndpoint { device: "p".to_string(), baud: 9600, axis: 0, steps_per_rev_positive: true },
            AxisEndpoint { device: "p".to_string(), baud: 19200, axis: 1, steps_per_rev_positive: true },
        ],
    };
    assert_eq!(custom.device_baud(&"p".to_string()), 9600);
    assert_eq!(custom.device_baud(&"q".to_string()), 115200);
}

#[test]
fn wrong_board_count_is_refused() {
    let map = dual_mock_map();
    match MultiBoardBackend::new(map, vec![MockBackend::new(2)]) {
        Err(RuntimeError::Config(m)) => assert_eq!(m, "expected 2 boards for axis map, got 1"),
        Err(e) => panic!("unexpected {e:?}"),
        Ok(_) => panic!("accepted"),
    }
}

#[test]
fn board_axis_count_must_match_map() {
    let map = dual_mock_map();
    match MultiBoardBackend::new(map, vec![MockBackend::new(2), MockBackend::new(3)]) {
        Err(RuntimeError::Config(m)) => assert_eq!(m, "board 1 (board-b) axis_count=3 but map has 2 cables"),
        Err(e) => panic!("unexpected {e:?}"),
        Ok(_) => panic!("accepted"),
    }
}

#[test]
fn multiboard_length_mismatch_and_home() {
    let mut backend = MultiBoardBackend::mock_from_map(dual_mock_map()).unwrap();
    match backend.move_steps(&[1, 2], &[0, 0]) {
        Err(RuntimeError::Config(m)) => assert_eq!(m, "step/delay length mismatch for multi-board"),
        other => panic!("unexpected {other:?}"),
    }
    backend.move_steps(&[1, 2, 3, 4], &[0, 0, 0, 0]).unwrap();
    backend.estop().unwrap();
    backend.home_hardware().unwrap();
    assert_eq!(backend.positions(), &[0, 0, 0, 0]);
    assert_eq!(backend.read_feedback_steps().unwrap(), vec![0, 0, 0, 0]);
    assert_eq!(backend.map().cables.len(), 4);
}

#[test]
fn short_board_feedback_is_an_error() {
    let map = dual_mock_map();
    let a = MockBackend::new(2);
    let mut b = MockBackend::new(2);
    b.feedback = vec![5];
    let mut backend = MultiBoardBackend::new(map, vec![a, b]).unwrap();
    backend.move_steps(&[1, 2, 3, 4], &[100, 100, 100, 100]).unwrap();
    let err = backend.read_feedback_steps().unwrap_err();
    assert_eq!(err, RuntimeError::Backend("board feedback shorter than its axis count".to_string()));
    assert_eq!(backend.positions(), &[1, 2, 3, 4]);
}

#[test]
fn failing_board_stops_the_move() {
    let mut ta = MockTransport::new();
    ta.push_reply("OK");
    let mut tb = MockTransport::new();
    tb.push_reply("ERR stalled");
    let a = StepperBackend::new(Box::new(ta), 2);
    let b = StepperBackend::new(Box::new(tb), 2);
    let mut backend = MultiBoardBackend::new(dual_mock_map(), vec![a, b]).unwrap();
    let err = backend.move_steps(&[1, 2, 3, 4], &[100, 100, 100, 100]).unwrap_err();
    assert_eq!(err, RuntimeError::Backend("stepper firmware: ERR stalled".to_string()));
    assert_eq!(backend.positions(), &[0, 0, 0, 0]);
}
