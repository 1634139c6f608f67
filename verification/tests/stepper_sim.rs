use spyder::stepper::StepperBackend;
use spyder::transport::Transport;
use spyder::backend::MotorBackend;
use spyder::errors::RuntimeError;
use spyder::SimState;
use std::cell::RefCell;
use std::rc::Rc;

#[test]
fn move_accumulates_positions() {
    let mut sim = SimState::new(4);
    assert_eq!(sim.handle_line("M 2 100 1000 -50 2000"), "OK");
    assert_eq!(sim.positions[0], 100);
    assert_eq!(sim.positions[1], -50);
}

#[test]
fn position_report_returns_steps() {
    let mut sim = SimState::new(2);
    sim.handle_line("M 2 10 1 20 1");
    assert_eq!(sim.handle_line("P"), "P 10 20");
}

#[test]
fn home_zeros_positions() {
    let mut sim = SimState::new(2);
    sim.handle_line("M 2 5 1 7 1");
    sim.handle_line("H");
    assert_eq!(sim.positions, vec![0, 0]);
}

#[test]
fn unknown_command_errors() {
    let mut sim = SimState::new(1);
    assert_eq!(sim.handle_line("Z"), "ERR unknown");
}

#[test]
fn blank_and_estop_lines() {
    let mut sim = SimState::new(1);
    assert_eq!(sim.handle_line("   \n"), "");
    assert_eq!(sim.handle_line("E\n"), "OK estop");
    assert_eq!(sim.handle_line("  P  "), "P 0");
}

#[test]
fn malformed_moves_are_refused() {
    let mut sim = SimState::new(2);
    assert_eq!(sim.handle_line("M"), "ERR bad");
    assert_eq!(sim.handle_line("M 0"), "ERR parse");
    assert_eq!(sim.handle_line("M 2 5 1"), "ERR parse");
    assert_eq!(sim.handle_line("M x 5 1"), "ERR parse");
    assert_eq!(sim.positions, vec![0, 0]);
}

#[test]
fn move_fields_that_do_not_read_count_as_zero() {
    let mut sim = SimState::new(3);
    assert_eq!(sim.handle_line("M 3 7 1 abc 1 -3 1"), "OK");
    assert_eq!(sim.positions, vec![7, 0, -3]);
}

#[test]
fn moves_beyond_the_axis_count_are_ignored() {
    let mut sim = SimState::new(1);
    assert_eq!(sim.handle_line("M 2 4 1 9 1"), "OK");
    assert_eq!(sim.positions, vec![4]);
    assert_eq!(sim.handle_line("P"), "P 4");
}

#[test]
fn moves_accumulate_over_lines() {
    let mut sim = SimState::new(2);
    sim.handle_line("M 2 10 1 -4 1");
    sim.handle_line("M 2 -15 1 6 1\r\n");
    assert_eq!(sim.handle_line("P"), "P -5 2");
}

#[test]
fn connection_replies_and_silence() {
    assert_eq!(SimState::greeting(), "OK spyder-stepper-sim");
    let mut sim = SimState::new(2);
    assert_eq!(sim.respond("\n"), None);
    assert_eq!(sim.respond("M 2 1 1 2 1\n"), Some("OK".to_string()));
    assert_eq!(sim.respond("P\n"), Some("P 1 2".to_string()));
}

/// A transport whose far end is a simulator in the same process.
struct Loopback {
    sim: Rc<RefCell<SimState>>,
    pending: Vec<String>,
}

impl Transport for Loopback {
    fn write_all(&mut self, bytes: &[u8]) -> Result<(), RuntimeError> {
        let text = String::from_utf8_lossy(bytes).to_string();
        let reply = self.sim.borrow_mut().handle_line(&text);
        if !reply.is_empty() {
            self.pending.push(reply);
        }
        Ok(())
    }

    fn read_line(&mut self) -> Result<String, RuntimeError> {
        if self.pending.is_empty() {
            return Err(RuntimeError::Backend("no reply".to_string()));
        }
        Ok(self.pending.remove(0))
    }
}

#[test]
fn stepper_backend_drives_simulator() {
    let sim = Rc::new(RefCell::new(SimState::new(4)));
    let link = Loopback { sim: Rc::clone(&sim), pending: Vec::new() };
    let mut backend = StepperBackend::new(Box::new(link), 4);
    backend.move_steps(&[100, -25, 0, 10], &[1000, 1000, 0, 1000]).unwrap();
    assert_eq!(backend.positions(), &[100, -25, 0, 10]);
    assert_eq!(sim.borrow().positions, vec![100, -25, 0, 10]);
    let feedback = backend.read_feedback_steps().unwrap();
    assert_eq!(feedback, vec![100, -25, 0, 10]);
    backend.move_steps(&[-100, 5, 3, 0], &[0, 0, 0, 0]).unwrap();
    assert_eq!(sim.borrow().positions, vec![0, -20, 3, 10]);
    assert_eq!(backend.positions(), &[0, -20, 3, 10]);
    backend.home_hardware().unwrap();
    assert_eq!(backend.positions(), &[0, 0, 0, 0]);
    assert_eq!(sim.borrow().positions, vec![0, 0, 0, 0]);
}

#[test]
fn standalone_simulator_has_no_estop() {
    let mut sim = SimState::new(8);
    assert_eq!(sim.respond_without_estop("E\n"), Some("ERR unknown".to_string()));
    assert_eq!(sim.respond_without_estop("M 1 3 1\n"), Some("OK".to_string()));
    assert_eq!(sim.respond_without_estop("P"), Some("P 3 0 0 0 0 0 0 0".to_string()));
    assert_eq!(sim.respond_without_estop(" \r\n"), None);
}
