use ros::port::PortWrite;
use ros::{
    exit_qemu, test_panic_handler, test_runner, Green, QemuExitCode, Red, TestSummary, Testable,
    QEMU_EXIT_PORT,
};
use std::cell::Cell;

struct Case<'a> {
    passes: bool,
    runs: &'a Cell<usize>,
}

impl<'a> Testable for Case<'a> {
    fn run(&self) -> bool {
        self.runs.set(self.runs.get() + 1);
        self.passes
    }
}

#[test]
fn exit_codes_are_the_device_values() {
    assert_eq!(QemuExitCode::Success.code(), 0x10);
    assert_eq!(QemuExitCode::Failed.code(), 0x11);
}

#[test]
fn exit_request_writes_four_bytes_to_the_exit_port() {
    assert_eq!(QEMU_EXIT_PORT, 0xf4);
    assert_eq!(
        exit_qemu(QemuExitCode::Success),
        PortWrite::Dword { port: 0xf4, value: 0x10 }
    );
    assert_eq!(
        exit_qemu(QemuExitCode::Failed),
        PortWrite::Dword { port: 0xf4, value: 0x11 }
    );
}

#[test]
fn runner_runs_every_case_when_all_pass() {
    let runs = Cell::new(0);
    let a = Case { passes: true, runs: &runs };
    let b = Case { passes: true, runs: &runs };
    let c = Case { passes: true, runs: &runs };
    let cases: [&dyn Testable; 3] = [&a, &b, &c];
    let summary = test_runner(&cases);
    assert_eq!(summary, TestSummary { total: 3, passed: 3 });
    assert_eq!(runs.get(), 3);
    assert_eq!(summary.exit_code(), QemuExitCode::Success);
}

#[test]
fn runner_stops_at_the_first_failure() {
    let runs = Cell::new(0);
    let a = Case { passes: true, runs: &runs };
    let b = Case { passes: false, runs: &runs };
    let c = Case { passes: true, runs: &runs };
    let cases: [&dyn Testable; 3] = [&a, &b, &c];
    let summary = test_runner(&cases);
    assert_eq!(summary, TestSummary { total: 3, passed: 1 });
    assert_eq!(runs.get(), 2);
    assert_eq!(summary.exit_code(), QemuExitCode::Failed);
}

#[test]
fn runner_with_no_cases_succeeds() {
    let cases: [&dyn Testable; 0] = [];
    let summary = test_runner(&cases);
    assert_eq!(summary, TestSummary { total: 0, passed: 0 });
    assert_eq!(summary.exit_code(), QemuExitCode::Success);
}

#[test]
fn green_wraps_text_in_escape_codes() {
    assert_eq!(Green("[ok]").render(), "\x1B[32m[ok]\x1B[0m");
    assert_eq!(Green("").render(), "\x1B[32m\x1B[0m");
}

#[test]
fn red_wraps_text_in_escape_codes() {
    assert_eq!(Red("[failed]").render(), "\x1B[31m[failed]\x1B[0m");
    assert_eq!(Red("[test did not panic]").render(), "\x1B[31m[test did not panic]\x1B[0m");
}

#[test]
fn summary_records_cases_one_by_one() {
    let mut summary = TestSummary::start(3);
    assert_eq!(summary, TestSummary { total: 3, passed: 0 });
    assert!(summary.record(true));
    assert!(summary.record(true));
    assert!(!summary.record(true));
    assert_eq!(summary, TestSummary { total: 3, passed: 3 });
    let mut summary = TestSummary::start(3);
    assert!(summary.record(true));
    assert!(!summary.record(false));
    assert_eq!(summary, TestSummary { total: 3, passed: 1 });
}

#[test]
fn a_panicking_test_is_reported_in_red_and_fails_the_run() {
    let report = test_panic_handler("assertion failed: 0 == 1");
    assert_eq!(report.text, "\x1B[31m[failed]\x1B[0m\n\nError: assertion failed: 0 == 1\n\n");
    assert_eq!(report.exit, PortWrite::Dword { port: 0xf4, value: 0x11 });
}
