use mem_profiler::profiler::{MemoryProfiler, MemoryProfilerChan, MemoryProfilerMsg, MsgOutcome, ProfilerError};
use mem_profiler::report::{format_report, render_cycle, MemoryReport, MemoryReporter, MemoryReportsChan};
use std::cell::Cell;
use std::rc::Rc;
use std::sync::mpsc::channel;

struct FakeReporter {
    reports: Vec<(String, u64)>,
    succeed: bool,
    calls: Rc<Cell<usize>>,
}

impl MemoryReporter for FakeReporter {
    fn collect_reports(&self, reports_chan: MemoryReportsChan) -> bool {
        self.calls.set(self.calls.get() + 1);
        if !self.succeed {
            return false;
        }
        let batch = self
            .reports
            .iter()
            .map(|(n, s)| MemoryReport { name: n.clone(), size: *s })
            .collect();
        reports_chan.send(batch)
    }
}

fn fake(reports: &[(&str, u64)], succeed: bool) -> (FakeReporter, Rc<Cell<usize>>) {
    let calls = Rc::new(Cell::new(0));
    let r = FakeReporter {
        reports: reports.iter().map(|(n, s)| (n.to_string(), *s)).collect(),
        succeed,
        calls: calls.clone(),
    };
    (r, calls)
}

fn new_profiler() -> MemoryProfiler<FakeReporter> {
    let (_tx, rx) = channel();
    MemoryProfiler::new(rx)
}

fn print(p: &mut MemoryProfiler<FakeReporter>) -> Vec<String> {
    match p.handle_msg(MemoryProfilerMsg::Print) {
        Ok(MsgOutcome::Output(lines)) => lines,
        _ => panic!("print gave no output"),
    }
}

fn register(p: &mut MemoryProfiler<FakeReporter>, name: &str, r: FakeReporter) -> Result<MsgOutcome, ProfilerError> {
    p.handle_msg(MemoryProfilerMsg::RegisterMemoryReporter(name.to_string(), r))
}

#[test]
fn format_two_mebibytes() {
    assert_eq!(format_report("x", 2 * 1024 * 1024), "        2.00: x");
}

#[test]
fn format_rounding_and_width() {
    assert_eq!(format_report("a", 0), "        0.00: a");
    assert_eq!(format_report("b", 1572864), "        1.50: b");
    assert_eq!(format_report("c", 10485), "        0.01: c");
    // exactly 0.125 MiB: ties go to the even hundredth
    assert_eq!(format_report("d", 131072), "        0.12: d");
    assert_eq!(format_report("e", 393216), "        0.38: e");
    assert_eq!(format_report("f", u64::MAX), "17592186044416.00: f");
}

#[test]
fn render_skips_failed_outcomes() {
    let outs = vec![
        None,
        Some(vec![MemoryReport { name: "y".to_string(), size: 1048576 }]),
        Some(vec![]),
    ];
    let lines = render_cycle(&outs);
    assert_eq!(lines, vec!["_size (MiB)_: _category_".to_string(), "        1.00: y".to_string(), String::new()]);
}

#[test]
fn duplicate_registration_is_refused() {
    let mut p = new_profiler();
    let (a, _) = fake(&[], true);
    let (b, _) = fake(&[], true);
    assert!(matches!(register(&mut p, "r", a), Ok(MsgOutcome::Continue)));
    match register(&mut p, "r", b) {
        Err(ProfilerError::NameInUse(n)) => assert_eq!(n, "r"),
        _ => panic!("duplicate name accepted"),
    }
}

#[test]
fn distinct_names_both_print() {
    let mut p = new_profiler();
    let (a, _) = fake(&[("a", 1048576)], true);
    let (b, _) = fake(&[("b", 2097152)], true);
    assert!(register(&mut p, "ra", a).is_ok());
    assert!(register(&mut p, "rb", b).is_ok());
    let lines = print(&mut p);
    assert_eq!(lines.len(), 4);
    assert!(lines.contains(&"        1.00: a".to_string()));
    assert!(lines.contains(&"        2.00: b".to_string()));
}

#[test]
fn unknown_unregistration_is_refused() {
    let mut p = new_profiler();
    match p.handle_msg(MemoryProfilerMsg::UnregisterMemoryReporter("nope".to_string())) {
        Err(ProfilerError::UnknownName(n)) => assert_eq!(n, "nope"),
        _ => panic!("unknown name accepted"),
    }
}

#[test]
fn unregistered_reporter_is_not_asked() {
    let mut p = new_profiler();
    let (a, calls_a) = fake(&[("a", 1048576)], true);
    let (b, calls_b) = fake(&[("b", 1048576)], true);
    assert!(register(&mut p, "ra", a).is_ok());
    assert!(register(&mut p, "rb", b).is_ok());
    assert!(matches!(
        p.handle_msg(MemoryProfilerMsg::UnregisterMemoryReporter("ra".to_string())),
        Ok(MsgOutcome::Continue)
    ));
    let lines = print(&mut p);
    assert_eq!(calls_a.get(), 0);
    assert_eq!(calls_b.get(), 1);
    assert_eq!(lines, vec!["_size (MiB)_: _category_".to_string(), "        1.00: b".to_string(), String::new()]);
}

#[test]
fn failing_reporter_contributes_nothing() {
    let mut p = new_profiler();
    let (bad, calls_bad) = fake(&[("bad", 1048576)], false);
    let (good, _) = fake(&[("good", 3145728)], true);
    assert!(register(&mut p, "bad", bad).is_ok());
    assert!(register(&mut p, "good", good).is_ok());
    let lines = print(&mut p);
    assert_eq!(calls_bad.get(), 1);
    assert_eq!(lines, vec!["_size (MiB)_: _category_".to_string(), "        3.00: good".to_string(), String::new()]);
}

#[test]
fn end_to_end_print_then_exit() {
    let mut p = new_profiler();
    let (x, _) = fake(&[("x", 2 * 1024 * 1024)], true);
    assert!(register(&mut p, "fake", x).is_ok());
    let lines = print(&mut p);
    assert_eq!(lines[1], "        2.00: x");
    assert_eq!(lines[2], "");
    assert!(matches!(p.handle_msg(MemoryProfilerMsg::Exit), Ok(MsgOutcome::Stop)));
}

#[test]
fn handle_sends_until_profiler_is_gone() {
    let (tx, rx) = channel();
    let chan: MemoryProfilerChan<FakeReporter> = MemoryProfilerChan(tx);
    let other = chan.clone();
    assert!(chan.send(MemoryProfilerMsg::Print));
    assert!(other.send(MemoryProfilerMsg::Exit));
    assert!(matches!(rx.recv(), Ok(MemoryProfilerMsg::Print)));
    assert!(matches!(rx.recv(), Ok(MemoryProfilerMsg::Exit)));
    drop(rx);
    assert!(!chan.send(MemoryProfilerMsg::Print));
}

#[test]
fn reports_chan_delivers_batch() {
    let (tx, rx) = channel();
    let chan = MemoryReportsChan(tx);
    assert!(chan.send(vec![MemoryReport { name: "n".to_string(), size: 7 }]));
    let got = rx.recv().unwrap();
    assert_eq!(got[0].name, "n");
    assert_eq!(got[0].size, 7);
}
