use mem_profiler::measure::{
    box_size_of_excluding_self, list_size_of_excluding_self, vec_size_of_excluding_self, SizeOf,
};
use mem_profiler::smaps::get_resident_segments;
use mem_profiler::sysinfo::{
    get_jemalloc_stat, get_proc_self_statm_field, get_resident, get_system_heap_allocated, get_vsize,
    struct_mallinfo, system_reports, SystemMeasurements,
};
use std::sync::Arc;

fn lines(v: &[&str]) -> Vec<String> {
    v.iter().map(|s| s.to_string()).collect()
}

fn owned(v: &[(&str, u64)]) -> Vec<(String, u64)> {
    v.iter().map(|(n, s)| (n.to_string(), *s)).collect()
}

#[test]
fn smaps_threshold_and_total() {
    let input = lines(&[
        "00400000-00452000 rw-p 00000000 08:02 173521      /lib/a.so",
        "Size:               1024 kB",
        "Rss:                1024 kB",
        "Pss:                1024 kB",
        "00500000-00600000 rw-p 00000000 00:00 0 ",
        "Rss:                 100 kB",
    ]);
    let segs = get_resident_segments(&input);
    assert_eq!(
        segs,
        owned(&[
            ("resident-according-to-smaps", 1150976),
            ("- /lib/a.so (rw-p)", 1048576),
            ("- other", 102400),
        ])
    );
}

#[test]
fn smaps_same_name_summed() {
    let input = lines(&[
        "7f000000-7f100000 r-xp 00000000 08:02 99 /usr/lib/libc.so",
        "Rss:                 600 kB",
        "7f200000-7f300000 r-xp 00000000 08:02 99 /usr/lib/libc.so",
        "Rss:                 700 kB",
    ]);
    let segs = get_resident_segments(&input);
    assert_eq!(
        segs,
        owned(&[("resident-according-to-smaps", 1331200), ("- /usr/lib/libc.so (r-xp)", 1331200)])
    );
}

#[test]
fn smaps_stack_marker_is_anonymous() {
    let input = lines(&[
        "7ffd0000-7fff0000 rw-p 00000000 00:00 0          [stack:1234]",
        "Rss:                2048 kB",
        "garbage line",
        "7ffd0000-7fff0000 rw-p 00000000 00:00 0 ",
        "Rss:                   0 kB",
    ]);
    let segs = get_resident_segments(&input);
    assert_eq!(segs.len(), 2);
    assert_eq!(segs[0].1, 2097152);
    assert_eq!(segs[1].1, 2097152);
    assert!(segs.iter().any(|(n, _)| n == "- anonymous (rw-p)"));
    assert!(segs.iter().any(|(n, _)| n == "resident-according-to-smaps"));
}

#[test]
fn smaps_empty_input() {
    let segs = get_resident_segments(&Vec::new());
    assert_eq!(segs, owned(&[("resident-according-to-smaps", 0)]));
}

#[test]
fn statm_fields() {
    let statm = "100 50 10 1 0 20 0\n";
    assert_eq!(get_vsize(statm, 4096), Some(409600));
    assert_eq!(get_resident(statm, 4096), Some(204800));
    assert_eq!(get_proc_self_statm_field(statm, 5, 4096), Some(81920));
    assert_eq!(get_proc_self_statm_field(statm, 7, 4096), None);
    assert_eq!(get_vsize("12x 3", 4096), None);
    assert_eq!(get_vsize("", 4096), None);
    assert_eq!(get_vsize("18446744073709551615 1", 4096), None);
}

#[test]
fn statm_plus_sign_and_unicode_whitespace() {
    assert_eq!(get_vsize("+5 1", 4096), Some(20480));
    assert_eq!(get_vsize("+ 1", 4096), None);
    assert_eq!(get_vsize("-5 1", 4096), None);
    assert_eq!(get_vsize("++5 1", 4096), None);
    assert_eq!(get_resident("7\u{a0}3\u{3000}", 4096), Some(12288));
    assert_eq!(get_resident("\u{2003}7\u{85}+3", 10), Some(30));
}

#[test]
fn jemalloc_stat_needs_fresh_epoch() {
    assert_eq!(get_jemalloc_stat(1, Some((0, 5))), None);
    assert_eq!(get_jemalloc_stat(0, Some((0, 5))), Some(5));
    assert_eq!(get_jemalloc_stat(0, Some((2, 5))), None);
    assert_eq!(get_jemalloc_stat(0, None), None);
}

fn mallinfo(hblkhd: i32, uordblks: i32) -> struct_mallinfo {
    struct_mallinfo {
        arena: 0,
        ordblks: 0,
        smblks: 0,
        hblks: 0,
        hblkhd,
        usmblks: 0,
        fsmblks: 0,
        uordblks,
        fordblks: 0,
        keepcost: 0,
    }
}

#[test]
fn system_heap_allocated_adds_both_counters() {
    assert_eq!(get_system_heap_allocated(&mallinfo(100, 50)), Some(150));
    assert_eq!(get_system_heap_allocated(&mallinfo(-1, 50)), None);
}

#[test]
fn system_reports_in_order() {
    let m = SystemMeasurements {
        vsize: Some(1),
        resident: None,
        segments: owned(&[("resident-according-to-smaps", 9), ("- other", 9)]),
        system_heap_allocated: Some(3),
        jemalloc_heap_allocated: None,
        jemalloc_heap_active: Some(5),
        jemalloc_heap_mapped: Some(6),
    };
    let r: Vec<(String, u64)> = system_reports(&m).into_iter().map(|r| (r.name, r.size)).collect();
    assert_eq!(
        r,
        owned(&[
            ("vsize", 1),
            ("resident-according-to-smaps", 9),
            ("- other", 9),
            ("system-heap-allocated", 3),
            ("jemalloc-heap-active", 5),
            ("jemalloc-heap-mapped", 6),
        ])
    );
}

struct Blob(usize);

impl SizeOf for Blob {
    fn heap_size(&self) -> usize {
        self.0
    }

    fn size_of_excluding_self(&self) -> usize {
        self.0
    }
}

#[test]
fn option_measurement() {
    let none: Option<Blob> = None;
    assert_eq!(none.size_of_excluding_self(), 0);
    assert_eq!(Some(Blob(48)).size_of_excluding_self(), 48);
    assert_eq!(Arc::new(Blob(16)).size_of_excluding_self(), 16);
}

#[test]
fn vec_measurement() {
    assert_eq!(vec_size_of_excluding_self(64, &vec![Blob(8), Blob(24)]), 96);
    let empty: Vec<Blob> = Vec::new();
    assert_eq!(vec_size_of_excluding_self(0, &empty), 0);
    assert_eq!(vec_size_of_excluding_self(usize::MAX - 1, &vec![Blob(8)]), usize::MAX);
    assert_eq!(box_size_of_excluding_self(32, &Box::new(Blob(8))), 40);
}

#[test]
fn list_measurement() {
    assert_eq!(list_size_of_excluding_self(&vec![32, 48], &vec![Blob(8), Blob(0)]), 88);
    let empty: Vec<Blob> = Vec::new();
    assert_eq!(list_size_of_excluding_self(&Vec::new(), &empty), 0);
    assert_eq!(list_size_of_excluding_self(&vec![usize::MAX], &vec![Blob(1)]), usize::MAX);
}
