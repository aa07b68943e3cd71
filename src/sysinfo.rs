//! Process-wide figures from the operating system and the heap allocators, computed from
//! what the platform hands back, and the list of reports the built-in system reporter makes.

use vstd::prelude::*;
use vstd::string::*;
use crate::report::MemoryReport;
use crate::smaps::pairs_view;
use crate::smaps::{digits_value, run_end, run_len, dec_value, in_class, CharClass};

verus! {

/// The counters of the C library's `mallinfo`.
#[allow(non_camel_case_types)]
pub struct struct_mallinfo {
    pub arena: i32,
    pub ordblks: i32,
    pub smblks: i32,
    pub hblks: i32,
    pub hblkhd: i32,
    pub usmblks: i32,
    pub fsmblks: i32,
    pub uordblks: i32,
    pub fordblks: i32,
    pub keepcost: i32,
}

/// Bytes allocated on the system heap: the small allocations in the `brk` heap (`uordblks`)
/// plus the large `mmap`ed ones (`hblkhd`). Absent when a counter is negative, which the
/// C library reports once a counter no longer fits.
pub fn get_system_heap_allocated(info: &struct_mallinfo) -> (r: Option<u64>)
    ensures
        r == (if info.hblkhd >= 0 && info.uordblks >= 0 {
            Some((info.hblkhd + info.uordblks) as u64)
        } else {
            None::<u64>
        }),
{
    if info.hblkhd >= 0 && info.uordblks >= 0 {
        Some(info.hblkhd as u64 + info.uordblks as u64)
    } else {
        None
    }
}

/// A statistic of the heap allocator, read right after an epoch refresh. `epoch_rv` is the
/// status of the refresh request and `query` the status and value of the statistic request,
/// made only after a successful refresh. A failed refresh gives nothing rather than a stale
/// figure; so does a failed request.
pub fn get_jemalloc_stat(epoch_rv: i32, query: Option<(i32, u64)>) -> (r: Option<u64>)
    ensures
        epoch_rv != 0 ==> r is None,
        epoch_rv == 0 ==> r == match query {
            Some((rv, v)) => if rv == 0 {
                Some(v)
            } else {
                None::<u64>
            },
            None => None::<u64>,
        },
{
    if epoch_rv != 0 {
        return None;
    }
    match query {
        Some((rv, v)) => if rv == 0 {
            Some(v)
        } else {
            None
        },
        None => None,
    }
}

/// Where the `n`-th word (counting from 0) of `s` from position `i` on starts and ends;
/// words are separated by ASCII whitespace.
pub open spec fn nth_word(s: Seq<char>, i: int, n: nat) -> Option<(int, int)>
    decreases n,
{
    let a = i + run_len(s, i, CharClass::Blank);
    if i < 0 || a >= s.len() {
        None
    } else {
        let b = a + run_len(s, a, CharClass::Word);
        if n == 0 {
            Some((a, b))
        } else {
            nth_word(s, b, (n - 1) as nat)
        }
    }
}

/// The digits of a number word: the word without its leading `+`, if it has one.
pub open spec fn unsigned_digits(w: Seq<char>) -> Seq<char> {
    if w.len() > 0 && w[0] == '+' {
        w.subrange(1, w.len() as int)
    } else {
        w
    }
}

/// The `field`-th word of a memory status line (`size resident shared text lib data dt`, in
/// pages), times the page size, when it is an unsigned decimal number (optionally after `+`)
/// that fits in a `u64` and the product fits too.
pub open spec fn statm_field(s: Seq<char>, field: nat, page_size: u64) -> Option<u64> {
    match nth_word(s, 0, field) {
        None => None,
        Some((a, b)) => {
            let w = unsigned_digits(s.subrange(a, b));
            if w.len() > 0 && (forall|m: int| 0 <= m < w.len() ==> in_class(#[trigger] w[m], CharClass::Digit))
                && dec_value(w) <= u64::MAX && dec_value(w) * page_size <= u64::MAX {
                Some((dec_value(w) * page_size) as u64)
            } else {
                None
            }
        },
    }
}

fn nth_word_at(s: &str, n: usize) -> (r: Option<(usize, usize)>)
    ensures
        match r {
            Some((a, b)) => nth_word(s@, 0, n as nat) == Some((a as int, b as int)) && a <= b
                <= s@.len(),
            None => nth_word(s@, 0, n as nat) is None,
        },
{
    let len = s.unicode_len();
    let mut i: usize = 0;
    let mut k: usize = n;
    loop
        invariant
            i <= len,
            len == s@.len(),
            nth_word(s@, 0, n as nat) == nth_word(s@, i as int, k as nat),
        decreases k,
    {
        let a = run_end(s, len, i, CharClass::Blank);
        if a >= len {
            return None;
        }
        let b = run_end(s, len, a, CharClass::Word);
        if k == 0 {
            return Some((a, b));
        }
        i = b;
        k = k - 1;
    }
}

/// Reads one field of the process memory status (`/proc/self/statm` contents), in bytes.
pub fn get_proc_self_statm_field(statm: &str, field: usize, page_size: u64) -> (r: Option<u64>)
    ensures
        r == statm_field(statm@, field as nat, page_size),
{
    let (a, b) = match nth_word_at(statm, field) {
        None => return None,
        Some(w) => w,
    };
    let len = statm.unicode_len();
    let start: usize = if a < b && statm.get_char(a) == '+' { a + 1 } else { a };
    let ghost w = statm@.subrange(start as int, b as int);
    proof {
        assert(w =~= unsigned_digits(statm@.subrange(a as int, b as int)));
    }
    if start >= b {
        return None;
    }
    let d = run_end(statm, len, start, CharClass::Digit);
    if d < b {
        proof {
            assert(!in_class(statm@[d as int], CharClass::Digit));
            assert(w[d - start] == statm@[d as int]);
        }
        return None;
    }
    proof {
        assert forall|m: int| 0 <= m < w.len() implies in_class(#[trigger] w[m], CharClass::Digit) by {
            assert(w[m] == statm@[start + m]);
        }
    }
    let pages = match digits_value(statm, start, b, u64::MAX) {
        None => return None,
        Some(v) => v,
    };
    if page_size != 0 && pages > u64::MAX / page_size {
        proof {
            assert(pages * page_size > u64::MAX) by (nonlinear_arith)
                requires
                    page_size != 0,
                    pages > u64::MAX / page_size,
            ;
        }
        return None;
    }
    proof {
        assert(pages * page_size <= u64::MAX) by (nonlinear_arith)
            requires
                page_size == 0 || pages <= u64::MAX / page_size,
        ;
    }
    Some(pages * page_size)
}

/// The virtual size of the process, in bytes, from its memory status.
pub fn get_vsize(statm: &str, page_size: u64) -> (r: Option<u64>)
    ensures
        r == statm_field(statm@, 0, page_size),
{
    get_proc_self_statm_field(statm, 0, page_size)
}

/// The resident size of the process, in bytes, from its memory status.
pub fn get_resident(statm: &str, page_size: u64) -> (r: Option<u64>)
    ensures
        r == statm_field(statm@, 1, page_size),
{
    get_proc_self_statm_field(statm, 1, page_size)
}

/// What the built-in system reporter measured; an absent figure is one the platform could
/// not give.
pub struct SystemMeasurements {
    pub vsize: Option<u64>,
    pub resident: Option<u64>,
    /// Named resident sizes of the memory segments.
    pub segments: Vec<(String, u64)>,
    pub system_heap_allocated: Option<u64>,
    /// Total number of bytes allocated by the application.
    pub jemalloc_heap_allocated: Option<u64>,
    /// Total number of bytes in active pages allocated by the application.
    pub jemalloc_heap_active: Option<u64>,
    /// Total number of bytes in chunks mapped on behalf of the application.
    pub jemalloc_heap_mapped: Option<u64>,
}

pub open spec fn report_pairs(v: Seq<MemoryReport>) -> Seq<(Seq<char>, u64)> {
    v.map_values(|m: MemoryReport| (m.name@, m.size))
}

pub open spec fn opt_entry(name: Seq<char>, v: Option<u64>) -> Seq<(Seq<char>, u64)> {
    match v {
        Some(x) => seq![(name, x)],
        None => Seq::empty(),
    }
}

/// The reports of the system reporter, in this order: `vsize`, `resident`, the segments,
/// `system-heap-allocated`, `jemalloc-heap-allocated`, `jemalloc-heap-active`,
/// `jemalloc-heap-mapped`; absent figures are left out.
pub open spec fn system_entries(m: SystemMeasurements) -> Seq<(Seq<char>, u64)> {
    opt_entry("vsize"@, m.vsize) + opt_entry("resident"@, m.resident) + pairs_view(m.segments@)
        + opt_entry("system-heap-allocated"@, m.system_heap_allocated) + opt_entry(
        "jemalloc-heap-allocated"@,
        m.jemalloc_heap_allocated,
    ) + opt_entry("jemalloc-heap-active"@, m.jemalloc_heap_active) + opt_entry(
        "jemalloc-heap-mapped"@,
        m.jemalloc_heap_mapped,
    )
}

fn push_opt(out: &mut Vec<MemoryReport>, name: &str, v: Option<u64>)
    ensures
        report_pairs(final(out)@) == report_pairs(old(out)@) + opt_entry(name@, v),
{
    match v {
        Some(x) => {
            out.push(MemoryReport { name: name.to_owned(), size: x });
            proof {
                assert(report_pairs(out@) =~= report_pairs(old(out)@) + opt_entry(name@, v));
            }
        },
        None => {
            proof {
                assert(report_pairs(out@) =~= report_pairs(old(out)@) + opt_entry(name@, v));
            }
        },
    }
}

/// Turns the system measurements into the reports of the built-in system reporter.
pub fn system_reports(m: &SystemMeasurements) -> (r: Vec<MemoryReport>)
    ensures
        report_pairs(r@) == system_entries(*m),
{
    let mut out: Vec<MemoryReport> = Vec::new();
    proof {
        assert(report_pairs(out@) =~= Seq::empty());
    }
    push_opt(&mut out, "vsize", m.vsize);
    push_opt(&mut out, "resident", m.resident);
    let ghost before = report_pairs(out@);
    let mut i: usize = 0;
    while i < m.segments.len()
        invariant
            i <= m.segments@.len(),
            report_pairs(out@) == before + pairs_view(m.segments@).take(i as int),
        decreases m.segments@.len() - i,
    {
        let name = m.segments[i].0.clone();
        let ghost prev = report_pairs(out@);
        out.push(MemoryReport { name: name, size: m.segments[i].1 });
        proof {
            assert(report_pairs(out@) =~= prev.push((m.segments@[i as int].0@, m.segments@[i as int].1)));
            assert(pairs_view(m.segments@).take(i + 1) =~= pairs_view(m.segments@).take(i as int).push(
                (m.segments@[i as int].0@, m.segments@[i as int].1),
            ));
            assert(report_pairs(out@) =~= before + pairs_view(m.segments@).take(i + 1));
        }
        i = i + 1;
    }
    proof {
        assert(pairs_view(m.segments@).take(i as int) =~= pairs_view(m.segments@));
    }
    push_opt(&mut out, "system-heap-allocated", m.system_heap_allocated);
    push_opt(&mut out, "jemalloc-heap-allocated", m.jemalloc_heap_allocated);
    push_opt(&mut out, "jemalloc-heap-active", m.jemalloc_heap_active);
    push_opt(&mut out, "jemalloc-heap-mapped", m.jemalloc_heap_mapped);
    proof {
        assert(report_pairs(out@) =~= system_entries(*m));
    }
    out
}

} // verus!
