//! Parsing of the kernel's per-process memory map with resident sizes (the `smaps` format)
//! into named, summed resident sizes.
//!
//! Each segment starts with a header line such as
//! `02366000-025d8000 rw-p 00000000 00:00 0      [heap]`
//! (address range, permissions, offset, device, inode, path), followed by `key: value` lines,
//! one of which is the resident size, e.g. `Rss:           132 kB`.

use vstd::prelude::*;
use vstd::string::*;
use vstd::seq_lib::*;
use vstd::multiset::*;
use crate::report::lines_view;
use crate::text::{chars_to_string, push_chars, push_range};

verus! {

/// Segments below this many resident bytes are merged into one entry.
pub const SMALL_SEGMENT: u64 = 524288;

/// The largest resident size, in kB, whose byte count fits in a `u64`.
pub const MAX_KB: u64 = 18014398509481983;

/// The kinds of character runs in the two line formats.
#[derive(Clone, Copy)]
pub enum CharClass {
    Hex,
    Digit,
    Space,
    /// Whitespace, as `char::is_whitespace` has it.
    Blank,
    /// Anything but whitespace.
    Word,
}

/// The characters with the Unicode `White_Space` property.
pub open spec fn is_blank(c: char) -> bool {
    c == ' ' || ('\t' <= c && c <= '\r') || c == '\u{85}' || c == '\u{a0}' || c == '\u{1680}' || ('\u{2000}' <= c && c <= '\u{200a}') || c == '\u{2028}' || c == '\u{2029}' || c == '\u{202f}' || c == '\u{205f}' || c == '\u{3000}'
}

pub open spec fn in_class(c: char, k: CharClass) -> bool {
    match k {
        CharClass::Hex => ('0' <= c && c <= '9') || ('a' <= c && c <= 'f') || ('A' <= c && c <= 'F'),
        CharClass::Digit => '0' <= c && c <= '9',
        CharClass::Space => c == ' ',
        CharClass::Blank => is_blank(c),
        CharClass::Word => !is_blank(c),
    }
}

/// The number of consecutive characters of class `k` in `s` from position `i` on.
pub open spec fn run_len(s: Seq<char>, i: int, k: CharClass) -> nat
    decreases s.len() - i,
{
    if i < 0 || i >= s.len() || !in_class(s[i], k) {
        0
    } else {
        1 + run_len(s, i + 1, k)
    }
}

/// A non-empty run of class `k` from `i`, then the character `sep`: the position after `sep`.
pub open spec fn field_end(s: Seq<char>, i: int, k: CharClass, sep: char) -> Option<int> {
    let n = run_len(s, i, k);
    if n > 0 && i + n < s.len() && s[i + n] == sep {
        Some(i + n + 1)
    } else {
        None
    }
}

/// Where the permissions and the path of a segment header line start, if `s` is one:
/// `HEX-HEX PPPP HEX HEX:HEX DIGITS SPACES PATH` (the line may go on after the path's start).
pub open spec fn header_positions(s: Seq<char>) -> Option<(int, int)> {
    match field_end(s, 0, CharClass::Hex, '-') {
        None => None,
        Some(p1) => match field_end(s, p1, CharClass::Hex, ' ') {
            None => None,
            Some(p2) => if p2 + 5 <= s.len() && s[p2 + 4] == ' ' {
                match field_end(s, p2 + 5, CharClass::Hex, ' ') {
                    None => None,
                    Some(p3) => match field_end(s, p3, CharClass::Hex, ':') {
                        None => None,
                        Some(p4) => match field_end(s, p4, CharClass::Hex, ' ') {
                            None => None,
                            Some(p5) => match field_end(s, p5, CharClass::Digit, ' ') {
                                None => None,
                                Some(p6) => Some((p2, p6 + run_len(s, p6, CharClass::Space))),
                            },
                        },
                    },
                }
            } else {
                None
            },
        },
    }
}

/// The value of a string of decimal digits.
pub open spec fn dec_value(ds: Seq<char>) -> nat
    decreases ds.len(),
{
    if ds.len() == 0 {
        0
    } else {
        dec_value(ds.drop_last()) * 10 + ((ds.last() as u32 - 48) as nat)
    }
}

/// The resident size in kB of a line `Rss: SPACES DIGITS kB...`, if `s` is one.
pub open spec fn rss_kb(s: Seq<char>) -> Option<nat> {
    if s.len() >= 4 && s[0] == 'R' && s[1] == 's' && s[2] == 's' && s[3] == ':' {
        let n1 = run_len(s, 4, CharClass::Space);
        let p: int = (4 + n1) as int;
        let n2 = run_len(s, p, CharClass::Digit);
        let q: int = (p + n2) as int;
        if n1 > 0 && n2 > 0 && q + 3 <= s.len() && s[q] == ' ' && s[q + 1] == 'k' && s[q + 2]
            == 'B' {
            Some(dec_value(s.subrange(p, q)))
        } else {
            None
        }
    } else {
        None
    }
}

/// A thread-stack marker, `[stack:...`.
pub open spec fn is_stack_marker(path: Seq<char>) -> bool {
    path.len() >= 7 && path[0] == '[' && path[1] == 's' && path[2] == 't' && path[3] == 'a'
        && path[4] == 'c' && path[5] == 'k' && path[6] == ':'
}

/// The name a segment is reported under: `- PATH (PERMS)`, with `anonymous` for an empty path
/// or a thread-stack marker.
pub open spec fn segment_name(perms: Seq<char>, path: Seq<char>) -> Seq<char> {
    seq!['-', ' '] + (if path.len() == 0 || is_stack_marker(path) {
        "anonymous"@
    } else {
        path
    }) + seq![' ', '('] + perms + seq![')']
}

/// The name of the entry small segments are merged into.
pub open spec fn other_name() -> Seq<char> {
    "- other"@
}

/// The name of the entry holding the sum of all resident sizes.
pub open spec fn total_name() -> Seq<char> {
    "resident-according-to-smaps"@
}

pub open spec fn sat_add(a: u64, b: u64) -> u64 {
    if a + b > u64::MAX {
        u64::MAX
    } else {
        (a + b) as u64
    }
}

/// The state of a scan: whether a resident-size line is awaited, the name of the current
/// segment, the entries recorded so far (in order of first appearance) and their sum.
pub struct ScanModel {
    pub want_rss: bool,
    pub name: Seq<char>,
    pub entries: Seq<(Seq<char>, u64)>,
    pub total: u64,
}

pub open spec fn has_name(entries: Seq<(Seq<char>, u64)>, name: Seq<char>) -> bool {
    exists|i: int| 0 <= i < entries.len() && entries[i].0 == name
}

pub open spec fn unique_names(entries: Seq<(Seq<char>, u64)>) -> bool {
    forall|i: int, j: int|
        0 <= i < entries.len() && 0 <= j < entries.len() && i != j ==> entries[i].0 != entries[j].0
}

/// Adds `rss` to the entry named `name`, or appends a new entry.
pub open spec fn add_entry(entries: Seq<(Seq<char>, u64)>, name: Seq<char>, rss: u64) -> Seq<(Seq<char>, u64)> {
    if has_name(entries, name) {
        let i = choose|i: int| 0 <= i < entries.len() && entries[i].0 == name;
        entries.update(i, (name, sat_add(entries[i].1, rss)))
    } else {
        entries.push((name, rss))
    }
}

pub open spec fn initial_scan() -> ScanModel {
    ScanModel { want_rss: false, name: Seq::empty(), entries: Seq::empty(), total: 0 }
}

/// One step of the scan: a header line starts a segment while none is open; a resident-size
/// line closes the open one, recording its size when that is positive. Other lines are skipped.
pub open spec fn scan_line(st: ScanModel, line: Seq<char>) -> ScanModel {
    if !st.want_rss {
        match header_positions(line) {
            None => st,
            Some((pp, qp)) => ScanModel {
                want_rss: true,
                name: segment_name(line.subrange(pp, pp + 4), line.subrange(qp, line.len() as int)),
                ..st
            },
        }
    } else {
        match rss_kb(line) {
            Some(kb) if kb <= MAX_KB => {
                let rss = (kb * 1024) as u64;
                if rss > 0 {
                    let key = if rss < SMALL_SEGMENT { other_name() } else { st.name };
                    ScanModel {
                        want_rss: false,
                        name: st.name,
                        entries: add_entry(st.entries, key, rss),
                        total: sat_add(st.total, rss),
                    }
                } else {
                    ScanModel { want_rss: false, ..st }
                }
            },
            _ => st,
        }
    }
}

pub open spec fn scan_lines(lines: Seq<Seq<char>>) -> ScanModel
    decreases lines.len(),
{
    if lines.len() == 0 {
        initial_scan()
    } else {
        scan_line(scan_lines(lines.drop_last()), lines.last())
    }
}

/// What the parse reports: one entry per distinct segment name, then the total.
pub open spec fn smaps_entries(lines: Seq<Seq<char>>) -> Seq<(Seq<char>, u64)> {
    let st = scan_lines(lines);
    st.entries.push((total_name(), st.total))
}

pub open spec fn pairs_view(v: Seq<(String, u64)>) -> Seq<(Seq<char>, u64)> {
    v.map_values(|p: (String, u64)| (p.0@, p.1))
}

pub open spec fn sorted_by_size_desc(v: Seq<(Seq<char>, u64)>) -> bool {
    forall|i: int, j: int| 0 <= i < j < v.len() ==> v[i].1 >= v[j].1
}


pub open spec fn opt_pos(o: Option<usize>) -> Option<int> {
    match o {
        Some(p) => Some(p as int),
        None => None,
    }
}

fn in_class_exec(c: char, k: CharClass) -> (b: bool)
    ensures
        b == in_class(c, k),
{
    match k {
        CharClass::Hex => ('0' <= c && c <= '9') || ('a' <= c && c <= 'f') || ('A' <= c && c <= 'F'),
        CharClass::Digit => '0' <= c && c <= '9',
        CharClass::Space => c == ' ',
        CharClass::Blank => c == ' ' || ('\t' <= c && c <= '\r') || c == '\u{85}' || c == '\u{a0}' || c == '\u{1680}' || ('\u{2000}' <= c && c <= '\u{200a}') || c == '\u{2028}' || c == '\u{2029}' || c == '\u{202f}' || c == '\u{205f}' || c == '\u{3000}',
        CharClass::Word => !(c == ' ' || ('\t' <= c && c <= '\r') || c == '\u{85}' || c == '\u{a0}' || c == '\u{1680}' || ('\u{2000}' <= c && c <= '\u{200a}') || c == '\u{2028}' || c == '\u{2029}' || c == '\u{202f}' || c == '\u{205f}' || c == '\u{3000}'),
    }
}

pub(crate) fn run_end(line: &str, len: usize, i: usize, k: CharClass) -> (j: usize)
    requires
        len == line@.len(),
        i <= len,
    ensures
        i <= j <= len,
        j - i == run_len(line@, i as int, k),
        forall|m: int| i <= m < j ==> in_class(line@[m], k),
        j < len ==> !in_class(line@[j as int], k),
{
    let mut j: usize = i;
    while j < len && in_class_exec(line.get_char(j), k)
        invariant
            i <= j <= len,
            len == line@.len(),
            run_len(line@, i as int, k) == (j - i) + run_len(line@, j as int, k),
            forall|m: int| i <= m < j ==> in_class(line@[m], k),
        decreases len - j,
    {
        j = j + 1;
    }
    j
}

fn field_end_at(line: &str, len: usize, i: usize, k: CharClass, sep: char) -> (r: Option<usize>)
    requires
        len == line@.len(),
        i <= len,
    ensures
        opt_pos(r) == field_end(line@, i as int, k, sep),
        r matches Some(p) ==> i < p <= len,
{
    let j = run_end(line, len, i, k);
    if j > i && j < len && line.get_char(j) == sep {
        Some(j + 1)
    } else {
        None
    }
}

fn header_at(line: &str, len: usize) -> (r: Option<(usize, usize)>)
    requires
        len == line@.len(),
    ensures
        match r {
            Some((a, b)) => header_positions(line@) == Some((a as int, b as int)) && a + 4 <= len
                && b <= len,
            None => header_positions(line@) is None,
        },
{
    let p1 = match field_end_at(line, len, 0, CharClass::Hex, '-') {
        None => return None,
        Some(p) => p,
    };
    let p2 = match field_end_at(line, len, p1, CharClass::Hex, ' ') {
        None => return None,
        Some(p) => p,
    };
    if !(len - p2 >= 5 && line.get_char(p2 + 4) == ' ') {
        return None;
    }
    let p3 = match field_end_at(line, len, p2 + 5, CharClass::Hex, ' ') {
        None => return None,
        Some(p) => p,
    };
    let p4 = match field_end_at(line, len, p3, CharClass::Hex, ':') {
        None => return None,
        Some(p) => p,
    };
    let p5 = match field_end_at(line, len, p4, CharClass::Hex, ' ') {
        None => return None,
        Some(p) => p,
    };
    let p6 = match field_end_at(line, len, p5, CharClass::Digit, ' ') {
        None => return None,
        Some(p) => p,
    };
    let p7 = run_end(line, len, p6, CharClass::Space);
    Some((p2, p7))
}

/// The value of the digits of `line` from `p` to `q`, when it is at most `limit`.
pub fn digits_value(line: &str, p: usize, q: usize, limit: u64) -> (r: Option<u64>)
    requires
        p <= q <= line@.len(),
        forall|m: int| p <= m < q ==> in_class(line@[m], CharClass::Digit),
    ensures
        match r {
            Some(v) => v == dec_value(line@.subrange(p as int, q as int)) && v <= limit,
            None => dec_value(line@.subrange(p as int, q as int)) > limit,
        },
{
    let cap: u128 = limit as u128 + 1;
    let mut acc: u128 = 0;
    let mut j: usize = p;
    while j < q
        invariant
            p <= j <= q,
            q <= line@.len(),
            forall|m: int| p <= m < q ==> in_class(line@[m], CharClass::Digit),
            cap == limit + 1,
            acc <= cap,
            acc < cap ==> acc == dec_value(line@.subrange(p as int, j as int)),
            acc == cap ==> dec_value(line@.subrange(p as int, j as int)) >= cap,
        decreases q - j,
    {
        let c = line.get_char(j);
        let d: u128 = (c as u32 - 48) as u128;
        let ghost prev = dec_value(line@.subrange(p as int, j as int));
        proof {
            let s = line@.subrange(p as int, j + 1);
            assert(s.drop_last() =~= line@.subrange(p as int, j as int));
            assert(s.last() == c);
            assert(dec_value(s) == prev * 10 + d);
        }
        if acc == cap {
            proof {
                assert(prev * 10 + d >= cap) by (nonlinear_arith)
                    requires
                        prev >= cap,
                        d >= 0,
                ;
            }
        } else if acc * 10 + d >= cap {
            acc = cap;
        } else {
            acc = acc * 10 + d;
        }
        j = j + 1;
    }
    if acc < cap {
        Some(acc as u64)
    } else {
        None
    }
}

fn rss_kb_at(line: &str, len: usize) -> (r: Option<u64>)
    requires
        len == line@.len(),
    ensures
        match rss_kb(line@) {
            Some(kb) => if kb <= MAX_KB {
                r == Some(kb as u64)
            } else {
                r is None
            },
            None => r is None,
        },
{
    if !(len >= 4 && line.get_char(0) == 'R' && line.get_char(1) == 's' && line.get_char(2) == 's'
        && line.get_char(3) == ':') {
        return None;
    }
    let p = run_end(line, len, 4, CharClass::Space);
    let q = run_end(line, len, p, CharClass::Digit);
    if p > 4 && q > p && len - q >= 3 && line.get_char(q) == ' ' && line.get_char(q + 1) == 'k'
        && line.get_char(q + 2) == 'B' {
        digits_value(line, p, q, MAX_KB)
    } else {
        None
    }
}

fn segment_name_at(line: &str, len: usize, pp: usize, qp: usize) -> (r: String)
    requires
        len == line@.len(),
        pp + 4 <= len,
        qp <= len,
    ensures
        r@ == segment_name(line@.subrange(pp as int, pp + 4), line@.subrange(qp as int, len as int)),
{
    let mut out: Vec<char> = Vec::new();
    out.push('-');
    out.push(' ');
    let ghost head = out@;
    let anonymous = qp == len || (len - qp >= 7 && line.get_char(qp) == '[' && line.get_char(qp + 1)
        == 's' && line.get_char(qp + 2) == 't' && line.get_char(qp + 3) == 'a' && line.get_char(
        qp + 4,
    ) == 'c' && line.get_char(qp + 5) == 'k' && line.get_char(qp + 6) == ':');
    let ghost path = line@.subrange(qp as int, len as int);
    proof {
        assert(anonymous == (path.len() == 0 || is_stack_marker(path)));
    }
    if anonymous {
        push_chars(&mut out, "anonymous");
    } else {
        push_range(&mut out, line, qp, len);
    }
    out.push(' ');
    out.push('(');
    push_range(&mut out, line, pp, pp + 4);
    out.push(')');
    proof {
        assert(out@ =~= segment_name(line@.subrange(pp as int, pp + 4), path));
    }
    chars_to_string(&out)
}

fn sat_add_exec(a: u64, b: u64) -> (r: u64)
    ensures
        r == sat_add(a, b),
{
    if a > u64::MAX - b {
        u64::MAX
    } else {
        a + b
    }
}

fn add_entry_exec(entries: &mut Vec<(String, u64)>, name: String, rss: u64)
    requires
        unique_names(pairs_view(old(entries)@)),
    ensures
        pairs_view(final(entries)@) == add_entry(pairs_view(old(entries)@), name@, rss),
{
    let ghost pv = pairs_view(entries@);
    let mut i: usize = 0;
    while i < entries.len()
        invariant
            i <= entries@.len(),
            entries@ == old(entries)@,
            pv == pairs_view(entries@),
            unique_names(pv),
            forall|m: int| 0 <= m < i ==> pv[m].0 != name@,
        decreases entries@.len() - i,
    {
        if entries[i].0 == name {
            let size = entries[i].1;
            let new_size = sat_add_exec(size, rss);
            entries.set(i, (name, new_size));
            proof {
                assert(pv[i as int].0 == name@);
                assert(has_name(pv, name@));
                let c = choose|c: int| 0 <= c < pv.len() && pv[c].0 == name@;
                assert(c == i);
                assert(pairs_view(entries@) =~= pv.update(i as int, (name@, sat_add(pv[i as int].1, rss))));
            }
            return;
        }
        i = i + 1;
    }
    proof {
        assert(!has_name(pv, name@));
    }
    let ghost nv = name@;
    entries.push((name, rss));
    proof {
        assert(pairs_view(entries@) =~= pv.push((nv, rss)));
    }
}


proof fn lemma_add_entry_keeps(entries: Seq<(Seq<char>, u64)>, name: Seq<char>, rss: u64)
    requires
        unique_names(entries),
        forall|i: int| 0 <= i < entries.len() ==> entries[i].0.len() > 0 && entries[i].0[0] == '-',
        name.len() > 0 && name[0] == '-',
    ensures
        unique_names(add_entry(entries, name, rss)),
        forall|i: int|
            0 <= i < add_entry(entries, name, rss).len() ==> add_entry(entries, name, rss)[i].0.len()
                > 0 && add_entry(entries, name, rss)[i].0[0] == '-',
{
    let r = add_entry(entries, name, rss);
    if has_name(entries, name) {
        let c = choose|c: int| 0 <= c < entries.len() && entries[c].0 == name;
        assert(forall|i: int| 0 <= i < r.len() ==> r[i].0 == entries[i].0);
    } else {
        assert(forall|i: int| 0 <= i < entries.len() ==> r[i] == entries[i]);
        assert(r[entries.len() as int].0 == name);
    }
}

proof fn lemma_scan_names(lines: Seq<Seq<char>>)
    ensures
        unique_names(scan_lines(lines).entries),
        forall|i: int|
            0 <= i < scan_lines(lines).entries.len() ==> scan_lines(lines).entries[i].0.len() > 0
                && scan_lines(lines).entries[i].0[0] == '-',
        scan_lines(lines).want_rss ==> scan_lines(lines).name.len() > 0 && scan_lines(lines).name[0]
            == '-',
    decreases lines.len(),
{
    reveal_strlit("- other");
    if lines.len() > 0 {
        let st = scan_lines(lines.drop_last());
        lemma_scan_names(lines.drop_last());
        let line = lines.last();
        if st.want_rss {
            match rss_kb(line) {
                Some(kb) => {
                    if kb <= MAX_KB {
                        let rss = (kb * 1024) as u64;
                        let key = if rss < SMALL_SEGMENT { other_name() } else { st.name };
                        lemma_add_entry_keeps(st.entries, key, rss);
                    }
                },
                None => {},
            }
        }
    }
}

/// Segments that share a name are reported as one entry: no name occurs twice among the
/// entries of a parse, the total included.
pub proof fn lemma_smaps_names_unique(lines: Seq<Seq<char>>)
    ensures
        unique_names(smaps_entries(lines)),
{
    reveal_strlit("resident-according-to-smaps");
    lemma_scan_names(lines);
    let e = scan_lines(lines).entries;
    let r = smaps_entries(lines);
    assert(forall|i: int| 0 <= i < e.len() ==> r[i] == e[i]);
    assert(r[e.len() as int].0[0] == 'r');
}

/// Recording a resident size under a name that already has an entry adds it to that entry:
/// the number of entries stays the same and the entry holds the sum (saturated).
pub proof fn lemma_same_name_summed(entries: Seq<(Seq<char>, u64)>, i: int, rss: u64)
    requires
        unique_names(entries),
        0 <= i < entries.len(),
    ensures
        add_entry(entries, entries[i].0, rss).len() == entries.len(),
        add_entry(entries, entries[i].0, rss)[i] == (entries[i].0, sat_add(entries[i].1, rss)),
{
    assert(has_name(entries, entries[i].0));
}

/// The name of the segment a header line starts (empty for other lines).
pub open spec fn header_name(line: Seq<char>) -> Seq<char> {
    match header_positions(line) {
        Some((pp, qp)) => segment_name(line.subrange(pp, pp + 4), line.subrange(qp, line.len() as int)),
        None => Seq::empty(),
    }
}

/// A segment header followed by its resident-size line, of at least 512 KiB, records that
/// size under the segment's name.
pub proof fn lemma_segment_recorded(lines: Seq<Seq<char>>, header: Seq<char>, rss: Seq<char>, kb: nat)
    requires
        !scan_lines(lines).want_rss,
        header_positions(header) is Some,
        rss_kb(rss) == Some(kb),
        SMALL_SEGMENT <= kb * 1024,
        kb <= MAX_KB,
    ensures
        !scan_lines(lines.push(header).push(rss)).want_rss,
        scan_lines(lines.push(header).push(rss)).entries == add_entry(
            scan_lines(lines).entries,
            header_name(header),
            (kb * 1024) as u64,
        ),
{
    let l1 = lines.push(header);
    let l2 = l1.push(rss);
    assert(l1.drop_last() =~= lines);
    assert(l2.drop_last() =~= l1);
    assert(kb * 1024 <= u64::MAX) by (nonlinear_arith)
        requires
            kb <= MAX_KB,
    ;
    let st0 = scan_lines(lines);
    let st1 = scan_line(st0, header);
    assert(scan_lines(l1) == st1);
    assert(st1.want_rss);
    assert(st1.name == header_name(header));
    assert(st1.entries == st0.entries);
    let rss_b = (kb * 1024) as u64;
    assert(rss_b > 0 && !(rss_b < SMALL_SEGMENT));
    assert(scan_lines(l2) == scan_line(st1, rss));
}

/// Two segments with the same name, each of at least 512 KiB, whose name has not been seen
/// before, end in one entry holding the sum of their resident sizes.
pub proof fn lemma_same_segment_summed(
    lines: Seq<Seq<char>>,
    h1: Seq<char>,
    r1: Seq<char>,
    kb1: nat,
    h2: Seq<char>,
    r2: Seq<char>,
    kb2: nat,
)
    requires
        !scan_lines(lines).want_rss,
        !has_name(scan_lines(lines).entries, header_name(h1)),
        header_positions(h1) is Some,
        header_positions(h2) is Some,
        header_name(h1) == header_name(h2),
        rss_kb(r1) == Some(kb1),
        rss_kb(r2) == Some(kb2),
        SMALL_SEGMENT <= kb1 * 1024,
        SMALL_SEGMENT <= kb2 * 1024,
        kb1 <= MAX_KB,
        kb2 <= MAX_KB,
    ensures
        ({
            let e = scan_lines(lines.push(h1).push(r1).push(h2).push(r2)).entries;
            &&& has_name(e, header_name(h1))
            &&& forall|i: int|
                0 <= i < e.len() && e[i].0 == header_name(h1) ==> e[i].1 == sat_add(
                    (kb1 * 1024) as u64,
                    (kb2 * 1024) as u64,
                )
        }),
{
    let name = header_name(h1);
    let e0 = scan_lines(lines).entries;
    let l2 = lines.push(h1).push(r1);
    lemma_segment_recorded(lines, h1, r1, kb1);
    lemma_segment_recorded(l2, h2, r2, kb2);
    let e1 = scan_lines(l2).entries;
    assert(e1 == e0.push((name, (kb1 * 1024) as u64)));
    lemma_scan_names(l2);
    let k = e0.len() as int;
    assert(e1[k].0 == name);
    lemma_same_name_summed(e1, k, (kb2 * 1024) as u64);
    let e2 = scan_lines(l2.push(h2).push(r2)).entries;
    assert(e2 == add_entry(e1, e1[k].0, (kb2 * 1024) as u64));
    lemma_scan_names(l2.push(h2).push(r2));
    assert forall|i: int| 0 <= i < e2.len() && e2[i].0 == name implies e2[i].1 == sat_add(
        (kb1 * 1024) as u64,
        (kb2 * 1024) as u64,
    ) by {
        assert(e2[k].0 == name);
    }
}

/// Sorts entries by size, largest first.
fn sort_by_size_desc(v: Vec<(String, u64)>) -> (r: Vec<(String, u64)>)
    ensures
        sorted_by_size_desc(pairs_view(r@)),
        pairs_view(r@).to_multiset() == pairs_view(v@).to_multiset(),
{
    broadcast use group_to_multiset_ensures;

    let ghost all = pairs_view(v@).to_multiset();
    let mut rest = v;
    let mut out: Vec<(String, u64)> = Vec::new();
    proof {
        assert(pairs_view(out@) =~= Seq::empty());
        assert(pairs_view(out@).to_multiset() =~= Multiset::empty());
        assert(pairs_view(out@).to_multiset().add(pairs_view(rest@).to_multiset()) =~= all);
    }
    while rest.len() > 0
        invariant
            sorted_by_size_desc(pairs_view(out@)),
            pairs_view(out@).to_multiset().add(pairs_view(rest@).to_multiset()) == all,
        decreases rest@.len(),
    {
        let ghost rest_before = pairs_view(rest@);
        let ghost out_before = pairs_view(out@);
        let e = rest.pop().unwrap();
        let ghost pe = (e.0@, e.1);
        proof {
            assert(rest_before =~= pairs_view(rest@).push(pe));
        }
        let mut pos: usize = 0;
        while pos < out.len() && out[pos].1 >= e.1
            invariant
                pos <= out@.len(),
                forall|m: int| 0 <= m < pos ==> out@[m].1 >= e.1,
            decreases out@.len() - pos,
        {
            pos = pos + 1;
        }
        out.insert(pos, e);
        proof {
            assert(pairs_view(out@) =~= out_before.insert(pos as int, pe));
            to_multiset_insert(out_before, pos as int, pe);
            let rm = pairs_view(rest@).to_multiset();
            assert(pairs_view(out@).to_multiset() == out_before.to_multiset().insert(pe));
            to_multiset_build(pairs_view(rest@), pe);
            assert(rest_before.to_multiset() == rm.insert(pe));
            assert(out_before.to_multiset().insert(pe).add(rm) =~= out_before.to_multiset().add(rm.insert(pe)));
            assert(pairs_view(out@).to_multiset().add(pairs_view(rest@).to_multiset()) =~= all);
            let o = pairs_view(out@);
            assert forall|i: int, j: int| 0 <= i < j < o.len() implies o[i].1 >= o[j].1 by {
                if j < pos {
                } else if j == pos {
                } else if i < pos {
                    assert(o[j] == out_before[j - 1]);
                    if pos < out_before.len() {
                        assert(out_before[pos as int].1 < e.1);
                        assert(out_before[pos as int].1 >= out_before[j - 1].1);
                    }
                } else if i == pos {
                    assert(out_before[pos as int].1 < e.1);
                    assert(o[j] == out_before[j - 1]);
                } else {
                    assert(o[i] == out_before[i - 1]);
                    assert(o[j] == out_before[j - 1]);
                }
            }
        }
    }
    proof {
        assert(pairs_view(rest@) =~= Seq::empty());
        assert(pairs_view(rest@).to_multiset() =~= Multiset::empty());
        assert(pairs_view(out@).to_multiset() =~= all);
    }
    out
}

/// Parses the lines of a memory map with resident sizes into named resident sizes: one entry
/// per distinct segment name (segments under 512 KiB merged into `- other`), plus a total entry
/// `resident-according-to-smaps`, sorted by size, largest first. Unrecognised lines are skipped.
pub fn get_resident_segments(lines: &Vec<String>) -> (r: Vec<(String, u64)>)
    ensures
        sorted_by_size_desc(pairs_view(r@)),
        pairs_view(r@).to_multiset() == smaps_entries(lines_view(lines@)).to_multiset(),
{
    let mut want_rss = false;
    let mut name = String::new();
    let mut entries: Vec<(String, u64)> = Vec::new();
    let mut total: u64 = 0;
    let ghost lv = lines_view(lines@);
    proof {
        assert(lv.take(0) =~= Seq::empty());
        assert(pairs_view(entries@) =~= Seq::empty());
    }
    let mut i: usize = 0;
    while i < lines.len()
        invariant
            i <= lines@.len(),
            lv == lines_view(lines@),
            scan_lines(lv.take(i as int)) == (ScanModel {
                want_rss,
                name: name@,
                entries: pairs_view(entries@),
                total,
            }),
        decreases lines@.len() - i,
    {
        proof {
            lemma_scan_names(lv.take(i as int));
            assert(lv.take(i + 1).drop_last() =~= lv.take(i as int));
            assert(lv.take(i + 1).last() == lines@[i as int]@);
        }
        let line = lines[i].as_str();
        let len = line.unicode_len();
        if !want_rss {
            match header_at(line, len) {
                None => {},
                Some((pp, qp)) => {
                    name = segment_name_at(line, len, pp, qp);
                    want_rss = true;
                },
            }
        } else {
            match rss_kb_at(line, len) {
                None => {},
                Some(kb) => {
                    let rss: u64 = kb * 1024;
                    if rss > 0 {
                        let key = if rss < SMALL_SEGMENT {
                            "- other".to_owned()
                        } else {
                            name.clone()
                        };
                        add_entry_exec(&mut entries, key, rss);
                        total = sat_add_exec(total, rss);
                    }
                    want_rss = false;
                },
            }
        }
        i = i + 1;
    }
    proof {
        assert(lv.take(lines@.len() as int) =~= lv);
    }
    entries.push(("resident-according-to-smaps".to_owned(), total));
    proof {
        assert(pairs_view(entries@) =~= smaps_entries(lv));
    }
    sort_by_size_desc(entries)
}

} // verus!
