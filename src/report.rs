//! Memory reports, the channel that carries them, the reporter interface, and the textual
//! rendering of one collection cycle.

use vstd::prelude::*;
use vstd::string::*;
use crate::chan::send_on;
use crate::text::{chars_to_string, push_chars, push_decimal, decimal, digit_char};

verus! {

/// One named measurement.
pub struct MemoryReport {
    /// The identifying name for this report.
    pub name: String,
    /// The size, in bytes.
    pub size: u64,
}

/// A channel through which memory reports can be sent.
pub struct MemoryReportsChan(pub std::sync::mpsc::Sender<Vec<MemoryReport>>);

impl MemoryReportsChan {
    /// Hands a batch of reports to whoever waits on the other end. Returns `false` when
    /// nobody does any more; the batch is then dropped.
    pub fn send(&self, report: Vec<MemoryReport>) -> bool {
        send_on(&self.0, report)
    }
}

/// A memory reporter is capable of measuring some data structure of interest. It is usually
/// a small value giving access to a large structure, e.g. a channel into the event queue that
/// owns it.
pub trait MemoryReporter {
    /// Collect one or more memory reports and send them, as one batch, through `reports_chan`.
    /// Returns true on success, and false on failure; on failure no batch will arrive.
    fn collect_reports(&self, reports_chan: MemoryReportsChan) -> bool;
}

/// Bytes in a mebibyte.
pub const MEBI: u64 = 1048576;

/// The width the size column is right-aligned to.
pub const SIZE_WIDTH: usize = 12;

/// `size` in mebibytes, in hundredths, rounded to the nearest hundredth with ties to even.
pub open spec fn hundredths(size: nat) -> nat {
    let q = (size * 100) / (MEBI as nat);
    let r = (size * 100) % (MEBI as nat);
    if r * 2 > MEBI || (r * 2 == MEBI && q % 2 == 1) {
        q + 1
    } else {
        q
    }
}

/// `size` in mebibytes with two decimals, e.g. `2.00` for two mebibytes.
pub open spec fn mib_text(size: nat) -> Seq<char> {
    let h = hundredths(size);
    decimal(h / 100) + seq!['.', digit_char((h % 100) / 10), digit_char(h % 10)]
}

/// `s` right-aligned in a field of `w` characters (never cut).
pub open spec fn pad_left(s: Seq<char>, w: nat) -> Seq<char> {
    if s.len() < w {
        Seq::new((w - s.len()) as nat, |i: int| ' ') + s
    } else {
        s
    }
}

/// The line a report is rendered as: its size in mebibytes, then its name.
pub open spec fn report_line(name: Seq<char>, size: nat) -> Seq<char> {
    pad_left(mib_text(size), SIZE_WIDTH as nat) + seq![':', ' '] + name
}

/// The line that heads every rendered cycle.
pub open spec fn header_line() -> Seq<char> {
    "_size (MiB)_: _category_"@
}

/// The lines of one reporter's outcome: one per report when a batch came, none otherwise.
pub open spec fn outcome_lines(o: Option<Vec<MemoryReport>>) -> Seq<Seq<char>> {
    match o {
        None => Seq::empty(),
        Some(v) => v@.map_values(|m: MemoryReport| report_line(m.name@, m.size as nat)),
    }
}

/// The report lines of several reporters' outcomes, in the order of the outcomes.
pub open spec fn outcomes_lines(os: Seq<Option<Vec<MemoryReport>>>) -> Seq<Seq<char>>
    decreases os.len(),
{
    if os.len() == 0 {
        Seq::empty()
    } else {
        outcomes_lines(os.drop_last()) + outcome_lines(os.last())
    }
}

/// A whole rendered cycle: the header, the report lines, and a blank line.
pub open spec fn cycle_lines(os: Seq<Option<Vec<MemoryReport>>>) -> Seq<Seq<char>> {
    seq![header_line()] + outcomes_lines(os) + seq![Seq::<char>::empty()]
}

/// The characters held by a sequence of strings.
pub open spec fn lines_view(v: Seq<String>) -> Seq<Seq<char>> {
    v.map_values(|s: String| s@)
}

fn push_mib(out: &mut Vec<char>, size: u64)
    ensures
        final(out)@ == old(out)@ + mib_text(size as nat),
{
    let scaled: u128 = size as u128 * 100;
    let mebi: u128 = MEBI as u128;
    let q: u128 = scaled / mebi;
    let r: u128 = scaled % mebi;
    let h: u128 = if r * 2 > mebi || (r * 2 == mebi && q % 2 == 1) {
        q + 1
    } else {
        q
    };
    assert(h == hundredths(size as nat));
    assert(q <= 0xffff_ffff_ffff_ffff_u128 * 100 / 1048576) by (nonlinear_arith)
        requires
            q == scaled / mebi,
            mebi == 1048576,
            scaled == size as u128 * 100,
            size <= 0xffff_ffff_ffff_ffff_u64,
    ;
    let h64: u64 = h as u64;
    push_decimal(out, h64 / 100);
    out.push('.');
    let tens = crate::text::digit((h64 % 100) / 10);
    out.push(tens);
    let ones = crate::text::digit(h64 % 10);
    out.push(ones);
    proof {
        assert(((h64 % 100) / 10) as nat == ((h as nat) % 100) / 10);
        assert(out@ =~= old(out)@ + mib_text(size as nat));
    }
}

/// Renders one report as a line of text: its size in mebibytes with two decimals,
/// right-aligned in twelve columns, then `: ` and its name.
pub fn format_report(name: &str, size: u64) -> (r: String)
    ensures
        r@ == report_line(name@, size as nat),
{
    let mut num: Vec<char> = Vec::new();
    push_mib(&mut num, size);
    let mut out: Vec<char> = Vec::new();
    let len = num.len();
    if len < SIZE_WIDTH {
        let mut k: usize = 0;
        while k < SIZE_WIDTH - len
            invariant
                k <= SIZE_WIDTH - len,
                out@ == Seq::new(k as nat, |i: int| ' '),
            decreases SIZE_WIDTH - len - k,
        {
            out.push(' ');
            proof {
                assert(out@ =~= Seq::new((k + 1) as nat, |i: int| ' '));
            }
            k = k + 1;
        }
    }
    let ghost pad = out@;
    let mut i: usize = 0;
    while i < len
        invariant
            len == num@.len(),
            i <= len,
            out@ == pad + num@.subrange(0, i as int),
        decreases len - i,
    {
        out.push(num[i]);
        proof {
            assert(num@.subrange(0, i + 1) =~= num@.subrange(0, i as int).push(num@[i as int]));
        }
        i = i + 1;
    }
    proof {
        assert(num@.subrange(0, len as int) =~= num@);
        assert(pad + num@ =~= pad_left(mib_text(size as nat), SIZE_WIDTH as nat));
    }
    out.push(':');
    out.push(' ');
    push_chars(&mut out, name);
    proof {
        assert(out@ =~= report_line(name@, size as nat));
    }
    chars_to_string(&out)
}

/// Renders one collection cycle from the outcome of each reporter, in order: `None` for a
/// reporter that failed or sent nothing, else the batch it sent. The result is the header
/// line, one line per report of each batch, and a blank line.
pub fn render_cycle(outcomes: &Vec<Option<Vec<MemoryReport>>>) -> (r: Vec<String>)
    ensures
        lines_view(r@) == cycle_lines(outcomes@),
{
    let mut lines: Vec<String> = Vec::new();
    lines.push("_size (MiB)_: _category_".to_owned());
    let mut i: usize = 0;
    while i < outcomes.len()
        invariant
            i <= outcomes@.len(),
            lines_view(lines@) == seq![header_line()] + outcomes_lines(outcomes@.take(i as int)),
        decreases outcomes@.len() - i,
    {
        let ghost before = lines_view(lines@);
        match &outcomes[i] {
            None => {},
            Some(batch) => {
                let mut j: usize = 0;
                while j < batch.len()
                    invariant
                        j <= batch@.len(),
                        lines_view(lines@) == before + outcome_lines(Some(*batch)).take(j as int),
                    decreases batch@.len() - j,
                {
                    let line = format_report(batch[j].name.as_str(), batch[j].size);
                    let ghost prev = lines@;
                    lines.push(line);
                    proof {
                        assert(outcome_lines(Some(*batch))[j as int] == line@);
                        assert(lines_view(lines@) =~= lines_view(prev).push(line@));
                        assert(outcome_lines(Some(*batch)).take(j + 1) =~= outcome_lines(Some(*batch)).take(j as int).push(line@));
                        assert(lines_view(lines@) =~= before + outcome_lines(Some(*batch)).take(j + 1));
                    }
                    j = j + 1;
                }
                proof {
                    assert(outcome_lines(Some(*batch)).take(j as int) =~= outcome_lines(Some(*batch)));
                }
            },
        }
        proof {
            assert(outcomes@.take(i + 1).drop_last() =~= outcomes@.take(i as int));
            assert(lines_view(lines@) =~= before + outcome_lines(outcomes@[i as int]));
        }
        i = i + 1;
    }
    lines.push(String::new());
    proof {
        assert(outcomes@.take(outcomes@.len() as int) =~= outcomes@);
        assert(lines_view(lines@) =~= cycle_lines(outcomes@));
    }
    lines
}

proof fn lemma_outcomes_lines_append(a: Seq<Option<Vec<MemoryReport>>>, b: Seq<Option<Vec<MemoryReport>>>)
    ensures
        outcomes_lines(a + b) == outcomes_lines(a) + outcomes_lines(b),
    decreases b.len(),
{
    if b.len() == 0 {
        assert(a + b =~= a);
        assert(outcomes_lines(a) + outcomes_lines(b) =~= outcomes_lines(a));
    } else {
        lemma_outcomes_lines_append(a, b.drop_last());
        assert((a + b).drop_last() =~= a + b.drop_last());
        assert((a + b).last() == b.last());
        assert(outcomes_lines(a + b) =~= outcomes_lines(a) + outcomes_lines(b));
    }
}

/// A reporter whose collection failed contributes no line, and the cycle renders the other
/// reporters' reports exactly as if it were not registered.
pub proof fn lemma_failed_reporter_silent(outs: Seq<Option<Vec<MemoryReport>>>, i: int)
    requires
        0 <= i < outs.len(),
        outs[i] is None,
    ensures
        outcome_lines(outs[i]) == Seq::<Seq<char>>::empty(),
        cycle_lines(outs) == cycle_lines(outs.remove(i)),
{
    let a = outs.take(i);
    let b = outs.skip(i + 1);
    let one = seq![outs[i]];
    assert(outs =~= a + one + b);
    assert(outs.remove(i) =~= a + b);
    lemma_outcomes_lines_append(a + one, b);
    lemma_outcomes_lines_append(a, one);
    lemma_outcomes_lines_append(a, b);
    assert(one.drop_last() =~= Seq::<Option<Vec<MemoryReport>>>::empty());
    assert(outcomes_lines(one.drop_last()) =~= Seq::<Seq<char>>::empty());
    assert(one.last() == outs[i]);
    assert(outcome_lines(one.last()) =~= Seq::<Seq<char>>::empty());
    assert(outcomes_lines(one) =~= Seq::<Seq<char>>::empty());
    assert(outcomes_lines(a) + outcomes_lines(one) =~= outcomes_lines(a));
}

} // verus!
