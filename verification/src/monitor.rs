//! Remote resource monitor. A shell loop on the remote host prints, every
//! two seconds, "<cpu_total> <cpu_idle>", then "<mem_total_kb>
//! <mem_avail_kb>", then the marker `__T__`. This module frames that
//! stream into samples; CPU load is the idle share of the change in the
//! counters between two samples.

use vstd::prelude::*;
use crate::text::{
    chars_of, is_space, lemma_pieces_step, lossy_text, parse_unsigned, parse_unsigned_range, pieces,
    string_of, trim, trim_bounds, trimmed, Separator,
};

verus! {

/// What a one-shot probe reports about the remote system.
pub struct SystemInfo {
    pub uname: String,
    pub os_release: String,
}

/// The probe result: both command outputs, trimmed.
pub fn system_info(uname_output: &str, os_release_output: &str) -> (info: SystemInfo)
    ensures
        info.uname@ == trim(uname_output@),
        info.os_release@ == trim(os_release_output@),
{
    SystemInfo { uname: trimmed(uname_output), os_release: trimmed(os_release_output) }
}

/// One sample. The CPU busy share is `1 - cpu_idle_delta / cpu_total_delta`
/// (0 when `cpu_total_delta` is 0, as it is for the first sample).
#[derive(Clone, Copy, PartialEq, Eq, Structural)]
pub struct RawSample {
    pub cpu_idle_delta: u64,
    pub cpu_total_delta: u64,
    pub mem_used_kb: u64,
    pub mem_total_kb: u64,
}

/// The values of the whitespace-separated pieces that read as `u64`
/// numbers, in order; the others are skipped.
pub open spec fn numbers_in(ps: Seq<Seq<char>>) -> Seq<int>
    decreases ps.len(),
{
    if ps.len() == 0 {
        Seq::empty()
    } else {
        match parse_unsigned(ps.last(), u64::MAX as int) {
            Some(x) => numbers_in(ps.drop_last()).push(x),
            None => numbers_in(ps.drop_last()),
        }
    }
}

/// The numbers on a line.
pub open spec fn line_numbers(line: Seq<char>) -> Seq<int> {
    numbers_in(pieces(line, Separator::Whitespace))
}

pub open spec fn sat_sub(a: u64, b: u64) -> u64 {
    if a >= b {
        (a - b) as u64
    } else {
        0
    }
}

/// A sample from the CPU and memory lines, given the previous CPU counters;
/// `None` unless each line holds exactly two numbers.
pub open spec fn sample_of(cpu: Seq<char>, mem: Seq<char>, prev: Option<(u64, u64)>) -> Option<
    RawSample,
> {
    let c = line_numbers(cpu);
    let m = line_numbers(mem);
    if c.len() != 2 || m.len() != 2 {
        None
    } else {
        let (total, idle) = (c[0] as u64, c[1] as u64);
        let (dt, di) = match prev {
            Some((pt, pi)) => (sat_sub(total, pt), sat_sub(idle, pi)),
            None => (0u64, 0u64),
        };
        Some(
            RawSample {
                cpu_idle_delta: if dt > 0 {
                    di
                } else {
                    0
                },
                cpu_total_delta: dt,
                mem_used_kb: sat_sub(m[0] as u64, m[1] as u64),
                mem_total_kb: m[0] as u64,
            },
        )
    }
}

/// The CPU counters after reading the two lines: the new ones when the
/// lines parse, the old ones otherwise.
pub open spec fn prev_after(cpu: Seq<char>, mem: Seq<char>, prev: Option<(u64, u64)>) -> Option<
    (u64, u64),
> {
    let c = line_numbers(cpu);
    if sample_of(cpu, mem, prev) is Some {
        Some((c[0] as u64, c[1] as u64))
    } else {
        prev
    }
}

/// The numbers on a line, in order.
fn numbers_of(line: &str) -> (r: Vec<u64>)
    ensures
        r@.len() == line_numbers(line@).len(),
        forall|i: int| 0 <= i < r@.len() ==> r@[i] as int == #[trigger] line_numbers(line@)[i],
{
    let v = chars_of(line);
    let n = v.len();
    let mut out: Vec<u64> = Vec::new();
    let mut start: usize = 0;
    let mut i: usize = 0;
    assert(v@.take(0) =~= Seq::<char>::empty());
    while i < n
        invariant
            n == v@.len(),
            start <= i <= n,
            pieces(v@.take(i as int), Separator::Whitespace).len() >= 1,
            pieces(v@.take(i as int), Separator::Whitespace).last() == v@.subrange(
                start as int,
                i as int,
            ),
            out@.len() == numbers_in(
                pieces(v@.take(i as int), Separator::Whitespace).drop_last(),
            ).len(),
            forall|k: int|
                0 <= k < out@.len() ==> out@[k] as int == #[trigger] numbers_in(
                    pieces(v@.take(i as int), Separator::Whitespace).drop_last(),
                )[k],
        decreases n - i,
    {
        let ghost p = pieces(v@.take(i as int), Separator::Whitespace);
        proof {
            lemma_pieces_step(v@, i as int, Separator::Whitespace);
        }
        if is_space(v[i]) {
            let x = parse_unsigned_range(&v, start, i, u64::MAX);
            proof {
                let q = p.push(Seq::<char>::empty());
                assert(q.drop_last() =~= p);
                assert(p =~= p.drop_last().push(p.last()));
            }
            match x {
                Some(val) => {
                    out.push(val);
                },
                None => {},
            }
            start = i + 1;
            assert(v@.subrange(start as int, i + 1) =~= Seq::<char>::empty());
        } else {
            proof {
                let q = p.update(p.len() - 1, p.last().push(v@[i as int]));
                assert(q.drop_last() =~= p.drop_last());
            }
            assert(v@.subrange(start as int, i + 1) =~= v@.subrange(start as int, i as int).push(
                v@[i as int],
            ));
        }
        i = i + 1;
    }
    assert(v@.take(n as int) =~= v@);
    let x = parse_unsigned_range(&v, start, n, u64::MAX);
    proof {
        let p = pieces(v@, Separator::Whitespace);
        assert(p =~= p.drop_last().push(p.last()));
    }
    match x {
        Some(val) => {
            out.push(val);
        },
        None => {},
    }
    out
}

/// Turns the CPU line ("<total> <idle>") and memory line ("<total_kb>
/// <avail_kb>") into a sample, updating the previous CPU counters. The first
/// sample has no previous counters and reports a zero load.
pub fn parse_sample(cpu_line: &str, mem_line: &str, prev: &mut Option<(u64, u64)>) -> (r: Option<
    RawSample,
>)
    ensures
        r == sample_of(cpu_line@, mem_line@, *old(prev)),
        *final(prev) == prev_after(cpu_line@, mem_line@, *old(prev)),
{
    let cpu = numbers_of(cpu_line);
    let mem = numbers_of(mem_line);
    if cpu.len() != 2 || mem.len() != 2 {
        return None;
    }
    let total = cpu[0];
    let idle = cpu[1];
    let (dt, di) = match *prev {
        Some((pt, pi)) => (total.saturating_sub(pt), idle.saturating_sub(pi)),
        None => (0u64, 0u64),
    };
    *prev = Some((total, idle));
    Some(
        RawSample {
            cpu_idle_delta: if dt > 0 {
                di
            } else {
                0
            },
            cpu_total_delta: dt,
            mem_used_kb: mem[0].saturating_sub(mem[1]),
            mem_total_kb: mem[0],
        },
    )
}

/// The end-of-sample marker line.
pub open spec fn is_marker(t: Seq<char>) -> bool {
    t == seq!['_', '_', 'T', '_', '_']
}

/// Framing state between lines: the lines seen since the last marker and
/// the previous CPU counters.
pub struct FrameState {
    pub lines: Seq<Seq<char>>,
    pub prev: Option<(u64, u64)>,
}

/// One output line through the framer: at the marker, the first two lines
/// since the last marker make a sample (if they parse) and are dropped;
/// other non-blank lines are kept, trimmed.
pub open spec fn frame_line(st: FrameState, line: Seq<char>) -> (FrameState, Option<RawSample>) {
    let t = trim(line);
    if is_marker(t) {
        if st.lines.len() >= 2 {
            (
                FrameState {
                    lines: Seq::empty(),
                    prev: prev_after(st.lines[0], st.lines[1], st.prev),
                },
                sample_of(st.lines[0], st.lines[1], st.prev),
            )
        } else {
            (FrameState { lines: Seq::empty(), prev: st.prev }, None)
        }
    } else if t.len() > 0 {
        (FrameState { lines: st.lines.push(t), prev: st.prev }, None)
    } else {
        (st, None)
    }
}

/// At a marker that completes a sample whose two lines each hold two
/// numbers, the framer's previous CPU counters become that sample's
/// counters, whatever they were before; the sample's CPU deltas are taken
/// against the counters held before; the kept lines are dropped.
pub proof fn lemma_marker_updates_counters(st: FrameState, marker: Seq<char>)
    requires
        is_marker(trim(marker)),
        st.lines.len() >= 2,
        line_numbers(st.lines[0]).len() == 2,
        line_numbers(st.lines[1]).len() == 2,
    ensures
        ({
            let c = line_numbers(st.lines[0]);
            let (s1, o) = frame_line(st, marker);
            &&& s1.prev == Some((c[0] as u64, c[1] as u64))
            &&& s1.lines.len() == 0
            &&& o is Some
            &&& o.unwrap().cpu_total_delta == match st.prev {
                Some((pt, pi)) => sat_sub(c[0] as u64, pt),
                None => 0u64,
            }
        }),
{
}

/// Consecutive samples: after one sample is completed, the next one's CPU
/// deltas are measured from the first sample's counters (not from any
/// earlier ones), so each interval is reported on its own.
pub proof fn lemma_consecutive_samples(
    st: FrameState,
    m1: Seq<char>,
    cpu: Seq<char>,
    mem: Seq<char>,
    m2: Seq<char>,
)
    requires
        is_marker(trim(m1)),
        is_marker(trim(m2)),
        st.lines.len() >= 2,
        line_numbers(st.lines[0]).len() == 2,
        line_numbers(st.lines[1]).len() == 2,
        trim(cpu) == cpu,
        trim(mem) == mem,
        cpu.len() > 0 && !is_marker(cpu),
        mem.len() > 0 && !is_marker(mem),
        line_numbers(cpu).len() == 2,
        line_numbers(mem).len() == 2,
    ensures
        ({
            let a = line_numbers(st.lines[0]);
            let b = line_numbers(cpu);
            let (s1, _o1) = frame_line(st, m1);
            let (s2, _o2) = frame_line(s1, cpu);
            let (s3, _o3) = frame_line(s2, mem);
            let (s4, o4) = frame_line(s3, m2);
            &&& o4 == sample_of(cpu, mem, Some((a[0] as u64, a[1] as u64)))
            &&& o4 is Some
            &&& o4.unwrap().cpu_total_delta == sat_sub(b[0] as u64, a[0] as u64)
            &&& s4.prev == Some((b[0] as u64, b[1] as u64))
        }),
{
    lemma_marker_updates_counters(st, m1);
    let (s1, _o1) = frame_line(st, m1);
    let (s2, _o2) = frame_line(s1, cpu);
    let (s3, _o3) = frame_line(s2, mem);
    assert(s2.lines =~= seq![cpu]);
    assert(s3.lines =~= seq![cpu, mem]);
    lemma_marker_updates_counters(s3, m2);
}

/// Complete lines through the framer, in order, with the samples produced.
pub open spec fn frame_lines(st: FrameState, ls: Seq<Seq<char>>) -> (FrameState, Seq<RawSample>)
    decreases ls.len(),
{
    if ls.len() == 0 {
        (st, Seq::empty())
    } else {
        let (s1, out1) = frame_lines(st, ls.drop_last());
        let (s2, o) = frame_line(s1, ls.last());
        (
            s2,
            match o {
                Some(x) => out1.push(x),
                None => out1,
            },
        )
    }
}

/// Framing a run of lines in two parts gives the same state and samples as
/// framing it in one.
pub proof fn lemma_frame_lines_concat(st: FrameState, a: Seq<Seq<char>>, b: Seq<Seq<char>>)
    ensures
        ({
            let (s1, o1) = frame_lines(st, a);
            let (s2, o2) = frame_lines(s1, b);
            frame_lines(st, a + b) == (s2, o1 + o2)
        }),
    decreases b.len(),
{
    if b.len() == 0 {
        assert(a + b =~= a);
        let (s1, o1) = frame_lines(st, a);
        assert(o1 + Seq::<RawSample>::empty() =~= o1);
    } else {
        let bi = b.drop_last();
        lemma_frame_lines_concat(st, a, bi);
        assert((a + b).drop_last() =~= a + bi);
        assert((a + b).last() == b.last());
        let (s1, o1) = frame_lines(st, a);
        let (s2, o2) = frame_lines(s1, bi);
        let (s3, o) = frame_line(s2, b.last());
        match o {
            Some(x) => {
                assert((o1 + o2).push(x) =~= o1 + o2.push(x));
            },
            None => {},
        }
    }
}

/// How the output is cut into chunks does not matter: feeding `a` then `b`
/// leaves the same unfinished line and framing state, and yields the same
/// samples in the same order, as feeding `a + b` at once.
pub proof fn lemma_monitor_chunks(pending: Seq<char>, st: FrameState, a: Seq<char>, b: Seq<char>)
    ensures
        ({
            let ps1 = pieces(pending + a, Separator::Newline);
            let (s1, o1) = frame_lines(st, ps1.drop_last());
            let ps2 = pieces(ps1.last() + b, Separator::Newline);
            let (s2, o2) = frame_lines(s1, ps2.drop_last());
            let ps = pieces(pending + (a + b), Separator::Newline);
            &&& ps.last() == ps2.last()
            &&& frame_lines(st, ps.drop_last()) == (s2, o1 + o2)
        }),
{
    let x = pending + a;
    assert(pending + (a + b) =~= x + b);
    crate::text::lemma_pieces_concat(x, b, Separator::Newline);
    let ps1 = pieces(x, Separator::Newline);
    let ps2 = pieces(ps1.last() + b, Separator::Newline);
    crate::text::lemma_pieces_nonempty(ps1.last() + b, Separator::Newline);
    assert((ps1.drop_last() + ps2).drop_last() =~= ps1.drop_last() + ps2.drop_last());
    assert((ps1.drop_last() + ps2).last() == ps2.last());
    lemma_frame_lines_concat(st, ps1.drop_last(), ps2.drop_last());
}

/// The monitor's output stream, framed into samples as it arrives in
/// arbitrary chunks.
pub struct MonitorStream {
    pending: Vec<char>,
    lines: Vec<String>,
    prev: Option<(u64, u64)>,
}

/// What the stream holds: the text of the unfinished line, and the framing
/// state.
pub struct MonitorView {
    pub pending: Seq<char>,
    pub frame: FrameState,
}

impl View for MonitorStream {
    type V = MonitorView;

    closed spec fn view(&self) -> MonitorView {
        MonitorView {
            pending: self.pending@,
            frame: FrameState { lines: self.lines@.map_values(|s: String| s@), prev: self.prev },
        }
    }
}

impl MonitorStream {
    /// No output seen yet.
    pub fn new() -> (m: Self)
        ensures
            m@.pending == Seq::<char>::empty(),
            m@.frame.lines == Seq::<Seq<char>>::empty(),
            m@.frame.prev is None,
    {
        let m = MonitorStream { pending: Vec::new(), lines: Vec::new(), prev: None };
        assert(m.lines@.map_values(|s: String| s@) =~= Seq::<Seq<char>>::empty());
        m
    }

    fn take_line(&mut self, line: &Vec<char>, lo: usize, hi: usize) -> (r: Option<RawSample>)
        requires
            lo <= hi <= line@.len(),
        ensures
            final(self)@.pending == old(self)@.pending,
            frame_line(old(self)@.frame, line@.subrange(lo as int, hi as int)) == (
            final(self)@.frame, r),
    {
        let (a, b) = trim_bounds(line, lo, hi);
        let ghost t = line@.subrange(a as int, b as int);
        let ghost lv = self.lines@.map_values(|s: String| s@);
        let marker = b - a == 5 && line[a] == '_' && line[a + 1] == '_' && line[a + 2] == 'T'
            && line[a + 3] == '_' && line[a + 4] == '_';
        assert(marker == is_marker(t)) by {
            if b - a == 5 {
                assert(t[0] == line@[a as int]);
                assert(t[1] == line@[a + 1]);
                assert(t[2] == line@[a + 2]);
                assert(t[3] == line@[a + 3]);
                assert(t[4] == line@[a + 4]);
                if marker {
                    assert(t =~= seq!['_', '_', 'T', '_', '_']);
                }
            }
        }
        if marker {
            let mut r: Option<RawSample> = None;
            if self.lines.len() >= 2 {
                let mut p = self.prev;
                r = parse_sample(self.lines[0].as_str(), self.lines[1].as_str(), &mut p);
                self.prev = p;
            }
            self.lines.clear();
            assert(self.lines@.map_values(|s: String| s@) =~= Seq::<Seq<char>>::empty());
            r
        } else if a < b {
            let s = string_of(line, a, b);
            self.lines.push(s);
            assert(self.lines@.map_values(|s: String| s@) =~= lv.push(t));
            None
        } else {
            None
        }
    }

    /// Takes the next chunk of output text; returns the samples completed
    /// by it, in order.
    pub fn feed_text(&mut self, text: &str) -> (samples: Vec<RawSample>)
        ensures
            ({
                let all = old(self)@.pending + text@;
                let ps = pieces(all, Separator::Newline);
                &&& final(self)@.pending == ps.last()
                &&& frame_lines(old(self)@.frame, ps.drop_last()) == (final(self)@.frame, samples@)
            }),
    {
        let ghost st0 = self@.frame;
        let mut v = chars_of(text);
        let mut all: Vec<char> = Vec::new();
        all.append(&mut self.pending);
        let ghost p0 = old(self)@.pending;
        all.append(&mut v);
        assert(all@ == p0 + text@);
        let n = all.len();
        let mut out: Vec<RawSample> = Vec::new();
        let mut start: usize = 0;
        let mut i: usize = 0;
        assert(all@.take(0) =~= Seq::<char>::empty());
        assert(frame_lines(st0, Seq::<Seq<char>>::empty()) == (st0, Seq::<RawSample>::empty()));
        assert(pieces(all@.take(0), Separator::Newline).drop_last() =~= Seq::<Seq<char>>::empty());
        while i < n
            invariant
                n == all@.len(),
                start <= i <= n,
                pieces(all@.take(i as int), Separator::Newline).len() >= 1,
                pieces(all@.take(i as int), Separator::Newline).last() == all@.subrange(
                    start as int,
                    i as int,
                ),
                frame_lines(st0, pieces(all@.take(i as int), Separator::Newline).drop_last()) == (
                self@.frame, out@),
            decreases n - i,
        {
            let ghost p = pieces(all@.take(i as int), Separator::Newline);
            proof {
                lemma_pieces_step(all@, i as int, Separator::Newline);
            }
            if all[i] == '\n' {
                let r = self.take_line(&all, start, i);
                match r {
                    Some(x) => {
                        out.push(x);
                    },
                    None => {},
                }
                proof {
                    let q = p.push(Seq::<char>::empty());
                    assert(q.drop_last() =~= p);
                    assert(p =~= p.drop_last().push(p.last()));
                }
                start = i + 1;
                assert(all@.subrange(start as int, i + 1) =~= Seq::<char>::empty());
            } else {
                proof {
                    let q = p.update(p.len() - 1, p.last().push(all@[i as int]));
                    assert(q.drop_last() =~= p.drop_last());
                }
                assert(all@.subrange(start as int, i + 1) =~= all@.subrange(start as int, i as int).push(
                    all@[i as int],
                ));
            }
            i = i + 1;
        }
        assert(all@.take(n as int) =~= all@);
        let mut rest: Vec<char> = Vec::new();
        let mut k = start;
        while k < n
            invariant
                start <= k <= n,
                n == all@.len(),
                rest@ == all@.subrange(start as int, k as int),
            decreases n - k,
        {
            rest.push(all[k]);
            assert(all@.subrange(start as int, k + 1) =~= all@.subrange(start as int, k as int).push(
                all@[k as int],
            ));
            k = k + 1;
        }
        self.pending = rest;
        out
    }

    /// Takes the next chunk of raw output bytes (decoded as lossy UTF-8).
    pub fn feed_bytes(&mut self, data: &[u8]) -> (samples: Vec<RawSample>)
        ensures
            ({
                let all = old(self)@.pending + crate::text::utf8_lossy(data@);
                let ps = pieces(all, Separator::Newline);
                &&& final(self)@.pending == ps.last()
                &&& frame_lines(old(self)@.frame, ps.drop_last()) == (final(self)@.frame, samples@)
            }),
    {
        let text = lossy_text(data);
        self.feed_text(text.as_str())
    }
}

} // verus!
