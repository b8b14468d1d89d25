//! Sampling Cycle: one full telemetry pass per tick.
//!
//! The sampler owns the previous counter readings and the three rolling
//! histories.  On the very first tick no prior counter state exists;
//! counters default to zero, so the first percentage and rate values are
//! degenerate, which is accepted.  Each tick reads the raw texts handed
//! to it, deltas the cumulative counters, pushes the freshly computed
//! values into their windows, re-ranks the processes from scratch, reads
//! the point-in-time facts, and assembles one immutable snapshot.  An
//! unreadable source degrades to zero or the sentinel; no input aborts a
//! tick.

use vstd::prelude::*;

use crate::kv::{sentinel, sentinel_value};
use crate::procs::{
    all_positive,
    gather_snapshots,
    lemma_rank_top_sorted,
    rank_top,
    sorted_desc,
    spec_gather,
    spec_rank_top,
    views_of,
    ProcEntry,
    ProcessSnapshot,
};
use crate::rates::{
    cpu_percent_centi,
    cpu_reading,
    delta_or_zero,
    label_mem_available,
    label_mem_total,
    mem_stats,
    net_bytes,
    net_rate_milli_kb,
    ram_percent_centi,
    spec_cpu_percent_centi,
    spec_cpu_reading,
    spec_delta_or_zero,
    spec_labeled_value,
    spec_net_bytes,
    spec_net_rate_milli_kb,
    spec_ram_percent_centi,
};
use crate::temp::{select_temp, spec_select_temp};
use crate::text::{nth_token, parse_u64_prefix, spec_nth_token, spec_parse_u64_prefix};
use crate::window::{push_one, RollingWindow};

verus! {

/// Fixed length of each rolling history.
pub const WINDOW_LEN: usize = 200;

/// How many ranked processes a snapshot keeps.
pub const TOP_N: usize = 10;

/// The view of an optional raw text.
pub open spec fn view_opt(o: Option<Vec<u8>>) -> Option<Seq<u8>> {
    match o {
        Some(v) => Some(v@),
        None => None,
    }
}

/// The raw inputs of one tick.  The caller reads each source afresh every
/// tick and passes `None` where a source could not be read.
pub struct TickInput {
    /// Aggregate CPU statistics text (first line holds the counters).
    pub cpu_stat: Option<Vec<u8>>,
    /// Memory statistics text (`MemTotal:` / `MemAvailable:` lines).
    pub meminfo: Option<Vec<u8>>,
    /// Network statistics text (one line per interface).
    pub net_dev: Option<Vec<u8>>,
    /// Process-table entries with their status texts.
    pub processes: Vec<ProcEntry>,
    /// Thermal source texts that could be read, in probe order.
    pub temps: Vec<Vec<u8>>,
    /// Uptime text (first token: seconds).
    pub uptime: Option<Vec<u8>>,
    /// Load-average text (fourth token: thread counts).
    pub loadavg: Option<Vec<u8>>,
}

/// The aggregate output of one tick, consumed by presentation.
/// Percentages are in hundredths of a percent, the network rate in
/// thousandths of a kilobyte per tick.
pub struct MetricsSnapshot {
    pub cpu_centi_pct: u64,
    pub ram_centi_pct: u64,
    pub ram_used_kb: u64,
    pub ram_total_kb: u64,
    pub net_rate_milli_kb: u64,
    pub cpu_history: Vec<u64>,
    pub ram_history: Vec<u64>,
    pub net_history: Vec<u64>,
    pub top_processes: Vec<ProcessSnapshot>,
    pub temperature: Vec<u8>,
    pub uptime_secs: u64,
    pub threads: Vec<u8>,
}

/// What the CPU step computes from the previous counters and the
/// statistics text: (busy centi-percent, new total, new idle).  An
/// unreadable or short text leaves the counters untouched and reports
/// zero.
pub open spec fn spec_cpu_step(prev_total: u64, prev_idle: u64, stat: Option<Seq<u8>>) -> (
    u64,
    u64,
    u64,
) {
    match stat {
        Some(c) => match spec_cpu_reading(c) {
            Some((total, idle)) => (
                spec_cpu_percent_centi(
                    spec_delta_or_zero(prev_total, total),
                    spec_delta_or_zero(prev_idle, idle),
                ),
                total,
                idle,
            ),
            None => (0, prev_total, prev_idle),
        },
        None => (0, prev_total, prev_idle),
    }
}

/// What the memory step computes from the statistics text:
/// (used centi-percent, used kilobytes, total kilobytes).
pub open spec fn spec_ram_step(mem: Option<Seq<u8>>) -> (u64, u64, u64) {
    match mem {
        Some(c) => {
            let total = spec_labeled_value(c, label_mem_total());
            let avail = spec_labeled_value(c, label_mem_available());
            (spec_ram_percent_centi(total, avail), spec_delta_or_zero(avail, total), total)
        },
        None => (0, 0, 0),
    }
}

/// What the network step computes from the previous byte counter and the
/// statistics text: (milli-kilobyte rate, new byte counter).  An
/// unreadable text reports zero and leaves the counter untouched.
pub open spec fn spec_net_step(prev: u64, dev: Option<Seq<u8>>) -> (u64, u64) {
    match dev {
        Some(c) => (
            spec_net_rate_milli_kb(prev, spec_net_bytes(c)),
            spec_net_bytes(c),
        ),
        None => (0, prev),
    }
}

/// Uptime in whole seconds: the digit prefix of the first token.
pub open spec fn spec_uptime_secs(content: Seq<u8>) -> u64 {
    match spec_nth_token(content, 0) {
        Some(t) => spec_parse_u64_prefix(t),
        None => 0,
    }
}

/// Reads the uptime seconds from the uptime text.
pub fn read_uptime_secs(content: &[u8]) -> (r: u64)
    ensures
        r == spec_uptime_secs(content@),
{
    match nth_token(content, 0) {
        Some(t) => parse_u64_prefix(t.as_slice()),
        None => 0,
    }
}

/// The thread-count field: the fourth token of the load-average text,
/// or the sentinel when it is missing.
pub open spec fn spec_threads(content: Seq<u8>) -> Seq<u8> {
    match spec_nth_token(content, 3) {
        Some(t) => t,
        None => sentinel(),
    }
}

/// Reads the thread-count field from the load-average text.
pub fn read_threads(content: &[u8]) -> (r: Vec<u8>)
    ensures
        r@ == spec_threads(content@),
{
    match nth_token(content, 3) {
        Some(t) => t,
        None => sentinel_value(),
    }
}

/// The telemetry sampler: previous counter readings and the three
/// rolling histories, owned across ticks.
pub struct Sampler {
    pub last_cpu_total: u64,
    pub last_cpu_idle: u64,
    pub last_net_bytes: u64,
    pub cpu_window: RollingWindow,
    pub ram_window: RollingWindow,
    pub net_window: RollingWindow,
}

impl Sampler {
    /// The histories are never empty, so every push is defined.
    pub open spec fn wf(self) -> bool {
        self.cpu_window@.len() > 0 && self.ram_window@.len() > 0 && self.net_window@.len() > 0
    }

    /// A fresh sampler: no previous counters, histories pre-filled with
    /// zeroes.
    pub fn new() -> (s: Sampler)
        ensures
            s.wf(),
            s.last_cpu_total == 0,
            s.last_cpu_idle == 0,
            s.last_net_bytes == 0,
            s.cpu_window@.len() == WINDOW_LEN,
            s.ram_window@.len() == WINDOW_LEN,
            s.net_window@.len() == WINDOW_LEN,
            forall|i: int| 0 <= i < WINDOW_LEN ==> s.cpu_window@[i] == 0u64,
            forall|i: int| 0 <= i < WINDOW_LEN ==> s.ram_window@[i] == 0u64,
            forall|i: int| 0 <= i < WINDOW_LEN ==> s.net_window@[i] == 0u64,
    {
        Sampler {
            last_cpu_total: 0,
            last_cpu_idle: 0,
            last_net_bytes: 0,
            cpu_window: RollingWindow::new(WINDOW_LEN),
            ram_window: RollingWindow::new(WINDOW_LEN),
            net_window: RollingWindow::new(WINDOW_LEN),
        }
    }

    /// One full telemetry pass.  Every clause below is stated against the
    /// inputs of this same tick: the counter deltas against the previous
    /// state, each window against its freshly computed value, the ranking
    /// against the entries handed in.
    pub fn tick(&mut self, input: TickInput) -> (snap: MetricsSnapshot)
        requires
            old(self).wf(),
        ensures
            final(self).wf(),
            ({
                let (pct, nt, ni) = spec_cpu_step(
                    old(self).last_cpu_total,
                    old(self).last_cpu_idle,
                    view_opt(input.cpu_stat),
                );
                &&& snap.cpu_centi_pct == pct
                &&& final(self).last_cpu_total == nt
                &&& final(self).last_cpu_idle == ni
                &&& final(self).cpu_window@ == push_one(old(self).cpu_window@, pct)
            }),
            ({
                let (pct, used, total) = spec_ram_step(view_opt(input.meminfo));
                &&& snap.ram_centi_pct == pct
                &&& snap.ram_used_kb == used
                &&& snap.ram_total_kb == total
                &&& final(self).ram_window@ == push_one(old(self).ram_window@, pct)
            }),
            ({
                let (rate, nb) = spec_net_step(old(self).last_net_bytes, view_opt(input.net_dev));
                &&& snap.net_rate_milli_kb == rate
                &&& final(self).last_net_bytes == nb
                &&& final(self).net_window@ == push_one(old(self).net_window@, rate)
            }),
            snap.cpu_history@ == final(self).cpu_window@,
            snap.ram_history@ == final(self).ram_window@,
            snap.net_history@ == final(self).net_window@,
            final(self).cpu_window@.len() == old(self).cpu_window@.len(),
            final(self).ram_window@.len() == old(self).ram_window@.len(),
            final(self).net_window@.len() == old(self).net_window@.len(),
            snap.cpu_centi_pct <= 10000,
            snap.ram_centi_pct <= 10000,
            views_of(snap.top_processes@) == spec_rank_top(
                spec_gather(input.processes@),
                TOP_N as int,
            ),
            snap.top_processes@.len() <= TOP_N,
            sorted_desc(views_of(snap.top_processes@)),
            all_positive(views_of(snap.top_processes@)),
            snap.temperature@ == spec_select_temp(input.temps.deep_view()),
            snap.uptime_secs == (match view_opt(input.uptime) {
                Some(c) => spec_uptime_secs(c),
                None => 0,
            }),
            snap.threads@ == (match view_opt(input.loadavg) {
                Some(c) => spec_threads(c),
                None => sentinel(),
            }),
    {
        let TickInput { cpu_stat, meminfo, net_dev, processes, temps, uptime, loadavg } = input;

        let cpu_pct: u64 = match cpu_stat {
            Some(c) => match cpu_reading(c.as_slice()) {
                Some((total, idle)) => {
                    let dt = delta_or_zero(self.last_cpu_total, total);
                    let di = delta_or_zero(self.last_cpu_idle, idle);
                    self.last_cpu_total = total;
                    self.last_cpu_idle = idle;
                    cpu_percent_centi(dt, di)
                },
                None => 0,
            },
            None => 0,
        };
        self.cpu_window.push(cpu_pct);

        let (ram_pct, ram_used, ram_total): (u64, u64, u64) = match meminfo {
            Some(c) => {
                let (total, avail) = mem_stats(c.as_slice());
                let used = delta_or_zero(avail, total);
                (ram_percent_centi(total, avail), used, total)
            },
            None => (0, 0, 0),
        };
        self.ram_window.push(ram_pct);

        let net_rate: u64 = match net_dev {
            Some(c) => {
                let cb = net_bytes(c.as_slice());
                let rate = net_rate_milli_kb(self.last_net_bytes, cb);
                self.last_net_bytes = cb;
                rate
            },
            None => 0,
        };
        self.net_window.push(net_rate);

        let ghost gathered = spec_gather(processes@);
        let top = rank_top(gather_snapshots(processes), TOP_N);
        proof {
            lemma_rank_top_sorted(gathered, TOP_N as int);
        }

        let temperature = select_temp(&temps);

        let uptime_secs: u64 = match uptime {
            Some(c) => read_uptime_secs(c.as_slice()),
            None => 0,
        };

        let threads: Vec<u8> = match loadavg {
            Some(c) => read_threads(c.as_slice()),
            None => sentinel_value(),
        };

        MetricsSnapshot {
            cpu_centi_pct: cpu_pct,
            ram_centi_pct: ram_pct,
            ram_used_kb: ram_used,
            ram_total_kb: ram_total,
            net_rate_milli_kb: net_rate,
            cpu_history: self.cpu_window.snapshot(),
            ram_history: self.ram_window.snapshot(),
            net_history: self.net_window.snapshot(),
            top_processes: top,
            temperature,
            uptime_secs,
            threads,
        }
    }
}

} // verus!
