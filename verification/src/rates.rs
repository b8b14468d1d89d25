//! Counter-Delta Tracker: turns cumulative kernel counters (CPU ticks,
//! network bytes) into per-tick rates.
//!
//! Counters only grow between resets, but a reset or a replaced interface
//! can make a reading regress; every subtraction here is therefore
//! delta-or-zero, and a regression yields a zero rate for that tick
//! rather than a wrapped or negative value.
//!
//! Percentages are carried as integers in hundredths of a percent
//! (0..=10000) and the network rate in thousandths of a kilobyte per
//! tick, so the core stays in exact integer arithmetic; presentation
//! divides for display.

use vstd::prelude::*;

use crate::text::{
    contains_bytes,
    find_bytes,
    lines_of,
    parse_u64,
    spec_lines,
    spec_nth_token,
    spec_parse_u64,
    spec_tokens,
    nth_token,
    tokens_of,
};

verus! {

/// Difference of two cumulative counter readings, zero when the counter
/// regressed.
pub open spec fn spec_delta_or_zero(prev: u64, cur: u64) -> u64 {
    if cur >= prev {
        (cur - prev) as u64
    } else {
        0
    }
}

pub fn delta_or_zero(prev: u64, cur: u64) -> (r: u64)
    ensures
        r == spec_delta_or_zero(prev, cur),
{
    if cur >= prev {
        cur - prev
    } else {
        0
    }
}

/// Busy share of a CPU delta in hundredths of a percent: the idle delta
/// is clamped to the total, and a zero total gives exactly zero.
pub open spec fn spec_cpu_percent_centi(d_total: u64, d_idle: u64) -> u64 {
    if d_total == 0 {
        0
    } else {
        let busy: int = if d_idle >= d_total {
            0
        } else {
            d_total - d_idle
        };
        (busy * 10000 / (d_total as int)) as u64
    }
}

/// The busy share always lies between 0 and 100 percent, and is exactly
/// zero when the total delta is zero.
pub proof fn lemma_cpu_percent_centi_range(d_total: u64, d_idle: u64)
    ensures
        spec_cpu_percent_centi(d_total, d_idle) <= 10000,
        d_total == 0 ==> spec_cpu_percent_centi(d_total, d_idle) == 0,
{
    if d_total != 0 {
        let busy: int = if d_idle >= d_total {
            0
        } else {
            d_total - d_idle
        };
        assert(busy * 10000 / (d_total as int) <= 10000) by (nonlinear_arith)
            requires
                0 <= busy <= d_total,
                d_total > 0,
        ;
    }
}

pub fn cpu_percent_centi(d_total: u64, d_idle: u64) -> (r: u64)
    ensures
        r == spec_cpu_percent_centi(d_total, d_idle),
        r <= 10000,
{
    proof {
        lemma_cpu_percent_centi_range(d_total, d_idle);
    }
    if d_total == 0 {
        return 0;
    }
    let busy: u64 = if d_idle >= d_total {
        0
    } else {
        d_total - d_idle
    };
    let wide: u128 = (busy as u128) * 10000 / (d_total as u128);
    wide as u64
}

/// The fields of `toks` from index `i` on that parse as decimal `u64`
/// values, in order; fields that do not parse are dropped.
pub open spec fn parsed_from(toks: Seq<Seq<u8>>, i: int) -> Seq<u64>
    decreases toks.len() - i,
{
    if i < 0 || i >= toks.len() {
        Seq::empty()
    } else {
        match spec_parse_u64(toks[i]) {
            Some(v) => seq![v] + parsed_from(toks, i + 1),
            None => parsed_from(toks, i + 1),
        }
    }
}

/// Saturating sum of `vals` from index `i` on, accumulated onto `acc`.
pub open spec fn sat_sum_from(vals: Seq<u64>, i: int, acc: u64) -> u64
    decreases vals.len() - i,
{
    if i < 0 || i >= vals.len() {
        acc
    } else {
        let next: u64 = if acc + vals[i] > u64::MAX {
            u64::MAX
        } else {
            (acc + vals[i]) as u64
        };
        sat_sum_from(vals, i + 1, next)
    }
}

/// Saturating sum of all of `vals`.
pub open spec fn sat_sum(vals: Seq<u64>) -> u64 {
    sat_sum_from(vals, 0, 0)
}

/// The aggregate CPU reading of the statistics text: the numeric fields
/// of the first line after the leading label, as (total, idle) where
/// total is their saturating sum and idle is the fourth field; `None`
/// when fewer than four fields parse.
pub open spec fn spec_cpu_reading(content: Seq<u8>) -> Option<(u64, u64)> {
    let fields = parsed_from(spec_tokens(spec_lines(content)[0]), 1);
    if fields.len() >= 4 {
        Some((sat_sum(fields), fields[3]))
    } else {
        None
    }
}

fn sat_sum_vec(vals: &Vec<u64>) -> (r: u64)
    ensures
        r == sat_sum(vals@),
{
    let mut acc: u64 = 0;
    let mut i: usize = 0;
    while i < vals.len()
        invariant
            0 <= i <= vals@.len(),
            sat_sum(vals@) == sat_sum_from(vals@, i as int, acc),
        decreases vals@.len() - i,
    {
        let v = vals[i];
        if v > u64::MAX - acc {
            acc = u64::MAX;
        } else {
            acc = acc + v;
        }
        i = i + 1;
    }
    acc
}

/// Reads the aggregate CPU counters from the statistics text.
pub fn cpu_reading(content: &[u8]) -> (r: Option<(u64, u64)>)
    ensures
        r == spec_cpu_reading(content@),
{
    let ls = lines_of(content);
    let ghost lsv = ls.deep_view();
    proof {
        assert(lsv[0] =~= ls@[0]@);
    }
    let toks = tokens_of(ls[0].as_slice());
    let ghost tv = toks.deep_view();
    let mut fields: Vec<u64> = Vec::new();
    let mut i: usize = 1;
    proof {
        assert(fields@ + parsed_from(tv, 1) =~= parsed_from(tv, 1));
    }
    while i < toks.len()
        invariant
            1 <= i,
            tv == toks.deep_view(),
            tv.len() == toks@.len(),
            parsed_from(tv, 1) == fields@ + parsed_from(tv, i as int),
        decreases toks@.len() - i,
    {
        proof {
            assert(tv[i as int] =~= toks@[i as int]@);
        }
        match parse_u64(toks[i].as_slice()) {
            Some(v) => {
                let ghost prev = fields@;
                fields.push(v);
                proof {
                    assert(fields@ + parsed_from(tv, i + 1) =~= prev + (seq![v] + parsed_from(
                        tv,
                        i + 1,
                    )));
                }
            },
            None => {},
        }
        i = i + 1;
    }
    proof {
        assert(fields@ + parsed_from(tv, i as int) =~= fields@);
    }
    if fields.len() >= 4 {
        let idle = fields[3];
        let total = sat_sum_vec(&fields);
        Some((total, idle))
    } else {
        None
    }
}

/// Value of the second whitespace token of `line`, zero when it is
/// missing or does not parse.
pub open spec fn line_value_u64(line: Seq<u8>) -> u64 {
    match spec_nth_token(line, 1) {
        Some(t) => match spec_parse_u64(t) {
            Some(v) => v,
            None => 0,
        },
        None => 0,
    }
}

/// Reads the second whitespace token of `line` as a number, zero when it
/// is missing or malformed.
pub fn read_line_value(line: &[u8]) -> (r: u64)
    ensures
        r == line_value_u64(line@),
{
    match nth_token(line, 1) {
        Some(t) => match parse_u64(t.as_slice()) {
            Some(v) => v,
            None => 0,
        },
        None => 0,
    }
}

/// `p` is a prefix of `s`.
pub open spec fn spec_starts_with(s: Seq<u8>, p: Seq<u8>) -> bool {
    p.len() <= s.len() && (forall|k: int| 0 <= k < p.len() ==> s[k] == p[k])
}

pub fn starts_with(s: &[u8], p: &[u8]) -> (r: bool)
    ensures
        r == spec_starts_with(s@, p@),
{
    if p.len() > s.len() {
        return false;
    }
    let mut k: usize = 0;
    while k < p.len()
        invariant
            p@.len() <= s@.len(),
            0 <= k <= p@.len(),
            forall|l: int| 0 <= l < k ==> s@[l] == p@[l],
        decreases p@.len() - k,
    {
        if s[k] != p[k] {
            return false;
        }
        k = k + 1;
    }
    true
}

/// The bytes of the label `MemTotal:`.
pub open spec fn label_mem_total() -> Seq<u8> {
    seq![77u8, 101, 109, 84, 111, 116, 97, 108, 58]
}

/// The bytes of the label `MemAvailable:`.
pub open spec fn label_mem_available() -> Seq<u8> {
    seq![77u8, 101, 109, 65, 118, 97, 105, 108, 97, 98, 108, 101, 58]
}

fn mem_total_label() -> (r: Vec<u8>)
    ensures
        r@ == label_mem_total(),
{
    let mut r: Vec<u8> = Vec::new();
    r.push(77);
    r.push(101);
    r.push(109);
    r.push(84);
    r.push(111);
    r.push(116);
    r.push(97);
    r.push(108);
    r.push(58);
    proof {
        assert(r@ =~= label_mem_total());
    }
    r
}

fn mem_available_label() -> (r: Vec<u8>)
    ensures
        r@ == label_mem_available(),
{
    let mut r: Vec<u8> = Vec::new();
    r.push(77);
    r.push(101);
    r.push(109);
    r.push(65);
    r.push(118);
    r.push(97);
    r.push(105);
    r.push(108);
    r.push(97);
    r.push(98);
    r.push(108);
    r.push(101);
    r.push(58);
    proof {
        assert(r@ =~= label_mem_available());
    }
    r
}

/// Value of the last line at or after `i` that begins with `label`;
/// `acc` is the value seen so far.
pub open spec fn labeled_value_from(ls: Seq<Seq<u8>>, label: Seq<u8>, i: int, acc: u64) -> u64
    decreases ls.len() - i,
{
    if i < 0 || i >= ls.len() {
        acc
    } else {
        labeled_value_from(
            ls,
            label,
            i + 1,
            if spec_starts_with(ls[i], label) {
                line_value_u64(ls[i])
            } else {
                acc
            },
        )
    }
}

/// Value of the second token of the last line beginning with `label`,
/// zero when no line does or the token is malformed.
pub open spec fn spec_labeled_value(content: Seq<u8>, label: Seq<u8>) -> u64 {
    labeled_value_from(spec_lines(content), label, 0, 0)
}

fn labeled_value(content: &[u8], label: &[u8]) -> (r: u64)
    ensures
        r == spec_labeled_value(content@, label@),
{
    let ls = lines_of(content);
    let ghost lsv = ls.deep_view();
    let mut acc: u64 = 0;
    let mut i: usize = 0;
    while i < ls.len()
        invariant
            0 <= i <= ls@.len(),
            lsv == ls.deep_view(),
            lsv == spec_lines(content@),
            lsv.len() == ls@.len(),
            spec_labeled_value(content@, label@) == labeled_value_from(
                lsv,
                label@,
                i as int,
                acc,
            ),
        decreases ls@.len() - i,
    {
        proof {
            assert(lsv[i as int] =~= ls@[i as int]@);
        }
        if starts_with(ls[i].as_slice(), label) {
            acc = read_line_value(ls[i].as_slice());
        }
        i = i + 1;
    }
    acc
}

/// The memory reading of the statistics text: (total, available), each in
/// kilobytes, zero when its label is absent or malformed.
pub fn mem_stats(content: &[u8]) -> (r: (u64, u64))
    ensures
        r.0 == spec_labeled_value(content@, label_mem_total()),
        r.1 == spec_labeled_value(content@, label_mem_available()),
{
    let total = labeled_value(content, mem_total_label().as_slice());
    let avail = labeled_value(content, mem_available_label().as_slice());
    (total, avail)
}

/// Used share of memory in hundredths of a percent: zero when the total
/// is zero, else (total - available), clamped at zero, over the total.
pub open spec fn spec_ram_percent_centi(total: u64, avail: u64) -> u64 {
    if total == 0 {
        0
    } else {
        ((spec_delta_or_zero(avail, total) as int) * 10000 / (total as int)) as u64
    }
}

/// The used share always lies between 0 and 100 percent.
pub proof fn lemma_ram_percent_centi_range(total: u64, avail: u64)
    ensures
        spec_ram_percent_centi(total, avail) <= 10000,
{
    if total != 0 {
        let used: int = spec_delta_or_zero(avail, total) as int;
        assert(used * 10000 / (total as int) <= 10000) by (nonlinear_arith)
            requires
                0 <= used <= total,
                total > 0,
        ;
    }
}

pub fn ram_percent_centi(total: u64, avail: u64) -> (r: u64)
    ensures
        r == spec_ram_percent_centi(total, avail),
        r <= 10000,
{
    proof {
        lemma_ram_percent_centi_range(total, avail);
    }
    if total == 0 {
        return 0;
    }
    let used = delta_or_zero(avail, total);
    let wide: u128 = (used as u128) * 10000 / (total as u128);
    wide as u64
}

/// The bytes of the interface hint `eth0`.
pub open spec fn hint_eth() -> Seq<u8> {
    seq![101u8, 116, 104, 48]
}

/// The bytes of the interface hint `enp`.
pub open spec fn hint_enp() -> Seq<u8> {
    seq![101u8, 110, 112]
}

/// The bytes of the interface hint `wlan`.
pub open spec fn hint_wlan() -> Seq<u8> {
    seq![119u8, 108, 97, 110]
}

/// `line` names a network interface of interest: it contains one of the
/// hints `eth0`, `enp` or `wlan`.
pub open spec fn is_iface_line(line: Seq<u8>) -> bool {
    contains_bytes(line, hint_eth()) || contains_bytes(line, hint_enp()) || contains_bytes(
        line,
        hint_wlan(),
    )
}

fn eth_hint() -> (r: Vec<u8>)
    ensures
        r@ == hint_eth(),
{
    let mut r: Vec<u8> = Vec::new();
    r.push(101);
    r.push(116);
    r.push(104);
    r.push(48);
    proof {
        assert(r@ =~= hint_eth());
    }
    r
}

fn enp_hint() -> (r: Vec<u8>)
    ensures
        r@ == hint_enp(),
{
    let mut r: Vec<u8> = Vec::new();
    r.push(101);
    r.push(110);
    r.push(112);
    proof {
        assert(r@ =~= hint_enp());
    }
    r
}

fn wlan_hint() -> (r: Vec<u8>)
    ensures
        r@ == hint_wlan(),
{
    let mut r: Vec<u8> = Vec::new();
    r.push(119);
    r.push(108);
    r.push(97);
    r.push(110);
    proof {
        assert(r@ =~= hint_wlan());
    }
    r
}

/// Receive-byte counter of the last interface line at or after `i`; `acc`
/// is the value seen so far.
pub open spec fn net_bytes_from(ls: Seq<Seq<u8>>, i: int, acc: u64) -> u64
    decreases ls.len() - i,
{
    if i < 0 || i >= ls.len() {
        acc
    } else {
        net_bytes_from(
            ls,
            i + 1,
            if is_iface_line(ls[i]) {
                line_value_u64(ls[i])
            } else {
                acc
            },
        )
    }
}

/// The cumulative receive-byte counter of the network statistics text:
/// the second token of the last line that names an interface of
/// interest, zero when no line does.
pub open spec fn spec_net_bytes(content: Seq<u8>) -> u64 {
    net_bytes_from(spec_lines(content), 0, 0)
}

/// Reads the cumulative receive-byte counter from the network statistics
/// text.
pub fn net_bytes(content: &[u8]) -> (r: u64)
    ensures
        r == spec_net_bytes(content@),
{
    let eth = eth_hint();
    let enp = enp_hint();
    let wlan = wlan_hint();
    let ls = lines_of(content);
    let ghost lsv = ls.deep_view();
    let mut acc: u64 = 0;
    let mut i: usize = 0;
    while i < ls.len()
        invariant
            0 <= i <= ls@.len(),
            lsv == ls.deep_view(),
            lsv == spec_lines(content@),
            lsv.len() == ls@.len(),
            eth@ == hint_eth(),
            enp@ == hint_enp(),
            wlan@ == hint_wlan(),
            spec_net_bytes(content@) == net_bytes_from(lsv, i as int, acc),
        decreases ls@.len() - i,
    {
        proof {
            assert(lsv[i as int] =~= ls@[i as int]@);
        }
        let hit = find_bytes(ls[i].as_slice(), eth.as_slice()) || find_bytes(
            ls[i].as_slice(),
            enp.as_slice(),
        ) || find_bytes(ls[i].as_slice(), wlan.as_slice());
        if hit {
            acc = read_line_value(ls[i].as_slice());
        }
        i = i + 1;
    }
    acc
}

/// Per-tick network rate in thousandths of a kilobyte: the byte delta
/// scaled by 1000/1024, zero on the first tick (no previous reading) or
/// on a counter reset.
pub open spec fn spec_net_rate_milli_kb(prev: u64, cur: u64) -> u64 {
    if prev > 0 && cur >= prev {
        ((cur - prev) * 1000 / 1024) as u64
    } else {
        0
    }
}

pub fn net_rate_milli_kb(prev: u64, cur: u64) -> (r: u64)
    ensures
        r == spec_net_rate_milli_kb(prev, cur),
{
    if prev > 0 && cur >= prev {
        let delta = cur - prev;
        proof {
            assert((delta as int) * 1000 / 1024 <= delta as int) by (nonlinear_arith)
                requires
                    delta >= 0,
            ;
        }
        let wide: u128 = (delta as u128) * 1000 / 1024;
        wide as u64
    } else {
        0
    }
}

} // verus!
