//! Temperature probe: picks the first plausible reading out of a fixed
//! family of thermal sources and formats it.
//!
//! Each source text holds a value in thousandths of a degree Celsius.
//! A reading is plausible when it parses, after trimming, to a number
//! greater than zero; the first plausible one is converted to degrees
//! with one decimal (rounded half up) and rendered as `<degrees>.<tenth>°C`.
//! When no probed source is plausible the sentinel `N/A` is returned.

use vstd::prelude::*;

use crate::kv::{sentinel, sentinel_value};
use crate::text::{dec_repr, parse_u64, spec_parse_u64, spec_trim, trim_bytes, u64_to_dec};

verus! {

/// Millidegree reading of one source text: trimmed and parsed, zero when
/// malformed (a zero reading is implausible anyway).
pub open spec fn spec_millideg(content: Seq<u8>) -> u64 {
    match spec_parse_u64(spec_trim(content)) {
        Some(v) => v,
        None => 0,
    }
}

/// The rendering of `m` millidegrees: tenths of a degree rounded half
/// up, written `<degrees>.<tenth>` followed by the degree sign and `C`.
pub open spec fn spec_format_temp(m: u64) -> Seq<u8> {
    let t = (m + 50) / 100;
    dec_repr((t / 10) as nat) + seq![46u8] + seq![(48 + t % 10) as u8] + seq![194u8, 176u8, 67u8]
}

/// Renders `m` millidegrees to one decimal place.
pub fn format_temp(m: u64) -> (r: Vec<u8>)
    ensures
        r@ == spec_format_temp(m),
{
    let q: u64 = m / 100;
    let rem: u64 = m % 100;
    let t: u64 = if rem >= 50 {
        q + 1
    } else {
        q
    };
    proof {
        assert(m == 100 * (m as int / 100) + m as int % 100);
        assert((m as int + 50) / 100 == m as int / 100 + (m as int % 100 + 50) / 100)
            by (nonlinear_arith);
        assert(t == (m as int + 50) / 100);
    }
    let whole: u64 = t / 10;
    let frac: u64 = t % 10;
    let mut r = u64_to_dec(whole);
    r.push(46);
    r.push(48 + frac as u8);
    r.push(194);
    r.push(176);
    r.push(67);
    proof {
        assert(r@ =~= spec_format_temp(m));
    }
    r
}

/// The formatted first plausible reading from index `i` on, or the
/// sentinel when none is plausible.
pub open spec fn select_from(rs: Seq<Seq<u8>>, i: int) -> Seq<u8>
    decreases rs.len() - i,
{
    if i < 0 || i >= rs.len() {
        sentinel()
    } else if spec_millideg(rs[i]) > 0 {
        spec_format_temp(spec_millideg(rs[i]))
    } else {
        select_from(rs, i + 1)
    }
}

/// The formatted first plausible reading of the probed sources, in probe
/// order; the sentinel when none is plausible.
pub open spec fn spec_select_temp(rs: Seq<Seq<u8>>) -> Seq<u8> {
    select_from(rs, 0)
}

/// Picks and formats the first plausible temperature reading.
pub fn select_temp(readings: &Vec<Vec<u8>>) -> (r: Vec<u8>)
    ensures
        r@ == spec_select_temp(readings.deep_view()),
{
    let ghost rv = readings.deep_view();
    let mut i: usize = 0;
    while i < readings.len()
        invariant
            0 <= i <= readings@.len(),
            rv == readings.deep_view(),
            rv.len() == readings@.len(),
            spec_select_temp(rv) == select_from(rv, i as int),
        decreases readings@.len() - i,
    {
        proof {
            assert(rv[i as int] =~= readings@[i as int]@);
        }
        let t = trim_bytes(readings[i].as_slice());
        let m: u64 = match parse_u64(t.as_slice()) {
            Some(v) => v,
            None => 0,
        };
        if m > 0 {
            return format_temp(m);
        }
        i = i + 1;
    }
    sentinel_value()
}

} // verus!
