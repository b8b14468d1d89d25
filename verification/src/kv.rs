//! Key-Value Extractor: generic textual lookup over line-oriented
//! "key: value" or "key=value" system files.
//!
//! The content is scanned line by line for the first line that contains
//! the key as a substring, ASCII-case-insensitively.  That line is split
//! on `:` when it contains one, else on `=`; the piece between the first
//! delimiter and the next one (or the end of the line) is trimmed and
//! stripped of double quotes.  When no line matches, or the matching line
//! has no delimiter, the fixed sentinel `N/A` is returned.
//!
//! Because matching is by substring, a key that occurs inside a longer
//! key can pick the wrong line; that looseness is deliberate and kept.

use vstd::prelude::*;

use crate::text::{
    contains_ci,
    find_byte_from,
    find_ci,
    first_occ,
    first_occ_from,
    lines_of,
    matches_ci_at,
    spec_lines,
    spec_strip_quotes,
    spec_trim,
    strip_quotes,
    trim_bytes,
};

verus! {

/// The bytes of the sentinel string `N/A`.
pub open spec fn sentinel() -> Seq<u8> {
    seq![78u8, 47u8, 65u8]
}

/// The sentinel returned when a value cannot be obtained.
pub fn sentinel_value() -> (r: Vec<u8>)
    ensures
        r@ == sentinel(),
{
    let mut r: Vec<u8> = Vec::new();
    r.push(78);
    r.push(47);
    r.push(65);
    assert(r@ =~= sentinel());
    r
}

/// Index of the first line at or after `i` that contains `key`
/// ASCII-case-insensitively, or -1 if none does.
pub open spec fn first_match_from(ls: Seq<Seq<u8>>, key: Seq<u8>, i: int) -> int
    decreases ls.len() - i,
{
    if i < 0 || i >= ls.len() {
        -1
    } else if contains_ci(ls[i], key) {
        i
    } else {
        first_match_from(ls, key, i + 1)
    }
}

/// The trimmed, quote-stripped piece of `line` between the first `d` and
/// the next `d` after it, or the end of the line.
pub open spec fn value_after_delim(line: Seq<u8>, d: u8) -> Seq<u8>
    recommends
        first_occ(line, d) >= 0,
{
    let p = first_occ(line, d);
    let e = first_occ_from(line, d, p + 1);
    let seg = line.subrange(
        p + 1,
        if e == -1 {
            line.len() as int
        } else {
            e
        },
    );
    spec_strip_quotes(spec_trim(seg))
}

/// What extraction returns: the value of the first line that contains
/// `key`, split on `:` when present and on `=` otherwise, trimmed and
/// quote-stripped; the sentinel when no line matches or the matching
/// line has neither delimiter.
pub open spec fn spec_extract(content: Seq<u8>, key: Seq<u8>) -> Seq<u8> {
    let ls = spec_lines(content);
    let m = first_match_from(ls, key, 0);
    if m == -1 {
        sentinel()
    } else if first_occ(ls[m], 58) >= 0 {
        value_after_delim(ls[m], 58)
    } else if first_occ(ls[m], 61) >= 0 {
        value_after_delim(ls[m], 61)
    } else {
        sentinel()
    }
}

/// The delimited value of one line: `Some` exactly when the line holds a
/// `:` or `=`.
fn delim_value(line: &[u8]) -> (r: Option<Vec<u8>>)
    ensures
        first_occ(line@, 58) >= 0 ==> (r matches Some(v) && v@ == value_after_delim(line@, 58)),
        first_occ(line@, 58) < 0 && first_occ(line@, 61) >= 0 ==> (r matches Some(v) && v@
            == value_after_delim(line@, 61)),
        first_occ(line@, 58) < 0 && first_occ(line@, 61) < 0 ==> r is None,
{
    let n: usize = line.len();
    let (d, p): (u8, usize) = match find_byte_from(line, 58, 0) {
        Some(p) => (58, p),
        None => match find_byte_from(line, 61, 0) {
            Some(p) => (61, p),
            None => {
                return None;
            },
        },
    };
    assert(p < n);
    let end: usize = match find_byte_from(line, d, p + 1) {
        Some(e) => e,
        None => n,
    };
    let mut seg: Vec<u8> = Vec::new();
    let mut k: usize = p + 1;
    while k < end
        invariant
            p + 1 <= k <= end <= line@.len(),
            seg@ == line@.subrange(p + 1 as int, k as int),
        decreases end - k,
    {
        seg.push(line[k]);
        assert(line@.subrange(p + 1 as int, k + 1 as int) =~= line@.subrange(
            p + 1 as int,
            k as int,
        ).push(line@[k as int]));
        k = k + 1;
    }
    let t = trim_bytes(seg.as_slice());
    let v = strip_quotes(t.as_slice());
    Some(v)
}

/// Looks `key` up in line-oriented system-file text: first matching
/// line, split on `:` or `=`, value trimmed and quote-stripped; the
/// sentinel `N/A` when nothing can be extracted.
pub fn extract_value(content: &[u8], key: &[u8]) -> (r: Vec<u8>)
    ensures
        r@ == spec_extract(content@, key@),
{
    let ls = lines_of(content);
    let ghost lsv = ls.deep_view();
    let mut i: usize = 0;
    while i < ls.len()
        invariant
            0 <= i <= ls@.len(),
            lsv == ls.deep_view(),
            lsv == spec_lines(content@),
            lsv.len() == ls@.len(),
            first_match_from(lsv, key@, 0) == first_match_from(lsv, key@, i as int),
        decreases ls@.len() - i,
    {
        proof {
            assert(lsv[i as int] =~= ls@[i as int]@);
        }
        if find_ci(ls[i].as_slice(), key) {
            assert(first_match_from(lsv, key@, 0) == i as int);
            match delim_value(ls[i].as_slice()) {
                Some(v) => {
                    return v;
                },
                None => {
                    return sentinel_value();
                },
            }
        }
        i = i + 1;
    }
    sentinel_value()
}

/// For every valid delimited line, extraction returns the trimmed,
/// quote-stripped value.  A line `key` `d` `value` is valid when `d` is
/// `:` or `=`, the key holds no line feed and no delimiter byte, and the
/// value holds no line feed, no further `d`, and — when `d` is `=` — no
/// `:` (a colon would make the line split on `:` instead).
pub proof fn lemma_extract_delimited_line(key: Seq<u8>, value: Seq<u8>, d: u8)
    requires
        d == 58 || d == 61,
        forall|k: int| 0 <= k < key.len() ==> key[k] != 10 && key[k] != 58 && key[k] != 61,
        forall|k: int| 0 <= k < value.len() ==> value[k] != 10 && value[k] != d,
        d == 61 ==> forall|k: int| 0 <= k < value.len() ==> value[k] != 58,
    ensures
        spec_extract(key + seq![d] + value, key) == spec_strip_quotes(spec_trim(value)),
{
    let line = key + seq![d] + value;
    assert(line.len() == key.len() + 1 + value.len());
    assert forall|k: int| 0 <= k < line.len() implies line[k] != 10 by {
        if k < key.len() {
            assert(line[k] == key[k]);
        } else if k == key.len() {
            assert(line[k] == d);
        } else {
            assert(line[k] == value[k - key.len() - 1]);
        }
    }
    crate::text::lemma_lines_single(line);
    assert(matches_ci_at(line, key, 0)) by {
        assert forall|j: int| 0 <= j < key.len() implies crate::text::to_lower(line[j])
            == crate::text::to_lower(key[j]) by {
            assert(line[j] == key[j]);
        }
    }
    assert(contains_ci(line, key));
    let ls = spec_lines(line);
    assert(first_match_from(ls, key, 0) == 0);
    let p = key.len() as int;
    assert(line[p] == d);
    assert forall|k: int| 0 <= k < p implies line[k] != d by {
        assert(line[k] == key[k]);
    }
    assert forall|k: int| p + 1 <= k < line.len() implies line[k] != d by {
        assert(line[k] == value[k - key.len() - 1]);
    }
    crate::text::lemma_first_occ_at(line, d, 0, p);
    crate::text::lemma_first_occ_absent(line, d, p + 1);
    if d == 61 {
        assert forall|k: int| 0 <= k < line.len() implies line[k] != 58 by {
            if k < key.len() {
                assert(line[k] == key[k]);
            } else if k == key.len() {
                assert(line[k] == d);
            } else {
                assert(line[k] == value[k - key.len() - 1]);
            }
        }
        crate::text::lemma_first_occ_absent(line, 58, 0);
    }
    assert(line.subrange(p + 1, line.len() as int) =~= value);
}

/// For a valid delimited line whose value carries no quotes and no
/// whitespace at its ends, extraction returns the value exactly.
pub proof fn lemma_extract_clean_value(key: Seq<u8>, value: Seq<u8>, d: u8)
    requires
        d == 58 || d == 61,
        forall|k: int| 0 <= k < key.len() ==> key[k] != 10 && key[k] != 58 && key[k] != 61,
        forall|k: int| 0 <= k < value.len() ==> value[k] != 10 && value[k] != d && value[k] != 34,
        d == 61 ==> forall|k: int| 0 <= k < value.len() ==> value[k] != 58,
        value.len() > 0 ==> !crate::text::is_ws(value[0]) && !crate::text::is_ws(
            value[value.len() - 1],
        ),
    ensures
        spec_extract(key + seq![d] + value, key) == value,
{
    lemma_extract_delimited_line(key, value, d);
    crate::text::lemma_trim_clean(value);
    crate::text::lemma_strip_quotes_clean(value);
}

proof fn lemma_first_match_absent(ls: Seq<Seq<u8>>, key: Seq<u8>, i: int)
    requires
        forall|k: int| i <= k < ls.len() ==> !contains_ci(ls[k], key),
    ensures
        first_match_from(ls, key, i) == -1,
    decreases ls.len() - i,
{
    if 0 <= i < ls.len() {
        lemma_first_match_absent(ls, key, i + 1);
    }
}

/// When no line of the content contains the key, extraction returns the
/// sentinel.
pub proof fn lemma_extract_absent(content: Seq<u8>, key: Seq<u8>)
    requires
        forall|i: int| 0 <= i < spec_lines(content).len() ==> !contains_ci(
            spec_lines(content)[i],
            key,
        ),
    ensures
        spec_extract(content, key) == sentinel(),
{
    lemma_first_match_absent(spec_lines(content), key, 0);
}

} // verus!
