//! Byte-level text helpers: ASCII classification, case-insensitive and
//! exact substring search, whitespace trimming and tokenizing, and
//! decimal parsing and formatting.
//!
//! The system files this library reads are line-oriented ASCII, so all
//! matching is defined over bytes: whitespace is the ASCII kind, and
//! case-insensitive comparison folds only the ASCII letters.

use vstd::prelude::*;

verus! {

/// ASCII whitespace: space, tab, line feed, carriage return.
pub open spec fn is_ws(b: u8) -> bool {
    b == 32 || b == 9 || b == 10 || b == 13
}

/// ASCII case folding: uppercase letters map to lowercase, all else unchanged.
pub open spec fn to_lower(b: u8) -> u8 {
    if 65 <= b && b <= 90 {
        (b + 32) as u8
    } else {
        b
    }
}

/// ASCII decimal digit.
pub open spec fn is_digit(b: u8) -> bool {
    48 <= b && b <= 57
}

pub fn byte_is_ws(b: u8) -> (r: bool)
    ensures
        r == is_ws(b),
{
    b == 32 || b == 9 || b == 10 || b == 13
}

pub fn byte_to_lower(b: u8) -> (r: u8)
    ensures
        r == to_lower(b),
{
    if 65 <= b && b <= 90 {
        b + 32
    } else {
        b
    }
}

pub fn byte_is_digit(b: u8) -> (r: bool)
    ensures
        r == is_digit(b),
{
    48 <= b && b <= 57
}

/// `needle` occurs in `hay` at position `i`, comparing bytes after ASCII
/// case folding.
pub open spec fn matches_ci_at(hay: Seq<u8>, needle: Seq<u8>, i: int) -> bool {
    &&& 0 <= i
    &&& i + needle.len() <= hay.len()
    &&& forall|j: int| 0 <= j < needle.len() ==> to_lower(hay[i + j]) == to_lower(needle[j])
}

/// `needle` occurs somewhere in `hay`, ASCII-case-insensitively.
pub open spec fn contains_ci(hay: Seq<u8>, needle: Seq<u8>) -> bool {
    exists|i: int| matches_ci_at(hay, needle, i)
}

/// `needle` occurs in `hay` at position `i`, byte for byte.
pub open spec fn matches_at(hay: Seq<u8>, needle: Seq<u8>, i: int) -> bool {
    &&& 0 <= i
    &&& i + needle.len() <= hay.len()
    &&& forall|j: int| 0 <= j < needle.len() ==> hay[i + j] == needle[j]
}

/// `needle` occurs somewhere in `hay`, byte for byte.
pub open spec fn contains_bytes(hay: Seq<u8>, needle: Seq<u8>) -> bool {
    exists|i: int| matches_at(hay, needle, i)
}

/// ASCII-case-insensitive substring search.
pub fn find_ci(hay: &[u8], needle: &[u8]) -> (r: bool)
    ensures
        r == contains_ci(hay@, needle@),
{
    if needle.len() > hay.len() {
        assert(!contains_ci(hay@, needle@));
        return false;
    }
    let mut i: usize = 0;
    while i <= hay.len() - needle.len()
        invariant
            needle.len() <= hay.len(),
            0 <= i <= hay.len() - needle.len() + 1,
            forall|k: int| 0 <= k < i ==> !matches_ci_at(hay@, needle@, k),
        decreases hay.len() - needle.len() + 1 - i,
    {
        let mut j: usize = 0;
        let mut hit = true;
        while j < needle.len()
            invariant
                needle.len() <= hay.len(),
                0 <= i <= hay.len() - needle.len(),
                0 <= j <= needle.len(),
                hit ==> forall|l: int| 0 <= l < j ==> to_lower(hay@[i + l]) == to_lower(
                    needle@[l],
                ),
                !hit ==> !matches_ci_at(hay@, needle@, i as int),
            decreases needle.len() - j,
        {
            if byte_to_lower(hay[i + j]) != byte_to_lower(needle[j]) {
                hit = false;
                j = needle.len();
            } else {
                j = j + 1;
            }
        }
        if hit {
            assert(matches_ci_at(hay@, needle@, i as int));
            return true;
        }
        i = i + 1;
    }
    assert(forall|k: int| matches_ci_at(hay@, needle@, k) ==> 0 <= k < i);
    false
}

/// Exact substring search.
pub fn find_bytes(hay: &[u8], needle: &[u8]) -> (r: bool)
    ensures
        r == contains_bytes(hay@, needle@),
{
    if needle.len() > hay.len() {
        assert(!contains_bytes(hay@, needle@));
        return false;
    }
    let mut i: usize = 0;
    while i <= hay.len() - needle.len()
        invariant
            needle.len() <= hay.len(),
            0 <= i <= hay.len() - needle.len() + 1,
            forall|k: int| 0 <= k < i ==> !matches_at(hay@, needle@, k),
        decreases hay.len() - needle.len() + 1 - i,
    {
        let mut j: usize = 0;
        let mut hit = true;
        while j < needle.len()
            invariant
                needle.len() <= hay.len(),
                0 <= i <= hay.len() - needle.len(),
                0 <= j <= needle.len(),
                hit ==> forall|l: int| 0 <= l < j ==> hay@[i + l] == needle@[l],
                !hit ==> !matches_at(hay@, needle@, i as int),
            decreases needle.len() - j,
        {
            if hay[i + j] != needle[j] {
                hit = false;
                j = needle.len();
            } else {
                j = j + 1;
            }
        }
        if hit {
            assert(matches_at(hay@, needle@, i as int));
            return true;
        }
        i = i + 1;
    }
    assert(forall|k: int| matches_at(hay@, needle@, k) ==> 0 <= k < i);
    false
}

/// Index of the first occurrence of `c` at or after `i`, or -1 if none.
pub open spec fn first_occ_from(s: Seq<u8>, c: u8, i: int) -> int
    decreases s.len() - i,
{
    if i < 0 || i >= s.len() {
        -1
    } else if s[i] == c {
        i
    } else {
        first_occ_from(s, c, i + 1)
    }
}

/// Index of the first occurrence of `c` in `s`, or -1 if none.
pub open spec fn first_occ(s: Seq<u8>, c: u8) -> int {
    first_occ_from(s, c, 0)
}

/// First occurrence of the byte `c` at or after `from`, scanning left to
/// right.
pub fn find_byte_from(s: &[u8], c: u8, from: usize) -> (r: Option<usize>)
    ensures
        r matches Some(i) ==> first_occ_from(s@, c, from as int) == i as int && from <= i < s@.len()
            && s@[i as int] == c,
        r is None ==> first_occ_from(s@, c, from as int) == -1,
{
    let mut i: usize = from;
    while i < s.len()
        invariant
            from <= i,
            first_occ_from(s@, c, from as int) == first_occ_from(s@, c, i as int),
        decreases s.len() - i,
    {
        if s[i] == c {
            return Some(i);
        }
        i = i + 1;
    }
    None
}

/// The lines of `s` from index `i` on, split at line-feed bytes, where
/// `cur` holds the partial line read so far.  The piece after the last
/// line feed is a line of its own, even when it is empty.
pub open spec fn lines_from(s: Seq<u8>, i: int, cur: Seq<u8>) -> Seq<Seq<u8>>
    decreases s.len() - i,
{
    if i < 0 || i >= s.len() {
        seq![cur]
    } else if s[i] == 10 {
        seq![cur] + lines_from(s, i + 1, Seq::empty())
    } else {
        lines_from(s, i + 1, cur.push(s[i]))
    }
}

/// The lines of `s`, split at line-feed bytes.
pub open spec fn spec_lines(s: Seq<u8>) -> Seq<Seq<u8>> {
    lines_from(s, 0, Seq::empty())
}

/// Splits at line-feed bytes.  Empty input gives one empty line.
pub fn lines_of(s: &[u8]) -> (r: Vec<Vec<u8>>)
    ensures
        r.deep_view() == spec_lines(s@),
        r@.len() > 0,
{
    let mut out: Vec<Vec<u8>> = Vec::new();
    let mut cur: Vec<u8> = Vec::new();
    let mut i: usize = 0;
    proof {
        assert(cur@ =~= Seq::<u8>::empty());
        assert(out.deep_view() + lines_from(s@, 0, cur@) =~~= lines_from(s@, 0, cur@));
    }
    while i < s.len()
        invariant
            0 <= i <= s.len(),
            spec_lines(s@) == out.deep_view() + lines_from(s@, i as int, cur@),
        decreases s.len() - i,
    {
        if s[i] == 10 {
            let ghost prev_out = out.deep_view();
            let ghost prev_cur = cur@;
            out.push(cur);
            cur = Vec::new();
            proof {
                assert(cur@ =~= Seq::<u8>::empty());
                assert(out.deep_view() =~~= prev_out + seq![prev_cur]);
                assert(prev_out + (seq![prev_cur] + lines_from(s@, i + 1, cur@)) =~~= (prev_out
                    + seq![prev_cur]) + lines_from(s@, i + 1, cur@));
            }
        } else {
            cur.push(s[i]);
        }
        i = i + 1;
    }
    let ghost prev_out = out.deep_view();
    let ghost prev_cur = cur@;
    out.push(cur);
    proof {
        assert(lines_from(s@, s@.len() as int, prev_cur) =~~= seq![prev_cur]);
        assert(out.deep_view() =~~= prev_out + seq![prev_cur]);
    }
    out
}

/// A byte sequence without line feeds from `i` on folds into a single
/// line: `cur` followed by the rest.
pub proof fn lemma_lines_from_no_newline(s: Seq<u8>, i: int, cur: Seq<u8>)
    requires
        0 <= i <= s.len(),
        forall|k: int| i <= k < s.len() ==> s[k] != 10,
    ensures
        lines_from(s, i, cur) == seq![cur + s.subrange(i, s.len() as int)],
    decreases s.len() - i,
{
    if i < s.len() {
        lemma_lines_from_no_newline(s, i + 1, cur.push(s[i]));
        assert(cur.push(s[i]) + s.subrange(i + 1, s.len() as int) =~= cur + s.subrange(
            i,
            s.len() as int,
        ));
    } else {
        assert(cur + s.subrange(i, s.len() as int) =~= cur);
    }
}

/// A byte sequence without line feeds is one single line.
pub proof fn lemma_lines_single(s: Seq<u8>)
    requires
        forall|k: int| 0 <= k < s.len() ==> s[k] != 10,
    ensures
        spec_lines(s) == seq![s],
{
    lemma_lines_from_no_newline(s, 0, Seq::empty());
    assert(Seq::<u8>::empty() + s.subrange(0, s.len() as int) =~= s);
}

/// Where `c` does not occur from `i` on, there is no first occurrence.
pub proof fn lemma_first_occ_absent(s: Seq<u8>, c: u8, i: int)
    requires
        forall|k: int| i <= k < s.len() ==> s[k] != c,
    ensures
        first_occ_from(s, c, i) == -1,
    decreases s.len() - i,
{
    if 0 <= i < s.len() {
        lemma_first_occ_absent(s, c, i + 1);
    }
}

/// The position of `c` with no occurrence before it is the first
/// occurrence.
pub proof fn lemma_first_occ_at(s: Seq<u8>, c: u8, i: int, p: int)
    requires
        0 <= i <= p < s.len(),
        s[p] == c,
        forall|k: int| i <= k < p ==> s[k] != c,
    ensures
        first_occ_from(s, c, i) == p,
    decreases p - i,
{
    if i < p {
        lemma_first_occ_at(s, c, i + 1, p);
    }
}

/// Index of the first non-whitespace byte at or after `i` (so `s.len()` if
/// the rest is all whitespace).
pub open spec fn skip_ws_from(s: Seq<u8>, i: int) -> int
    decreases s.len() - i,
{
    if i < 0 || i >= s.len() {
        s.len() as int
    } else if is_ws(s[i]) {
        skip_ws_from(s, i + 1)
    } else {
        i
    }
}

/// One past the last non-whitespace byte strictly before `j` (so 0 if all
/// whitespace before `j`).
pub open spec fn skip_ws_back(s: Seq<u8>, j: int) -> int
    decreases j,
{
    if j <= 0 || j > s.len() {
        0
    } else if is_ws(s[j - 1]) {
        skip_ws_back(s, j - 1)
    } else {
        j
    }
}

pub proof fn lemma_skip_ws_from_bounds(s: Seq<u8>, i: int)
    requires
        0 <= i <= s.len(),
    ensures
        i <= skip_ws_from(s, i) <= s.len(),
    decreases s.len() - i,
{
    if i < s.len() && is_ws(s[i]) {
        lemma_skip_ws_from_bounds(s, i + 1);
    }
}

pub proof fn lemma_skip_ws_back_bounds(s: Seq<u8>, j: int)
    requires
        0 <= j <= s.len(),
    ensures
        0 <= skip_ws_back(s, j) <= j,
    decreases j,
{
    if j > 0 && is_ws(s[j - 1]) {
        lemma_skip_ws_back_bounds(s, j - 1);
    }
}

/// `s` with ASCII whitespace removed from both ends.
pub open spec fn spec_trim(s: Seq<u8>) -> Seq<u8> {
    let a = skip_ws_from(s, 0);
    let b = skip_ws_back(s, s.len() as int);
    if a < b {
        s.subrange(a, b)
    } else {
        Seq::empty()
    }
}

/// Strips ASCII whitespace from both ends.
pub fn trim_bytes(s: &[u8]) -> (r: Vec<u8>)
    ensures
        r@ == spec_trim(s@),
{
    let mut a: usize = 0;
    while a < s.len() && byte_is_ws(s[a])
        invariant
            0 <= a <= s.len(),
            skip_ws_from(s@, 0) == skip_ws_from(s@, a as int),
        decreases s.len() - a,
    {
        a = a + 1;
    }
    let mut b: usize = s.len();
    while b > a && byte_is_ws(s[b - 1])
        invariant
            a <= b <= s.len(),
            skip_ws_back(s@, s@.len() as int) == skip_ws_back(s@, b as int),
        decreases b,
    {
        b = b - 1;
    }
    let mut r: Vec<u8> = Vec::new();
    if a >= b {
        proof {
            lemma_skip_ws_from_bounds(s@, a as int);
            lemma_skip_ws_back_bounds(s@, b as int);
            assert(r@ =~= spec_trim(s@));
        }
        return r;
    }
    assert(skip_ws_from(s@, 0) == a as int);
    assert(skip_ws_back(s@, s@.len() as int) == b as int);
    let mut k: usize = a;
    while k < b
        invariant
            a <= k <= b <= s.len(),
            r@ == s@.subrange(a as int, k as int),
        decreases b - k,
    {
        r.push(s[k]);
        assert(s@.subrange(a as int, k + 1 as int) =~= s@.subrange(a as int, k as int).push(
            s@[k as int],
        ));
        k = k + 1;
    }
    assert(r@ =~= spec_trim(s@));
    r
}

/// `s` from index `i` on, with every double-quote byte dropped.
pub open spec fn strip_quotes_from(s: Seq<u8>, i: int) -> Seq<u8>
    decreases s.len() - i,
{
    if i < 0 || i >= s.len() {
        Seq::empty()
    } else if s[i] == 34 {
        strip_quotes_from(s, i + 1)
    } else {
        seq![s[i]] + strip_quotes_from(s, i + 1)
    }
}

/// `s` with every double-quote byte dropped.
pub open spec fn spec_strip_quotes(s: Seq<u8>) -> Seq<u8> {
    strip_quotes_from(s, 0)
}

/// Removes every double-quote byte.
pub fn strip_quotes(s: &[u8]) -> (r: Vec<u8>)
    ensures
        r@ == spec_strip_quotes(s@),
{
    let mut r: Vec<u8> = Vec::new();
    let mut i: usize = 0;
    while i < s.len()
        invariant
            0 <= i <= s.len(),
            spec_strip_quotes(s@) == r@ + strip_quotes_from(s@, i as int),
        decreases s.len() - i,
    {
        if s[i] != 34 {
            r.push(s[i]);
        }
        assert(spec_strip_quotes(s@) =~= r@ + strip_quotes_from(s@, i + 1));
        i = i + 1;
    }
    assert(r@ =~= spec_strip_quotes(s@));
    r
}

/// The whitespace-separated tokens of `s` from index `i` on, where `cur`
/// holds the partial token read so far.
pub open spec fn tokens_from(s: Seq<u8>, i: int, cur: Seq<u8>) -> Seq<Seq<u8>>
    decreases s.len() - i,
{
    if i < 0 || i >= s.len() {
        if cur.len() > 0 {
            seq![cur]
        } else {
            Seq::empty()
        }
    } else if is_ws(s[i]) {
        (if cur.len() > 0 {
            seq![cur]
        } else {
            Seq::empty()
        }) + tokens_from(s, i + 1, Seq::empty())
    } else {
        tokens_from(s, i + 1, cur.push(s[i]))
    }
}

/// The maximal whitespace-free runs of `s`, in order.
pub open spec fn spec_tokens(s: Seq<u8>) -> Seq<Seq<u8>> {
    tokens_from(s, 0, Seq::empty())
}

/// Splits on ASCII whitespace, dropping empty pieces.
pub fn tokens_of(s: &[u8]) -> (r: Vec<Vec<u8>>)
    ensures
        r.deep_view() == spec_tokens(s@),
{
    let mut out: Vec<Vec<u8>> = Vec::new();
    let mut cur: Vec<u8> = Vec::new();
    let mut i: usize = 0;
    proof {
        assert(cur@ =~= Seq::<u8>::empty());
        assert(out.deep_view() + tokens_from(s@, 0, cur@) =~~= tokens_from(s@, 0, cur@));
    }
    while i < s.len()
        invariant
            0 <= i <= s.len(),
            spec_tokens(s@) == out.deep_view() + tokens_from(s@, i as int, cur@),
        decreases s.len() - i,
    {
        if byte_is_ws(s[i]) {
            if cur.len() > 0 {
                let ghost prev_out = out.deep_view();
                let ghost prev_cur = cur@;
                out.push(cur);
                cur = Vec::new();
                proof {
                    assert(cur@ =~= Seq::<u8>::empty());
                    assert(out.deep_view() =~~= prev_out + seq![prev_cur]);
                    assert(prev_out + (seq![prev_cur] + tokens_from(s@, i + 1, cur@)) =~~= (
                    prev_out + seq![prev_cur]) + tokens_from(s@, i + 1, cur@));
                }
            } else {
                proof {
                    assert(cur@ =~= Seq::<u8>::empty());
                    assert((if cur@.len() > 0 {
                        seq![cur@]
                    } else {
                        Seq::<Seq<u8>>::empty()
                    }) + tokens_from(s@, i + 1, Seq::<u8>::empty()) =~~= tokens_from(
                        s@,
                        i + 1,
                        cur@,
                    ));
                }
            }
        } else {
            cur.push(s[i]);
        }
        i = i + 1;
    }
    if cur.len() > 0 {
        let ghost prev_out = out.deep_view();
        let ghost prev_cur = cur@;
        out.push(cur);
        proof {
            assert(tokens_from(s@, s@.len() as int, prev_cur) =~~= seq![prev_cur]);
            assert(out.deep_view() =~~= prev_out + seq![prev_cur]);
        }
    } else {
        proof {
            assert(tokens_from(s@, s@.len() as int, cur@) =~~= Seq::<Seq<u8>>::empty());
            assert(out.deep_view() + Seq::<Seq<u8>>::empty() =~~= out.deep_view());
        }
    }
    out
}

/// The `n`-th whitespace-separated token, if there is one.
pub open spec fn spec_nth_token(s: Seq<u8>, n: int) -> Option<Seq<u8>> {
    if 0 <= n < spec_tokens(s).len() {
        Some(spec_tokens(s)[n])
    } else {
        None
    }
}

/// The `n`-th whitespace-separated token, if there is one.
pub fn nth_token(s: &[u8], n: usize) -> (r: Option<Vec<u8>>)
    ensures
        r matches Some(t) ==> spec_nth_token(s@, n as int) == Some(t@),
        r is None ==> spec_nth_token(s@, n as int) is None,
{
    let mut toks = tokens_of(s);
    let ghost dv = toks.deep_view();
    if n < toks.len() {
        let t = toks.remove(n);
        proof {
            assert(t@ =~= dv[n as int]);
        }
        Some(t)
    } else {
        None
    }
}

/// Value of a digit byte; non-digits count as zero.
pub open spec fn digit_val(b: u8) -> nat {
    if is_digit(b) {
        (b - 48) as nat
    } else {
        0
    }
}

/// Decimal value of `s` from index `i` on, accumulated onto `acc`.
pub open spec fn dec_val_from(s: Seq<u8>, i: int, acc: nat) -> nat
    decreases s.len() - i,
{
    if i < 0 || i >= s.len() {
        acc
    } else {
        dec_val_from(s, i + 1, 10 * acc + digit_val(s[i]))
    }
}

/// Decimal value of `s` read as a base-10 numeral.
pub open spec fn dec_val(s: Seq<u8>) -> nat {
    dec_val_from(s, 0, 0)
}

pub open spec fn all_digits(s: Seq<u8>) -> bool {
    forall|k: int| 0 <= k < s.len() ==> is_digit(s[k])
}

/// `s` is a well-formed decimal numeral whose value fits in a `u64`.
pub open spec fn parses_u64(s: Seq<u8>) -> bool {
    s.len() > 0 && all_digits(s) && dec_val(s) <= u64::MAX
}

pub open spec fn spec_parse_u64(s: Seq<u8>) -> Option<u64> {
    if parses_u64(s) {
        Some(dec_val(s) as u64)
    } else {
        None
    }
}

/// The accumulated value never shrinks as more digits are read.
proof fn lemma_dec_val_from_lower(s: Seq<u8>, i: int, acc: nat)
    ensures
        dec_val_from(s, i, acc) >= acc,
    decreases s.len() - i,
{
    if 0 <= i < s.len() {
        lemma_dec_val_from_lower(s, i + 1, 10 * acc + digit_val(s[i]));
    }
}

/// Parses an unsigned decimal numeral; `None` on an empty slice, a
/// non-digit byte, or a value over `u64::MAX`.
pub fn parse_u64(s: &[u8]) -> (r: Option<u64>)
    ensures
        r == spec_parse_u64(s@),
{
    if s.len() == 0 {
        return None;
    }
    let mut acc: u64 = 0;
    let mut i: usize = 0;
    while i < s.len()
        invariant
            0 <= i <= s.len(),
            forall|k: int| 0 <= k < i ==> is_digit(s@[k]),
            dec_val(s@) == dec_val_from(s@, i as int, acc as nat),
        decreases s.len() - i,
    {
        let b = s[i];
        if !byte_is_digit(b) {
            return None;
        }
        let wide: u128 = (acc as u128) * 10 + ((b - 48) as u128);
        if wide > u64::MAX as u128 {
            proof {
                lemma_dec_val_from_lower(s@, i + 1, (10 * acc + digit_val(s@[i as int])) as nat);
            }
            return None;
        }
        acc = wide as u64;
        i = i + 1;
    }
    Some(acc)
}

/// Length of the leading run of decimal digits from index `i` on.
pub open spec fn digit_end_from(s: Seq<u8>, i: int) -> int
    decreases s.len() - i,
{
    if i < 0 || i >= s.len() {
        s.len() as int
    } else if is_digit(s[i]) {
        digit_end_from(s, i + 1)
    } else {
        i
    }
}

/// Value of the leading decimal-digit prefix of `s`: zero when the prefix
/// is empty or its value does not fit in a `u64`.
pub open spec fn spec_parse_u64_prefix(s: Seq<u8>) -> u64 {
    let p = s.subrange(0, digit_end_from(s, 0));
    if parses_u64(p) {
        dec_val(p) as u64
    } else {
        0
    }
}

/// Parses the leading digit run of `s`; zero when there is none or the
/// value overflows.
pub fn parse_u64_prefix(s: &[u8]) -> (r: u64)
    ensures
        r == spec_parse_u64_prefix(s@),
{
    let mut e: usize = 0;
    while e < s.len() && byte_is_digit(s[e])
        invariant
            0 <= e <= s.len(),
            digit_end_from(s@, 0) == digit_end_from(s@, e as int),
        decreases s.len() - e,
    {
        e = e + 1;
    }
    assert(digit_end_from(s@, 0) == e as int);
    let mut p: Vec<u8> = Vec::new();
    let mut k: usize = 0;
    while k < e
        invariant
            0 <= k <= e <= s.len(),
            p@ == s@.subrange(0, k as int),
        decreases e - k,
    {
        p.push(s[k]);
        assert(s@.subrange(0, k + 1 as int) =~= s@.subrange(0, k as int).push(s@[k as int]));
        k = k + 1;
    }
    match parse_u64(p.as_slice()) {
        Some(v) => v,
        None => 0,
    }
}

/// Decimal numeral of `n`, most significant digit first, no leading zeros.
pub open spec fn dec_repr(n: nat) -> Seq<u8>
    decreases n,
{
    if n < 10 {
        seq![(48 + n) as u8]
    } else {
        dec_repr(n / 10).push((48 + n % 10) as u8)
    }
}

proof fn lemma_dec_val_push(s: Seq<u8>, d: u8, i: int, acc: nat)
    requires
        0 <= i <= s.len(),
    ensures
        dec_val_from(s.push(d), i, acc) == 10 * dec_val_from(s, i, acc) + digit_val(d),
    decreases s.len() - i,
{
    if i < s.len() {
        assert(s.push(d)[i] == s[i]);
        lemma_dec_val_push(s, d, i + 1, 10 * acc + digit_val(s[i]));
    } else {
        assert(s.push(d)[i] == d);
        assert(dec_val_from(s.push(d), i, acc) == dec_val_from(
            s.push(d),
            i + 1,
            10 * acc + digit_val(d),
        ));
        assert(dec_val_from(s.push(d), i + 1, 10 * acc + digit_val(d)) == 10 * acc + digit_val(
            d,
        ));
    }
}

/// The decimal rendering of `n` is a numeral that reads back to `n`.
pub proof fn lemma_dec_repr_value(n: nat)
    ensures
        dec_val(dec_repr(n)) == n,
        all_digits(dec_repr(n)),
        dec_repr(n).len() >= 1,
    decreases n,
{
    if n < 10 {
        let s = seq![(48 + n) as u8];
        assert(digit_val(s[0]) == n);
        assert(dec_val(s) == dec_val_from(s, 1, n));
        assert(dec_val_from(s, 1, n) == n);
    } else {
        lemma_dec_repr_value(n / 10);
        lemma_dec_val_push(dec_repr(n / 10), (48 + n % 10) as u8, 0, 0);
        assert forall|k: int| 0 <= k < dec_repr(n).len() implies is_digit(dec_repr(n)[k]) by {
            if k < dec_repr(n / 10).len() {
                assert(dec_repr(n)[k] == dec_repr(n / 10)[k]);
            }
        }
    }
}

/// A sequence with no whitespace at either end trims to itself.
pub proof fn lemma_trim_clean(s: Seq<u8>)
    requires
        s.len() > 0 ==> !is_ws(s[0]) && !is_ws(s[s.len() - 1]),
    ensures
        spec_trim(s) == s,
{
    if s.len() > 0 {
        assert(s.subrange(0, s.len() as int) =~= s);
    } else {
        assert(spec_trim(s) =~= s);
    }
}

proof fn lemma_strip_quotes_from_clean(s: Seq<u8>, i: int)
    requires
        0 <= i <= s.len(),
        forall|k: int| i <= k < s.len() ==> s[k] != 34,
    ensures
        strip_quotes_from(s, i) == s.subrange(i, s.len() as int),
    decreases s.len() - i,
{
    if i < s.len() {
        lemma_strip_quotes_from_clean(s, i + 1);
        assert(seq![s[i]] + s.subrange(i + 1, s.len() as int) =~= s.subrange(i, s.len() as int));
    } else {
        assert(s.subrange(i, s.len() as int) =~= Seq::<u8>::empty());
    }
}

/// A sequence without double quotes is returned unchanged.
pub proof fn lemma_strip_quotes_clean(s: Seq<u8>)
    requires
        forall|k: int| 0 <= k < s.len() ==> s[k] != 34,
    ensures
        spec_strip_quotes(s) == s,
{
    lemma_strip_quotes_from_clean(s, 0);
    assert(s.subrange(0, s.len() as int) =~= s);
}

/// Renders `n` in decimal.
pub fn u64_to_dec(n: u64) -> (r: Vec<u8>)
    ensures
        r@ == dec_repr(n as nat),
    decreases n,
{
    if n < 10 {
        let mut r: Vec<u8> = Vec::new();
        r.push(48 + n as u8);
        assert(r@ =~= dec_repr(n as nat));
        r
    } else {
        let mut r = u64_to_dec(n / 10);
        r.push(48 + (n % 10) as u8);
        r
    }
}

} // verus!
