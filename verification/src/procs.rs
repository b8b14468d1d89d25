//! Process Ranker: builds per-process snapshots from process-table
//! entries and ranks them by resident memory.
//!
//! An entry is one directory name of the process table together with the
//! text of that process's status file, when it could be read.  Entries
//! whose name is not purely numeric, whose status is unreadable, or whose
//! resident memory reads as zero are skipped; the rest are sorted
//! descending by resident memory, ties kept in encounter order, and the
//! list is cut to the requested length.  A single inaccessible process
//! never aborts the ranking.

use vstd::prelude::*;

use vstd::seq_lib::lemma_multiset_commutative;
use crate::kv::{extract_value, spec_extract};
use crate::text::{byte_is_digit, is_digit, nth_token, parse_u64, spec_nth_token, spec_parse_u64};

verus! {

/// One live process at sampling time: display name, process id, and
/// resident memory in kilobytes.
pub struct ProcessSnapshot {
    pub name: Vec<u8>,
    pub pid: Vec<u8>,
    pub ram_kb: u64,
}

/// The mathematical value of a snapshot: (name, pid, resident kilobytes).
pub type ProcView = (Seq<u8>, Seq<u8>, u64);

pub open spec fn pview(p: ProcessSnapshot) -> ProcView {
    (p.name@, p.pid@, p.ram_kb)
}

pub open spec fn views_of(s: Seq<ProcessSnapshot>) -> Seq<ProcView> {
    s.map_values(|p: ProcessSnapshot| pview(p))
}

/// One process-table entry: the directory name and the status text, when
/// it could be read.
pub struct ProcEntry {
    pub name: Vec<u8>,
    pub status: Option<Vec<u8>>,
}

/// The bytes of the status key `Name`.
pub open spec fn key_name() -> Seq<u8> {
    seq![78u8, 97, 109, 101]
}

/// The bytes of the status key `VmRSS`.
pub open spec fn key_vmrss() -> Seq<u8> {
    seq![86u8, 109, 82, 83, 83]
}

fn name_key() -> (r: Vec<u8>)
    ensures
        r@ == key_name(),
{
    let mut r: Vec<u8> = Vec::new();
    r.push(78);
    r.push(97);
    r.push(109);
    r.push(101);
    proof {
        assert(r@ =~= key_name());
    }
    r
}

fn vmrss_key() -> (r: Vec<u8>)
    ensures
        r@ == key_vmrss(),
{
    let mut r: Vec<u8> = Vec::new();
    r.push(86);
    r.push(109);
    r.push(82);
    r.push(83);
    r.push(83);
    proof {
        assert(r@ =~= key_vmrss());
    }
    r
}

/// Every byte is an ASCII digit; the empty name counts as numeric.
pub open spec fn spec_numeric_name(s: Seq<u8>) -> bool {
    forall|k: int| 0 <= k < s.len() ==> is_digit(s[k])
}

pub fn is_numeric_name(s: &[u8]) -> (r: bool)
    ensures
        r == spec_numeric_name(s@),
{
    let mut k: usize = 0;
    while k < s.len()
        invariant
            0 <= k <= s@.len(),
            forall|l: int| 0 <= l < k ==> is_digit(s@[l]),
        decreases s@.len() - k,
    {
        if !byte_is_digit(s[k]) {
            return false;
        }
        k = k + 1;
    }
    true
}

/// Resident memory in kilobytes read from an extracted status value: its
/// first whitespace token parsed as a number, zero when absent or
/// malformed.
pub open spec fn spec_ram_kb_of(value: Seq<u8>) -> u64 {
    match spec_nth_token(value, 0) {
        Some(t) => match spec_parse_u64(t) {
            Some(v) => v,
            None => 0,
        },
        None => 0,
    }
}

pub fn ram_kb_of(value: &[u8]) -> (r: u64)
    ensures
        r == spec_ram_kb_of(value@),
{
    match nth_token(value, 0) {
        Some(t) => match parse_u64(t.as_slice()) {
            Some(v) => v,
            None => 0,
        },
        None => 0,
    }
}

/// `p` placed into `sorted` after every entry with at least its memory,
/// before the first with less: descending order with stable ties.
pub open spec fn insert_desc(sorted: Seq<ProcView>, p: ProcView) -> Seq<ProcView>
    decreases sorted.len(),
{
    if sorted.len() == 0 {
        seq![p]
    } else if sorted[0].2 >= p.2 {
        seq![sorted[0]] + insert_desc(sorted.drop_first(), p)
    } else {
        seq![p] + sorted
    }
}

/// The ranking of `s` from index `i` on, inserted onto the already
/// ranked `acc`; entries with zero memory are skipped.
pub open spec fn rank_from(s: Seq<ProcView>, i: int, acc: Seq<ProcView>) -> Seq<ProcView>
    decreases s.len() - i,
{
    if i < 0 || i >= s.len() {
        acc
    } else if s[i].2 > 0 {
        rank_from(s, i + 1, insert_desc(acc, s[i]))
    } else {
        rank_from(s, i + 1, acc)
    }
}

/// The full ranking: positive-memory entries of `s`, sorted descending
/// by memory, ties in encounter order.
pub open spec fn spec_rank(s: Seq<ProcView>) -> Seq<ProcView> {
    rank_from(s, 0, Seq::empty())
}

/// The ranking cut to its first `n` entries.
pub open spec fn spec_rank_top(s: Seq<ProcView>, n: int) -> Seq<ProcView> {
    if spec_rank(s).len() <= n {
        spec_rank(s)
    } else {
        spec_rank(s).subrange(0, n)
    }
}

/// Inserting at the first position whose memory is below `p`'s realizes
/// `insert_desc`.
proof fn lemma_insert_desc_at(s: Seq<ProcView>, p: ProcView, j: int)
    requires
        0 <= j <= s.len(),
        forall|k: int| 0 <= k < j ==> s[k].2 >= p.2,
        j < s.len() ==> s[j].2 < p.2,
    ensures
        insert_desc(s, p) == s.subrange(0, j) + seq![p] + s.subrange(j, s.len() as int),
    decreases j,
{
    if j == 0 {
        if s.len() == 0 {
            assert(insert_desc(s, p) =~= s.subrange(0, 0) + seq![p] + s.subrange(0, 0));
        } else {
            assert(insert_desc(s, p) =~= s.subrange(0, 0) + seq![p] + s.subrange(
                0,
                s.len() as int,
            ));
        }
    } else {
        let d = s.drop_first();
        lemma_insert_desc_at(d, p, j - 1);
        assert(insert_desc(s, p) =~= s.subrange(0, j) + seq![p] + s.subrange(j, s.len() as int));
    }
}

/// Inserts `p` into the sorted vector, keeping descending order and
/// placing it after existing entries with equal memory.
fn insert_sorted(acc: &mut Vec<ProcessSnapshot>, p: ProcessSnapshot)
    ensures
        views_of(final(acc)@) == insert_desc(views_of(old(acc)@), pview(p)),
{
    let ghost pv = pview(p);
    let ghost sv = views_of(acc@);
    let mut j: usize = 0;
    while j < acc.len() && acc[j].ram_kb >= p.ram_kb
        invariant
            0 <= j <= acc@.len(),
            acc@ == old(acc)@,
            forall|k: int| 0 <= k < j ==> views_of(acc@)[k].2 >= pview(p).2,
        decreases acc@.len() - j,
    {
        j = j + 1;
    }
    proof {
        lemma_insert_desc_at(sv, pv, j as int);
    }
    acc.insert(j, p);
    proof {
        assert(views_of(acc@) =~= sv.subrange(0, j as int) + seq![pv] + sv.subrange(
            j as int,
            sv.len() as int,
        ));
    }
}

/// Ranks the snapshots: entries with zero resident memory are dropped,
/// the rest sorted descending by resident memory with stable ties, and
/// the first `n` returned.
pub fn rank_top(procs: Vec<ProcessSnapshot>, n: usize) -> (r: Vec<ProcessSnapshot>)
    ensures
        views_of(r@) == spec_rank_top(views_of(procs@), n as int),
        r@.len() <= n,
{
    let ghost orig = views_of(procs@);
    let mut work = procs;
    let mut acc: Vec<ProcessSnapshot> = Vec::new();
    let ghost mut i: int = 0;
    proof {
        assert(views_of(acc@) =~= Seq::<ProcView>::empty());
        assert(views_of(work@) =~= orig.subrange(0, orig.len() as int));
    }
    while work.len() > 0
        invariant
            0 <= i <= orig.len(),
            views_of(work@) == orig.subrange(i, orig.len() as int),
            spec_rank(orig) == rank_from(orig, i, views_of(acc@)),
        decreases work@.len(),
    {
        let ghost prev_work_seq = work@;
        let ghost prev_work = views_of(work@);
        proof {
            assert(prev_work.len() == prev_work_seq.len());
            assert(prev_work.len() == orig.len() - i);
        }
        let p = work.remove(0);
        proof {
            assert(p == prev_work_seq[0]);
            assert(pview(p) == prev_work[0]);
            assert(prev_work[0] == orig[i]);
            assert forall|k: int| 0 <= k < work@.len() implies views_of(work@)[k] == orig.subrange(
                i + 1,
                orig.len() as int,
            )[k] by {
                assert(work@[k] == prev_work_seq[k + 1]);
                assert(views_of(work@)[k] == pview(work@[k]));
                assert(prev_work[k + 1] == orig[i + 1 + k]);
            }
            assert(views_of(work@) =~= orig.subrange(i + 1, orig.len() as int));
        }
        if p.ram_kb > 0 {
            insert_sorted(&mut acc, p);
        }
        proof {
            i = i + 1;
        }
    }
    proof {
        assert(i == orig.len());
        assert(views_of(acc@) == spec_rank(orig));
    }
    if acc.len() > n {
        acc.truncate(n);
        proof {
            assert(views_of(acc@) =~= spec_rank(orig).subrange(0, n as int));
        }
    }
    acc
}

/// Entries are in descending order of resident memory.
pub open spec fn sorted_desc(s: Seq<ProcView>) -> bool {
    forall|i: int, j: int| 0 <= i < j < s.len() ==> s[i].2 >= s[j].2
}

/// Every entry has positive resident memory.
pub open spec fn all_positive(s: Seq<ProcView>) -> bool {
    forall|k: int| 0 <= k < s.len() ==> s[k].2 > 0
}

/// The position `insert_desc` inserts at: after every entry with at
/// least `p`'s memory.
spec fn insert_pos(s: Seq<ProcView>, p: ProcView) -> int
    decreases s.len(),
{
    if s.len() == 0 {
        0
    } else if s[0].2 < p.2 {
        0
    } else {
        1 + insert_pos(s.drop_first(), p)
    }
}

proof fn lemma_insert_pos_props(s: Seq<ProcView>, p: ProcView)
    ensures
        0 <= insert_pos(s, p) <= s.len(),
        forall|k: int| 0 <= k < insert_pos(s, p) ==> s[k].2 >= p.2,
        insert_pos(s, p) < s.len() ==> s[insert_pos(s, p)].2 < p.2,
    decreases s.len(),
{
    if s.len() > 0 && s[0].2 >= p.2 {
        lemma_insert_pos_props(s.drop_first(), p);
        assert forall|k: int| 0 <= k < insert_pos(s, p) implies s[k].2 >= p.2 by {
            if k >= 1 {
                assert(s[k] == s.drop_first()[k - 1]);
            }
        }
    }
}

/// Inserting into a descending list keeps it descending.
proof fn lemma_insert_desc_sorted(s: Seq<ProcView>, p: ProcView)
    requires
        sorted_desc(s),
    ensures
        sorted_desc(insert_desc(s, p)),
        insert_desc(s, p).len() == s.len() + 1,
{
    let j = insert_pos(s, p);
    lemma_insert_pos_props(s, p);
    lemma_insert_desc_at(s, p, j);
    let r = insert_desc(s, p);
    assert forall|a: int, b: int| 0 <= a < b < r.len() implies r[a].2 >= r[b].2 by {
        assert(a < j ==> r[a] == s[a]);
        assert(a == j ==> r[a] == p);
        assert(a > j ==> r[a] == s[a - 1]);
        assert(b < j ==> r[b] == s[b]);
        assert(b == j ==> r[b] == p);
        assert(b > j ==> r[b] == s[b - 1]);
    }
}

/// Inserting preserves positivity.
proof fn lemma_insert_desc_positive(s: Seq<ProcView>, p: ProcView)
    requires
        all_positive(s),
        p.2 > 0,
    ensures
        all_positive(insert_desc(s, p)),
{
    let j = insert_pos(s, p);
    lemma_insert_pos_props(s, p);
    lemma_insert_desc_at(s, p, j);
    let r = insert_desc(s, p);
    assert forall|k: int| 0 <= k < r.len() implies r[k].2 > 0 by {
        assert(k < j ==> r[k] == s[k]);
        assert(k == j ==> r[k] == p);
        assert(k > j ==> r[k] == s[k - 1]);
    }
}

/// Inserting adds exactly `p` to the contents.
proof fn lemma_insert_desc_multiset(s: Seq<ProcView>, p: ProcView)
    ensures
        insert_desc(s, p).to_multiset() == s.to_multiset().insert(p),
    decreases s.len(),
{
    broadcast use vstd::seq_lib::group_to_multiset_ensures;

    if s.len() == 0 {
        assert(seq![p] =~= Seq::<ProcView>::empty().push(p));
        assert(s.to_multiset() =~= Seq::<ProcView>::empty().to_multiset());
        assert(insert_desc(s, p).to_multiset() =~= s.to_multiset().insert(p));
    } else if s[0].2 >= p.2 {
        let d = s.drop_first();
        lemma_insert_desc_multiset(d, p);
        lemma_multiset_commutative(seq![s[0]], insert_desc(d, p));
        lemma_multiset_commutative(seq![s[0]], d);
        assert(s =~= seq![s[0]] + d);
        assert(insert_desc(s, p).to_multiset() =~= s.to_multiset().insert(p));
    } else {
        lemma_multiset_commutative(seq![p], s);
        assert(seq![p] =~= Seq::<ProcView>::empty().push(p));
        assert(insert_desc(s, p).to_multiset() =~= s.to_multiset().insert(p));
    }
}

proof fn lemma_rank_from_sorted(s: Seq<ProcView>, i: int, acc: Seq<ProcView>)
    requires
        sorted_desc(acc),
        all_positive(acc),
    ensures
        sorted_desc(rank_from(s, i, acc)),
        all_positive(rank_from(s, i, acc)),
    decreases s.len() - i,
{
    if 0 <= i < s.len() {
        if s[i].2 > 0 {
            lemma_insert_desc_sorted(acc, s[i]);
            lemma_insert_desc_positive(acc, s[i]);
            lemma_rank_from_sorted(s, i + 1, insert_desc(acc, s[i]));
        } else {
            lemma_rank_from_sorted(s, i + 1, acc);
        }
    }
}

/// The ranking is sorted descending by resident memory, and every ranked
/// entry has positive resident memory.
pub proof fn lemma_rank_sorted(s: Seq<ProcView>)
    ensures
        sorted_desc(spec_rank(s)),
        all_positive(spec_rank(s)),
{
    lemma_rank_from_sorted(s, 0, Seq::empty());
}

/// Any prefix of the ranking is still sorted and positive.
pub proof fn lemma_rank_top_sorted(s: Seq<ProcView>, n: int)
    requires
        n >= 0,
    ensures
        sorted_desc(spec_rank_top(s, n)),
        all_positive(spec_rank_top(s, n)),
        spec_rank_top(s, n).len() <= n,
{
    lemma_rank_sorted(s);
}

/// The entries of `s` from index `i` on with positive resident memory,
/// in encounter order.
pub open spec fn filter_pos_from(s: Seq<ProcView>, i: int) -> Seq<ProcView>
    decreases s.len() - i,
{
    if i < 0 || i >= s.len() {
        Seq::empty()
    } else if s[i].2 > 0 {
        seq![s[i]] + filter_pos_from(s, i + 1)
    } else {
        filter_pos_from(s, i + 1)
    }
}

proof fn lemma_rank_from_multiset(s: Seq<ProcView>, i: int, acc: Seq<ProcView>)
    ensures
        rank_from(s, i, acc).to_multiset() == acc.to_multiset().add(
            filter_pos_from(s, i).to_multiset(),
        ),
    decreases s.len() - i,
{
    broadcast use vstd::seq_lib::group_to_multiset_ensures;

    if i < 0 || i >= s.len() {
        assert(filter_pos_from(s, i).to_multiset() =~= Seq::<ProcView>::empty().to_multiset());
        assert(acc.to_multiset().add(filter_pos_from(s, i).to_multiset()) =~= acc.to_multiset());
    } else if s[i].2 > 0 {
        lemma_rank_from_multiset(s, i + 1, insert_desc(acc, s[i]));
        lemma_insert_desc_multiset(acc, s[i]);
        lemma_multiset_commutative(seq![s[i]], filter_pos_from(s, i + 1));
        assert(seq![s[i]] =~= Seq::<ProcView>::empty().push(s[i]));
        assert(rank_from(s, i, acc).to_multiset() =~= acc.to_multiset().add(
            filter_pos_from(s, i).to_multiset(),
        ));
    } else {
        lemma_rank_from_multiset(s, i + 1, acc);
    }
}

/// The ranking is a permutation of the positive-memory entries: nothing
/// else is added and none of them is lost.
pub proof fn lemma_rank_permutation(s: Seq<ProcView>)
    ensures
        spec_rank(s).to_multiset() == filter_pos_from(s, 0).to_multiset(),
{
    broadcast use vstd::seq_lib::group_to_multiset_ensures;

    lemma_rank_from_multiset(s, 0, Seq::empty());
    assert(Seq::<ProcView>::empty().to_multiset().add(filter_pos_from(s, 0).to_multiset())
        =~= filter_pos_from(s, 0).to_multiset());
}

/// Resident memory of a process as its status text reports it.
pub open spec fn status_ram_kb(status: Seq<u8>) -> u64 {
    spec_ram_kb_of(spec_extract(status, key_vmrss()))
}

/// The snapshots gathered from the entries from index `i` on: numeric
/// names with readable status and positive resident memory, each as
/// (extracted name, entry name, resident kilobytes).
pub open spec fn gather_from(es: Seq<ProcEntry>, i: int) -> Seq<ProcView>
    decreases es.len() - i,
{
    if i < 0 || i >= es.len() {
        Seq::empty()
    } else {
        let rest = gather_from(es, i + 1);
        match es[i].status {
            Some(st) => {
                if spec_numeric_name(es[i].name@) && status_ram_kb(st@) > 0 {
                    seq![(spec_extract(st@, key_name()), es[i].name@, status_ram_kb(st@))] + rest
                } else {
                    rest
                }
            },
            None => rest,
        }
    }
}

/// All snapshots gathered from the entries, in encounter order.
pub open spec fn spec_gather(es: Seq<ProcEntry>) -> Seq<ProcView> {
    gather_from(es, 0)
}

/// Builds the snapshots of the readable, numeric-named entries with
/// positive resident memory; every other entry contributes nothing.
pub fn gather_snapshots(entries: Vec<ProcEntry>) -> (r: Vec<ProcessSnapshot>)
    ensures
        views_of(r@) == spec_gather(entries@),
{
    let ghost orig = entries@;
    let nk = name_key();
    let vk = vmrss_key();
    let mut work = entries;
    let mut out: Vec<ProcessSnapshot> = Vec::new();
    let ghost mut i: int = 0;
    proof {
        assert(work@ =~= orig.subrange(0, orig.len() as int));
        assert(views_of(out@) + gather_from(orig, 0) =~= gather_from(orig, 0));
    }
    while work.len() > 0
        invariant
            0 <= i <= orig.len(),
            work@ == orig.subrange(i, orig.len() as int),
            nk@ == key_name(),
            vk@ == key_vmrss(),
            spec_gather(orig) == views_of(out@) + gather_from(orig, i),
        decreases work@.len(),
    {
        let e = work.remove(0);
        proof {
            assert(e == orig[i]);
            assert(work@ =~= orig.subrange(i + 1, orig.len() as int));
        }
        let ProcEntry { name: pid, status } = e;
        let numeric = is_numeric_name(pid.as_slice());
        match status {
            Some(st) => {
                if numeric {
                    let ram_value = extract_value(st.as_slice(), vk.as_slice());
                    let ram = ram_kb_of(ram_value.as_slice());
                    if ram > 0 {
                        let name = extract_value(st.as_slice(), nk.as_slice());
                        let ghost prev = views_of(out@);
                        let ghost v: ProcView = (
                            spec_extract(st@, key_name()),
                            pid@,
                            status_ram_kb(st@),
                        );
                        out.push(ProcessSnapshot { name, pid, ram_kb: ram });
                        proof {
                            assert(views_of(out@) =~= prev + seq![v]);
                            assert((prev + seq![v]) + gather_from(orig, i + 1) =~= prev + (seq![v]
                                + gather_from(orig, i + 1)));
                        }
                    }
                }
            },
            None => {},
        }
        proof {
            i = i + 1;
        }
    }
    proof {
        assert(i == orig.len());
        assert(gather_from(orig, i) =~= Seq::<ProcView>::empty());
        assert(views_of(out@) + gather_from(orig, i) =~= views_of(out@));
    }
    out
}

} // verus!
