//! Ordering of process records. Each sort key induces a total
//! pre-order; sorting is stable, expressed by an insertion-sort
//! specification that the executable sort returns exactly.

use vstd::multiset::Multiset;
use vstd::prelude::*;

use crate::record::ProcessInfo;
use crate::text::{
    lemma_lex_le_total, lemma_lex_le_trans, lex_le, lower_of, lowercase, str_lex_le,
};

verus! {

/// The field records are ordered by.
#[derive(Clone, Copy, PartialEq, Eq, Structural, Debug)]
pub enum SortBy {
    Cpu,
    Mem,
    Pid,
    Name,
    Port,
}

/// Order between two optional ports: a record without a port comes
/// before any record with one, ports themselves order ascending.
pub open spec fn port_le(a: Option<u16>, b: Option<u16>) -> bool {
    match (a, b) {
        (Option::None, _) => true,
        (Option::Some(x), Option::None) => false,
        (Option::Some(x), Option::Some(y)) => x <= y,
    }
}

/// `a` may stand at or before `b` under key `k`: CPU and memory order
/// descending, pid and port ascending, names ascending without regard
/// to case.
pub open spec fn key_le(a: ProcessInfo, b: ProcessInfo, k: SortBy) -> bool {
    match k {
        SortBy::Cpu => b.cpu_tenths <= a.cpu_tenths,
        SortBy::Mem => b.memory <= a.memory,
        SortBy::Pid => a.pid <= b.pid,
        SortBy::Name => lex_le(lower_of(a.name@), lower_of(b.name@)),
        SortBy::Port => port_le(a.port, b.port),
    }
}

/// Any two records are ordered one way or the other under every key.
pub proof fn lemma_key_le_total(a: ProcessInfo, b: ProcessInfo, k: SortBy)
    ensures
        key_le(a, b, k) || key_le(b, a, k),
{
    if k == SortBy::Name {
        lemma_lex_le_total(lower_of(a.name@), lower_of(b.name@));
    }
}

/// Each key order is transitive.
pub proof fn lemma_key_le_trans(a: ProcessInfo, b: ProcessInfo, c: ProcessInfo, k: SortBy)
    requires
        key_le(a, b, k),
        key_le(b, c, k),
    ensures
        key_le(a, c, k),
{
    if k == SortBy::Name {
        lemma_lex_le_trans(lower_of(a.name@), lower_of(b.name@), lower_of(c.name@));
    }
}

/// Every record stands at or before all later ones.
pub open spec fn sorted_by_key(s: Seq<ProcessInfo>, k: SortBy) -> bool {
    forall|i: int, j: int| 0 <= i < j < s.len() ==> #[trigger] key_le(s[i], s[j], k)
}

/// Where a stable insertion lands `x` in `s`: after every suffix
/// element that is not at or before `x`, directly after the nearest
/// element that is.
pub open spec fn insert_pos(s: Seq<ProcessInfo>, x: ProcessInfo, k: SortBy) -> int
    decreases s.len(),
{
    if s.len() == 0 {
        0
    } else if key_le(s.last(), x, k) {
        s.len() as int
    } else {
        insert_pos(s.drop_last(), x, k)
    }
}

/// Stable insertion of `x` into `s`: `x` goes after every element at
/// or before it, so that an element equal under the key keeps its
/// earlier place.
pub open spec fn insert_sorted(s: Seq<ProcessInfo>, x: ProcessInfo, k: SortBy) -> Seq<ProcessInfo>
    decreases s.len(),
{
    if s.len() == 0 {
        seq![x]
    } else if key_le(s.last(), x, k) {
        s.push(x)
    } else {
        insert_sorted(s.drop_last(), x, k).push(s.last())
    }
}

/// The stable sort of `s` under key `k`: records inserted one after
/// another in their original order.
pub open spec fn sort_spec(s: Seq<ProcessInfo>, k: SortBy) -> Seq<ProcessInfo>
    decreases s.len(),
{
    if s.len() == 0 {
        s
    } else {
        insert_sorted(sort_spec(s.drop_last(), k), s.last(), k)
    }
}

/// The insertion position is a position of `s`, everything from it on
/// refuses to stand before `x`, and its left neighbour, if any, stands
/// at or before `x`.
pub proof fn lemma_insert_pos_props(s: Seq<ProcessInfo>, x: ProcessInfo, k: SortBy)
    ensures
        0 <= insert_pos(s, x, k) <= s.len(),
        forall|m: int|
            insert_pos(s, x, k) <= m < s.len() ==> !#[trigger] key_le(s[m], x, k),
        insert_pos(s, x, k) > 0 ==> key_le(s[insert_pos(s, x, k) - 1], x, k),
    decreases s.len(),
{
    if s.len() == 0 {
    } else if key_le(s.last(), x, k) {
    } else {
        lemma_insert_pos_props(s.drop_last(), x, k);
        assert forall|m: int|
            insert_pos(s, x, k) <= m < s.len() implies !#[trigger] key_le(s[m], x, k) by {
            if m < s.len() - 1 {
                assert(s.drop_last()[m] == s[m]);
            }
        }
        if insert_pos(s, x, k) > 0 {
            assert(s.drop_last()[insert_pos(s, x, k) - 1] == s[insert_pos(s, x, k) - 1]);
        }
    }
}

/// Inserting splits the sequence at the insertion position.
pub proof fn lemma_insert_sorted_split(s: Seq<ProcessInfo>, x: ProcessInfo, k: SortBy)
    ensures
        insert_sorted(s, x, k) == s.take(insert_pos(s, x, k)) + seq![x] + s.skip(
            insert_pos(s, x, k),
        ),
    decreases s.len(),
{
    let p = insert_pos(s, x, k);
    lemma_insert_pos_props(s, x, k);
    if s.len() == 0 {
        assert(insert_sorted(s, x, k) =~= s.take(p) + seq![x] + s.skip(p));
    } else if key_le(s.last(), x, k) {
        assert(insert_sorted(s, x, k) =~= s.take(p) + seq![x] + s.skip(p));
    } else {
        let dl = s.drop_last();
        lemma_insert_sorted_split(dl, x, k);
        assert(insert_sorted(s, x, k) == (dl.take(p) + seq![x] + dl.skip(p)).push(s.last()));
        assert(dl.take(p) =~= s.take(p));
        assert((dl.take(p) + seq![x] + dl.skip(p)).push(s.last()) =~= s.take(p) + seq![x] + s.skip(
            p,
        ));
    }
}

/// Insertion adds exactly `x` to the contents.
pub proof fn lemma_insert_sorted_multiset(s: Seq<ProcessInfo>, x: ProcessInfo, k: SortBy)
    ensures
        insert_sorted(s, x, k).to_multiset() =~= s.to_multiset().insert(x),
    decreases s.len(),
{
    broadcast use vstd::seq_lib::group_to_multiset_ensures;

    if s.len() == 0 {
        assert(seq![x] =~= Seq::<ProcessInfo>::empty().push(x));
        assert(s.to_multiset() =~= Multiset::<ProcessInfo>::empty());
    } else if key_le(s.last(), x, k) {
    } else {
        let dl = s.drop_last();
        lemma_insert_sorted_multiset(dl, x, k);
        assert(s =~= dl.push(s.last()));
        assert(s.to_multiset() =~= dl.to_multiset().insert(s.last()));
        assert(insert_sorted(s, x, k).to_multiset() =~= insert_sorted(dl, x, k)
            .to_multiset()
            .insert(s.last()));
    }
}

/// Insertion into a sorted sequence keeps it sorted.
pub proof fn lemma_insert_sorted_sorted(s: Seq<ProcessInfo>, x: ProcessInfo, k: SortBy)
    requires
        sorted_by_key(s, k),
    ensures
        sorted_by_key(insert_sorted(s, x, k), k),
{
    let p = insert_pos(s, x, k);
    let r = insert_sorted(s, x, k);
    lemma_insert_pos_props(s, x, k);
    lemma_insert_sorted_split(s, x, k);
    assert(r.len() == s.len() + 1);
    assert forall|i: int, j: int| 0 <= i < j < r.len() implies #[trigger] key_le(
        r[i],
        r[j],
        k,
    ) by {
        let ri = if i < p {
            s[i]
        } else if i == p {
            x
        } else {
            s[i - 1]
        };
        let rj = if j < p {
            s[j]
        } else if j == p {
            x
        } else {
            s[j - 1]
        };
        assert(r[i] == ri);
        assert(r[j] == rj);
        if i < p && j == p {
            // an element left of the split stands at or before x
            if i == p - 1 {
            } else {
                assert(key_le(s[i], s[p - 1], k));
                lemma_key_le_trans(s[i], s[p - 1], x, k);
            }
        } else if i == p && j > p {
            // x stands at or before everything right of the split
            lemma_key_le_total(x, s[j - 1], k);
        } else if i < p && j > p {
            assert(key_le(s[i], s[j - 1], k));
        }
    }
}

/// What sorting returns is sorted.
pub proof fn lemma_sort_spec_sorted(s: Seq<ProcessInfo>, k: SortBy)
    ensures
        sorted_by_key(sort_spec(s, k), k),
    decreases s.len(),
{
    if s.len() == 0 {
    } else {
        lemma_sort_spec_sorted(s.drop_last(), k);
        lemma_insert_sorted_sorted(sort_spec(s.drop_last(), k), s.last(), k);
    }
}

/// Sorting permutes: the contents are unchanged.
pub proof fn lemma_sort_spec_multiset(s: Seq<ProcessInfo>, k: SortBy)
    ensures
        sort_spec(s, k).to_multiset() =~= s.to_multiset(),
    decreases s.len(),
{
    broadcast use vstd::seq_lib::group_to_multiset_ensures;

    if s.len() == 0 {
    } else {
        let dl = s.drop_last();
        lemma_sort_spec_multiset(dl, k);
        lemma_insert_sorted_multiset(sort_spec(dl, k), s.last(), k);
        assert(s =~= dl.push(s.last()));
        assert(s.to_multiset() =~= dl.to_multiset().insert(s.last()));
    }
}

/// Sorting an already-sorted sequence returns it unchanged.
pub proof fn lemma_sort_spec_of_sorted(s: Seq<ProcessInfo>, k: SortBy)
    requires
        sorted_by_key(s, k),
    ensures
        sort_spec(s, k) == s,
    decreases s.len(),
{
    if s.len() == 0 {
    } else {
        let dl = s.drop_last();
        assert forall|i: int, j: int| 0 <= i < j < dl.len() implies #[trigger] key_le(
            dl[i],
            dl[j],
            k,
        ) by {
            assert(dl[i] == s[i] && dl[j] == s[j]);
        }
        lemma_sort_spec_of_sorted(dl, k);
        if dl.len() == 0 {
            assert(insert_sorted(dl, s.last(), k) =~= s);
        } else {
            assert(key_le(dl.last(), s.last(), k)) by {
                assert(dl.last() == s[s.len() - 2]);
                assert(key_le(s[s.len() - 2], s[s.len() - 1], k));
            }
            assert(dl.push(s.last()) =~= s);
        }
    }
}

/// Sorting is idempotent: a second sort by the same key returns the
/// first result identically.
pub proof fn lemma_sort_idempotent(s: Seq<ProcessInfo>, k: SortBy)
    ensures
        sort_spec(sort_spec(s, k), k) == sort_spec(s, k),
{
    lemma_sort_spec_sorted(s, k);
    lemma_sort_spec_of_sorted(sort_spec(s, k), k);
}

/// A position that refuses everything from itself on and accepts its
/// left neighbour is the insertion position.
proof fn lemma_insert_pos_unique(s: Seq<ProcessInfo>, x: ProcessInfo, k: SortBy, j: int)
    requires
        0 <= j <= s.len(),
        forall|m: int| j <= m < s.len() ==> !#[trigger] key_le(s[m], x, k),
        j > 0 ==> key_le(s[j - 1], x, k),
    ensures
        insert_pos(s, x, k) == j,
    decreases s.len(),
{
    if s.len() == 0 {
    } else if key_le(s.last(), x, k) {
        assert(j == s.len());
    } else {
        assert(j < s.len());
        let dl = s.drop_last();
        assert forall|m: int| j <= m < dl.len() implies !#[trigger] key_le(dl[m], x, k) by {
            assert(dl[m] == s[m]);
        }
        if j > 0 {
            assert(dl[j - 1] == s[j - 1]);
        }
        lemma_insert_pos_unique(dl, x, k, j);
    }
}

/// Whether `a` may stand at or before `b` under `k`, decided on the
/// records themselves.
fn le_by(a: &ProcessInfo, b: &ProcessInfo, k: SortBy) -> (r: bool)
    ensures
        r == key_le(*a, *b, k),
{
    match k {
        SortBy::Cpu => b.cpu_tenths <= a.cpu_tenths,
        SortBy::Mem => b.memory <= a.memory,
        SortBy::Pid => a.pid <= b.pid,
        SortBy::Name => {
            let la = lowercase(a.name.as_str());
            let lb = lowercase(b.name.as_str());
            str_lex_le(la.as_str(), lb.as_str())
        },
        SortBy::Port => match (a.port, b.port) {
            (Option::None, _) => true,
            (Option::Some(_), Option::None) => false,
            (Option::Some(x), Option::Some(y)) => x <= y,
        },
    }
}

/// Insert one record into an already built prefix, keeping stability.
fn insert_record(out: &mut Vec<ProcessInfo>, x: ProcessInfo, k: SortBy)
    ensures
        final(out)@ == insert_sorted(old(out)@, x, k),
{
    let mut j: usize = out.len();
    while j > 0 && !le_by(&out[j - 1], &x, k)
        invariant
            j <= out@.len(),
            out == old(out),
            forall|m: int| j <= m < out@.len() ==> !#[trigger] key_le(out@[m], x, k),
        decreases j,
    {
        j = j - 1;
    }
    proof {
        lemma_insert_pos_unique(out@, x, k, j as int);
        lemma_insert_sorted_split(out@, x, k);
        assert(out@.insert(j as int, x) =~= out@.take(j as int) + seq![x] + out@.skip(j as int));
    }
    out.insert(j, x);
}

/// Sort the records by the chosen key: the result is exactly the
/// stable sort of the input, so it is sorted and holds the same
/// records.
pub fn sort_processes(processes: &mut Vec<ProcessInfo>, sort_by: SortBy)
    ensures
        final(processes)@ == sort_spec(old(processes)@, sort_by),
        sorted_by_key(final(processes)@, sort_by),
        final(processes)@.to_multiset() == old(processes)@.to_multiset(),
{
    let mut out: Vec<ProcessInfo> = Vec::new();
    let mut i: usize = 0;
    while i < processes.len()
        invariant
            i <= processes@.len(),
            processes == old(processes),
            out@ == sort_spec(processes@.take(i as int), sort_by),
        decreases processes@.len() - i,
    {
        proof {
            assert(processes@.take(i + 1).drop_last() =~= processes@.take(i as int));
            assert(processes@.take(i + 1).last() == processes@[i as int]);
        }
        let x = processes[i].clone();
        insert_record(&mut out, x, sort_by);
        i = i + 1;
    }
    proof {
        assert(processes@.take(processes@.len() as int) =~= processes@);
        lemma_sort_spec_sorted(processes@, sort_by);
        lemma_sort_spec_multiset(processes@, sort_by);
    }
    *processes = out;
}

} // verus!
