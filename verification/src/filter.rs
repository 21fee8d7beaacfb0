//! The name filter: a record is kept when its lowercased name holds
//! the lowercased filter text as a substring. Filtering is pure — it
//! selects a subsequence and changes nothing.

use vstd::prelude::*;

use crate::record::ProcessInfo;
use crate::text::{contains_seq, lower_of, lowercase, str_contains};

verus! {

/// The filter test on one name: the lowercased name holds the
/// lowercased filter text somewhere.
pub open spec fn name_matches(name: Seq<char>, filter: Seq<char>) -> bool {
    contains_seq(lower_of(name), lower_of(filter))
}

/// Whether a record passes an optional name filter; no filter keeps
/// everything.
pub open spec fn keeps_record(p: ProcessInfo, filter: Option<Seq<char>>) -> bool {
    match filter {
        Option::None => true,
        Option::Some(f) => name_matches(p.name@, f),
    }
}

/// The characters of an optional filter string.
pub open spec fn filter_view(f: Option<String>) -> Option<Seq<char>> {
    match f {
        Option::None => Option::None,
        Option::Some(s) => Option::Some(s@),
    }
}

/// The records of `s` that pass the filter, in their original order.
pub open spec fn filtered(s: Seq<ProcessInfo>, filter: Option<Seq<char>>) -> Seq<ProcessInfo> {
    s.filter(|p: ProcessInfo| keeps_record(p, filter))
}

/// Whether one name passes one filter text, decided on the characters.
pub fn matches_filter(name: &str, filter: &str) -> (r: bool)
    ensures
        r == name_matches(name@, filter@),
{
    let ln = lowercase(name);
    let lf = lowercase(filter);
    str_contains(ln.as_str(), lf.as_str())
}

/// Keep exactly the records whose name passes the optional filter.
pub fn filter_records(records: Vec<ProcessInfo>, filter: &Option<String>) -> (r: Vec<ProcessInfo>)
    ensures
        r@ == filtered(records@, filter_view(*filter)),
{
    let ghost fv = filter_view(*filter);
    let ghost pred = |p: ProcessInfo| keeps_record(p, fv);
    let mut r: Vec<ProcessInfo> = Vec::new();
    let mut i: usize = 0;
    while i < records.len()
        invariant
            i <= records@.len(),
            fv == filter_view(*filter),
            pred == (|p: ProcessInfo| keeps_record(p, fv)),
            r@ == records@.take(i as int).filter(pred),
        decreases records@.len() - i,
    {
        let ghost s = records@;
        let ghost elem = s[i as int];
        let ghost prev = r@;
        let keep = match filter {
            Option::None => true,
            Option::Some(f) => matches_filter(records[i].name.as_str(), f.as_str()),
        };
        if keep {
            r.push(records[i].clone());
            proof {
                assert(pred(elem));
                assert(r@ =~= prev + seq![elem]);
            }
        } else {
            proof {
                assert(!pred(elem));
            }
        }
        proof {
            assert(s.take(i + 1) =~= s.take(i as int) + seq![elem]);
            Seq::filter_distributes_over_add(s.take(i as int), seq![elem], pred);
            reveal_with_fuel(Seq::<_>::filter, 2);
            assert(seq![elem].drop_last() =~= Seq::<ProcessInfo>::empty());
            if pred(elem) {
                assert(seq![elem].filter(pred) =~= seq![elem]);
            } else {
                assert(seq![elem].filter(pred) =~= Seq::<ProcessInfo>::empty());
                assert(r@ == prev);
            }
            assert(r@ == s.take(i + 1).filter(pred));
        }
        i = i + 1;
    }
    proof {
        assert(records@.take(records@.len() as int) =~= records@);
    }
    r
}

/// Every record a filter keeps comes from the input sequence.
proof fn lemma_filter_members(s: Seq<ProcessInfo>, pred: spec_fn(ProcessInfo) -> bool)
    ensures
        forall|i: int|
            0 <= i < s.filter(pred).len() ==> s.contains(#[trigger] s.filter(pred)[i]),
    decreases s.len(),
{
    reveal(Seq::filter);
    if s.len() == 0 {
    } else {
        let dl = s.drop_last();
        lemma_filter_members(dl, pred);
        assert forall|i: int|
            0 <= i < s.filter(pred).len() implies s.contains(#[trigger] s.filter(pred)[i]) by {
            if i < dl.filter(pred).len() {
                assert(dl.filter(pred)[i] == s.filter(pred)[i]);
                assert(dl.contains(dl.filter(pred)[i]));
                let j = choose|j: int| 0 <= j < dl.len() && dl[j] == dl.filter(pred)[i];
                assert(s[j] == dl[j]);
            } else {
                assert(s.filter(pred)[i] == s.last());
                assert(s[s.len() - 1] == s.last());
            }
        }
    }
}

/// Filtering is a pure subset operation: every record of the filtered
/// result appears in the unfiltered input; every record of the result
/// passes the filter test; and every input record that passes the test
/// appears in the result.
pub proof fn lemma_filter_is_subset(s: Seq<ProcessInfo>, filter: Option<Seq<char>>)
    ensures
        forall|i: int|
            0 <= i < filtered(s, filter).len() ==> s.contains(#[trigger] filtered(s, filter)[i]),
        forall|i: int|
            0 <= i < filtered(s, filter).len() ==> keeps_record(
                #[trigger] filtered(s, filter)[i],
                filter,
            ),
        forall|i: int|
            0 <= i < s.len() && keeps_record(#[trigger] s[i], filter) ==> filtered(
                s,
                filter,
            ).contains(s[i]),
{
    let pred = |p: ProcessInfo| keeps_record(p, filter);
    lemma_filter_members(s, pred);
    broadcast use Seq::lemma_filter_pred;
    broadcast use Seq::lemma_filter_contains;

}

} // verus!
