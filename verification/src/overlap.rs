//! Overlap resolution: raw matches are put in order of their start, and a
//! greedy pass keeps each match that begins at or after the end of the last
//! one kept.
//!
//! The pass is greedy by start. It is not the selection that keeps the most
//! matches: an early long match shuts out every later match that it covers.

use crate::entity::Category;
use vstd::prelude::*;

verus! {

/// One raw match of the highlighter: a byte span and the category that
/// found it.
#[derive(Clone, Copy, Debug, PartialEq, Eq, Structural)]
pub struct RawMatch {
    pub start: usize,
    pub end: usize,
    pub category: Category,
}

/// `sorted` with `m` put behind every match that starts no later than `m`.
pub open spec fn insert_by_start(sorted: Seq<RawMatch>, m: RawMatch) -> Seq<RawMatch>
    decreases sorted.len(),
{
    if sorted.len() == 0 || sorted.last().start <= m.start {
        sorted.push(m)
    } else {
        insert_by_start(sorted.drop_last(), m).push(sorted.last())
    }
}

/// The matches in ascending order of start; matches with the same start keep
/// the order they came in.
pub open spec fn sort_by_start(matches: Seq<RawMatch>) -> Seq<RawMatch>
    decreases matches.len(),
{
    if matches.len() == 0 {
        matches
    } else {
        insert_by_start(sort_by_start(matches.drop_last()), matches.last())
    }
}

/// The starts never go down.
pub open spec fn ascending(matches: Seq<RawMatch>) -> bool {
    forall|i: int, j: int|
        #![trigger matches[i], matches[j]]
        0 <= i <= j < matches.len() ==> matches[i].start <= matches[j].start
}

/// The predicate of the matches that start at `start`.
pub open spec fn starts_at(start: usize) -> spec_fn(RawMatch) -> bool {
    |m: RawMatch| m.start == start
}

/// Where `m` goes in `sorted`: behind the matches before `at`, which start
/// no later, and before those from `at` on, which start later.
pub open spec fn is_slot(sorted: Seq<RawMatch>, m: RawMatch, at: int) -> bool {
    &&& 0 <= at <= sorted.len()
    &&& at > 0 ==> sorted[at - 1].start <= m.start
    &&& forall|k: int| at <= k < sorted.len() ==> (#[trigger] sorted[k]).start > m.start
}

/// Putting `m` into its slot is `insert_by_start`.
pub proof fn lemma_insert_at_slot(sorted: Seq<RawMatch>, m: RawMatch, at: int)
    requires
        is_slot(sorted, m, at),
    ensures
        insert_by_start(sorted, m) == sorted.insert(at, m),
    decreases sorted.len() - at,
{
    if at == sorted.len() {
        assert(sorted.insert(at, m) =~= sorted.push(m));
    } else {
        let init = sorted.drop_last();
        assert(sorted.last() == sorted[sorted.len() - 1]);
        assert(is_slot(init, m, at)) by {
            assert forall|k: int| at <= k < init.len() implies (#[trigger] init[k]).start
                > m.start by {
                assert(init[k] == sorted[k]);
            }
        }
        lemma_insert_at_slot(init, m, at);
        assert(sorted.insert(at, m) =~= init.insert(at, m).push(sorted.last()));
    }
}

/// Inserting into an ascending sequence leaves it ascending, with the same
/// matches and one more.
pub proof fn lemma_insert_by_start(sorted: Seq<RawMatch>, m: RawMatch)
    requires
        ascending(sorted),
    ensures
        ascending(insert_by_start(sorted, m)),
        insert_by_start(sorted, m).to_multiset() == sorted.to_multiset().insert(m),
        insert_by_start(sorted, m).len() == sorted.len() + 1,
    decreases sorted.len(),
{
    broadcast use vstd::seq_lib::group_to_multiset_ensures;

    if sorted.len() == 0 || sorted.last().start <= m.start {
        let out = sorted.push(m);
        assert forall|i: int, j: int| 0 <= i <= j < out.len() implies out[i].start
            <= out[j].start by {
            if j == sorted.len() && i < j {
                assert(sorted[i].start <= sorted[sorted.len() - 1].start);
            }
        }
    } else {
        let init = sorted.drop_last();
        let last = sorted.last();
        assert(ascending(init)) by {
            assert forall|i: int, j: int| 0 <= i <= j < init.len() implies init[i].start
                <= init[j].start by {
                assert(sorted[i].start <= sorted[j].start);
            }
        }
        lemma_insert_by_start(init, m);
        let mid = insert_by_start(init, m);
        let out = mid.push(last);
        assert forall|k: int| 0 <= k < mid.len() implies (#[trigger] mid[k]).start
            <= last.start by {
            assert(mid.to_multiset().count(mid[k]) > 0);
            if mid[k] != m {
                assert(init.to_multiset().count(mid[k]) > 0);
                let p = choose|p: int| 0 <= p < init.len() && init[p] == mid[k];
                assert(sorted[p].start <= sorted[sorted.len() - 1].start);
            }
        }
        assert forall|i: int, j: int| 0 <= i <= j < out.len() implies out[i].start
            <= out[j].start by {
            if j < mid.len() {
                assert(mid[i].start <= mid[j].start);
            } else if i < j {
                assert(mid[i].start <= last.start);
            }
        }
        assert(sorted =~= init.push(last));
        assert(out.to_multiset() =~= sorted.to_multiset().insert(m));
    }
}

/// The sorted matches are ascending, and they are the given matches, each as
/// often as it was given.
pub proof fn lemma_sort_by_start(matches: Seq<RawMatch>)
    ensures
        ascending(sort_by_start(matches)),
        sort_by_start(matches).to_multiset() == matches.to_multiset(),
        sort_by_start(matches).len() == matches.len(),
    decreases matches.len(),
{
    broadcast use vstd::seq_lib::group_to_multiset_ensures;

    if matches.len() > 0 {
        lemma_sort_by_start(matches.drop_last());
        lemma_insert_by_start(sort_by_start(matches.drop_last()), matches.last());
        assert(matches =~= matches.drop_last().push(matches.last()));
    }
}

/// Sorting keeps the order of the matches that start at the same offset.
pub proof fn lemma_sort_is_stable(matches: Seq<RawMatch>, start: usize)
    ensures
        sort_by_start(matches).filter(starts_at(start)) == matches.filter(starts_at(start)),
    decreases matches.len(),
{
    reveal(Seq::filter);
    if matches.len() > 0 {
        let init = matches.drop_last();
        lemma_sort_is_stable(init, start);
        lemma_insert_keeps_order(sort_by_start(init), matches.last(), start);
    }
}

/// Inserting `m` adds it behind the matches with its start and leaves the
/// matches with any other start as they were.
pub proof fn lemma_insert_keeps_order(sorted: Seq<RawMatch>, m: RawMatch, start: usize)
    ensures
        insert_by_start(sorted, m).filter(starts_at(start)) == if m.start == start {
            sorted.filter(starts_at(start)).push(m)
        } else {
            sorted.filter(starts_at(start))
        },
    decreases sorted.len(),
{
    if sorted.len() == 0 || sorted.last().start <= m.start {
        sorted.lemma_filter_push(m, starts_at(start));
    } else {
        let init = sorted.drop_last();
        let last = sorted.last();
        lemma_insert_keeps_order(init, m, start);
        insert_by_start(init, m).lemma_filter_push(last, starts_at(start));
        init.lemma_filter_push(last, starts_at(start));
        assert(sorted =~= init.push(last));
    }
}

/// Puts the matches in ascending order of start; matches with the same start
/// keep the order they came in.
pub fn sort_matches(matches: Vec<RawMatch>) -> (sorted: Vec<RawMatch>)
    ensures
        sorted@ == sort_by_start(matches@),
        ascending(sorted@),
        sorted@.to_multiset() == matches@.to_multiset(),
{
    let mut sorted: Vec<RawMatch> = Vec::new();
    let mut i: usize = 0;
    while i < matches.len()
        invariant
            i <= matches@.len(),
            sorted@ == sort_by_start(matches@.take(i as int)),
            sorted@.len() == i,
        decreases matches@.len() - i,
    {
        let m = matches[i];
        let mut at: usize = sorted.len();
        while at > 0 && sorted[at - 1].start > m.start
            invariant
                at <= sorted@.len(),
                forall|k: int| at <= k < sorted@.len() ==> (#[trigger] sorted@[k]).start > m.start,
            decreases at,
        {
            at -= 1;
        }
        proof {
            lemma_insert_at_slot(sorted@, m, at as int);
            assert(matches@.take(i + 1).drop_last() =~= matches@.take(i as int));
            assert(matches@.take(i + 1).last() == m);
        }
        sorted.insert(at, m);
        i += 1;
    }
    proof {
        assert(matches@.take(i as int) =~= matches@);
        lemma_sort_by_start(matches@);
    }
    sorted
}

/// The offset from which the next match may start: the end of the last
/// match accepted, or 0 where there is none.
pub open spec fn cursor_after(accepted: Seq<RawMatch>) -> int {
    if accepted.len() == 0 {
        0
    } else {
        accepted.last().end as int
    }
}

/// The accepted matches after `m` was looked at: `m` is accepted when it
/// starts at or after the cursor.
pub open spec fn accept(accepted: Seq<RawMatch>, m: RawMatch) -> Seq<RawMatch> {
    if m.start >= cursor_after(accepted) {
        accepted.push(m)
    } else {
        accepted
    }
}

/// The matches that the greedy pass accepts from `matches`, taken in order.
pub open spec fn select_greedy(matches: Seq<RawMatch>) -> Seq<RawMatch>
    decreases matches.len(),
{
    if matches.len() == 0 {
        matches
    } else {
        accept(select_greedy(matches.drop_last()), matches.last())
    }
}

/// The matches that remain of the raw matches: sorted by start, then
/// selected greedily.
pub open spec fn resolve(raw: Seq<RawMatch>) -> Seq<RawMatch> {
    select_greedy(sort_by_start(raw))
}

/// No match is empty or reversed.
pub open spec fn all_proper(matches: Seq<RawMatch>) -> bool {
    forall|i: int| 0 <= i < matches.len() ==> (#[trigger] matches[i]).start < matches[i].end
}

/// Each match ends before the next begins, or where it begins.
pub open spec fn non_overlapping(matches: Seq<RawMatch>) -> bool {
    forall|i: int, j: int|
        #![trigger matches[i], matches[j]]
        0 <= i < j < matches.len() ==> matches[i].end <= matches[j].start
}

/// Whatever the matches and their order, as long as none is empty or
/// reversed: the accepted ones do not overlap, so they are in ascending order
/// of start.
pub proof fn lemma_select_greedy(matches: Seq<RawMatch>)
    requires
        all_proper(matches),
    ensures
        non_overlapping(select_greedy(matches)),
        all_proper(select_greedy(matches)),
        ascending(select_greedy(matches)),
    decreases matches.len(),
{
    if matches.len() > 0 {
        let init = matches.drop_last();
        let last = matches.last();
        lemma_select_greedy(init);
        let before = select_greedy(init);
        let out = select_greedy(matches);
        if last.start >= cursor_after(before) {
            assert forall|i: int, j: int| 0 <= i < j < out.len() implies out[i].end
                <= out[j].start by {
                if j == before.len() && i < before.len() - 1 {
                    assert(before[i].end <= before[before.len() - 1].start);
                }
            }
        }
    }
}

/// Keeps each match that starts at or after the end of the last match kept.
pub fn select_matches(matches: &Vec<RawMatch>) -> (accepted: Vec<RawMatch>)
    ensures
        accepted@ == select_greedy(matches@),
{
    let mut accepted: Vec<RawMatch> = Vec::new();
    let mut cursor: usize = 0;
    let mut i: usize = 0;
    while i < matches.len()
        invariant
            i <= matches@.len(),
            accepted@ == select_greedy(matches@.take(i as int)),
            cursor == cursor_after(accepted@),
        decreases matches@.len() - i,
    {
        let m = matches[i];
        proof {
            assert(matches@.take(i + 1).drop_last() =~= matches@.take(i as int));
            assert(matches@.take(i + 1).last() == m);
        }
        if m.start >= cursor {
            cursor = m.end;
            accepted.push(m);
        }
        i += 1;
    }
    proof {
        assert(matches@.take(i as int) =~= matches@);
    }
    accepted
}

/// Resolves the overlaps among `raw`: sorts by start, then selects greedily.
pub fn resolve_overlaps(raw: Vec<RawMatch>) -> (accepted: Vec<RawMatch>)
    ensures
        accepted@ == resolve(raw@),
        all_proper(raw@) ==> non_overlapping(accepted@) && all_proper(accepted@) && ascending(
            accepted@,
        ),
        forall|i: int| 0 <= i < accepted@.len() ==> raw@.contains(#[trigger] accepted@[i]),
{
    let sorted = sort_matches(raw);
    let accepted = select_matches(&sorted);
    proof {
        lemma_resolve(raw@);
    }
    accepted
}

/// What holds of the resolved matches: each is one of the raw matches, and
/// where no raw match is empty or reversed they do not overlap.
pub proof fn lemma_resolve(raw: Seq<RawMatch>)
    ensures
        all_proper(raw) ==> non_overlapping(resolve(raw)) && all_proper(resolve(raw)) && ascending(
            resolve(raw),
        ),
        forall|i: int| 0 <= i < resolve(raw).len() ==> raw.contains(#[trigger] resolve(raw)[i]),
{
    broadcast use vstd::seq_lib::group_to_multiset_ensures;

    let sorted = sort_by_start(raw);
    lemma_sort_by_start(raw);
    assert forall|i: int| 0 <= i < sorted.len() implies raw.contains(#[trigger] sorted[i]) by {
        assert(sorted.to_multiset().count(sorted[i]) > 0);
    }
    if all_proper(raw) {
        assert forall|i: int| 0 <= i < sorted.len() implies (#[trigger] sorted[i]).start
            < sorted[i].end by {
            assert(raw.contains(sorted[i]));
        }
        lemma_select_greedy(sorted);
    }
    lemma_accepted_were_given(sorted);
}

/// Each accepted match is one of the matches looked at.
pub proof fn lemma_accepted_were_given(matches: Seq<RawMatch>)
    ensures
        forall|i: int|
            0 <= i < select_greedy(matches).len() ==> matches.contains(
                #[trigger] select_greedy(matches)[i],
            ),
    decreases matches.len(),
{
    if matches.len() > 0 {
        let init = matches.drop_last();
        lemma_accepted_were_given(init);
        let before = select_greedy(init);
        let out = select_greedy(matches);
        assert forall|i: int| 0 <= i < out.len() implies matches.contains(#[trigger] out[i]) by {
            if i < before.len() {
                assert(init.contains(before[i]));
                let p = choose|p: int| 0 <= p < init.len() && init[p] == before[i];
                assert(matches[p] == before[i]);
            } else {
                assert(matches[matches.len() - 1] == matches.last());
            }
        }
    }
}

} // verus!
