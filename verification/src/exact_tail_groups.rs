//! Parting a history into groups for exact-tail compaction: items that share a call id, and all
//! that lies between them, are one group.

use crate::exact_tail::{
    class_of, classify_exact_tail_history_item, ExactTailItemClass,
};
use crate::item::{
    clone_option, item_views, option_view, BodyView, ItemBody, ItemView, ResponseItem,
};
use crate::session_model::{estimate_items_tokens, total_tokens, SessionModel};
use vstd::prelude::*;

verus! {

// ---------------------------------------------------------------------------------------------
// Merging intervals.
// ---------------------------------------------------------------------------------------------

/// An interval with both ends in it.
pub type Interval = (usize, usize);

/// Some interval holds the point.
pub open spec fn covered(intervals: Seq<Interval>, x: int) -> bool {
    exists|k: int|
        0 <= k < intervals.len() && (#[trigger] intervals[k]).0 <= x && x <= intervals[k].1
}

/// Some interval holds the point and the one behind it.
pub open spec fn joined_at(intervals: Seq<Interval>, x: int) -> bool {
    exists|k: int|
        0 <= k < intervals.len() && (#[trigger] intervals[k]).0 <= x && x < intervals[k].1
}

/// The intervals are not empty.
pub open spec fn intervals_wf(intervals: Seq<Interval>) -> bool {
    forall|k: int| 0 <= k < intervals.len() ==> (#[trigger] intervals[k]).0 <= intervals[k].1
}

/// Each interval ends before the next one starts.
pub open spec fn separated(intervals: Seq<Interval>) -> bool {
    forall|i: int, j: int|
        0 <= i < j < intervals.len() ==> (#[trigger] intervals[i]).1 < (#[trigger] intervals[j]).0
}

pub open spec fn sorted_starts(intervals: Seq<Interval>) -> bool {
    forall|i: int, j: int|
        0 <= i < j < intervals.len() ==> (#[trigger] intervals[i]).0 <= (
        #[trigger] intervals[j]).0
}

/// Puts the intervals in the order of their starts.
fn sort_by_start(intervals: Vec<Interval>) -> (sorted: Vec<Interval>)
    ensures
        sorted_starts(sorted@),
        forall|x: int| #[trigger] covered(sorted@, x) == covered(intervals@, x),
        forall|x: int| #[trigger] joined_at(sorted@, x) == joined_at(intervals@, x),
        intervals_wf(intervals@) ==> intervals_wf(sorted@),
{
    let mut sorted: Vec<Interval> = Vec::new();
    let mut i: usize = 0;
    while i < intervals.len()
        invariant
            i <= intervals@.len(),
            sorted_starts(sorted@),
            sorted@.len() == i,
            forall|x: int| #[trigger]
                covered(sorted@, x) == covered(intervals@.subrange(0, i as int), x),
            forall|x: int| #[trigger]
                joined_at(sorted@, x) == joined_at(intervals@.subrange(0, i as int), x),
            intervals_wf(intervals@) ==> intervals_wf(sorted@),
        decreases intervals@.len() - i,
    {
        let interval: Interval = intervals[i];
        let ghost before = sorted@;
        let mut at: usize = sorted.len();
        while at > 0 && sorted[at - 1].0 > interval.0
            invariant
                at <= sorted@.len(),
                sorted@ == before,
                sorted_starts(before),
                forall|k: int| at <= k < before.len() ==> (#[trigger] before[k]).0 > interval.0,
            ensures
                at == 0 || before[at - 1].0 <= interval.0,
            decreases at,
        {
            at -= 1;
        }
        sorted.insert(at, interval);
        proof {
            let after = sorted@;
            let part = intervals@.subrange(0, i as int);
            let next = intervals@.subrange(0, i + 1);
            assert(next =~= part.push(interval));
            assert forall|a: int, b: int| 0 <= a < b < after.len() implies (#[trigger] after[a]).0
                <= (#[trigger] after[b]).0 by {
                if a < at && at > 0 {
                    assert(before[a].0 <= before[at - 1].0 || a == at - 1);
                }
            }
            assert forall|x: int| #[trigger] covered(after, x) == covered(next, x) by {
                lemma_covered_insert(before, at as int, interval, x);
                lemma_covered_insert(part, part.len() as int, interval, x);
                assert(part.insert(part.len() as int, interval) =~= next);
            }
            assert forall|x: int| #[trigger] joined_at(after, x) == joined_at(next, x) by {
                lemma_joined_insert(before, at as int, interval, x);
                lemma_joined_insert(part, part.len() as int, interval, x);
                assert(part.insert(part.len() as int, interval) =~= next);
            }
            if intervals_wf(intervals@) {
                assert(intervals@[i as int].0 <= intervals@[i as int].1);
                assert forall|k: int| 0 <= k < after.len() implies (#[trigger] after[k]).0
                    <= after[k].1 by {
                    if k < at {
                        assert(after[k] == before[k]);
                    } else if k > at {
                        assert(after[k] == before[k - 1]);
                    }
                }
            }
        }
        i += 1;
    }
    assert(intervals@.subrange(0, i as int) =~= intervals@);
    sorted
}

proof fn lemma_covered_insert(s: Seq<Interval>, at: int, interval: Interval, x: int)
    requires
        0 <= at <= s.len(),
    ensures
        covered(s.insert(at, interval), x) == (covered(s, x) || (interval.0 <= x && x
            <= interval.1)),
{
    let t = s.insert(at, interval);
    if covered(t, x) {
        let k = choose|k: int| 0 <= k < t.len() && (#[trigger] t[k]).0 <= x && x <= t[k].1;
        if k < at {
            assert(s[k] == t[k]);
        } else if k > at {
            assert(s[k - 1] == t[k]);
        }
    }
    if covered(s, x) {
        let k = choose|k: int| 0 <= k < s.len() && (#[trigger] s[k]).0 <= x && x <= s[k].1;
        if k < at {
            assert(t[k] == s[k]);
        } else {
            assert(t[k + 1] == s[k]);
        }
    }
    if interval.0 <= x && x <= interval.1 {
        assert(t[at] == interval);
    }
}

proof fn lemma_joined_insert(s: Seq<Interval>, at: int, interval: Interval, x: int)
    requires
        0 <= at <= s.len(),
    ensures
        joined_at(s.insert(at, interval), x) == (joined_at(s, x) || (interval.0 <= x && x
            < interval.1)),
{
    let t = s.insert(at, interval);
    if joined_at(t, x) {
        let k = choose|k: int| 0 <= k < t.len() && (#[trigger] t[k]).0 <= x && x < t[k].1;
        if k < at {
            assert(s[k] == t[k]);
        } else if k > at {
            assert(s[k - 1] == t[k]);
        }
    }
    if joined_at(s, x) {
        let k = choose|k: int| 0 <= k < s.len() && (#[trigger] s[k]).0 <= x && x < s[k].1;
        if k < at {
            assert(t[k] == s[k]);
        } else {
            assert(t[k + 1] == s[k]);
        }
    }
    if interval.0 <= x && x < interval.1 {
        assert(t[at] == interval);
    }
}

proof fn lemma_covered_replace_last(s: Seq<Interval>, last: Interval, x: int)
    requires
        s.len() > 0,
        s.last().0 == last.0,
        s.last().1 <= last.1,
    ensures
        covered(s.update(s.len() - 1, last), x) == (covered(s, x) || (last.0 <= x && x <= last.1)),
        joined_at(s.update(s.len() - 1, last), x) == (joined_at(s, x) || (last.0 <= x && x
            < last.1)),
{
    let n = s.len() - 1;
    let t = s.update(n, last);
    let rest = s.drop_last();
    assert(s =~= rest.insert(n, s.last()));
    assert(t =~= rest.insert(n, last));
    lemma_covered_insert(rest, n, s.last(), x);
    lemma_covered_insert(rest, n, last, x);
    lemma_joined_insert(rest, n, s.last(), x);
    lemma_joined_insert(rest, n, last, x);
}

/// Merges intervals that overlap. The result holds the same points, joins the same neighbours, and
/// its intervals are in order and apart: it is the one list of which all this holds.
pub fn merge_intervals(intervals: Vec<Interval>) -> (merged: Vec<Interval>)
    requires
        intervals_wf(intervals@),
    ensures
        separated(merged@),
        intervals_wf(merged@),
        forall|x: int| #[trigger] covered(merged@, x) == covered(intervals@, x),
        forall|x: int| #[trigger] joined_at(merged@, x) == joined_at(intervals@, x),
{
    let sorted = sort_by_start(intervals);
    let mut merged: Vec<Interval> = Vec::new();
    let mut i: usize = 0;
    while i < sorted.len()
        invariant
            i <= sorted@.len(),
            sorted_starts(sorted@),
            intervals_wf(sorted@),
            separated(merged@),
            intervals_wf(merged@),
            merged@.len() > 0 ==> i > 0 && merged@.last().0 <= sorted@[i - 1].0,
            forall|x: int| #[trigger]
                covered(merged@, x) == covered(sorted@.subrange(0, i as int), x),
            forall|x: int| #[trigger]
                joined_at(merged@, x) == joined_at(sorted@.subrange(0, i as int), x),
        decreases sorted@.len() - i,
    {
        let interval: Interval = sorted[i];
        let ghost before = merged@;
        let ghost part = sorted@.subrange(0, i as int);
        let ghost next = sorted@.subrange(0, i + 1);
        proof {
            assert(next =~= part.insert(part.len() as int, interval));
            assert(sorted@[i as int].0 <= sorted@[i as int].1);
            if i > 0 {
                assert(sorted@[i - 1].0 <= sorted@[i as int].0);
            }
        }
        let n: usize = merged.len();
        if n > 0 && interval.0 <= merged[n - 1].1 {
            let last: Interval = merged[n - 1];
            let wider: Interval = (
                last.0,
                if last.1 >= interval.1 {
                    last.1
                } else {
                    interval.1
                },
            );
            merged.set(n - 1, wider);
            proof {
                let after = merged@;
                assert(after =~= before.update(n - 1, wider));
                assert forall|x: int| #[trigger] covered(after, x) == covered(next, x) by {
                    lemma_covered_replace_last(before, wider, x);
                    lemma_covered_insert(part, part.len() as int, interval, x);
                    if last.0 <= x && x <= last.1 {
                        assert(before[n - 1] == last);
                        assert(covered(before, x));
                    }
                    assert(covered(before, x) == covered(part, x));
                }
                assert forall|x: int| #[trigger] joined_at(after, x) == joined_at(next, x) by {
                    lemma_covered_replace_last(before, wider, x);
                    lemma_joined_insert(part, part.len() as int, interval, x);
                    if last.0 <= x && x < last.1 {
                        assert(before[n - 1] == last);
                        assert(joined_at(before, x));
                    }
                    assert(joined_at(before, x) == joined_at(part, x));
                }
                assert(before[n - 1].0 <= before[n - 1].1);
            }
        } else {
            merged.push(interval);
            proof {
                let after = merged@;
                assert(after =~= before.insert(before.len() as int, interval));
                assert forall|x: int| #[trigger] covered(after, x) == covered(next, x) by {
                    lemma_covered_insert(before, before.len() as int, interval, x);
                    lemma_covered_insert(part, part.len() as int, interval, x);
                    assert(covered(before, x) == covered(part, x));
                }
                assert forall|x: int| #[trigger] joined_at(after, x) == joined_at(next, x) by {
                    lemma_joined_insert(before, before.len() as int, interval, x);
                    lemma_joined_insert(part, part.len() as int, interval, x);
                    assert(joined_at(before, x) == joined_at(part, x));
                }
                assert forall|a: int, b: int| 0 <= a < b < after.len() implies (
                #[trigger] after[a]).1 < (#[trigger] after[b]).0 by {
                    if b == n && a < n - 1 {
                        assert(before[a].1 < before[n - 1].0);
                        assert(before[n - 1].0 <= before[n - 1].1);
                    }
                }
            }
        }
        i += 1;
    }
    assert(sorted@.subrange(0, i as int) =~= sorted@);
    merged
}

// ---------------------------------------------------------------------------------------------
// Items that belong together.
// ---------------------------------------------------------------------------------------------

/// The call id of a tool call or of its output.
pub open spec fn dependency(item: ItemView) -> Option<Seq<char>> {
    match item.body {
        BodyView::LocalShellCall { call_id, status, action } => call_id,
        BodyView::ToolSearchCall { call_id, status, execution, arguments } => call_id,
        BodyView::ToolSearchOutput { call_id, status, execution, tools } => call_id,
        BodyView::FunctionCall { name, namespace, arguments, call_id } => Some(call_id),
        BodyView::FunctionCallOutput { call_id, output } => Some(call_id),
        BodyView::CustomToolCall { status, call_id, name, input } => Some(call_id),
        BodyView::CustomToolCallOutput { call_id, name, output } => Some(call_id),
        _ => None,
    }
}

pub fn dependency_key(item: &ResponseItem) -> (r: Option<String>)
    ensures
        option_view(r) == dependency(item@),
{
    match &item.body {
        ItemBody::LocalShellCall { call_id, status: _, action: _ } => clone_option(call_id),
        ItemBody::ToolSearchCall { call_id, status: _, execution: _, arguments: _ } => clone_option(
            call_id,
        ),
        ItemBody::ToolSearchOutput { call_id, status: _, execution: _, tools: _ } => clone_option(
            call_id,
        ),
        ItemBody::FunctionCall { name: _, namespace: _, arguments: _, call_id } => Some(
            call_id.clone(),
        ),
        ItemBody::FunctionCallOutput { call_id, output: _ } => Some(call_id.clone()),
        ItemBody::CustomToolCall { status: _, call_id, name: _, input: _ } => Some(call_id.clone()),
        ItemBody::CustomToolCallOutput { call_id, name: _, output: _ } => Some(call_id.clone()),
        _ => None,
    }
}

/// The two items have the same call id.
pub open spec fn dependent(items: Seq<ItemView>, a: int, b: int) -> bool {
    &&& 0 <= a < items.len()
    &&& 0 <= b < items.len()
    &&& dependency(items[a]) is Some
    &&& dependency(items[a]) == dependency(items[b])
}

/// The item at `x` and the next one belong together: a call id occurs at `x` or before, and again
/// behind `x`.
pub open spec fn tied(items: Seq<ItemView>, x: int) -> bool {
    exists|a: int, b: int| a <= x < b && #[trigger] dependent(items, a, b)
}

/// The last item of the group that holds the item at `at`.
pub open spec fn segment_end(items: Seq<ItemView>, at: int) -> int
    decreases items.len() - at,
{
    if at + 1 >= items.len() || !tied(items, at) {
        at
    } else {
        segment_end(items, at + 1)
    }
}

/// The groups from `start` on, each by its first and its last item.
pub open spec fn segments_from(items: Seq<ItemView>, start: int) -> Seq<(int, int)>
    decreases items.len() - start,
    via segments_decreases
{
    if start < 0 || start >= items.len() {
        Seq::empty()
    } else {
        seq![(start, segment_end(items, start))] + segments_from(
            items,
            segment_end(items, start) + 1,
        )
    }
}

#[via_fn]
proof fn segments_decreases(items: Seq<ItemView>, start: int) {
    if 0 <= start < items.len() {
        lemma_segment_end(items, start);
    }
}

pub proof fn lemma_segment_end(items: Seq<ItemView>, at: int)
    requires
        0 <= at < items.len(),
    ensures
        at <= segment_end(items, at) < items.len(),
        forall|x: int| at <= x < segment_end(items, at) ==> #[trigger] tied(items, x),
        segment_end(items, at) + 1 < items.len() ==> !tied(items, segment_end(items, at)),
    decreases items.len() - at,
{
    if at + 1 < items.len() && tied(items, at) {
        lemma_segment_end(items, at + 1);
    }
}

fn same_dependency(items: &Vec<ResponseItem>, a: usize, key: &String) -> (r: bool)
    requires
        a < items@.len(),
    ensures
        r == (dependency(items@[a as int]@) == Some(key@)),
{
    match dependency_key(&items[a]) {
        Some(other) => other == *key,
        None => false,
    }
}

/// One interval holds both points.
pub open spec fn held(intervals: Seq<Interval>, a: int, b: int) -> bool {
    exists|k: int| 0 <= k < intervals.len() && (#[trigger] intervals[k]).0 <= a && b <= intervals[k].1
}

/// No earlier item has the call id of the item at `at`.
pub open spec fn opens(items: Seq<ItemView>, at: int) -> bool {
    dependency(items[at]) is Some && forall|k: int|
        0 <= k < at ==> dependency(#[trigger] items[k]) != dependency(items[at])
}

/// The last item with the call id that the item at `at` is the first to have.
fn span_opened(items: &Vec<ResponseItem>, at: usize) -> (r: Option<usize>)
    requires
        at < items@.len(),
    ensures
        ({
            let all = item_views(items@);
            match r {
                Some(last) => opens(all, at as int) && at < last < items@.len() && dependent(
                    all,
                    at as int,
                    last as int,
                ) && forall|k: int|
                    last < k < all.len() ==> dependency(#[trigger] all[k]) != dependency(
                        all[at as int],
                    ),
                None => !opens(all, at as int) || forall|k: int|
                    at < k < all.len() ==> dependency(#[trigger] all[k]) != dependency(
                        all[at as int],
                    ),
            }
        }),
{
    let ghost all = item_views(items@);
    let n: usize = items.len();
    assert(all[at as int] == items@[at as int]@);
    let key = match dependency_key(&items[at]) {
        Some(key) => key,
        None => {
            return None;
        },
    };
    let mut first: usize = 0;
    while first < at
        invariant
            first <= at < n,
            n == items@.len(),
            all == item_views(items@),
            dependency(all[at as int]) == Some(key@),
            forall|k: int| 0 <= k < first ==> dependency(#[trigger] all[k]) != Some(key@),
        decreases at - first,
    {
        assert(all[first as int] == items@[first as int]@);
        if same_dependency(items, first, &key) {
            return None;
        }
        first += 1;
    }
    let mut last: usize = n - 1;
    while last > at
        invariant
            at <= last < n,
            n == items@.len(),
            all == item_views(items@),
            dependency(all[at as int]) == Some(key@),
            opens(all, at as int),
            forall|k: int| last < k < n ==> dependency(#[trigger] all[k]) != Some(key@),
        decreases last,
    {
        assert(all[last as int] == items@[last as int]@);
        if same_dependency(items, last, &key) {
            return Some(last);
        }
        last -= 1;
    }
    None
}

/// The first occurrence of the call id of the item at `at`.
proof fn lemma_first_occurrence(items: Seq<ItemView>, at: int) -> (first: int)
    requires
        0 <= at < items.len(),
        dependency(items[at]) is Some,
    ensures
        0 <= first <= at,
        dependency(items[first]) == dependency(items[at]),
        opens(items, first),
    decreases at,
{
    if opens(items, at) {
        at
    } else {
        let k = choose|k: int| 0 <= k < at && dependency(#[trigger] items[k]) == dependency(items[at]);
        lemma_first_occurrence(items, k)
    }
}

/// The first and the last item of each call id that occurs more than once.
fn dependency_intervals(items: &Vec<ResponseItem>) -> (intervals: Vec<Interval>)
    ensures
        intervals_wf(intervals@),
        forall|k: int|
            0 <= k < intervals@.len() ==> (#[trigger] intervals@[k]).1 < items@.len(),
        forall|x: int| #[trigger]
            joined_at(intervals@, x) == tied(item_views(items@), x),
{
    let ghost all = item_views(items@);
    let n: usize = items.len();
    let mut intervals: Vec<Interval> = Vec::new();
    let mut i: usize = 0;
    while i < n
        invariant
            n == items@.len(),
            i <= n,
            all == item_views(items@),
            forall|k: int|
                0 <= k < intervals@.len() ==> (#[trigger] intervals@[k]).0 < intervals@[k].1
                    && intervals@[k].1 < n && dependent(
                    all,
                    intervals@[k].0 as int,
                    intervals@[k].1 as int,
                ),
            forall|a: int, b: int|
                #![trigger dependent(all, a, b)]
                0 <= a < i && a < b && opens(all, a) && dependent(all, a, b) ==> held(
                    intervals@,
                    a,
                    b,
                ),
        decreases n - i,
    {
        let ghost before = intervals@;
        let span: Option<usize> = span_opened(items, i);
        if let Some(last) = span {
            intervals.push((i, last));
        }
        proof {
            let after = intervals@;
            assert forall|a: int, b: int|
                #![trigger dependent(all, a, b)]
                0 <= a < i + 1 && a < b && opens(all, a) && dependent(all, a, b) implies held(
                after,
                a,
                b,
            ) by {
                if a < i {
                    assert(held(before, a, b));
                    let k = choose|k: int|
                        0 <= k < before.len() && (#[trigger] before[k]).0 <= a && b <= before[k].1;
                    assert(after[k] == before[k]);
                } else {
                    assert(span is Some);
                    assert(after[before.len() as int].0 <= a && b <= after[before.len() as int].1);
                }
            }
        }
        i += 1;
    }
    proof {
        assert forall|x: int| #[trigger] joined_at(intervals@, x) == tied(all, x) by {
            lemma_joined_is_tied(all, intervals@, x);
        }
    }
    intervals
}

proof fn lemma_joined_is_tied(items: Seq<ItemView>, intervals: Seq<Interval>, x: int)
    requires
        forall|k: int|
            0 <= k < intervals.len() ==> dependent(
                items,
                (#[trigger] intervals[k]).0 as int,
                intervals[k].1 as int,
            ),
        forall|a: int, b: int|
            #![trigger dependent(items, a, b)]
            0 <= a < items.len() && a < b && opens(items, a) && dependent(items, a, b) ==> held(
                intervals,
                a,
                b,
            ),
    ensures
        joined_at(intervals, x) == tied(items, x),
{
    if joined_at(intervals, x) {
        let k = choose|k: int|
            0 <= k < intervals.len() && (#[trigger] intervals[k]).0 <= x && x < intervals[k].1;
        assert(dependent(items, intervals[k].0 as int, intervals[k].1 as int));
    }
    if tied(items, x) {
        let (a, b) = choose|a: int, b: int| a <= x < b && #[trigger] dependent(items, a, b);
        let first = lemma_first_occurrence(items, a);
        assert(dependent(items, first, b));
        assert(held(intervals, first, b));
        let k = choose|k: int|
            0 <= k < intervals.len() && (#[trigger] intervals[k]).0 <= first && b <= intervals[k].1;
        assert(intervals[k].0 <= x && x < intervals[k].1);
    }
}

pub open spec fn interval_views(intervals: Seq<Interval>) -> Seq<(int, int)> {
    intervals.map_values(|i: Interval| (i.0 as int, i.1 as int))
}

/// There is only one list of separated intervals that holds every item and joins exactly the items
/// that are tied.
proof fn lemma_segments_unique(items: Seq<ItemView>, merged: Seq<Interval>, k: int, start: int)
    requires
        separated(merged),
        intervals_wf(merged),
        forall|x: int| #[trigger] covered(merged, x) == (0 <= x < items.len()),
        forall|x: int| #[trigger] joined_at(merged, x) == tied(items, x),
        0 <= k <= merged.len(),
        0 <= start <= items.len(),
        // Everything before `start` is held by the first `k` intervals, and nothing else is.
        forall|j: int| 0 <= j < k ==> (#[trigger] merged[j]).1 < start,
        forall|j: int| k <= j < merged.len() ==> start <= (#[trigger] merged[j]).0,
    ensures
        interval_views(merged.subrange(k, merged.len() as int)) == segments_from(items, start),
    decreases items.len() - start,
{
    let rest = merged.subrange(k, merged.len() as int);
    if start == items.len() {
        if k < merged.len() {
            assert(merged[k].0 <= merged[k].1);
            assert(covered(merged, merged[k].0 as int));
            assert(false);
        }
        assert(interval_views(rest) =~= segments_from(items, start));
    } else {
        // The item at `start` is held by the interval at `k`.
        assert(covered(merged, start));
        let j = choose|j: int|
            0 <= j < merged.len() && (#[trigger] merged[j]).0 <= start && start <= merged[j].1;
        assert(j >= k);
        if j > k {
            assert(merged[k].1 < merged[j].0);
            assert(merged[k].0 <= merged[k].1);
        }
        assert(j == k && merged[k].0 == start);
        let end = merged[k].1 as int;
        assert(covered(merged, end));
        lemma_segment_end(items, start);
        let expected = segment_end(items, start);
        if expected < end {
            assert(merged[k].0 <= expected && expected < merged[k].1);
            assert(joined_at(merged, expected));
            assert(tied(items, expected));
        }
        if end < expected {
            assert(tied(items, end));
            assert(joined_at(merged, end));
            let m = choose|m: int|
                0 <= m < merged.len() && (#[trigger] merged[m]).0 <= end && end < merged[m].1;
            if m < k {
                assert(merged[m].1 < start);
            } else if m > k {
                assert(merged[k].1 < merged[m].0);
            }
        }
        assert(end == expected);
        assert forall|i: int| 0 <= i < k + 1 implies (#[trigger] merged[i]).1 < end + 1 by {
            if i < k {
                assert(merged[i].1 < start);
            }
        }
        assert forall|i: int| k + 1 <= i < merged.len() implies end + 1 <= (
        #[trigger] merged[i]).0 by {
            assert(merged[k].1 < merged[i].0);
        }
        lemma_segments_unique(items, merged, k + 1, end + 1);
        let shorter = merged.subrange(k + 1, merged.len() as int);
        assert(rest =~= seq![merged[k]] + shorter);
        assert(interval_views(rest) =~= seq![(start, end)] + interval_views(shorter));
    }
}

/// The first and the last item of each group.
fn group_intervals(items: &Vec<ResponseItem>) -> (merged: Vec<Interval>)
    ensures
        interval_views(merged@) == segments_from(item_views(items@), 0),
        forall|k: int|
            0 <= k < merged@.len() ==> (#[trigger] merged@[k]).0 <= merged@[k].1 && merged@[k].1
                < items@.len(),
{
    let ghost all = item_views(items@);
    let n: usize = items.len();
    let mut intervals = dependency_intervals(items);
    let ghost spans = intervals@;
    let mut i: usize = 0;
    while i < n
        invariant
            n == items@.len(),
            i <= n,
            intervals_wf(intervals@),
            spans.len() + i == intervals@.len(),
            forall|k: int| 0 <= k < spans.len() ==> #[trigger] intervals@[k] == spans[k],
            forall|k: int|
                spans.len() <= k < intervals@.len() ==> #[trigger] intervals@[k] == (
                    (k - spans.len()) as usize,
                    (k - spans.len()) as usize,
                ),
        decreases n - i,
    {
        intervals.push((i, i));
        i += 1;
    }
    proof {
        assert forall|x: int| #[trigger] covered(intervals@, x) == (0 <= x < n) by {
            if 0 <= x < n {
                assert(intervals@[spans.len() + x] == (x as usize, x as usize));
            }
        }
        assert forall|x: int| #[trigger] joined_at(intervals@, x) == tied(all, x) by {
            if joined_at(intervals@, x) {
                let k = choose|k: int|
                    0 <= k < intervals@.len() && (#[trigger] intervals@[k]).0 <= x && x
                        < intervals@[k].1;
                assert(k < spans.len());
                assert(spans[k] == intervals@[k]);
                assert(joined_at(spans, x));
            }
            if tied(all, x) {
                assert(joined_at(spans, x));
                let k = choose|k: int|
                    0 <= k < spans.len() && (#[trigger] spans[k]).0 <= x && x < spans[k].1;
                assert(intervals@[k] == spans[k]);
            }
        }
    }
    let merged = merge_intervals(intervals);
    proof {
        assert forall|x: int| #[trigger] covered(merged@, x) == (0 <= x < all.len()) by {
            assert(covered(merged@, x) == covered(intervals@, x));
        }
        assert forall|x: int| #[trigger] joined_at(merged@, x) == tied(all, x) by {
            assert(joined_at(merged@, x) == joined_at(intervals@, x));
        }
        lemma_segments_unique(all, merged@, 0, 0);
        assert(merged@.subrange(0, merged@.len() as int) =~= merged@);
        assert forall|k: int| 0 <= k < merged@.len() implies (#[trigger] merged@[k]).0
            <= merged@[k].1 && merged@[k].1 < items@.len() by {
            assert(covered(merged@, merged@[k].1 as int));
        }
    }
    merged
}

// ---------------------------------------------------------------------------------------------
// Groups.
// ---------------------------------------------------------------------------------------------

/// Items that stay or go together.
#[derive(Debug)]
pub struct ExactTailGroup {
    pub id: usize,
    pub items: Vec<ResponseItem>,
    pub tokens: i64,
}

pub struct TailGroupView {
    pub id: int,
    pub items: Seq<ItemView>,
    pub tokens: i64,
}

impl View for ExactTailGroup {
    type V = TailGroupView;

    open spec fn view(&self) -> TailGroupView {
        TailGroupView { id: self.id as int, items: item_views(self.items@), tokens: self.tokens }
    }
}

pub open spec fn tail_group_views(groups: Seq<ExactTailGroup>) -> Seq<TailGroupView> {
    groups.map_values(|g: ExactTailGroup| g@)
}

/// Historical context that is built anew for the replacement.
pub open spec fn stale<M: SessionModel>(model: M, item: ItemView) -> bool {
    class_of(model, item) == ExactTailItemClass::StaleContextWrapper || class_of(model, item)
        == ExactTailItemClass::MixedDeveloperContext
}

/// The items that take part, in order.
pub open spec fn eligible<M: SessionModel>(model: M, history: Seq<ItemView>) -> Seq<ItemView>
    decreases history.len(),
{
    if history.len() == 0 {
        history
    } else if stale(model, history.last()) {
        eligible(model, history.drop_last())
    } else {
        eligible(model, history.drop_last()).push(history.last())
    }
}

/// The indices of the items that do not.
pub open spec fn stale_indices<M: SessionModel>(model: M, history: Seq<ItemView>) -> Seq<usize>
    decreases history.len(),
{
    if history.len() == 0 {
        Seq::empty()
    } else if stale(model, history.last()) {
        stale_indices(model, history.drop_last()).push((history.len() - 1) as usize)
    } else {
        stale_indices(model, history.drop_last())
    }
}

pub open spec fn group_at<M: SessionModel>(
    model: M,
    items: Seq<ItemView>,
    segments: Seq<(int, int)>,
    k: int,
) -> TailGroupView {
    let members = items.subrange(segments[k].0, segments[k].1 + 1);
    TailGroupView { id: k, items: members, tokens: total_tokens(model, members) }
}

/// The groups of a history.
pub open spec fn tail_groups<M: SessionModel>(model: M, history: Seq<ItemView>) -> Seq<
    TailGroupView,
> {
    let items = eligible(model, history);
    let segments = segments_from(items, 0);
    Seq::new(segments.len(), |k: int| group_at(model, items, segments, k))
}

fn copy_range(items: &Vec<ResponseItem>, from: usize, to: usize) -> (r: Vec<ResponseItem>)
    requires
        from <= to <= items@.len(),
    ensures
        item_views(r@) == item_views(items@).subrange(from as int, to as int),
{
    let ghost all = item_views(items@);
    let mut r: Vec<ResponseItem> = Vec::new();
    let mut i: usize = from;
    assert(item_views(r@) =~= all.subrange(from as int, from as int));
    while i < to
        invariant
            from <= i <= to <= items@.len(),
            all == item_views(items@),
            item_views(r@) == all.subrange(from as int, i as int),
        decreases to - i,
    {
        let ghost before = item_views(r@);
        r.push(items[i].clone());
        assert(item_views(r@) =~= before.push(all[i as int]));
        assert(before.push(all[i as int]) =~= all.subrange(from as int, i + 1));
        i += 1;
    }
    r
}

/// Parts the items that take part into groups, and lists those that do not.
pub fn build_groups<M: SessionModel>(model: &M, history_items: &[ResponseItem]) -> (r: (
    Vec<ExactTailGroup>,
    Vec<usize>,
))
    ensures
        tail_group_views(r.0@) == tail_groups(*model, item_views(history_items@)),
        r.1@ == stale_indices(*model, item_views(history_items@)),
{
    let ghost history = item_views(history_items@);
    let mut items: Vec<ResponseItem> = Vec::new();
    let mut stale_groups: Vec<usize> = Vec::new();
    let mut i: usize = 0;
    assert(item_views(items@) =~= eligible(*model, history.subrange(0, 0)));
    assert(stale_groups@ =~= stale_indices(*model, history.subrange(0, 0)));
    while i < history_items.len()
        invariant
            i <= history_items@.len(),
            history == item_views(history_items@),
            item_views(items@) == eligible(*model, history.subrange(0, i as int)),
            stale_groups@ == stale_indices(*model, history.subrange(0, i as int)),
        decreases history_items@.len() - i,
    {
        let item = &history_items[i];
        proof {
            let next = history.subrange(0, i + 1);
            assert(next.drop_last() =~= history.subrange(0, i as int));
            assert(next.last() == item@);
        }
        match classify_exact_tail_history_item(model, item) {
            ExactTailItemClass::StaleContextWrapper
            | ExactTailItemClass::MixedDeveloperContext => {
                stale_groups.push(i);
            },
            _ => {
                let ghost before = item_views(items@);
                items.push(item.clone());
                assert(item_views(items@) =~= before.push(item@));
            },
        }
        i += 1;
    }
    assert(history.subrange(0, i as int) =~= history);
    let intervals = group_intervals(&items);
    let ghost all = item_views(items@);
    let ghost segments = segments_from(all, 0);
    let n: usize = items.len();
    let mut groups: Vec<ExactTailGroup> = Vec::new();
    let mut k: usize = 0;
    while k < intervals.len()
        invariant
            n == items@.len(),
            k <= intervals@.len(),
            all == item_views(items@),
            segments == interval_views(intervals@),
            forall|j: int|
                0 <= j < intervals@.len() ==> (#[trigger] intervals@[j]).0 <= intervals@[j].1
                    && intervals@[j].1 < items@.len(),
            groups@.len() == k,
            forall|j: int|
                0 <= j < k ==> (#[trigger] groups@[j])@ == group_at(*model, all, segments, j),
        decreases intervals@.len() - k,
    {
        let (start, end): (usize, usize) = intervals[k];
        assert(intervals@[k as int].0 <= intervals@[k as int].1);
        let members = copy_range(&items, start, end + 1);
        let tokens: i64 = estimate_items_tokens(model, members.as_slice());
        assert(segments[k as int] == (start as int, end as int));
        groups.push(ExactTailGroup { id: k, items: members, tokens });
        k += 1;
    }
    assert(tail_group_views(groups@) =~= tail_groups(*model, history));
    (groups, stale_groups)
}

} // verus!
