//! Parting a history into groups that stay or go as a whole: a tool call with its outputs, the
//! context of a turn with the message it belongs to.

use crate::item::{
    item_views, BodyView, ItemBody, ItemView, ResponseItem,
};
use crate::rolling_context_filter::{
    group_anchor, group_start, historical_at, is_historical_context_item_at, is_message_of,
    is_turn_context_group_anchor, is_turn_context_group_start, message_of, same_text,
};
use crate::session_model::SessionModel;
use vstd::prelude::*;
use vstd::string::*;

verus! {

// ---------------------------------------------------------------------------------------------
// Calls and outputs.
// ---------------------------------------------------------------------------------------------

#[derive(Debug, Clone, Copy, PartialEq, Eq, Hash, Structural)]
pub enum ToolPairKind {
    Function,
    Custom,
    ToolSearch,
}

/// What ties a call to its outputs.
#[derive(Debug, PartialEq, Eq)]
pub struct ToolPairKey {
    pub kind: ToolPairKind,
    pub call_id: String,
}

pub struct KeyView {
    pub kind: ToolPairKind,
    pub call_id: Seq<char>,
}

impl View for ToolPairKey {
    type V = KeyView;

    open spec fn view(&self) -> KeyView {
        KeyView { kind: self.kind, call_id: self.call_id@ }
    }
}

pub open spec fn key_option(key: Option<ToolPairKey>) -> Option<KeyView> {
    match key {
        Some(k) => Some(k@),
        None => None,
    }
}

/// The key of a call.
pub open spec fn spec_call_key(item: ItemView) -> Option<KeyView> {
    match item.body {
        BodyView::FunctionCall { name, namespace, arguments, call_id } => Some(
            KeyView { kind: ToolPairKind::Function, call_id },
        ),
        BodyView::LocalShellCall { call_id: Some(call_id), status, action } => Some(
            KeyView { kind: ToolPairKind::Function, call_id },
        ),
        BodyView::CustomToolCall { status, call_id, name, input } => Some(
            KeyView { kind: ToolPairKind::Custom, call_id },
        ),
        BodyView::ToolSearchCall { call_id: Some(call_id), status, execution, arguments } => Some(
            KeyView { kind: ToolPairKind::ToolSearch, call_id },
        ),
        _ => None,
    }
}

/// The key of an output.
pub open spec fn spec_output_key(item: ItemView) -> Option<KeyView> {
    match item.body {
        BodyView::FunctionCallOutput { call_id, output } => Some(
            KeyView { kind: ToolPairKind::Function, call_id },
        ),
        BodyView::CustomToolCallOutput { call_id, name, output } => Some(
            KeyView { kind: ToolPairKind::Custom, call_id },
        ),
        BodyView::ToolSearchOutput { call_id: Some(call_id), status, execution, tools } => Some(
            KeyView { kind: ToolPairKind::ToolSearch, call_id },
        ),
        _ => None,
    }
}

pub fn call_key(item: &ResponseItem) -> (r: Option<ToolPairKey>)
    ensures
        key_option(r) == spec_call_key(item@),
{
    match &item.body {
        ItemBody::FunctionCall { name: _, namespace: _, arguments: _, call_id } => Some(
            ToolPairKey { kind: ToolPairKind::Function, call_id: call_id.clone() },
        ),
        ItemBody::LocalShellCall { call_id: Some(call_id), status: _, action: _ } => Some(
            ToolPairKey { kind: ToolPairKind::Function, call_id: call_id.clone() },
        ),
        ItemBody::CustomToolCall { status: _, call_id, name: _, input: _ } => Some(
            ToolPairKey { kind: ToolPairKind::Custom, call_id: call_id.clone() },
        ),
        ItemBody::ToolSearchCall {
            call_id: Some(call_id),
            status: _,
            execution: _,
            arguments: _,
        } => Some(ToolPairKey { kind: ToolPairKind::ToolSearch, call_id: call_id.clone() }),
        _ => None,
    }
}

pub fn output_key(item: &ResponseItem) -> (r: Option<ToolPairKey>)
    ensures
        key_option(r) == spec_output_key(item@),
{
    match &item.body {
        ItemBody::FunctionCallOutput { call_id, output: _ } => Some(
            ToolPairKey { kind: ToolPairKind::Function, call_id: call_id.clone() },
        ),
        ItemBody::CustomToolCallOutput { call_id, name: _, output: _ } => Some(
            ToolPairKey { kind: ToolPairKind::Custom, call_id: call_id.clone() },
        ),
        ItemBody::ToolSearchOutput {
            call_id: Some(call_id),
            status: _,
            execution: _,
            tools: _,
        } => Some(ToolPairKey { kind: ToolPairKind::ToolSearch, call_id: call_id.clone() }),
        _ => None,
    }
}

/// A tool search that the server ran has no call of its own.
pub open spec fn standalone_output(item: ItemView) -> bool {
    match item.body {
        BodyView::ToolSearchOutput { call_id, status, execution, tools } => execution == "server"@,
        _ => false,
    }
}

pub fn is_standalone_tool_search_output(item: &ResponseItem) -> (r: bool)
    ensures
        r == standalone_output(item@),
{
    match &item.body {
        ItemBody::ToolSearchOutput { call_id: _, status: _, execution, tools: _ } => same_text(
            execution.as_str(),
            "server",
        ),
        _ => false,
    }
}

/// The last output with the key.
pub open spec fn last_output(raw: Seq<ItemView>, key: KeyView) -> Option<int>
    decreases raw.len(),
{
    if raw.len() == 0 {
        None
    } else if spec_output_key(raw.last()) == Some(key) {
        Some(raw.len() - 1)
    } else {
        last_output(raw.drop_last(), key)
    }
}

pub proof fn lemma_last_output(raw: Seq<ItemView>, key: KeyView)
    ensures
        match last_output(raw, key) {
            Some(at) => 0 <= at < raw.len() && spec_output_key(raw[at]) == Some(key) && forall|
                k: int,
            |
                at < k < raw.len() ==> spec_output_key(#[trigger] raw[k]) != Some(key),
            None => forall|k: int|
                0 <= k < raw.len() ==> spec_output_key(#[trigger] raw[k]) != Some(key),
        },
    decreases raw.len(),
{
    if raw.len() > 0 && spec_output_key(raw.last()) != Some(key) {
        let rest = raw.drop_last();
        lemma_last_output(rest, key);
        assert(forall|k: int| 0 <= k < rest.len() ==> rest[k] == raw[k]);
    }
}

fn has_key(item: &ResponseItem, key: &ToolPairKey) -> (r: bool)
    ensures
        r == (spec_output_key(item@) == Some(key@)),
{
    match &item.body {
        ItemBody::FunctionCallOutput { call_id, output: _ } => key.kind == ToolPairKind::Function
            && *call_id == key.call_id,
        ItemBody::CustomToolCallOutput { call_id, name: _, output: _ } => key.kind
            == ToolPairKind::Custom && *call_id == key.call_id,
        ItemBody::ToolSearchOutput {
            call_id: Some(call_id),
            status: _,
            execution: _,
            tools: _,
        } => key.kind == ToolPairKind::ToolSearch && *call_id == key.call_id,
        _ => false,
    }
}

fn last_output_index(raw_items: &[ResponseItem], key: &ToolPairKey) -> (r: Option<usize>)
    ensures
        match r {
            Some(at) => last_output(item_views(raw_items@), key@) == Some(at as int) && at
                < raw_items@.len(),
            None => last_output(item_views(raw_items@), key@) is None,
        },
{
    let ghost raw = item_views(raw_items@);
    let mut n: usize = raw_items.len();
    assert(raw.subrange(0, n as int) =~= raw);
    while n > 0
        invariant
            n <= raw_items@.len(),
            raw == item_views(raw_items@),
            last_output(raw.subrange(0, n as int), key@) == last_output(raw, key@),
        decreases n,
    {
        proof {
            let part = raw.subrange(0, n as int);
            assert(part.last() == raw_items@[n - 1]@);
            assert(part.drop_last() =~= raw.subrange(0, n - 1));
        }
        if has_key(&raw_items[n - 1], key) {
            return Some(n - 1);
        }
        n -= 1;
    }
    assert(raw.subrange(0, 0) =~= Seq::<ItemView>::empty());
    None
}

/// Where a span ends that reaches to `end` so far: it grows to the last output of every call in
/// it, from `scan` on.
pub open spec fn span_reach(raw: Seq<ItemView>, scan: int, end: int) -> int
    decreases raw.len() - scan,
{
    if scan > end || scan < 0 || scan >= raw.len() {
        end
    } else {
        let wider = match spec_call_key(raw[scan]) {
            Some(key) => match last_output(raw, key) {
                Some(output) => if output > end {
                    output
                } else {
                    end
                },
                None => end,
            },
            None => end,
        };
        span_reach(raw, scan + 1, wider)
    }
}

/// The end of the span that a call at `index` opens, if an output of it comes later.
pub open spec fn span_at(raw: Seq<ItemView>, index: int) -> Option<int> {
    match spec_call_key(raw[index]) {
        Some(key) => match last_output(raw, key) {
            Some(output) => if output > index {
                Some(span_reach(raw, index + 1, output))
            } else {
                None
            },
            None => None,
        },
        None => None,
    }
}

pub proof fn lemma_span_reach(raw: Seq<ItemView>, scan: int, end: int)
    requires
        0 <= scan,
        0 <= end < raw.len(),
    ensures
        end <= span_reach(raw, scan, end) < raw.len(),
        // Every call in the span has its last output in it too.
        forall|i: int, o: int|
            scan <= i <= span_reach(raw, scan, end) && #[trigger] call_output(raw, i, o) ==> o
                <= span_reach(raw, scan, end),
    decreases raw.len() - scan,
{
    if scan <= end {
        let wider = match spec_call_key(raw[scan]) {
            Some(key) => match last_output(raw, key) {
                Some(output) => if output > end {
                    output
                } else {
                    end
                },
                None => end,
            },
            None => end,
        };
        if let Some(key) = spec_call_key(raw[scan]) {
            lemma_last_output(raw, key);
        }
        lemma_span_reach(raw, scan + 1, wider);
        let reach = span_reach(raw, scan, end);
        assert forall|i: int, o: int|
            scan <= i <= reach && #[trigger] call_output(raw, i, o) implies o <= reach by {
            if i == scan {
                assert(wider >= o);
            }
        }
    }
}

/// The item at `call` is a call, and its last output is at `output`.
pub open spec fn call_output(raw: Seq<ItemView>, call: int, output: int) -> bool {
    &&& 0 <= call < raw.len()
    &&& match spec_call_key(raw[call]) {
        Some(key) => last_output(raw, key) == Some(output),
        None => false,
    }
}

/// The spans from `index` on, by their start.
pub open spec fn spans_from(raw: Seq<ItemView>, index: int) -> Map<int, int>
    decreases raw.len() - index,
{
    if index < 0 || index >= raw.len() {
        Map::empty()
    } else {
        match span_at(raw, index) {
            Some(end) => if index < end < raw.len() {
                spans_from(raw, end + 1).insert(index, end)
            } else {
                Map::empty()
            },
            None => spans_from(raw, index + 1),
        }
    }
}

pub open spec fn lookup(spans: Map<int, int>, index: int) -> Option<int> {
    if spans.contains_key(index) {
        Some(spans[index])
    } else {
        None
    }
}

/// The end of the span that starts at `index`.
pub open spec fn span_end(raw: Seq<ItemView>, index: int) -> Option<int> {
    lookup(spans_from(raw, 0), index)
}

pub proof fn lemma_spans_from_keys(raw: Seq<ItemView>, index: int)
    requires
        0 <= index,
    ensures
        forall|k: int| #[trigger] spans_from(raw, index).contains_key(k) ==> index <= k < raw.len(),
    decreases raw.len() - index,
{
    if index < raw.len() {
        match span_at(raw, index) {
            Some(end) => {
                if index < end < raw.len() {
                    lemma_spans_from_keys(raw, end + 1);
                    assert forall|k: int| #[trigger]
                        spans_from(raw, index).contains_key(k) implies index <= k < raw.len() by {
                        if k != index {
                            assert(spans_from(raw, end + 1).contains_key(k));
                        }
                    }
                }
            },
            None => {
                lemma_spans_from_keys(raw, index + 1);
                assert(spans_from(raw, index) == spans_from(raw, index + 1));
            },
        }
    } else {
        assert(spans_from(raw, index) =~= Map::<int, int>::empty());
    }
}

proof fn lemma_span_at(raw: Seq<ItemView>, index: int)
    requires
        0 <= index < raw.len(),
    ensures
        match span_at(raw, index) {
            Some(end) => index < end < raw.len(),
            None => true,
        },
{
    if let Some(key) = spec_call_key(raw[index]) {
        lemma_last_output(raw, key);
        if let Some(output) = last_output(raw, key) {
            if output > index {
                lemma_span_reach(raw, index + 1, output);
            }
        }
    }
}

/// A span starts at a call, ends behind its start, and lies within the history.
pub proof fn lemma_span_end(raw: Seq<ItemView>, index: int)
    ensures
        match span_end(raw, index) {
            Some(end) => 0 <= index < end < raw.len() && span_at(raw, index) == Some(end),
            None => true,
        },
{
    lemma_spans_values(raw, 0);
    if spans_from(raw, 0).contains_key(index) {
        lemma_spans_from_keys(raw, 0);
        lemma_span_at(raw, index);
    }
}

proof fn lemma_spans_values(raw: Seq<ItemView>, index: int)
    requires
        0 <= index,
    ensures
        forall|k: int| #[trigger]
            spans_from(raw, index).contains_key(k) ==> span_at(raw, k) == Some(
                spans_from(raw, index)[k],
            ),
    decreases raw.len() - index,
{
    if index < raw.len() {
        match span_at(raw, index) {
            Some(end) => {
                if index < end < raw.len() {
                    lemma_spans_values(raw, end + 1);
                    assert forall|k: int| #[trigger]
                        spans_from(raw, index).contains_key(k) implies span_at(raw, k) == Some(
                        spans_from(raw, index)[k],
                    ) by {
                        if k != index {
                            assert(spans_from(raw, end + 1).contains_key(k));
                        }
                    }
                }
            },
            None => {
                lemma_spans_values(raw, index + 1);
                assert(spans_from(raw, index) == spans_from(raw, index + 1));
            },
        }
    } else {
        assert(spans_from(raw, index) =~= Map::<int, int>::empty());
    }
}

/// The end of a span that already reaches to `end`.
fn reach_of_span(raw_items: &[ResponseItem], from: usize, to: usize) -> (end: usize)
    requires
        from <= to < raw_items@.len(),
    ensures
        end == span_reach(item_views(raw_items@), from as int, to as int),
        to <= end < raw_items@.len(),
{
    let ghost raw = item_views(raw_items@);
    let mut end: usize = to;
    let mut scan: usize = from;
    while scan <= end
        invariant
            raw == item_views(raw_items@),
            to <= end < raw_items@.len(),
            scan <= end + 1,
            span_reach(raw, scan as int, end as int) == span_reach(raw, from as int, to as int),
        decreases raw_items@.len() - scan,
    {
        assert(raw[scan as int] == raw_items@[scan as int]@);
        if let Some(key) = call_key(&raw_items[scan]) {
            if let Some(output) = last_output_index(raw_items, &key) {
                if output > end {
                    end = output;
                }
            }
        }
        scan += 1;
    }
    end
}

/// The end of each span, at the index where it starts.
pub fn tool_dependency_spans(raw_items: &[ResponseItem]) -> (spans: Vec<Option<usize>>)
    ensures
        spans@.len() == raw_items@.len(),
        forall|i: int|
            0 <= i < spans@.len() ==> match #[trigger] spans@[i] {
                Some(end) => span_end(item_views(raw_items@), i) == Some(end as int),
                None => span_end(item_views(raw_items@), i) is None,
            },
{
    let ghost raw = item_views(raw_items@);
    let n: usize = raw_items.len();
    let mut spans: Vec<Option<usize>> = Vec::new();
    let mut index: usize = 0;
    while index < n
        invariant
            n == raw_items@.len(),
            index <= n,
            raw == item_views(raw_items@),
            spans@.len() == index,
            forall|k: int|
                k >= index ==> #[trigger] span_end(raw, k) == lookup(
                    spans_from(raw, index as int),
                    k,
                ),
            forall|i: int|
                0 <= i < index ==> match #[trigger] spans@[i] {
                    Some(end) => span_end(raw, i) == Some(end as int),
                    None => span_end(raw, i) is None,
                },
        decreases n - index,
    {
        assert(raw[index as int] == raw_items@[index as int]@);
        proof {
            lemma_span_at(raw, index as int);
        }
        let span: Option<usize> = match call_key(&raw_items[index]) {
            Some(key) => match last_output_index(raw_items, &key) {
                Some(output) => if output > index {
                    Some(reach_of_span(raw_items, index + 1, output))
                } else {
                    None
                },
                None => None,
            },
            None => None,
        };
        match span {
            None => {
                proof {
                    lemma_spans_from_keys(raw, index + 1);
                    assert(spans_from(raw, index as int) == spans_from(raw, index + 1));
                    assert(!spans_from(raw, index as int).contains_key(index as int));
                }
                spans.push(None);
                index += 1;
            },
            Some(end) => {
                proof {
                    lemma_spans_from_keys(raw, end + 1);
                    assert(spans_from(raw, index as int) == spans_from(raw, end + 1).insert(
                        index as int,
                        end as int,
                    ));
                }
                let ghost first = index as int;
                spans.push(Some(end));
                index += 1;
                while index <= end
                    invariant
                        n == raw_items@.len(),
                        first < index <= end + 1,
                        first < end < n,
                        spans@.len() == index,
                        spans_from(raw, first) == spans_from(raw, end + 1).insert(
                            first,
                            end as int,
                        ),
                        forall|k: int| #[trigger]
                            spans_from(raw, end + 1).contains_key(k) ==> end + 1 <= k,
                        forall|k: int|
                            k >= first ==> #[trigger] span_end(raw, k) == lookup(
                                spans_from(raw, first),
                                k,
                            ),
                        forall|i: int|
                            0 <= i < index ==> match #[trigger] spans@[i] {
                                Some(e) => span_end(raw, i) == Some(e as int),
                                None => span_end(raw, i) is None,
                            },
                    decreases end + 1 - index,
                {
                    assert(!spans_from(raw, first).contains_key(index as int));
                    assert(span_end(raw, index as int) is None);
                    spans.push(None);
                    index += 1;
                }
                assert forall|k: int| k >= index implies #[trigger] span_end(raw, k) == lookup(
                    spans_from(raw, index as int),
                    k,
                ) by {
                    assert(span_end(raw, k) == lookup(spans_from(raw, first), k));
                }
            },
        }
    }
    spans
}

// ---------------------------------------------------------------------------------------------
// The context of a turn.
// ---------------------------------------------------------------------------------------------

/// The first index, from `scan` on, that holds no context of a turn.
pub open spec fn skip_starts<M: SessionModel>(
    model: M,
    raw: Seq<ItemView>,
    scan: int,
    prefix: Seq<ItemView>,
) -> int
    decreases raw.len() - scan,
{
    if 0 <= scan < raw.len() && group_start(model, raw[scan], prefix) {
        skip_starts(model, raw, scan + 1, prefix)
    } else {
        scan
    }
}

pub proof fn lemma_skip_starts<M: SessionModel>(
    model: M,
    raw: Seq<ItemView>,
    scan: int,
    prefix: Seq<ItemView>,
)
    requires
        0 <= scan <= raw.len(),
    ensures
        scan <= skip_starts(model, raw, scan, prefix) <= raw.len(),
        forall|k: int|
            scan <= k < skip_starts(model, raw, scan, prefix) ==> group_start(
                model,
                #[trigger] raw[k],
                prefix,
            ),
    decreases raw.len() - scan,
{
    if scan < raw.len() && group_start(model, raw[scan], prefix) {
        lemma_skip_starts(model, raw, scan + 1, prefix);
    }
}

fn skip_turn_context<M: SessionModel>(
    model: &M,
    raw_items: &[ResponseItem],
    from: usize,
    invariant_prefix: &Vec<ResponseItem>,
) -> (scan: usize)
    requires
        from <= raw_items@.len(),
    ensures
        scan == skip_starts(
            *model,
            item_views(raw_items@),
            from as int,
            item_views(invariant_prefix@),
        ),
        from <= scan <= raw_items@.len(),
{
    let ghost raw = item_views(raw_items@);
    let mut scan: usize = from;
    while scan < raw_items.len() && is_turn_context_group_start(
        model,
        &raw_items[scan],
        invariant_prefix,
    )
        invariant
            raw == item_views(raw_items@),
            from <= scan <= raw_items@.len(),
            skip_starts(*model, raw, scan as int, item_views(invariant_prefix@)) == skip_starts(
                *model,
                raw,
                from as int,
                item_views(invariant_prefix@),
            ),
        ensures
            scan == raw_items@.len() || !group_start(
                *model,
                raw[scan as int],
                item_views(invariant_prefix@),
            ),
        decreases raw_items@.len() - scan,
    {
        assert(raw[scan as int] == raw_items@[scan as int]@);
        scan += 1;
    }
    scan
}

/// The last item of the group that joins the context of a turn, from `index` on, and the message
/// that it belongs to: the context may stand before the message, behind it, or on both sides.
pub open spec fn turn_group_end<M: SessionModel>(
    model: M,
    raw: Seq<ItemView>,
    index: int,
    prefix: Seq<ItemView>,
) -> Option<int> {
    let next = skip_starts(model, raw, index + 1, prefix);
    if group_start(model, raw[index], prefix) {
        if next < raw.len() && group_anchor(model, raw[next], prefix) {
            Some(skip_starts(model, raw, next + 1, prefix) - 1)
        } else {
            Some(next - 1)
        }
    } else if !group_anchor(model, raw[index], prefix) || next == index + 1 || (next < raw.len()
        && group_anchor(model, raw[next], prefix) && message_of(raw[next], "user"@)) {
        None
    } else {
        Some(next - 1)
    }
}

pub proof fn lemma_turn_group_end<M: SessionModel>(
    model: M,
    raw: Seq<ItemView>,
    index: int,
    prefix: Seq<ItemView>,
)
    requires
        0 <= index < raw.len(),
    ensures
        match turn_group_end(model, raw, index, prefix) {
            Some(end) => index <= end < raw.len() && forall|k: int|
                index <= k <= end ==> (#[trigger] raw[k]).body is Message,
            None => true,
        },
{
    lemma_skip_starts(model, raw, index + 1, prefix);
    let next = skip_starts(model, raw, index + 1, prefix);
    if next < raw.len() {
        lemma_skip_starts(model, raw, next + 1, prefix);
    }
}

fn turn_context_group_end<M: SessionModel>(
    model: &M,
    raw_items: &[ResponseItem],
    index: usize,
    invariant_prefix: &Vec<ResponseItem>,
) -> (r: Option<usize>)
    requires
        index < raw_items@.len(),
    ensures
        match r {
            Some(end) => turn_group_end(
                *model,
                item_views(raw_items@),
                index as int,
                item_views(invariant_prefix@),
            ) == Some(end as int) && index <= end < raw_items@.len(),
            None => turn_group_end(
                *model,
                item_views(raw_items@),
                index as int,
                item_views(invariant_prefix@),
            ) is None,
        },
{
    let ghost raw = item_views(raw_items@);
    let n: usize = raw_items.len();
    proof {
        lemma_turn_group_end(*model, raw, index as int, item_views(invariant_prefix@));
    }
    let starts = is_turn_context_group_start(model, &raw_items[index], invariant_prefix);
    if !starts && !is_turn_context_group_anchor(model, &raw_items[index], invariant_prefix) {
        return None;
    }
    let next: usize = skip_turn_context(model, raw_items, index + 1, invariant_prefix);
    if starts {
        if next < n && is_turn_context_group_anchor(model, &raw_items[next], invariant_prefix) {
            assert(raw[next as int] == raw_items@[next as int]@);
            let last: usize = skip_turn_context(model, raw_items, next + 1, invariant_prefix);
            return Some(last - 1);
        }
        return Some(next - 1);
    }
    if next == index + 1 {
        return None;
    }
    if next < n && is_turn_context_group_anchor(model, &raw_items[next], invariant_prefix)
        && is_message_of(&raw_items[next], "user") {
        return None;
    }
    Some(next - 1)
}

/// The end of the run of turn input from `scan` on; `reached` is the end of what is there already.
pub open spec fn turn_input_run<M: SessionModel>(
    model: M,
    raw: Seq<ItemView>,
    scan: int,
    prefix: Seq<ItemView>,
    reached: Option<int>,
) -> Option<int>
    decreases raw.len() - scan,
{
    if scan < 0 || scan >= raw.len() || historical_at(model, raw, scan, prefix) {
        reached
    } else {
        match turn_group_end(model, raw, scan, prefix) {
            Some(end) => if scan <= end < raw.len() {
                turn_input_run(model, raw, end + 1, prefix, Some(end))
            } else {
                reached
            },
            None => if message_of(raw[scan], "user"@) {
                turn_input_run(model, raw, scan + 1, prefix, Some(scan))
            } else {
                reached
            },
        }
    }
}

pub proof fn lemma_turn_input_run<M: SessionModel>(
    model: M,
    raw: Seq<ItemView>,
    scan: int,
    prefix: Seq<ItemView>,
    reached: Option<int>,
)
    requires
        0 <= scan,
    ensures
        match turn_input_run(model, raw, scan, prefix, reached) {
            Some(end) => turn_input_run(model, raw, scan, prefix, reached) == reached || (scan
                <= end < raw.len() && forall|k: int|
                scan <= k <= end ==> (#[trigger] raw[k]).body is Message),
            None => reached is None,
        },
    decreases raw.len() - scan,
{
    if scan < raw.len() && !historical_at(model, raw, scan, prefix) {
        lemma_turn_group_end(model, raw, scan, prefix);
        match turn_group_end(model, raw, scan, prefix) {
            Some(end) => {
                lemma_turn_input_run(model, raw, end + 1, prefix, Some(end));
            },
            None => {
                if message_of(raw[scan], "user"@) {
                    lemma_turn_input_run(model, raw, scan + 1, prefix, Some(scan));
                }
            },
        }
    }
}

fn following_turn_input_run_end<M: SessionModel>(
    model: &M,
    raw_items: &[ResponseItem],
    index: usize,
    invariant_prefix: &Vec<ResponseItem>,
) -> (r: Option<usize>)
    requires
        index <= raw_items@.len(),
    ensures
        match r {
            Some(end) => turn_input_run(
                *model,
                item_views(raw_items@),
                index as int,
                item_views(invariant_prefix@),
                None,
            ) == Some(end as int) && index <= end < raw_items@.len(),
            None => turn_input_run(
                *model,
                item_views(raw_items@),
                index as int,
                item_views(invariant_prefix@),
                None,
            ) is None,
        },
{
    let ghost raw = item_views(raw_items@);
    let ghost prefix = item_views(invariant_prefix@);
    let ghost wanted = turn_input_run(*model, raw, index as int, prefix, None);
    let mut scan: usize = index;
    let mut run_end: Option<usize> = None;
    let ghost mut reached: Option<int> = None;
    while scan < raw_items.len()
        invariant
            raw == item_views(raw_items@),
            prefix == item_views(invariant_prefix@),
            wanted == turn_input_run(*model, raw, index as int, prefix, None),
            index <= scan <= raw_items@.len(),
            match run_end {
                Some(end) => reached == Some(end as int) && index <= end < raw_items@.len(),
                None => reached is None,
            },
            turn_input_run(*model, raw, scan as int, prefix, reached) == wanted,
        decreases raw_items@.len() - scan,
    {
        assert(raw[scan as int] == raw_items@[scan as int]@);
        if is_historical_context_item_at(model, raw_items, scan, invariant_prefix) {
            return run_end;
        }
        if let Some(group_end) = turn_context_group_end(model, raw_items, scan, invariant_prefix) {
            run_end = Some(group_end);
            proof {
                reached = Some(group_end as int);
            }
            scan = group_end + 1;
        } else if is_message_of(&raw_items[scan], "user") {
            run_end = Some(scan);
            proof {
                reached = Some(scan as int);
            }
            scan += 1;
        } else {
            return run_end;
        }
    }
    run_end
}

// ---------------------------------------------------------------------------------------------
// Groups.
// ---------------------------------------------------------------------------------------------

/// A run of the raw history that stays or goes as a whole, and the items of it that count.
#[derive(Debug)]
pub struct RawRollingGroup {
    pub raw_start_index: usize,
    pub raw_end_exclusive: usize,
    pub items: Vec<ResponseItem>,
}

pub struct RawGroupView {
    pub start: int,
    pub end: int,
    pub items: Seq<ItemView>,
}

impl View for RawRollingGroup {
    type V = RawGroupView;

    open spec fn view(&self) -> RawGroupView {
        RawGroupView {
            start: self.raw_start_index as int,
            end: self.raw_end_exclusive as int,
            items: item_views(self.items@),
        }
    }
}

pub open spec fn raw_group_views(groups: Seq<RawRollingGroup>) -> Seq<RawGroupView> {
    groups.map_values(|g: RawRollingGroup| g@)
}

/// The call may be followed by input for the same turn.
pub open spec fn takes_turn_input<M: SessionModel>(model: M, item: ItemView) -> bool {
    match spec_call_key(item) {
        Some(key) => match key.kind {
            ToolPairKind::Function | ToolPairKind::ToolSearch => true,
            ToolPairKind::Custom => match item.body {
                BodyView::CustomToolCall { status, call_id, name, input } => name
                    == model.spec_code_tool_name(),
                _ => false,
            },
        },
        None => false,
    }
}

fn carries_turn_input<M: SessionModel>(model: &M, item: &ResponseItem) -> (r: bool)
    ensures
        r == takes_turn_input(*model, item@),
{
    match &item.body {
        ItemBody::FunctionCall { .. } => true,
        ItemBody::LocalShellCall { call_id, status: _, action: _ } => call_id.is_some(),
        ItemBody::ToolSearchCall { call_id, status: _, execution: _, arguments: _ } => {
            call_id.is_some()
        },
        ItemBody::CustomToolCall { status: _, call_id: _, name, input: _ } => same_text(
            name.as_str(),
            model.code_tool_name(),
        ),
        _ => false,
    }
}

pub open spec fn span_takes_turn_input<M: SessionModel>(
    model: M,
    raw: Seq<ItemView>,
    start: int,
    end: int,
) -> bool {
    exists|k: int| start <= k <= end && takes_turn_input(model, #[trigger] raw[k])
}

/// The last item of the group that a span makes: the span, and the turn input that follows it
/// where one of its calls takes such input.
pub open spec fn span_group_end<M: SessionModel>(
    model: M,
    raw: Seq<ItemView>,
    start: int,
    end: int,
    prefix: Seq<ItemView>,
) -> int {
    if span_takes_turn_input(model, raw, start, end) {
        match turn_input_run(model, raw, end + 1, prefix, None) {
            Some(last) => last,
            None => end,
        }
    } else {
        end
    }
}

/// The items of a range that are not context which every request carries anew.
pub open spec fn kept_items<M: SessionModel>(
    model: M,
    raw: Seq<ItemView>,
    start: int,
    end: int,
    prefix: Seq<ItemView>,
) -> Seq<ItemView>
    decreases end - start,
{
    if start >= end {
        Seq::empty()
    } else if historical_at(model, raw, end - 1, prefix) {
        kept_items(model, raw, start, end - 1, prefix)
    } else {
        kept_items(model, raw, start, end - 1, prefix).push(raw[end - 1])
    }
}

pub open spec fn later_body_item<M: SessionModel>(
    model: M,
    raw: Seq<ItemView>,
    index: int,
    prefix: Seq<ItemView>,
) -> bool {
    exists|k: int| index < k < raw.len() && !#[trigger] historical_at(model, raw, k, prefix)
}

/// How the item at `index` is taken: the group that it opens, if any, and where to go on.
pub open spec fn group_step<M: SessionModel>(
    model: M,
    raw: Seq<ItemView>,
    index: int,
    prefix: Seq<ItemView>,
) -> (Option<RawGroupView>, int) {
    if historical_at(model, raw, index, prefix) {
        (None, index + 1)
    } else {
        match span_end(raw, index) {
            Some(end) => {
                let last = span_group_end(model, raw, index, end, prefix);
                (
                    Some(
                        RawGroupView {
                            start: index,
                            end: last + 1,
                            items: kept_items(model, raw, index, last + 1, prefix),
                        },
                    ),
                    last + 1,
                )
            },
            None => if (spec_output_key(raw[index]) is Some && !standalone_output(raw[index])) || (
            spec_call_key(raw[index]) is Some && later_body_item(model, raw, index, prefix)) {
                (None, index + 1)
            } else {
                match turn_group_end(model, raw, index, prefix) {
                    Some(last) => (
                        Some(
                            RawGroupView {
                                start: index,
                                end: last + 1,
                                items: raw.subrange(index, last + 1),
                            },
                        ),
                        last + 1,
                    ),
                    None => (
                        Some(
                            RawGroupView { start: index, end: index + 1, items: seq![raw[index]] },
                        ),
                        index + 1,
                    ),
                }
            },
        }
    }
}

/// Where to go on behind a span that starts before the cursor.
pub open spec fn next_index<M: SessionModel>(
    model: M,
    raw: Seq<ItemView>,
    index: int,
    cursor: int,
    prefix: Seq<ItemView>,
) -> int {
    if index < cursor && !historical_at(model, raw, index, prefix) {
        match span_end(raw, index) {
            Some(end) => end + 1,
            None => group_step(model, raw, index, prefix).1,
        }
    } else {
        group_step(model, raw, index, prefix).1
    }
}

/// The groups from `index` on. Those that start before the cursor are left out.
pub open spec fn groups_from<M: SessionModel>(
    model: M,
    raw: Seq<ItemView>,
    index: int,
    cursor: int,
    prefix: Seq<ItemView>,
) -> Seq<RawGroupView>
    decreases raw.len() - index,
{
    if index < 0 || index >= raw.len() {
        Seq::empty()
    } else {
        let next = next_index(model, raw, index, cursor, prefix);
        let rest = if index < next <= raw.len() {
            groups_from(model, raw, next, cursor, prefix)
        } else {
            Seq::empty()
        };
        match group_step(model, raw, index, prefix).0 {
            Some(group) => if index >= cursor {
                seq![group] + rest
            } else {
                rest
            },
            None => rest,
        }
    }
}

pub proof fn lemma_group_step<M: SessionModel>(
    model: M,
    raw: Seq<ItemView>,
    index: int,
    cursor: int,
    prefix: Seq<ItemView>,
)
    requires
        0 <= index < raw.len(),
    ensures
        index < next_index(model, raw, index, cursor, prefix) <= raw.len(),
        match group_step(model, raw, index, prefix).0 {
            Some(group) => group.start == index && index < group.end <= raw.len() && (index
                >= cursor ==> next_index(model, raw, index, cursor, prefix) == group.end),
            None => next_index(model, raw, index, cursor, prefix) == index + 1,
        },
{
    lemma_span_end(raw, index);
    lemma_turn_group_end(model, raw, index, prefix);
    if let Some(end) = span_end(raw, index) {
        lemma_turn_input_run(model, raw, end + 1, prefix, None);
    }
}

fn keep_items<M: SessionModel>(
    model: &M,
    raw_items: &[ResponseItem],
    start: usize,
    end: usize,
    invariant_prefix: &Vec<ResponseItem>,
) -> (items: Vec<ResponseItem>)
    requires
        start <= end <= raw_items@.len(),
    ensures
        item_views(items@) == kept_items(
            *model,
            item_views(raw_items@),
            start as int,
            end as int,
            item_views(invariant_prefix@),
        ),
{
    let ghost raw = item_views(raw_items@);
    let mut items: Vec<ResponseItem> = Vec::new();
    let mut i: usize = start;
    assert(item_views(items@) =~= Seq::<ItemView>::empty());
    while i < end
        invariant
            start <= i <= end <= raw_items@.len(),
            raw == item_views(raw_items@),
            item_views(items@) == kept_items(
                *model,
                raw,
                start as int,
                i as int,
                item_views(invariant_prefix@),
            ),
        decreases end - i,
    {
        if !is_historical_context_item_at(model, raw_items, i, invariant_prefix) {
            let ghost before = item_views(items@);
            items.push(raw_items[i].clone());
            assert(item_views(items@) =~= before.push(raw[i as int]));
        }
        i += 1;
    }
    items
}

fn copy_items(raw_items: &[ResponseItem], start: usize, end: usize) -> (items: Vec<ResponseItem>)
    requires
        start <= end <= raw_items@.len(),
    ensures
        item_views(items@) == item_views(raw_items@).subrange(start as int, end as int),
{
    let ghost raw = item_views(raw_items@);
    let mut items: Vec<ResponseItem> = Vec::new();
    let mut i: usize = start;
    assert(item_views(items@) =~= raw.subrange(start as int, start as int));
    while i < end
        invariant
            start <= i <= end <= raw_items@.len(),
            raw == item_views(raw_items@),
            item_views(items@) == raw.subrange(start as int, i as int),
        decreases end - i,
    {
        let ghost before = item_views(items@);
        items.push(raw_items[i].clone());
        assert(item_views(items@) =~= before.push(raw[i as int]));
        assert(before.push(raw[i as int]) =~= raw.subrange(start as int, i + 1));
        i += 1;
    }
    items
}

fn span_carries_turn_input<M: SessionModel>(
    model: &M,
    raw_items: &[ResponseItem],
    start: usize,
    end: usize,
) -> (r: bool)
    requires
        start <= end < raw_items@.len(),
    ensures
        r == span_takes_turn_input(*model, item_views(raw_items@), start as int, end as int),
{
    let ghost raw = item_views(raw_items@);
    let mut i: usize = start;
    while i <= end
        invariant
            start <= i <= end + 1,
            end < raw_items@.len(),
            raw == item_views(raw_items@),
            forall|k: int| start <= k < i ==> !takes_turn_input(*model, #[trigger] raw[k]),
        decreases end + 1 - i,
    {
        assert(raw[i as int] == raw_items@[i as int]@);
        if carries_turn_input(model, &raw_items[i]) {
            return true;
        }
        i += 1;
    }
    false
}

fn has_later_non_context_item<M: SessionModel>(
    model: &M,
    raw_items: &[ResponseItem],
    index: usize,
    invariant_prefix: &Vec<ResponseItem>,
) -> (r: bool)
    requires
        index < raw_items@.len(),
    ensures
        r == later_body_item(
            *model,
            item_views(raw_items@),
            index as int,
            item_views(invariant_prefix@),
        ),
{
    let ghost raw = item_views(raw_items@);
    let ghost prefix = item_views(invariant_prefix@);
    let n: usize = raw_items.len();
    let mut i: usize = index + 1;
    while i < n
        invariant
            index < i <= n == raw_items@.len(),
            raw == item_views(raw_items@),
            prefix == item_views(invariant_prefix@),
            forall|k: int| index < k < i ==> #[trigger] historical_at(*model, raw, k, prefix),
        decreases raw_items@.len() - i,
    {
        if !is_historical_context_item_at(model, raw_items, i, invariant_prefix) {
            return true;
        }
        i += 1;
    }
    false
}

/// Takes the item at `index`: the group that it opens, unless that starts before the cursor, and
/// where to go on.
fn take_group<M: SessionModel>(
    model: &M,
    raw_items: &[ResponseItem],
    index: usize,
    span: Option<usize>,
    raw_start_index: usize,
    invariant_prefix: &Vec<ResponseItem>,
) -> (r: (Option<RawRollingGroup>, usize))
    requires
        index < raw_items@.len(),
        match span {
            Some(end) => span_end(item_views(raw_items@), index as int) == Some(end as int),
            None => span_end(item_views(raw_items@), index as int) is None,
        },
    ensures
        r.1 == next_index(
            *model,
            item_views(raw_items@),
            index as int,
            raw_start_index as int,
            item_views(invariant_prefix@),
        ),
        ({
            let step = group_step(
                *model,
                item_views(raw_items@),
                index as int,
                item_views(invariant_prefix@),
            ).0;
            match r.0 {
                Some(group) => index >= raw_start_index && step == Some(group@),
                None => index < raw_start_index || step is None,
            }
        }),
{
    let ghost raw = item_views(raw_items@);
    let n: usize = raw_items.len();
    assert(raw[index as int] == raw_items@[index as int]@);
    proof {
        lemma_span_end(raw, index as int);
    }
    if is_historical_context_item_at(model, raw_items, index, invariant_prefix) {
        return (None, index + 1);
    }
    if let Some(end) = span {
        if index < raw_start_index {
            return (None, end + 1);
        }
        let last: usize = if span_carries_turn_input(model, raw_items, index, end) {
            match following_turn_input_run_end(model, raw_items, end + 1, invariant_prefix) {
                Some(last) => last,
                None => end,
            }
        } else {
            end
        };
        let group = RawRollingGroup {
            raw_start_index: index,
            raw_end_exclusive: last + 1,
            items: keep_items(model, raw_items, index, last + 1, invariant_prefix),
        };
        return (Some(group), last + 1);
    }
    if output_key(&raw_items[index]).is_some() && !is_standalone_tool_search_output(
        &raw_items[index],
    ) {
        return (None, index + 1);
    }
    if call_key(&raw_items[index]).is_some() && has_later_non_context_item(
        model,
        raw_items,
        index,
        invariant_prefix,
    ) {
        return (None, index + 1);
    }
    let last: usize = match turn_context_group_end(model, raw_items, index, invariant_prefix) {
        Some(last) => last,
        None => {
            assert(raw.subrange(index as int, index + 1) =~= seq![raw[index as int]]);
            index
        },
    };
    if index < raw_start_index {
        return (None, last + 1);
    }
    let group = RawRollingGroup {
        raw_start_index: index,
        raw_end_exclusive: last + 1,
        items: copy_items(raw_items, index, last + 1),
    };
    (Some(group), last + 1)
}

/// Parts the history into the groups that start at the cursor or behind it.
pub fn rolling_groups<M: SessionModel>(
    model: &M,
    raw_items: &[ResponseItem],
    raw_start_index: usize,
    invariant_prefix: &Vec<ResponseItem>,
) -> (groups: Vec<RawRollingGroup>)
    ensures
        raw_group_views(groups@) == groups_from(
            *model,
            item_views(raw_items@),
            0,
            raw_start_index as int,
            item_views(invariant_prefix@),
        ),
{
    let ghost raw = item_views(raw_items@);
    let ghost prefix = item_views(invariant_prefix@);
    let ghost cursor = raw_start_index as int;
    let ghost wanted = groups_from(*model, raw, 0, cursor, prefix);
    let spans = tool_dependency_spans(raw_items);
    let n: usize = raw_items.len();
    let mut groups: Vec<RawRollingGroup> = Vec::new();
    let mut index: usize = 0;
    assert(raw_group_views(groups@) + wanted =~= wanted);
    while index < n
        invariant
            n == raw_items@.len(),
            index <= n,
            raw == item_views(raw_items@),
            prefix == item_views(invariant_prefix@),
            cursor == raw_start_index,
            spans@.len() == n,
            forall|i: int|
                0 <= i < spans@.len() ==> match #[trigger] spans@[i] {
                    Some(end) => span_end(raw, i) == Some(end as int),
                    None => span_end(raw, i) is None,
                },
            raw_group_views(groups@) + groups_from(*model, raw, index as int, cursor, prefix)
                == wanted,
        decreases n - index,
    {
        let ghost before = raw_group_views(groups@);
        proof {
            lemma_group_step(*model, raw, index as int, cursor, prefix);
        }
        let (group, next): (Option<RawRollingGroup>, usize) = take_group(
            model,
            raw_items,
            index,
            spans[index],
            raw_start_index,
            invariant_prefix,
        );
        let ghost rest = groups_from(*model, raw, next as int, cursor, prefix);
        match group {
            Some(found) => {
                groups.push(found);
                proof {
                    assert(raw_group_views(groups@) =~= before.push(found@));
                    assert(before.push(found@) + rest =~= before + (seq![found@] + rest));
                }
            },
            None => {
                assert(groups_from(*model, raw, index as int, cursor, prefix) == rest);
            },
        }
        index = next;
    }
    assert(groups_from(*model, raw, index as int, cursor, prefix) =~= Seq::<RawGroupView>::empty());
    assert(raw_group_views(groups@) =~= wanted);
    groups
}

} // verus!
