//! What the basic operations on texts keep.

use crate::exact_tail_diagnostics::numbers_of;
use crate::exact_tail_plan::ExactTailDiagnostics;
use crate::exact_tail_replacement::ExactTailReplacementDiagnostics;
use crate::fragments::{ContextualUserFragment, ExactTailToolSurfaceNotice};
use crate::text::{
    decimal, digit_char, signed_decimal, trimmed, trimmed_end, trimmed_start, white_space,
};
use crate::words::{lemma_some_piece, non_empty, pieces, words, Cut};
use vstd::prelude::*;
use vstd::string::*;

verus! {

// -- numbers ----------------------------------------------------------------------------------

/// The number that decimal digits stand for.
pub open spec fn number_read(digits: Seq<char>) -> int
    decreases digits.len(),
{
    if digits.len() == 0 {
        0
    } else {
        number_read(digits.drop_last()) * 10 + (digits.last() as u32 - '0' as u32)
    }
}

/// A number in decimal reads back as the number. It has digits alone, and begins with zero only
/// where it is zero.
pub proof fn law_decimal_reads_back(n: nat)
    ensures
        number_read(decimal(n)) == n,
        forall|k: int| 0 <= k < decimal(n).len() ==> '0' <= #[trigger] decimal(n)[k] <= '9',
        decimal(n).len() > 0,
        n > 0 ==> decimal(n)[0] != '0',
    decreases n,
{
    if n < 10 {
        let digits = decimal(n);
        assert(digits.drop_last() =~= Seq::<char>::empty());
        assert(number_read(digits.drop_last()) == 0);
        assert(digits.last() == digit_char(n));
    } else {
        law_decimal_reads_back(n / 10);
        let front = decimal(n / 10);
        let digits = decimal(n);
        assert(digits.drop_last() =~= front);
        assert(digits.last() == digit_char(n % 10));
        assert(digits[0] == front[0]);
        assert forall|k: int| 0 <= k < digits.len() implies '0' <= #[trigger] digits[k] <= '9' by {
            if k < front.len() {
                assert(digits[k] == front[k]);
            }
        }
    }
}

/// A negative number has a sign before its digits, any other none.
pub proof fn law_signed_decimal(n: int)
    ensures
        n >= 0 ==> signed_decimal(n) == decimal(n as nat),
        n < 0 ==> signed_decimal(n).len() > 0 && signed_decimal(n)[0] == '-'
            && signed_decimal(n).drop_first() == decimal((-n) as nat),
{
    reveal_strlit("-");
    if n < 0 {
        assert(signed_decimal(n).drop_first() =~= decimal((-n) as nat));
    }
}

// -- white space ------------------------------------------------------------------------------

proof fn lemma_trimmed_start(s: Seq<char>)
    ensures
        ({
            let at = s.len() - trimmed_start(s).len();
            &&& 0 <= at <= s.len()
            &&& trimmed_start(s) == s.subrange(at, s.len() as int)
            &&& forall|k: int| 0 <= k < at ==> white_space(#[trigger] s[k])
            &&& trimmed_start(s).len() > 0 ==> !white_space(trimmed_start(s)[0])
        }),
    decreases s.len(),
{
    if s.len() > 0 && white_space(s[0]) {
        let rest = s.drop_first();
        lemma_trimmed_start(rest);
        let at = rest.len() - trimmed_start(rest).len();
        assert(rest.subrange(at, rest.len() as int) =~= s.subrange(at + 1, s.len() as int));
        assert forall|k: int| 0 <= k < at + 1 implies white_space(#[trigger] s[k]) by {
            if k > 0 {
                assert(white_space(rest[k - 1]));
            }
        }
    } else {
        assert(s.subrange(0, s.len() as int) =~= s);
    }
}

proof fn lemma_trimmed_end(s: Seq<char>)
    ensures
        ({
            let to = trimmed_end(s).len() as int;
            &&& 0 <= to <= s.len()
            &&& trimmed_end(s) == s.subrange(0, to)
            &&& forall|k: int| to <= k < s.len() ==> white_space(#[trigger] s[k])
            &&& to > 0 ==> !white_space(s[to - 1])
        }),
    decreases s.len(),
{
    if s.len() > 0 && white_space(s.last()) {
        let rest = s.drop_last();
        lemma_trimmed_end(rest);
        let to = trimmed_end(rest).len() as int;
        assert(rest.subrange(0, to) =~= s.subrange(0, to));
        assert forall|k: int| to <= k < s.len() implies white_space(#[trigger] s[k]) by {
            if k < rest.len() {
                assert(white_space(rest[k]));
            }
        }
    } else {
        assert(s.subrange(0, s.len() as int) =~= s);
    }
}

/// Trimming takes white space off both ends and nothing else: what is left is a part of the text
/// that neither begins nor ends with white space, and all around it is white space.
pub proof fn law_trimming_takes_white_space_alone(s: Seq<char>)
    ensures
        exists|from: int, to: int|
            {
                &&& 0 <= from <= to <= s.len()
                &&& trimmed(s) == #[trigger] s.subrange(from, to)
                &&& forall|k: int| 0 <= k < from ==> white_space(#[trigger] s[k])
                &&& forall|k: int| to <= k < s.len() ==> white_space(#[trigger] s[k])
                &&& from < to ==> !white_space(s[from]) && !white_space(s[to - 1])
            },
{
    lemma_trimmed_start(s);
    let front = trimmed_start(s);
    lemma_trimmed_end(front);
    let from = s.len() - front.len();
    let to = from + trimmed(s).len();
    assert(trimmed(s) =~= s.subrange(from, to));
    assert forall|k: int| to <= k < s.len() implies white_space(#[trigger] s[k]) by {
        assert(white_space(front[k - from]));
    }
    if from < to {
        assert(front[0] == s[from]);
        assert(front[to - from - 1] == s[to - 1]);
    }
    assert(trimmed(s) == s.subrange(from, to));
}

/// White space is what Unicode says: the plain space, the control characters from tab to carriage
/// return, and the spaces and separators of other scripts.
pub proof fn law_white_space()
    ensures
        white_space(' '),
        white_space('\t'),
        white_space('\n'),
        white_space('\r'),
        forall|c: char| 'a' <= c <= 'z' ==> !#[trigger] white_space(c),
        forall|c: char| 'A' <= c <= 'Z' ==> !#[trigger] white_space(c),
        forall|c: char| '0' <= c <= '9' ==> !#[trigger] white_space(c),
        forall|c: char| '!' <= c <= '~' ==> !#[trigger] white_space(c),
{
}

proof fn lemma_pieces_solid(s: Seq<char>)
    ensures
        pieces(s, Cut::White).flatten_alt() == s.filter(|c: char| !white_space(c)),
    decreases s.len(),
{
    reveal(Seq::filter);
    let all = pieces(s, Cut::White);
    if s.len() == 0 {
        assert(all.drop_last() =~= Seq::<Seq<char>>::empty());
        assert(all.drop_last().flatten_alt() =~= Seq::<char>::empty());
        assert(all.flatten_alt() =~= s.filter(|c: char| !white_space(c)));
    } else {
        let before = pieces(s.drop_last(), Cut::White);
        lemma_some_piece(s.drop_last(), Cut::White);
        lemma_pieces_solid(s.drop_last());
        if white_space(s.last()) {
            assert(all.drop_last() =~= before);
            assert(all.flatten_alt() =~= before.flatten_alt());
        } else {
            assert(all.drop_last() =~= before.drop_last());
            assert(all.flatten_alt() =~= before.flatten_alt().push(s.last()));
        }
    }
}

proof fn lemma_non_empty_flat(parts: Seq<Seq<char>>)
    ensures
        non_empty(parts).flatten_alt() == parts.flatten_alt(),
    decreases parts.len(),
{
    if parts.len() > 0 {
        let rest = parts.drop_last();
        lemma_non_empty_flat(rest);
        if parts.last().len() == 0 {
            assert(rest.flatten_alt() + parts.last() =~= rest.flatten_alt());
        } else {
            assert(non_empty(parts).drop_last() =~= non_empty(rest));
        }
    } else {
        assert(non_empty(parts) =~= parts);
    }
}

/// The words of a text hold all of it but the white space, in order.
pub proof fn law_words_lose_white_space_alone(s: Seq<char>)
    ensures
        words(s).flatten_alt() == s.filter(|c: char| !white_space(c)),
{
    lemma_pieces_solid(s);
    lemma_non_empty_flat(pieces(s, Cut::White));
}

// -- notices and reports ----------------------------------------------------------------------

/// The notice on tools counts those that are missing and the references that were left out, each
/// only where there are any. It advises to look for tools again where some can still be found, and
/// else not to rely on them.
pub proof fn law_tool_notice_says(notice: ExactTailToolSurfaceNotice)
    ensures
        ({
            let lines = notice.lines();
            let missing = notice.missing_hot_tool_count;
            let older = notice.hot_tool_reference_overflow_count;
            let first: int = if missing > 0 {
                1
            } else {
                0
            };
            let second: int = if older > 0 {
                1
            } else {
                0
            };
            &&& lines.len() == first + second + 1
            &&& missing > 0 ==> lines[0] == decimal(missing as nat)
                + " tool reference(s) from the preserved exact-tail history are not currently available as direct callable tools."@
            &&& older > 0 ==> lines[first] == decimal(older as nat)
                + " older exact-tail tool reference(s) were beyond the continuity hint cap and were not rehydrated."@
            &&& lines.last() == if missing > notice.missing_no_path_count {
                "Rediscover still-available deferred tools before calling them."@
            } else {
                "Do not assume missing historical tools remain callable."@
            }
        }),
{
}

/// The numbers of a report are those of the plan under their own names. Those on the replacement
/// are of the installed one where there is one, else of the attempt.
pub proof fn law_report_carries_the_numbers(
    d: ExactTailDiagnostics,
    stale: usize,
    installed: ExactTailReplacementDiagnostics,
)
    ensures
        ({
            let n = numbers_of(d, stale, Some(installed));
            let m = numbers_of(d, stale, None);
            &&& n.requested_hot_tokens == Some(d.requested_hot_tokens)
            &&& n.actual_hot_tokens == Some(d.actual_hot_tokens)
            &&& n.hot_group_count == Some(d.hot_group_count)
            &&& n.cold_group_count == Some(d.cold_group_count)
            &&& n.raw_item_count == Some(d.raw_item_count)
            &&& n.group_count == Some(d.group_count)
            &&& n.cold_tokens == Some(d.cold_tokens)
            &&& n.summary_tokens == Some(installed.actual_summary_tokens)
            &&& n.replacement_tokens_estimate == Some(installed.replacement_tokens_estimate)
            &&& n.final_replacement_tokens_estimate == Some(
                installed.final_replacement_tokens_estimate,
            )
            &&& m.summary_tokens == d.actual_summary_tokens
            &&& m.replacement_tokens_estimate == d.attempted_replacement_tokens_estimate
            &&& m.final_replacement_tokens_estimate == d.attempted_final_replacement_tokens_estimate
            &&& n.effective_replacement_budget == Some(d.effective_replacement_budget)
            &&& n.safety_margin == Some(d.safety_margin)
            &&& n.max_model_visible_item_tokens == Some(d.max_model_visible_item_tokens)
            &&& n.normalized_tool_output_count == Some(d.normalized_tool_output_count)
            &&& n.largest_hot_item_tokens == Some(d.largest_hot_item_tokens)
            &&& n.hot_suffix_exact_match == Some(installed.hot_suffix_exact_match)
            &&& n.planned_hot_suffix_item_count == Some(installed.planned_hot_suffix_item_count)
            &&& n.installed_hot_suffix_item_count == Some(installed.installed_hot_suffix_item_count)
            &&& n.filtered_stale_group_count == Some(stale)
            &&& n.filtered_context_item_count == Some(d.filtered_context_item_count)
            &&& n.required_current_context_budget == Some(d.required_current_context_budget)
            &&& n.final_replacement_extra_budget_tokens == Some(
                d.final_replacement_extra_budget_tokens,
            )
            &&& n.available_for_hot == Some(d.available_for_hot)
            &&& n.semantic_transcript_tokens == d.semantic_transcript_tokens
            &&& n.raw_cold_tokens == d.raw_cold_tokens
            &&& n.semantic_transcript_reduction_tokens == d.semantic_transcript_reduction_tokens
            &&& n.retained_cold_message_tokens == d.retained_cold_message_tokens
            &&& n.retained_cold_message_count == d.retained_cold_message_count
        }),
{
}

} // verus!
