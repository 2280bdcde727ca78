//! What a rolling prompt is built on. Summaries that were written on one basis say nothing on
//! another.

use crate::item::{item_views, list_view, ItemView, ResponseItem};
use crate::rolling_pairwise::PairwiseRollingPromptParams;
use crate::rolling_prompt::{ParamsView, RollingPromptParams};
use crate::session_model::{InputModality, SessionModel};
use vstd::prelude::*;
use vstd::string::*;

verus! {

/// Everything that a change of which makes the earlier summaries useless. The prefix is held in the
/// form in which it is sent.
#[derive(Debug, PartialEq, Eq, Hash)]
pub struct ProjectionBasis {
    /// The version of this list.
    pub format: String,
    pub input_modalities: Vec<InputModality>,
    pub reserve_percent: Option<u8>,
    pub target_tokens: Option<i64>,
    pub tool_output_limit_tokens: i64,
    pub effective_context_window: Option<i64>,
    pub pairwise_compaction: Option<PairwiseRollingPromptParams>,
    pub invariant_prefix: Vec<String>,
}

pub struct BasisView {
    pub format: Seq<char>,
    pub input_modalities: Seq<InputModality>,
    pub reserve_percent: Option<u8>,
    pub target_tokens: Option<i64>,
    pub tool_output_limit_tokens: i64,
    pub effective_context_window: Option<i64>,
    pub pairwise_compaction: Option<PairwiseRollingPromptParams>,
    pub invariant_prefix: Seq<Seq<char>>,
}

impl View for ProjectionBasis {
    type V = BasisView;

    open spec fn view(&self) -> BasisView {
        BasisView {
            format: self.format@,
            input_modalities: self.input_modalities@,
            reserve_percent: self.reserve_percent,
            target_tokens: self.target_tokens,
            tool_output_limit_tokens: self.tool_output_limit_tokens,
            effective_context_window: self.effective_context_window,
            pairwise_compaction: self.pairwise_compaction,
            invariant_prefix: list_view(self.invariant_prefix@),
        }
    }
}

/// The JSON forms of the items.
pub open spec fn item_jsons<M: SessionModel>(model: M, items: Seq<ItemView>) -> Seq<Seq<char>> {
    items.map_values(|i: ItemView| model.spec_item_json(i))
}

/// The basis of a prompt. What scales a single request, and the instructions, are no part of it.
pub open spec fn basis_of<M: SessionModel>(model: M, params: ParamsView) -> BasisView {
    BasisView {
        format: "rollctx-v2"@,
        input_modalities: params.input_modalities,
        reserve_percent: params.reserve_percent,
        target_tokens: params.target_tokens,
        tool_output_limit_tokens: params.tool_output_limit_tokens,
        effective_context_window: params.effective_context_window,
        pairwise_compaction: params.pairwise_compaction,
        invariant_prefix: item_jsons(model, params.prefix),
    }
}

fn clone_modalities(modalities: &Vec<InputModality>) -> (r: Vec<InputModality>)
    ensures
        r@ == modalities@,
{
    let mut r: Vec<InputModality> = Vec::new();
    let mut i: usize = 0;
    while i < modalities.len()
        invariant
            i <= modalities@.len(),
            r@ == modalities@.subrange(0, i as int),
        decreases modalities@.len() - i,
    {
        r.push(modalities[i]);
        assert(modalities@.subrange(0, i + 1) =~= modalities@.subrange(0, i as int).push(
            modalities@[i as int],
        ));
        i += 1;
    }
    assert(modalities@.subrange(0, i as int) =~= modalities@);
    r
}

fn write_items<M: SessionModel>(model: &M, items: &Vec<ResponseItem>) -> (r: Vec<String>)
    ensures
        list_view(r@) == item_jsons(*model, item_views(items@)),
{
    let ghost all = item_views(items@);
    let mut r: Vec<String> = Vec::new();
    let mut i: usize = 0;
    while i < items.len()
        invariant
            i <= items@.len(),
            r@.len() == i,
            all == item_views(items@),
            forall|k: int| 0 <= k < i ==> (#[trigger] r@[k])@ == model.spec_item_json(all[k]),
        decreases items@.len() - i,
    {
        assert(all[i as int] == items@[i as int]@);
        r.push(model.item_json(&items[i]));
        i += 1;
    }
    assert(list_view(r@) =~= item_jsons(*model, all));
    r
}

/// The basis of a prompt.
pub fn projection_basis<M: SessionModel>(model: &M, params: &RollingPromptParams) -> (basis:
    ProjectionBasis)
    ensures
        basis@ == basis_of(*model, params@),
{
    ProjectionBasis {
        format: String::from_str("rollctx-v2"),
        input_modalities: clone_modalities(&params.input_modalities),
        reserve_percent: params.reserve_percent,
        target_tokens: params.target_tokens,
        tool_output_limit_tokens: params.tool_output_limit_tokens,
        effective_context_window: params.effective_context_window,
        pairwise_compaction: params.pairwise_compaction,
        invariant_prefix: write_items(model, &params.invariant_prefix),
    }
}

/// `std::hash::BuildHasher::hash_one`, with the default hasher, over a basis.
///
/// Nothing is claimed of the number: the algorithm may change from one release of the standard
/// library to the next, and two bases may share a number.
#[verifier::external_body]
pub(crate) fn hash_basis(basis: &ProjectionBasis) -> (fingerprint: u64) {
    std::hash::BuildHasher::hash_one(
        &std::hash::BuildHasherDefault::<std::hash::DefaultHasher>::default(),
        basis,
    )
}

/// The number is what the hasher may give for the basis of a prompt.
pub open(crate) spec fn is_basis_fingerprint<M: SessionModel>(
    model: M,
    params: ParamsView,
    fingerprint: u64,
) -> bool {
    exists|basis: ProjectionBasis|
        basis@ == basis_of(model, params) && #[trigger] call_ensures(
            hash_basis,
            (&basis,),
            fingerprint,
        )
}

/// Calls a function on a basis and keeps to what the call returned.
fn hashed<F: Fn(&ProjectionBasis) -> u64>(hash: F, basis: &ProjectionBasis) -> (fingerprint: u64)
    requires
        call_requires(hash, (basis,)),
    ensures
        call_ensures(hash, (basis,), fingerprint),
{
    hash(basis)
}

/// The fingerprint of the basis of a prompt: what the hasher gave for exactly that basis.
pub fn projection_basis_fingerprint<M: SessionModel>(model: &M, params: &RollingPromptParams) -> (
    fingerprint: u64)
    ensures
        is_basis_fingerprint(*model, params@, fingerprint),
{
    let basis = projection_basis(model, params);
    let fingerprint: u64 = hashed(hash_basis, &basis);
    assert(call_ensures(hash_basis, (&basis,), fingerprint));
    fingerprint
}

// -- laws -------------------------------------------------------------------------------------

/// The basis tells apart all that it holds: equal bases have equal targets, limits, windows and
/// summary settings, and prefixes that are sent alike.
pub proof fn law_basis_tells_parameters_apart<M: SessionModel>(
    model: M,
    a: ParamsView,
    b: ParamsView,
)
    requires
        basis_of(model, a) == basis_of(model, b),
    ensures
        a.input_modalities == b.input_modalities,
        a.reserve_percent == b.reserve_percent,
        a.target_tokens == b.target_tokens,
        a.tool_output_limit_tokens == b.tool_output_limit_tokens,
        a.effective_context_window == b.effective_context_window,
        a.pairwise_compaction == b.pairwise_compaction,
        a.prefix.len() == b.prefix.len(),
        forall|k: int|
            0 <= k < a.prefix.len() ==> model.spec_item_json(#[trigger] a.prefix[k])
                == model.spec_item_json(b.prefix[k]),
{
    assert(item_jsons(model, a.prefix).len() == item_jsons(model, b.prefix).len());
    assert forall|k: int| 0 <= k < a.prefix.len() implies model.spec_item_json(
        #[trigger] a.prefix[k],
    ) == model.spec_item_json(b.prefix[k]) by {
        assert(item_jsons(model, a.prefix)[k] == item_jsons(model, b.prefix)[k]);
    }
}

} // verus!
