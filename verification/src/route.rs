//! Which way a compaction takes.

use crate::exact_tail::{
    policy_of, CompactExactTailStrategy, CompactionConfig, CompactionHistoryPolicy,
};
use crate::stream::{CompactError, CompactErrorView};
use vstd::prelude::*;
use vstd::string::*;

verus! {

#[derive(Clone, Copy, Debug, Eq, PartialEq, Structural)]
pub enum CompactRoute {
    Local,
    RemoteLegacy,
    RemoteV2,
    SemanticTranscript,
}

impl CompactRoute {
    pub open spec fn name(self) -> Seq<char> {
        match self {
            CompactRoute::Local => "local"@,
            CompactRoute::RemoteLegacy => "remote"@,
            CompactRoute::RemoteV2 => "remote_v2"@,
            CompactRoute::SemanticTranscript => "semantic_transcript"@,
        }
    }

    pub fn metric_name(self) -> (r: &'static str)
        ensures
            r@ == self.name(),
    {
        match self {
            CompactRoute::Local => "local",
            CompactRoute::RemoteLegacy => "remote",
            CompactRoute::RemoteV2 => "remote_v2",
            CompactRoute::SemanticTranscript => "semantic_transcript",
        }
    }
}

/// Recent items stay exact.
pub open spec fn keeps_exact_tail(config: CompactionConfig) -> bool {
    policy_of(config) != CompactionHistoryPolicy::Standard
}

/// The second remote protocol is used: it is enabled, and where recent items stay exact that was
/// asked for in so many words.
pub open spec fn uses_remote_v2(config: CompactionConfig) -> bool {
    config.remote_compaction_v2 && (!keeps_exact_tail(config)
        || config.remote_compaction_v2_explicit)
}

fn exact_tail_active(config: &CompactionConfig) -> (r: bool)
    ensures
        r == keeps_exact_tail(*config),
{
    match CompactionHistoryPolicy::from_config(config) {
        CompactionHistoryPolicy::PreserveRecentExact { .. } => true,
        CompactionHistoryPolicy::Standard => false,
    }
}

pub fn should_use_remote_compact_task_v2_for_config(config: &CompactionConfig) -> (r: bool)
    ensures
        r == uses_remote_v2(*config),
{
    config.remote_compaction_v2 && (!exact_tail_active(config)
        || config.remote_compaction_v2_explicit)
}

/// Who wrote a layer of the configuration.
#[derive(Clone, Copy, Debug, Eq, PartialEq, Structural)]
pub enum ConfigLayerSource {
    User,
    Project,
    Other,
}

/// What a layer of the configuration says about the second remote protocol.
#[derive(Clone, Copy, Debug, Eq, PartialEq, Structural)]
pub struct ConfigLayer {
    pub source: ConfigLayerSource,
    pub remote_compaction_v2: Option<bool>,
}

/// What the first layer, from `from` on, that the user or the project wrote says.
pub open spec fn explicit_setting(layers: Seq<ConfigLayer>, from: int) -> bool
    decreases layers.len() - from,
{
    if from < 0 || from >= layers.len() {
        false
    } else {
        match (layers[from].source, layers[from].remote_compaction_v2) {
            (ConfigLayerSource::User, Some(value)) => value,
            (ConfigLayerSource::Project, Some(value)) => value,
            _ => explicit_setting(layers, from + 1),
        }
    }
}

/// Whether the user or the project turned the second remote protocol on; the layers come highest
/// first.
pub fn remote_compaction_v2_explicitly_enabled(layers: &[ConfigLayer]) -> (r: bool)
    ensures
        r == explicit_setting(layers@, 0),
{
    let mut i: usize = 0;
    while i < layers.len()
        invariant
            i <= layers@.len(),
            explicit_setting(layers@, i as int) == explicit_setting(layers@, 0),
        decreases layers@.len() - i,
    {
        let layer = layers[i];
        if layer.source != ConfigLayerSource::Other {
            if let Some(value) = layer.remote_compaction_v2 {
                return value;
            }
        }
        i += 1;
    }
    false
}

pub open spec fn default_route(config: CompactionConfig, remote_available: bool) -> CompactRoute {
    if !remote_available {
        CompactRoute::Local
    } else if uses_remote_v2(config) {
        CompactRoute::RemoteV2
    } else {
        CompactRoute::RemoteLegacy
    }
}

pub fn default_compact_route(config: &CompactionConfig, remote_available: bool) -> (r: CompactRoute)
    ensures
        r == default_route(*config, remote_available),
{
    if !remote_available {
        CompactRoute::Local
    } else if should_use_remote_compact_task_v2_for_config(config) {
        CompactRoute::RemoteV2
    } else {
        CompactRoute::RemoteLegacy
    }
}

/// The message on a route that the provider does not offer.
pub open spec fn route_unavailable(route: CompactRoute) -> CompactErrorView {
    CompactErrorView::Stream(
        "Exact-tail compaction strategy `"@ + route.name()
            + "` requires a provider with remote compaction support."@,
    )
}

/// The route that a strategy names.
pub open spec fn named_route(strategy: CompactExactTailStrategy) -> Option<CompactRoute> {
    match strategy {
        CompactExactTailStrategy::Auto => None,
        CompactExactTailStrategy::RemoteLegacy => Some(CompactRoute::RemoteLegacy),
        CompactExactTailStrategy::RemoteV2 => Some(CompactRoute::RemoteV2),
        CompactExactTailStrategy::SemanticTranscript => Some(CompactRoute::SemanticTranscript),
    }
}

/// The way a compaction takes: a strategy counts only where recent items stay exact, and a remote
/// one needs a provider that offers it.
pub open spec fn route_for(config: CompactionConfig, remote_available: bool) -> Result<
    CompactRoute,
    CompactErrorView,
> {
    match named_route(config.compact_exact_tail_strategy) {
        Some(route) => if !keeps_exact_tail(config) {
            Ok(default_route(config, remote_available))
        } else if remote_available {
            Ok(route)
        } else {
            Err(route_unavailable(route))
        },
        None => Ok(default_route(config, remote_available)),
    }
}

fn explicit_remote_exact_tail_route(remote_available: bool, route: CompactRoute) -> (r: Result<
    CompactRoute,
    CompactError,
>)
    ensures
        match r {
            Ok(taken) => remote_available && taken == route,
            Err(error) => !remote_available && error@ == route_unavailable(route),
        },
{
    if remote_available {
        Ok(route)
    } else {
        let mut message = String::from_str("Exact-tail compaction strategy `");
        message.append(route.metric_name());
        message.append("` requires a provider with remote compaction support.");
        Err(CompactError::Stream(message))
    }
}

pub fn compact_route_for_config(config: &CompactionConfig, remote_available: bool) -> (r: Result<
    CompactRoute,
    CompactError,
>)
    ensures
        match r {
            Ok(route) => route_for(*config, remote_available) == Ok::<
                CompactRoute,
                CompactErrorView,
            >(route),
            Err(error) => route_for(*config, remote_available) == Err::<
                CompactRoute,
                CompactErrorView,
            >(error@),
        },
{
    if !exact_tail_active(config) {
        return Ok(default_compact_route(config, remote_available));
    }
    match config.compact_exact_tail_strategy {
        CompactExactTailStrategy::Auto => Ok(default_compact_route(config, remote_available)),
        CompactExactTailStrategy::RemoteLegacy => explicit_remote_exact_tail_route(
            remote_available,
            CompactRoute::RemoteLegacy,
        ),
        CompactExactTailStrategy::RemoteV2 => explicit_remote_exact_tail_route(
            remote_available,
            CompactRoute::RemoteV2,
        ),
        CompactExactTailStrategy::SemanticTranscript => explicit_remote_exact_tail_route(
            remote_available,
            CompactRoute::SemanticTranscript,
        ),
    }
}

/// Without a provider that offers remote compaction, no route leads there.
pub proof fn law_no_remote_route_without_provider(config: CompactionConfig)
    ensures
        match route_for(config, false) {
            Ok(route) => route == CompactRoute::Local,
            Err(_) => true,
        },
{
}

/// A history that keeps no exact tail never takes the route that renders a transcript.
pub proof fn law_transcript_needs_an_exact_tail(config: CompactionConfig, remote_available: bool)
    ensures
        route_for(config, remote_available) == Ok::<CompactRoute, CompactErrorView>(
            CompactRoute::SemanticTranscript,
        ) ==> keeps_exact_tail(config),
{
}

/// The way a compaction takes is one of four. Without an exact tail, or where no strategy is named,
/// the provider decides: without remote compaction it is local, else remote, by the second protocol
/// where that is enabled and, with an exact tail, was asked for in so many words. With an exact
/// tail a named strategy is taken where the provider offers remote compaction, and refused where it
/// does not.
pub proof fn law_route_follows_the_configuration(config: CompactionConfig, remote: bool)
    ensures
        ({
            let exact = config.compact_preserve_recent_tokens matches Some(tokens) && tokens > 0;
            let route = route_for(config, remote);
            let named = config.compact_exact_tail_strategy;
            &&& !exact || named == CompactExactTailStrategy::Auto ==> route == Ok::<
                CompactRoute,
                CompactErrorView,
            >(
                if !remote {
                    CompactRoute::Local
                } else if config.remote_compaction_v2 && (!exact
                    || config.remote_compaction_v2_explicit) {
                    CompactRoute::RemoteV2
                } else {
                    CompactRoute::RemoteLegacy
                },
            )
            &&& exact && remote && named == CompactExactTailStrategy::RemoteLegacy ==> route == Ok::<
                CompactRoute,
                CompactErrorView,
            >(CompactRoute::RemoteLegacy)
            &&& exact && remote && named == CompactExactTailStrategy::RemoteV2 ==> route == Ok::<
                CompactRoute,
                CompactErrorView,
            >(CompactRoute::RemoteV2)
            &&& exact && remote && named == CompactExactTailStrategy::SemanticTranscript ==> route
                == Ok::<CompactRoute, CompactErrorView>(CompactRoute::SemanticTranscript)
            &&& exact && !remote && named != CompactExactTailStrategy::Auto ==> route is Err
        }),
{
}

/// Of the layers, which come highest first, the first one that the user or the project wrote and
/// that says anything about the protocol decides.
pub proof fn law_nearest_layer_decides(layers: Seq<ConfigLayer>, from: int, at: int)
    requires
        0 <= from <= at <= layers.len(),
        forall|k: int|
            from <= k < at ==> (#[trigger] layers[k]).source == ConfigLayerSource::Other
                || layers[k].remote_compaction_v2 is None,
        at < layers.len() ==> layers[at].source != ConfigLayerSource::Other
            && layers[at].remote_compaction_v2 is Some,
    ensures
        explicit_setting(layers, from) == (at < layers.len()
            && layers[at].remote_compaction_v2 == Some(true)),
    decreases at - from,
{
    if from < at {
        assert(layers[from].source == ConfigLayerSource::Other
            || layers[from].remote_compaction_v2 is None);
        law_nearest_layer_decides(layers, from + 1, at);
    }
}

} // verus!
