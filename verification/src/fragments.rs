//! Generated context that travels as messages, each kind between its own pair of markers.

use crate::item::{text_message, ResponseItem};
use crate::text::{
    between_markers, contains, decimal, decimal_text, ends_with, has_prefix, has_suffix, join,
    joined, matches_markers, occurs_at, occurs_in, starts_with, texts, trim_text, trimmed,
    trimmed_start, white_space,
};
use crate::tokens::{approx_token_count, text_tokens, truncate_text, truncated};
use vstd::prelude::*;
use vstd::string::*;

verus! {

/// A piece of generated context with a start and an end marker.
pub trait ContextualUserFragment: Sized {
    spec fn spec_role(&self) -> Seq<char>;

    spec fn spec_start_marker() -> Seq<char>;

    spec fn spec_end_marker() -> Seq<char>;

    spec fn spec_body(&self) -> Seq<char>;

    /// What counts as a rendered fragment of this kind.
    spec fn spec_matches_text(text: Seq<char>) -> bool;

    /// The role of the message that carries the fragment.
    fn role(&self) -> (role: &'static str)
        ensures
            role@ == self.spec_role(),
    ;

    fn type_markers() -> (markers: (&'static str, &'static str))
        ensures
            markers.0@ == Self::spec_start_marker(),
            markers.1@ == Self::spec_end_marker(),
    ;

    fn matches_text(text: &str) -> (r: bool)
        ensures
            r == Self::spec_matches_text(text@),
    ;

    fn body(&self) -> (body: String)
        ensures
            body@ == self.spec_body(),
    ;

    fn markers(&self) -> (markers: (&'static str, &'static str))
        ensures
            markers.0@ == Self::spec_start_marker(),
            markers.1@ == Self::spec_end_marker(),
    {
        Self::type_markers()
    }

    /// The body between its markers.
    fn render(&self) -> (text: String)
        ensures
            text@ == Self::spec_start_marker() + self.spec_body() + Self::spec_end_marker(),
    {
        let (start, end) = self.markers();
        let mut text = String::from_str(start);
        text.append(self.body().as_str());
        text.append(end);
        text
    }

    /// The message that carries the fragment.
    fn to_item(&self) -> (item: ResponseItem)
        ensures
            item@ == text_message(
                self.spec_role(),
                Self::spec_start_marker() + self.spec_body() + Self::spec_end_marker(),
            ),
    {
        ResponseItem::text_message(self.role(), self.render())
    }
}

// ---------------------------------------------------------------------------------------------
// Extension context.
// ---------------------------------------------------------------------------------------------

/// Context that an extension contributes to the user's side of the conversation.
#[derive(Debug, PartialEq)]
pub struct ExtensionContextualUserFragment {
    pub text: String,
}

impl ExtensionContextualUserFragment {
    pub fn new(text: String) -> (r: Self)
        ensures
            r.text@ == text@,
    {
        ExtensionContextualUserFragment { text }
    }
}

impl ContextualUserFragment for ExtensionContextualUserFragment {
    open spec fn spec_role(&self) -> Seq<char> {
        "user"@
    }

    open spec fn spec_start_marker() -> Seq<char> {
        "<extension_contextual_user>"@
    }

    open spec fn spec_end_marker() -> Seq<char> {
        "</extension_contextual_user>"@
    }

    open spec fn spec_body(&self) -> Seq<char> {
        "\n"@ + self.text@ + "\n"@
    }

    open spec fn spec_matches_text(text: Seq<char>) -> bool {
        between_markers(text, Self::spec_start_marker(), Self::spec_end_marker())
    }

    fn role(&self) -> &'static str {
        "user"
    }

    fn type_markers() -> (&'static str, &'static str) {
        ("<extension_contextual_user>", "</extension_contextual_user>")
    }

    fn matches_text(text: &str) -> bool {
        let (start, end) = Self::type_markers();
        matches_markers(text, start, end)
    }

    fn body(&self) -> String {
        let mut body = String::from_str("\n");
        body.append(self.text.as_str());
        body.append("\n");
        body
    }
}

// ---------------------------------------------------------------------------------------------
// The mark of an invariant developer message.
// ---------------------------------------------------------------------------------------------

/// Marks a developer message whose content is rebuilt for every request.
#[derive(Debug, Clone, Copy, PartialEq, Eq)]
pub struct RollingInvariantDeveloperContext;

impl ContextualUserFragment for RollingInvariantDeveloperContext {
    open spec fn spec_role(&self) -> Seq<char> {
        "developer"@
    }

    open spec fn spec_start_marker() -> Seq<char> {
        "<codex_rollctx_invariant_developer_context>"@
    }

    open spec fn spec_end_marker() -> Seq<char> {
        "</codex_rollctx_invariant_developer_context>"@
    }

    open spec fn spec_body(&self) -> Seq<char> {
        "\n"@
    }

    open spec fn spec_matches_text(text: Seq<char>) -> bool {
        between_markers(text, Self::spec_start_marker(), Self::spec_end_marker())
    }

    fn role(&self) -> &'static str {
        "developer"
    }

    fn type_markers() -> (&'static str, &'static str) {
        (
            "<codex_rollctx_invariant_developer_context>",
            "</codex_rollctx_invariant_developer_context>",
        )
    }

    fn matches_text(text: &str) -> bool {
        let (start, end) = Self::type_markers();
        matches_markers(text, start, end)
    }

    fn body(&self) -> String {
        String::from_str("\n")
    }
}

// ---------------------------------------------------------------------------------------------
// Tools that an exact tail mentions but the session no longer offers.
// ---------------------------------------------------------------------------------------------

#[derive(Debug, Clone, Copy, PartialEq, Eq)]
pub struct ExactTailToolSurfaceNotice {
    pub missing_hot_tool_count: usize,
    pub hot_tool_reference_overflow_count: usize,
    pub missing_no_path_count: usize,
}

impl ExactTailToolSurfaceNotice {
    pub fn new(
        missing_hot_tool_count: usize,
        hot_tool_reference_overflow_count: usize,
        missing_no_path_count: usize,
    ) -> (r: Self)
        ensures
            r == (ExactTailToolSurfaceNotice {
                missing_hot_tool_count,
                hot_tool_reference_overflow_count,
                missing_no_path_count,
            }),
    {
        ExactTailToolSurfaceNotice {
            missing_hot_tool_count,
            hot_tool_reference_overflow_count,
            missing_no_path_count,
        }
    }

    /// The lines of the notice: one on missing tools and one on older references, each only where
    /// there are any, and one on what to do about it.
    pub open spec fn lines(&self) -> Seq<Seq<char>> {
        let missing = if self.missing_hot_tool_count > 0 {
            seq![
                decimal(self.missing_hot_tool_count as nat)
                    + " tool reference(s) from the preserved exact-tail history are not currently available as direct callable tools."@,
            ]
        } else {
            Seq::empty()
        };
        let overflow = if self.hot_tool_reference_overflow_count > 0 {
            seq![
                decimal(self.hot_tool_reference_overflow_count as nat)
                    + " older exact-tail tool reference(s) were beyond the continuity hint cap and were not rehydrated."@,
            ]
        } else {
            Seq::empty()
        };
        let advice = if self.missing_hot_tool_count > self.missing_no_path_count {
            seq!["Rediscover still-available deferred tools before calling them."@]
        } else {
            seq!["Do not assume missing historical tools remain callable."@]
        };
        missing + overflow + advice
    }
}

impl ContextualUserFragment for ExactTailToolSurfaceNotice {
    open spec fn spec_role(&self) -> Seq<char> {
        "user"@
    }

    open spec fn spec_start_marker() -> Seq<char> {
        "<exact_tail_tool_surface_notice>"@
    }

    open spec fn spec_end_marker() -> Seq<char> {
        "</exact_tail_tool_surface_notice>"@
    }

    open spec fn spec_body(&self) -> Seq<char> {
        "\n"@ + joined(self.lines(), "\n"@) + "\n"@
    }

    open spec fn spec_matches_text(text: Seq<char>) -> bool {
        between_markers(text, Self::spec_start_marker(), Self::spec_end_marker())
    }

    fn role(&self) -> &'static str {
        "user"
    }

    fn type_markers() -> (&'static str, &'static str) {
        ("<exact_tail_tool_surface_notice>", "</exact_tail_tool_surface_notice>")
    }

    fn matches_text(text: &str) -> bool {
        let (start, end) = Self::type_markers();
        matches_markers(text, start, end)
    }

    fn body(&self) -> String {
        let mut lines: Vec<String> = Vec::new();
        if self.missing_hot_tool_count > 0 {
            let mut line = decimal_text(self.missing_hot_tool_count as u64);
            line.append(
                " tool reference(s) from the preserved exact-tail history are not currently available as direct callable tools.",
            );
            lines.push(line);
        }
        if self.hot_tool_reference_overflow_count > 0 {
            let mut line = decimal_text(self.hot_tool_reference_overflow_count as u64);
            line.append(
                " older exact-tail tool reference(s) were beyond the continuity hint cap and were not rehydrated.",
            );
            lines.push(line);
        }
        if self.missing_hot_tool_count > self.missing_no_path_count {
            lines.push(
                String::from_str("Rediscover still-available deferred tools before calling them."),
            );
        } else {
            lines.push(
                String::from_str("Do not assume missing historical tools remain callable."),
            );
        }
        assert(texts(lines@) =~= self.lines());
        let mut body = String::from_str("\n");
        body.append(join(&lines, "\n").as_str());
        body.append("\n");
        body
    }
}

// ---------------------------------------------------------------------------------------------
// Summary groups.
// ---------------------------------------------------------------------------------------------

/// The text that stands for one character in markup.
pub open spec fn escaped_char(c: char) -> Seq<char> {
    if c == '&' {
        "&amp;"@
    } else if c == '<' {
        "&lt;"@
    } else if c == '>' {
        "&gt;"@
    } else if c == '"' {
        "&quot;"@
    } else {
        seq![c]
    }
}

/// The text with every character that markup gives a meaning replaced.
pub open spec fn escaped(s: Seq<char>) -> Seq<char>
    decreases s.len(),
{
    if s.len() == 0 {
        Seq::empty()
    } else {
        escaped(s.drop_last()) + escaped_char(s.last())
    }
}

pub fn escape_xml(value: &str) -> (r: String)
    ensures
        r@ == escaped(value@),
{
    let mut r = String::new();
    for c in it: value.chars()
        invariant
            it.seq() == value@,
            r@ == escaped(value@.subrange(0, it.index())),
    {
        proof {
            let next = value@.subrange(0, it.index() + 1);
            assert(next.drop_last() =~= value@.subrange(0, it.index()));
            assert(next.last() == c);
        }
        if c == '&' {
            r.append("&amp;");
        } else if c == '<' {
            r.append("&lt;");
        } else if c == '>' {
            r.append("&gt;");
        } else if c == '"' {
            r.append("&quot;");
        } else {
            let ghost before = r@;
            r.push(c);
            assert(r@ =~= before + seq![c]);
        }
    }
    assert(value@.subrange(0, value@.len() as int) =~= value@);
    r
}

/// Escaped text opens and closes no tag and ends no attribute.
pub proof fn law_escaped_text_is_inert(s: Seq<char>)
    ensures
        forall|i: int|
            0 <= i < escaped(s).len() ==> (#[trigger] escaped(s)[i]) != '<' && escaped(s)[i] != '>'
                && escaped(s)[i] != '"',
    decreases s.len(),
{
    if s.len() > 0 {
        law_escaped_text_is_inert(s.drop_last());
        reveal_strlit("&amp;");
        reveal_strlit("&lt;");
        reveal_strlit("&gt;");
        reveal_strlit("&quot;");
        let front = escaped(s.drop_last());
        let back = escaped_char(s.last());
        assert forall|i: int| 0 <= i < escaped(s).len() implies (#[trigger] escaped(s)[i]) != '<'
            && escaped(s)[i] != '>' && escaped(s)[i] != '"' by {
            if i < front.len() {
                assert(escaped(s)[i] == front[i]);
            } else {
                assert(escaped(s)[i] == back[i - front.len()]);
            }
        }
    }
}

/// The text that was escaped.
pub open spec fn unescaped(s: Seq<char>) -> Seq<char>
    decreases s.len(),
{
    if s.len() == 0 {
        Seq::empty()
    } else if has_prefix(s, "&amp;"@) && s.len() >= 5 {
        seq!['&'] + unescaped(s.subrange(5, s.len() as int))
    } else if has_prefix(s, "&lt;"@) && s.len() >= 4 {
        seq!['<'] + unescaped(s.subrange(4, s.len() as int))
    } else if has_prefix(s, "&gt;"@) && s.len() >= 4 {
        seq!['>'] + unescaped(s.subrange(4, s.len() as int))
    } else if has_prefix(s, "&quot;"@) && s.len() >= 6 {
        seq!['"'] + unescaped(s.subrange(6, s.len() as int))
    } else {
        seq![s[0]] + unescaped(s.subrange(1, s.len() as int))
    }
}

proof fn lemma_escaped_front(s: Seq<char>)
    requires
        s.len() > 0,
    ensures
        escaped(s) == escaped_char(s[0]) + escaped(s.drop_first()),
    decreases s.len(),
{
    let none = Seq::<char>::empty();
    if s.len() == 1 {
        assert(s.drop_last() =~= none);
        assert(s.drop_first() =~= none);
        assert(escaped(none) == none);
        assert(none + escaped_char(s[0]) =~= escaped_char(s[0]) + none);
    } else {
        let front = s.drop_last();
        lemma_escaped_front(front);
        assert(front.drop_first() =~= s.drop_first().drop_last());
        assert(s.drop_first().last() == s.last());
        assert(escaped_char(s[0]) + escaped(front.drop_first()) + escaped_char(s.last())
            =~= escaped_char(s[0]) + (escaped(front.drop_first()) + escaped_char(s.last())));
    }
}

proof fn lemma_unescaped_front(c: char, rest: Seq<char>)
    ensures
        unescaped(escaped_char(c) + rest) == seq![c] + unescaped(rest),
{
    reveal_strlit("&amp;");
    reveal_strlit("&lt;");
    reveal_strlit("&gt;");
    reveal_strlit("&quot;");
    let s = escaped_char(c) + rest;
    let n = escaped_char(c).len() as int;
    assert(s.subrange(n, s.len() as int) =~= rest);
    assert(s.subrange(0, n) =~= escaped_char(c));
    assert(s[0] == escaped_char(c)[0]);
    if has_prefix(s, "&amp;"@) {
        assert(s[0] == s.subrange(0, 5)[0] && s[1] == s.subrange(0, 5)[1]);
    }
    if has_prefix(s, "&lt;"@) {
        assert(s[0] == s.subrange(0, 4)[0] && s[1] == s.subrange(0, 4)[1]);
    }
    if has_prefix(s, "&gt;"@) {
        assert(s[0] == s.subrange(0, 4)[0] && s[1] == s.subrange(0, 4)[1]);
    }
    if has_prefix(s, "&quot;"@) {
        assert(s[0] == s.subrange(0, 6)[0] && s[1] == s.subrange(0, 6)[1]);
    }
    if c == '&' || c == '<' || c == '>' || c == '"' {
        assert(s[1] == escaped_char(c)[1]);
    }
}

/// Escaping loses nothing: it can be undone.
pub proof fn law_escape_can_be_undone(s: Seq<char>)
    ensures
        unescaped(escaped(s)) == s,
    decreases s.len(),
{
    if s.len() > 0 {
        lemma_escaped_front(s);
        lemma_unescaped_front(s[0], escaped(s.drop_first()));
        law_escape_can_be_undone(s.drop_first());
        assert(seq![s[0]] + s.drop_first() =~= s);
    } else {
        assert(unescaped(escaped(s)) =~= s);
    }
}

/// The sections of a summary, in the order in which they are rendered.
#[derive(Debug, PartialEq, Eq)]
pub struct RollctxSummaryGroupContextBody {
    pub standing_facts: String,
    pub decisions: String,
    pub open_threads: String,
    pub implementation_state: String,
    pub warnings_and_constraints: String,
    pub user_preferences: String,
    pub discarded_low_value_material: String,
}

impl RollctxSummaryGroupContextBody {
    /// Each section's name and value.
    pub open spec fn sections(&self) -> Seq<(Seq<char>, Seq<char>)> {
        seq![
            ("standing_facts"@, self.standing_facts@),
            ("decisions"@, self.decisions@),
            ("open_threads"@, self.open_threads@),
            ("implementation_state"@, self.implementation_state@),
            ("warnings_and_constraints"@, self.warnings_and_constraints@),
            ("user_preferences"@, self.user_preferences@),
            ("discarded_low_value_material"@, self.discarded_low_value_material@),
        ]
    }

    /// The body of a summary that came as one text.
    pub fn from_summary_text(summary: String) -> (r: Self)
        ensures
            r.sections() == summary_sections(summary@),
    {
        let r = RollctxSummaryGroupContextBody {
            standing_facts: String::new(),
            decisions: String::new(),
            open_threads: String::new(),
            implementation_state: summary,
            warnings_and_constraints: String::new(),
            user_preferences: String::new(),
            discarded_low_value_material: String::new(),
        };
        assert(r.sections() =~= summary_sections(summary@));
        r
    }
}

/// The sections of a summary that came as one text: all of it is implementation state.
pub open spec fn summary_sections(summary: Seq<char>) -> Seq<(Seq<char>, Seq<char>)> {
    seq![
        ("standing_facts"@, Seq::empty()),
        ("decisions"@, Seq::empty()),
        ("open_threads"@, Seq::empty()),
        ("implementation_state"@, summary),
        ("warnings_and_constraints"@, Seq::empty()),
        ("user_preferences"@, Seq::empty()),
        ("discarded_low_value_material"@, Seq::empty()),
    ]
}

/// What a section shows of its value, and the budget that is left after it.
pub open spec fn bounded_value(value: Seq<char>, remaining: nat) -> (Seq<char>, nat) {
    if remaining == 0 || value.len() == 0 {
        (Seq::empty(), remaining)
    } else {
        let shown = truncated(value, remaining);
        let used = text_tokens(shown);
        (
            shown,
            if used <= remaining {
                (remaining - used) as nat
            } else {
                0
            },
        )
    }
}

pub open spec fn section_text(name: Seq<char>, shown: Seq<char>) -> Seq<char> {
    "<"@ + name + ">"@ + escaped(shown) + "</"@ + name + ">"@
}

/// The rendered sections, which share the budget in their order, and what is left of it.
pub open spec fn bounded_sections(
    sections: Seq<(Seq<char>, Seq<char>)>,
    budget: nat,
) -> (Seq<Seq<char>>, nat)
    decreases sections.len(),
{
    if sections.len() == 0 {
        (Seq::empty(), budget)
    } else {
        let (before, remaining) = bounded_sections(sections.drop_last(), budget);
        let (name, value) = sections.last();
        let (shown, rest) = bounded_value(value, remaining);
        (before.push(section_text(name, shown)), rest)
    }
}

fn render_bounded_section(name: &str, value: &str, remaining_tokens: &mut usize) -> (r: String)
    ensures
        r@ == section_text(name@, bounded_value(value@, *old(remaining_tokens) as nat).0),
        *final(remaining_tokens) == bounded_value(value@, *old(remaining_tokens) as nat).1,
{
    let shown = if *remaining_tokens == 0 || value.is_empty() {
        String::new()
    } else {
        let shown = truncate_text(value, *remaining_tokens);
        let used: usize = approx_token_count(shown.as_str());
        *remaining_tokens = if used <= *remaining_tokens {
            *remaining_tokens - used
        } else {
            0
        };
        shown
    };
    assert(value@.len() == 0 ==> value@ =~= Seq::<char>::empty());
    let mut r = String::from_str("<");
    r.append(name);
    r.append(">");
    r.append(escape_xml(shown.as_str()).as_str());
    r.append("</");
    r.append(name);
    r.append(">");
    r
}

/// Tokens that the coverage label of a summary group may take.
pub const DEFAULT_COVERAGE_TOKEN_CAP: usize = 128;

/// A summary that stands for a range of raw history. It is a cache of context, not an authority.
#[derive(Debug, PartialEq, Eq)]
pub struct RollctxSummaryGroupContext {
    pub level: u8,
    pub covers: String,
    pub body: RollctxSummaryGroupContextBody,
    pub summary_token_cap: usize,
    pub coverage_token_cap: usize,
}

impl RollctxSummaryGroupContext {
    /// The sections share `summary_token_cap` tokens, and never more than
    /// `summary_token_cap_max`.
    pub fn new(
        level: u8,
        covers: String,
        body: RollctxSummaryGroupContextBody,
        summary_token_cap: usize,
        summary_token_cap_max: usize,
    ) -> (r: Self)
        ensures
            r.level == level,
            r.covers == covers,
            r.body == body,
            r.summary_token_cap == if summary_token_cap <= summary_token_cap_max {
                summary_token_cap
            } else {
                summary_token_cap_max
            },
            r.coverage_token_cap == DEFAULT_COVERAGE_TOKEN_CAP,
    {
        RollctxSummaryGroupContext {
            level,
            covers,
            body,
            summary_token_cap: if summary_token_cap <= summary_token_cap_max {
                summary_token_cap
            } else {
                summary_token_cap_max
            },
            coverage_token_cap: DEFAULT_COVERAGE_TOKEN_CAP,
        }
    }
}

/// What a summary group says between its markers.
pub open spec fn summary_group_body(
    level: u8,
    covers: Seq<char>,
    sections: Seq<(Seq<char>, Seq<char>)>,
    summary_token_cap: nat,
    coverage_token_cap: nat,
) -> Seq<char> {
    " level=\""@ + decimal(level as nat) + "\" covers=\""@ + escaped(
        truncated(covers, coverage_token_cap),
    ) + "\" authority=\"non_authoritative_context_cache\">\n"@ + joined(
        bounded_sections(sections, summary_token_cap).0,
        "\n"@,
    ) + "\n"@
}

impl ContextualUserFragment for RollctxSummaryGroupContext {
    open spec fn spec_role(&self) -> Seq<char> {
        "user"@
    }

    open spec fn spec_start_marker() -> Seq<char> {
        "<rollctx_summary_group"@
    }

    open spec fn spec_end_marker() -> Seq<char> {
        "</rollctx_summary_group>"@
    }

    open spec fn spec_body(&self) -> Seq<char> {
        summary_group_body(
            self.level,
            self.covers@,
            self.body.sections(),
            self.summary_token_cap as nat,
            self.coverage_token_cap as nat,
        )
    }

    open spec fn spec_matches_text(text: Seq<char>) -> bool {
        &&& has_prefix(trimmed(text), Self::spec_start_marker())
        &&& has_suffix(trimmed(text), Self::spec_end_marker())
        &&& occurs_in(trimmed(text), "authority=\"non_authoritative_context_cache\""@)
    }

    fn role(&self) -> &'static str {
        "user"
    }

    fn type_markers() -> (&'static str, &'static str) {
        ("<rollctx_summary_group", "</rollctx_summary_group>")
    }

    fn matches_text(text: &str) -> bool {
        let (start, end) = Self::type_markers();
        let inner = trim_text(text);
        starts_with(inner.as_str(), start) && ends_with(inner.as_str(), end) && contains(
            inner.as_str(),
            "authority=\"non_authoritative_context_cache\"",
        )
    }

    fn body(&self) -> String {
        let covers = escape_xml(
            truncate_text(self.covers.as_str(), self.coverage_token_cap).as_str(),
        );
        let ghost sections = self.body.sections();
        let ghost cap = self.summary_token_cap as nat;
        let mut remaining: usize = self.summary_token_cap;
        let mut rendered: Vec<String> = Vec::new();
        proof {
            assert(sections.subrange(0, 7) =~= sections);
            assert(texts(rendered@) =~= bounded_sections(sections.subrange(0, 0), cap).0);
        }
        let section = render_bounded_section(
            "standing_facts",
            self.body.standing_facts.as_str(),
            &mut remaining,
        );
        proof {
            lemma_next_section(sections, cap, 0, rendered@, section);
        }
        rendered.push(section);
        let section = render_bounded_section(
            "decisions",
            self.body.decisions.as_str(),
            &mut remaining,
        );
        proof {
            lemma_next_section(sections, cap, 1, rendered@, section);
        }
        rendered.push(section);
        let section = render_bounded_section(
            "open_threads",
            self.body.open_threads.as_str(),
            &mut remaining,
        );
        proof {
            lemma_next_section(sections, cap, 2, rendered@, section);
        }
        rendered.push(section);
        let section = render_bounded_section(
            "implementation_state",
            self.body.implementation_state.as_str(),
            &mut remaining,
        );
        proof {
            lemma_next_section(sections, cap, 3, rendered@, section);
        }
        rendered.push(section);
        let section = render_bounded_section(
            "warnings_and_constraints",
            self.body.warnings_and_constraints.as_str(),
            &mut remaining,
        );
        proof {
            lemma_next_section(sections, cap, 4, rendered@, section);
        }
        rendered.push(section);
        let section = render_bounded_section(
            "user_preferences",
            self.body.user_preferences.as_str(),
            &mut remaining,
        );
        proof {
            lemma_next_section(sections, cap, 5, rendered@, section);
        }
        rendered.push(section);
        let section = render_bounded_section(
            "discarded_low_value_material",
            self.body.discarded_low_value_material.as_str(),
            &mut remaining,
        );
        proof {
            lemma_next_section(sections, cap, 6, rendered@, section);
        }
        rendered.push(section);
        let mut body = String::from_str(" level=\"");
        body.append(decimal_text(self.level as u64).as_str());
        body.append("\" covers=\"");
        body.append(covers.as_str());
        body.append("\" authority=\"non_authoritative_context_cache\">\n");
        body.append(join(&rendered, "\n").as_str());
        body.append("\n");
        body
    }
}

proof fn lemma_next_section(
    sections: Seq<(Seq<char>, Seq<char>)>,
    cap: nat,
    done: int,
    rendered: Seq<String>,
    section: String,
)
    requires
        0 <= done < sections.len(),
        texts(rendered) == bounded_sections(sections.subrange(0, done), cap).0,
        section@ == section_text(
            sections[done].0,
            bounded_value(
                sections[done].1,
                bounded_sections(sections.subrange(0, done), cap).1,
            ).0,
        ),
    ensures
        texts(rendered.push(section)) == bounded_sections(sections.subrange(0, done + 1), cap).0,
        bounded_sections(sections.subrange(0, done + 1), cap).1 == bounded_value(
            sections[done].1,
            bounded_sections(sections.subrange(0, done), cap).1,
        ).1,
{
    let next = sections.subrange(0, done + 1);
    assert(next.drop_last() =~= sections.subrange(0, done));
    assert(next.last() == sections[done]);
    assert(texts(rendered.push(section)) =~= texts(rendered).push(section@));
}

// -- laws -------------------------------------------------------------------------------------

proof fn lemma_nothing_to_trim(s: Seq<char>)
    requires
        s.len() > 0,
        !white_space(s[0]),
        !white_space(s.last()),
    ensures
        trimmed_start(s) == s,
        trimmed(s) == s,
{
}

pub proof fn lemma_marked_text_matches(start: Seq<char>, body: Seq<char>, end: Seq<char>)
    requires
        start.len() > 0,
        end.len() > 0,
        !white_space(start[0]),
        !white_space(end.last()),
    ensures
        between_markers(start + body + end, start, end),
        trimmed(start + body + end) == start + body + end,
        has_prefix(start + body + end, start),
        has_suffix(start + body + end, end),
{
    let s = start + body + end;
    assert(s[0] == start[0]);
    assert(s.last() == end.last());
    lemma_nothing_to_trim(s);
    assert(s.subrange(0, start.len() as int) =~= start);
    assert(s.subrange(s.len() - end.len(), s.len() as int) =~= end);
}

/// Rendered extension context is recognised.
pub proof fn law_extension_context_matches(fragment: ExtensionContextualUserFragment)
    ensures
        ExtensionContextualUserFragment::spec_matches_text(
            ExtensionContextualUserFragment::spec_start_marker() + fragment.spec_body()
                + ExtensionContextualUserFragment::spec_end_marker(),
        ),
{
    reveal_strlit("<extension_contextual_user>");
    reveal_strlit("</extension_contextual_user>");
    lemma_marked_text_matches(
        ExtensionContextualUserFragment::spec_start_marker(),
        fragment.spec_body(),
        ExtensionContextualUserFragment::spec_end_marker(),
    );
}

/// The rendered mark of an invariant developer message is recognised.
pub proof fn law_invariant_mark_matches(fragment: RollingInvariantDeveloperContext)
    ensures
        RollingInvariantDeveloperContext::spec_matches_text(
            RollingInvariantDeveloperContext::spec_start_marker() + fragment.spec_body()
                + RollingInvariantDeveloperContext::spec_end_marker(),
        ),
{
    reveal_strlit("<codex_rollctx_invariant_developer_context>");
    reveal_strlit("</codex_rollctx_invariant_developer_context>");
    lemma_marked_text_matches(
        RollingInvariantDeveloperContext::spec_start_marker(),
        fragment.spec_body(),
        RollingInvariantDeveloperContext::spec_end_marker(),
    );
}

/// A rendered tool notice is recognised.
pub proof fn law_tool_notice_matches(fragment: ExactTailToolSurfaceNotice)
    ensures
        ExactTailToolSurfaceNotice::spec_matches_text(
            ExactTailToolSurfaceNotice::spec_start_marker() + fragment.spec_body()
                + ExactTailToolSurfaceNotice::spec_end_marker(),
        ),
{
    reveal_strlit("<exact_tail_tool_surface_notice>");
    reveal_strlit("</exact_tail_tool_surface_notice>");
    lemma_marked_text_matches(
        ExactTailToolSurfaceNotice::spec_start_marker(),
        fragment.spec_body(),
        ExactTailToolSurfaceNotice::spec_end_marker(),
    );
}

/// A rendered summary group is recognised, whatever its summary says.
pub proof fn law_summary_group_matches(fragment: RollctxSummaryGroupContext)
    ensures
        RollctxSummaryGroupContext::spec_matches_text(
            RollctxSummaryGroupContext::spec_start_marker() + fragment.spec_body()
                + RollctxSummaryGroupContext::spec_end_marker(),
        ),
{
    let start = RollctxSummaryGroupContext::spec_start_marker();
    let end = RollctxSummaryGroupContext::spec_end_marker();
    reveal_strlit("<rollctx_summary_group");
    reveal_strlit("</rollctx_summary_group>");
    lemma_marked_text_matches(start, fragment.spec_body(), end);
    let attribute = "\" authority=\"non_authoritative_context_cache\">\n"@;
    let authority = "authority=\"non_authoritative_context_cache\""@;
    reveal_strlit("\" authority=\"non_authoritative_context_cache\">\n");
    reveal_strlit("authority=\"non_authoritative_context_cache\"");
    assert(attribute.subrange(2, 2int + authority.len()) =~= authority);
    let head = " level=\""@ + decimal(fragment.level as nat) + "\" covers=\""@ + escaped(
        truncated(fragment.covers@, fragment.coverage_token_cap as nat),
    );
    let tail = joined(
        bounded_sections(fragment.body.sections(), fragment.summary_token_cap as nat).0,
        "\n"@,
    ) + "\n"@;
    let whole = start + fragment.spec_body() + end;
    assert(fragment.spec_body() =~= head + attribute + tail);
    let at = (start.len() + head.len() + 2) as int;
    assert(whole.subrange(at, at + authority.len()) =~= attribute.subrange(2, 2int + authority.len()));
    assert(occurs_at(whole, authority, at));
}

} // verus!
