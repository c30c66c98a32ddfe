//! Compiling rules and finding the one that applies.

use vstd::prelude::*;

use crate::model::app_rules::effects::{
    AppRuleDecision, AppRulePosition, AppRuleSize, WorkspaceSelector,
};
use crate::model::app_rules::patterns;
use crate::model::app_rules::patterns::PatternOutcome;

verus! {

/// What is known of a window when rules are asked about it.
#[derive(Clone, Copy, Debug, Default)]
pub struct WindowRuleContext<'a> {
    pub app_bundle_id: Option<&'a str>,
    pub app_name: Option<&'a str>,
    pub window_title: Option<&'a str>,
    pub ax_role: Option<&'a str>,
    pub ax_subrole: Option<&'a str>,
}

/// A rule as users write it.
#[derive(Clone, Debug, Default)]
pub struct AppWorkspaceRule {
    pub app_id: Option<String>,
    pub workspace: Option<WorkspaceSelector>,
    pub floating: bool,
    pub position: Option<AppRulePosition>,
    pub size: Option<AppRuleSize>,
    pub focus: bool,
    pub manage: Option<bool>,
    pub app_name: Option<String>,
    pub title_regex: Option<String>,
    pub title_substring: Option<String>,
    pub ax_role: Option<String>,
    pub ax_subrole: Option<String>,
}

/// A text that is there and not empty.
pub open spec fn wording(value: Option<String>) -> Option<Seq<char>> {
    match value {
        Some(text) => if text@.len() > 0 {
            Some(text@)
        } else {
            None
        },
        None => None,
    }
}

/// The text of an optional string.
pub open spec fn text_of(value: Option<String>) -> Option<Seq<char>> {
    match value {
        Some(text) => Some(text@),
        None => None,
    }
}

/// The text of an optional string slice.
pub open spec fn slice_of(value: Option<&str>) -> Option<Seq<char>> {
    match value {
        Some(text) => Some(text@),
        None => None,
    }
}

pub open spec fn lowered(value: Option<Seq<char>>) -> Option<Seq<char>> {
    match value {
        Some(text) => Some(patterns::lowered(text)),
        None => None,
    }
}

pub open spec fn ascii_lowered(value: Option<Seq<char>>) -> Option<Seq<char>> {
    match value {
        Some(text) => Some(patterns::ascii_lowered(text)),
        None => None,
    }
}

/// One for a value that is there.
pub open spec fn one_if_some(value: Option<Seq<char>>) -> nat {
    if value is Some {
        1
    } else {
        0
    }
}

/// A rule ready to be used: its texts are folded, and it knows how many things it
/// looks at and where it stood.
pub struct RuleView {
    pub action: AppRuleDecision,
    pub app_id: Option<Seq<char>>,
    pub app_name: Option<Seq<char>>,
    pub title_pattern: Option<Seq<char>>,
    pub title_substring: Option<Seq<char>>,
    pub ax_role: Option<Seq<char>>,
    pub ax_subrole: Option<Seq<char>>,
    pub specificity: nat,
    pub index: nat,
}

/// What is known of a window.
pub struct ContextView {
    pub app_id: Option<Seq<char>>,
    pub app_name: Option<Seq<char>>,
    pub title: Option<Seq<char>>,
    pub ax_role: Option<Seq<char>>,
    pub ax_subrole: Option<Seq<char>>,
}

impl ContextView {
    /// The same with the texts folded that are looked at without regard to case.
    pub open spec fn folded(self) -> ContextView {
        ContextView {
            app_id: ascii_lowered(self.app_id),
            app_name: lowered(self.app_name),
            title: lowered(self.title),
            ..self
        }
    }
}

impl WindowRuleContext<'_> {
    pub open spec fn model(self) -> ContextView {
        ContextView {
            app_id: slice_of(self.app_bundle_id),
            app_name: slice_of(self.app_name),
            title: slice_of(self.window_title),
            ax_role: slice_of(self.ax_role),
            ax_subrole: slice_of(self.ax_subrole),
        }
    }
}

impl AppWorkspaceRule {
    pub open spec fn decision(self) -> AppRuleDecision {
        AppRuleDecision {
            manage: self.manage,
            workspace: self.workspace,
            floating: self.floating,
            position: self.position,
            size: self.size,
            focus: self.focus,
        }
    }

    /// How many things a rule looks at.
    pub open spec fn specificity(self) -> nat {
        one_if_some(wording(self.app_id)) + one_if_some(wording(self.app_name)) + one_if_some(
            wording(self.title_regex),
        ) + one_if_some(wording(self.title_substring)) + one_if_some(wording(self.ax_role))
            + one_if_some(wording(self.ax_subrole))
    }

    /// The rule ready to be used.
    pub open spec fn compiled(self, index: nat) -> RuleView {
        RuleView {
            action: self.decision(),
            app_id: ascii_lowered(wording(self.app_id)),
            app_name: lowered(wording(self.app_name)),
            title_pattern: wording(self.title_regex),
            title_substring: lowered(wording(self.title_substring)),
            ax_role: wording(self.ax_role),
            ax_subrole: wording(self.ax_subrole),
            specificity: self.specificity(),
            index,
        }
    }

    /// A rule counts if it looks at something and its pattern, if it has one, can
    /// be compiled.
    pub open spec fn usable(self, too_big: bool) -> bool {
        &&& self.specificity() > 0
        &&& wording(self.title_regex) matches Some(p) ==> patterns::well_formed(p) && !too_big
    }
}

/// The rules that count, ready to be used. `too_big` says which patterns the
/// machine found too big.
pub open spec fn compiled_rules(rules: Seq<AppWorkspaceRule>, too_big: Seq<bool>) -> Seq<RuleView>
    decreases rules.len(),
{
    if rules.len() == 0 {
        Seq::empty()
    } else {
        let rest = compiled_rules(rules.drop_last(), too_big);
        let last = (rules.len() - 1) as nat;
        if rules.last().usable(too_big[last as int]) {
            rest.push(rules.last().compiled(last))
        } else {
            rest
        }
    }
}

impl RuleView {
    /// A rule looks at the title.
    pub open spec fn looks_at_title(self) -> bool {
        self.title_pattern is Some || self.title_substring is Some
    }

    /// Whether a rule applies to a window whose texts are folded, given whether its
    /// pattern is found in the title.
    pub open spec fn applies_given(self, folded: ContextView, found: bool) -> bool {
        &&& self.app_id is Some ==> folded.app_id == self.app_id
        &&& self.app_name matches Some(name) ==> (folded.app_name matches Some(actual) && (
        patterns::has_part(name, actual) || patterns::has_part(actual, name)))
        &&& self.title_pattern is Some ==> folded.title is Some && found
        &&& self.title_substring matches Some(part) ==> (folded.title matches Some(title)
            && patterns::has_part(title, part))
        &&& self.ax_role is Some ==> folded.ax_role == self.ax_role
        &&& self.ax_subrole is Some ==> folded.ax_subrole == self.ax_subrole
    }

    /// Whether a rule applies to a window.
    pub open spec fn applies(self, context: ContextView) -> bool {
        self.applies_given(
            context.folded(),
            match (self.title_pattern, context.title) {
                (Some(pattern), Some(title)) => patterns::is_found_in_title(pattern, title),
                _ => false,
            },
        )
    }

    /// A rule that looks at more wins; among equals the earlier one.
    pub open spec fn beats(self, other: RuleView) -> bool {
        self.specificity > other.specificity || (self.specificity == other.specificity && self.index
            < other.index)
    }
}

/// The rule that wins among the first `upto` that apply.
pub open spec fn winner(rules: Seq<RuleView>, context: ContextView, upto: int) -> Option<int>
    decreases upto,
{
    if upto <= 0 || upto > rules.len() {
        None
    } else {
        let before = winner(rules, context, upto - 1);
        let last = rules[upto - 1];
        if last.applies(context) && (before matches Some(i) ==> last.beats(rules[i])) {
            Some(upto - 1)
        } else {
            before
        }
    }
}

/// What the winning rule decides.
pub open spec fn verdict(rules: Seq<RuleView>, context: ContextView) -> Option<AppRuleDecision> {
    match winner(rules, context, rules.len() as int) {
        Some(i) => Some(rules[i].action),
        None => None,
    }
}

/// What the winning rule decides when only the title has changed: a rule that
/// does not look at the title neither places the window anew nor gives it focus.
pub open spec fn retitled_verdict(rules: Seq<RuleView>, context: ContextView) -> Option<
    AppRuleDecision,
> {
    match winner(rules, context, rules.len() as int) {
        Some(i) => Some(
            if rules[i].looks_at_title() {
                rules[i].action
            } else {
                AppRuleDecision { workspace: None, focus: false, ..rules[i].action }
            },
        ),
        None => None,
    }
}

/// The winner applies, and no rule that applies beats it. Where any rule applies
/// there is a winner.
pub proof fn law_winner(rules: Seq<RuleView>, context: ContextView, upto: int)
    requires
        0 <= upto <= rules.len(),
    ensures
        winner(rules, context, upto) matches Some(i) ==> {
            &&& 0 <= i < upto
            &&& rules[i].applies(context)
            &&& forall|j: int|
                0 <= j < upto && (#[trigger] rules[j]).applies(context) ==> !rules[j].beats(
                    rules[i],
                )
        },
        winner(rules, context, upto) is None ==> forall|j: int|
            0 <= j < upto ==> !(#[trigger] rules[j]).applies(context),
    decreases upto,
{
    if upto > 0 {
        law_winner(rules, context, upto - 1);
    }
}

/// A rule that looks at nothing, or whose pattern breaks the syntax, never counts.
pub proof fn law_unusable(rules: Seq<AppWorkspaceRule>, too_big: Seq<bool>)
    ensures
        forall|i: int|
            0 <= i < compiled_rules(rules, too_big).len() ==> {
                let r = #[trigger] compiled_rules(rules, too_big)[i];
                &&& r.specificity > 0
                &&& r.title_pattern matches Some(p) ==> patterns::well_formed(p)
                &&& r.index < rules.len()
                &&& rules[r.index as int].usable(too_big[r.index as int])
                &&& r == rules[r.index as int].compiled(r.index)
            },
    decreases rules.len(),
{
    if rules.len() > 0 {
        law_unusable(rules.drop_last(), too_big);
        assert forall|i: int| 0 <= i < compiled_rules(rules, too_big).len() implies ({
            let r = #[trigger] compiled_rules(rules, too_big)[i];
            &&& r.specificity > 0
            &&& r.title_pattern matches Some(p) ==> patterns::well_formed(p)
            &&& r.index < rules.len()
            &&& rules[r.index as int].usable(too_big[r.index as int])
            &&& r == rules[r.index as int].compiled(r.index)
        }) by {
            let rest = compiled_rules(rules.drop_last(), too_big);
            if i < rest.len() {
                assert(rest[i] == compiled_rules(rules, too_big)[i]);
            }
        }
    }
}

/// Every rule that counts is among those ready to be used.
pub proof fn law_usable(rules: Seq<AppWorkspaceRule>, too_big: Seq<bool>, i: int)
    requires
        0 <= i < rules.len(),
        rules[i].usable(too_big[i]),
    ensures
        compiled_rules(rules, too_big).contains(rules[i].compiled(i as nat)),
    decreases rules.len(),
{
    let all = compiled_rules(rules, too_big);
    let rest = compiled_rules(rules.drop_last(), too_big);
    if i == rules.len() - 1 {
        assert(all[all.len() - 1] == rules[i].compiled(i as nat));
    } else {
        law_usable(rules.drop_last(), too_big, i);
        assert(rules.drop_last()[i] == rules[i]);
        let k = choose|k: int| 0 <= k < rest.len() && rest[k] == rules[i].compiled(i as nat);
        assert(all[k] == rest[k]);
    }
}

/// The rules decide something after a change of title exactly where they did
/// before, and the same but for the workspace and the focus. Where no rule that
/// applies looks at the title, the window is neither placed anew nor given focus.
pub proof fn law_retitled(rules: Seq<RuleView>, context: ContextView)
    ensures
        retitled_verdict(rules, context) is Some <==> verdict(rules, context) is Some,
        verdict(rules, context) matches Some(first) ==> {
            let later = retitled_verdict(rules, context)->0;
            &&& later.manage == first.manage
            &&& later.floating == first.floating
            &&& later.position == first.position
            &&& later.size == first.size
            &&& later == first || (later.workspace is None && !later.focus)
            &&& (forall|i: int|
                0 <= i < rules.len() && (#[trigger] rules[i]).applies(context)
                    ==> !rules[i].looks_at_title()) ==> later.workspace is None && !later.focus
            &&& (forall|i: int|
                0 <= i < rules.len() && (#[trigger] rules[i]).applies(context)
                    ==> rules[i].looks_at_title()) ==> later == first
        },
{
    law_winner(rules, context, rules.len() as int);
}

/// What the rules decide is what one of them says: one that counts and applies,
/// such that none that counts and applies looks at more, and none that looks at as
/// much was written earlier. They decide nothing only where none applies.
pub proof fn law_verdict(rules: Seq<AppWorkspaceRule>, too_big: Seq<bool>, context: ContextView)
    requires
        too_big.len() == rules.len(),
    ensures
        match verdict(compiled_rules(rules, too_big), context) {
            Some(decision) => exists|i: int|
                0 <= i < rules.len() && #[trigger] rules[i].decision() == decision
                    && rules[i].usable(too_big[i]) && rules[i].compiled(i as nat).applies(context) && (forall|j: int|
                    0 <= j < rules.len() && (#[trigger] rules[j]).usable(too_big[j])
                        && rules[j].compiled(j as nat).applies(context) ==> rules[j].specificity()
                        < rules[i].specificity() || (rules[j].specificity()
                        == rules[i].specificity() && i <= j)),
            None => forall|j: int|
                0 <= j < rules.len() && (#[trigger] rules[j]).usable(too_big[j])
                    ==> !rules[j].compiled(j as nat).applies(context),
        },
{
    let all = compiled_rules(rules, too_big);
    law_winner(all, context, all.len() as int);
    law_unusable(rules, too_big);
    assert forall|j: int| 0 <= j < rules.len() && (#[trigger] rules[j]).usable(too_big[j]) implies (
    exists|k: int| 0 <= k < all.len() && #[trigger] all[k] == rules[j].compiled(j as nat)) by {
        law_usable(rules, too_big, j);
    }
    match winner(all, context, all.len() as int) {
        Some(w) => {
            let i = all[w].index as int;
            assert(rules[i].decision() == all[w].action);
            assert forall|j: int|
                0 <= j < rules.len() && (#[trigger] rules[j]).usable(too_big[j])
                    && rules[j].compiled(j as nat).applies(context) implies rules[j].specificity()
                < rules[i].specificity() || (rules[j].specificity() == rules[i].specificity() && i
                <= j) by {
                let k = choose|k: int|
                    0 <= k < all.len() && #[trigger] all[k] == rules[j].compiled(j as nat);
                assert(!all[k].beats(all[w]));
            }
        },
        None => {},
    }
}

/// A text that is there and not empty.
pub fn nonempty(value: Option<String>) -> (r: Option<String>)
    ensures
        r == (if wording(value) is Some {
            value
        } else {
            None
        }),
{
    match value {
        Some(text) => if text.as_str().is_empty() {
            None
        } else {
            Some(text)
        },
        None => None,
    }
}

fn copied(value: &Option<String>) -> (r: Option<String>)
    ensures
        r == *value,
{
    match value {
        Some(text) => Some(text.clone()),
        None => None,
    }
}

fn lower(value: Option<String>) -> (r: Option<String>)
    ensures
        text_of(r) == lowered(text_of(value)),
{
    match value {
        Some(text) => Some(patterns::to_lowercase(text.as_str())),
        None => None,
    }
}

fn ascii_lower(value: Option<String>) -> (r: Option<String>)
    ensures
        text_of(r) == ascii_lowered(text_of(value)),
{
    match value {
        Some(text) => Some(patterns::to_ascii_lowercase(text.as_str())),
        None => None,
    }
}

fn owned(value: Option<&str>) -> (r: Option<String>)
    ensures
        text_of(r) == slice_of(value),
{
    match value {
        Some(text) => Some(text.to_owned()),
        None => None,
    }
}

fn borrowed<'a>(value: &'a Option<String>) -> (r: Option<&'a str>)
    ensures
        slice_of(r) == text_of(*value),
{
    match value {
        Some(text) => Some(text.as_str()),
        None => None,
    }
}

fn count(value: &Option<String>) -> (r: usize)
    ensures
        r == one_if_some(text_of(*value)),
{
    if value.is_some() {
        1
    } else {
        0
    }
}

/// A rule ready to be used.
pub struct CompiledRule {
    action: AppRuleDecision,
    app_id: Option<String>,
    app_name: Option<String>,
    title_pattern: Option<String>,
    title_regex: Option<regex::Regex>,
    title_substring: Option<String>,
    ax_role: Option<String>,
    ax_subrole: Option<String>,
    specificity: usize,
    index: usize,
}

impl CompiledRule {
    pub closed spec fn model(&self) -> RuleView {
        RuleView {
            action: self.action,
            app_id: text_of(self.app_id),
            app_name: text_of(self.app_name),
            title_pattern: text_of(self.title_pattern),
            title_substring: text_of(self.title_substring),
            ax_role: text_of(self.ax_role),
            ax_subrole: text_of(self.ax_subrole),
            specificity: self.specificity as nat,
            index: self.index as nat,
        }
    }

    /// The compiled pattern finds what the pattern says.
    #[verifier::type_invariant]
    spec fn wf(&self) -> bool {
        match (self.title_pattern, self.title_regex) {
            (Some(pattern), Some(regex)) => forall|text: Seq<char>| #[trigger]
                patterns::is_found(regex, text) == patterns::is_found_in_title(pattern@, text),
            (None, None) => true,
            _ => false,
        }
    }

    /// A rule made from what a user wrote, given what came of its pattern. The
    /// outcome is looked at only if there is a pattern.
    pub fn assemble(index: usize, rule: &AppWorkspaceRule, outcome: Option<PatternOutcome>) -> (r:
        Option<CompiledRule>)
        requires
            wording(rule.title_regex) is Some ==> outcome is Some,
            wording(rule.title_regex) is Some && (outcome matches Some(PatternOutcome::Ready(re))
                && true) ==> forall|text: Seq<char>| #[trigger]
                patterns::is_found((outcome->0)->0, text) == patterns::is_found_in_title(
                    wording(rule.title_regex)->0,
                    text,
                ),
        ensures
            r is Some <==> rule.specificity() > 0 && (wording(rule.title_regex) is Some
                ==> outcome->0 is Ready),
            r is Some ==> (r->0).model() == rule.compiled(index as nat),
    {
        let title_pattern = nonempty(copied(&rule.title_regex));
        let title_regex = if title_pattern.is_some() {
            match outcome {
                Some(PatternOutcome::Ready(regex)) => Some(regex),
                _ => {
                    return None;
                },
            }
        } else {
            None
        };
        let app_id = ascii_lower(nonempty(copied(&rule.app_id)));
        let app_name = lower(nonempty(copied(&rule.app_name)));
        let title_substring = lower(nonempty(copied(&rule.title_substring)));
        let ax_role = nonempty(copied(&rule.ax_role));
        let ax_subrole = nonempty(copied(&rule.ax_subrole));
        let specificity: usize = count(&app_id) + count(&app_name) + count(&title_pattern)
            + count(&title_substring) + count(&ax_role) + count(&ax_subrole);
        if specificity == 0 {
            return None;
        }
        Some(
            CompiledRule {
                action: AppRuleDecision {
                    manage: rule.manage,
                    workspace: match &rule.workspace {
                        Some(workspace) => Some(workspace.copy()),
                        None => None,
                    },
                    floating: rule.floating,
                    position: rule.position,
                    size: rule.size,
                    focus: rule.focus,
                },
                app_id,
                app_name,
                title_pattern,
                title_regex,
                title_substring,
                ax_role,
                ax_subrole,
                specificity,
                index,
            },
        )
    }

    /// A rule made from what a user wrote. Also whether its pattern was found too
    /// big.
    pub fn new(index: usize, rule: &AppWorkspaceRule) -> (r: (Option<CompiledRule>, bool))
        ensures
            r.0 is Some <==> rule.usable(r.1),
            r.0 is Some ==> (r.0->0).model() == rule.compiled(index as nat),
            r.1 ==> wording(rule.title_regex) is Some && patterns::well_formed(
                wording(rule.title_regex)->0,
            ),
    {
        let pattern = nonempty(copied(&rule.title_regex));
        match pattern {
            Some(text) => {
                let outcome = patterns::compile_title_pattern(text.as_str());
                let too_big = match &outcome {
                    PatternOutcome::TooBig => true,
                    _ => false,
                };
                (CompiledRule::assemble(index, rule, Some(outcome)), too_big)
            },
            None => (CompiledRule::assemble(index, rule, None), false),
        }
    }

    pub fn matches_title(&self) -> (r: bool)
        ensures
            r == self.model().looks_at_title(),
    {
        proof {
            use_type_invariant(self);
        }
        self.title_regex.is_some() || self.title_substring.is_some()
    }

    /// Whether the rule applies to a window whose texts are folded, given whether
    /// its pattern is found in the title.
    pub fn matches_given(&self, folded: &WindowRuleContext<'_>, found: bool) -> (r: bool)
        ensures
            r == self.model().applies_given(folded.model(), found),
    {
        if let Some(rule) = &self.app_id {
            match folded.app_bundle_id {
                Some(actual) => {
                    if !patterns::same_text(actual, rule.as_str()) {
                        return false;
                    }
                },
                None => {
                    return false;
                },
            }
        }
        if let Some(rule) = &self.app_name {
            match folded.app_name {
                Some(actual) => {
                    if !patterns::contains(rule.as_str(), actual) && !patterns::contains(
                        actual,
                        rule.as_str(),
                    ) {
                        return false;
                    }
                },
                None => {
                    return false;
                },
            }
        }
        if self.title_pattern.is_some() && !(folded.window_title.is_some() && found) {
            return false;
        }
        if let Some(part) = &self.title_substring {
            match folded.window_title {
                Some(actual) => {
                    if !patterns::contains(actual, part.as_str()) {
                        return false;
                    }
                },
                None => {
                    return false;
                },
            }
        }
        if let Some(rule) = &self.ax_role {
            match folded.ax_role {
                Some(actual) => {
                    if !patterns::same_text(actual, rule.as_str()) {
                        return false;
                    }
                },
                None => {
                    return false;
                },
            }
        }
        if let Some(rule) = &self.ax_subrole {
            match folded.ax_subrole {
                Some(actual) => {
                    if !patterns::same_text(actual, rule.as_str()) {
                        return false;
                    }
                },
                None => {
                    return false;
                },
            }
        }
        true
    }

    /// Whether the rule applies to a window. `folded` is the same window with its
    /// texts folded.
    fn matches(&self, context: &WindowRuleContext<'_>, folded: &WindowRuleContext<'_>) -> (r: bool)
        requires
            folded.model() == context.model().folded(),
        ensures
            r == self.model().applies(context.model()),
    {
        proof {
            use_type_invariant(self);
        }
        let found = match (&self.title_regex, context.window_title) {
            (Some(regex), Some(text)) => patterns::finds(regex, text),
            _ => false,
        };
        self.matches_given(folded, found)
    }
}

/// Finds the rule that applies to a window. It knows nothing of workspaces,
/// layouts or other windows.
pub struct AppRuleEngine {
    rules: Vec<CompiledRule>,
}

impl View for AppRuleEngine {
    type V = Seq<RuleView>;

    closed spec fn view(&self) -> Seq<RuleView> {
        self.rules@.map_values(|r: CompiledRule| r.model())
    }
}

impl Default for AppRuleEngine {
    fn default() -> (r: AppRuleEngine)
        ensures
            r@ == Seq::<RuleView>::empty(),
    {
        let r = AppRuleEngine { rules: Vec::new() };
        assert(r@ =~= Seq::empty());
        r
    }
}

impl AppRuleEngine {
    /// Compiles rules. Those that do not count are left out. A pattern counts as
    /// too big only if it follows the syntax.
    pub fn new(rules: &[AppWorkspaceRule]) -> (r: AppRuleEngine)
        ensures
            exists|too_big: Seq<bool>|
                too_big.len() == rules@.len() && (forall|i: int|
                    0 <= i < rules@.len() && #[trigger] too_big[i] ==> wording(
                        rules@[i].title_regex,
                    ) is Some && patterns::well_formed(wording(rules@[i].title_regex)->0)) && r@
                    == #[trigger] compiled_rules(rules@, too_big),
    {
        let mut engine = AppRuleEngine::default();
        let ghost mut too_big: Seq<bool> = Seq::empty();
        let mut i: usize = 0;
        assert(rules@.take(0) =~= Seq::empty());
        while i < rules.len()
            invariant
                i <= rules@.len(),
                too_big.len() == i,
                forall|j: int|
                    0 <= j < i && #[trigger] too_big[j] ==> wording(rules@[j].title_regex) is Some
                        && patterns::well_formed(wording(rules@[j].title_regex)->0),
                engine@ == compiled_rules(rules@.take(i as int), too_big),
            decreases rules@.len() - i,
        {
            let (rule, big) = CompiledRule::new(i, &rules[i]);
            let ghost before = engine@;
            proof {
                assert(rules@.take(i + 1).drop_last() =~= rules@.take(i as int));
                lemma_prefix(rules@.take(i as int), too_big, big);
                too_big = too_big.push(big);
            }
            if let Some(rule) = rule {
                engine.rules.push(rule);
                assert(engine@ =~= before.push(rule.model()));
            }
            i += 1;
        }
        assert(rules@.take(i as int) =~= rules@);
        engine
    }

    /// The place of the rule that wins.
    fn matching_rule(&self, context: &WindowRuleContext<'_>) -> (r: Option<usize>)
        ensures
            match r {
                Some(i) => i < self.rules@.len() && winner(
                    self@,
                    context.model(),
                    self@.len() as int,
                ) == Some(i as int),
                None => winner(self@, context.model(), self@.len() as int) is None,
            },
    {
        let app_id = ascii_lower(owned(context.app_bundle_id));
        let app_name = lower(owned(context.app_name));
        let title = lower(owned(context.window_title));
        let folded = WindowRuleContext {
            app_bundle_id: borrowed(&app_id),
            app_name: borrowed(&app_name),
            window_title: borrowed(&title),
            ax_role: context.ax_role,
            ax_subrole: context.ax_subrole,
        };
        let mut best: Option<usize> = None;
        let mut i: usize = 0;
        while i < self.rules.len()
            invariant
                i <= self.rules@.len(),
                folded.model() == context.model().folded(),
                match best {
                    Some(b) => b < i && winner(self@, context.model(), i as int) == Some(b as int),
                    None => winner(self@, context.model(), i as int) is None,
                },
            decreases self.rules@.len() - i,
        {
            assert(self@[i as int] == self.rules@[i as int].model());
            if self.rules[i].matches(context, &folded) {
                let wins = match best {
                    Some(b) => {
                        assert(self@[b as int] == self.rules@[b as int].model());
                        self.rules[i].specificity > self.rules[b].specificity || (
                        self.rules[i].specificity == self.rules[b].specificity
                            && self.rules[i].index < self.rules[b].index)
                    },
                    None => true,
                };
                if wins {
                    best = Some(i);
                }
            }
            i += 1;
        }
        best
    }

    /// What the rules decide about a window.
    pub fn evaluate(&self, context: WindowRuleContext<'_>) -> (r: Option<AppRuleDecision>)
        ensures
            r == verdict(self@, context.model()),
    {
        match self.matching_rule(&context) {
            Some(i) => {
                assert(self@[i as int] == self.rules@[i as int].model());
                Some(self.rules[i].action.copy())
            },
            None => None,
        }
    }

    /// What the rules decide about a window whose title has changed.
    pub fn evaluate_for_title_change(&self, context: WindowRuleContext<'_>) -> (r: Option<
        AppRuleDecision,
    >)
        ensures
            r == retitled_verdict(self@, context.model()),
    {
        match self.matching_rule(&context) {
            Some(i) => {
                assert(self@[i as int] == self.rules@[i as int].model());
                let mut decision = self.rules[i].action.copy();
                if !self.rules[i].matches_title() {
                    decision.workspace = None;
                    decision.focus = false;
                }
                Some(decision)
            },
            None => None,
        }
    }
}

/// What the machine says of later patterns does not matter to earlier rules.
proof fn lemma_prefix(rules: Seq<AppWorkspaceRule>, too_big: Seq<bool>, more: bool)
    requires
        too_big.len() == rules.len(),
    ensures
        compiled_rules(rules, too_big.push(more)) == compiled_rules(rules, too_big),
    decreases rules.len(),
{
    lemma_agree(rules, too_big, too_big.push(more));
}

/// Only what the machine says of the rules themselves matters.
proof fn lemma_agree(rules: Seq<AppWorkspaceRule>, a: Seq<bool>, b: Seq<bool>)
    requires
        forall|i: int| 0 <= i < rules.len() ==> a[i] == b[i],
    ensures
        compiled_rules(rules, a) == compiled_rules(rules, b),
    decreases rules.len(),
{
    if rules.len() > 0 {
        lemma_agree(rules.drop_last(), a, b);
    }
}

} // verus!
