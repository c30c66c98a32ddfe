//! What the rules decide, said of the rules as written and the window as given.

use vstd::prelude::*;

use crate::actor::WindowId;
use crate::model::app_rules::effects::{AppRuleDecision, AppRuleEffects};
use crate::model::app_rules::engine;
use crate::model::app_rules::engine::{AppWorkspaceRule, WindowRuleContext};
use crate::model::app_rules::patterns;
use crate::sys::SpaceId;

verus! {

/// A rule names something: a text that is not empty.
pub open spec fn named(text: Option<String>) -> bool {
    text is Some && (text->0)@.len() > 0
}

/// Characters that differ at most in the case of an ASCII letter.
pub open spec fn same_letter(a: char, b: char) -> bool {
    ||| a == b
    ||| 'A' <= a <= 'Z' && b as int == a as int + 32
    ||| 'A' <= b <= 'Z' && a as int == b as int + 32
}

/// Texts that differ at most in the case of ASCII letters.
pub open spec fn same_letters(a: Seq<char>, b: Seq<char>) -> bool {
    a.len() == b.len() && forall|i: int|
        0 <= i < a.len() ==> same_letter(#[trigger] a[i], #[trigger] b[i])
}

/// A text is found in another at some place.
pub open spec fn found_in(part: Seq<char>, text: Seq<char>) -> bool {
    exists|i: int|
        0 <= i <= text.len() - part.len() && #[trigger] text.subrange(i, i + part.len()) == part
}

/// The window is of the app that the rule names.
pub open spec fn app_fits(rule: AppWorkspaceRule, window: WindowRuleContext) -> bool {
    named(rule.app_id) ==> window.app_bundle_id is Some && same_letters(
        (rule.app_id->0)@,
        (window.app_bundle_id->0)@,
    )
}

/// The name of the window's app and the one that the rule names are part of one
/// another, whatever their case.
pub open spec fn name_fits(rule: AppWorkspaceRule, window: WindowRuleContext) -> bool {
    named(rule.app_name) ==> window.app_name is Some && {
        let wanted = patterns::lowered((rule.app_name->0)@);
        let actual = patterns::lowered((window.app_name->0)@);
        found_in(wanted, actual) || found_in(actual, wanted)
    }
}

/// The title holds the pattern that the rule names.
pub open spec fn pattern_fits(rule: AppWorkspaceRule, window: WindowRuleContext) -> bool {
    named(rule.title_regex) ==> window.window_title is Some && patterns::is_found_in_title(
        (rule.title_regex->0)@,
        (window.window_title->0)@,
    )
}

/// The title holds the text that the rule names, whatever its case.
pub open spec fn title_fits(rule: AppWorkspaceRule, window: WindowRuleContext) -> bool {
    named(rule.title_substring) ==> window.window_title is Some && found_in(
        patterns::lowered((rule.title_substring->0)@),
        patterns::lowered((window.window_title->0)@),
    )
}

/// The window has the role that the rule names, to the letter.
pub open spec fn role_fits(rule: AppWorkspaceRule, window: WindowRuleContext) -> bool {
    named(rule.ax_role) ==> window.ax_role is Some && (window.ax_role->0)@ == (rule.ax_role->0)@
}

/// The window has the subrole that the rule names, to the letter.
pub open spec fn subrole_fits(rule: AppWorkspaceRule, window: WindowRuleContext) -> bool {
    named(rule.ax_subrole) ==> window.ax_subrole is Some && (window.ax_subrole->0)@ == (
    rule.ax_subrole->0)@
}

/// The window is all that the rule names.
#[verifier::opaque]
pub open spec fn fits(rule: AppWorkspaceRule, window: WindowRuleContext) -> bool {
    &&& app_fits(rule, window)
    &&& name_fits(rule, window)
    &&& pattern_fits(rule, window)
    &&& title_fits(rule, window)
    &&& role_fits(rule, window)
    &&& subrole_fits(rule, window)
}

pub open spec fn one_if(b: bool) -> nat {
    if b {
        1
    } else {
        0
    }
}

/// How many things a rule names.
#[verifier::opaque]
pub open spec fn names(rule: AppWorkspaceRule) -> nat {
    one_if(named(rule.app_id)) + one_if(named(rule.app_name)) + one_if(named(rule.title_regex))
        + one_if(named(rule.title_substring)) + one_if(named(rule.ax_role)) + one_if(
        named(rule.ax_subrole),
    )
}

/// A rule counts: it names something, and its pattern could be compiled.
#[verifier::opaque]
pub open spec fn counts(rule: AppWorkspaceRule, too_big: bool) -> bool {
    names(rule) > 0 && (named(rule.title_regex) ==> patterns::well_formed((rule.title_regex->0)@)
        && !too_big)
}

/// A decision is what a rule says.
pub open spec fn says(rule: AppWorkspaceRule, decision: AppRuleDecision) -> bool {
    &&& decision.manage == rule.manage
    &&& decision.workspace == rule.workspace
    &&& decision.floating == rule.floating
    &&& decision.position == rule.position
    &&& decision.size == rule.size
    &&& decision.focus == rule.focus
}

/// A decision after a change of title is what a rule says. One that names nothing of
/// the title does not send the window anywhere.
pub open spec fn retold(rule: AppWorkspaceRule, decision: AppRuleDecision) -> bool {
    if named(rule.title_regex) || named(rule.title_substring) {
        says(rule, decision)
    } else {
        &&& decision.manage == rule.manage
        &&& decision.workspace is None
        &&& decision.floating == rule.floating
        &&& decision.position == rule.position
        &&& decision.size == rule.size
        &&& !decision.focus
    }
}

/// A rule comes before another: it names more, or as much and was written earlier.
pub open spec fn precedes(rules: Seq<AppWorkspaceRule>, i: int, j: int) -> bool {
    names(rules[i]) > names(rules[j]) || (names(rules[i]) == names(rules[j]) && i < j)
}

/// The rule that decides about a window: it counts and fits, and precedes every
/// other that does.
pub open spec fn decides(
    rules: Seq<AppWorkspaceRule>,
    too_big: Seq<bool>,
    window: WindowRuleContext,
    i: int,
) -> bool {
    &&& 0 <= i < rules.len()
    &&& counts(rules[i], too_big[i])
    &&& fits(rules[i], window)
    &&& forall|j: int|
        0 <= j < rules.len() && j != i && counts(#[trigger] rules[j], too_big[j]) && fits(
            rules[j],
            window,
        ) ==> precedes(rules, i, j)
}

proof fn lemma_letters(a: Seq<char>, b: Seq<char>)
    ensures
        patterns::ascii_lowered(a) == patterns::ascii_lowered(b) <==> same_letters(a, b),
{
    let x = patterns::ascii_lowered(a);
    let y = patterns::ascii_lowered(b);
    assert(x.len() == a.len() && y.len() == b.len());
    assert forall|c: char, d: char| #[trigger]
        same_letter(c, d) == (patterns::ascii_lower(c) == patterns::ascii_lower(d)) by {
        lemma_lower(c);
        lemma_lower(d);
    }
    if x == y {
        assert forall|i: int| 0 <= i < a.len() implies same_letter(
            #[trigger] a[i],
            #[trigger] b[i],
        ) by {
            assert(x[i] == patterns::ascii_lower(a[i]));
            assert(y[i] == patterns::ascii_lower(b[i]));
        }
    }
    if same_letters(a, b) {
        assert forall|i: int| 0 <= i < x.len() implies #[trigger] x[i] == y[i] by {
            assert(same_letter(a[i], b[i]));
            assert(x[i] == patterns::ascii_lower(a[i]));
            assert(y[i] == patterns::ascii_lower(b[i]));
        }
        assert(x =~= y);
    }
}

proof fn lemma_lower(c: char)
    ensures
        'A' <= c <= 'Z' ==> patterns::ascii_lower(c) as int == c as int + 32,
        !('A' <= c <= 'Z') ==> patterns::ascii_lower(c) == c,
{
}

proof fn lemma_found(part: Seq<char>, text: Seq<char>)
    ensures
        patterns::has_part(text, part) == found_in(part, text),
{
}

/// A rule applies to a window exactly if the window is all that the rule names.
pub proof fn law_applies(rule: AppWorkspaceRule, index: nat, window: WindowRuleContext)
    ensures
        rule.compiled(index).applies(window.model()) <==> fits(rule, window),
{
    reveal(fits);
    if named(rule.app_id) && window.app_bundle_id is Some {
        lemma_letters((rule.app_id->0)@, (window.app_bundle_id->0)@);
    }
    assert forall|part: Seq<char>, text: Seq<char>|
        #[trigger] patterns::has_part(text, part) == found_in(part, text) by {
        lemma_found(part, text);
    }
}

/// A rule counts exactly if it names something and its pattern, if it names one,
/// could be compiled. It knows how many things it names.
pub proof fn law_counts(rule: AppWorkspaceRule, index: nat, too_big: bool)
    ensures
        rule.usable(too_big) <==> counts(rule, too_big),
        rule.compiled(index).specificity == names(rule),
        rule.compiled(index).index == index,
{
    reveal(names);
    reveal(counts);
}

/// The winner among the compiled rules is the rule that decides.
#[verifier::rlimit(60)]
proof fn lemma_winner(rules: Seq<AppWorkspaceRule>, too_big: Seq<bool>, window: WindowRuleContext)
    requires
        too_big.len() == rules.len(),
    ensures
        ({
            let all = engine::compiled_rules(rules, too_big);
            match engine::winner(all, window.model(), all.len() as int) {
                Some(w) => 0 <= w < all.len() && decides(rules, too_big, window, all[w].index as int)
                    && all[w] == rules[all[w].index as int].compiled(all[w].index),
                None => forall|j: int|
                    0 <= j < rules.len() && counts(#[trigger] rules[j], too_big[j]) ==> !fits(
                        rules[j],
                        window,
                    ),
            }
        }),
{
    let all = engine::compiled_rules(rules, too_big);
    let context = window.model();
    engine::law_winner(all, context, all.len() as int);
    engine::law_unusable(rules, too_big);
    assert forall|j: int|
        0 <= j < rules.len() && counts(#[trigger] rules[j], too_big[j]) && fits(
            rules[j],
            window,
        ) implies exists|k: int|
        0 <= k < all.len() && #[trigger] all[k] == rules[j].compiled(j as nat) && all[k].applies(
            context,
        ) by {
        law_applies(rules[j], j as nat, window);
        law_counts(rules[j], j as nat, too_big[j]);
        engine::law_usable(rules, too_big, j);
        let k = choose|k: int| 0 <= k < all.len() && all[k] == rules[j].compiled(j as nat);
        assert(all[k].applies(context));
    }
    match engine::winner(all, context, all.len() as int) {
        Some(w) => {
            let i = all[w].index as int;
            assert(all[w] == rules[i].compiled(i as nat));
            law_applies(rules[i], i as nat, window);
            law_counts(rules[i], i as nat, too_big[i]);
            assert forall|j: int|
                0 <= j < rules.len() && j != i && counts(#[trigger] rules[j], too_big[j]) && fits(
                    rules[j],
                    window,
                ) implies precedes(rules, i, j) by {
                let k = choose|k: int|
                    0 <= k < all.len() && #[trigger] all[k] == rules[j].compiled(j as nat)
                        && all[k].applies(context);
                assert(!all[k].beats(all[w]));
                law_counts(rules[j], j as nat, too_big[j]);
            }
        },
        None => {},
    }
}

/// The rules decide about a window what one rule says, the one that precedes all
/// others that count and fit. Where none counts and fits, they decide nothing. A
/// rule that names something else than the window is decides nothing about it.
pub proof fn law_evaluated(
    rules: Seq<AppWorkspaceRule>,
    too_big: Seq<bool>,
    window: WindowRuleContext,
)
    requires
        too_big.len() == rules.len(),
    ensures
        match engine::verdict(engine::compiled_rules(rules, too_big), window.model()) {
            Some(decision) => exists|i: int| #[trigger]
                decides(rules, too_big, window, i) && says(rules[i], decision),
            None => forall|j: int|
                0 <= j < rules.len() && counts(#[trigger] rules[j], too_big[j]) ==> !fits(
                    rules[j],
                    window,
                ),
        },
{
    let all = engine::compiled_rules(rules, too_big);
    lemma_winner(rules, too_big, window);
    match engine::winner(all, window.model(), all.len() as int) {
        Some(w) => {
            let i = all[w].index as int;
            assert(decides(rules, too_big, window, i) && says(rules[i], all[w].action));
        },
        None => {},
    }
}

/// After a change of title the rules decide what one rule says, the same that
/// decides about the window. One that names nothing of the title neither places
/// the window anew nor gives it focus.
pub proof fn law_evaluated_for_title(
    rules: Seq<AppWorkspaceRule>,
    too_big: Seq<bool>,
    window: WindowRuleContext,
)
    requires
        too_big.len() == rules.len(),
    ensures
        match engine::retitled_verdict(engine::compiled_rules(rules, too_big), window.model()) {
            Some(decision) => exists|i: int| #[trigger]
                decides(rules, too_big, window, i) && retold(rules[i], decision),
            None => forall|j: int|
                0 <= j < rules.len() && counts(#[trigger] rules[j], too_big[j]) ==> !fits(
                    rules[j],
                    window,
                ),
        },
{
    let all = engine::compiled_rules(rules, too_big);
    lemma_winner(rules, too_big, window);
    match engine::winner(all, window.model(), all.len() as int) {
        Some(w) => {
            let i = all[w].index as int;
            let decision = engine::retitled_verdict(all, window.model())->0;
            assert(decides(rules, too_big, window, i));
            assert(retold(rules[i], decision));
        },
        None => {},
    }
}

/// A window floats where the rule says so. Where it does not, a window that
/// floated goes on floating, unless it floated only because a rule said so.
pub proof fn law_floats(effects: AppRuleEffects, was_floating: bool)
    ensures
        effects.floating ==> effects.floats(was_floating),
        !effects.floating && !was_floating ==> !effects.floats(was_floating),
        !effects.floating && was_floating ==> (effects.floats(was_floating)
            <==> !effects.was_rule_floating),
{
}

/// A rule that lets a window float gives it the position and size it asks for; one
/// that does not gives none. A rule with a size resizes a window that ends up tiled
/// and no other.
pub proof fn law_asked_for(
    effects: AppRuleEffects,
    window: WindowId,
    space: SpaceId,
    was_floating: bool,
)
    ensures
        effects.placement(window, space) is Some <==> effects.floating && !(effects.position is None
            && effects.size is None),
        effects.placement(window, space) matches Some(p) ==> p.window == window && p.space == space
            && p.position == effects.position && p.size == effects.size,
        effects.resize(window, space, was_floating) is Some <==> effects.size is Some
            && !effects.floating && !(was_floating && !effects.was_rule_floating),
        effects.resize(window, space, was_floating) matches Some(r) ==> r.window == window
            && r.space == space && r.workspace_id == effects.workspace_id && Some(r.size)
            == effects.size,
{
}

} // verus!
