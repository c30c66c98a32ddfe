use rift::actor::WindowId;
use rift::model::app_rules::effects::{
    AppRuleDecision, AppRuleEffects, AppRuleOutcome, AppRulePlacement, AppRulePosition,
    AppRuleResize, AppRuleSize, AppRuleWorkspaceFocus, WorkspaceSelector,
};
use rift::model::app_rules::engine::{
    nonempty, AppRuleEngine, AppWorkspaceRule, CompiledRule, WindowRuleContext,
};
use rift::model::app_rules::patterns::PatternOutcome;
use rift::model::window_store::view::VirtualWorkspaceId;
use rift::sys::SpaceId;

fn position(x: f64, y: f64) -> AppRulePosition {
    AppRulePosition { x: x.to_bits(), y: y.to_bits() }
}

fn size(w: Option<f64>, h: Option<f64>) -> AppRuleSize {
    AppRuleSize { w: w.map(f64::to_bits), h: h.map(f64::to_bits) }
}

fn rule(app_id: &str, workspace: usize) -> AppWorkspaceRule {
    AppWorkspaceRule {
        app_id: Some(app_id.into()),
        workspace: Some(WorkspaceSelector::Index(workspace)),
        ..Default::default()
    }
}

#[test]
fn evaluates_without_workspace_or_layout_state() {
    let rule = AppWorkspaceRule {
        app_id: Some("com.example.Editor".into()),
        workspace: None,
        floating: true,
        position: Some(position(0.4, 0.7)),
        size: Some(size(Some(640.0), Some(480.0))),
        focus: true,
        manage: Some(true),
        title_regex: Some("project \\d+".into()),
        ..Default::default()
    };
    let engine = AppRuleEngine::new(&[rule]);
    assert_eq!(
        engine.evaluate(WindowRuleContext {
            app_bundle_id: Some("COM.EXAMPLE.EDITOR"),
            window_title: Some("Project 42"),
            ..Default::default()
        }),
        Some(AppRuleDecision {
            manage: Some(true),
            workspace: None,
            floating: true,
            position: Some(position(0.4, 0.7)),
            size: Some(size(Some(640.0), Some(480.0))),
            focus: true,
        })
    );
}

#[test]
fn specificity_wins_then_earlier_configuration_order_breaks_ties() {
    let first = rule("com.example.Editor", 0);
    let mut equally_specific = rule("com.example.Editor", 1);
    equally_specific.title_substring = Some("project".into());
    let mut most_specific = rule("com.example.Editor", 2);
    most_specific.title_substring = Some("project".into());
    most_specific.ax_role = Some("AXWindow".into());
    let mut tied_later = most_specific.clone();
    tied_later.workspace = Some(WorkspaceSelector::Index(3));
    let engine = AppRuleEngine::new(&[first, equally_specific, most_specific, tied_later]);

    let decision = engine
        .evaluate(WindowRuleContext {
            app_bundle_id: Some("com.example.editor"),
            window_title: Some("Project notes"),
            ax_role: Some("AXWindow"),
            ..Default::default()
        })
        .unwrap();
    assert_eq!(decision.workspace, Some(WorkspaceSelector::Index(2)));
}

#[test]
fn invalid_or_empty_matchers_never_become_wildcards() {
    let mut invalid_regex = rule("com.example.Editor", 1);
    invalid_regex.title_regex = Some("[".into());
    let mut empty = rule("", 2);
    empty.app_id = Some(String::new());
    let engine = AppRuleEngine::new(&[invalid_regex, empty]);

    assert!(
        engine
            .evaluate(WindowRuleContext {
                app_bundle_id: Some("com.example.Editor"),
                window_title: Some("anything"),
                ..Default::default()
            })
            .is_none()
    );
}

#[test]
fn title_change_does_not_reassert_workspace_from_non_title_fallback() {
    let generic = rule("com.example.Editor", 1);
    let mut titled = rule("com.example.Editor", 2);
    titled.title_substring = Some("special".into());
    titled.size = Some(size(Some(80.0), None));
    let engine = AppRuleEngine::new(&[generic, titled]);

    let fallback = engine
        .evaluate_for_title_change(WindowRuleContext {
            app_bundle_id: Some("com.example.Editor"),
            window_title: Some("ordinary window"),
            ..Default::default()
        })
        .unwrap();
    assert_eq!(fallback.workspace, None);

    let title_match = engine
        .evaluate_for_title_change(WindowRuleContext {
            app_bundle_id: Some("com.example.Editor"),
            window_title: Some("special window"),
            ..Default::default()
        })
        .unwrap();
    assert_eq!(title_match.workspace, Some(WorkspaceSelector::Index(2)));
    assert_eq!(title_match.size, Some(size(Some(80.0), None)));
}

#[test]
fn names_match_in_either_direction_whatever_their_case() {
    let mut named = AppWorkspaceRule {
        app_name: Some("Visual Studio".into()),
        focus: true,
        ..Default::default()
    };
    let engine = AppRuleEngine::new(&[named.clone()]);
    let ask = |name: &str| {
        engine
            .evaluate(WindowRuleContext { app_name: Some(name), ..Default::default() })
            .is_some()
    };
    assert!(ask("VISUAL STUDIO CODE"));
    assert!(ask("studio"));
    assert!(!ask("Terminal"));
    assert!(engine.evaluate(WindowRuleContext::default()).is_none());

    named.app_name = Some("\u{c9}diteur".into());
    let engine = AppRuleEngine::new(&[named]);
    assert!(engine
        .evaluate(WindowRuleContext { app_name: Some("\u{e9}DITEUR"), ..Default::default() })
        .is_some());
}

#[test]
fn identifiers_fold_only_ascii() {
    let engine = AppRuleEngine::new(&[rule("com.\u{c9}xample", 1)]);
    let ask = |id: &str| {
        engine
            .evaluate(WindowRuleContext { app_bundle_id: Some(id), ..Default::default() })
            .is_some()
    };
    assert!(ask("COM.\u{c9}XAMPLE"));
    assert!(!ask("com.\u{e9}xample"));
}

#[test]
fn roles_are_compared_exactly() {
    let mut exact = rule("com.example.Editor", 1);
    exact.ax_role = Some("AXWindow".into());
    exact.ax_subrole = Some("AXDialog".into());
    let engine = AppRuleEngine::new(&[exact]);
    let ask = |role: &str, subrole: &str| {
        engine
            .evaluate(WindowRuleContext {
                app_bundle_id: Some("com.example.editor"),
                ax_role: Some(role),
                ax_subrole: Some(subrole),
                ..Default::default()
            })
            .is_some()
    };
    assert!(ask("AXWindow", "AXDialog"));
    assert!(!ask("axwindow", "AXDialog"));
    assert!(!ask("AXWindow", "AXSheet"));
}

#[test]
fn patterns_are_searched_anywhere_without_regard_to_case() {
    let titled = AppWorkspaceRule { title_regex: Some("^draft \\d".into()), ..Default::default() };
    let engine = AppRuleEngine::new(&[titled]);
    let ask = |title: &str| {
        engine
            .evaluate(WindowRuleContext { window_title: Some(title), ..Default::default() })
            .is_some()
    };
    assert!(ask("DRAFT 7 of it"));
    assert!(!ask("my draft 7"));
    assert!(!ask("draft x"));
}

#[test]
fn a_rule_that_is_too_big_is_left_out() {
    let huge = AppWorkspaceRule {
        title_regex: Some("(a{1000}){1000}".into()),
        ..Default::default()
    };
    assert!(CompiledRule::new(0, &huge).0.is_none());
    assert!(CompiledRule::new(0, &huge).1);
}

#[test]
fn what_is_found_in_the_title_decides() {
    let mut titled = rule("com.example.editor", 1);
    titled.title_regex = Some("x".into());
    let compiled = CompiledRule::new(0, &titled).0.unwrap();
    let context = WindowRuleContext {
        app_bundle_id: Some("com.example.editor"),
        window_title: Some("anything"),
        ..Default::default()
    };
    assert!(compiled.matches_given(&context, true));
    assert!(!compiled.matches_given(&context, false));
    let untitled = WindowRuleContext { window_title: None, ..context };
    assert!(!compiled.matches_given(&untitled, true));
    assert!(compiled.matches_title());
    assert!(!CompiledRule::new(0, &rule("a", 1)).0.unwrap().matches_title());
}

#[test]
fn empty_texts_count_as_missing() {
    assert_eq!(nonempty(None), None);
    assert_eq!(nonempty(Some(String::new())), None);
    assert_eq!(nonempty(Some("a".into())), Some("a".into()));
}

fn effects(floating: bool, was_rule_floating: bool) -> AppRuleEffects {
    AppRuleEffects {
        workspace_id: VirtualWorkspaceId { raw: 4294967297 },
        floating,
        position: None,
        size: Some(size(Some(640.0), None)),
        focus: false,
        was_rule_floating,
    }
}

#[test]
fn effects_place_floating_windows_and_resize_tiled_ones() {
    let window = WindowId::new(1, 1);
    let space = SpaceId::new(3);
    let floats = effects(true, false);
    assert!(floats.should_float(false));
    assert_eq!(
        floats.floating_placement(window, space),
        Some(AppRulePlacement {
            window,
            space,
            position: None,
            size: Some(size(Some(640.0), None)),
        })
    );
    assert_eq!(floats.tiled_resize(window, space, false), None);

    let tiles = effects(false, false);
    assert!(!tiles.should_float(false));
    assert!(tiles.should_float(true));
    assert_eq!(tiles.floating_placement(window, space), None);
    assert_eq!(
        tiles.tiled_resize(window, space, false),
        Some(AppRuleResize {
            window,
            space,
            workspace_id: VirtualWorkspaceId { raw: 4294967297 },
            size: size(Some(640.0), None),
        })
    );
    assert_eq!(tiles.tiled_resize(window, space, true), None);

    let released = effects(false, true);
    assert!(!released.should_float(true));
    assert!(released.tiled_resize(window, space, true).is_some());

    let plain = AppRuleEffects { size: None, ..floats };
    assert_eq!(plain.floating_placement(window, space), None);
    assert_eq!(plain.tiled_resize(window, space, false), None);
}

#[test]
fn outcomes_collect_work_in_order() {
    let window = WindowId::new(1, 1);
    let space = SpaceId::new(3);
    let placement = effects(true, false).floating_placement(window, space).unwrap();
    let resize = effects(false, false).tiled_resize(window, space, false).unwrap();
    let focus = AppRuleWorkspaceFocus { window, space, workspace_index: 2 };
    let mut outcome = AppRuleOutcome::default();
    assert!(!outcome.has_resizes());
    outcome.push_placement(placement);
    assert!(!outcome.has_resizes());
    outcome.push_resize(resize);
    outcome.push_resize(resize);
    assert!(outcome.has_resizes());
    outcome.set_workspace_focus(focus);
    assert_eq!(outcome.into_parts(), (vec![placement], vec![resize, resize], Some(focus)));
}

#[test]
fn decisions_carry_the_override() {
    assert_eq!(AppRuleDecision::default().management_override(), None);
    let refused = AppRuleDecision { manage: Some(false), ..Default::default() };
    assert_eq!(refused.management_override(), Some(false));
}

#[test]
fn a_rule_is_made_by_what_came_of_its_pattern() {
    let mut titled = rule("com.example", 1);
    titled.title_regex = Some("draft".into());
    assert!(CompiledRule::assemble(0, &titled, Some(PatternOutcome::Malformed)).is_none());
    assert!(CompiledRule::assemble(0, &titled, Some(PatternOutcome::TooBig)).is_none());
    let pattern = regex::RegexBuilder::new("draft").case_insensitive(true).build().unwrap();
    let made = CompiledRule::assemble(0, &titled, Some(PatternOutcome::Ready(pattern)));
    assert!(made.is_some_and(|made| made.matches_title()));
    let plain = CompiledRule::assemble(0, &rule("com.example", 1), None);
    assert!(plain.is_some_and(|plain| !plain.matches_title()));
    assert!(CompiledRule::assemble(0, &AppWorkspaceRule::default(), None).is_none());
    let (refused, too_big) = CompiledRule::new(0, &AppWorkspaceRule {
        title_regex: Some("(".into()),
        ..Default::default()
    });
    assert!(refused.is_none() && !too_big);
}
