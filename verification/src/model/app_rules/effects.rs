//! What a rule does to a window.

use vstd::prelude::*;

use crate::actor::WindowId;
use crate::model::window_store::view::VirtualWorkspaceId;
use crate::sys::SpaceId;

verus! {

/// A place on the screen. Each number is the bits of a double-precision number.
#[derive(Clone, Copy, Debug, PartialEq, Eq, Structural)]
pub struct AppRulePosition {
    pub x: u64,
    pub y: u64,
}

/// A size, where one is set. Each number is the bits of a double-precision number.
#[derive(Clone, Copy, Debug, PartialEq, Eq, Structural)]
pub struct AppRuleSize {
    pub w: Option<u64>,
    pub h: Option<u64>,
}

/// A workspace, by its place or by its name.
#[derive(Clone, Debug, PartialEq, Eq)]
pub enum WorkspaceSelector {
    Index(usize),
    Name(String),
}

impl WorkspaceSelector {
    pub fn copy(&self) -> (r: WorkspaceSelector)
        ensures
            r == *self,
    {
        match self {
            WorkspaceSelector::Index(i) => WorkspaceSelector::Index(*i),
            WorkspaceSelector::Name(name) => WorkspaceSelector::Name(name.clone()),
        }
    }
}

/// What a rule decides.
#[derive(Clone, Debug, PartialEq, Default)]
pub struct AppRuleDecision {
    pub manage: Option<bool>,
    pub workspace: Option<WorkspaceSelector>,
    pub floating: bool,
    pub position: Option<AppRulePosition>,
    pub size: Option<AppRuleSize>,
    pub focus: bool,
}

impl AppRuleDecision {
    pub fn management_override(&self) -> (r: Option<bool>)
        ensures
            r == self.manage,
    {
        self.manage
    }

    pub fn copy(&self) -> (r: AppRuleDecision)
        ensures
            r == *self,
    {
        AppRuleDecision {
            manage: self.manage,
            workspace: match &self.workspace {
                Some(workspace) => Some(workspace.copy()),
                None => None,
            },
            floating: self.floating,
            position: self.position,
            size: self.size,
            focus: self.focus,
        }
    }
}

/// What a rule does to a window that is managed.
#[derive(Clone, Copy, Debug, PartialEq, Eq, Structural)]
pub struct AppRuleEffects {
    pub workspace_id: VirtualWorkspaceId,
    pub floating: bool,
    pub position: Option<AppRulePosition>,
    pub size: Option<AppRuleSize>,
    pub focus: bool,
    pub was_rule_floating: bool,
}

impl AppRuleEffects {
    /// A window floats if the rule says so. One that floats for another reason
    /// goes on floating.
    pub open spec fn floats(self, was_floating: bool) -> bool {
        self.floating || (was_floating && !self.was_rule_floating)
    }

    pub fn should_float(self, was_floating: bool) -> (r: bool)
        ensures
            r == self.floats(was_floating),
    {
        self.floating || (!self.was_rule_floating && was_floating)
    }

    /// The frame that the rule asks for, if it lets the window float.
    pub open spec fn placement(self, window: WindowId, space: SpaceId) -> Option<AppRulePlacement> {
        if self.floating && (self.position is Some || self.size is Some) {
            Some(AppRulePlacement { window, space, position: self.position, size: self.size })
        } else {
            None
        }
    }

    /// The size that the rule asks for, if the window is tiled.
    pub open spec fn resize(self, window: WindowId, space: SpaceId, was_floating: bool) -> Option<
        AppRuleResize,
    > {
        match self.size {
            Some(size) => if self.floats(was_floating) {
                None
            } else {
                Some(AppRuleResize { window, space, workspace_id: self.workspace_id, size })
            },
            None => None,
        }
    }

    pub fn floating_placement(self, window: WindowId, space: SpaceId) -> (r: Option<
        AppRulePlacement,
    >)
        ensures
            r == self.placement(window, space),
    {
        if self.floating && (self.position.is_some() || self.size.is_some()) {
            Some(AppRulePlacement { window, space, position: self.position, size: self.size })
        } else {
            None
        }
    }

    pub fn tiled_resize(self, window: WindowId, space: SpaceId, was_floating: bool) -> (r: Option<
        AppRuleResize,
    >)
        ensures
            r == self.resize(window, space, was_floating),
    {
        match self.size {
            Some(size) => if self.should_float(was_floating) {
                None
            } else {
                Some(AppRuleResize { window, space, workspace_id: self.workspace_id, size })
            },
            None => None,
        }
    }
}

/// No rule asks both for a frame of a floating window and for a size of a tiled
/// one.
pub proof fn law_frame_or_size(
    effects: AppRuleEffects,
    window: WindowId,
    space: SpaceId,
    was_floating: bool,
)
    ensures
        effects.placement(window, space) is None || effects.resize(
            window,
            space,
            was_floating,
        ) is None,
{
}

/// A window that a rule lets float floats. One that no rule lets float now goes on
/// floating if it floated for another reason, and stops if a rule was the reason. A rule
/// places only windows that it lets float, and resizes only windows that are tiled.
pub proof fn law_effects(
    effects: AppRuleEffects,
    window: WindowId,
    space: SpaceId,
    was_floating: bool,
)
    ensures
        effects.floating ==> effects.floats(was_floating),
        !effects.floating && !was_floating ==> !effects.floats(was_floating),
        !effects.floating && was_floating ==> effects.floats(was_floating)
            == !effects.was_rule_floating,
        effects.placement(window, space) is Some <==> effects.floating && (effects.position is Some
            || effects.size is Some),
        effects.placement(window, space) matches Some(p) ==> p.window == window && p.space == space
            && p.position == effects.position && p.size == effects.size,
        effects.resize(window, space, was_floating) is Some <==> effects.size is Some
            && !effects.floating && (!was_floating || effects.was_rule_floating),
        effects.resize(window, space, was_floating) matches Some(r) ==> r.window == window
            && r.space == space && Some(r.size) == effects.size && r.workspace_id
            == effects.workspace_id,
{
}

/// What comes of a window that rules were asked about.
#[derive(Clone, Copy, Debug, PartialEq, Eq, Structural)]
pub enum AppRuleResult {
    Managed(AppRuleEffects),
    Rejected(AppRuleRejection),
}

#[derive(Clone, Copy, Debug, PartialEq, Eq, Structural)]
pub enum AppRuleRejection {
    ExplicitRule,
    Heuristic,
}

/// A frame that a rule asks for, once.
#[derive(Clone, Copy, Debug, PartialEq, Eq, Structural)]
pub struct AppRulePlacement {
    pub window: WindowId,
    pub space: SpaceId,
    pub position: Option<AppRulePosition>,
    pub size: Option<AppRuleSize>,
}

/// A size that a rule asks for, once the window is in its layout.
#[derive(Clone, Copy, Debug, PartialEq, Eq, Structural)]
pub struct AppRuleResize {
    pub window: WindowId,
    pub space: SpaceId,
    pub workspace_id: VirtualWorkspaceId,
    pub size: AppRuleSize,
}

/// A workspace that a rule gives the focus.
#[derive(Clone, Copy, Debug, PartialEq, Eq, Structural)]
pub struct AppRuleWorkspaceFocus {
    pub window: WindowId,
    pub space: SpaceId,
    pub workspace_index: usize,
}

/// What is left to do after rules were applied.
#[derive(Debug)]
pub struct AppRuleOutcome {
    pub placements: Vec<AppRulePlacement>,
    pub resizes: Vec<AppRuleResize>,
    pub workspace_focus: Option<AppRuleWorkspaceFocus>,
}

impl Default for AppRuleOutcome {
    fn default() -> (r: AppRuleOutcome)
        ensures
            r.placements@.len() == 0,
            r.resizes@.len() == 0,
            r.workspace_focus is None,
    {
        AppRuleOutcome { placements: Vec::new(), resizes: Vec::new(), workspace_focus: None }
    }
}

impl AppRuleOutcome {
    pub fn push_placement(&mut self, placement: AppRulePlacement)
        ensures
            final(self).placements@ == old(self).placements@.push(placement),
            final(self).resizes == old(self).resizes,
            final(self).workspace_focus == old(self).workspace_focus,
    {
        self.placements.push(placement);
    }

    pub fn push_resize(&mut self, resize: AppRuleResize)
        ensures
            final(self).resizes@ == old(self).resizes@.push(resize),
            final(self).placements == old(self).placements,
            final(self).workspace_focus == old(self).workspace_focus,
    {
        self.resizes.push(resize);
    }

    pub fn has_resizes(&self) -> (r: bool)
        ensures
            r == (self.resizes@.len() > 0),
    {
        self.resizes.len() > 0
    }

    pub fn set_workspace_focus(&mut self, focus: AppRuleWorkspaceFocus)
        ensures
            final(self).workspace_focus == Some(focus),
            final(self).placements == old(self).placements,
            final(self).resizes == old(self).resizes,
    {
        self.workspace_focus = Some(focus);
    }

    pub fn into_parts(self) -> (r: (
        Vec<AppRulePlacement>,
        Vec<AppRuleResize>,
        Option<AppRuleWorkspaceFocus>,
    ))
        ensures
            r == (self.placements, self.resizes, self.workspace_focus),
    {
        (self.placements, self.resizes, self.workspace_focus)
    }
}

} // verus!
