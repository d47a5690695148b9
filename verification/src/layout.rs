//! Where the panels of a window are docked.
use crate::agent_settings::AgentSettings;
use crate::settings_content::{AgentSettingsContent, DockPosition, DockSide};
use vstd::prelude::*;

verus! {

#[derive(Clone, Debug, PartialEq)]
pub struct SidePanelContent {
    pub dock: Option<DockSide>,
}

#[derive(Clone, Debug, PartialEq)]
pub struct PanelContent {
    pub dock: Option<DockPosition>,
}

/// The settings that say where panels are docked.
#[derive(Clone, Debug, PartialEq)]
pub struct SettingsContent {
    pub agent: Option<AgentSettingsContent>,
    pub project_panel: Option<SidePanelContent>,
    pub outline_panel: Option<SidePanelContent>,
    pub collaboration_panel: Option<PanelContent>,
    pub git_panel: Option<PanelContent>,
}

impl Default for SettingsContent {
    fn default() -> (r: Self)
        ensures
            r == (SettingsContent {
                agent: None,
                project_panel: None,
                outline_panel: None,
                collaboration_panel: None,
                git_panel: None,
            }),
    {
        SettingsContent {
            agent: None,
            project_panel: None,
            outline_panel: None,
            collaboration_panel: None,
            git_panel: None,
        }
    }
}

#[derive(Debug, Clone, Copy, PartialEq, Eq, Structural)]
pub struct PanelLayout {
    pub agent_dock: Option<DockPosition>,
    pub project_panel_dock: Option<DockSide>,
    pub outline_panel_dock: Option<DockSide>,
    pub collaboration_panel_dock: Option<DockPosition>,
    pub git_panel_dock: Option<DockPosition>,
}

impl Default for PanelLayout {
    fn default() -> (r: Self)
        ensures
            r == PanelLayout::unset(),
    {
        PanelLayout {
            agent_dock: None,
            project_panel_dock: None,
            outline_panel_dock: None,
            collaboration_panel_dock: None,
            git_panel_dock: None,
        }
    }
}

/// The layout that the settings describe.
pub open spec fn layout_of(content: SettingsContent) -> PanelLayout {
    PanelLayout {
        agent_dock: match content.agent {
            Some(a) => a.dock,
            None => None,
        },
        project_panel_dock: match content.project_panel {
            Some(p) => p.dock,
            None => None,
        },
        outline_panel_dock: match content.outline_panel {
            Some(p) => p.dock,
            None => None,
        },
        collaboration_panel_dock: match content.collaboration_panel {
            Some(p) => p.dock,
            None => None,
        },
        git_panel_dock: match content.git_panel {
            Some(p) => p.dock,
            None => None,
        },
    }
}

/// All settings of the agent but where it is docked are the same. An agent that was not set up
/// has no settings.
pub open spec fn same_but_docks(before: SettingsContent, after: SettingsContent) -> bool {
    match before.agent {
        Some(b) => after.agent matches Some(a) && a == (AgentSettingsContent { dock: a.dock, ..b }),
        None => after.agent matches Some(a) ==> a.sets_only_dock(),
    }
}

/// Field by field, what `layer` sets over what `base` sets.
pub open spec fn overlay(layer: PanelLayout, base: PanelLayout) -> PanelLayout {
    PanelLayout {
        agent_dock: if layer.agent_dock is Some {
            layer.agent_dock
        } else {
            base.agent_dock
        },
        project_panel_dock: if layer.project_panel_dock is Some {
            layer.project_panel_dock
        } else {
            base.project_panel_dock
        },
        outline_panel_dock: if layer.outline_panel_dock is Some {
            layer.outline_panel_dock
        } else {
            base.outline_panel_dock
        },
        collaboration_panel_dock: if layer.collaboration_panel_dock is Some {
            layer.collaboration_panel_dock
        } else {
            base.collaboration_panel_dock
        },
        git_panel_dock: if layer.git_panel_dock is Some {
            layer.git_panel_dock
        } else {
            base.git_panel_dock
        },
    }
}

/// Field by field, `wanted` where it differs from `current`, else what was set before.
pub open spec fn with_changes(
    before: PanelLayout,
    wanted: PanelLayout,
    current: PanelLayout,
) -> PanelLayout {
    PanelLayout {
        agent_dock: if wanted.agent_dock != current.agent_dock {
            wanted.agent_dock
        } else {
            before.agent_dock
        },
        project_panel_dock: if wanted.project_panel_dock != current.project_panel_dock {
            wanted.project_panel_dock
        } else {
            before.project_panel_dock
        },
        outline_panel_dock: if wanted.outline_panel_dock != current.outline_panel_dock {
            wanted.outline_panel_dock
        } else {
            before.outline_panel_dock
        },
        collaboration_panel_dock: if wanted.collaboration_panel_dock
            != current.collaboration_panel_dock {
            wanted.collaboration_panel_dock
        } else {
            before.collaboration_panel_dock
        },
        git_panel_dock: if wanted.git_panel_dock != current.git_panel_dock {
            wanted.git_panel_dock
        } else {
            before.git_panel_dock
        },
    }
}

/// Field by field, `fill` where `user` sets nothing, else what was set before.
pub open spec fn with_fill(
    before: PanelLayout,
    fill: PanelLayout,
    user: PanelLayout,
) -> PanelLayout {
    PanelLayout {
        agent_dock: if user.agent_dock is None {
            fill.agent_dock
        } else {
            before.agent_dock
        },
        project_panel_dock: if user.project_panel_dock is None {
            fill.project_panel_dock
        } else {
            before.project_panel_dock
        },
        outline_panel_dock: if user.outline_panel_dock is None {
            fill.outline_panel_dock
        } else {
            before.outline_panel_dock
        },
        collaboration_panel_dock: if user.collaboration_panel_dock is None {
            fill.collaboration_panel_dock
        } else {
            before.collaboration_panel_dock
        },
        git_panel_dock: if user.git_panel_dock is None {
            fill.git_panel_dock
        } else {
            before.git_panel_dock
        },
    }
}

fn same_position(a: Option<DockPosition>, b: Option<DockPosition>) -> (r: bool)
    ensures
        r == (a == b),
{
    match (a, b) {
        (Some(x), Some(y)) => x == y,
        (None, None) => true,
        _ => false,
    }
}

fn same_side(a: Option<DockSide>, b: Option<DockSide>) -> (r: bool)
    ensures
        r == (a == b),
{
    match (a, b) {
        (Some(x), Some(y)) => x == y,
        (None, None) => true,
        _ => false,
    }
}

impl PanelLayout {
    /// Nothing is docked anywhere.
    pub open spec fn unset() -> Self {
        PanelLayout {
            agent_dock: None,
            project_panel_dock: None,
            outline_panel_dock: None,
            collaboration_panel_dock: None,
            git_panel_dock: None,
        }
    }

    pub open spec fn agent_view() -> Self {
        PanelLayout {
            agent_dock: Some(DockPosition::Left),
            project_panel_dock: Some(DockSide::Right),
            outline_panel_dock: Some(DockSide::Right),
            collaboration_panel_dock: Some(DockPosition::Right),
            git_panel_dock: Some(DockPosition::Right),
        }
    }

    pub open spec fn editor_view() -> Self {
        PanelLayout {
            agent_dock: Some(DockPosition::Right),
            project_panel_dock: Some(DockSide::Left),
            outline_panel_dock: Some(DockSide::Left),
            collaboration_panel_dock: Some(DockPosition::Left),
            git_panel_dock: Some(DockPosition::Left),
        }
    }

    /// The agent on the left, everything else on the right.
    pub fn agent() -> (r: Self)
        ensures
            r == Self::agent_view(),
    {
        PanelLayout {
            agent_dock: Some(DockPosition::Left),
            project_panel_dock: Some(DockSide::Right),
            outline_panel_dock: Some(DockSide::Right),
            collaboration_panel_dock: Some(DockPosition::Right),
            git_panel_dock: Some(DockPosition::Right),
        }
    }

    /// The agent on the right, everything else on the left.
    pub fn editor() -> (r: Self)
        ensures
            r == Self::editor_view(),
    {
        PanelLayout {
            agent_dock: Some(DockPosition::Right),
            project_panel_dock: Some(DockSide::Left),
            outline_panel_dock: Some(DockSide::Left),
            collaboration_panel_dock: Some(DockPosition::Left),
            git_panel_dock: Some(DockPosition::Left),
        }
    }

    fn same_as(&self, other: &Self) -> (r: bool)
        ensures
            r == (*self == *other),
    {
        same_position(self.agent_dock, other.agent_dock) && same_side(
            self.project_panel_dock,
            other.project_panel_dock,
        ) && same_side(self.outline_panel_dock, other.outline_panel_dock) && same_position(
            self.collaboration_panel_dock,
            other.collaboration_panel_dock,
        ) && same_position(self.git_panel_dock, other.git_panel_dock)
    }

    pub fn is_agent_layout(&self) -> (r: bool)
        ensures
            r == (*self == Self::agent_view()),
    {
        self.same_as(&Self::agent())
    }

    pub fn is_editor_layout(&self) -> (r: bool)
        ensures
            r == (*self == Self::editor_view()),
    {
        self.same_as(&Self::editor())
    }

    pub fn read_from(content: &SettingsContent) -> (r: Self)
        ensures
            r == layout_of(*content),
    {
        PanelLayout {
            agent_dock: match &content.agent {
                Some(a) => a.dock,
                None => None,
            },
            project_panel_dock: match &content.project_panel {
                Some(p) => p.dock,
                None => None,
            },
            outline_panel_dock: match &content.outline_panel {
                Some(p) => p.dock,
                None => None,
            },
            collaboration_panel_dock: match &content.collaboration_panel {
                Some(p) => p.dock,
                None => None,
            },
            git_panel_dock: match &content.git_panel {
                Some(p) => p.dock,
                None => None,
            },
        }
    }

    /// Writes the whole layout into the settings.
    pub fn write_to(&self, settings: &mut SettingsContent)
        ensures
            layout_of(*final(settings)) == *self,
            same_but_docks(*old(settings), *final(settings)),
    {
        set_agent_dock(settings, self.agent_dock);
        settings.project_panel = Some(SidePanelContent { dock: self.project_panel_dock });
        settings.outline_panel = Some(SidePanelContent { dock: self.outline_panel_dock });
        settings.collaboration_panel = Some(PanelContent { dock: self.collaboration_panel_dock });
        settings.git_panel = Some(PanelContent { dock: self.git_panel_dock });
    }

    /// Writes what differs from the layout that is in force.
    pub fn write_diff_to(&self, current_merged: &PanelLayout, settings: &mut SettingsContent)
        ensures
            layout_of(*final(settings)) == with_changes(
                layout_of(*old(settings)),
                *self,
                *current_merged,
            ),
            same_but_docks(*old(settings), *final(settings)),
    {
        if !same_position(self.agent_dock, current_merged.agent_dock) {
            set_agent_dock(settings, self.agent_dock);
        }
        if !same_side(self.project_panel_dock, current_merged.project_panel_dock) {
            settings.project_panel = Some(SidePanelContent { dock: self.project_panel_dock });
        }
        if !same_side(self.outline_panel_dock, current_merged.outline_panel_dock) {
            settings.outline_panel = Some(SidePanelContent { dock: self.outline_panel_dock });
        }
        if !same_position(self.collaboration_panel_dock, current_merged.collaboration_panel_dock) {
            settings.collaboration_panel =
            Some(PanelContent { dock: self.collaboration_panel_dock });
        }
        if !same_position(self.git_panel_dock, current_merged.git_panel_dock) {
            settings.git_panel = Some(PanelContent { dock: self.git_panel_dock });
        }
    }

    /// Writes what the user has not set.
    pub fn backfill_to(&self, user_layout: &PanelLayout, settings: &mut SettingsContent)
        ensures
            layout_of(*final(settings)) == with_fill(
                layout_of(*old(settings)),
                *self,
                *user_layout,
            ),
            same_but_docks(*old(settings), *final(settings)),
    {
        if user_layout.agent_dock.is_none() {
            set_agent_dock(settings, self.agent_dock);
        }
        if user_layout.project_panel_dock.is_none() {
            settings.project_panel = Some(SidePanelContent { dock: self.project_panel_dock });
        }
        if user_layout.outline_panel_dock.is_none() {
            settings.outline_panel = Some(SidePanelContent { dock: self.outline_panel_dock });
        }
        if user_layout.collaboration_panel_dock.is_none() {
            settings.collaboration_panel =
            Some(PanelContent { dock: self.collaboration_panel_dock });
        }
        if user_layout.git_panel_dock.is_none() {
            settings.git_panel = Some(PanelContent { dock: self.git_panel_dock });
        }
    }
}

fn set_agent_dock(settings: &mut SettingsContent, dock: Option<DockPosition>)
    ensures
        layout_of(*final(settings)) == (PanelLayout { agent_dock: dock, ..layout_of(*old(settings)) }),
        same_but_docks(*old(settings), *final(settings)),
        final(settings).agent is Some,
{
    let mut agent = match settings.agent.take() {
        Some(a) => a,
        None => AgentSettingsContent::default(),
    };
    agent.dock = dock;
    settings.agent = Some(agent);
}

/// The layout of a window: one of the two that are built in, with what the user had set before,
/// or another one.
#[derive(Debug, Clone, PartialEq, Eq)]
pub enum WindowLayout {
    Editor(Option<PanelLayout>),
    Agent(Option<PanelLayout>),
    Custom(PanelLayout),
}

impl WindowLayout {
    pub fn agent() -> (r: Self)
        ensures
            r == WindowLayout::Agent(None),
    {
        WindowLayout::Agent(None)
    }

    pub fn editor() -> (r: Self)
        ensures
            r == WindowLayout::Editor(None),
    {
        WindowLayout::Editor(None)
    }
}

/// The user's layout after a layout has been chosen: a built-in one is written as far as it
/// differs from the one in force, a saved one is written as it is.
pub open spec fn chosen(
    layout: WindowLayout,
    merged: PanelLayout,
    before: PanelLayout,
) -> PanelLayout {
    match layout {
        WindowLayout::Agent(None) => with_changes(before, PanelLayout::agent_view(), merged),
        WindowLayout::Editor(None) => with_changes(before, PanelLayout::editor_view(), merged),
        WindowLayout::Agent(Some(saved)) => saved,
        WindowLayout::Editor(Some(saved)) => saved,
        WindowLayout::Custom(saved) => saved,
    }
}

impl AgentSettings {
    /// The layout that is in force, together with what the user has set of it.
    pub fn get_layout(merged: &SettingsContent, user: Option<&SettingsContent>) -> (r: WindowLayout)
        ensures
            ({
                let mine = match user {
                    Some(u) => layout_of(*u),
                    None => PanelLayout::unset(),
                };
                r == if layout_of(*merged) == PanelLayout::agent_view() {
                    WindowLayout::Agent(Some(mine))
                } else if layout_of(*merged) == PanelLayout::editor_view() {
                    WindowLayout::Editor(Some(mine))
                } else {
                    WindowLayout::Custom(mine)
                }
            }),
    {
        let user_layout = match user {
            Some(u) => PanelLayout::read_from(u),
            None => PanelLayout::default(),
        };
        let merged_layout = PanelLayout::read_from(merged);
        if merged_layout.is_agent_layout() {
            return WindowLayout::Agent(Some(user_layout));
        }
        if merged_layout.is_editor_layout() {
            return WindowLayout::Editor(Some(user_layout));
        }
        WindowLayout::Custom(user_layout)
    }

    /// Sets the panels that the user has not set as in an editor.
    pub fn backfill_editor_layout(user: Option<&SettingsContent>, settings: &mut SettingsContent)
        ensures
            layout_of(*final(settings)) == with_fill(
                layout_of(*old(settings)),
                PanelLayout::editor_view(),
                match user {
                    Some(u) => layout_of(*u),
                    None => PanelLayout::unset(),
                },
            ),
            same_but_docks(*old(settings), *final(settings)),
    {
        let user_layout = match user {
            Some(u) => PanelLayout::read_from(u),
            None => PanelLayout::default(),
        };
        PanelLayout::editor().backfill_to(&user_layout, settings);
    }

    /// Writes a layout into the user's settings, where `merged` are the settings in force.
    pub fn set_layout(layout: WindowLayout, merged: &SettingsContent, settings: &mut SettingsContent)
        ensures
            layout_of(*final(settings)) == chosen(
                layout,
                layout_of(*merged),
                layout_of(*old(settings)),
            ),
            same_but_docks(*old(settings), *final(settings)),
    {
        let merged = PanelLayout::read_from(merged);
        match layout {
            WindowLayout::Agent(None) => PanelLayout::agent().write_diff_to(&merged, settings),
            WindowLayout::Editor(None) => PanelLayout::editor().write_diff_to(&merged, settings),
            WindowLayout::Agent(Some(saved)) => saved.write_to(settings),
            WindowLayout::Editor(Some(saved)) => saved.write_to(settings),
            WindowLayout::Custom(saved) => saved.write_to(settings),
        }
    }
}

/// Choosing a built-in layout puts it in force, whatever the user and the defaults had set.
pub proof fn lemma_chosen_layout_takes_effect(user: PanelLayout, defaults: PanelLayout)
    ensures
        overlay(
            chosen(WindowLayout::Agent(None), overlay(user, defaults), user),
            defaults,
        ) == PanelLayout::agent_view(),
        overlay(
            chosen(WindowLayout::Editor(None), overlay(user, defaults), user),
            defaults,
        ) == PanelLayout::editor_view(),
{
}

/// What the user had set is restored when the saved layout is chosen again, after any other one.
pub proof fn lemma_saved_layout_is_restored(
    user: PanelLayout,
    other: WindowLayout,
    merged: PanelLayout,
    later: PanelLayout,
)
    ensures
        chosen(WindowLayout::Custom(user), later, chosen(other, merged, user)) == user,
        chosen(WindowLayout::Agent(Some(user)), later, chosen(other, merged, user)) == user,
        chosen(WindowLayout::Editor(Some(user)), later, chosen(other, merged, user)) == user,
{
}

/// Filling in never changes what the user has set, and leaves no panel of an editor undocked.
pub proof fn lemma_backfill_keeps_user_choices(user: PanelLayout)
    ensures
        with_fill(user, PanelLayout::editor_view(), user) == overlay(
            user,
            PanelLayout::editor_view(),
        ),
{
}

} // verus!
