//! The windows: when the panel is shown, when it goes, and what clicks and menus
//! lead to.

use crate::session::{Session, SessionView};
use vstd::prelude::*;

verus! {

/// Time between two looks for the signal of a second start and for what was
/// chosen from the tray, in milliseconds.
pub const POLL_MS: u64 = 150;

/// Time from the last move of the pet until its place is saved, in milliseconds.
pub const SAVE_POSITION_MS: u64 = 500;

/// How the panel stands.
#[derive(Debug, Clone, Copy, PartialEq, Eq, Structural)]
pub struct Panel {
    pub visible: bool,
    /// Whether it stays when it loses the focus.
    pub pinned: bool,
    /// Whether it has had the focus since it was shown. Before that, losing the
    /// focus says nothing.
    pub got_focus: bool,
    /// Whether its window was set up for the desktop.
    pub native_ready: bool,
    pub grid_open: bool,
    pub menu_open: bool,
    pub editor_open: bool,
    /// Whether it made way for the settings and is to come back.
    pub resume_after_settings: bool,
}

/// What a click on the pet leads to.
#[derive(Debug, Clone, Copy, PartialEq, Eq, Structural)]
pub enum PetClick {
    /// The pet cannot be drawn: let the user choose another.
    OpenSettings,
    /// Wave, and hide the panel.
    HidePanel,
    /// Wave, and show the panel.
    ShowPanel,
}

impl Panel {
    /// Hidden, with nothing open on it and no longer pinned.
    pub open spec fn hidden(self) -> Panel {
        Panel {
            visible: false,
            pinned: false,
            grid_open: false,
            menu_open: false,
            editor_open: false,
            ..self
        }
    }

    /// Made way for the settings, if it is pinned and shown.
    pub open spec fn made_way(self) -> Panel {
        if self.pinned && self.visible {
            Panel {
                visible: false,
                menu_open: false,
                editor_open: false,
                resume_after_settings: true,
                ..self
            }
        } else {
            self
        }
    }

    /// A panel that was never shown.
    pub fn new() -> (r: Self)
        ensures
            r == (Panel {
                visible: false,
                pinned: false,
                got_focus: false,
                native_ready: false,
                grid_open: false,
                menu_open: false,
                editor_open: false,
                resume_after_settings: false,
            }),
    {
        Panel {
            visible: false,
            pinned: false,
            got_focus: false,
            native_ready: false,
            grid_open: false,
            menu_open: false,
            editor_open: false,
            resume_after_settings: false,
        }
    }

    /// Hides the panel. What the editor was open on is forgotten: by the time
    /// the panel is shown again it may stand for another phrase.
    pub fn hide_panel(&mut self, session: &mut Session)
        ensures
            *final(self) == old(self).hidden(),
            final(session)@ == (SessionView { pending_edit: None, ..old(session)@ }),
    {
        self.grid_open = false;
        self.menu_open = false;
        self.editor_open = false;
        self.pinned = false;
        self.visible = false;
        session.pending_edit = None;
    }

    /// The panel is about to be shown.
    pub fn opening(&mut self)
        ensures
            *final(self) == (Panel { got_focus: false, ..*old(self) }),
    {
        self.got_focus = false;
    }

    /// The panel is shown.
    pub fn opened(&mut self)
        ensures
            *final(self) == (Panel { visible: true, ..*old(self) }),
    {
        self.visible = true;
    }

    /// What a click on the pet leads to; `missing` says that it cannot be drawn.
    pub fn pet_clicked(&self, missing: bool) -> (r: PetClick)
        ensures
            r == (if missing {
                PetClick::OpenSettings
            } else if self.visible {
                PetClick::HidePanel
            } else {
                PetClick::ShowPanel
            }),
    {
        if missing {
            PetClick::OpenSettings
        } else if self.visible {
            PetClick::HidePanel
        } else {
            PetClick::ShowPanel
        }
    }

    /// Whether the panel goes along when the pet is moved.
    pub fn follows_pet(&self) -> (r: bool)
        ensures
            r == (self.pinned && self.visible),
    {
        self.pinned && self.visible
    }

    /// The settings are opened: a panel that is pinned and shown makes way, and
    /// stays pinned. Whether it makes way.
    pub fn open_settings(&mut self) -> (r: bool)
        ensures
            r == (old(self).pinned && old(self).visible),
            *final(self) == old(self).made_way(),
    {
        if self.pinned && self.visible {
            self.resume_after_settings = true;
            self.menu_open = false;
            self.editor_open = false;
            self.visible = false;
            true
        } else {
            false
        }
    }

    /// The settings are opened from the panel: a panel that is not pinned is
    /// hidden.
    pub fn gear_clicked(&mut self, session: &mut Session)
        ensures
            *final(self) == (if old(self).pinned {
                old(self).made_way()
            } else {
                old(self).hidden()
            }),
            final(session)@ == (if old(self).pinned {
                old(session)@
            } else {
                SessionView { pending_edit: None, ..old(session)@ }
            }),
    {
        let _ = self.open_settings();
        if !self.pinned {
            self.hide_panel(session);
        }
    }

    /// The settings are closed; whether the panel comes back.
    pub fn settings_closed(&mut self) -> (r: bool)
        ensures
            r == (old(self).resume_after_settings && old(self).pinned),
            *final(self) == (Panel { resume_after_settings: false, ..*old(self) }),
    {
        let resume = self.resume_after_settings;
        self.resume_after_settings = false;
        resume && self.pinned
    }

    /// The panel got the focus or lost it. A panel that loses a focus it had is
    /// hidden, unless it is pinned; whether it is.
    pub fn focus_changed(&mut self, session: &mut Session, gained: bool) -> (r: bool)
        ensures
            r == (!gained && old(self).got_focus && !old(self).pinned),
            *final(self) == (if gained {
                Panel { got_focus: true, ..*old(self) }
            } else if r {
                old(self).hidden()
            } else {
                *old(self)
            }),
            final(session)@ == (if r {
                SessionView { pending_edit: None, ..old(session)@ }
            } else {
                old(session)@
            }),
    {
        if gained {
            self.got_focus = true;
            false
        } else if self.got_focus && !self.pinned {
            self.hide_panel(session);
            true
        } else {
            false
        }
    }

    /// The window is set up for the desktop, if it was not before: whether the
    /// panel has a solid background. It has where the user wants one, and where
    /// there can be no other.
    pub fn native_theme(&mut self, wants_solid: bool, acrylic_ok: bool) -> (r: Option<bool>)
        ensures
            r == (if old(self).native_ready {
                None
            } else {
                Some(wants_solid || !acrylic_ok)
            }),
            *final(self) == (Panel { native_ready: true, ..*old(self) }),
    {
        if self.native_ready {
            return None;
        }
        self.native_ready = true;
        Some(wants_solid || !acrylic_ok)
    }
}

/// A panel that made way for the settings comes back when they are closed, if it
/// was pinned and shown, and else stays as it was; it is pinned as before.
pub proof fn a_pinned_panel_comes_back(p: Panel)
    requires
        !p.resume_after_settings,
    ensures
        p.made_way().pinned == p.pinned,
        p.made_way().resume_after_settings && p.made_way().pinned <==> p.pinned && p.visible,
        p.pinned && p.visible ==> !p.made_way().visible,
        !(p.pinned && p.visible) ==> p.made_way() == p,
{
}

/// A hidden panel is neither pinned nor has anything open on it, so that nothing
/// stale shows when it is shown again.
pub proof fn a_hidden_panel_is_bare(p: Panel)
    ensures
        !p.hidden().visible,
        !p.hidden().pinned,
        !p.hidden().grid_open && !p.hidden().menu_open && !p.hidden().editor_open,
        p.hidden().hidden() == p.hidden(),
{
}

/// An entry of the tray's menu.
#[derive(Debug, Clone, Copy, PartialEq, Eq, Structural)]
pub enum TrayEntry {
    Toggle,
    Settings,
    Update,
    Quit,
}

/// What an entry of the tray's menu leads to.
#[derive(Debug, Clone, Copy, PartialEq, Eq, Structural)]
pub enum TrayCommand {
    /// Hide the pet and the panel.
    HidePet,
    /// Show the pet, bring it into sight and wave.
    RecoverPet,
    OpenSettings,
    /// Open the settings where updates are shown, and look for one.
    CheckUpdate,
    /// Open the settings where updates are shown, and install the one found.
    InstallUpdate,
    /// Save where the pet stands, and end.
    Quit,
}

/// What an entry of the tray's menu leads to.
pub fn tray_chosen(entry: TrayEntry, pet_visible: bool, update_found: bool) -> (r: TrayCommand)
    ensures
        r == (match entry {
            TrayEntry::Toggle => if pet_visible {
                TrayCommand::HidePet
            } else {
                TrayCommand::RecoverPet
            },
            TrayEntry::Settings => TrayCommand::OpenSettings,
            TrayEntry::Update => if update_found {
                TrayCommand::InstallUpdate
            } else {
                TrayCommand::CheckUpdate
            },
            TrayEntry::Quit => TrayCommand::Quit,
        }),
{
    match entry {
        TrayEntry::Toggle => if pet_visible {
            TrayCommand::HidePet
        } else {
            TrayCommand::RecoverPet
        },
        TrayEntry::Settings => TrayCommand::OpenSettings,
        TrayEntry::Update => if update_found {
            TrayCommand::InstallUpdate
        } else {
            TrayCommand::CheckUpdate
        },
        TrayEntry::Quit => TrayCommand::Quit,
    }
}

/// Hiding the panel changes nothing that is not on it: what is known of its
/// focus and its window, and whether it is to come back, stay.
pub proof fn hiding_touches_nothing_else(p: Panel)
    ensures
        p.hidden().got_focus == p.got_focus,
        p.hidden().native_ready == p.native_ready,
        p.hidden().resume_after_settings == p.resume_after_settings,
{
}

/// A panel that makes way for the settings closes its menu and its editor, and
/// keeps its grid and all that is known of its focus and its window.
pub proof fn making_way_closes_menu_and_editor(p: Panel)
    ensures
        p.pinned && p.visible ==> {
            let q = p.made_way();
            &&& !q.visible && q.pinned && q.resume_after_settings
            &&& !q.menu_open && !q.editor_open
            &&& q.grid_open == p.grid_open
            &&& q.got_focus == p.got_focus && q.native_ready == p.native_ready
        },
        !p.pinned || !p.visible ==> p.made_way() == p,
{
}

} // verus!
