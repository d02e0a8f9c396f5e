//! The settings of the program, and what a synchronisation reports.

use vstd::prelude::*;

use crate::text::texts;

verus! {

/// A firewall backend, by the number under which the firewall knows it.
#[derive(Debug, Clone, Copy, PartialEq, Eq, Structural)]
pub struct Backend {
    pub id: u32,
}

/// The choice of a backend in the settings, with the label that it is shown by.
#[derive(Debug, PartialEq, Eq)]
pub struct BackendChoice {
    pub id: u32,
    pub label: String,
}

#[verifier::ext_equal]
pub struct BackendChoiceView {
    pub id: u32,
    pub label: Seq<char>,
}

impl View for BackendChoice {
    type V = BackendChoiceView;

    open spec fn view(&self) -> BackendChoiceView {
        BackendChoiceView { id: self.id, label: self.label@ }
    }
}

/// The settings of the program.
#[derive(Debug, PartialEq, Eq)]
pub struct Settings {
    pub backend: BackendChoice,
    pub apply_on_boot: bool,
    pub sync_on_startup: bool,
    pub api_login: String,
    /// The names of the servers that are blocked.
    pub blocked: Vec<String>,
}

#[verifier::ext_equal]
pub struct SettingsView {
    pub backend: BackendChoiceView,
    pub apply_on_boot: bool,
    pub sync_on_startup: bool,
    pub api_login: Seq<char>,
    pub blocked: Seq<Seq<char>>,
}

impl View for Settings {
    type V = SettingsView;

    open spec fn view(&self) -> SettingsView {
        SettingsView {
            backend: self.backend@,
            apply_on_boot: self.apply_on_boot,
            sync_on_startup: self.sync_on_startup,
            api_login: self.api_login@,
            blocked: texts(self.blocked@),
        }
    }
}

/// What a synchronisation of the tunnel list reports.
#[derive(Debug, PartialEq, Eq)]
pub struct SyncReport {
    /// Whether the list changed.
    pub changed: bool,
    /// The report in words.
    pub message: String,
}

#[verifier::ext_equal]
pub struct SyncReportView {
    pub changed: bool,
    pub message: Seq<char>,
}

impl View for SyncReport {
    type V = SyncReportView;

    open spec fn view(&self) -> SyncReportView {
        SyncReportView { changed: self.changed, message: self.message@ }
    }
}

} // verus!
