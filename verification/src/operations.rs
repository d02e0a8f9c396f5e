//! The operations of the program that ask for work outside it.

use vstd::prelude::*;

use crate::app::{
    index_views, info, login_edit_started, progress_text, reloaded, settings_row, visible, App,
    AppView, InputMode, Pending, PendingView, PingJob, ServerEntryView, SettingsRow, StatusMessage,
};
use crate::server::{
    lemma_server_list, load_servers_from_entries, server_list, server_views, Server, ServerView,
};
use crate::settings::{
    Backend, BackendChoice, BackendChoiceView, Settings, SettingsView, SyncReport, SyncReportView,
};
use crate::systemd::{
    boot_steps, enable, enable_steps, install_steps, install_unit, label_text, status_label,
    step_views, sync_boot, UnitStep, UnitStepView,
};
use crate::text::{decimal, decimal_text, texts, trim, trimmed};
use crate::tunnels::{entry_views, parse_list, parse_tunnel_entries, tunnel_error_text};

verus! {

/// Work outside the program that an operation asks for.
#[derive(Debug, PartialEq, Eq)]
pub enum Request {
    /// Synchronise the tunnel list under the login.
    RunSync { login: String },
    /// Read the tunnel list.
    ReadTunnels,
    /// Tell the next backend after the chosen one, or the one before.
    NeighbourBackend { forward: bool },
    /// Save the settings.
    SaveSettings,
    /// Tell the backend that the settings resolve to.
    ResolveBackend,
    /// Tell whether the firewall holds rules of the backend.
    ProbeFirewall { backend: Backend },
    /// Tell the path of the program.
    LocateBinary,
    /// Tell the state of the unit.
    InspectUnit,
    /// Change the unit.
    ChangeUnit { steps: Vec<UnitStep> },
    /// Block the addresses, and no others.
    ApplyRules { backend: Backend, ips: Vec<String> },
    /// Block no address.
    ClearRules { backend: Backend },
}

#[verifier::ext_equal]
pub enum RequestView {
    RunSync { login: Seq<char> },
    ReadTunnels,
    NeighbourBackend { forward: bool },
    SaveSettings,
    ResolveBackend,
    ProbeFirewall { backend: Backend },
    LocateBinary,
    InspectUnit,
    ChangeUnit { steps: Seq<UnitStepView> },
    ApplyRules { backend: Backend, ips: Seq<Seq<char>> },
    ClearRules { backend: Backend },
}

impl View for Request {
    type V = RequestView;

    open spec fn view(&self) -> RequestView {
        match self {
            Request::RunSync { login } => RequestView::RunSync { login: login@ },
            Request::ReadTunnels => RequestView::ReadTunnels,
            Request::NeighbourBackend { forward } => RequestView::NeighbourBackend {
                forward: *forward,
            },
            Request::SaveSettings => RequestView::SaveSettings,
            Request::ResolveBackend => RequestView::ResolveBackend,
            Request::ProbeFirewall { backend } => RequestView::ProbeFirewall { backend: *backend },
            Request::LocateBinary => RequestView::LocateBinary,
            Request::InspectUnit => RequestView::InspectUnit,
            Request::ChangeUnit { steps } => RequestView::ChangeUnit { steps: step_views(steps@) },
            Request::ApplyRules { backend, ips } => RequestView::ApplyRules {
                backend: *backend,
                ips: texts(ips@),
            },
            Request::ClearRules { backend } => RequestView::ClearRules { backend: *backend },
        }
    }
}

/// The answer to a request.
#[derive(Debug, PartialEq, Eq)]
pub enum Reply {
    /// The work is done.
    Done,
    /// The work failed.
    Failed { message: String },
    Report(SyncReport),
    Tunnels { content: String },
    Choice(BackendChoice),
    Backend(Backend),
    Active(bool),
    Binary { path: String },
    Unit { installed: bool, enabled: bool },
}

#[verifier::ext_equal]
pub enum ReplyView {
    Done,
    Failed { message: Seq<char> },
    Report(SyncReportView),
    Tunnels { content: Seq<char> },
    Choice(BackendChoiceView),
    Backend(Backend),
    Active(bool),
    Binary { path: Seq<char> },
    Unit { installed: bool, enabled: bool },
}

impl View for Reply {
    type V = ReplyView;

    open spec fn view(&self) -> ReplyView {
        match self {
            Reply::Done => ReplyView::Done,
            Reply::Failed { message } => ReplyView::Failed { message: message@ },
            Reply::Report(report) => ReplyView::Report(report@),
            Reply::Tunnels { content } => ReplyView::Tunnels { content: content@ },
            Reply::Choice(choice) => ReplyView::Choice(choice@),
            Reply::Backend(backend) => ReplyView::Backend(*backend),
            Reply::Active(active) => ReplyView::Active(*active),
            Reply::Binary { path } => ReplyView::Binary { path: path@ },
            Reply::Unit { installed, enabled } => ReplyView::Unit {
                installed: *installed,
                enabled: *enabled,
            },
        }
    }
}

/// How an operation goes on.
#[derive(Debug, PartialEq, Eq)]
pub enum Step {
    /// It is over.
    Finished,
    /// It is over and failed.
    Failed { message: String },
    /// It waits for the answer to a request.
    Ask(Request),
    /// It is over, and the servers are to be probed, each under its index.
    Probe { items: Vec<(usize, Server)> },
    /// The reply answers nothing that was asked, and nothing changed.
    Ignored,
}

#[verifier::ext_equal]
pub enum StepView {
    Finished,
    Failed { message: Seq<char> },
    Ask(RequestView),
    Probe { items: Seq<(int, ServerView)> },
    Ignored,
}

/// The views of the servers to be probed.
pub open spec fn item_views(items: Seq<(usize, Server)>) -> Seq<(int, ServerView)> {
    Seq::new(items.len(), |i: int| (items[i].0 as int, items[i].1@))
}

impl View for Step {
    type V = StepView;

    open spec fn view(&self) -> StepView {
        match self {
            Step::Finished => StepView::Finished,
            Step::Failed { message } => StepView::Failed { message: message@ },
            Step::Ask(request) => StepView::Ask(request@),
            Step::Probe { items } => StepView::Probe { items: item_views(items@) },
            Step::Ignored => StepView::Ignored,
        }
    }
}

/// The operation waits for the answer to a request.
pub open spec fn asked(app: AppView, pending: PendingView, request: RequestView) -> (
    AppView,
    StepView,
) {
    (AppView { pending: Some(pending), ..app }, StepView::Ask(request))
}

/// The entries that are blocked, in their order.
pub open spec fn blocked_entries(entries: Seq<ServerEntryView>) -> Seq<ServerEntryView> {
    entries.filter(|e: ServerEntryView| e.blocked)
}

/// The addresses of the entries that are blocked.
pub open spec fn blocked_ips(entries: Seq<ServerEntryView>) -> Seq<Seq<char>> {
    blocked_entries(entries).map_values(|e: ServerEntryView| e.server.ip)
}

/// The names of the entries that are blocked.
pub open spec fn blocked_names(entries: Seq<ServerEntryView>) -> Seq<Seq<char>> {
    blocked_entries(entries).map_values(|e: ServerEntryView| e.server.name)
}

/// The synchronisation that the settings want at the start, if any.
pub open spec fn startup_request(settings: SettingsView) -> Option<RequestView> {
    if settings.sync_on_startup {
        Some(RequestView::RunSync { login: settings.api_login })
    } else {
        None
    }
}

pub open spec fn sync_started(app: AppView) -> (AppView, StepView) {
    asked(app, PendingView::SyncReport, RequestView::RunSync { login: app.settings.api_login })
}

pub open spec fn backend_cycle_started(app: AppView, forward: bool) -> (AppView, StepView) {
    asked(app, PendingView::BackendChoice, RequestView::NeighbourBackend { forward })
}

pub open spec fn boot_toggled(app: AppView) -> (AppView, StepView) {
    let settings = SettingsView { apply_on_boot: !app.settings.apply_on_boot, ..app.settings };
    asked(AppView { settings, ..app }, PendingView::BootSaved, RequestView::SaveSettings)
}

pub open spec fn startup_toggled(app: AppView) -> (AppView, StepView) {
    let settings = SettingsView { sync_on_startup: !app.settings.sync_on_startup, ..app.settings };
    asked(AppView { settings, ..app }, PendingView::StartupSaved, RequestView::SaveSettings)
}

/// The draft of the login, trimmed, is saved; an empty one is refused.
pub open spec fn login_saved(app: AppView) -> (AppView, StepView) {
    let login = trimmed(app.api_login_draft);
    if login.len() == 0 {
        (app, StepView::Failed { message: "логин не может быть пустым"@ })
    } else {
        let settings = SettingsView { api_login: login, ..app.settings };
        asked(AppView { settings, ..app }, PendingView::LoginSaved, RequestView::SaveSettings)
    }
}

pub open spec fn install_started(app: AppView) -> (AppView, StepView) {
    asked(app, PendingView::UnitLocated, RequestView::LocateBinary)
}

/// The row of the settings screen that is selected is acted on.
pub open spec fn row_activated(app: AppView) -> (AppView, StepView) {
    match settings_row(app.settings_index as int) {
        Some(SettingsRow::Backend) => backend_cycle_started(app, true),
        Some(SettingsRow::Boot) => boot_toggled(app),
        Some(SettingsRow::Systemd) => install_started(app),
        Some(SettingsRow::SyncOnStartup) => startup_toggled(app),
        Some(SettingsRow::ApiLogin) => (login_edit_started(app), StepView::Finished),
        None => (app, StepView::Finished),
    }
}

/// The addresses of the blocked entries are handed to the firewall.
pub open spec fn apply_started(app: AppView, ping: bool) -> (AppView, StepView) {
    let ips = blocked_ips(app.entries);
    asked(
        app,
        PendingView::RulesApplied { count: ips.len() as usize, ping },
        RequestView::ApplyRules { backend: app.backend, ips },
    )
}

pub open spec fn clear_started(app: AppView) -> (AppView, StepView) {
    asked(app, PendingView::RulesCleared, RequestView::ClearRules { backend: app.backend })
}

/// The servers that are shown, each under its index.
pub open spec fn probe_items(app: AppView) -> Seq<(int, ServerView)> {
    visible(app.entries, app.filter).map_values(|i: int| (i, app.entries[i].server))
}

/// A probe of the servers that are shown begins, if any are.
pub open spec fn probe_begun(app: AppView) -> (AppView, StepView) {
    let items = probe_items(app);
    if items.len() == 0 {
        (app, StepView::Finished)
    } else {
        let job = PingJob { total: items.len() as usize, completed: 0 };
        (
            AppView {
                ping_job: Some(job),
                pinging: true,
                status_message: info(progress_text(job)),
                ..app
            },
            StepView::Probe { items },
        )
    }
}

/// A probe is asked for: not a second one, and where servers are blocked, the
/// rules are set first.
pub open spec fn ping_started(app: AppView) -> (AppView, StepView) {
    if app.pinging {
        (app, StepView::Finished)
    } else if app.blocking_active {
        apply_started(app, true)
    } else {
        probe_begun(app)
    }
}

/// The backend cycle after the firewall was looked at.
pub open spec fn backend_probed(app: AppView, active: bool) -> (AppView, StepView) {
    (
        AppView {
            blocking_active: active,
            status_message: info("бэкенд: "@ + app.settings.backend.label),
            ..app
        },
        StepView::Finished,
    )
}

pub open spec fn boot_message(apply_on_boot: bool) -> Seq<char> {
    if apply_on_boot {
        "автоприменение при загрузке включено"@
    } else {
        "автоприменение при загрузке выключено"@
    }
}

pub open spec fn startup_message(sync_on_startup: bool) -> Seq<char> {
    if sync_on_startup {
        "автосинк при старте включён"@
    } else {
        "автосинк при старте выключен"@
    }
}

/// The steps that install the unit, and enable it where it is wanted at boot.
pub open spec fn unit_steps(app: AppView, binary: Seq<char>) -> Seq<UnitStepView> {
    if app.settings.apply_on_boot {
        install_steps(binary) + enable_steps()
    } else {
        install_steps(binary)
    }
}

/// The blocked servers were saved.
pub open spec fn blocked_saved(app: AppView, count: usize, ping: bool) -> (AppView, StepView) {
    let app = AppView {
        blocking_active: count > 0,
        status_message: info("заблокировано серверов: "@ + decimal(count as nat)),
        ..app
    };
    if ping {
        probe_begun(app)
    } else {
        (app, StepView::Finished)
    }
}

/// A synchronisation reported.
pub open spec fn sync_reported(app: AppView, report: SyncReportView) -> (AppView, StepView) {
    if report.changed {
        asked(
            app,
            PendingView::SyncedTunnels { message: report.message },
            RequestView::ReadTunnels,
        )
    } else {
        (AppView { status_message: info(report.message), ..app }, StepView::Finished)
    }
}

/// The tunnel list was read after a synchronisation.
pub open spec fn tunnels_synced(app: AppView, message: Seq<char>, content: Seq<char>) -> (
    AppView,
    StepView,
) {
    match parse_list(content) {
        Ok(entries) => (
            AppView { status_message: info(message), ..reloaded(app, server_list(entries)) },
            StepView::Finished,
        ),
        Err(error) => (app, StepView::Failed { message: tunnel_error_text(error) }),
    }
}

/// How the operation that waits goes on with the reply. A failure ends it, except
/// that a firewall that cannot tell counts as without rules. A reply that does
/// not answer what was asked is ignored.
pub open spec fn resumed(app: AppView, reply: ReplyView) -> (AppView, StepView) {
    let base = AppView { pending: None, ..app };
    match (app.pending, reply) {
        (Some(PendingView::BackendProbed), ReplyView::Failed { .. }) => backend_probed(base, false),
        (Some(PendingView::BackendProbed), ReplyView::Active(active)) => backend_probed(
            base,
            active,
        ),
        (Some(PendingView::SyncReport), ReplyView::Report(report)) => sync_reported(base, report),
        (
            Some(PendingView::SyncedTunnels { message }),
            ReplyView::Tunnels { content },
        ) => tunnels_synced(base, message, content),
        (Some(PendingView::BackendChoice), ReplyView::Choice(backend)) => asked(
            AppView { settings: SettingsView { backend, ..base.settings }, ..base },
            PendingView::BackendSaved,
            RequestView::SaveSettings,
        ),
        (Some(PendingView::BackendSaved), ReplyView::Done) => asked(
            base,
            PendingView::BackendResolved,
            RequestView::ResolveBackend,
        ),
        (Some(PendingView::BackendResolved), ReplyView::Backend(backend)) => asked(
            AppView { backend, ..base },
            PendingView::BackendProbed,
            RequestView::ProbeFirewall { backend },
        ),
        (Some(PendingView::BootSaved), ReplyView::Done) => asked(
            base,
            PendingView::BootLocated,
            RequestView::LocateBinary,
        ),
        (Some(PendingView::BootLocated), ReplyView::Binary { path }) => asked(
            base,
            PendingView::BootInspected { binary: path },
            RequestView::InspectUnit,
        ),
        (
            Some(PendingView::BootInspected { binary }),
            ReplyView::Unit { installed, .. },
        ) => asked(
            base,
            PendingView::BootChanged,
            RequestView::ChangeUnit {
                steps: boot_steps(base.settings.apply_on_boot, installed, binary),
            },
        ),
        (Some(PendingView::BootChanged), ReplyView::Done) => asked(
            base,
            PendingView::BootLabelled,
            RequestView::InspectUnit,
        ),
        (Some(PendingView::BootLabelled), ReplyView::Unit { installed, enabled }) => (
            AppView {
                systemd_status: label_text(installed, enabled),
                status_message: info(boot_message(base.settings.apply_on_boot)),
                ..base
            },
            StepView::Finished,
        ),
        (Some(PendingView::StartupSaved), ReplyView::Done) => (
            AppView {
                status_message: info(startup_message(base.settings.sync_on_startup)),
                ..base
            },
            StepView::Finished,
        ),
        (Some(PendingView::LoginSaved), ReplyView::Done) => (
            AppView {
                input_mode: InputMode::Normal,
                status_message: info("логин API: "@ + base.settings.api_login),
                ..base
            },
            StepView::Finished,
        ),
        (Some(PendingView::UnitLocated), ReplyView::Binary { path }) => asked(
            base,
            PendingView::UnitChanged,
            RequestView::ChangeUnit { steps: unit_steps(base, path) },
        ),
        (Some(PendingView::UnitChanged), ReplyView::Done) => asked(
            base,
            PendingView::UnitLabelled,
            RequestView::InspectUnit,
        ),
        (Some(PendingView::UnitLabelled), ReplyView::Unit { installed, enabled }) => (
            AppView {
                systemd_status: label_text(installed, enabled),
                status_message: info("unit systemd установлен"@),
                ..base
            },
            StepView::Finished,
        ),
        (Some(PendingView::RulesApplied { count, ping }), ReplyView::Done) => asked(
            AppView {
                settings: SettingsView { blocked: blocked_names(base.entries), ..base.settings },
                ..base
            },
            PendingView::BlockedSaved { count, ping },
            RequestView::SaveSettings,
        ),
        (Some(PendingView::BlockedSaved { count, ping }), ReplyView::Done) => blocked_saved(
            base,
            count,
            ping,
        ),
        (Some(PendingView::RulesCleared), ReplyView::Done) => (
            AppView {
                blocking_active: false,
                status_message: info("блокировка снята"@),
                ..base
            },
            StepView::Finished,
        ),
        (Some(pending), ReplyView::Failed { message }) => if can_fail(pending) {
            (base, StepView::Failed { message })
        } else {
            (app, StepView::Ignored)
        },
        _ => (app, StepView::Ignored),
    }
}

/// Whether what is waited for can fail: the neighbour of a backend and the state
/// of the unit can always be told.
pub open spec fn can_fail(pending: PendingView) -> bool {
    match pending {
        PendingView::BackendChoice => false,
        PendingView::BootInspected { .. } => false,
        PendingView::BootLabelled => false,
        PendingView::UnitLabelled => false,
        _ => true,
    }
}

impl App {
    /// The addresses of the entries that are blocked.
    fn ips_to_block(&self) -> (r: Vec<String>)
        ensures
            texts(r@) == blocked_ips(self@.entries),
    {
        let mut r: Vec<String> = Vec::new();
        let mut i: usize = 0;
        let ghost all = self@.entries;
        reveal(Seq::filter);
        assert(all.take(0) == Seq::<ServerEntryView>::empty());
        assert(texts(r@) == blocked_ips(all.take(0)));
        while i < self.entries.len()
            invariant
                i <= self.entries@.len(),
                all == self@.entries,
                texts(r@) == blocked_ips(all.take(i as int)),
            decreases self.entries.len() - i,
        {
            let ghost view = self.entries@[i as int]@;
            let ghost kept = blocked_entries(all.take(i as int));
            proof {
                reveal(Seq::filter);
                assert(all.take(i + 1).drop_last() == all.take(i as int));
                assert(all.take(i + 1).last() == view);
            }
            if self.entries[i].blocked {
                let ghost before = texts(r@);
                r.push(self.entries[i].server.ip.clone());
                proof {
                    assert(blocked_entries(all.take(i + 1)) == kept.push(view));
                    assert(blocked_ips(all.take(i + 1)) == before.push(view.server.ip));
                    assert(texts(r@) == before.push(view.server.ip));
                }
            }
            i += 1;
        }
        assert(all.take(i as int) == all);
        r
    }

    /// The names of the entries that are blocked.
    fn names_to_block(&self) -> (r: Vec<String>)
        ensures
            texts(r@) == blocked_names(self@.entries),
    {
        let mut r: Vec<String> = Vec::new();
        let mut i: usize = 0;
        let ghost all = self@.entries;
        reveal(Seq::filter);
        assert(all.take(0) == Seq::<ServerEntryView>::empty());
        assert(texts(r@) == blocked_names(all.take(0)));
        while i < self.entries.len()
            invariant
                i <= self.entries@.len(),
                all == self@.entries,
                texts(r@) == blocked_names(all.take(i as int)),
            decreases self.entries.len() - i,
        {
            let ghost view = self.entries@[i as int]@;
            let ghost kept = blocked_entries(all.take(i as int));
            proof {
                reveal(Seq::filter);
                assert(all.take(i + 1).drop_last() == all.take(i as int));
                assert(all.take(i + 1).last() == view);
            }
            if self.entries[i].blocked {
                let ghost before = texts(r@);
                r.push(self.entries[i].server.name.clone());
                proof {
                    assert(blocked_entries(all.take(i + 1)) == kept.push(view));
                    assert(blocked_names(all.take(i + 1)) == before.push(view.server.name));
                    assert(texts(r@) == before.push(view.server.name));
                }
            }
            i += 1;
        }
        assert(all.take(i as int) == all);
        r
    }

    fn ask(&mut self, pending: Pending, request: Request) -> (r: Step)
        ensures
            (final(self)@, r@) == asked(old(self)@, pending@, request@),
    {
        self.pending = Some(pending);
        Step::Ask(request)
    }

    /// A synchronisation under the login of the settings.
    fn run_sync(settings: &Settings) -> (r: Request)
        ensures
            r@ == (RequestView::RunSync { login: settings@.api_login }),
    {
        Request::RunSync { login: settings.api_login.clone() }
    }

    /// The synchronisation that the settings want at the start, if any. Its report
    /// is handed to [`App::new`]; one that fails has none.
    pub fn startup_sync(settings: &Settings) -> (r: Option<Request>)
        ensures
            match r {
                Some(request) => settings.sync_on_startup && request@ == (RequestView::RunSync {
                    login: settings@.api_login,
                }),
                None => !settings.sync_on_startup,
            },
            startup_request(settings@) == (match r {
                Some(request) => Some(request@),
                None => None,
            }),
    {
        if settings.sync_on_startup {
            Some(Self::run_sync(settings))
        } else {
            None
        }
    }

    /// Synchronises the tunnel list.
    pub fn sync_servers(&mut self) -> (r: Step)
        ensures
            (final(self)@, r@) == sync_started(old(self)@),
    {
        let request = Self::run_sync(&self.settings);
        self.ask(Pending::SyncReport, request)
    }

    /// Goes to the next backend, or to the one before.
    pub fn cycle_backend(&mut self, forward: bool) -> (r: Step)
        ensures
            (final(self)@, r@) == backend_cycle_started(old(self)@, forward),
    {
        self.ask(Pending::BackendChoice, Request::NeighbourBackend { forward })
    }

    /// Turns over whether the block is applied at boot.
    pub fn toggle_apply_on_boot(&mut self) -> (r: Step)
        ensures
            (final(self)@, r@) == boot_toggled(old(self)@),
    {
        self.settings.apply_on_boot = !self.settings.apply_on_boot;
        self.ask(Pending::BootSaved, Request::SaveSettings)
    }

    /// Turns over whether the tunnel list is synchronised at the start.
    pub fn toggle_sync_on_startup(&mut self) -> (r: Step)
        ensures
            (final(self)@, r@) == startup_toggled(old(self)@),
    {
        self.settings.sync_on_startup = !self.settings.sync_on_startup;
        self.ask(Pending::StartupSaved, Request::SaveSettings)
    }

    /// Saves the login that was edited.
    pub fn save_api_login(&mut self) -> (r: Step)
        ensures
            (final(self)@, r@) == login_saved(old(self)@),
    {
        let login = trim(self.api_login_draft.as_str()).to_owned();
        if login.as_str().is_empty() {
            return Step::Failed { message: "логин не может быть пустым".to_owned() };
        }
        self.settings.api_login = login;
        self.ask(Pending::LoginSaved, Request::SaveSettings)
    }

    /// Installs the unit.
    pub fn install_systemd(&mut self) -> (r: Step)
        ensures
            (final(self)@, r@) == install_started(old(self)@),
    {
        self.ask(Pending::UnitLocated, Request::LocateBinary)
    }

    /// Acts on the row of the settings screen that is selected.
    pub fn activate_settings_row(&mut self) -> (r: Step)
        ensures
            (final(self)@, r@) == row_activated(old(self)@),
    {
        match SettingsRow::from_index(self.settings_index) {
            Some(SettingsRow::Backend) => self.cycle_backend(true),
            Some(SettingsRow::Boot) => self.toggle_apply_on_boot(),
            Some(SettingsRow::Systemd) => self.install_systemd(),
            Some(SettingsRow::SyncOnStartup) => self.toggle_sync_on_startup(),
            Some(SettingsRow::ApiLogin) => {
                self.start_api_login_edit();
                Step::Finished
            },
            None => Step::Finished,
        }
    }

    /// Blocks the servers that are marked, and no others.
    pub fn apply_blocking(&mut self) -> (r: Step)
        ensures
            (final(self)@, r@) == apply_started(old(self)@, false),
    {
        self.apply_then(false)
    }

    fn apply_then(&mut self, ping: bool) -> (r: Step)
        ensures
            (final(self)@, r@) == apply_started(old(self)@, ping),
    {
        let ips = self.ips_to_block();
        let count: usize = ips.len();
        let backend = self.backend;
        assert(texts(ips@).len() == count);
        self.ask(Pending::RulesApplied { count, ping }, Request::ApplyRules { backend, ips })
    }

    /// Unblocks all servers; their marks stay.
    pub fn clear_blocking(&mut self) -> (r: Step)
        ensures
            (final(self)@, r@) == clear_started(old(self)@),
    {
        let backend = self.backend;
        self.ask(Pending::RulesCleared, Request::ClearRules { backend })
    }

    /// Probes the servers that are shown.
    pub fn start_ping(&mut self) -> (r: Step)
        ensures
            (final(self)@, r@) == ping_started(old(self)@),
    {
        if self.pinging {
            return Step::Finished;
        }
        if self.blocking_active {
            return self.apply_then(true);
        }
        self.begin_probe()
    }

    fn begin_probe(&mut self) -> (r: Step)
        ensures
            (final(self)@, r@) == probe_begun(old(self)@),
    {
        let indices = self.visible_indices();
        let ghost before = self@;
        let mut items: Vec<(usize, Server)> = Vec::new();
        let mut k: usize = 0;
        assert(index_views(indices@).len() == indices@.len());
        while k < indices.len()
            invariant
                self@ == before,
                index_views(indices@) == visible(before.entries, before.filter),
                forall|j: int| 0 <= j < indices@.len() ==> #[trigger] indices@[j]
                    < self.entries@.len(),
                k <= indices@.len(),
                items@.len() == k,
                forall|j: int|
                    0 <= j < k ==> (#[trigger] items@[j]).0 == indices@[j] && items@[j].1@
                        == before.entries[indices@[j] as int].server,
            decreases indices.len() - k,
        {
            let idx: usize = indices[k];
            assert(before.entries[idx as int] == self.entries@[idx as int]@);
            items.push((idx, self.entries[idx].server.clone()));
            k += 1;
        }
        proof {
            let wanted = probe_items(before);
            assert forall|j: int| 0 <= j < wanted.len() implies #[trigger] item_views(items@)[j]
                == wanted[j] by {
                assert(index_views(indices@)[j] == indices@[j] as int);
                assert(items@[j].0 == indices@[j]);
            }
            assert(item_views(items@) == wanted);
        }
        if items.len() == 0 {
            return Step::Finished;
        }
        let job = PingJob { total: items.len(), completed: 0 };
        self.ping_job = Some(job);
        self.pinging = true;
        self.update_ping_status();
        Step::Probe { items }
    }

    fn end_backend_cycle(&mut self, active: bool) -> (r: Step)
        ensures
            (final(self)@, r@) == backend_probed(old(self)@, active),
    {
        self.blocking_active = active;
        let mut text = "бэкенд: ".to_owned();
        text.append(self.settings.backend.label.as_str());
        self.status_message = Some(StatusMessage::Info(text));
        Step::Finished
    }

    fn take_report(&mut self, report: SyncReport) -> (r: Step)
        ensures
            (final(self)@, r@) == sync_reported(old(self)@, report@),
    {
        if report.changed {
            return self.ask(
                Pending::SyncedTunnels { message: report.message },
                Request::ReadTunnels,
            );
        }
        self.status_message = Some(StatusMessage::Info(report.message));
        Step::Finished
    }

    fn take_tunnels(&mut self, message: String, content: String) -> (r: Step)
        ensures
            (final(self)@, r@) == tunnels_synced(old(self)@, message@, content@),
    {
        match parse_tunnel_entries(content.as_str()) {
            Ok(entries) => {
                let ghost views = entry_views(entries@);
                let servers = load_servers_from_entries(entries);
                proof {
                    lemma_server_list(views, server_views(servers@));
                }
                self.reload_servers(servers);
                self.status_message = Some(StatusMessage::Info(message));
                Step::Finished
            },
            Err(error) => Step::Failed { message: error.message() },
        }
    }

    fn end_boot_toggle(&mut self, installed: bool, enabled: bool) -> (r: Step)
        ensures
            final(self)@ == (AppView {
                systemd_status: label_text(installed, enabled),
                status_message: info(boot_message(old(self)@.settings.apply_on_boot)),
                ..old(self)@
            }),
            r@ == StepView::Finished,
    {
        self.systemd_status = status_label(installed, enabled);
        let text = if self.settings.apply_on_boot {
            "автоприменение при загрузке включено"
        } else {
            "автоприменение при загрузке выключено"
        };
        self.status_message = Some(StatusMessage::Info(text.to_owned()));
        Step::Finished
    }

    fn end_startup_toggle(&mut self) -> (r: Step)
        ensures
            final(self)@ == (AppView {
                status_message: info(startup_message(old(self)@.settings.sync_on_startup)),
                ..old(self)@
            }),
            r@ == StepView::Finished,
    {
        let text = if self.settings.sync_on_startup {
            "автосинк при старте включён"
        } else {
            "автосинк при старте выключен"
        };
        self.status_message = Some(StatusMessage::Info(text.to_owned()));
        Step::Finished
    }

    fn end_login_edit(&mut self) -> (r: Step)
        ensures
            final(self)@ == (AppView {
                input_mode: InputMode::Normal,
                status_message: info("логин API: "@ + old(self)@.settings.api_login),
                ..old(self)@
            }),
            r@ == StepView::Finished,
    {
        self.input_mode = InputMode::Normal;
        let mut text = "логин API: ".to_owned();
        text.append(self.settings.api_login.as_str());
        self.status_message = Some(StatusMessage::Info(text));
        Step::Finished
    }

    fn change_unit(&mut self, path: String) -> (r: Step)
        ensures
            (final(self)@, r@) == asked(
                old(self)@,
                PendingView::UnitChanged,
                RequestView::ChangeUnit { steps: unit_steps(old(self)@, path@) },
            ),
    {
        let mut steps = install_unit(path.as_str());
        if self.settings.apply_on_boot {
            let mut more = enable();
            let ghost first = step_views(steps@);
            let ghost second = step_views(more@);
            steps.append(&mut more);
            assert(step_views(steps@) == first + second);
        }
        self.ask(Pending::UnitChanged, Request::ChangeUnit { steps })
    }

    fn end_unit_install(&mut self, installed: bool, enabled: bool) -> (r: Step)
        ensures
            final(self)@ == (AppView {
                systemd_status: label_text(installed, enabled),
                status_message: info("unit systemd установлен"@),
                ..old(self)@
            }),
            r@ == StepView::Finished,
    {
        self.systemd_status = status_label(installed, enabled);
        self.status_message = Some(StatusMessage::Info("unit systemd установлен".to_owned()));
        Step::Finished
    }

    fn end_apply(&mut self, count: usize, ping: bool) -> (r: Step)
        ensures
            (final(self)@, r@) == blocked_saved(old(self)@, count, ping),
    {
        self.blocking_active = count > 0;
        let mut text = "заблокировано серверов: ".to_owned();
        text.append(decimal_text(count as u64).as_str());
        self.status_message = Some(StatusMessage::Info(text));
        if ping {
            self.begin_probe()
        } else {
            Step::Finished
        }
    }

    /// Hands the operation that waits the reply to what it asked for.
    pub fn resume(&mut self, reply: Reply) -> (r: Step)
        ensures
            (final(self)@, r@) == resumed(old(self)@, reply@),
    {
        let pending = match self.pending.take() {
            Some(pending) => pending,
            None => {
                return Step::Ignored;
            },
        };
        match (pending, reply) {
            (Pending::BackendProbed, Reply::Failed { message: _ }) => self.end_backend_cycle(false),
            (Pending::BackendProbed, Reply::Active(active)) => self.end_backend_cycle(active),
            (Pending::SyncReport, Reply::Report(report)) => self.take_report(report),
            (Pending::SyncedTunnels { message }, Reply::Tunnels { content }) => self.take_tunnels(
                message,
                content,
            ),
            (Pending::BackendChoice, Reply::Choice(backend)) => {
                self.settings.backend = backend;
                self.ask(Pending::BackendSaved, Request::SaveSettings)
            },
            (Pending::BackendSaved, Reply::Done) => self.ask(
                Pending::BackendResolved,
                Request::ResolveBackend,
            ),
            (Pending::BackendResolved, Reply::Backend(backend)) => {
                self.backend = backend;
                self.ask(Pending::BackendProbed, Request::ProbeFirewall { backend })
            },
            (Pending::BootSaved, Reply::Done) => self.ask(
                Pending::BootLocated,
                Request::LocateBinary,
            ),
            (Pending::BootLocated, Reply::Binary { path }) => self.ask(
                Pending::BootInspected { binary: path },
                Request::InspectUnit,
            ),
            (Pending::BootInspected { binary }, Reply::Unit { installed, enabled: _ }) => {
                let steps = sync_boot(self.settings.apply_on_boot, installed, binary.as_str());
                self.ask(Pending::BootChanged, Request::ChangeUnit { steps })
            },
            (Pending::BootChanged, Reply::Done) => self.ask(
                Pending::BootLabelled,
                Request::InspectUnit,
            ),
            (Pending::BootLabelled, Reply::Unit { installed, enabled }) => self.end_boot_toggle(
                installed,
                enabled,
            ),
            (Pending::StartupSaved, Reply::Done) => self.end_startup_toggle(),
            (Pending::LoginSaved, Reply::Done) => self.end_login_edit(),
            (Pending::UnitLocated, Reply::Binary { path }) => self.change_unit(path),
            (Pending::UnitChanged, Reply::Done) => self.ask(
                Pending::UnitLabelled,
                Request::InspectUnit,
            ),
            (Pending::UnitLabelled, Reply::Unit { installed, enabled }) => self.end_unit_install(
                installed,
                enabled,
            ),
            (Pending::RulesApplied { count, ping }, Reply::Done) => {
                self.settings.blocked = self.names_to_block();
                self.ask(Pending::BlockedSaved { count, ping }, Request::SaveSettings)
            },
            (Pending::BlockedSaved { count, ping }, Reply::Done) => self.end_apply(count, ping),
            (Pending::RulesCleared, Reply::Done) => {
                self.blocking_active = false;
                self.status_message = Some(StatusMessage::Info("блокировка снята".to_owned()));
                Step::Finished
            },
            (pending, Reply::Failed { message }) => {
                if failing(&pending) {
                    Step::Failed { message }
                } else {
                    self.pending = Some(pending);
                    Step::Ignored
                }
            },
            (pending, _) => {
                self.pending = Some(pending);
                Step::Ignored
            },
        }
    }
}

fn failing(pending: &Pending) -> (r: bool)
    ensures
        r == can_fail(pending@),
{
    match pending {
        Pending::BackendChoice => false,
        Pending::BootInspected { binary: _ } => false,
        Pending::BootLabelled => false,
        Pending::UnitLabelled => false,
        _ => true,
    }
}

} // verus!
