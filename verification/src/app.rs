//! The state of the interactive program.
//!
//! Work that leaves the program (files, the firewall, systemd, the network) is
//! asked for: an operation returns a [`Step`](crate::operations::Step), and where
//! that asks for something, the answer is handed to [`App::resume`].

use vstd::prelude::*;

use crate::ping::{latest, PingResult};
use crate::server::{server_views, Server, ServerView};
use crate::settings::{Backend, Settings, SettingsView, SyncReport, SyncReportView};
use crate::systemd::{label_text, status_label};
use crate::text::{
    contains, contains_text, decimal, decimal_text, is_among, lowercase, texts, to_lowercase,
    wide_decimal_text,
};

verus! {

#[derive(Debug, Clone, Copy, PartialEq, Eq, Structural)]
pub enum Screen {
    Servers,
    Settings,
}

#[derive(Debug, Clone, Copy, PartialEq, Eq, Structural)]
pub enum InputMode {
    Normal,
    Filter,
    ApiLogin,
}

/// The rows of the settings screen, from the top.
#[derive(Debug, Clone, Copy, PartialEq, Eq, Structural)]
pub enum SettingsRow {
    Backend,
    Boot,
    Systemd,
    SyncOnStartup,
    ApiLogin,
}

/// The number of rows of the settings screen.
pub const SETTINGS_ROWS: usize = 5;

/// The row at an index of the settings screen.
pub open spec fn settings_row(index: int) -> Option<SettingsRow> {
    if index == 0 {
        Some(SettingsRow::Backend)
    } else if index == 1 {
        Some(SettingsRow::Boot)
    } else if index == 2 {
        Some(SettingsRow::Systemd)
    } else if index == 3 {
        Some(SettingsRow::SyncOnStartup)
    } else if index == 4 {
        Some(SettingsRow::ApiLogin)
    } else {
        None
    }
}

impl SettingsRow {
    /// The row at an index of the settings screen.
    pub fn from_index(index: usize) -> (r: Option<Self>)
        ensures
            r == settings_row(index as int),
            r is Some <==> index < SETTINGS_ROWS,
    {
        match index {
            0 => Some(SettingsRow::Backend),
            1 => Some(SettingsRow::Boot),
            2 => Some(SettingsRow::Systemd),
            3 => Some(SettingsRow::SyncOnStartup),
            4 => Some(SettingsRow::ApiLogin),
            _ => None,
        }
    }
}

/// What the status line shows.
#[derive(Debug, PartialEq, Eq)]
pub enum StatusMessage {
    Info(String),
    Error(String),
}

#[verifier::ext_equal]
pub enum StatusView {
    Info(Seq<char>),
    Error(Seq<char>),
}

impl View for StatusMessage {
    type V = StatusView;

    open spec fn view(&self) -> StatusView {
        match self {
            StatusMessage::Info(text) => StatusView::Info(text@),
            StatusMessage::Error(text) => StatusView::Error(text@),
        }
    }
}

impl Clone for StatusMessage {
    fn clone(&self) -> (r: Self)
        ensures
            r@ == self@,
    {
        match self {
            StatusMessage::Info(text) => StatusMessage::Info(text.clone()),
            StatusMessage::Error(text) => StatusMessage::Error(text.clone()),
        }
    }
}

/// A server in the list, with its mark and what its probe found.
#[derive(Debug, PartialEq, Eq)]
pub struct ServerEntry {
    pub server: Server,
    pub blocked: bool,
    pub ping: Option<PingResult>,
}

#[verifier::ext_equal]
pub struct ServerEntryView {
    pub server: ServerView,
    pub blocked: bool,
    pub ping: Option<PingResult>,
}

impl View for ServerEntry {
    type V = ServerEntryView;

    open spec fn view(&self) -> ServerEntryView {
        ServerEntryView { server: self.server@, blocked: self.blocked, ping: self.ping }
    }
}

impl Clone for ServerEntry {
    fn clone(&self) -> (r: Self)
        ensures
            r@ == self@,
    {
        ServerEntry { server: self.server.clone(), blocked: self.blocked, ping: self.ping }
    }
}

/// The views of the entries of the list.
pub open spec fn row_views(entries: Seq<ServerEntry>) -> Seq<ServerEntryView> {
    Seq::new(entries.len(), |i: int| entries[i]@)
}

/// A probe of servers that is under way.
#[derive(Debug, Clone, Copy, PartialEq, Eq, Structural)]
pub struct PingJob {
    pub total: usize,
    pub completed: usize,
}

/// The scroll position and the selected row of a table.
#[derive(Debug, Clone, Copy, PartialEq, Eq, Structural)]
pub struct TableState {
    pub offset: usize,
    pub selected: Option<usize>,
}

/// What the rest of an operation waits for.
#[derive(Debug, PartialEq, Eq)]
pub enum Pending {
    /// The report of a synchronisation.
    SyncReport,
    /// The tunnel list after a synchronisation with the given report.
    SyncedTunnels { message: String },
    /// The neighbour of the chosen backend.
    BackendChoice,
    /// The settings with another backend being saved.
    BackendSaved,
    /// The backend that the settings resolve to.
    BackendResolved,
    /// Whether the firewall holds rules of that backend.
    BackendProbed,
    /// The settings with the boot setting changed being saved.
    BootSaved,
    /// The path of the program, to bring the unit in line.
    BootLocated,
    /// The state of the unit, to bring it in line.
    BootInspected { binary: String },
    /// The unit being brought in line.
    BootChanged,
    /// The state of the unit after that.
    BootLabelled,
    /// The settings with the startup setting changed being saved.
    StartupSaved,
    /// The settings with another login being saved.
    LoginSaved,
    /// The path of the program, to install the unit.
    UnitLocated,
    /// The unit being installed.
    UnitChanged,
    /// The state of the unit after that.
    UnitLabelled,
    /// The rules of the firewall being set; a probe may follow.
    RulesApplied { count: usize, ping: bool },
    /// The settings with the blocked servers being saved; a probe may follow.
    BlockedSaved { count: usize, ping: bool },
    /// The rules of the firewall being removed.
    RulesCleared,
}

#[verifier::ext_equal]
pub enum PendingView {
    SyncReport,
    SyncedTunnels { message: Seq<char> },
    BackendChoice,
    BackendSaved,
    BackendResolved,
    BackendProbed,
    BootSaved,
    BootLocated,
    BootInspected { binary: Seq<char> },
    BootChanged,
    BootLabelled,
    StartupSaved,
    LoginSaved,
    UnitLocated,
    UnitChanged,
    UnitLabelled,
    RulesApplied { count: usize, ping: bool },
    BlockedSaved { count: usize, ping: bool },
    RulesCleared,
}

impl View for Pending {
    type V = PendingView;

    open spec fn view(&self) -> PendingView {
        match self {
            Pending::SyncReport => PendingView::SyncReport,
            Pending::SyncedTunnels { message } => PendingView::SyncedTunnels { message: message@ },
            Pending::BackendChoice => PendingView::BackendChoice,
            Pending::BackendSaved => PendingView::BackendSaved,
            Pending::BackendResolved => PendingView::BackendResolved,
            Pending::BackendProbed => PendingView::BackendProbed,
            Pending::BootSaved => PendingView::BootSaved,
            Pending::BootLocated => PendingView::BootLocated,
            Pending::BootInspected { binary } => PendingView::BootInspected { binary: binary@ },
            Pending::BootChanged => PendingView::BootChanged,
            Pending::BootLabelled => PendingView::BootLabelled,
            Pending::StartupSaved => PendingView::StartupSaved,
            Pending::LoginSaved => PendingView::LoginSaved,
            Pending::UnitLocated => PendingView::UnitLocated,
            Pending::UnitChanged => PendingView::UnitChanged,
            Pending::UnitLabelled => PendingView::UnitLabelled,
            Pending::RulesApplied { count, ping } => PendingView::RulesApplied {
                count: *count,
                ping: *ping,
            },
            Pending::BlockedSaved { count, ping } => PendingView::BlockedSaved {
                count: *count,
                ping: *ping,
            },
            Pending::RulesCleared => PendingView::RulesCleared,
        }
    }
}

/// The state of the interactive program.
#[derive(Debug, PartialEq, Eq)]
pub struct App {
    pub screen: Screen,
    pub entries: Vec<ServerEntry>,
    pub list_index: usize,
    pub settings_index: usize,
    pub filter: String,
    pub input_mode: InputMode,
    pub backend: Backend,
    pub blocking_active: bool,
    pub pinging: bool,
    pub ping_job: Option<PingJob>,
    pub status_message: Option<StatusMessage>,
    pub settings: Settings,
    pub systemd_status: String,
    pub api_login_draft: String,
    pub table_state: TableState,
    pub settings_table_state: TableState,
    pub pending: Option<Pending>,
}

#[verifier::ext_equal]
pub struct AppView {
    pub screen: Screen,
    pub entries: Seq<ServerEntryView>,
    pub list_index: usize,
    pub settings_index: usize,
    pub filter: Seq<char>,
    pub input_mode: InputMode,
    pub backend: Backend,
    pub blocking_active: bool,
    pub pinging: bool,
    pub ping_job: Option<PingJob>,
    pub status_message: Option<StatusView>,
    pub settings: SettingsView,
    pub systemd_status: Seq<char>,
    pub api_login_draft: Seq<char>,
    pub table_state: TableState,
    pub settings_table_state: TableState,
    pub pending: Option<PendingView>,
}

/// The view of an optional status message.
pub open spec fn status_view(status: Option<StatusMessage>) -> Option<StatusView> {
    match status {
        Some(message) => Some(message@),
        None => None,
    }
}

/// The view of what an operation waits for.
pub open spec fn pending_view(pending: Option<Pending>) -> Option<PendingView> {
    match pending {
        Some(waiting) => Some(waiting@),
        None => None,
    }
}

impl View for App {
    type V = AppView;

    open spec fn view(&self) -> AppView {
        AppView {
            screen: self.screen,
            entries: row_views(self.entries@),
            list_index: self.list_index,
            settings_index: self.settings_index,
            filter: self.filter@,
            input_mode: self.input_mode,
            backend: self.backend,
            blocking_active: self.blocking_active,
            pinging: self.pinging,
            ping_job: self.ping_job,
            status_message: status_view(self.status_message),
            settings: self.settings@,
            systemd_status: self.systemd_status@,
            api_login_draft: self.api_login_draft@,
            table_state: self.table_state,
            settings_table_state: self.settings_table_state,
            pending: pending_view(self.pending),
        }
    }
}

/// The status that shows a text as information.
pub open spec fn info(text: Seq<char>) -> Option<StatusView> {
    Some(StatusView::Info(text))
}

/// Whether the fields of a row hold the needle, which is in lower case, as are
/// all the fields but the address.
pub open spec fn fields_hold(
    needle: Seq<char>,
    name: Seq<char>,
    ip: Seq<char>,
    pool: Seq<char>,
    region: Seq<char>,
) -> bool {
    ||| contains_text(name, needle)
    ||| contains_text(ip, needle)
    ||| contains_text(pool, needle)
    ||| contains_text(region, needle)
}

/// Whether the filter shows the server. Case does not matter.
pub open spec fn shown(server: ServerView, filter: Seq<char>) -> bool {
    filter.len() == 0 || fields_hold(
        lowercase(filter),
        lowercase(server.name),
        server.ip,
        lowercase(server.pool),
        lowercase(server.region),
    )
}

/// The indices of the entries that the filter shows, in order.
pub open spec fn visible(entries: Seq<ServerEntryView>, filter: Seq<char>) -> Seq<int> {
    Seq::new(entries.len(), |i: int| i).filter(|i: int| shown(entries[i].server, filter))
}

/// The indices as integers.
pub open spec fn index_views(indices: Seq<usize>) -> Seq<int> {
    indices.map_values(|i: usize| i as int)
}

/// Whether the fields of a row hold the needle, which is in lower case, as are
/// all the fields but the address.
pub fn row_matches(needle: &str, name: &str, ip: &str, pool: &str, region: &str) -> (r: bool)
    ensures
        r == fields_hold(needle@, name@, ip@, pool@, region@),
{
    contains(name, needle) || contains(ip, needle) || contains(pool, needle) || contains(
        region,
        needle,
    )
}

impl App {
    /// The indices of the entries that the filter shows, in order.
    pub fn visible_indices(&self) -> (r: Vec<usize>)
        ensures
            index_views(r@) == visible(self@.entries, self@.filter),
            forall|k: int| 0 <= k < r@.len() ==> #[trigger] r@[k] < self.entries@.len(),
    {
        let no_filter = self.filter.as_str().is_empty();
        let needle = to_lowercase(self.filter.as_str());
        let ghost all = Seq::new(self.entries@.len(), |i: int| i);
        let ghost keep = |i: int| shown(self@.entries[i].server, self@.filter);
        let mut r: Vec<usize> = Vec::new();
        let mut i: usize = 0;
        reveal(Seq::filter);
        assert(all.take(0) == Seq::<int>::empty());
        assert(index_views(r@) == all.take(0).filter(keep));
        while i < self.entries.len()
            invariant
                i <= self.entries@.len(),
                all == Seq::new(self.entries@.len(), |i: int| i),
                keep == |i: int| shown(self@.entries[i].server, self@.filter),
                no_filter == (self.filter@.len() == 0),
                needle@ == lowercase(self.filter@),
                index_views(r@) == all.take(i as int).filter(keep),
                forall|k: int| 0 <= k < r@.len() ==> #[trigger] r@[k] < self.entries@.len(),
            decreases self.entries.len() - i,
        {
            let server = &self.entries[i].server;
            let show = no_filter || row_matches(
                needle.as_str(),
                to_lowercase(server.name.as_str()).as_str(),
                server.ip.as_str(),
                to_lowercase(server.pool.as_str()).as_str(),
                to_lowercase(server.region.as_str()).as_str(),
            );
            proof {
                reveal(Seq::filter);
                assert(all.take(i + 1).drop_last() == all.take(i as int));
                assert(all.take(i + 1).last() == i as int);
                assert(self@.entries[i as int].server == server@);
                assert(keep(i as int) == show);
            }
            if show {
                let ghost before = index_views(r@);
                r.push(i);
                assert(index_views(r@) == before.push(i as int));
            }
            i += 1;
        }
        assert(all.take(i as int) == all);
        r
    }
}

/// The nearest number between two bounds.
pub open spec fn clamped(x: int, low: int, high: int) -> int {
    if x < low {
        low
    } else if x > high {
        high
    } else {
        x
    }
}

/// The index of the entry that is selected.
pub open spec fn selected(app: AppView) -> Option<int> {
    let shown = visible(app.entries, app.filter);
    if app.list_index < shown.len() {
        Some(shown[app.list_index as int])
    } else {
        None
    }
}

/// The selection moved by `delta` within the rows that are shown.
pub open spec fn moved(app: AppView, delta: int) -> AppView {
    let rows = visible(app.entries, app.filter).len();
    AppView {
        list_index: if rows == 0 {
            0
        } else {
            clamped(app.list_index + delta, 0, rows - 1) as usize
        },
        ..app
    }
}

/// The mark of the selected entry turned over.
pub open spec fn toggled(app: AppView) -> AppView {
    match selected(app) {
        Some(idx) => AppView {
            entries: app.entries.update(
                idx,
                ServerEntryView { blocked: !app.entries[idx].blocked, ..app.entries[idx] },
            ),
            status_message: None,
            ..app
        },
        None => app,
    }
}

/// Whether some entry of the pool is not blocked.
pub open spec fn any_unblocked(entries: Seq<ServerEntryView>, pool: Seq<char>) -> bool {
    exists|i: int|
        0 <= i < entries.len() && (#[trigger] entries[i]).server.pool == pool
            && !entries[i].blocked
}

/// The entries with every entry of the pool marked alike.
pub open spec fn pool_marked(
    entries: Seq<ServerEntryView>,
    pool: Seq<char>,
    blocked: bool,
) -> Seq<ServerEntryView> {
    entries.map_values(
        |e: ServerEntryView|
            if e.server.pool == pool {
                ServerEntryView { blocked, ..e }
            } else {
                e
            },
    )
}

/// The pool of the selected entry blocked, or unblocked where all of it is blocked.
pub open spec fn pool_toggled(app: AppView) -> AppView {
    match selected(app) {
        Some(idx) => {
            let pool = app.entries[idx].server.pool;
            AppView {
                entries: pool_marked(app.entries, pool, any_unblocked(app.entries, pool)),
                ..app
            }
        },
        None => app,
    }
}

/// The list scrolled to its top with the selection shown.
pub open spec fn scroll_reset(app: AppView) -> AppView {
    AppView { table_state: TableState { offset: 0, selected: Some(app.list_index) }, ..app }
}

/// The settings screen opened, on its first row.
pub open spec fn settings_opened(app: AppView, installed: bool, enabled: bool) -> AppView {
    AppView {
        screen: Screen::Settings,
        settings_index: 0,
        input_mode: InputMode::Normal,
        systemd_status: label_text(installed, enabled),
        status_message: None,
        ..app
    }
}

pub open spec fn settings_closed(app: AppView) -> AppView {
    AppView {
        screen: Screen::Servers,
        input_mode: InputMode::Normal,
        status_message: None,
        ..app
    }
}

/// The row of the settings screen moved by `delta`; it stays while a login is edited.
pub open spec fn settings_moved(app: AppView, delta: int) -> AppView {
    if app.input_mode == InputMode::ApiLogin {
        app
    } else {
        AppView {
            settings_index: clamped(app.settings_index + delta, 0, SETTINGS_ROWS - 1) as usize,
            ..app
        }
    }
}

/// Editing the login begins with the one of the settings.
pub open spec fn login_edit_started(app: AppView) -> AppView {
    AppView {
        api_login_draft: app.settings.api_login,
        input_mode: InputMode::ApiLogin,
        status_message: info("логин для address_list"@),
        ..app
    }
}

pub open spec fn login_edit_cancelled(app: AppView) -> AppView {
    AppView {
        input_mode: InputMode::Normal,
        api_login_draft: Seq::empty(),
        status_message: None,
        ..app
    }
}

/// The progress of a probe in words; the share is rounded down.
pub open spec fn progress_text(job: PingJob) -> Seq<char> {
    let whole: nat = if job.total == 0 { 1 } else { job.total as nat };
    "пинг "@ + decimal(job.completed as nat) + "/"@ + decimal(job.total as nat) + " ("@ + decimal(
        job.completed as nat * 100 / whole,
    ) + "%)"@
}

/// The entries with the results that were received for them.
pub open spec fn with_results(
    entries: Seq<ServerEntryView>,
    received: Seq<(usize, PingResult)>,
) -> Seq<ServerEntryView> {
    Seq::new(
        entries.len(),
        |i: int|
            ServerEntryView {
                ping: match latest(received, i) {
                    Some(result) => Some(result),
                    None => entries[i].ping,
                },
                ..entries[i]
            },
    )
}

/// The probe under way taken on by the results that were received. It ends with
/// the last result; until then the status shows the progress.
pub open spec fn polled(app: AppView, received: Seq<(usize, PingResult)>) -> AppView {
    match app.ping_job {
        None => app,
        Some(job) => {
            let entries = with_results(app.entries, received);
            let completed = job.completed + received.len();
            if completed >= job.total {
                AppView {
                    entries,
                    ping_job: None,
                    pinging: false,
                    status_message: info("пинг проверен"@),
                    ..app
                }
            } else {
                let job = PingJob { completed: completed as usize, ..job };
                AppView {
                    entries,
                    ping_job: Some(job),
                    status_message: info(progress_text(job)),
                    ..app
                }
            }
        },
    }
}

/// Whether an entry of that name is blocked.
pub open spec fn was_blocked(entries: Seq<ServerEntryView>, name: Seq<char>) -> bool {
    exists|i: int|
        0 <= i < entries.len() && (#[trigger] entries[i]).server.name == name
            && entries[i].blocked
}

/// The result of the last entry of that name that has one.
pub open spec fn last_ping(entries: Seq<ServerEntryView>, name: Seq<char>) -> Option<PingResult>
    decreases entries.len(),
{
    if entries.len() == 0 {
        None
    } else if entries.last().server.name == name && entries.last().ping is Some {
        entries.last().ping
    } else {
        last_ping(entries.drop_last(), name)
    }
}

/// The entries of the servers, with the marks and the results that entries of
/// the same name had.
pub open spec fn carried_over(
    entries: Seq<ServerEntryView>,
    servers: Seq<ServerView>,
) -> Seq<ServerEntryView> {
    servers.map_values(
        |s: ServerView|
            ServerEntryView {
                server: s,
                blocked: was_blocked(entries, s.name),
                ping: last_ping(entries, s.name),
            },
    )
}

/// The list replaced by the servers; the selection goes to the top where it
/// would be beyond the rows that are shown.
pub open spec fn reloaded(app: AppView, servers: Seq<ServerView>) -> AppView {
    let entries = carried_over(app.entries, servers);
    let rows = visible(entries, app.filter).len();
    let list_index = if app.list_index >= rows && app.list_index >= 1 {
        0
    } else {
        app.list_index
    };
    scroll_reset(AppView { entries, list_index, ..app })
}

/// The entries of the servers, those blocked whose names are.
pub open spec fn marked_entries(
    servers: Seq<ServerView>,
    blocked: Seq<Seq<char>>,
) -> Seq<ServerEntryView> {
    servers.map_values(
        |s: ServerView|
            ServerEntryView { server: s, blocked: blocked.contains(s.name), ping: None },
    )
}

/// The program at its start. The report is that of a synchronisation that
/// succeeded; `active` says whether the firewall holds rules, if it could tell.
pub open spec fn initial(
    settings: SettingsView,
    backend: Backend,
    report: Option<SyncReportView>,
    servers: Seq<ServerView>,
    active: Option<bool>,
    unit: (bool, bool),
) -> AppView {
    AppView {
        screen: Screen::Servers,
        entries: marked_entries(servers, settings.blocked),
        list_index: 0,
        settings_index: 0,
        filter: Seq::empty(),
        input_mode: InputMode::Normal,
        backend,
        blocking_active: active == Some(true),
        pinging: false,
        ping_job: None,
        status_message: match report {
            Some(report) => if settings.sync_on_startup && report.changed {
                info(report.message)
            } else {
                None
            },
            None => None,
        },
        settings,
        systemd_status: label_text(unit.0, unit.1),
        api_login_draft: Seq::empty(),
        table_state: TableState { offset: 0, selected: None },
        settings_table_state: TableState { offset: 0, selected: None },
        pending: None,
    }
}

/// The view of an optional report.
pub open spec fn report_view(report: Option<SyncReport>) -> Option<SyncReportView> {
    match report {
        Some(report) => Some(report@),
        None => None,
    }
}

/// The status line shows an error.
pub open spec fn error_shown(app: AppView, message: Seq<char>) -> AppView {
    AppView { status_message: Some(StatusView::Error(message)), ..app }
}

/// The status line shows the progress of the probe that is under way.
pub open spec fn progress_shown(app: AppView) -> AppView {
    match app.ping_job {
        Some(job) => AppView { status_message: info(progress_text(job)), ..app },
        None => app,
    }
}

/// How many of how many servers have been probed, while a probe is under way.
pub open spec fn progress_of(app: AppView) -> Option<(usize, usize)> {
    match app.ping_job {
        Some(job) => Some((job.completed, job.total)),
        None => None,
    }
}

fn clamp_index(index: usize, delta: i32, rows: usize) -> (r: usize)
    requires
        rows > 0,
    ensures
        r == clamped(index + delta, 0, rows - 1),
{
    let next: i128 = index as i128 + delta as i128;
    if next < 0 {
        0
    } else if next > rows as i128 - 1 {
        rows - 1
    } else {
        next as usize
    }
}

fn progress(job: PingJob) -> (r: String)
    ensures
        r@ == progress_text(job),
{
    let whole: u128 = if job.total == 0 {
        1
    } else {
        job.total as u128
    };
    let share: u128 = job.completed as u128 * 100 / whole;
    let mut r = "пинг ".to_owned();
    r.append(decimal_text(job.completed as u64).as_str());
    r.append("/");
    r.append(decimal_text(job.total as u64).as_str());
    r.append(" (");
    r.append(wide_decimal_text(share).as_str());
    r.append("%)");
    r
}

impl App {
    /// The program at its start.
    pub fn new(
        settings: Settings,
        backend: Backend,
        report: Option<SyncReport>,
        servers: Vec<Server>,
        active: Option<bool>,
        unit: (bool, bool),
    ) -> (r: Self)
        ensures
            r@ == initial(
                settings@,
                backend,
                report_view(report),
                server_views(servers@),
                active,
                unit,
            ),
    {
        let status_message = match report {
            Some(report) => if settings.sync_on_startup && report.changed {
                Some(StatusMessage::Info(report.message))
            } else {
                None
            },
            None => None,
        };
        let mut entries: Vec<ServerEntry> = Vec::new();
        let mut i: usize = 0;
        while i < servers.len()
            invariant
                i <= servers@.len(),
                entries@.len() == i,
                forall|k: int|
                    0 <= k < i ==> (#[trigger] entries@[k])@ == (ServerEntryView {
                        server: servers@[k]@,
                        blocked: texts(settings.blocked@).contains(servers@[k].name@),
                        ping: None,
                    }),
            decreases servers.len() - i,
        {
            let blocked = is_among(&settings.blocked, servers[i].name.as_str());
            entries.push(ServerEntry { server: servers[i].clone(), blocked, ping: None });
            i += 1;
        }
        let blocking_active = match active {
            Some(active) => active,
            None => false,
        };
        let r = App {
            screen: Screen::Servers,
            entries,
            list_index: 0,
            settings_index: 0,
            filter: String::new(),
            input_mode: InputMode::Normal,
            backend,
            blocking_active,
            pinging: false,
            ping_job: None,
            status_message,
            settings,
            systemd_status: status_label(unit.0, unit.1),
            api_login_draft: String::new(),
            table_state: TableState { offset: 0, selected: None },
            settings_table_state: TableState { offset: 0, selected: None },
            pending: None,
        };
        assert(r@.entries == marked_entries(server_views(servers@), settings@.blocked));
        r
    }

    /// Scrolls the list to its top and shows the selection.
    pub fn reset_list_scroll(&mut self)
        ensures
            final(self)@ == scroll_reset(old(self)@),
    {
        self.table_state.offset = 0;
        self.table_state.selected = Some(self.list_index);
    }

    /// Opens the settings screen. The arguments say whether the unit is installed
    /// and enabled.
    pub fn open_settings(&mut self, installed: bool, enabled: bool)
        ensures
            final(self)@ == settings_opened(old(self)@, installed, enabled),
    {
        self.screen = Screen::Settings;
        self.settings_index = 0;
        self.input_mode = InputMode::Normal;
        self.systemd_status = status_label(installed, enabled);
        self.status_message = None;
    }

    /// Goes back to the list of servers.
    pub fn close_settings(&mut self)
        ensures
            final(self)@ == settings_closed(old(self)@),
    {
        self.screen = Screen::Servers;
        self.input_mode = InputMode::Normal;
        self.status_message = None;
    }

    /// Moves the row of the settings screen.
    pub fn move_settings_selection(&mut self, delta: i32)
        ensures
            final(self)@ == settings_moved(old(self)@, delta as int),
    {
        if self.input_mode == InputMode::ApiLogin {
            return;
        }
        self.settings_index = clamp_index(self.settings_index, delta, SETTINGS_ROWS);
    }

    /// Begins to edit the login.
    pub fn start_api_login_edit(&mut self)
        ensures
            final(self)@ == login_edit_started(old(self)@),
    {
        self.api_login_draft = self.settings.api_login.clone();
        self.input_mode = InputMode::ApiLogin;
        self.status_message = Some(StatusMessage::Info("логин для address_list".to_owned()));
    }

    /// Gives up editing the login.
    pub fn cancel_api_login_edit(&mut self)
        ensures
            final(self)@ == login_edit_cancelled(old(self)@),
    {
        self.input_mode = InputMode::Normal;
        self.api_login_draft = String::new();
        self.status_message = None;
    }

    /// Shows an error in the status line.
    pub fn show_error(&mut self, message: String)
        ensures
            final(self)@ == (AppView {
                status_message: Some(StatusView::Error(message@)),
                ..old(self)@
            }),
            final(self)@ == error_shown(old(self)@, message@),
    {
        self.status_message = Some(StatusMessage::Error(message));
    }

    /// The index of the entry that is selected.
    pub fn selected_server_index(&self) -> (r: Option<usize>)
        ensures
            match r {
                Some(idx) => selected(self@) == Some(idx as int) && idx < self.entries@.len(),
                None => selected(self@) is None,
            },
    {
        let shown = self.visible_indices();
        proof {
            assert(index_views(shown@).len() == shown@.len());
        }
        if self.list_index < shown.len() {
            proof {
                assert(index_views(shown@)[self.list_index as int]
                    == shown@[self.list_index as int] as int);
            }
            Some(shown[self.list_index])
        } else {
            None
        }
    }

    /// Moves the selection within the rows that are shown.
    pub fn move_selection(&mut self, delta: i32)
        ensures
            final(self)@ == moved(old(self)@, delta as int),
    {
        let shown = self.visible_indices();
        proof {
            assert(index_views(shown@).len() == shown@.len());
        }
        if shown.len() == 0 {
            self.list_index = 0;
            return;
        }
        self.list_index = clamp_index(self.list_index, delta, shown.len());
    }

    fn set_blocked(&mut self, idx: usize, blocked: bool)
        requires
            idx < old(self).entries@.len(),
        ensures
            final(self)@ == (AppView {
                entries: old(self)@.entries.update(
                    idx as int,
                    ServerEntryView { blocked, ..old(self)@.entries[idx as int] },
                ),
                ..old(self)@
            }),
            final(self).entries@.len() == old(self).entries@.len(),
    {
        self.entries[idx].blocked = blocked;
        assert(self@.entries == old(self)@.entries.update(
            idx as int,
            ServerEntryView { blocked, ..old(self)@.entries[idx as int] },
        ));
    }

    fn set_ping(&mut self, idx: usize, result: PingResult)
        requires
            idx < old(self).entries@.len(),
        ensures
            final(self)@ == (AppView {
                entries: old(self)@.entries.update(
                    idx as int,
                    ServerEntryView { ping: Some(result), ..old(self)@.entries[idx as int] },
                ),
                ..old(self)@
            }),
            final(self).entries@.len() == old(self).entries@.len(),
    {
        self.entries[idx].ping = Some(result);
        assert(self@.entries == old(self)@.entries.update(
            idx as int,
            ServerEntryView { ping: Some(result), ..old(self)@.entries[idx as int] },
        ));
    }

    /// Turns over the mark of the selected entry.
    pub fn toggle_selected(&mut self)
        ensures
            final(self)@ == toggled(old(self)@),
    {
        if let Some(idx) = self.selected_server_index() {
            let blocked = self.entries[idx].blocked;
            self.set_blocked(idx, !blocked);
            self.status_message = None;
        }
    }

    /// Blocks the pool of the selected entry, or unblocks it where all of it is
    /// blocked.
    pub fn toggle_pool(&mut self)
        ensures
            final(self)@ == pool_toggled(old(self)@),
    {
        let idx: usize = match self.selected_server_index() {
            Some(idx) => idx,
            None => {
                return;
            },
        };
        let pool = self.entries[idx].server.pool.clone();
        let ghost before = self@;
        let mut any = false;
        let mut i: usize = 0;
        while i < self.entries.len()
            invariant
                self@ == before,
                i <= self.entries@.len(),
                any == exists|k: int|
                    0 <= k < i && (#[trigger] before.entries[k]).server.pool == pool@
                        && !before.entries[k].blocked,
            decreases self.entries.len() - i,
        {
            assert(before.entries[i as int] == self.entries@[i as int]@);
            if self.entries[i].server.pool == pool && !self.entries[i].blocked {
                any = true;
            }
            i += 1;
        }
        let ghost marked = pool_marked(before.entries, pool@, any);
        assert(any == any_unblocked(before.entries, pool@));
        let mut j: usize = 0;
        while j < self.entries.len()
            invariant
                self@ == (AppView { entries: self@.entries, ..before }),
                j <= self.entries@.len(),
                marked == pool_marked(before.entries, pool@, any),
                self@.entries.len() == before.entries.len(),
                forall|k: int| 0 <= k < j ==> #[trigger] self@.entries[k] == marked[k],
                forall|k: int|
                    j <= k < before.entries.len() ==> #[trigger] self@.entries[k]
                        == before.entries[k],
            decreases self.entries.len() - j,
        {
            assert(self@.entries[j as int] == self.entries@[j as int]@);
            if self.entries[j].server.pool == pool {
                self.set_blocked(j, any);
            }
            j += 1;
        }
        assert(self@.entries == marked);
    }

    /// How many of how many servers have been probed, while a probe is under way.
    pub fn ping_progress(&self) -> (r: Option<(usize, usize)>)
        ensures
            r == (match self@.ping_job {
                Some(job) => Some((job.completed, job.total)),
                None => None,
            }),
            r == progress_of(self@),
    {
        match self.ping_job {
            Some(job) => Some((job.completed, job.total)),
            None => None,
        }
    }

    /// Takes the probe under way on by the results that were received.
    pub fn poll_ping(&mut self, received: &Vec<(usize, PingResult)>)
        requires
            old(self).ping_job matches Some(job) ==> job.completed + received.len() <= usize::MAX,
        ensures
            final(self)@ == polled(old(self)@, received@),
    {
        let job = match self.ping_job {
            Some(job) => job,
            None => {
                return;
            },
        };
        let ghost before = self@;
        let mut k: usize = 0;
        assert(received@.take(0) == Seq::<(usize, PingResult)>::empty());
        assert(self@.entries == with_results(before.entries, received@.take(0)));
        while k < received.len()
            invariant
                self@ == (AppView { entries: self@.entries, ..before }),
                k <= received@.len(),
                self@.entries == with_results(before.entries, received@.take(k as int)),
            decreases received.len() - k,
        {
            let (idx, result) = received[k];
            assert(received@.take(k + 1).drop_last() == received@.take(k as int));
            if idx < self.entries.len() {
                self.set_ping(idx, result);
            }
            assert(self@.entries == with_results(before.entries, received@.take(k + 1)));
            k += 1;
        }
        assert(received@.take(k as int) == received@);
        let completed: usize = job.completed + received.len();
        if completed >= job.total {
            self.ping_job = None;
            self.pinging = false;
            self.status_message = Some(StatusMessage::Info("пинг проверен".to_owned()));
        } else {
            let job = PingJob { total: job.total, completed };
            self.ping_job = Some(job);
            self.update_ping_status();
        }
    }

    /// Shows the progress of the probe that is under way.
    pub fn update_ping_status(&mut self)
        ensures
            final(self)@ == (match old(self)@.ping_job {
                Some(job) => AppView { status_message: info(progress_text(job)), ..old(self)@ },
                None => old(self)@,
            }),
            final(self)@ == progress_shown(old(self)@),
    {
        match self.ping_job {
            Some(job) => {
                self.status_message = Some(StatusMessage::Info(progress(job)));
            },
            None => {},
        }
    }

    /// Replaces the list by the servers, keeping marks and results by name.
    pub fn reload_servers(&mut self, servers: Vec<Server>)
        ensures
            final(self)@ == reloaded(old(self)@, server_views(servers@)),
    {
        let ghost before = self@;
        let mut entries: Vec<ServerEntry> = Vec::new();
        let mut i: usize = 0;
        while i < servers.len()
            invariant
                self@ == before,
                i <= servers@.len(),
                entries@.len() == i,
                forall|k: int|
                    0 <= k < i ==> (#[trigger] entries@[k])@ == (ServerEntryView {
                        server: servers@[k]@,
                        blocked: was_blocked(before.entries, servers@[k].name@),
                        ping: last_ping(before.entries, servers@[k].name@),
                    }),
            decreases servers.len() - i,
        {
            let (blocked, ping) = self.carried(&servers[i].name);
            entries.push(ServerEntry { server: servers[i].clone(), blocked, ping });
            i += 1;
        }
        self.entries = entries;
        assert(self@.entries == carried_over(before.entries, server_views(servers@)));
        let shown = self.visible_indices();
        assert(index_views(shown@).len() == shown@.len());
        if self.list_index >= shown.len() && self.list_index >= 1 {
            self.list_index = 0;
        }
        self.reset_list_scroll();
    }

    /// The mark and the result that entries of that name have.
    fn carried(&self, name: &String) -> (r: (bool, Option<PingResult>))
        ensures
            r.0 == was_blocked(self@.entries, name@),
            r.1 == last_ping(self@.entries, name@),
    {
        let mut blocked = false;
        let mut ping: Option<PingResult> = None;
        let mut i: usize = 0;
        let ghost all = self@.entries;
        assert(all.take(0) == Seq::<ServerEntryView>::empty());
        while i < self.entries.len()
            invariant
                i <= self.entries@.len(),
                all == self@.entries,
                blocked == exists|k: int|
                    0 <= k < i && (#[trigger] all[k]).server.name == name@ && all[k].blocked,
                ping == last_ping(all.take(i as int), name@),
            decreases self.entries.len() - i,
        {
            assert(all.take(i + 1).drop_last() == all.take(i as int));
            assert(all.take(i + 1).last() == self.entries@[i as int]@);
            assert(all[i as int] == self.entries@[i as int]@);
            if self.entries[i].server.name == *name {
                if self.entries[i].blocked {
                    blocked = true;
                }
                match self.entries[i].ping {
                    Some(result) => {
                        ping = Some(result);
                    },
                    None => {},
                }
            }
            i += 1;
        }
        assert(all.take(i as int) == all);
        (blocked, ping)
    }
}

} // verus!
