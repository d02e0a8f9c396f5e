//! What the operations of the program ask for, and what they come to.

use vstd::prelude::*;

use crate::app::{
    info, login_edit_started, progress_text, shown, visible, AppView, InputMode, PendingView,
    PingJob, ServerEntryView,
};
use crate::app_laws::servers_of;
use crate::command_laws::{switches, unit_follows_the_setting};
use crate::list_laws::{
    reload_keeps_results_by_name, reload_shows_the_servers, selected_entry_is_in_the_row,
};
use crate::operations::{
    apply_started, backend_cycle_started, blocked_entries, boot_toggled, clear_started,
    install_started, login_saved, ping_started, probe_items, resumed, row_activated,
    startup_request, startup_toggled, sync_started, Reply, ReplyView, Request, RequestView, Step,
    StepView,
};
use crate::picks::{increasing, lemma_filter_places};
use crate::server::server_list;
use crate::settings::{Backend, BackendChoiceView, SettingsView, SyncReportView};
use crate::systemd::{install_steps, label_text, step_views, unit_text, UnitStepView};
use crate::text::{decimal, texts, trimmed};
use crate::tunnels::{parse_list, tunnel_error_text, TunnelEntryView, TunnelErrorView};

verus! {

proof fn lemma_blocked_places(entries: Seq<ServerEntryView>) -> (at: Seq<int>)
    ensures
        increasing(at),
        at.len() == blocked_entries(entries).len(),
        at.len() <= entries.len(),
        forall|k: int|
            0 <= k < at.len() ==> 0 <= #[trigger] at[k] < entries.len()
                && blocked_entries(entries)[k] == entries[at[k]],
        forall|i: int| #[trigger] at.contains(i) <==> 0 <= i < entries.len() && entries[i].blocked,
{
    let keep = |e: ServerEntryView| e.blocked;
    let at = lemma_filter_places(entries, keep);
    entries.lemma_filter_len(keep);
    assert(blocked_entries(entries) == entries.filter(keep));
    assert forall|k: int| 0 <= k < at.len() implies 0 <= #[trigger] at[k] < entries.len()
        && blocked_entries(entries)[k] == entries[at[k]] by {
        assert(entries.filter(keep)[k] == entries[at[k]]);
    }
    assert forall|i: int| #[trigger]
        at.contains(i) <==> 0 <= i < entries.len() && entries[i].blocked by {
        assert(keep(entries[i]) == entries[i].blocked);
    }
    at
}

/// Whether a step asks the firewall for exactly the addresses of the blocked
/// entries, which stand at the given places, in order, by the given backend.
pub open spec fn asks_to_block(
    step: StepView,
    entries: Seq<ServerEntryView>,
    at: Seq<int>,
    backend: Backend,
) -> bool {
    &&& increasing(at)
    &&& forall|i: int| #[trigger] at.contains(i) <==> 0 <= i < entries.len() && entries[i].blocked
    &&& step matches StepView::Ask(RequestView::ApplyRules { backend: asked, ips }) && {
        &&& asked == backend
        &&& ips.len() == at.len()
        &&& forall|k: int| 0 <= k < at.len() ==> #[trigger] ips[k] == entries[at[k]].server.ip
    }
}

/// Applying begins by asking the firewall, by the current backend, for exactly the
/// addresses of the blocked entries, in order; it changes nothing yet, and keeps
/// in mind how many addresses it asked for.
pub proof fn applying_asks_for_the_blocked(app: AppView, ping: bool) -> (at: Seq<int>)
    requires
        app.entries.len() <= usize::MAX,
    ensures
        asks_to_block(apply_started(app, ping).1, app.entries, at, app.backend),
        apply_started(app, ping).0 == (AppView {
            pending: Some(PendingView::RulesApplied { count: at.len() as usize, ping }),
            ..app
        }),
        at.len() <= usize::MAX,
{
    let at = lemma_blocked_places(app.entries);
    let ips = apply_started(app, ping).1->Ask_0->ApplyRules_ips;
    assert forall|k: int| 0 <= k < at.len() implies #[trigger] ips[k]
        == app.entries[at[k]].server.ip by {
        assert(blocked_entries(app.entries)[k] == app.entries[at[k]]);
    }
    at
}

/// What is blocked does not depend on the filter, the selection, the screen or
/// anything else but the entries and the backend.
pub proof fn block_depends_on_the_entries_only(app: AppView, other: AppView, ping: bool)
    requires
        app.entries == other.entries,
        app.backend == other.backend,
    ensures
        apply_started(app, ping).1 == apply_started(other, ping).1,
{
}

/// Once the rules are set, the names of the blocked entries are stored, all of them
/// in order, and no other setting changes.
pub proof fn set_rules_store_the_names(app: AppView, count: usize, ping: bool) -> (at: Seq<int>)
    requires
        app.pending == Some(PendingView::RulesApplied { count, ping }),
    ensures
        ({
            let (after, step) = resumed(app, ReplyView::Done);
            &&& step == StepView::Ask(RequestView::SaveSettings)
            &&& after == (AppView {
                settings: SettingsView { blocked: after.settings.blocked, ..app.settings },
                pending: Some(PendingView::BlockedSaved { count, ping }),
                ..app
            })
            &&& increasing(at)
            &&& forall|i: int| #[trigger]
                at.contains(i) <==> 0 <= i < app.entries.len() && app.entries[i].blocked
            &&& after.settings.blocked.len() == at.len()
            &&& forall|k: int|
                0 <= k < at.len() ==> #[trigger] after.settings.blocked[k]
                    == app.entries[at[k]].server.name
        }),
{
    let at = lemma_blocked_places(app.entries);
    let (after, step) = resumed(app, ReplyView::Done);
    assert forall|k: int| 0 <= k < at.len() implies #[trigger] after.settings.blocked[k]
        == app.entries[at[k]].server.name by {
        assert(blocked_entries(app.entries)[k] == app.entries[at[k]]);
    }
    at
}

/// Once the names are saved, the block counts as active where any address was
/// asked for, the status tells how many were, and nothing else changes.
pub proof fn saved_names_end_the_block(app: AppView, count: usize)
    requires
        app.pending == Some(PendingView::BlockedSaved { count, ping: false }),
    ensures
        resumed(app, ReplyView::Done) == (
            AppView {
                blocking_active: count > 0,
                status_message: info("заблокировано серверов: "@ + decimal(count as nat)),
                pending: None,
                ..app
            },
            StepView::Finished,
        ),
{
}

/// From beginning to end, the number of blocked servers that is reported is the
/// number of addresses that the firewall was asked for, and of names stored.
pub proof fn reported_count_is_what_was_asked_for(app: AppView)
    requires
        app.entries.len() <= usize::MAX,
    ensures
        ({
            let (started, asked) = apply_started(app, false);
            let (stored, _) = resumed(started, ReplyView::Done);
            let (after, step) = resumed(stored, ReplyView::Done);
            &&& asked matches StepView::Ask(RequestView::ApplyRules { ips, .. }) && {
                &&& after.status_message == info("заблокировано серверов: "@ + decimal(ips.len()))
                &&& after.settings.blocked.len() == ips.len()
                &&& after.blocking_active <==> ips.len() > 0
            }
            &&& step == StepView::Finished
        }),
{
    let at = applying_asks_for_the_blocked(app, false);
}

/// Whether a step probes exactly the entries that are shown, which stand at the
/// given places, each once, under its index and with its server.
pub open spec fn probes_the_rows(step: StepView, app: AppView, at: Seq<int>) -> bool {
    &&& increasing(at)
    &&& forall|i: int| #[trigger]
        at.contains(i) <==> 0 <= i < app.entries.len() && shown(app.entries[i].server, app.filter)
    &&& step matches StepView::Probe { items } && {
        &&& items.len() == at.len()
        &&& forall|k: int|
            0 <= k < at.len() ==> (#[trigger] items[k]).0 == at[k] && items[k].1
                == app.entries[at[k]].server
    }
}

proof fn lemma_probe(app: AppView) -> (at: Seq<int>)
    ensures
        increasing(at),
        at == visible(app.entries, app.filter),
        at.len() <= app.entries.len(),
        forall|i: int| #[trigger]
            at.contains(i) <==> 0 <= i < app.entries.len() && shown(
                app.entries[i].server,
                app.filter,
            ),
        probe_items(app).len() == at.len(),
        forall|k: int|
            0 <= k < at.len() ==> (#[trigger] probe_items(app)[k]).0 == at[k] && probe_items(
                app,
            )[k].1 == app.entries[at[k]].server,
{
    Seq::new(app.entries.len(), |i: int| i).lemma_filter_len(
        |i: int| shown(app.entries[i].server, app.filter),
    );
    selected_entry_is_in_the_row(app)
}

/// A probe that begins covers every server that is shown, each once and under its
/// index, however many there are, and awaits as many results; it changes nothing
/// but the progress. Where no server is shown, nothing begins.
pub proof fn probe_covers_the_rows(app: AppView) -> (at: Seq<int>)
    requires
        !app.pinging,
        !app.blocking_active,
        app.entries.len() <= usize::MAX,
    ensures
        forall|i: int| #[trigger]
            at.contains(i) <==> 0 <= i < app.entries.len() && shown(
                app.entries[i].server,
                app.filter,
            ),
        at.len() == 0 ==> ping_started(app) == (app, StepView::Finished),
        at.len() > 0 ==> {
            let (after, step) = ping_started(app);
            let job = PingJob { total: at.len() as usize, completed: 0 };
            &&& probes_the_rows(step, app, at)
            &&& job.total == at.len()
            &&& after == (AppView {
                ping_job: Some(job),
                pinging: true,
                status_message: info(progress_text(job)),
                ..app
            })
        },
{
    lemma_probe(app)
}

/// Where servers are blocked, a probe is preceded by setting the rules just as
/// applying does; once they are set and saved, it covers every server that is
/// shown, as it would have otherwise.
pub proof fn probe_follows_the_block(app: AppView, count: usize) -> (at: Seq<int>)
    requires
        app.entries.len() <= usize::MAX,
    ensures
        !app.pinging && app.blocking_active ==> ping_started(app) == apply_started(app, true),
        forall|i: int| #[trigger]
            at.contains(i) <==> 0 <= i < app.entries.len() && shown(
                app.entries[i].server,
                app.filter,
            ),
        app.pending == Some(PendingView::BlockedSaved { count, ping: true }) ==> {
            let (after, step) = resumed(app, ReplyView::Done);
            let job = PingJob { total: at.len() as usize, completed: 0 };
            &&& at.len() == 0 ==> step == StepView::Finished && after == (AppView {
                blocking_active: count > 0,
                status_message: info("заблокировано серверов: "@ + decimal(count as nat)),
                pending: None,
                ..app
            })
            &&& at.len() > 0 ==> {
                &&& probes_the_rows(step, app, at)
                &&& job.total == at.len()
                &&& after == (AppView {
                    blocking_active: count > 0,
                    ping_job: Some(job),
                    pinging: true,
                    status_message: info(progress_text(job)),
                    pending: None,
                    ..app
                })
            }
        },
{
    let other = AppView {
        blocking_active: count > 0,
        status_message: info("заблокировано серверов: "@ + decimal(count as nat)),
        pending: None,
        ..app
    };
    let at = lemma_probe(app);
    let same = lemma_probe(other);
    at
}

/// Removing the block asks for that by the current backend; once it is done the
/// block is not active, and nothing else changes.
pub proof fn clearing_ends_the_block(app: AppView)
    ensures
        clear_started(app) == (
            AppView { pending: Some(PendingView::RulesCleared), ..app },
            StepView::Ask(RequestView::ClearRules { backend: app.backend }),
        ),
        app.pending == Some(PendingView::RulesCleared) ==> resumed(app, ReplyView::Done) == (
            AppView {
                blocking_active: false,
                status_message: info("блокировка снята"@),
                pending: None,
                ..app
            },
            StepView::Finished,
        ),
{
}

/// A synchronisation runs under the login of the settings, at the start too, where
/// the settings want one. A report without changes is shown and changes nothing
/// else; one with changes has the tunnel list read.
pub proof fn synchronisation_runs_under_the_login(app: AppView, report: SyncReportView)
    ensures
        sync_started(app) == (
            AppView { pending: Some(PendingView::SyncReport), ..app },
            StepView::Ask(RequestView::RunSync { login: app.settings.api_login }),
        ),
        startup_request(app.settings) is Some <==> app.settings.sync_on_startup,
        startup_request(app.settings) matches Some(request) ==> StepView::Ask(request)
            == sync_started(app).1,
        app.pending == Some(PendingView::SyncReport) && !report.changed ==> resumed(
            app,
            ReplyView::Report(report),
        ) == (
            AppView { status_message: info(report.message), pending: None, ..app },
            StepView::Finished,
        ),
        app.pending == Some(PendingView::SyncReport) && report.changed ==> resumed(
            app,
            ReplyView::Report(report),
        ) == (
            AppView {
                pending: Some(PendingView::SyncedTunnels { message: report.message }),
                ..app
            },
            StepView::Ask(RequestView::ReadTunnels),
        ),
{
}

/// After a synchronisation with changes whose tunnel list was accepted, the list
/// shows exactly the servers of that list, in order and however many there are,
/// blocked where one of their name was; the status shows the report, and nothing
/// but the row changes besides.
pub proof fn synchronised_list_is_shown(
    app: AppView,
    message: Seq<char>,
    content: Seq<char>,
    entries: Seq<TunnelEntryView>,
)
    requires
        app.pending == Some(PendingView::SyncedTunnels { message }),
        parse_list(content) == Ok::<Seq<TunnelEntryView>, TunnelErrorView>(entries),
    ensures
        ({
            let (after, step) = resumed(app, ReplyView::Tunnels { content });
            let servers = server_list(entries);
            &&& step == StepView::Finished
            &&& servers_of(after.entries) == servers
            &&& after.entries.len() == servers.len()
            &&& forall|i: int|
                0 <= i < servers.len() ==> (#[trigger] after.entries[i]).server == servers[i]
            &&& forall|i: int|
                0 <= i < servers.len() ==> ((#[trigger] after.entries[i]).blocked <==> exists|j: int|
                    0 <= j < app.entries.len() && (#[trigger] app.entries[j]).server.name
                        == servers[i].name && app.entries[j].blocked)
            &&& after.status_message == info(message)
            &&& after == (AppView {
                entries: after.entries,
                list_index: after.list_index,
                table_state: after.table_state,
                status_message: after.status_message,
                pending: None,
                ..app
            })
        }),
{
    let servers = server_list(entries);
    let base = AppView { pending: None, ..app };
    reload_shows_the_servers(base, servers);
    let (after, step) = resumed(app, ReplyView::Tunnels { content });
    assert(servers_of(after.entries) =~= servers);
}

/// A synchronisation keeps the results of probes by name: a server has the result
/// of the last entry of its name that had one.
pub proof fn synchronised_list_keeps_results(
    app: AppView,
    message: Seq<char>,
    content: Seq<char>,
    entries: Seq<TunnelEntryView>,
    i: int,
) -> (k: int)
    requires
        app.pending == Some(PendingView::SyncedTunnels { message }),
        parse_list(content) == Ok::<Seq<TunnelEntryView>, TunnelErrorView>(entries),
        0 <= i < server_list(entries).len(),
    ensures
        ({
            let ping = resumed(app, ReplyView::Tunnels { content }).0.entries[i].ping;
            let name = server_list(entries)[i].name;
            &&& ping is None ==> forall|j: int|
                0 <= j < app.entries.len() && (#[trigger] app.entries[j]).server.name == name
                    ==> app.entries[j].ping is None
            &&& ping is Some ==> {
                &&& 0 <= k < app.entries.len()
                &&& app.entries[k].server.name == name
                &&& app.entries[k].ping == ping
                &&& forall|j: int|
                    k < j < app.entries.len() && (#[trigger] app.entries[j]).server.name == name
                        ==> app.entries[j].ping is None
            }
        }),
{
    reload_keeps_results_by_name(AppView { pending: None, ..app }, server_list(entries), i)
}

/// A tunnel list that is refused after a synchronisation ends it with the reason,
/// and changes nothing.
pub proof fn refused_list_changes_nothing(
    app: AppView,
    message: Seq<char>,
    content: Seq<char>,
    error: TunnelErrorView,
)
    requires
        app.pending == Some(PendingView::SyncedTunnels { message }),
        parse_list(content) == Err::<Seq<TunnelEntryView>, TunnelErrorView>(error),
    ensures
        resumed(app, ReplyView::Tunnels { content }) == (
            AppView { pending: None, ..app },
            StepView::Failed { message: tunnel_error_text(error) },
        ),
{
}

/// Going to another backend asks for the neighbour of the chosen one, in the
/// direction that is wanted, saves it as the only change to the settings, resolves
/// it, and looks at its rules, which alone then tell whether the block is active.
pub proof fn backend_is_chosen_saved_and_looked_at(
    app: AppView,
    forward: bool,
    choice: BackendChoiceView,
    backend: Backend,
    active: bool,
)
    ensures
        backend_cycle_started(app, forward) == (
            AppView { pending: Some(PendingView::BackendChoice), ..app },
            StepView::Ask(RequestView::NeighbourBackend { forward }),
        ),
        app.pending == Some(PendingView::BackendChoice) ==> resumed(app, ReplyView::Choice(choice))
            == (
            AppView {
                settings: SettingsView { backend: choice, ..app.settings },
                pending: Some(PendingView::BackendSaved),
                ..app
            },
            StepView::Ask(RequestView::SaveSettings),
        ),
        app.pending == Some(PendingView::BackendSaved) ==> resumed(app, ReplyView::Done) == (
            AppView { pending: Some(PendingView::BackendResolved), ..app },
            StepView::Ask(RequestView::ResolveBackend),
        ),
        app.pending == Some(PendingView::BackendResolved) ==> resumed(
            app,
            ReplyView::Backend(backend),
        ) == (
            AppView { backend, pending: Some(PendingView::BackendProbed), ..app },
            StepView::Ask(RequestView::ProbeFirewall { backend }),
        ),
        app.pending == Some(PendingView::BackendProbed) ==> resumed(app, ReplyView::Active(active))
            == (
            AppView {
                blocking_active: active,
                status_message: info("бэкенд: "@ + app.settings.backend.label),
                pending: None,
                ..app
            },
            StepView::Finished,
        ),
{
}

/// A firewall that cannot tell counts as one without rules.
pub proof fn silent_firewall_has_no_rules(app: AppView, message: Seq<char>)
    requires
        app.pending == Some(PendingView::BackendProbed),
    ensures
        resumed(app, ReplyView::Failed { message }) == resumed(app, ReplyView::Active(false)),
{
}

/// Turning the block at boot over changes that setting and no other, and saves it;
/// then the program is located and the state of the unit is looked at.
pub proof fn boot_setting_is_turned_over(app: AppView, path: Seq<char>)
    ensures
        ({
            let (after, step) = boot_toggled(app);
            &&& step == StepView::Ask(RequestView::SaveSettings)
            &&& after.settings.apply_on_boot != app.settings.apply_on_boot
            &&& after == (AppView {
                settings: SettingsView {
                    apply_on_boot: after.settings.apply_on_boot,
                    ..app.settings
                },
                pending: Some(PendingView::BootSaved),
                ..app
            })
        }),
        app.pending == Some(PendingView::BootSaved) ==> resumed(app, ReplyView::Done) == (
            AppView { pending: Some(PendingView::BootLocated), ..app },
            StepView::Ask(RequestView::LocateBinary),
        ),
        app.pending == Some(PendingView::BootLocated) ==> resumed(app, ReplyView::Binary { path })
            == (
            AppView { pending: Some(PendingView::BootInspected { binary: path }), ..app },
            StepView::Ask(RequestView::InspectUnit),
        ),
{
}

/// When the state of the unit is told during a change of the boot setting, the
/// steps that are asked for end with enabling the service wherever the setting is
/// now on, installed or not, after writing the unit for the program where it is
/// not; they disable the service only where the setting is off and the unit is
/// installed, and are none where it is off and the unit is not installed.
pub proof fn told_unit_follows_the_setting(
    app: AppView,
    binary: Seq<char>,
    installed: bool,
    enabled: bool,
)
    requires
        app.pending == Some(PendingView::BootInspected { binary }),
    ensures
        ({
            let (after, step) = resumed(app, ReplyView::Unit { installed, enabled });
            &&& after == (AppView { pending: Some(PendingView::BootChanged), ..app })
            &&& step matches StepView::Ask(RequestView::ChangeUnit { steps }) && {
                &&& app.settings.apply_on_boot ==> {
                    &&& steps.len() >= 2
                    &&& steps[0] == UnitStepView::EnsureRoot
                    &&& switches(steps[steps.len() - 1], "enable"@)
                    &&& forall|i: int|
                        0 <= i < steps.len() ==> !switches(#[trigger] steps[i], "disable"@)
                    &&& !installed ==> steps.len() == 5 && steps[1] == (UnitStepView::WriteUnit {
                        content: unit_text(binary),
                    })
                    &&& installed ==> steps.len() == 2
                }
                &&& !app.settings.apply_on_boot && installed ==> {
                    &&& steps.len() == 2
                    &&& steps[0] == UnitStepView::EnsureRoot
                    &&& switches(steps[1], "disable"@)
                }
                &&& !app.settings.apply_on_boot && !installed ==> steps.len() == 0
            }
        }),
{
    unit_follows_the_setting(installed, binary);
    let (after, step) = resumed(app, ReplyView::Unit { installed, enabled });
    let steps = step->Ask_0->ChangeUnit_steps;
    if app.settings.apply_on_boot && !installed {
        assert(steps.take(3)[1] == steps[1]);
        assert(install_steps(binary)[1] == (UnitStepView::WriteUnit { content: unit_text(binary) }));
    }
}

/// Once the unit is changed, its state is looked at and shown, and the status tells
/// the setting as it now is.
pub proof fn changed_unit_is_shown(app: AppView, installed: bool, enabled: bool)
    ensures
        app.pending == Some(PendingView::BootChanged) ==> resumed(app, ReplyView::Done) == (
            AppView { pending: Some(PendingView::BootLabelled), ..app },
            StepView::Ask(RequestView::InspectUnit),
        ),
        app.pending == Some(PendingView::BootLabelled) ==> resumed(
            app,
            ReplyView::Unit { installed, enabled },
        ) == (
            AppView {
                systemd_status: label_text(installed, enabled),
                status_message: info(
                    if app.settings.apply_on_boot {
                        "автоприменение при загрузке включено"@
                    } else {
                        "автоприменение при загрузке выключено"@
                    },
                ),
                pending: None,
                ..app
            },
            StepView::Finished,
        ),
{
}

/// Turning the synchronisation at the start over changes that setting and no
/// other, and saves it; the status then tells the setting as it now is.
pub proof fn startup_setting_is_turned_over(app: AppView)
    ensures
        ({
            let (after, step) = startup_toggled(app);
            &&& step == StepView::Ask(RequestView::SaveSettings)
            &&& after.settings.sync_on_startup != app.settings.sync_on_startup
            &&& after == (AppView {
                settings: SettingsView {
                    sync_on_startup: after.settings.sync_on_startup,
                    ..app.settings
                },
                pending: Some(PendingView::StartupSaved),
                ..app
            })
        }),
        app.pending == Some(PendingView::StartupSaved) ==> resumed(app, ReplyView::Done) == (
            AppView {
                status_message: info(
                    if app.settings.sync_on_startup {
                        "автосинк при старте включён"@
                    } else {
                        "автосинк при старте выключен"@
                    },
                ),
                pending: None,
                ..app
            },
            StepView::Finished,
        ),
{
}

/// Saving a login stores the draft without the white space around it as the only
/// change to the settings; an empty one is refused and changes nothing. Once it is
/// saved, the edit is over and the status tells the login.
pub proof fn draft_becomes_the_login(app: AppView)
    ensures
        trimmed(app.api_login_draft).len() == 0 ==> login_saved(app) == (
            app,
            StepView::Failed { message: "логин не может быть пустым"@ },
        ),
        trimmed(app.api_login_draft).len() > 0 ==> login_saved(app) == (
            AppView {
                settings: SettingsView { api_login: trimmed(app.api_login_draft), ..app.settings },
                pending: Some(PendingView::LoginSaved),
                ..app
            },
            StepView::Ask(RequestView::SaveSettings),
        ),
        app.pending == Some(PendingView::LoginSaved) ==> resumed(app, ReplyView::Done) == (
            AppView {
                input_mode: InputMode::Normal,
                status_message: info("логин API: "@ + app.settings.api_login),
                pending: None,
                ..app
            },
            StepView::Finished,
        ),
{
}

/// Installing the unit locates the program, writes the unit for it, and enables the
/// service in the end exactly where the block is wanted at boot; then its state is
/// looked at and shown.
pub proof fn unit_is_installed_for_the_program(
    app: AppView,
    path: Seq<char>,
    installed: bool,
    enabled: bool,
)
    ensures
        install_started(app) == (
            AppView { pending: Some(PendingView::UnitLocated), ..app },
            StepView::Ask(RequestView::LocateBinary),
        ),
        app.pending == Some(PendingView::UnitLocated) ==> {
            let (after, step) = resumed(app, ReplyView::Binary { path });
            &&& after == (AppView { pending: Some(PendingView::UnitChanged), ..app })
            &&& step matches StepView::Ask(RequestView::ChangeUnit { steps }) && {
                &&& steps.len() == if app.settings.apply_on_boot {
                    5int
                } else {
                    3
                }
                &&& steps[0] == UnitStepView::EnsureRoot
                &&& steps[1] == (UnitStepView::WriteUnit { content: unit_text(path) })
                &&& steps[2] == (UnitStepView::Systemctl {
                    args: seq!["daemon-reload"@],
                    required: true,
                })
                &&& app.settings.apply_on_boot ==> steps[3] == UnitStepView::EnsureRoot && switches(
                    steps[4],
                    "enable"@,
                )
            }
        },
        app.pending == Some(PendingView::UnitChanged) ==> resumed(app, ReplyView::Done) == (
            AppView { pending: Some(PendingView::UnitLabelled), ..app },
            StepView::Ask(RequestView::InspectUnit),
        ),
        app.pending == Some(PendingView::UnitLabelled) ==> resumed(
            app,
            ReplyView::Unit { installed, enabled },
        ) == (
            AppView {
                systemd_status: label_text(installed, enabled),
                status_message: info("unit systemd установлен"@),
                pending: None,
                ..app
            },
            StepView::Finished,
        ),
{
}

/// Each row of the settings screen does what its own operation does; beyond the
/// rows nothing happens.
pub proof fn rows_do_what_they_name(app: AppView)
    ensures
        app.settings_index == 0 ==> row_activated(app) == backend_cycle_started(app, true),
        app.settings_index == 1 ==> row_activated(app) == boot_toggled(app),
        app.settings_index == 2 ==> row_activated(app) == install_started(app),
        app.settings_index == 3 ==> row_activated(app) == startup_toggled(app),
        app.settings_index == 4 ==> row_activated(app) == (
            login_edit_started(app),
            StepView::Finished,
        ),
        app.settings_index >= 5 ==> row_activated(app) == (app, StepView::Finished),
{
}

/// Whether the reply is of the kind that what is waited for takes.
pub open spec fn answers(pending: PendingView, reply: ReplyView) -> bool {
    match reply {
        ReplyView::Done => {
            ||| pending is BackendSaved
            ||| pending is BootSaved
            ||| pending is BootChanged
            ||| pending is StartupSaved
            ||| pending is LoginSaved
            ||| pending is UnitChanged
            ||| pending is RulesApplied
            ||| pending is BlockedSaved
            ||| pending is RulesCleared
        },
        ReplyView::Failed { .. } => {
            &&& pending !is BackendChoice
            &&& pending !is BootInspected
            &&& pending !is BootLabelled
            &&& pending !is UnitLabelled
        },
        ReplyView::Report(_) => pending is SyncReport,
        ReplyView::Tunnels { .. } => pending is SyncedTunnels,
        ReplyView::Choice(_) => pending is BackendChoice,
        ReplyView::Backend(_) => pending is BackendResolved,
        ReplyView::Active(_) => pending is BackendProbed,
        ReplyView::Binary { .. } => pending is BootLocated || pending is UnitLocated,
        ReplyView::Unit { .. } => {
            ||| pending is BootInspected
            ||| pending is BootLabelled
            ||| pending is UnitLabelled
        },
    }
}

/// A reply is ignored, and changes nothing, exactly where it does not answer what
/// was asked.
pub proof fn only_answers_are_taken(app: AppView, reply: ReplyView)
    ensures
        app.pending is None || !answers(app.pending.unwrap(), reply) <==> resumed(app, reply).1
            == StepView::Ignored,
        resumed(app, reply).1 == StepView::Ignored ==> resumed(app, reply).0 == app,
{
}

/// A failure ends what was asked with its message, and changes nothing more, but
/// for a look at the firewall.
pub proof fn failure_ends_with_its_message(app: AppView, message: Seq<char>)
    requires
        app.pending is Some,
        app.pending != Some(PendingView::BackendProbed),
        answers(app.pending.unwrap(), ReplyView::Failed { message }),
    ensures
        resumed(app, ReplyView::Failed { message }) == (
            AppView { pending: None, ..app },
            StepView::Failed { message },
        ),
{
}

/// The views of requests tell all of them.
pub proof fn request_views_tell_all(request: Request)
    ensures
        match request {
            Request::RunSync { login } => request@ == (RequestView::RunSync { login: login@ }),
            Request::ReadTunnels => request@ == RequestView::ReadTunnels,
            Request::NeighbourBackend { forward } => request@ == (RequestView::NeighbourBackend {
                forward,
            }),
            Request::SaveSettings => request@ == RequestView::SaveSettings,
            Request::ResolveBackend => request@ == RequestView::ResolveBackend,
            Request::ProbeFirewall { backend } => request@ == (RequestView::ProbeFirewall {
                backend,
            }),
            Request::LocateBinary => request@ == RequestView::LocateBinary,
            Request::InspectUnit => request@ == RequestView::InspectUnit,
            Request::ChangeUnit { steps } => request@ == (RequestView::ChangeUnit {
                steps: step_views(steps@),
            }),
            Request::ApplyRules { backend, ips } => request@ == (RequestView::ApplyRules {
                backend,
                ips: texts(ips@),
            }),
            Request::ClearRules { backend } => request@ == (RequestView::ClearRules { backend }),
        },
{
}

/// The views of steps and replies tell all of them.
pub proof fn step_and_reply_views_tell_all(step: Step, reply: Reply)
    ensures
        match step {
            Step::Finished => step@ == StepView::Finished,
            Step::Failed { message } => step@ == (StepView::Failed { message: message@ }),
            Step::Ask(request) => step@ == StepView::Ask(request@),
            Step::Probe { items } => step@ is Probe && step@->items.len() == items@.len()
                && forall|k: int|
                0 <= k < items@.len() ==> (#[trigger] step@->items[k]).0 == items@[k].0
                    && step@->items[k].1 == items@[k].1@,
            Step::Ignored => step@ == StepView::Ignored,
        },
        match reply {
            Reply::Done => reply@ == ReplyView::Done,
            Reply::Failed { message } => reply@ == (ReplyView::Failed { message: message@ }),
            Reply::Report(report) => reply@ == ReplyView::Report(report@),
            Reply::Tunnels { content } => reply@ == (ReplyView::Tunnels { content: content@ }),
            Reply::Choice(choice) => reply@ == ReplyView::Choice(choice@),
            Reply::Backend(backend) => reply@ == ReplyView::Backend(backend),
            Reply::Active(active) => reply@ == ReplyView::Active(active),
            Reply::Binary { path } => reply@ == (ReplyView::Binary { path: path@ }),
            Reply::Unit { installed, enabled } => reply@ == (ReplyView::Unit {
                installed,
                enabled,
            }),
        },
{
}

} // verus!
