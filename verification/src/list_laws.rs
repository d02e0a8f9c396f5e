//! What the list of servers and the settings screen do, row by row.

use vstd::prelude::*;

use crate::app::{
    any_unblocked, error_shown, index_views, info, initial, last_ping, login_edit_cancelled,
    login_edit_started, moved, polled, pool_toggled, progress_of, progress_shown, progress_text,
    reloaded, scroll_reset, selected, settings_closed, settings_moved, settings_opened,
    settings_row, shown, toggled, visible, was_blocked, App, AppView, InputMode, PingJob, Screen,
    ServerEntryView, SettingsRow, StatusMessage, StatusView,
};
use crate::picks::{increasing, lemma_filter_places};
use crate::ping::{latest, PingResult};
use crate::server::ServerView;
use crate::settings::{Backend, Settings, SettingsView, SyncReport, SyncReportView};
use crate::systemd::label_text;
use crate::text::{all_ascii, contains_text, decimal, lowercase, texts};
use crate::text_laws::{held_text_can_be_cut_out, lower_case_of_parts};

verus! {

/// A filter shows a server where, without regard to case, it stands in the name,
/// the pool or the region, or where it stands in the address; no filter shows all.
pub proof fn filter_looks_at_every_field(server: ServerView, filter: Seq<char>)
    ensures
        filter.len() == 0 ==> shown(server, filter),
        filter.len() > 0 ==> (shown(server, filter) <==> {
            ||| contains_text(lowercase(server.name), lowercase(filter))
            ||| contains_text(server.ip, lowercase(filter))
            ||| contains_text(lowercase(server.pool), lowercase(filter))
            ||| contains_text(lowercase(server.region), lowercase(filter))
        }),
{
}

/// Two filters that differ only in case show the same servers, and so do servers
/// that differ only in their ports.
pub proof fn case_does_not_matter(server: ServerView, a: Seq<char>, b: Seq<char>, port: u16)
    requires
        a.len() > 0,
        b.len() > 0,
        lowercase(a) == lowercase(b),
    ensures
        shown(server, a) == shown(server, b),
        shown(ServerView { port, ..server }, a) == shown(server, a),
{
}

/// Any part of an ASCII name, pool or region finds the server, in any case.
pub proof fn part_of_a_field_finds_the_server(
    server: ServerView,
    before: Seq<char>,
    part: Seq<char>,
    after: Seq<char>,
    filter: Seq<char>,
)
    requires
        all_ascii(before),
        all_ascii(part),
        all_ascii(after),
        lowercase(filter) == lowercase(part),
        server.name == before + part + after || server.pool == before + part + after
            || server.region == before + part + after,
    ensures
        shown(server, filter),
{
    lower_case_of_parts(before, part);
    lower_case_of_parts(before + part, after);
    held_text_can_be_cut_out(lowercase(before + part + after), lowercase(filter));
}

/// Any part of an address that has no capital letters finds the server.
pub proof fn part_of_an_address_finds_the_server(
    server: ServerView,
    before: Seq<char>,
    part: Seq<char>,
    after: Seq<char>,
)
    requires
        lowercase(part) == part,
        server.ip == before + part + after,
    ensures
        shown(server, part),
{
    held_text_can_be_cut_out(server.ip, part);
}

/// The rows are the places of the servers that are shown, in order.
proof fn lemma_rows(app: AppView)
    ensures
        increasing(visible(app.entries, app.filter)),
        visible(app.entries, app.filter).len() <= app.entries.len(),
        forall|k: int|
            0 <= k < visible(app.entries, app.filter).len() ==> 0 <= #[trigger] visible(
                app.entries,
                app.filter,
            )[k] < app.entries.len(),
        forall|i: int| #[trigger]
            visible(app.entries, app.filter).contains(i) <==> 0 <= i < app.entries.len() && shown(
                app.entries[i].server,
                app.filter,
            ),
{
    let all = Seq::new(app.entries.len(), |i: int| i);
    let keep = |i: int| shown(app.entries[i].server, app.filter);
    let rows = visible(app.entries, app.filter);
    let at = lemma_filter_places(all, keep);
    all.lemma_filter_len(keep);
    assert forall|k: int| 0 <= k < rows.len() implies rows[k] == #[trigger] at[k] by {
        assert(all.filter(keep)[k] == all[at[k]]);
    }
    assert(rows =~= at);
    assert forall|i: int| #[trigger]
        rows.contains(i) <==> 0 <= i < app.entries.len() && shown(
            app.entries[i].server,
            app.filter,
        ) by {
        if 0 <= i < app.entries.len() {
            assert(all[i] == i);
            assert(keep(all[i]) == shown(app.entries[i].server, app.filter));
        }
        assert(at.contains(i) <==> 0 <= i < all.len() && keep(all[i]));
    }
}

/// The selected entry is the one in the selected row, counted among the entries
/// that are shown.
pub proof fn selected_entry_is_in_the_row(app: AppView) -> (rows: Seq<int>)
    ensures
        increasing(rows),
        forall|i: int| #[trigger]
            rows.contains(i) <==> 0 <= i < app.entries.len() && shown(
                app.entries[i].server,
                app.filter,
            ),
        rows == visible(app.entries, app.filter),
        app.list_index < rows.len() ==> selected(app) == Some(rows[app.list_index as int]),
        app.list_index >= rows.len() ==> selected(app) is None,
        selected(app) matches Some(idx) ==> 0 <= idx < app.entries.len(),
{
    lemma_rows(app);
    visible(app.entries, app.filter)
}

/// A move changes the row and nothing else: by just as much as asked for while that
/// stays within the rows, and otherwise to the first or the last row.
pub proof fn move_goes_as_far_as_the_rows(app: AppView, delta: int)
    requires
        app.entries.len() <= usize::MAX,
    ensures
        ({
            let rows = visible(app.entries, app.filter).len();
            let after = moved(app, delta);
            let wanted = app.list_index + delta;
            &&& after == (AppView { list_index: after.list_index, ..app })
            &&& rows == 0 ==> after.list_index == 0
            &&& 0 <= wanted < rows ==> after.list_index == wanted
            &&& rows > 0 && wanted < 0 ==> after.list_index == 0
            &&& rows > 0 && wanted >= rows ==> after.list_index == rows - 1
        }),
{
    lemma_rows(app);
}

/// A toggle turns over the mark of the selected entry, clears the status, and
/// changes nothing else; without a selected entry it changes nothing.
pub proof fn toggle_turns_one_mark(app: AppView)
    ensures
        selected(app) is None ==> toggled(app) == app,
        selected(app) matches Some(idx) ==> {
            let after = toggled(app);
            &&& after == (AppView { entries: after.entries, status_message: None, ..app })
            &&& after.entries.len() == app.entries.len()
            &&& forall|i: int|
                0 <= i < app.entries.len() ==> {
                    &&& (#[trigger] after.entries[i]).server == app.entries[i].server
                    &&& after.entries[i].ping == app.entries[i].ping
                    &&& after.entries[i].blocked == (if i == idx {
                        !app.entries[i].blocked
                    } else {
                        app.entries[i].blocked
                    })
                }
        },
{
    lemma_rows(app);
}

/// A toggle of a pool blocks all entries of the pool of the selected entry, if any
/// of them is not blocked, and otherwise unblocks them all; it changes nothing else.
pub proof fn pool_toggle_turns_the_pool(app: AppView)
    ensures
        selected(app) is None ==> pool_toggled(app) == app,
        selected(app) matches Some(idx) ==> {
            let pool = app.entries[idx].server.pool;
            let after = pool_toggled(app);
            let all_blocked = forall|i: int|
                0 <= i < app.entries.len() && (#[trigger] app.entries[i]).server.pool == pool
                    ==> app.entries[i].blocked;
            &&& after == (AppView { entries: after.entries, ..app })
            &&& after.entries.len() == app.entries.len()
            &&& forall|i: int|
                0 <= i < app.entries.len() ==> {
                    &&& (#[trigger] after.entries[i]).server == app.entries[i].server
                    &&& after.entries[i].ping == app.entries[i].ping
                    &&& after.entries[i].blocked == (if app.entries[i].server.pool == pool {
                        !all_blocked
                    } else {
                        app.entries[i].blocked
                    })
                }
        },
{
    if let Some(idx) = selected(app) {
        let pool = app.entries[idx].server.pool;
        if any_unblocked(app.entries, pool) {
            let i = choose|i: int|
                0 <= i < app.entries.len() && (#[trigger] app.entries[i]).server.pool == pool
                    && !app.entries[i].blocked;
            assert(!app.entries[i].blocked);
        }
    }
}

/// Scrolling to the top shows the selected row and changes nothing else.
pub proof fn scrolling_shows_the_selection(app: AppView)
    ensures
        ({
            let after = scroll_reset(app);
            &&& after == (AppView { table_state: after.table_state, ..app })
            &&& after.table_state.offset == 0
            &&& after.table_state.selected == Some(app.list_index)
        }),
{
}

/// The settings screen opens on its first row with the state of the unit, and
/// leaves everything else as it is.
pub proof fn settings_open_on_the_first_row(app: AppView, installed: bool, enabled: bool)
    ensures
        ({
            let after = settings_opened(app, installed, enabled);
            &&& after == (AppView {
                screen: Screen::Settings,
                settings_index: 0,
                input_mode: InputMode::Normal,
                systemd_status: after.systemd_status,
                status_message: None,
                ..app
            })
            &&& after.systemd_status == label_text(installed, enabled)
        }),
{
}

/// Closing the settings screen goes back to the list and changes nothing that
/// was set.
pub proof fn settings_close_on_the_list(app: AppView)
    ensures
        settings_closed(app) == (AppView {
            screen: Screen::Servers,
            input_mode: InputMode::Normal,
            status_message: None,
            ..app
        }),
{
}

/// A move on the settings screen stays within its five rows and changes nothing
/// else; while a login is edited, nothing moves.
pub proof fn settings_move_within_five_rows(app: AppView, delta: int)
    ensures
        ({
            let after = settings_moved(app, delta);
            let wanted = app.settings_index + delta;
            &&& after == (AppView { settings_index: after.settings_index, ..app })
            &&& app.input_mode == InputMode::ApiLogin ==> after == app
            &&& app.input_mode != InputMode::ApiLogin ==> {
                &&& 0 <= wanted <= 4 ==> after.settings_index == wanted
                &&& wanted < 0 ==> after.settings_index == 0
                &&& wanted > 4 ==> after.settings_index == 4
            }
        }),
{
}

/// The settings screen has five rows, each once.
pub proof fn settings_have_five_rows(i: int, j: int)
    ensures
        settings_row(i) is Some <==> 0 <= i < 5,
        0 <= i < 5 && settings_row(i) == settings_row(j) ==> i == j,
        settings_row(0) == Some(SettingsRow::Backend),
        settings_row(1) == Some(SettingsRow::Boot),
        settings_row(2) == Some(SettingsRow::Systemd),
        settings_row(3) == Some(SettingsRow::SyncOnStartup),
        settings_row(4) == Some(SettingsRow::ApiLogin),
{
}

/// Editing the login begins with the saved one and changes no setting; giving up
/// drops the draft.
pub proof fn login_is_edited_as_a_draft(app: AppView)
    ensures
        ({
            let after = login_edit_started(app);
            &&& after == (AppView {
                api_login_draft: after.api_login_draft,
                input_mode: InputMode::ApiLogin,
                status_message: info("логин для address_list"@),
                ..app
            })
            &&& after.api_login_draft == app.settings.api_login
        }),
        ({
            let after = login_edit_cancelled(app);
            &&& after == (AppView {
                api_login_draft: after.api_login_draft,
                input_mode: InputMode::Normal,
                status_message: None,
                ..app
            })
            &&& after.api_login_draft.len() == 0
        }),
{
}

/// An error is shown in the status line and changes nothing else.
pub proof fn error_changes_the_status_only(app: AppView, message: Seq<char>)
    ensures
        error_shown(app, message) == (AppView {
            status_message: Some(StatusView::Error(message)),
            ..app
        }),
{
}

/// The progress tells how many of how many servers have been probed, and the share
/// in hundredths, rounded down.
pub proof fn progress_tells_the_share(job: PingJob) -> (share: nat)
    ensures
        progress_text(job) == "пинг "@ + decimal(job.completed as nat) + seq!['/'] + decimal(
            job.total as nat,
        ) + seq![' ', '('] + decimal(share) + seq!['%', ')'],
        job.total > 0 ==> share * job.total <= 100 * job.completed < (share + 1) * job.total,
        job.total == 0 ==> share == 100 * job.completed,
{
    reveal_strlit("/");
    reveal_strlit(" (");
    reveal_strlit("%)");
    assert("/"@ == seq!['/']);
    assert(" ("@ == seq![' ', '(']);
    assert("%)"@ == seq!['%', ')']);
    let whole: nat = if job.total == 0 { 1 } else { job.total as nat };
    let part = job.completed as nat * 100;
    let share = part / whole;
    assert(share * whole <= part < (share + 1) * whole) by (nonlinear_arith)
        requires
            whole > 0,
            share == part / whole,
    ;
    share
}

/// The progress is shown, and told, exactly while a probe is under way.
pub proof fn progress_is_of_the_probe(app: AppView)
    ensures
        app.ping_job is None ==> progress_shown(app) == app && progress_of(app) is None,
        app.ping_job matches Some(job) ==> {
            &&& progress_of(app) == Some((job.completed, job.total))
            &&& progress_shown(app) == (AppView {
                status_message: info(progress_text(job)),
                ..app
            })
        },
{
}

/// Results that come in go to the servers that they are for and change nothing
/// else of the list: each server has the last result that came in for it, or the
/// one it had. Each result counts once, and the probe ends when all are in.
pub proof fn results_go_to_their_servers(app: AppView, received: Seq<(usize, PingResult)>)
    ensures
        app.ping_job is None ==> polled(app, received) == app,
        app.ping_job matches Some(job) ==> {
            let after = polled(app, received);
            let done = job.completed + received.len();
            &&& after == (AppView {
                entries: after.entries,
                ping_job: after.ping_job,
                pinging: after.pinging,
                status_message: after.status_message,
                ..app
            })
            &&& after.entries.len() == app.entries.len()
            &&& forall|i: int|
                0 <= i < app.entries.len() ==> {
                    &&& (#[trigger] after.entries[i]).server == app.entries[i].server
                    &&& after.entries[i].blocked == app.entries[i].blocked
                    &&& latest(received, i) is Some ==> after.entries[i].ping == latest(received, i)
                    &&& latest(received, i) is None ==> after.entries[i].ping
                        == app.entries[i].ping
                }
            &&& done >= job.total ==> {
                &&& after.ping_job is None
                &&& !after.pinging
                &&& after.status_message == info("пинг проверен"@)
            }
            &&& done < job.total ==> {
                &&& after.pinging == app.pinging
                &&& after.ping_job matches Some(next) && next.completed == done && next.total
                    == job.total && after.status_message == info(progress_text(next))
            }
        },
{
}

proof fn lemma_last_ping(entries: Seq<ServerEntryView>, name: Seq<char>) -> (k: int)
    ensures
        last_ping(entries, name) is None ==> forall|j: int|
            0 <= j < entries.len() && (#[trigger] entries[j]).server.name == name
                ==> entries[j].ping is None,
        last_ping(entries, name) is Some ==> {
            &&& 0 <= k < entries.len()
            &&& entries[k].server.name == name
            &&& entries[k].ping == last_ping(entries, name)
            &&& forall|j: int|
                k < j < entries.len() && (#[trigger] entries[j]).server.name == name
                    ==> entries[j].ping is None
        },
    decreases entries.len(),
{
    if entries.len() == 0 || (entries.last().server.name == name && entries.last().ping is Some) {
        entries.len() - 1
    } else {
        let front = entries.drop_last();
        let k = lemma_last_ping(front, name);
        assert forall|j: int| 0 <= j < front.len() implies front[j] == #[trigger] entries[j] by {}
        k
    }
}

/// Reloading shows exactly the servers that were loaded, in their order, however
/// many there are. A server is blocked where one of its name was. The row stays
/// where there still is one, and otherwise is the first; the list is scrolled to its
/// top, and nothing else changes.
pub proof fn reload_shows_the_servers(app: AppView, servers: Seq<ServerView>)
    ensures
        ({
            let after = reloaded(app, servers);
            let rows = visible(after.entries, app.filter).len();
            &&& after == (AppView {
                entries: after.entries,
                list_index: after.list_index,
                table_state: after.table_state,
                ..app
            })
            &&& after.entries.len() == servers.len()
            &&& forall|i: int|
                0 <= i < servers.len() ==> (#[trigger] after.entries[i]).server == servers[i]
            &&& forall|i: int|
                0 <= i < servers.len() ==> ((#[trigger] after.entries[i]).blocked <==> exists|j: int|
                    0 <= j < app.entries.len() && (#[trigger] app.entries[j]).server.name
                        == servers[i].name && app.entries[j].blocked)
            &&& app.list_index < rows ==> after.list_index == app.list_index
            &&& app.list_index >= rows ==> after.list_index == 0
            &&& after.table_state.offset == 0
            &&& after.table_state.selected == Some(after.list_index)
        }),
{
    let after = reloaded(app, servers);
    assert forall|i: int| 0 <= i < servers.len() implies ((#[trigger] after.entries[i]).blocked
        <==> exists|j: int|
        0 <= j < app.entries.len() && (#[trigger] app.entries[j]).server.name == servers[i].name
            && app.entries[j].blocked) by {
        assert(after.entries[i].blocked == was_blocked(app.entries, servers[i].name));
    }
}

/// Reloading keeps the results of probes by name: a server has the result of the
/// last entry of its name that had one.
pub proof fn reload_keeps_results_by_name(app: AppView, servers: Seq<ServerView>, i: int) -> (k:
    int)
    requires
        0 <= i < servers.len(),
    ensures
        reloaded(app, servers).entries[i].ping is None ==> forall|j: int|
            0 <= j < app.entries.len() && (#[trigger] app.entries[j]).server.name
                == servers[i].name ==> app.entries[j].ping is None,
        reloaded(app, servers).entries[i].ping is Some ==> {
            &&& 0 <= k < app.entries.len()
            &&& app.entries[k].server.name == servers[i].name
            &&& app.entries[k].ping == reloaded(app, servers).entries[i].ping
            &&& forall|j: int|
                k < j < app.entries.len() && (#[trigger] app.entries[j]).server.name
                    == servers[i].name ==> app.entries[j].ping is None
        },
{
    assert(reloaded(app, servers).entries[i].ping == last_ping(app.entries, servers[i].name));
    lemma_last_ping(app.entries, servers[i].name)
}

/// The program starts with all servers that were loaded, those blocked whose names
/// the settings hold and none probed, at the top of the list, with the settings
/// as they are, and with the report of a synchronisation that changed something.
pub proof fn start_shows_the_servers(
    settings: SettingsView,
    backend: Backend,
    report: Option<SyncReportView>,
    servers: Seq<ServerView>,
    active: Option<bool>,
    unit: (bool, bool),
)
    ensures
        ({
            let app = initial(settings, backend, report, servers, active, unit);
            &&& app.entries.len() == servers.len()
            &&& forall|i: int|
                0 <= i < servers.len() ==> {
                    &&& (#[trigger] app.entries[i]).server == servers[i]
                    &&& app.entries[i].blocked == settings.blocked.contains(servers[i].name)
                    &&& app.entries[i].ping is None
                }
            &&& app.settings == settings
            &&& app.backend == backend
            &&& app.blocking_active <==> active == Some(true)
            &&& app.screen == Screen::Servers
            &&& app.input_mode == InputMode::Normal
            &&& app.list_index == 0 && app.settings_index == 0
            &&& app.filter.len() == 0 && app.api_login_draft.len() == 0
            &&& !app.pinging && app.ping_job is None && app.pending is None
            &&& app.systemd_status == label_text(unit.0, unit.1)
            &&& app.table_state.offset == 0 && app.table_state.selected is None
            &&& app.settings_table_state.offset == 0 && app.settings_table_state.selected is None
            &&& app.status_message is Some <==> settings.sync_on_startup && report is Some
                && report.unwrap().changed
            &&& app.status_message is Some ==> app.status_message == info(report.unwrap().message)
        }),
{
}

/// Information is shown as such, with its text.
pub proof fn information_is_shown_as_it_is(text: Seq<char>)
    ensures
        info(text) == Some(StatusView::Info(text)),
{
}

/// The view of the program tells all of it.
pub proof fn app_view_tells_all(app: App)
    ensures
        app@.screen == app.screen,
        app@.entries.len() == app.entries@.len(),
        forall|i: int|
            0 <= i < app.entries@.len() ==> {
                &&& (#[trigger] app@.entries[i]).server == app.entries@[i].server@
                &&& app@.entries[i].blocked == app.entries@[i].blocked
                &&& app@.entries[i].ping == app.entries@[i].ping
            },
        app@.list_index == app.list_index,
        app@.settings_index == app.settings_index,
        app@.filter == app.filter@,
        app@.input_mode == app.input_mode,
        app@.backend == app.backend,
        app@.blocking_active == app.blocking_active,
        app@.pinging == app.pinging,
        app@.ping_job == app.ping_job,
        app.status_message is None <==> app@.status_message is None,
        app.status_message matches Some(StatusMessage::Info(text)) ==> app@.status_message == Some(
            StatusView::Info(text@),
        ),
        app.status_message matches Some(StatusMessage::Error(text)) ==> app@.status_message == Some(
            StatusView::Error(text@),
        ),
        app@.settings == app.settings@,
        app@.systemd_status == app.systemd_status@,
        app@.api_login_draft == app.api_login_draft@,
        app@.table_state == app.table_state,
        app@.settings_table_state == app.settings_table_state,
        app.pending is None <==> app@.pending is None,
        app.pending matches Some(pending) ==> app@.pending == Some(pending@),
{
}

/// The views of the settings and of a report tell all of them.
pub proof fn settings_views_tell_all(settings: Settings, report: SyncReport)
    ensures
        settings@.backend.id == settings.backend.id,
        settings@.backend.label == settings.backend.label@,
        settings@.apply_on_boot == settings.apply_on_boot,
        settings@.sync_on_startup == settings.sync_on_startup,
        settings@.api_login == settings.api_login@,
        settings@.blocked == texts(settings.blocked@),
        report@.changed == report.changed,
        report@.message == report.message@,
{
}

/// The views of indices are the indices.
pub proof fn index_views_tell_all(indices: Seq<usize>)
    ensures
        index_views(indices).len() == indices.len(),
        forall|i: int| 0 <= i < indices.len() ==> #[trigger] index_views(indices)[i] == indices[i],
{
}

} // verus!
