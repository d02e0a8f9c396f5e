//! What holds of the program across its operations.

use vstd::prelude::*;

use crate::app::{
    any_unblocked, carried_over, initial, last_ping, login_edit_cancelled, login_edit_started,
    moved, polled, pool_marked, pool_toggled, reloaded, scroll_reset, selected, settings_closed,
    settings_moved, settings_opened, shown, toggled, visible, was_blocked, with_results, AppView,
    InputMode, PendingView, Screen, ServerEntryView, SETTINGS_ROWS,
};
use crate::commands::{addresses, marked};
use crate::operations::{
    apply_started, backend_cycle_started, blocked_entries, blocked_ips, blocked_names, boot_toggled,
    can_fail, clear_started, install_started, login_saved, ping_started, probe_items, resumed,
    row_activated, startup_toggled, sync_started, ReplyView, StepView,
};
use crate::ping::{latest, PingResult};
use crate::server::{server_list, ServerView};
use crate::settings::{Backend, SettingsView, SyncReportView};
use crate::text::{lemma_trimmed_fixed, lemma_trimmed_range, trimmed};
use crate::tunnels::parse_list;

verus! {

/// What holds of the program at all times: a row of the settings screen is
/// selected, and a probe is under way exactly while there are results to come.
pub open spec fn well_formed(app: AppView) -> bool {
    &&& app.entries.len() <= usize::MAX
    &&& app.settings_index < SETTINGS_ROWS
    &&& app.pinging <==> app.ping_job is Some
    &&& app.ping_job matches Some(job) ==> job.completed < job.total
}

/// The program starts well formed.
pub proof fn start_is_well_formed(
    settings: SettingsView,
    backend: Backend,
    report: Option<SyncReportView>,
    servers: Seq<ServerView>,
    active: Option<bool>,
    unit: (bool, bool),
)
    requires
        servers.len() <= usize::MAX,
    ensures
        well_formed(initial(settings, backend, report, servers, active, unit)),
{
}

/// Moving about, marking, editing and receiving results keep the program well
/// formed.
pub proof fn edits_keep_form(
    app: AppView,
    delta: int,
    unit: (bool, bool),
    servers: Seq<ServerView>,
    received: Seq<(usize, PingResult)>,
)
    requires
        well_formed(app),
        servers.len() <= usize::MAX,
    ensures
        well_formed(moved(app, delta)),
        well_formed(toggled(app)),
        well_formed(pool_toggled(app)),
        well_formed(scroll_reset(app)),
        well_formed(settings_opened(app, unit.0, unit.1)),
        well_formed(settings_closed(app)),
        well_formed(settings_moved(app, delta)),
        well_formed(login_edit_started(app)),
        well_formed(login_edit_cancelled(app)),
        well_formed(reloaded(app, servers)),
        well_formed(polled(app, received)),
{
    selection_is_shown(app);
}

proof fn lemma_items_fit(app: AppView)
    ensures
        probe_items(app).len() <= app.entries.len(),
{
    Seq::new(app.entries.len(), |i: int| i).lemma_filter_len(
        |i: int| shown(app.entries[i].server, app.filter),
    );
}

/// Every operation begins well formed.
pub proof fn operations_keep_form(app: AppView, forward: bool, ping: bool)
    requires
        well_formed(app),
    ensures
        well_formed(sync_started(app).0),
        well_formed(backend_cycle_started(app, forward).0),
        well_formed(boot_toggled(app).0),
        well_formed(startup_toggled(app).0),
        well_formed(login_saved(app).0),
        well_formed(install_started(app).0),
        well_formed(row_activated(app).0),
        well_formed(apply_started(app, ping).0),
        well_formed(clear_started(app).0),
        well_formed(ping_started(app).0),
{
    lemma_items_fit(app);
}

/// Every reply leaves the program well formed.
pub proof fn replies_keep_form(app: AppView, reply: ReplyView)
    requires
        well_formed(app),
        reply matches ReplyView::Tunnels { content } ==> (parse_list(content) matches Ok(entries)
            ==> server_list(entries).len() <= usize::MAX),
    ensures
        well_formed(resumed(app, reply).0),
{
    lemma_items_fit(app);
}

proof fn lemma_filter_same(s: Seq<int>, p: spec_fn(int) -> bool, q: spec_fn(int) -> bool)
    requires
        forall|i: int| 0 <= i < s.len() ==> p(#[trigger] s[i]) == q(s[i]),
    ensures
        s.filter(p) == s.filter(q),
    decreases s.len(),
{
    reveal(Seq::filter);
    if s.len() > 0 {
        lemma_filter_same(s.drop_last(), p, q);
        assert(p(s[s.len() - 1]) == q(s[s.len() - 1]));
    }
}

/// Which rows are shown depends on the servers and the filter alone.
pub proof fn marks_do_not_hide(
    a: Seq<ServerEntryView>,
    b: Seq<ServerEntryView>,
    filter: Seq<char>,
)
    requires
        a.len() == b.len(),
        forall|i: int| 0 <= i < a.len() ==> (#[trigger] a[i]).server == b[i].server,
    ensures
        visible(a, filter) == visible(b, filter),
{
    let all = Seq::new(a.len(), |i: int| i);
    let p = |i: int| shown(a[i].server, filter);
    let q = |i: int| shown(b[i].server, filter);
    assert forall|i: int| 0 <= i < all.len() implies p(#[trigger] all[i]) == q(all[i]) by {
        assert(a[i].server == b[i].server);
    }
    lemma_filter_same(all, p, q);
}

proof fn lemma_range_filter(n: nat, p: spec_fn(int) -> bool)
    ensures
        ({
            let r = Seq::new(n, |i: int| i).filter(p);
            &&& forall|k: int| 0 <= k < r.len() ==> 0 <= #[trigger] r[k] < n && p(r[k])
            &&& forall|j: int, k: int| 0 <= j < k < r.len() ==> #[trigger] r[j] < #[trigger] r[k]
            &&& forall|i: int| 0 <= i < n && p(i) ==> #[trigger] r.contains(i)
        }),
    decreases n,
{
    reveal(Seq::filter);
    let s = Seq::new(n, |i: int| i);
    let r = s.filter(p);
    if n > 0 {
        let m = (n - 1) as nat;
        lemma_range_filter(m, p);
        let t = Seq::new(m, |i: int| i);
        assert(s.drop_last() == t);
        let u = t.filter(p);
        assert forall|i: int| 0 <= i < n && p(i) implies #[trigger] r.contains(i) by {
            if i < m {
                assert(u.contains(i));
                let k = choose|k: int| 0 <= k < u.len() && u[k] == i;
                assert(r[k] == i);
            } else {
                assert(r[r.len() - 1] == i);
            }
        }
    }
}

/// The rows that are shown are those that the filter shows, each once and in order.
pub proof fn visible_rows_are_exact(entries: Seq<ServerEntryView>, filter: Seq<char>)
    ensures
        forall|i: int|
            visible(entries, filter).contains(i) <==> 0 <= i < entries.len() && shown(
                (#[trigger] entries[i]).server,
                filter,
            ),
        forall|j: int, k: int|
            0 <= j < k < visible(entries, filter).len() ==> #[trigger] visible(entries, filter)[j]
                < #[trigger] visible(entries, filter)[k],
{
    lemma_range_filter(entries.len(), |i: int| shown(entries[i].server, filter));
}

/// Without a filter every row is shown.
pub proof fn no_filter_shows_all(entries: Seq<ServerEntryView>)
    ensures
        visible(entries, Seq::empty()) == Seq::new(entries.len(), |i: int| i),
{
    let all = Seq::new(entries.len(), |i: int| i);
    lemma_all_kept(all, |i: int| shown(entries[i].server, Seq::<char>::empty()));
}

proof fn lemma_all_kept(s: Seq<int>, p: spec_fn(int) -> bool)
    requires
        forall|i: int| 0 <= i < s.len() ==> p(#[trigger] s[i]),
    ensures
        s.filter(p) == s,
    decreases s.len(),
{
    reveal(Seq::filter);
    if s.len() > 0 {
        assert(p(s[s.len() - 1]));
        lemma_all_kept(s.drop_last(), p);
        assert(s.drop_last().push(s.last()) == s);
    }
}

/// The selected entry is one of the list, and one that is shown.
pub proof fn selection_is_shown(app: AppView)
    ensures
        selected(app) matches Some(idx) ==> 0 <= idx < app.entries.len() && shown(
            app.entries[idx].server,
            app.filter,
        ),
{
    lemma_range_filter(app.entries.len(), |i: int| shown(app.entries[i].server, app.filter));
}

/// After a move, a row is selected wherever one is shown.
pub proof fn move_selects_a_row(app: AppView, delta: int)
    requires
        app.entries.len() <= usize::MAX,
    ensures
        visible(app.entries, app.filter).len() > 0 ==> selected(moved(app, delta)) is Some,
{
    Seq::new(app.entries.len(), |i: int| i).lemma_filter_len(
        |i: int| shown(app.entries[i].server, app.filter),
    );
}

/// Turning a mark over twice brings all marks back.
pub proof fn toggle_twice_restores(app: AppView)
    ensures
        toggled(toggled(app)).entries == app.entries,
{
    selection_is_shown(app);
    if let Some(idx) = selected(app) {
        let once = toggled(app);
        marks_do_not_hide(app.entries, once.entries, app.filter);
        assert(selected(once) == Some(idx));
        assert(toggled(once).entries == app.entries);
    }
}

/// A toggle of a pool marks the pool of the selected entry alike and leaves the
/// other pools, and what is selected, as they are.
pub proof fn pool_toggle_marks_alike(app: AppView)
    ensures
        selected(pool_toggled(app)) == selected(app),
        selected(app) matches Some(idx) ==> {
            let pool = app.entries[idx].server.pool;
            let after = pool_toggled(app).entries;
            &&& after.len() == app.entries.len()
            &&& forall|i: int|
                0 <= i < after.len() ==> if app.entries[i].server.pool == pool {
                    (#[trigger] after[i]).blocked == any_unblocked(app.entries, pool)
                } else {
                    after[i] == app.entries[i]
                }
        },
{
    marks_do_not_hide(app.entries, pool_toggled(app).entries, app.filter);
}

/// Toggling a pool twice turns it from all blocked to all unblocked or back.
pub proof fn pool_toggle_alternates(app: AppView)
    ensures
        selected(app) matches Some(idx) ==> {
            let pool = app.entries[idx].server.pool;
            pool_toggled(pool_toggled(app)).entries == pool_marked(
                app.entries,
                pool,
                !any_unblocked(app.entries, pool),
            )
        },
{
    selection_is_shown(app);
    pool_toggle_marks_alike(app);
    if let Some(idx) = selected(app) {
        let pool = app.entries[idx].server.pool;
        let any = any_unblocked(app.entries, pool);
        let once = pool_toggled(app);
        assert(once.entries[idx].server.pool == pool && once.entries[idx].blocked == any);
        assert(any_unblocked(once.entries, pool) == !any);
        assert(pool_toggled(once).entries == pool_marked(app.entries, pool, !any));
    }
}

proof fn lemma_latest_concat(
    a: Seq<(usize, PingResult)>,
    b: Seq<(usize, PingResult)>,
    idx: int,
)
    ensures
        latest(a + b, idx) == (match latest(b, idx) {
            Some(result) => Some(result),
            None => latest(a, idx),
        }),
    decreases b.len(),
{
    if b.len() == 0 {
        assert(a + b == a);
    } else {
        assert((a + b).drop_last() == a + b.drop_last());
        lemma_latest_concat(a, b.drop_last(), idx);
    }
}

/// Receiving results in two batches is the same as in one, unless the first ends
/// the probe.
pub proof fn batches_do_not_matter(
    app: AppView,
    a: Seq<(usize, PingResult)>,
    b: Seq<(usize, PingResult)>,
)
    requires
        app.ping_job matches Some(job) ==> job.completed + a.len() < job.total,
    ensures
        polled(polled(app, a), b) == polled(app, a + b),
{
    let once = with_results(app.entries, a);
    let twice = with_results(once, b);
    let whole = with_results(app.entries, a + b);
    assert forall|i: int| 0 <= i < whole.len() implies #[trigger] twice[i] == whole[i] by {
        lemma_latest_concat(a, b, i);
    }
    assert(twice == whole);
}

/// A probe ends when every server has a result: nothing is under way then, and a
/// new one can begin.
pub proof fn probe_ends_with_last_result(app: AppView, received: Seq<(usize, PingResult)>)
    requires
        well_formed(app),
        app.ping_job matches Some(job) && job.completed + received.len() >= job.total,
    ensures
        polled(app, received).ping_job is None,
        !polled(app, received).pinging,
{
}

/// While a probe is under way, no other begins.
pub proof fn one_probe_at_a_time(app: AppView)
    requires
        app.pinging,
    ensures
        ping_started(app) == (app, StepView::Finished),
{
}

/// Whether no two entries have the same name.
pub open spec fn names_differ(entries: Seq<ServerEntryView>) -> bool {
    forall|i: int, j: int|
        0 <= i < j < entries.len() ==> (#[trigger] entries[i]).server.name != (
        #[trigger] entries[j]).server.name
}

/// The servers of the entries.
pub open spec fn servers_of(entries: Seq<ServerEntryView>) -> Seq<ServerView> {
    entries.map_values(|e: ServerEntryView| e.server)
}

proof fn lemma_last_ping_own(entries: Seq<ServerEntryView>, i: int)
    requires
        names_differ(entries),
        0 <= i < entries.len(),
    ensures
        last_ping(entries, entries[i].server.name) == entries[i].ping,
    decreases entries.len(),
{
    let front = entries.drop_last();
    if i < entries.len() - 1 {
        assert(names_differ(front));
        lemma_last_ping_own(front, i);
        assert(front[i] == entries[i]);
        assert(entries[entries.len() - 1].server.name != entries[i].server.name);
    } else if entries[i].ping is None {
        lemma_no_ping(front, entries[i].server.name);
    }
}

proof fn lemma_no_ping(entries: Seq<ServerEntryView>, name: Seq<char>)
    requires
        forall|k: int| 0 <= k < entries.len() ==> (#[trigger] entries[k]).server.name != name,
    ensures
        last_ping(entries, name) is None,
    decreases entries.len(),
{
    if entries.len() > 0 {
        assert(entries[entries.len() - 1].server.name != name);
        assert forall|k: int| 0 <= k < entries.drop_last().len() implies (
        #[trigger] entries.drop_last()[k]).server.name != name by {
            assert(entries[k].server.name != name);
        }
        lemma_no_ping(entries.drop_last(), name);
    }
}

/// Reloading the servers of the list, whose names differ, keeps every mark and
/// every result.
pub proof fn reload_keeps_marks_and_results(app: AppView)
    requires
        names_differ(app.entries),
    ensures
        reloaded(app, servers_of(app.entries)).entries == app.entries,
{
    let after = carried_over(app.entries, servers_of(app.entries));
    assert forall|i: int| 0 <= i < after.len() implies #[trigger] after[i] == app.entries[i] by {
        lemma_last_ping_own(app.entries, i);
        if was_blocked(app.entries, app.entries[i].server.name) {
            let k = choose|k: int|
                0 <= k < app.entries.len() && (#[trigger] app.entries[k]).server.name
                    == app.entries[i].server.name && app.entries[k].blocked;
            assert(k == i);
        }
    }
    assert(after == app.entries);
}

proof fn lemma_blocked_names(entries: Seq<ServerEntryView>, name: Seq<char>)
    ensures
        blocked_names(entries).contains(name) <==> was_blocked(entries, name),
    decreases entries.len(),
{
    reveal(Seq::filter);
    if entries.len() > 0 {
        let front = entries.drop_last();
        let last = entries.last();
        lemma_blocked_names(front, name);
        let kept = blocked_entries(front);
        let names = blocked_names(entries);
        if last.blocked {
            assert(names == blocked_names(front).push(last.server.name));
        } else {
            assert(names == blocked_names(front));
        }
        if names.contains(name) {
            let k = choose|k: int| 0 <= k < names.len() && names[k] == name;
            if k < blocked_names(front).len() {
                assert(blocked_names(front)[k] == name);
                let j = choose|j: int|
                    0 <= j < front.len() && (#[trigger] front[j]).server.name == name
                        && front[j].blocked;
                assert(entries[j] == front[j]);
            } else {
                assert(entries[entries.len() - 1].blocked);
            }
        }
        if was_blocked(entries, name) {
            let j = choose|j: int|
                0 <= j < entries.len() && (#[trigger] entries[j]).server.name == name
                    && entries[j].blocked;
            if j < front.len() {
                assert(front[j] == entries[j]);
                let k = choose|k: int|
                    0 <= k < blocked_names(front).len() && blocked_names(front)[k] == name;
                assert(names[k] == name);
            } else {
                assert(names[names.len() - 1] == name);
            }
        }
    } else {
        assert(blocked_names(entries).len() == 0);
    }
}

proof fn lemma_blocked_count(entries: Seq<ServerEntryView>)
    ensures
        blocked_entries(entries).len() <= entries.len(),
        blocked_entries(entries).len() > 0 <==> exists|i: int|
            0 <= i < entries.len() && (#[trigger] entries[i]).blocked,
{
    let p = |e: ServerEntryView| e.blocked;
    entries.lemma_filter_len(p);
    if exists|i: int| 0 <= i < entries.len() && (#[trigger] entries[i]).blocked {
        let i = choose|i: int| 0 <= i < entries.len() && (#[trigger] entries[i]).blocked;
        entries.lemma_filter_contains(p, i);
    }
    if blocked_entries(entries).len() > 0 {
        lemma_blocked_origin(entries);
    }
}

proof fn lemma_blocked_origin(entries: Seq<ServerEntryView>)
    requires
        blocked_entries(entries).len() > 0,
    ensures
        exists|i: int| 0 <= i < entries.len() && (#[trigger] entries[i]).blocked,
    decreases entries.len(),
{
    reveal(Seq::filter);
    let front = entries.drop_last();
    if entries[entries.len() - 1].blocked {
    } else {
        lemma_blocked_origin(front);
        let i = choose|i: int| 0 <= i < front.len() && (#[trigger] front[i]).blocked;
        assert(entries[i].blocked);
    }
}

/// Applying the block, where the firewall and the settings take it, keeps the
/// list, stores the names of the blocked servers, and counts as active exactly
/// where a server is blocked.
pub proof fn apply_stores_marks(app: AppView)
    requires
        app.entries.len() <= usize::MAX,
    ensures
        ({
            let ruled = resumed(apply_started(app, false).0, ReplyView::Done);
            let (after, step) = resumed(ruled.0, ReplyView::Done);
            &&& step == StepView::Finished
            &&& after.pending is None
            &&& after.entries == app.entries
            &&& after.settings == (SettingsView {
                blocked: blocked_names(app.entries),
                ..app.settings
            })
            &&& after.blocking_active <==> exists|i: int|
                0 <= i < app.entries.len() && (#[trigger] app.entries[i]).blocked
        }),
{
    lemma_blocked_count(app.entries);
}

/// Starting again on the same servers with the settings that an applied block
/// stored brings the marks back: an entry is blocked where one of its name was,
/// which is its own mark where names differ.
pub proof fn stored_marks_come_back(
    app: AppView,
    backend: Backend,
    report: Option<SyncReportView>,
    active: Option<bool>,
    unit: (bool, bool),
)
    ensures
        ({
            let settings = SettingsView { blocked: blocked_names(app.entries), ..app.settings };
            let again = initial(settings, backend, report, servers_of(app.entries), active, unit);
            &&& again.entries.len() == app.entries.len()
            &&& forall|i: int|
                0 <= i < again.entries.len() ==> (#[trigger] again.entries[i]).server
                    == app.entries[i].server && again.entries[i].blocked == was_blocked(
                    app.entries,
                    app.entries[i].server.name,
                )
            &&& names_differ(app.entries) ==> forall|i: int|
                0 <= i < again.entries.len() ==> (#[trigger] again.entries[i]).blocked
                    == app.entries[i].blocked
        }),
{
    let settings = SettingsView { blocked: blocked_names(app.entries), ..app.settings };
    let again = initial(settings, backend, report, servers_of(app.entries), active, unit);
    assert forall|i: int| 0 <= i < again.entries.len() implies (
    #[trigger] again.entries[i]).blocked == was_blocked(
        app.entries,
        app.entries[i].server.name,
    ) by {
        lemma_blocked_names(app.entries, app.entries[i].server.name);
    }
    if names_differ(app.entries) {
        assert forall|i: int| 0 <= i < again.entries.len() implies (
        #[trigger] again.entries[i]).blocked == app.entries[i].blocked by {
            let name = app.entries[i].server.name;
            if was_blocked(app.entries, name) {
                let k = choose|k: int|
                    0 <= k < app.entries.len() && (#[trigger] app.entries[k]).server.name == name
                        && app.entries[k].blocked;
                assert(k == i);
            }
        }
    }
}

proof fn lemma_marked_are_blocked(entries: Seq<ServerEntryView>, names: Seq<Seq<char>>)
    requires
        forall|i: int|
            0 <= i < entries.len() ==> names.contains((#[trigger] entries[i]).server.name)
                == entries[i].blocked,
    ensures
        marked(servers_of(entries), names) == servers_of(blocked_entries(entries)),
    decreases entries.len(),
{
    reveal(Seq::filter);
    if entries.len() > 0 {
        let front = entries.drop_last();
        let last = entries[entries.len() - 1];
        assert forall|i: int| 0 <= i < front.len() implies names.contains(
            (#[trigger] front[i]).server.name,
        ) == front[i].blocked by {
            assert(front[i] == entries[i]);
        }
        lemma_marked_are_blocked(front, names);
        assert(servers_of(entries).drop_last() == servers_of(front));
        assert(servers_of(entries).last() == last.server);
        if last.blocked {
            assert(servers_of(blocked_entries(front).push(last)) == servers_of(
                blocked_entries(front),
            ).push(last.server));
        }
    } else {
        assert(marked(servers_of(entries), names) == servers_of(blocked_entries(entries)));
    }
}

/// The command that runs at boot blocks, on the same servers, the addresses that
/// were applied, where names differ.
pub proof fn boot_blocks_what_was_applied(entries: Seq<ServerEntryView>)
    requires
        names_differ(entries),
    ensures
        addresses(marked(servers_of(entries), blocked_names(entries))) == blocked_ips(entries),
{
    let names = blocked_names(entries);
    assert forall|i: int| 0 <= i < entries.len() implies names.contains(
        (#[trigger] entries[i]).server.name,
    ) == entries[i].blocked by {
        let name = entries[i].server.name;
        lemma_blocked_names(entries, name);
        if was_blocked(entries, name) {
            let k = choose|k: int|
                0 <= k < entries.len() && (#[trigger] entries[k]).server.name == name
                    && entries[k].blocked;
            assert(k == i);
        }
    }
    lemma_marked_are_blocked(entries, names);
    assert(addresses(servers_of(blocked_entries(entries))) == blocked_ips(entries));
}

/// Removing the block keeps the marks and the settings.
pub proof fn clear_keeps_marks(app: AppView)
    ensures
        ({
            let (after, step) = resumed(clear_started(app).0, ReplyView::Done);
            &&& step == StepView::Finished
            &&& !after.blocking_active
            &&& after.entries == app.entries
            &&& after.settings == app.settings
        }),
{
}

/// A request that fails ends the operation with its message and changes nothing
/// more, but for a look at the firewall, which counts as without rules.
pub proof fn failure_ends_operation(app: AppView, message: Seq<char>)
    requires
        app.pending matches Some(pending) && can_fail(pending) && pending
            != PendingView::BackendProbed,
    ensures
        resumed(app, ReplyView::Failed { message }) == (
            AppView { pending: None, ..app },
            StepView::Failed { message },
        ),
{
}

/// A block that the firewall refuses leaves the program as it was.
pub proof fn refused_block_changes_nothing(app: AppView, ping: bool, message: Seq<char>)
    requires
        app.pending is None,
    ensures
        resumed(apply_started(app, ping).0, ReplyView::Failed { message }) == (
            app,
            StepView::Failed { message },
        ),
{
}

/// A reply that nothing asked for changes nothing.
pub proof fn unasked_reply_is_ignored(app: AppView, reply: ReplyView)
    requires
        app.pending is None,
    ensures
        resumed(app, reply) == (app, StepView::Ignored),
{
}

/// Editing the login and giving up leaves the settings as they were.
pub proof fn cancelled_edit_keeps_settings(app: AppView)
    ensures
        login_edit_cancelled(login_edit_started(app)).settings == app.settings,
        login_edit_cancelled(login_edit_started(app)).input_mode == InputMode::Normal,
{
}

/// A login that is saved is not empty and has no white space around it; a draft
/// of white space alone is refused and changes nothing.
pub proof fn saved_login_is_trimmed(app: AppView)
    ensures
        login_saved(app).1 is Failed <==> trimmed(app.api_login_draft).len() == 0,
        login_saved(app).1 is Failed ==> login_saved(app).0 == app,
        login_saved(app).1 !is Failed ==> {
            let login = login_saved(app).0.settings.api_login;
            login.len() > 0 && trimmed(login) == login
        },
{
    let draft = app.api_login_draft;
    let (from, to) = lemma_trimmed_range(draft);
    let login = trimmed(draft);
    if login.len() > 0 {
        assert(login[0] == draft[from] && login.last() == draft[to - 1]);
        lemma_trimmed_fixed(login);
    }
}

/// Opening the settings screen and closing it goes back to the list, which is as
/// it was.
pub proof fn settings_visit_keeps_list(app: AppView, unit: (bool, bool))
    ensures
        ({
            let after = settings_closed(settings_opened(app, unit.0, unit.1));
            &&& after.screen == Screen::Servers
            &&& after.entries == app.entries
            &&& after.list_index == app.list_index
            &&& after.filter == app.filter
            &&& after.settings == app.settings
        }),
{
}

} // verus!
