//! What holds of the commands and of the changes to the unit.

use vstd::prelude::*;

use crate::commands::{
    addresses, list_line, listing, marked, ping_line, ping_report, planned, sync_planned,
};
use crate::picks::{increasing, lemma_filter_places};
use crate::ping::{latency_text, PingResult};
use crate::server::ServerView;
use crate::systemd::{
    boot_steps, disable_steps, enable_steps, install_steps, label_text, step_views,
    stops_on_failure, systemctl_failure, unit_text, UnitStep, UnitStepView,
};
use crate::text::{decimal, joined, padded, texts, trimmed};

verus! {

/// The addresses that are applied are those of the servers whose names are
/// blocked, all of them, in the order of the servers; the report tells how many.
pub proof fn blocked_names_are_applied(servers: Seq<ServerView>, blocked: Seq<Seq<char>>) -> (at:
    Seq<int>)
    ensures
        increasing(at),
        forall|k: int| 0 <= k < at.len() ==> 0 <= #[trigger] at[k] < servers.len(),
        forall|i: int| #[trigger]
            at.contains(i) <==> 0 <= i < servers.len() && blocked.contains(servers[i].name),
        planned(servers, blocked).0.len() == at.len(),
        forall|k: int|
            0 <= k < at.len() ==> #[trigger] planned(servers, blocked).0[k] == servers[at[k]].ip,
        planned(servers, blocked).1 == "применено правил: "@ + decimal(at.len()),
{
    let keep = |s: ServerView| blocked.contains(s.name);
    let at = lemma_filter_places(servers, keep);
    assert(marked(servers, blocked) == servers.filter(keep));
    assert forall|k: int| 0 <= k < at.len() implies #[trigger] planned(servers, blocked).0[k]
        == servers[at[k]].ip by {
        assert(marked(servers, blocked)[k] == servers[at[k]]);
    }
    assert forall|i: int| #[trigger]
        at.contains(i) <==> 0 <= i < servers.len() && blocked.contains(servers[i].name) by {
        assert(keep(servers[i]) == blocked.contains(servers[i].name));
    }
    at
}

/// The whole list has a line for each server in order, with a mark where its name
/// is blocked.
pub proof fn whole_list_shows_every_server(servers: Seq<ServerView>, blocked: Seq<Seq<char>>)
    ensures
        listing(servers, blocked, false).len() == servers.len(),
        forall|i: int|
            0 <= i < servers.len() ==> #[trigger] listing(servers, blocked, false)[i] == list_line(
                servers[i],
                blocked.contains(servers[i].name),
            ),
{
}

/// The list of blocked servers has a marked line for each server whose name is
/// blocked, in order, and no other.
pub proof fn blocked_list_shows_the_blocked(servers: Seq<ServerView>, blocked: Seq<Seq<char>>) -> (
    at: Seq<int>)
    ensures
        increasing(at),
        forall|k: int| 0 <= k < at.len() ==> 0 <= #[trigger] at[k] < servers.len(),
        forall|i: int| #[trigger]
            at.contains(i) <==> 0 <= i < servers.len() && blocked.contains(servers[i].name),
        listing(servers, blocked, true).len() == at.len(),
        forall|k: int|
            0 <= k < at.len() ==> #[trigger] listing(servers, blocked, true)[k] == list_line(
                servers[at[k]],
                true,
            ),
{
    let keep = |s: ServerView| blocked.contains(s.name);
    let at = lemma_filter_places(servers, keep);
    assert(marked(servers, blocked) == servers.filter(keep));
    assert forall|k: int| 0 <= k < at.len() implies #[trigger] listing(servers, blocked, true)[k]
        == list_line(servers[at[k]], true) by {
        assert(marked(servers, blocked)[k] == servers[at[k]]);
        assert(keep(servers[at[k]]));
    }
    assert forall|i: int| #[trigger]
        at.contains(i) <==> 0 <= i < servers.len() && blocked.contains(servers[i].name) by {
        assert(keep(servers[i]) == blocked.contains(servers[i].name));
    }
    at
}

/// The order of the blocked names does not matter, nor how often one is given.
pub proof fn blocked_names_are_a_set(
    servers: Seq<ServerView>,
    a: Seq<Seq<char>>,
    b: Seq<Seq<char>>,
    only: bool,
)
    requires
        forall|name: Seq<char>| #[trigger] a.contains(name) <==> b.contains(name),
    ensures
        planned(servers, a) == planned(servers, b),
        listing(servers, a, only) == listing(servers, b, only),
{
    assert forall|s: ServerView| #[trigger] a.contains(s.name) == b.contains(s.name) by {}
    lemma_marked_alike(servers, a, b);
    assert(listing(servers, a, only) =~= listing(servers, b, only));
}

proof fn lemma_marked_alike(servers: Seq<ServerView>, a: Seq<Seq<char>>, b: Seq<Seq<char>>)
    requires
        forall|name: Seq<char>| #[trigger] a.contains(name) <==> b.contains(name),
    ensures
        marked(servers, a) == marked(servers, b),
    decreases servers.len(),
{
    reveal(Seq::filter);
    if servers.len() > 0 {
        lemma_marked_alike(servers.drop_last(), a, b);
        assert(a.contains(servers.last().name) == b.contains(servers.last().name));
    }
}

/// What a line shows of a server: its mark in brackets, its name and its address
/// in columns of sixteen characters, and its pool and region with a slash between.
pub proof fn line_shows_the_server(server: ServerView, blocked: bool)
    ensures
        ({
            let line = list_line(server, blocked);
            let name = padded(server.name, 16);
            let ip = padded(server.ip, 16);
            let n: int = 4 + name.len() as int;
            let m: int = n + 1 + ip.len();
            &&& line[0] == '[' && line[2] == ']' && line[3] == ' '
            &&& line[1] == if blocked {
                'x'
            } else {
                ' '
            }
            &&& line.subrange(4, n) == name
            &&& line[n] == ' '
            &&& line.subrange(n + 1, m) == ip
            &&& line[m] == ' '
            &&& line.skip(m + 1) == server.pool.push('/') + server.region
        }),
{
    reveal_strlit("[");
    reveal_strlit("x");
    reveal_strlit(" ");
    reveal_strlit("] ");
    reveal_strlit("/");
    let line = list_line(server, blocked);
    let name = padded(server.name, 16);
    let ip = padded(server.ip, 16);
    let n: int = 4 + name.len() as int;
    let m: int = n + 1 + ip.len();
    assert(line.subrange(4, n) =~= name);
    assert(line.subrange(n + 1, m) =~= ip);
    assert(line.skip(m + 1) =~= server.pool.push('/') + server.region);
}

/// What a line of the report of a probe shows: the name and the address of the
/// server in columns of sixteen characters, and the result.
pub proof fn ping_line_shows_the_result(server: ServerView, result: PingResult)
    ensures
        ({
            let line = ping_line(server, result);
            let name = padded(server.name, 16);
            let ip = padded(server.ip, 16);
            let n: int = name.len() as int;
            let m: int = n + 1 + ip.len();
            &&& line.take(n) == name
            &&& line[n] == ' '
            &&& line.subrange(n + 1, m) == ip
            &&& line[m] == ' '
            &&& line.skip(m + 1) == latency_text(Some(result))
        }),
{
    reveal_strlit(" ");
    let line = ping_line(server, result);
    let name = padded(server.name, 16);
    let ip = padded(server.ip, 16);
    let n: int = name.len() as int;
    let m: int = n + 1 + ip.len();
    assert(line.take(n) =~= name);
    assert(line.subrange(n + 1, m) =~= ip);
    assert(line.skip(m + 1) =~= latency_text(Some(result)));
}

/// The report of a probe has a line for each server that has a result, in order.
pub proof fn every_result_is_reported(servers: Seq<ServerView>, results: Seq<PingResult>)
    ensures
        servers.len() == results.len() ==> ping_report(servers, results).len() == servers.len(),
        ping_report(servers, results).len() <= servers.len(),
        ping_report(servers, results).len() <= results.len(),
        ping_report(servers, results).len() == servers.len() || ping_report(servers, results).len()
            == results.len(),
        forall|i: int|
            0 <= i < ping_report(servers, results).len() ==> #[trigger] ping_report(
                servers,
                results,
            )[i] == ping_line(servers[i], results[i]),
{
}

/// A login that is given goes before that of the settings, and the report is
/// printed unless it is to be quiet; neither bears on the other.
pub proof fn given_login_goes_first(
    given: Seq<char>,
    api_login: Seq<char>,
    other: Seq<char>,
    quiet: bool,
)
    ensures
        sync_planned(Some(given), api_login, quiet) == sync_planned(Some(given), other, quiet),
        sync_planned(Some(given), api_login, quiet) == sync_planned(None, given, quiet),
        sync_planned(None, api_login, quiet).0 == api_login,
        sync_planned(None, api_login, quiet).1 <==> !quiet,
{
}

/// The words for the state of the unit tell its three states apart, and whether it
/// is enabled only where it is installed.
pub proof fn labels_tell_states_apart(enabled: bool)
    ensures
        label_text(false, enabled) == "не установлен"@,
        label_text(true, true) == "включён"@,
        label_text(true, false) == "установлен, выкл."@,
{
}

/// The unit starts the program to apply the block and stops it by clearing it,
/// whatever the path of the program, and holds nothing else that depends on it.
pub proof fn unit_runs_the_program() -> (cut: (int, int))
    ensures
        ({
            let frame = unit_text(Seq::empty());
            &&& 11 <= cut.0 <= cut.1 <= frame.len()
            &&& frame.subrange(cut.0 - 11, cut.0) == "\nExecStart="@
            &&& frame.subrange(cut.0, cut.1) == " apply\nExecStop="@
            &&& frame.subrange(cut.1, cut.1 + 7) == " clear\n"@
            &&& forall|binary: Seq<char>| #[trigger]
                unit_text(binary) == frame.take(cut.0) + binary + frame.subrange(cut.0, cut.1)
                    + binary + frame.skip(cut.1)
        }),
{
    let head =
        "[Unit]\nDescription=Stalzone server blocker\nAfter=network-online.target\nWants=network-online.target\n\n[Service]\nType=oneshot\nRemainAfterExit=yes\nExecStart="@;
    let middle = " apply\nExecStop="@;
    let tail = " clear\n\n[Install]\nWantedBy=multi-user.target\n"@;
    reveal_strlit(
        "[Unit]\nDescription=Stalzone server blocker\nAfter=network-online.target\nWants=network-online.target\n\n[Service]\nType=oneshot\nRemainAfterExit=yes\nExecStart=",
    );
    reveal_strlit(" apply\nExecStop=");
    reveal_strlit(" clear\n\n[Install]\nWantedBy=multi-user.target\n");
    reveal_strlit("\nExecStart=");
    reveal_strlit(" clear\n");
    let frame = unit_text(Seq::empty());
    let p = head.len() as int;
    let q = p + middle.len();
    assert(frame =~= head + middle + tail);
    assert(frame.take(p) =~= head);
    assert(frame.subrange(p, q) =~= middle);
    assert(frame.skip(q) =~= tail);
    assert(frame.subrange(p - 11, p) =~= head.subrange(p - 11, p));
    assert(head.subrange(p - 11, p) =~= "\nExecStart="@);
    assert(frame.subrange(q, q + 7) =~= tail.take(7));
    assert(tail.take(7) =~= " clear\n"@);
    (p, q)
}

/// Whether a step runs `systemctl` with the command for the service, at once.
pub open spec fn switches(step: UnitStepView, command: Seq<char>) -> bool {
    step matches UnitStepView::Systemctl { args, .. } && args == seq![
        command,
        "--now"@,
        "stalzone-server-blocker.service"@,
    ]
}

/// With the block wanted at boot, the unit is enabled in the end, installed or
/// not, and never disabled; without it, an installed unit is disabled and nothing
/// is written or enabled.
pub proof fn unit_follows_the_setting(installed: bool, binary: Seq<char>)
    ensures
        ({
            let steps = boot_steps(true, installed, binary);
            &&& steps.len() >= 2
            &&& steps[0] == UnitStepView::EnsureRoot
            &&& switches(steps[steps.len() - 1], "enable"@)
            &&& stops_on_failure(steps[steps.len() - 1])
            &&& forall|i: int| 0 <= i < steps.len() ==> !switches(#[trigger] steps[i], "disable"@)
            &&& installed ==> steps.len() == 2
            &&& !installed ==> steps.len() == 5 && steps.take(3) == install_steps(binary)
                && steps.skip(3) == boot_steps(true, true, binary)
        }),
        ({
            let steps = boot_steps(false, true, binary);
            &&& steps.len() == 2
            &&& steps[0] == UnitStepView::EnsureRoot
            &&& switches(steps[1], "disable"@)
            &&& !stops_on_failure(steps[1])
        }),
        boot_steps(false, false, binary).len() == 0,
{
    reveal_strlit("enable");
    reveal_strlit("disable");
    reveal_strlit("daemon-reload");
    let steps = boot_steps(true, installed, binary);
    assert("enable"@.len() != "disable"@.len());
    assert(seq!["daemon-reload"@].len() == 1);
    let enabling = seq!["enable"@, "--now"@, "stalzone-server-blocker.service"@];
    let disabling = seq!["disable"@, "--now"@, "stalzone-server-blocker.service"@];
    assert(enabling[0] != disabling[0]);
    assert(steps[steps.len() - 1] == enable_steps()[1]);
    if !installed {
        assert(steps.take(3) =~= install_steps(binary));
        assert(steps.skip(3) =~= boot_steps(true, true, binary));
    }
}

/// Installing the unit asks for root, writes the unit for the program, and makes
/// systemd read it; any of these that fails ends it.
pub proof fn installing_writes_the_unit(binary: Seq<char>)
    ensures
        install_steps(binary).len() == 3,
        install_steps(binary)[0] == UnitStepView::EnsureRoot,
        install_steps(binary)[1] == (UnitStepView::WriteUnit { content: unit_text(binary) }),
        install_steps(binary)[2] matches UnitStepView::Systemctl { args, .. } && args == seq![
            "daemon-reload"@,
        ],
        forall|i: int| 0 <= i < 3 ==> stops_on_failure(#[trigger] install_steps(binary)[i]),
{
}

/// Enabling and disabling are each others' counterparts, except that a failure to
/// disable is passed over.
pub proof fn switching_the_unit()
    ensures
        enable_steps().len() == 2,
        disable_steps().len() == 2,
        enable_steps()[0] == UnitStepView::EnsureRoot,
        disable_steps()[0] == UnitStepView::EnsureRoot,
        switches(enable_steps()[1], "enable"@),
        switches(disable_steps()[1], "disable"@),
        stops_on_failure(enable_steps()[1]),
        !stops_on_failure(disable_steps()[1]),
        stops_on_failure(UnitStepView::EnsureRoot),
{
}

/// The views of steps tell all of them, in order.
pub proof fn step_views_tell_all(steps: Seq<UnitStep>)
    ensures
        step_views(steps).len() == steps.len(),
        forall|i: int|
            0 <= i < steps.len() ==> match steps[i] {
                UnitStep::EnsureRoot => #[trigger] step_views(steps)[i] == UnitStepView::EnsureRoot,
                UnitStep::WriteUnit { content } => step_views(steps)[i]
                    == (UnitStepView::WriteUnit { content: content@ }),
                UnitStep::Systemctl { args, required } => step_views(steps)[i]
                    == (UnitStepView::Systemctl { args: texts(args@), required }),
            },
{
}

/// A `systemctl` call that failed is reported with its arguments and with what it
/// said, without the white space around that.
pub proof fn systemctl_failure_tells_all(args: Seq<Seq<char>>, stderr: Seq<char>)
    ensures
        ({
            let text = systemctl_failure(args, stderr);
            let call = "systemctl "@ + joined(args, seq![' ']);
            let said = trimmed(stderr);
            &&& text.take(call.len() as int) == call
            &&& text.skip(text.len() - said.len()) == said
            &&& text.subrange(call.len() as int, text.len() - said.len())
                == " завершился с ошибкой: "@
        }),
{
    reveal_strlit(" ");
    assert(" "@ == seq![' ']);
    let text = systemctl_failure(args, stderr);
    let call = "systemctl "@ + joined(args, seq![' ']);
    let said = trimmed(stderr);
    assert(text.take(call.len() as int) =~= call);
    assert(text.skip(text.len() - said.len()) =~= said);
    assert(text.subrange(call.len() as int, text.len() - said.len()) =~= " завершился с ошибкой: "@);
}

} // verus!
