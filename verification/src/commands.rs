//! What the commands of the program print and hand on.

use vstd::prelude::*;

use crate::ping::{format_ping, latency_text, PingResult};
use crate::server::{server_views, Server, ServerView};
use crate::text::{decimal, decimal_text, is_among, pad, padded, texts};

verus! {

/// The width of the columns for a server's name and address.
pub const COLUMN: usize = 16;

/// The servers whose names are blocked, in their order.
pub open spec fn marked(servers: Seq<ServerView>, blocked: Seq<Seq<char>>) -> Seq<ServerView> {
    servers.filter(|s: ServerView| blocked.contains(s.name))
}

/// The addresses of servers.
pub open spec fn addresses(servers: Seq<ServerView>) -> Seq<Seq<char>> {
    servers.map_values(|s: ServerView| s.ip)
}

/// What is applied: the addresses to block, and what is then reported.
#[derive(Debug, PartialEq, Eq)]
pub struct ApplyPlan {
    pub ips: Vec<String>,
    pub report: String,
}

/// The addresses that are applied, and the report.
pub open spec fn planned(servers: Seq<ServerView>, blocked: Seq<Seq<char>>) -> (
    Seq<Seq<char>>,
    Seq<char>,
) {
    let ips = addresses(marked(servers, blocked));
    (ips, "применено правил: "@ + decimal(ips.len()))
}

/// The addresses of the servers whose names are blocked, in the order of the
/// servers, and the report of how many they are.
pub fn cmd_apply(servers: &Vec<Server>, blocked: &Vec<String>) -> (r: ApplyPlan)
    ensures
        texts(r.ips@) == addresses(marked(server_views(servers@), texts(blocked@))),
        r.report@ == "применено правил: "@ + decimal(r.ips@.len()),
        (texts(r.ips@), r.report@) == planned(server_views(servers@), texts(blocked@)),
{
    let mut ips: Vec<String> = Vec::new();
    let mut i: usize = 0;
    let ghost all = server_views(servers@);
    let ghost names = texts(blocked@);
    reveal(Seq::filter);
    assert(all.take(0) == Seq::<ServerView>::empty());
    assert(texts(ips@) == addresses(marked(all.take(0), names)));
    while i < servers.len()
        invariant
            i <= servers@.len(),
            all == server_views(servers@),
            names == texts(blocked@),
            texts(ips@) == addresses(marked(all.take(i as int), names)),
        decreases servers.len() - i,
    {
        proof {
            reveal(Seq::filter);
            assert(all.take(i + 1).drop_last() == all.take(i as int));
            assert(all.take(i + 1).last() == servers@[i as int]@);
        }
        let ghost before = texts(ips@);
        let ghost kept = marked(all.take(i as int), names);
        if is_among(blocked, servers[i].name.as_str()) {
            ips.push(servers[i].ip.clone());
            proof {
                assert(marked(all.take(i + 1), names) == kept.push(servers@[i as int]@));
                assert(addresses(kept.push(servers@[i as int]@)) == addresses(kept).push(
                    servers@[i as int].ip@,
                ));
                assert(texts(ips@) == before.push(servers@[i as int].ip@));
            }
        }
        i += 1;
    }
    assert(all.take(i as int) == all);
    let mut report = "применено правил: ".to_owned();
    report.append(decimal_text(ips.len() as u64).as_str());
    assert(texts(ips@).len() == ips@.len());
    ApplyPlan { ips, report }
}

/// The line of a server in the list of servers.
pub open spec fn list_line(server: ServerView, blocked: bool) -> Seq<char> {
    "["@ + (if blocked {
        "x"@
    } else {
        " "@
    }) + "] "@ + padded(server.name, COLUMN as nat) + " "@ + padded(server.ip, COLUMN as nat)
        + " "@ + server.pool + "/"@ + server.region
}

fn format_list_line(server: &Server, blocked: bool) -> (r: String)
    ensures
        r@ == list_line(server@, blocked),
{
    let mut r = "[".to_owned();
    r.append(if blocked {
        "x"
    } else {
        " "
    });
    r.append("] ");
    r.append(pad(server.name.as_str(), COLUMN).as_str());
    r.append(" ");
    r.append(pad(server.ip.as_str(), COLUMN).as_str());
    r.append(" ");
    r.append(server.pool.as_str());
    r.append("/");
    r.append(server.region.as_str());
    r
}

/// The servers that are listed: all of them, or those that are blocked.
pub open spec fn listed(
    servers: Seq<ServerView>,
    blocked: Seq<Seq<char>>,
    blocked_only: bool,
) -> Seq<ServerView> {
    if blocked_only {
        marked(servers, blocked)
    } else {
        servers
    }
}

/// The lines of listed servers.
pub open spec fn list_lines(servers: Seq<ServerView>, blocked: Seq<Seq<char>>) -> Seq<Seq<char>> {
    servers.map_values(|s: ServerView| list_line(s, blocked.contains(s.name)))
}

/// The list of servers.
pub open spec fn listing(
    servers: Seq<ServerView>,
    blocked: Seq<Seq<char>>,
    blocked_only: bool,
) -> Seq<Seq<char>> {
    list_lines(listed(servers, blocked, blocked_only), blocked)
}

/// The lines of the list of servers.
pub fn cmd_list(servers: &Vec<Server>, blocked: &Vec<String>, blocked_only: bool) -> (r: Vec<
    String,
>)
    ensures
        texts(r@) == list_lines(
            listed(server_views(servers@), texts(blocked@), blocked_only),
            texts(blocked@),
        ),
        texts(r@) == listing(server_views(servers@), texts(blocked@), blocked_only),
{
    let mut r: Vec<String> = Vec::new();
    let mut i: usize = 0;
    let ghost all = server_views(servers@);
    let ghost names = texts(blocked@);
    reveal(Seq::filter);
    assert(all.take(0) == Seq::<ServerView>::empty());
    assert(texts(r@) == list_lines(listed(all.take(0), names, blocked_only), names));
    while i < servers.len()
        invariant
            i <= servers@.len(),
            all == server_views(servers@),
            names == texts(blocked@),
            texts(r@) == list_lines(listed(all.take(i as int), names, blocked_only), names),
        decreases servers.len() - i,
    {
        proof {
            reveal(Seq::filter);
            assert(all.take(i + 1).drop_last() == all.take(i as int));
            assert(all.take(i + 1) == all.take(i as int).push(servers@[i as int]@));
        }
        let is_blocked = is_among(blocked, servers[i].name.as_str());
        if !blocked_only || is_blocked {
            let ghost before = texts(r@);
            let ghost kept = listed(all.take(i as int), names, blocked_only);
            let ghost view = servers@[i as int]@;
            let line = format_list_line(&servers[i], is_blocked);
            let ghost line_view = line@;
            r.push(line);
            proof {
                assert(listed(all.take(i + 1), names, blocked_only) == kept.push(view));
                assert(list_lines(kept.push(view), names) == list_lines(kept, names).push(
                    line_view,
                ));
                assert(texts(r@) == before.push(line_view));
            }
        } else {
            assert(listed(all.take(i + 1), names, blocked_only) == listed(
                all.take(i as int),
                names,
                blocked_only,
            ));
        }
        i += 1;
    }
    assert(all.take(i as int) == all);
    r
}

/// The line of a server in the report of a probe.
pub open spec fn ping_line(server: ServerView, result: PingResult) -> Seq<char> {
    padded(server.name, COLUMN as nat) + " "@ + padded(server.ip, COLUMN as nat) + " "@
        + latency_text(Some(result))
}

/// The report of a probe.
pub open spec fn ping_report(servers: Seq<ServerView>, results: Seq<PingResult>) -> Seq<Seq<char>> {
    Seq::new(
        if servers.len() <= results.len() {
            servers.len()
        } else {
            results.len()
        },
        |i: int| ping_line(servers[i], results[i]),
    )
}

/// The lines of the report of a probe, for as many servers as have a result.
pub fn cmd_ping(servers: &Vec<Server>, results: &Vec<PingResult>) -> (r: Vec<String>)
    ensures
        texts(r@) == Seq::new(
            if servers@.len() <= results@.len() {
                servers@.len()
            } else {
                results@.len()
            },
            |i: int| ping_line(servers@[i]@, results@[i]),
        ),
        texts(r@) == ping_report(server_views(servers@), results@),
{
    let mut r: Vec<String> = Vec::new();
    let mut i: usize = 0;
    while i < servers.len() && i < results.len()
        invariant
            i <= servers@.len(),
            i <= results@.len(),
            r@.len() == i,
            forall|k: int|
                0 <= k < i ==> (#[trigger] r@[k])@ == ping_line(servers@[k]@, results@[k]),
        decreases servers.len() - i,
    {
        let mut line = pad(servers[i].name.as_str(), COLUMN);
        line.append(" ");
        line.append(pad(servers[i].ip.as_str(), COLUMN).as_str());
        line.append(" ");
        line.append(format_ping(Some(results[i])).as_str());
        r.push(line);
        i += 1;
    }
    r
}

/// A synchronisation: the login it uses, and whether its report is printed.
#[derive(Debug, PartialEq, Eq)]
pub struct SyncPlan {
    pub login: String,
    pub print_report: bool,
}

/// The login that a synchronisation uses, and whether its report is printed.
pub open spec fn sync_planned(login: Option<Seq<char>>, api_login: Seq<char>, quiet: bool) -> (
    Seq<char>,
    bool,
) {
    (
        match login {
            Some(given) => given,
            None => api_login,
        },
        !quiet,
    )
}

/// Plans a synchronisation: it uses the login that is given, or else that of the
/// settings, and prints its report unless it is to be quiet.
pub fn cmd_sync(login: Option<&str>, api_login: &str, quiet: bool) -> (r: SyncPlan)
    ensures
        r.login@ == (match login {
            Some(given) => given@,
            None => api_login@,
        }),
        r.print_report == !quiet,
        (r.login@, r.print_report) == sync_planned(
            match login {
                Some(given) => Some(given@),
                None => None,
            },
            api_login@,
            quiet,
        ),
{
    let login = match login {
        Some(given) => given,
        None => api_login,
    };
    SyncPlan { login: login.to_owned(), print_report: !quiet }
}

/// Removing the block is reported.
pub fn cmd_clear() -> (r: &'static str)
    ensures
        r@ == "блокировка снята"@,
{
    "блокировка снята"
}

/// The list of blocked servers has a marked line for each address that is
/// applied, in the same order.
pub proof fn applied_servers_are_listed(servers: Seq<ServerView>, blocked: Seq<Seq<char>>)
    ensures
        ({
            let lines = list_lines(listed(servers, blocked, true), blocked);
            let applied = marked(servers, blocked);
            &&& lines.len() == addresses(applied).len()
            &&& forall|i: int|
                0 <= i < lines.len() ==> #[trigger] lines[i] == list_line(applied[i], true)
                    && addresses(applied)[i] == applied[i].ip
        }),
{
    let keep = |s: ServerView| blocked.contains(s.name);
    let applied = marked(servers, blocked);
    assert forall|i: int| 0 <= i < applied.len() implies blocked.contains(
        (#[trigger] applied[i]).name,
    ) by {
        servers.lemma_filter_pred(keep, i);
        assert(keep(applied[i]));
    }
}

} // verus!
