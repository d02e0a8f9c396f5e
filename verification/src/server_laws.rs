//! What holds of the servers that are loaded from a tunnel list.

use vstd::prelude::*;

use crate::server::{
    alike, ensured_tunnels, entry_server, entry_servers, first_row, lemma_insert, loaded_entries,
    loaded_servers, pool_region, pool_table, server_le, server_list, server_views, servers_result,
    stably_sorted, tunnels_content, used_tunnels, Server, ServerView, TunnelsFile, UserTunnels,
};
use crate::text::text_le;
use crate::text_laws::last_occurrence_cuts;
use crate::tunnels::{
    entries_result, entry_views, option_text, parse_list, LineCaptures, TunnelEntry,
    TunnelEntryView, TunnelError, TunnelErrorView,
};

verus! {

/// The view of a server tells all of it.
pub proof fn server_view_tells_all(server: Server)
    ensures
        server@.name == server.name@,
        server@.ip == server.ip@,
        server@.port == server.port,
        server@.pool == server.pool@,
        server@.region == server.region@,
{
}

/// The views of servers are those of each, in order.
pub proof fn server_views_tell_all(servers: Seq<Server>)
    ensures
        server_views(servers).len() == servers.len(),
        forall|i: int|
            0 <= i < servers.len() ==> #[trigger] server_views(servers)[i] == servers[i]@,
{
}

/// A pool that an entry names goes before the inferred one and changes nothing
/// else: two entries that differ only in their pools give servers that differ
/// only in their pools.
pub proof fn named_pool_changes_the_pool_only(entry: TunnelEntryView, pool: Seq<char>)
    ensures
        ({
            let plain = entry_server(TunnelEntryView { pool: None, ..entry });
            let named = entry_server(TunnelEntryView { pool: Some(pool), ..entry });
            &&& named.pool == pool
            &&& named == (ServerView { pool, ..plain })
            &&& plain.pool == pool_region(entry.name).0
            &&& plain.region == pool_region(entry.name).1
            &&& plain.name == entry.name
            &&& plain.ip == entry.ip
            &&& plain.port == entry.port
        }),
{
}

/// Every server of the game's known pools, by the beginning of its name.
pub open spec fn known(prefix: Seq<char>, region: Seq<char>) -> bool {
    ||| region == "EU"@ && (prefix == "GAME-EU"@ || prefix == "WAW2"@ || prefix == "WAW"@)
    ||| region == "NA"@ && (prefix == "GAME-NA"@ || prefix == "NYC"@ || prefix == "LAX"@)
    ||| region == "SEA"@ && (prefix == "GAME-SEA"@ || prefix == "SYD"@)
    ||| region == "RU"@ && {
        ||| prefix == "MSK1"@
        ||| prefix == "MSK2"@
        ||| prefix == "EKB"@
        ||| prefix == "SMR"@
        ||| prefix == "RST"@
        ||| prefix == "NSK"@
        ||| prefix == "KRY"@
        ||| prefix == "KHB"@
        ||| prefix == "AST"@
        ||| prefix == "RIG"@
        ||| prefix == "VIL"@
        ||| prefix == "MNK"@
        ||| prefix == "TAS"@
    }
}

proof fn lemma_first_row_index(rows: Seq<(Seq<char>, Seq<char>)>, name: Seq<char>) -> (m: int)
    ensures
        0 <= m <= rows.len(),
        forall|j: int| 0 <= j < m ==> !(#[trigger] rows[j]).0.is_prefix_of(name),
        m < rows.len() ==> rows[m].0.is_prefix_of(name) && first_row(rows, name) == Some(rows[m]),
        m == rows.len() ==> first_row(rows, name) is None,
    decreases rows.len(),
{
    if rows.len() == 0 || rows[0].0.is_prefix_of(name) {
        0
    } else {
        let rest = rows.drop_first();
        let k = lemma_first_row_index(rest, name);
        assert forall|j: int| 0 <= j < k + 1 implies !(#[trigger] rows[j]).0.is_prefix_of(name) by {
            if j > 0 {
                assert(rows[j] == rest[j - 1]);
            }
        }
        k + 1
    }
}

proof fn lemma_rows()
    ensures
        pool_table().len() == 21,
        forall|k: int| 0 <= k < 21 ==> known((#[trigger] pool_table()[k]).0, pool_table()[k].1),
        forall|p: Seq<char>, r: Seq<char>| #[trigger]
            known(p, r) ==> exists|k: int| 0 <= k < 21 && #[trigger] pool_table()[k] == (p, r),
        pool_table()[3] == ("WAW2"@, "EU"@),
        forall|k: int| 0 <= k <= 3 ==> (#[trigger] pool_table()[k]).0 != "WAW"@,
{
    lemma_letters();
    let t = pool_table();
    assert(t[0] == ("GAME-EU"@, "EU"@));
    assert(t[1] == ("GAME-NA"@, "NA"@));
    assert(t[2] == ("GAME-SEA"@, "SEA"@));
    assert(t[3] == ("WAW2"@, "EU"@));
    assert(t[4] == ("WAW"@, "EU"@));
    assert(t[5] == ("NYC"@, "NA"@));
    assert(t[6] == ("LAX"@, "NA"@));
    assert(t[7] == ("SYD"@, "SEA"@));
    assert(t[8] == ("MSK2"@, "RU"@));
    assert(t[9] == ("MSK1"@, "RU"@));
    assert(t[10] == ("EKB"@, "RU"@));
    assert(t[11] == ("SMR"@, "RU"@));
    assert(t[12] == ("RST"@, "RU"@));
    assert(t[13] == ("NSK"@, "RU"@));
    assert(t[14] == ("KRY"@, "RU"@));
    assert(t[15] == ("KHB"@, "RU"@));
    assert(t[16] == ("AST"@, "RU"@));
    assert(t[17] == ("RIG"@, "RU"@));
    assert(t[18] == ("VIL"@, "RU"@));
    assert(t[19] == ("MNK"@, "RU"@));
    assert(t[20] == ("TAS"@, "RU"@));
}

proof fn lemma_prefix_chars(prefix: Seq<char>, name: Seq<char>)
    ensures
        prefix.is_prefix_of(name) ==> forall|i: int|
            0 <= i < prefix.len() ==> #[trigger] prefix[i] == name[i],
        prefix.is_prefix_of(name) ==> prefix.len() <= name.len(),
{
    if prefix.is_prefix_of(name) {
        assert forall|i: int| 0 <= i < prefix.len() implies #[trigger] prefix[i] == name[i] by {
            assert(prefix[i] == name.subrange(0, prefix.len() as int)[i]);
        }
    }
}

/// What the letters of the known prefixes are, as far as it takes to tell them apart.
spec fn letters(prefix: Seq<char>, code: (char, char, char, char, char)) -> bool {
    &&& prefix.len() >= 3
    &&& prefix[0] == code.0 && prefix[1] == code.1 && prefix[2] == code.2
    &&& code.3 != ' ' ==> prefix.len() >= 4 && prefix[3] == code.3
    &&& code.4 != ' ' ==> prefix.len() >= 6 && prefix[5] == code.4
}

proof fn lemma_letters()
    ensures
        letters("GAME-EU"@, ('G', 'A', 'M', 'E', 'E')),
        letters("GAME-NA"@, ('G', 'A', 'M', 'E', 'N')),
        letters("GAME-SEA"@, ('G', 'A', 'M', 'E', 'S')),
        letters("WAW2"@, ('W', 'A', 'W', '2', ' ')),
        letters("WAW"@, ('W', 'A', 'W', ' ', ' ')),
        "WAW"@.len() == 3,
        letters("NYC"@, ('N', 'Y', 'C', ' ', ' ')),
        letters("LAX"@, ('L', 'A', 'X', ' ', ' ')),
        letters("SYD"@, ('S', 'Y', 'D', ' ', ' ')),
        letters("MSK2"@, ('M', 'S', 'K', '2', ' ')),
        letters("MSK1"@, ('M', 'S', 'K', '1', ' ')),
        letters("EKB"@, ('E', 'K', 'B', ' ', ' ')),
        letters("SMR"@, ('S', 'M', 'R', ' ', ' ')),
        letters("RST"@, ('R', 'S', 'T', ' ', ' ')),
        letters("NSK"@, ('N', 'S', 'K', ' ', ' ')),
        letters("KRY"@, ('K', 'R', 'Y', ' ', ' ')),
        letters("KHB"@, ('K', 'H', 'B', ' ', ' ')),
        letters("AST"@, ('A', 'S', 'T', ' ', ' ')),
        letters("RIG"@, ('R', 'I', 'G', ' ', ' ')),
        letters("VIL"@, ('V', 'I', 'L', ' ', ' ')),
        letters("MNK"@, ('M', 'N', 'K', ' ', ' ')),
        letters("TAS"@, ('T', 'A', 'S', ' ', ' ')),
{
    reveal_strlit("GAME-EU");
    reveal_strlit("GAME-NA");
    reveal_strlit("GAME-SEA");
    reveal_strlit("WAW2");
    reveal_strlit("WAW");
    reveal_strlit("NYC");
    reveal_strlit("LAX");
    reveal_strlit("SYD");
    reveal_strlit("MSK2");
    reveal_strlit("MSK1");
    reveal_strlit("EKB");
    reveal_strlit("SMR");
    reveal_strlit("RST");
    reveal_strlit("NSK");
    reveal_strlit("KRY");
    reveal_strlit("KHB");
    reveal_strlit("AST");
    reveal_strlit("RIG");
    reveal_strlit("VIL");
    reveal_strlit("MNK");
    reveal_strlit("TAS");
}

/// No name begins with two known prefixes, but for one that goes on from the other.
proof fn lemma_known_apart(p: Seq<char>, r: Seq<char>, q: Seq<char>, t: Seq<char>, name: Seq<char>)
    requires
        known(p, r),
        known(q, t),
        p.is_prefix_of(name),
        q.is_prefix_of(name),
    ensures
        p == q || (p == "WAW"@ && q == "WAW2"@) || (p == "WAW2"@ && q == "WAW"@),
{
    lemma_letters();
    lemma_prefix_chars(p, name);
    lemma_prefix_chars(q, name);
    assert(p.len() >= 3 && q.len() >= 3);
    assert(p[0] == q[0] && p[1] == q[1] && p[2] == q[2]);
    if p.len() >= 4 && q.len() >= 4 {
        assert(p[3] == q[3]);
    }
    if p.len() >= 6 && q.len() >= 6 {
        assert(p[5] == q[5]);
    }
}

/// A name that begins with a known prefix is of that pool and its region, whatever
/// follows; of two prefixes that fit, the longer one decides.
pub proof fn known_prefix_decides(prefix: Seq<char>, region: Seq<char>, rest: Seq<char>)
    requires
        known(prefix, region),
        prefix == "WAW"@ ==> !("WAW2"@.is_prefix_of(prefix + rest)),
    ensures
        pool_region(prefix + rest) == (prefix, region),
{
    let name = prefix + rest;
    assert(name.subrange(0, prefix.len() as int) == prefix);
    lemma_rows();
    let m = lemma_first_row_index(pool_table(), name);
    let k = choose|k: int| 0 <= k < 21 && #[trigger] pool_table()[k] == (prefix, region);
    assert(m <= k);
    let row = pool_table()[m];
    if prefix == "WAW2"@ {
        assert(pool_table()[3].0.is_prefix_of(name));
        assert(m <= 3);
    }
    lemma_known_apart(row.0, row.1, prefix, region, name);
    if row.0 == prefix {
        lemma_regions_apart(row.1, region, prefix);
    }
}

proof fn lemma_regions_apart(r: Seq<char>, t: Seq<char>, p: Seq<char>)
    requires
        known(p, r),
        known(p, t),
    ensures
        r == t,
{
    lemma_letters();
}

/// A name without a known prefix is of the pool before its last dash, in an
/// unknown region; without a dash it is of its own pool.
pub proof fn unknown_names_keep_their_stem(name: Seq<char>, stem: Seq<char>, tail: Seq<char>)
    requires
        forall|prefix: Seq<char>, region: Seq<char>| #[trigger]
            known(prefix, region) ==> !prefix.is_prefix_of(name),
        forall|i: int| 0 <= i < tail.len() ==> #[trigger] tail[i] != '-',
        name == stem + seq!['-'] + tail || name == tail,
    ensures
        pool_region(name).1 == "UNK"@,
        name == stem + seq!['-'] + tail ==> pool_region(name).0 == stem,
        name == tail ==> pool_region(name).0 == name,
{
    lemma_rows();
    let m = lemma_first_row_index(pool_table(), name);
    if m < pool_table().len() {
        assert(known(pool_table()[m].0, pool_table()[m].1));
    }
    last_occurrence_cuts(stem, '-', tail);
}

proof fn lemma_place(sorted: Seq<ServerView>, x: ServerView, p: int) -> (r: int)
    requires
        0 <= p <= sorted.len(),
        p < sorted.len() ==> !server_le(sorted[p], x),
    ensures
        0 <= r <= sorted.len(),
        r > 0 ==> server_le(sorted[r - 1], x),
        r < sorted.len() ==> !server_le(sorted[r], x),
    decreases p,
{
    if p > 0 && !server_le(sorted[p - 1], x) {
        lemma_place(sorted, x, p - 1)
    } else {
        p
    }
}

proof fn lemma_sorted_exists(listed: Seq<ServerView>) -> (sorted: Seq<ServerView>)
    ensures
        stably_sorted(listed, sorted),
    decreases listed.len(),
{
    if listed.len() == 0 {
        listed
    } else {
        let front = listed.drop_last();
        let x = listed.last();
        let before = lemma_sorted_exists(front);
        let p = lemma_place(before, x, before.len() as int);
        lemma_insert(before, x, p);
        let r = before.insert(p, x);
        assert forall|pool: Seq<char>, name: Seq<char>| #[trigger]
            alike(r, pool, name) == alike(listed, pool, name) by {
            let same = |s: ServerView| s.pool == pool && s.name == name;
            assert(alike(before, pool, name) == alike(front, pool, name));
            assert(alike(r, pool, name) == alike(before.push(x), pool, name));
            assert(before.push(x) == before + seq![x]);
            assert(listed == front + seq![x]);
            Seq::filter_distributes_over_add(before, seq![x], same);
            Seq::filter_distributes_over_add(front, seq![x], same);
        }
        r
    }
}

proof fn lemma_count_alike(servers: Seq<ServerView>, x: ServerView)
    ensures
        servers.to_multiset().count(x) == alike(servers, x.pool, x.name).to_multiset().count(x),
    decreases servers.len(),
{
    broadcast use vstd::seq_lib::group_to_multiset_ensures;

    reveal(Seq::filter);
    if servers.len() > 0 {
        let front = servers.drop_last();
        let last = servers.last();
        lemma_count_alike(front, x);
        assert(servers == front.push(last));
        if last.pool == x.pool && last.name == x.name {
            assert(alike(servers, x.pool, x.name) == alike(front, x.pool, x.name).push(last));
        } else {
            assert(last != x);
        }
    } else {
        assert(alike(servers, x.pool, x.name) == servers);
    }
}

/// The servers that are loaded are those of the entries, each as often as it is
/// listed, ordered by pool and within a pool by name.
pub proof fn loading_keeps_and_orders(entries: Seq<TunnelEntryView>)
    ensures
        ({
            let listed = entries.map_values(|e: TunnelEntryView| entry_server(e));
            let servers = server_list(entries);
            &&& servers.len() == entries.len()
            &&& servers.to_multiset() == listed.to_multiset()
            &&& forall|i: int, j: int|
                0 <= i < j < servers.len() ==> if (#[trigger] servers[i]).pool == (
                #[trigger] servers[j]).pool {
                    text_le(servers[i].name, servers[j].name)
                } else {
                    text_le(servers[i].pool, servers[j].pool)
                }
        }),
{
    broadcast use vstd::seq_lib::group_to_multiset_ensures;

    let listed = entries.map_values(|e: TunnelEntryView| entry_server(e));
    assert(listed == entry_servers(entries));
    let sorted = lemma_sorted_exists(listed);
    let servers = server_list(entries);
    assert(stably_sorted(listed, servers));
    assert forall|x: ServerView|
        servers.to_multiset().count(x) == #[trigger] listed.to_multiset().count(x) by {
        lemma_count_alike(servers, x);
        lemma_count_alike(listed, x);
        assert(alike(servers, x.pool, x.name) == alike(listed, x.pool, x.name));
    }
    assert(servers.to_multiset() == listed.to_multiset());
    assert(servers.len() == servers.to_multiset().len());
    assert(listed.len() == listed.to_multiset().len());
    assert forall|i: int, j: int| 0 <= i < j < servers.len() implies if (
    #[trigger] servers[i]).pool == (#[trigger] servers[j]).pool {
        text_le(servers[i].name, servers[j].name)
    } else {
        text_le(servers[i].pool, servers[j].pool)
    } by {
        assert(server_le(servers[i], servers[j]));
    }
}

/// Servers of the same pool and name keep the order in which they are listed.
pub proof fn loading_keeps_the_order_of_equals(
    entries: Seq<TunnelEntryView>,
    pool: Seq<char>,
    name: Seq<char>,
)
    ensures
        server_list(entries).filter(|s: ServerView| s.pool == pool && s.name == name)
            == entries.map_values(|e: TunnelEntryView| entry_server(e)).filter(
            |s: ServerView| s.pool == pool && s.name == name,
        ),
{
    let listed = entries.map_values(|e: TunnelEntryView| entry_server(e));
    assert(listed == entry_servers(entries));
    let sorted = lemma_sorted_exists(listed);
    assert(stably_sorted(listed, server_list(entries)));
    assert(alike(server_list(entries), pool, name) == alike(listed, pool, name));
}

/// Every entry of the list is found among the servers: with its name, its address
/// and its port, in the region that its name stands for, and in the pool that it
/// names or else in the one that its name stands for.
pub proof fn every_entry_has_its_server(entries: Seq<TunnelEntryView>, i: int)
    requires
        0 <= i < entries.len(),
    ensures
        exists|k: int|
            0 <= k < server_list(entries).len() && {
                let server = #[trigger] server_list(entries)[k];
                &&& server.name == entries[i].name
                &&& server.ip == entries[i].ip
                &&& server.port == entries[i].port
                &&& server.region == pool_region(entries[i].name).1
                &&& entries[i].pool matches Some(pool) ==> server.pool == pool
                &&& entries[i].pool is None ==> server.pool == pool_region(entries[i].name).0
            },
{
    broadcast use vstd::seq_lib::group_to_multiset_ensures;

    loading_keeps_and_orders(entries);
    let listed = entries.map_values(|e: TunnelEntryView| entry_server(e));
    let server = entry_server(entries[i]);
    assert(listed[i] == server);
    assert(listed.contains(server));
    assert(listed.to_multiset().count(server) > 0);
    assert(server_list(entries).contains(server));
    let k = choose|k: int| 0 <= k < server_list(entries).len() && server_list(entries)[k] == server;
    assert(server_list(entries)[k] == server);
}

/// A tunnels file that was found decides alone; without one, the list that comes
/// with the program is read just as a file with that text would be. A list that
/// is refused is refused for the reason that reading its entries gives.
pub proof fn found_file_decides(content: Seq<char>, other: Seq<char>)
    ensures
        tunnels_content(Some(content), other) == content,
        tunnels_content(None, content) == content,
        loaded_entries(Some(content), other) == parse_list(content),
        loaded_servers(Some(content), other) == loaded_servers(None, content),
        loaded_servers(None, content) is Ok <==> parse_list(content) is Ok,
        parse_list(content) matches Err(error) ==> loaded_servers(None, content)->Err_0 == error,
        parse_list(content) matches Ok(entries) ==> loaded_servers(None, content)->Ok_0
            == server_list(entries),
{
}

/// The file of the configuration directory goes before any other, and one is used
/// wherever there is one.
pub proof fn config_file_goes_first(config_is_file: Option<bool>, working_is_file: bool)
    ensures
        used_tunnels(Some(true), working_is_file) == Some(TunnelsFile::Config),
        used_tunnels(config_is_file, working_is_file) is None <==> config_is_file != Some(true)
            && !working_is_file,
        used_tunnels(config_is_file, working_is_file) == Some(TunnelsFile::Config)
            ==> config_is_file == Some(true),
{
}

/// The user's tunnels file is never replaced, and copied only from another one.
pub proof fn user_file_is_kept(user_is_file: bool, found_elsewhere: Option<bool>)
    ensures
        ensured_tunnels(user_is_file, found_elsewhere) == UserTunnels::Keep <==> user_is_file,
        ensured_tunnels(user_is_file, found_elsewhere) == UserTunnels::Copy <==> !user_is_file
            && found_elsewhere == Some(true),
{
}

/// The view of an entry tells all of it, and the views of a list are those of
/// each, in order.
pub proof fn entry_views_tell_all(entries: Seq<TunnelEntry>)
    ensures
        entry_views(entries).len() == entries.len(),
        forall|i: int|
            0 <= i < entries.len() ==> {
                let view = #[trigger] entry_views(entries)[i];
                &&& view.name == entries[i].name@
                &&& view.ip == entries[i].ip@
                &&& view.port == entries[i].port
                &&& entries[i].pool matches Some(pool) ==> view.pool == Some(pool@)
                &&& entries[i].pool is None ==> view.pool is None
            },
{
}

/// The views of what reading gives tell whether it succeeded, and all of it.
pub proof fn result_views_tell_all(
    entries: Result<Vec<TunnelEntry>, TunnelError>,
    servers: Result<Vec<Server>, TunnelError>,
    text: Option<String>,
)
    ensures
        entries matches Ok(list) ==> entries_result(entries)
            == Ok::<Seq<TunnelEntryView>, TunnelErrorView>(entry_views(list@)),
        entries matches Err(error) ==> entries_result(entries)
            == Err::<Seq<TunnelEntryView>, TunnelErrorView>(error@),
        servers matches Ok(list) ==> servers_result(servers)
            == Ok::<Seq<ServerView>, TunnelErrorView>(server_views(list@)),
        servers matches Err(error) ==> servers_result(servers)
            == Err::<Seq<ServerView>, TunnelErrorView>(error@),
        text matches Some(string) ==> option_text(text) == Some(string@),
        text is None ==> option_text(text) is None,
{
}

/// The view of an error tells all of it.
pub proof fn error_view_tells_all(error: TunnelError)
    ensures
        match error {
            TunnelError::InvalidLine { line_no, line } => error@ is InvalidLine
                && error@->InvalidLine_line_no == line_no && error@->line == line@,
            TunnelError::InvalidPort { line_no } => error@ is InvalidPort
                && error@->InvalidPort_line_no == line_no,
            TunnelError::NoServers => error@ is NoServers,
        },
{
}

/// The view of the groups of a line tells all of them.
pub proof fn group_view_tells_all(groups: LineCaptures)
    ensures
        groups@.name == groups.name@,
        groups@.ip == groups.ip@,
        groups.port matches Some(text) ==> groups@.port == Some(text@),
        groups.port is None ==> groups@.port is None,
        groups.pool matches Some(text) ==> groups@.pool == Some(text@),
        groups.pool is None ==> groups@.pool is None,
{
}

} // verus!
