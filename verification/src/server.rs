//! Servers: the entries of the tunnel list with their pool and region, in order.

use vstd::prelude::*;

use crate::text::{
    before_last, head_before_last, not_after, starts_with, text_le, text_le_antisymmetric,
    text_le_total, text_le_transitive,
};
use crate::tunnels::{
    entries_result, entry_views, option_text, parse_list, parse_tunnel_entries, TunnelEntry,
    TunnelEntryView, TunnelError, TunnelErrorView,
};

verus! {

/// A server of the game.
#[derive(Debug, PartialEq, Eq)]
pub struct Server {
    pub name: String,
    pub ip: String,
    pub port: u16,
    pub pool: String,
    pub region: String,
}

#[verifier::ext_equal]
pub struct ServerView {
    pub name: Seq<char>,
    pub ip: Seq<char>,
    pub port: u16,
    pub pool: Seq<char>,
    pub region: Seq<char>,
}

impl View for Server {
    type V = ServerView;

    open spec fn view(&self) -> ServerView {
        ServerView {
            name: self.name@,
            ip: self.ip@,
            port: self.port,
            pool: self.pool@,
            region: self.region@,
        }
    }
}

impl Clone for Server {
    fn clone(&self) -> (r: Self)
        ensures
            r@ == self@,
    {
        Server {
            name: self.name.clone(),
            ip: self.ip.clone(),
            port: self.port,
            pool: self.pool.clone(),
            region: self.region.clone(),
        }
    }
}

/// The views of a sequence of servers.
pub open spec fn server_views(servers: Seq<Server>) -> Seq<ServerView> {
    Seq::new(servers.len(), |i: int| servers[i]@)
}

/// The pools that are known by the prefix of a server's name, each with its
/// region. The first prefix that fits decides.
pub open spec fn pool_table() -> Seq<(Seq<char>, Seq<char>)> {
    seq![
        ("GAME-EU"@, "EU"@),
        ("GAME-NA"@, "NA"@),
        ("GAME-SEA"@, "SEA"@),
        ("WAW2"@, "EU"@),
        ("WAW"@, "EU"@),
        ("NYC"@, "NA"@),
        ("LAX"@, "NA"@),
        ("SYD"@, "SEA"@),
        ("MSK2"@, "RU"@),
        ("MSK1"@, "RU"@),
        ("EKB"@, "RU"@),
        ("SMR"@, "RU"@),
        ("RST"@, "RU"@),
        ("NSK"@, "RU"@),
        ("KRY"@, "RU"@),
        ("KHB"@, "RU"@),
        ("AST"@, "RU"@),
        ("RIG"@, "RU"@),
        ("VIL"@, "RU"@),
        ("MNK"@, "RU"@),
        ("TAS"@, "RU"@),
    ]
}

/// The first row whose prefix begins the name.
pub open spec fn first_row(rows: Seq<(Seq<char>, Seq<char>)>, name: Seq<char>) -> Option<
    (Seq<char>, Seq<char>),
>
    decreases rows.len(),
{
    if rows.len() == 0 {
        None
    } else if rows[0].0.is_prefix_of(name) {
        Some(rows[0])
    } else {
        first_row(rows.drop_first(), name)
    }
}

/// The pool and the region that a name stands for. A name with no known prefix
/// is of the pool before its last dash, or of its own, in an unknown region.
pub open spec fn pool_region(name: Seq<char>) -> (Seq<char>, Seq<char>) {
    match first_row(pool_table(), name) {
        Some(row) => row,
        None => (
            match before_last(name, '-') {
                Some(head) => head,
                None => name,
            },
            "UNK"@,
        ),
    }
}

fn known_pools() -> (r: Vec<(&'static str, &'static str)>)
    ensures
        Seq::new(r@.len(), |i: int| (r@[i].0@, r@[i].1@)) == pool_table(),
{
    let r: Vec<(&'static str, &'static str)> = vec![
        ("GAME-EU", "EU"),
        ("GAME-NA", "NA"),
        ("GAME-SEA", "SEA"),
        ("WAW2", "EU"),
        ("WAW", "EU"),
        ("NYC", "NA"),
        ("LAX", "NA"),
        ("SYD", "SEA"),
        ("MSK2", "RU"),
        ("MSK1", "RU"),
        ("EKB", "RU"),
        ("SMR", "RU"),
        ("RST", "RU"),
        ("NSK", "RU"),
        ("KRY", "RU"),
        ("KHB", "RU"),
        ("AST", "RU"),
        ("RIG", "RU"),
        ("VIL", "RU"),
        ("MNK", "RU"),
        ("TAS", "RU"),
    ];
    r
}

/// The pool and the region that a name stands for.
pub fn infer_pool_region(name: &str) -> (r: (String, String))
    ensures
        (r.0@, r.1@) == pool_region(name@),
{
    let known = known_pools();
    let ghost rows = pool_table();
    let mut i: usize = 0;
    assert(rows.skip(0) == rows);
    while i < known.len()
        invariant
            Seq::new(known@.len(), |k: int| (known@[k].0@, known@[k].1@)) == rows,
            rows == pool_table(),
            i <= known@.len(),
            first_row(rows, name@) == first_row(rows.skip(i as int), name@),
        decreases known.len() - i,
    {
        let (prefix, region) = known[i];
        assert(rows[i as int] == (prefix@, region@));
        assert(rows.skip(i as int).drop_first() == rows.skip(i + 1));
        if starts_with(name, prefix) {
            return (prefix.to_owned(), region.to_owned());
        }
        i += 1;
    }
    (head_before_last(name, '-'), "UNK".to_owned())
}

/// The server of an entry: a pool that the entry names goes before the one that
/// its name stands for.
pub open spec fn entry_server(entry: TunnelEntryView) -> ServerView {
    let (pool, region) = pool_region(entry.name);
    ServerView {
        name: entry.name,
        ip: entry.ip,
        port: entry.port,
        pool: match entry.pool {
            Some(named) => named,
            None => pool,
        },
        region,
    }
}

pub open spec fn entry_servers(entries: Seq<TunnelEntryView>) -> Seq<ServerView> {
    Seq::new(entries.len(), |i: int| entry_server(entries[i]))
}

/// Order of servers by pool, then by name.
pub open spec fn server_le(a: ServerView, b: ServerView) -> bool {
    if a.pool == b.pool {
        text_le(a.name, b.name)
    } else {
        text_le(a.pool, b.pool)
    }
}

/// Whether the servers are ordered by pool and name.
pub open spec fn in_order(servers: Seq<ServerView>) -> bool {
    forall|i: int, j: int|
        0 <= i < j < servers.len() ==> server_le(#[trigger] servers[i], #[trigger] servers[j])
}

/// The servers with the given pool and name, in their order.
pub open spec fn alike(servers: Seq<ServerView>, pool: Seq<char>, name: Seq<char>) -> Seq<
    ServerView,
> {
    servers.filter(|s: ServerView| s.pool == pool && s.name == name)
}

/// Whether `sorted` holds the servers of `listed` ordered by pool and name, those
/// with the same pool and name in the order in which they were listed.
pub open spec fn stably_sorted(listed: Seq<ServerView>, sorted: Seq<ServerView>) -> bool {
    &&& in_order(sorted)
    &&& forall|pool: Seq<char>, name: Seq<char>| #[trigger]
        alike(sorted, pool, name) == alike(listed, pool, name)
}

proof fn lemma_server_le_total(a: ServerView, b: ServerView)
    ensures
        server_le(a, b) || server_le(b, a),
{
    text_le_total(a.name, b.name);
    text_le_total(a.pool, b.pool);
}

proof fn lemma_server_le_transitive(a: ServerView, b: ServerView, c: ServerView)
    requires
        server_le(a, b),
        server_le(b, c),
    ensures
        server_le(a, c),
{
    if a.pool == b.pool && b.pool == c.pool {
        text_le_transitive(a.name, b.name, c.name);
    } else if a.pool != b.pool && b.pool != c.pool {
        text_le_transitive(a.pool, b.pool, c.pool);
        if a.pool == c.pool {
            text_le_antisymmetric(a.pool, b.pool);
        }
    }
}

/// Inserting a server after all those that are not after it keeps the order and
/// adds it as the last of its kind.
pub proof fn lemma_insert(sorted: Seq<ServerView>, x: ServerView, p: int)
    requires
        in_order(sorted),
        0 <= p <= sorted.len(),
        p > 0 ==> server_le(sorted[p - 1], x),
        p < sorted.len() ==> !server_le(sorted[p], x),
    ensures
        in_order(sorted.insert(p, x)),
        forall|pool: Seq<char>, name: Seq<char>| #[trigger]
            alike(sorted.insert(p, x), pool, name) == alike(sorted.push(x), pool, name),
{
    let left = sorted.take(p);
    let right = sorted.skip(p);
    let r = sorted.insert(p, x);
    assert forall|i: int| 0 <= i < p implies server_le(#[trigger] sorted[i], x) by {
        if i < p - 1 {
            lemma_server_le_transitive(sorted[i], sorted[p - 1], x);
        }
    }
    assert forall|i: int| p <= i < sorted.len() implies !server_le(#[trigger] sorted[i], x)
        && server_le(x, sorted[i]) by {
        if p < i && server_le(sorted[i], x) {
            lemma_server_le_transitive(sorted[p], sorted[i], x);
        }
        lemma_server_le_total(sorted[i], x);
    }
    assert forall|i: int, j: int| 0 <= i < j < r.len() implies server_le(
        #[trigger] r[i],
        #[trigger] r[j],
    ) by {
        let a = if i <= p { i } else { i - 1 };
        let b = if j <= p { j } else { j - 1 };
        if i != p && j != p {
            assert(server_le(sorted[a], sorted[b]));
        }
    }
    assert(r == left + (seq![x] + right));
    assert(sorted.push(x) == left + (right + seq![x]));
    assert forall|pool: Seq<char>, name: Seq<char>| #[trigger]
        alike(r, pool, name) == alike(sorted.push(x), pool, name) by {
        let same = |s: ServerView| s.pool == pool && s.name == name;
        Seq::filter_distributes_over_add(left, seq![x] + right, same);
        Seq::filter_distributes_over_add(left, right + seq![x], same);
        Seq::filter_distributes_over_add(seq![x], right, same);
        Seq::filter_distributes_over_add(right, seq![x], same);
        if same(x) {
            lemma_none_alike(right, x);
            assert(right.filter(same) == Seq::<ServerView>::empty());
        } else {
            reveal_with_fuel(Seq::<_>::filter, 2);
            assert(seq![x].drop_last() == Seq::<ServerView>::empty());
            assert(seq![x].filter(same) == Seq::<ServerView>::empty());
        }
        assert(seq![x].filter(same) + right.filter(same) == right.filter(same) + seq![x].filter(
            same,
        ));
    }
}

proof fn lemma_none_alike(servers: Seq<ServerView>, x: ServerView)
    requires
        forall|i: int| 0 <= i < servers.len() ==> !server_le(#[trigger] servers[i], x),
    ensures
        servers.filter(|s: ServerView| s.pool == x.pool && s.name == x.name) == Seq::<
            ServerView,
        >::empty(),
    decreases servers.len(),
{
    reveal(Seq::filter);
    if servers.len() > 0 {
        let front = servers.drop_last();
        assert forall|i: int| 0 <= i < front.len() implies !server_le(#[trigger] front[i], x) by {
            assert(front[i] == servers[i]);
        }
        lemma_none_alike(front, x);
        let last = servers[servers.len() - 1];
        if last.pool == x.pool && last.name == x.name {
            text_le_total(x.name, x.name);
        }
    }
}

fn insert_in_order(servers: &mut Vec<Server>, server: Server)
    requires
        in_order(server_views(old(servers)@)),
    ensures
        in_order(server_views(final(servers)@)),
        forall|pool: Seq<char>, name: Seq<char>| #[trigger]
            alike(server_views(final(servers)@), pool, name) == alike(
                server_views(old(servers)@).push(server@),
                pool,
                name,
            ),
{
    let ghost before = server_views(servers@);
    let mut p: usize = servers.len();
    while p > 0 && !server_not_after(&servers[p - 1], &server)
        invariant
            before == server_views(servers@),
            p <= servers@.len(),
            p < servers@.len() ==> !server_le(before[p as int], server@),
        decreases p,
    {
        p -= 1;
    }
    proof {
        lemma_insert(before, server@, p as int);
    }
    let ghost x = server@;
    servers.insert(p, server);
    assert(server_views(servers@) == before.insert(p as int, x));
}

fn server_not_after(a: &Server, b: &Server) -> (r: bool)
    ensures
        r == server_le(a@, b@),
{
    if a.pool == b.pool {
        not_after(a.name.as_str(), b.name.as_str())
    } else {
        not_after(a.pool.as_str(), b.pool.as_str())
    }
}

fn server_of_entry(entry: &TunnelEntry) -> (r: Server)
    ensures
        r@ == entry_server(entry@),
{
    let (inferred, region) = infer_pool_region(entry.name.as_str());
    let pool = match &entry.pool {
        Some(pool) => pool.clone(),
        None => inferred,
    };
    Server { name: entry.name.clone(), ip: entry.ip.clone(), port: entry.port, pool, region }
}

/// The servers of the entries, ordered by pool and then by name.
pub fn load_servers_from_entries(entries: Vec<TunnelEntry>) -> (r: Vec<Server>)
    ensures
        stably_sorted(entry_servers(entry_views(entries@)), server_views(r@)),
{
    let mut r: Vec<Server> = Vec::new();
    let mut i: usize = 0;
    let ghost listed = entry_servers(entry_views(entries@));
    assert(server_views(r@) == listed.take(0));
    while i < entries.len()
        invariant
            i <= entries@.len(),
            listed == entry_servers(entry_views(entries@)),
            in_order(server_views(r@)),
            forall|pool: Seq<char>, name: Seq<char>| #[trigger]
                alike(server_views(r@), pool, name) == alike(listed.take(i as int), pool, name),
        decreases entries.len() - i,
    {
        let server = server_of_entry(&entries[i]);
        let ghost x = server@;
        let ghost before = server_views(r@);
        insert_in_order(&mut r, server);
        proof {
            assert(listed.take(i + 1) == listed.take(i as int).push(x));
            assert forall|pool: Seq<char>, name: Seq<char>| #[trigger]
                alike(server_views(r@), pool, name) == alike(listed.take(i + 1), pool, name) by {
                let same = |s: ServerView| s.pool == pool && s.name == name;
                assert(alike(before, pool, name) == alike(listed.take(i as int), pool, name));
                assert(before.push(x) == before + seq![x]);
                assert(listed.take(i + 1) == listed.take(i as int) + seq![x]);
                Seq::filter_distributes_over_add(before, seq![x], same);
                Seq::filter_distributes_over_add(listed.take(i as int), seq![x], same);
            }
        }
        i += 1;
    }
    assert(listed.take(i as int) == listed);
    r
}

proof fn lemma_alike_member(servers: Seq<ServerView>, i: int)
    requires
        0 <= i < servers.len(),
    ensures
        alike(servers, servers[i].pool, servers[i].name).contains(servers[i]),
{
    let x = servers[i];
    servers.lemma_filter_contains(|s: ServerView| s.pool == x.pool && s.name == x.name, i);
}

/// A server that stands among those alike stands in the list.
proof fn lemma_alike_origin(
    servers: Seq<ServerView>,
    pool: Seq<char>,
    name: Seq<char>,
    k: int,
) -> (i: int)
    requires
        0 <= k < alike(servers, pool, name).len(),
    ensures
        0 <= i < servers.len(),
        servers[i] == alike(servers, pool, name)[k],
        servers[i].pool == pool,
        servers[i].name == name,
    decreases servers.len(),
{
    reveal(Seq::filter);
    let front = servers.drop_last();
    if k < alike(front, pool, name).len() {
        lemma_alike_origin(front, pool, name, k)
    } else {
        servers.len() - 1
    }
}

proof fn lemma_alike_first(servers: Seq<ServerView>, pool: Seq<char>, name: Seq<char>)
    requires
        servers.len() > 0,
    ensures
        alike(servers, pool, name) == (if servers[0].pool == pool && servers[0].name == name {
            seq![servers[0]]
        } else {
            Seq::<ServerView>::empty()
        }) + alike(servers.drop_first(), pool, name),
{
    let same = |s: ServerView| s.pool == pool && s.name == name;
    let head = seq![servers[0]];
    assert(servers == head + servers.drop_first());
    Seq::filter_distributes_over_add(head, servers.drop_first(), same);
    reveal_with_fuel(Seq::<_>::filter, 2);
    assert(head.drop_last() == Seq::<ServerView>::empty());
    assert(Seq::<ServerView>::empty().push(servers[0]) == head);
}

/// The order of a list of servers is determined: two lists that hold the same
/// servers in order, those with the same pool and name in the same order, are equal.
pub proof fn sorted_list_is_unique(a: Seq<ServerView>, b: Seq<ServerView>)
    requires
        in_order(a),
        in_order(b),
        forall|pool: Seq<char>, name: Seq<char>| #[trigger]
            alike(a, pool, name) == alike(b, pool, name),
    ensures
        a == b,
    decreases a.len(),
{
    if a.len() == 0 {
        if b.len() > 0 {
            lemma_alike_member(b, 0);
            let found = alike(b, b[0].pool, b[0].name);
            assert(found == alike(a, b[0].pool, b[0].name));
            reveal(Seq::filter);
            assert(found.len() == 0);
        }
        assert(a == b);
    } else {
        lemma_alike_member(a, 0);
        let of_a = alike(a, a[0].pool, a[0].name);
        assert(of_a == alike(b, a[0].pool, a[0].name));
        let k = choose|k: int| 0 <= k < of_a.len() && of_a[k] == a[0];
        let i = lemma_alike_origin(b, a[0].pool, a[0].name, k);
        lemma_alike_member(b, 0);
        let of_b = alike(b, b[0].pool, b[0].name);
        assert(of_b == alike(a, b[0].pool, b[0].name));
        let m = choose|m: int| 0 <= m < of_b.len() && of_b[m] == b[0];
        let j = lemma_alike_origin(a, b[0].pool, b[0].name, m);
        assert(server_le(b[0], b[i])) by {
            lemma_server_le_total(b[0], b[0]);
        }
        assert(server_le(a[0], a[j])) by {
            lemma_server_le_total(a[0], a[0]);
        }
        assert(a[0].pool == b[0].pool && a[0].name == b[0].name) by {
            if a[0].pool != b[0].pool {
                text_le_antisymmetric(a[0].pool, b[0].pool);
            } else {
                text_le_antisymmetric(a[0].name, b[0].name);
            }
        }
        lemma_alike_first(a, a[0].pool, a[0].name);
        lemma_alike_first(b, a[0].pool, a[0].name);
        assert(of_a[0] == a[0] && of_b[0] == b[0]);
        let rest_a = a.drop_first();
        let rest_b = b.drop_first();
        assert forall|pool: Seq<char>, name: Seq<char>| #[trigger]
            alike(rest_a, pool, name) == alike(rest_b, pool, name) by {
            lemma_alike_first(a, pool, name);
            lemma_alike_first(b, pool, name);
            assert(alike(a, pool, name) == alike(b, pool, name));
            let n: int = if a[0].pool == pool && a[0].name == name { 1 } else { 0 };
            assert(alike(rest_a, pool, name) == alike(a, pool, name).skip(n));
            assert(alike(rest_b, pool, name) == alike(b, pool, name).skip(n));
        }
        sorted_list_is_unique(rest_a, rest_b);
        assert(a == seq![a[0]] + rest_a);
        assert(b == seq![b[0]] + rest_b);
    }
}

/// The servers of a list of entries, in order.
pub open spec fn server_list(entries: Seq<TunnelEntryView>) -> Seq<ServerView> {
    choose|servers: Seq<ServerView>| stably_sorted(entry_servers(entries), servers)
}

/// Servers that are stably sorted are the list of the entries.
pub proof fn lemma_server_list(entries: Seq<TunnelEntryView>, servers: Seq<ServerView>)
    requires
        stably_sorted(entry_servers(entries), servers),
    ensures
        servers == server_list(entries),
{
    let list = server_list(entries);
    assert(stably_sorted(entry_servers(entries), list));
    assert forall|pool: Seq<char>, name: Seq<char>| #[trigger]
        alike(servers, pool, name) == alike(list, pool, name) by {
        assert(alike(list, pool, name) == alike(entry_servers(entries), pool, name));
    }
    sorted_list_is_unique(servers, list);
}

/// The pool that a name stands for begins the name.
pub proof fn inferred_pool_begins_name(name: Seq<char>)
    ensures
        pool_region(name).0.is_prefix_of(name),
{
    lemma_first_row_prefix(pool_table(), name);
    lemma_before_last_prefix(name, '-');
}

proof fn lemma_first_row_prefix(rows: Seq<(Seq<char>, Seq<char>)>, name: Seq<char>)
    ensures
        first_row(rows, name) matches Some(row) ==> row.0.is_prefix_of(name),
    decreases rows.len(),
{
    if rows.len() > 0 && !rows[0].0.is_prefix_of(name) {
        lemma_first_row_prefix(rows.drop_first(), name);
    }
}

proof fn lemma_before_last_prefix(s: Seq<char>, c: char)
    ensures
        before_last(s, c) matches Some(head) ==> head.is_prefix_of(s),
        s.is_prefix_of(s),
    decreases s.len(),
{
    assert(s.subrange(0, s.len() as int) == s);
    if s.len() > 0 {
        let front = s.drop_last();
        assert(front.is_prefix_of(s));
        lemma_before_last_prefix(front, c);
        if let Some(head) = before_last(front, c) {
            assert(s.subrange(0, head.len() as int) == front.subrange(0, head.len() as int));
        }
    }
}

/// The entries of the tunnel list: of the file that was found, or else of the
/// list that comes with the program.
pub open spec fn loaded_entries(found: Option<Seq<char>>, embedded: Seq<char>) -> Result<
    Seq<TunnelEntryView>,
    TunnelErrorView,
> {
    parse_list(tunnels_content(found, embedded))
}

/// The text of the tunnel list: of the file that was found, or else the one that
/// comes with the program.
pub open spec fn tunnels_content(found: Option<Seq<char>>, embedded: Seq<char>) -> Seq<char> {
    match found {
        Some(content) => content,
        None => embedded,
    }
}

/// The text of the tunnel list.
pub fn read_tunnels_content(found: Option<String>, embedded: &str) -> (r: String)
    ensures
        r@ == tunnels_content(option_text(found), embedded@),
{
    match found {
        Some(content) => content,
        None => embedded.to_owned(),
    }
}

/// Reads the entries of the tunnel list. `found` is the content of the tunnels
/// file, where there is one.
pub fn load_tunnel_entries(found: Option<String>, embedded: &str) -> (r: Result<
    Vec<TunnelEntry>,
    TunnelError,
>)
    ensures
        entries_result(r) == loaded_entries(option_text(found), embedded@),
{
    let content = read_tunnels_content(found, embedded);
    parse_tunnel_entries(content.as_str())
}

/// The servers of the tunnel list, or why the list is not accepted.
pub open spec fn loaded_servers(found: Option<Seq<char>>, embedded: Seq<char>) -> Result<
    Seq<ServerView>,
    TunnelErrorView,
> {
    match loaded_entries(found, embedded) {
        Ok(entries) => Ok(server_list(entries)),
        Err(error) => Err(error),
    }
}

/// The view of the result of reading the servers.
pub open spec fn servers_result(r: Result<Vec<Server>, TunnelError>) -> Result<
    Seq<ServerView>,
    TunnelErrorView,
> {
    match r {
        Ok(servers) => Ok(server_views(servers@)),
        Err(error) => Err(error@),
    }
}

/// Reads the servers of the tunnel list, ordered by pool and then by name.
pub fn load_servers(found: Option<String>, embedded: &str) -> (r: Result<Vec<Server>, TunnelError>)
    ensures
        servers_result(r) == loaded_servers(option_text(found), embedded@),
        r matches Ok(servers) ==> loaded_entries(option_text(found), embedded@) matches Ok(entries)
            && stably_sorted(entry_servers(entries), server_views(servers@)),
{
    match load_tunnel_entries(found, embedded) {
        Ok(entries) => {
            let ghost views = entry_views(entries@);
            let servers = load_servers_from_entries(entries);
            proof {
                lemma_server_list(views, server_views(servers@));
            }
            Ok(servers)
        },
        Err(error) => Err(error),
    }
}

/// Where a tunnels file was found.
#[derive(Debug, Clone, Copy, PartialEq, Eq, Structural)]
pub enum TunnelsFile {
    /// In the configuration directory.
    Config,
    /// In the working directory.
    Working,
}

/// Which tunnels file is used.
pub open spec fn used_tunnels(config_is_file: Option<bool>, working_is_file: bool) -> Option<
    TunnelsFile,
> {
    match (config_is_file, working_is_file) {
        (Some(true), _) => Some(TunnelsFile::Config),
        (_, true) => Some(TunnelsFile::Working),
        _ => None,
    }
}

/// Which tunnels file is used: that of the configuration directory, where there is
/// such a directory and it holds the file, before that of the working directory.
pub fn find_tunnels_file(config_is_file: Option<bool>, working_is_file: bool) -> (r: Option<
    TunnelsFile,
>)
    ensures
        r == (if config_is_file == Some(true) {
            Some(TunnelsFile::Config)
        } else if working_is_file {
            Some(TunnelsFile::Working)
        } else {
            None
        }),
        r == used_tunnels(config_is_file, working_is_file),
{
    match config_is_file {
        Some(true) => Some(TunnelsFile::Config),
        _ => if working_is_file {
            Some(TunnelsFile::Working)
        } else {
            None
        },
    }
}

/// How the user's tunnels file comes to exist.
#[derive(Debug, Clone, Copy, PartialEq, Eq, Structural)]
pub enum UserTunnels {
    /// It exists.
    Keep,
    /// It is copied from the file that was found.
    Copy,
    /// It is written from the list that comes with the program.
    WriteEmbedded,
}

/// How the user's tunnels file comes to exist.
pub open spec fn ensured_tunnels(user_is_file: bool, found_elsewhere: Option<bool>) -> UserTunnels {
    match (user_is_file, found_elsewhere) {
        (true, _) => UserTunnels::Keep,
        (false, Some(true)) => UserTunnels::Copy,
        _ => UserTunnels::WriteEmbedded,
    }
}

/// How the user's tunnels file comes to exist. `found_elsewhere` says of the
/// tunnels file that was found whether its path is another than the user's.
pub fn ensure_user_tunnels(user_is_file: bool, found_elsewhere: Option<bool>) -> (r: UserTunnels)
    ensures
        r == (if user_is_file {
            UserTunnels::Keep
        } else if found_elsewhere == Some(true) {
            UserTunnels::Copy
        } else {
            UserTunnels::WriteEmbedded
        }),
        r == ensured_tunnels(user_is_file, found_elsewhere),
{
    if user_is_file {
        return UserTunnels::Keep;
    }
    match found_elsewhere {
        Some(true) => UserTunnels::Copy,
        _ => UserTunnels::WriteEmbedded,
    }
}

} // verus!
