//! The tunnel list: one server per line, `NAME - IP[:PORT] [@POOL]`.

use vstd::prelude::*;

use crate::text::{
    decimal, decimal_text, is_ascii_digit, is_white, lines, parse_u16, split_lines, texts, trim,
    trimmed, u16_value,
};

verus! {

/// The port of an entry that names none.
pub const DEFAULT_PORT: u16 = 29450;

/// One entry of the tunnel list.
#[derive(Debug, PartialEq, Eq)]
pub struct TunnelEntry {
    pub name: String,
    pub ip: String,
    pub port: u16,
    pub pool: Option<String>,
}

#[verifier::ext_equal]
pub struct TunnelEntryView {
    pub name: Seq<char>,
    pub ip: Seq<char>,
    pub port: u16,
    pub pool: Option<Seq<char>>,
}

/// The view of an optional string.
pub open spec fn option_text(s: Option<String>) -> Option<Seq<char>> {
    match s {
        Some(text) => Some(text@),
        None => None,
    }
}

impl View for TunnelEntry {
    type V = TunnelEntryView;

    open spec fn view(&self) -> TunnelEntryView {
        TunnelEntryView {
            name: self.name@,
            ip: self.ip@,
            port: self.port,
            pool: option_text(self.pool),
        }
    }
}

impl Clone for TunnelEntry {
    fn clone(&self) -> (r: Self)
        ensures
            r@ == self@,
    {
        TunnelEntry {
            name: self.name.clone(),
            ip: self.ip.clone(),
            port: self.port,
            pool: match &self.pool {
                Some(pool) => Some(pool.clone()),
                None => None,
            },
        }
    }
}

/// The views of a sequence of entries.
pub open spec fn entry_views(entries: Seq<TunnelEntry>) -> Seq<TunnelEntryView> {
    Seq::new(entries.len(), |i: int| entries[i]@)
}

/// Whether a character outside ASCII is a decimal digit of Unicode (`Nd`), as
/// the `regex` crate's tables have it.
pub uninterp spec fn unicode_digit(c: char) -> bool;

/// The characters that `\d` matches: the ASCII digits and the decimal digits of
/// Unicode, none of which is white space.
pub open spec fn is_digit(c: char) -> bool {
    if c <= '\u{7f}' {
        is_ascii_digit(c)
    } else {
        unicode_digit(c) && !is_white(c)
    }
}

pub open spec fn white_between(s: Seq<char>, from: int, to: int) -> bool {
    forall|i: int| from <= i < to ==> is_white(#[trigger] s[i])
}

pub open spec fn digits_between(s: Seq<char>, from: int, to: int) -> bool {
    forall|i: int| from <= i < to ==> is_digit(#[trigger] s[i])
}

pub open spec fn one_line_between(s: Seq<char>, from: int, to: int) -> bool {
    forall|i: int| from <= i < to ==> #[trigger] s[i] != '\n'
}

/// `\d+\.\d+\.\d+\.\d+`, with the dots at the given positions.
pub open spec fn dotted_at(s: Seq<char>, first: int, second: int, third: int) -> bool {
    &&& 0 < first && first + 1 < second && second + 1 < third && third + 1 < s.len()
    &&& s[first] == '.' && s[second] == '.' && s[third] == '.'
    &&& digits_between(s, 0, first)
    &&& digits_between(s, first + 1, second)
    &&& digits_between(s, second + 1, third)
    &&& digits_between(s, third + 1, s.len() as int)
}

/// Whether the text is four runs of digits with dots between them.
pub open spec fn is_address(s: Seq<char>) -> bool {
    exists|first: int, second: int, third: int| dotted_at(s, first, second, third)
}

/// A way to cut a line into the parts of the pattern
/// `^(.+?)\s*-\s*(\d+\.\d+\.\d+\.\d+)(?::(\d+))?(?:\s+@(.+))?\s*$`.
pub struct LineSplit {
    pub name_end: int,
    pub dash: int,
    pub ip_start: int,
    pub ip_end: int,
    pub port_end: int,
    pub at: Option<int>,
    pub pool_end: int,
}

/// Whether the cut gives the parts of the pattern up to the port what they match.
pub open spec fn splits_head(line: Seq<char>, cut: LineSplit) -> bool {
    // (.+?)
    &&& 0 < cut.name_end
    &&& one_line_between(line, 0, cut.name_end)
    // \s*-\s*
    &&& cut.name_end <= cut.dash < cut.ip_start
    &&& white_between(line, cut.name_end, cut.dash)
    &&& line[cut.dash] == '-'
    &&& white_between(line, cut.dash + 1, cut.ip_start)
    // (\d+\.\d+\.\d+\.\d+)
    &&& cut.ip_start <= cut.ip_end <= line.len()
    &&& is_address(line.subrange(cut.ip_start, cut.ip_end))
    // (?::(\d+))?
    &&& cut.port_end == cut.ip_end || {
        &&& cut.ip_end + 1 < cut.port_end <= line.len()
        &&& line[cut.ip_end] == ':'
        &&& digits_between(line, cut.ip_end + 1, cut.port_end)
    }
}

/// Whether the cut gives each part of the pattern what it matches.
pub open spec fn splits(line: Seq<char>, cut: LineSplit) -> bool {
    &&& splits_head(line, cut)
    // (?:\s+@(.+))?
    &&& match cut.at {
        None => cut.pool_end == cut.port_end,
        Some(at) => {
            &&& cut.port_end < at && at + 1 < cut.pool_end <= line.len()
            &&& white_between(line, cut.port_end, at)
            &&& line[at] == '@'
            &&& one_line_between(line, at + 1, cut.pool_end)
        },
    }
    // \s*$
    &&& white_between(line, cut.pool_end, line.len() as int)
}

/// The cut that the pattern prefers: the shortest name, for `.+?` takes as little
/// as it can, and after that the longest pool, for `.+` takes as much as it can.
pub open spec fn preferred(line: Seq<char>, cut: LineSplit) -> bool {
    &&& splits(line, cut)
    &&& forall|other: LineSplit| #[trigger]
        splits(line, other) ==> {
            ||| cut.name_end < other.name_end
            ||| cut.name_end == other.name_end && cut.pool_end >= other.pool_end
        }
}

/// The texts of the four groups of the pattern.
#[verifier::ext_equal]
pub struct LineCapturesView {
    pub name: Seq<char>,
    pub ip: Seq<char>,
    pub port: Option<Seq<char>>,
    pub pool: Option<Seq<char>>,
}

pub open spec fn captured(line: Seq<char>, cut: LineSplit) -> LineCapturesView {
    LineCapturesView {
        name: line.take(cut.name_end),
        ip: line.subrange(cut.ip_start, cut.ip_end),
        port: if cut.port_end == cut.ip_end {
            None
        } else {
            Some(line.subrange(cut.ip_end + 1, cut.port_end))
        },
        pool: match cut.at {
            None => None,
            Some(at) => Some(line.subrange(at + 1, cut.pool_end)),
        },
    }
}

/// What the pattern captures in a line, or none where it does not match.
pub open spec fn line_captures(line: Seq<char>) -> Option<LineCapturesView> {
    if exists|cut: LineSplit| preferred(line, cut) {
        Some(captured(line, choose|cut: LineSplit| preferred(line, cut)))
    } else {
        None
    }
}

/// The groups that the pattern captured in a line.
pub struct LineCaptures {
    pub name: String,
    pub ip: String,
    pub port: Option<String>,
    pub pool: Option<String>,
}

impl View for LineCaptures {
    type V = LineCapturesView;

    open spec fn view(&self) -> LineCapturesView {
        LineCapturesView {
            name: self.name@,
            ip: self.ip@,
            port: option_text(self.port),
            pool: option_text(self.pool),
        }
    }
}

/// Calls `regex::Regex::captures` with the pattern of a line, which
/// `regex::Regex::new` accepts. There is no match exactly where no cut of the line
/// gives every part of the pattern what it matches; otherwise the groups hold
/// the parts of the preferred cut. Which characters outside ASCII `\d` matches
/// is left to `unicode_digit`.
#[verifier::external_body]
fn match_line(line: &str) -> (r: Option<LineCaptures>)
    ensures
        r is None ==> forall|cut: LineSplit| !splits(line@, cut),
        r matches Some(groups) ==> exists|cut: LineSplit|
            #[trigger] preferred(line@, cut) && groups@ == captured(line@, cut),
        r matches Some(groups) ==> forall|i: int|
            0 <= i < groups.ip@.len() && (#[trigger] groups.ip@[i]) > '\u{7f}' ==> unicode_digit(
                groups.ip@[i],
            ),
{
    let pattern = regex::Regex::new(
        r"^(.+?)\s*-\s*(\d+\.\d+\.\d+\.\d+)(?::(\d+))?(?:\s+@(.+))?\s*$",
    ).expect("the pattern is well formed");
    let groups = pattern.captures(line)?;
    Some(LineCaptures {
        name: groups[1].to_string(),
        ip: groups[2].to_string(),
        port: groups.get(3).map(|group| group.as_str().to_string()),
        pool: groups.get(4).map(|group| group.as_str().to_string()),
    })
}

pub proof fn lemma_address_chars(s: Seq<char>)
    requires
        is_address(s),
    ensures
        s.len() > 0,
        is_digit(s[0]),
        is_digit(s.last()),
        forall|i: int| 0 <= i < s.len() ==> is_digit(#[trigger] s[i]) || s[i] == '.',
{
    let (first, second, third) = choose|first: int, second: int, third: int|
        dotted_at(s, first, second, third);
    assert(dotted_at(s, first, second, third));
}

/// What the characters of a cut line say of where its parts end.
pub proof fn lemma_split_edges(line: Seq<char>, cut: LineSplit)
    requires
        splits(line, cut),
    ensures
        cut.ip_start < cut.ip_end,
        is_digit(line[cut.ip_start]),
        forall|i: int|
            cut.ip_start <= i < cut.ip_end ==> is_digit(#[trigger] line[i]) || line[i] == '.',
        cut.ip_end < line.len() ==> line[cut.ip_end] == ':' || is_white(line[cut.ip_end]),
        cut.port_end == cut.ip_end && cut.ip_end < line.len() ==> is_white(line[cut.ip_end]),
        cut.port_end < line.len() ==> is_white(line[cut.port_end]),
        cut.ip_end <= cut.port_end <= cut.pool_end <= line.len(),
{
    let ip = line.subrange(cut.ip_start, cut.ip_end);
    lemma_address_chars(ip);
    assert(ip[0] == line[cut.ip_start]);
    assert forall|i: int| cut.ip_start <= i < cut.ip_end implies is_digit(#[trigger] line[i])
        || line[i] == '.' by {
        assert(line[i] == ip[i - cut.ip_start]);
    }
}

/// A line has at most one preferred cut.
pub proof fn lemma_preferred_unique(line: Seq<char>, a: LineSplit, b: LineSplit)
    requires
        preferred(line, a),
        preferred(line, b),
    ensures
        a == b,
{
    lemma_split_edges(line, a);
    lemma_split_edges(line, b);
    assert(a.name_end == b.name_end && a.pool_end == b.pool_end);
    assert(a.dash == b.dash);
    assert(a.ip_start == b.ip_start);
    assert(a.ip_end == b.ip_end);
    assert(a.port_end == b.port_end);
    match (a.at, b.at) {
        (Some(p), Some(q)) => {
            assert(p == q);
        },
        (Some(p), None) => {
            assert(is_white(line[p]));
        },
        (None, Some(q)) => {
            assert(is_white(line[q]));
        },
        (None, None) => {},
    }
}

/// The port that a captured port gives: the default where none was captured, none
/// where the digits give no 16-bit number.
pub open spec fn captured_port(port: Option<Seq<char>>) -> Option<u16> {
    match port {
        None => Some(DEFAULT_PORT),
        Some(digits) => u16_value(digits),
    }
}

/// The entry that the groups of a line give, or none where the port is invalid.
pub open spec fn captured_entry(groups: LineCapturesView) -> Option<TunnelEntryView> {
    match captured_port(groups.port) {
        None => None,
        Some(port) => Some(
            TunnelEntryView {
                name: trimmed(groups.name),
                ip: groups.ip,
                port,
                pool: match groups.pool {
                    None => None,
                    Some(pool) => Some(trimmed(pool)),
                },
            },
        ),
    }
}

/// What a line of the list amounts to.
pub enum LineOutcome {
    Blank,
    Entry(TunnelEntryView),
    BadLine,
    BadPort,
}

pub open spec fn line_outcome(raw: Seq<char>) -> LineOutcome {
    let line = trimmed(raw);
    if line.len() == 0 {
        LineOutcome::Blank
    } else {
        match line_captures(line) {
            None => LineOutcome::BadLine,
            Some(groups) => match captured_entry(groups) {
                None => LineOutcome::BadPort,
                Some(entry) => LineOutcome::Entry(entry),
            },
        }
    }
}

/// Why a tunnel list was not accepted.
#[derive(Debug, PartialEq, Eq)]
pub enum TunnelError {
    /// The line is not an entry.
    InvalidLine { line_no: usize, line: String },
    /// The port of the line is no 16-bit number.
    InvalidPort { line_no: usize },
    /// The list holds no entry.
    NoServers,
}

#[verifier::ext_equal]
pub enum TunnelErrorView {
    InvalidLine { line_no: nat, line: Seq<char> },
    InvalidPort { line_no: nat },
    NoServers,
}

impl View for TunnelError {
    type V = TunnelErrorView;

    open spec fn view(&self) -> TunnelErrorView {
        match self {
            TunnelError::InvalidLine { line_no, line } => TunnelErrorView::InvalidLine {
                line_no: *line_no as nat,
                line: line@,
            },
            TunnelError::InvalidPort { line_no } => TunnelErrorView::InvalidPort {
                line_no: *line_no as nat,
            },
            TunnelError::NoServers => TunnelErrorView::NoServers,
        }
    }
}

/// The message of an error.
pub open spec fn tunnel_error_text(error: TunnelErrorView) -> Seq<char> {
    match error {
        TunnelErrorView::InvalidLine { line_no, line } => "неверная строка в tunnels.txt, "@
            + decimal(line_no) + ": "@ + line,
        TunnelErrorView::InvalidPort { line_no } => "неверный порт в строке "@ + decimal(line_no),
        TunnelErrorView::NoServers => "в tunnels.txt не найдено серверов"@,
    }
}

impl TunnelError {
    /// The message of the error.
    pub fn message(&self) -> (r: String)
        ensures
            r@ == tunnel_error_text(self@),
    {
        match self {
            TunnelError::InvalidLine { line_no, line } => {
                let mut r = "неверная строка в tunnels.txt, ".to_owned();
                r.append(decimal_text(*line_no as u64).as_str());
                r.append(": ");
                r.append(line.as_str());
                r
            },
            TunnelError::InvalidPort { line_no } => {
                let mut r = "неверный порт в строке ".to_owned();
                r.append(decimal_text(*line_no as u64).as_str());
                r
            },
            TunnelError::NoServers => "в tunnels.txt не найдено серверов".to_owned(),
        }
    }
}

/// The entries of the lines in order, or the error of the first line that is
/// neither blank nor an entry. Lines count from one.
pub open spec fn parse_lines(all: Seq<Seq<char>>) -> Result<Seq<TunnelEntryView>, TunnelErrorView>
    decreases all.len(),
{
    if all.len() == 0 {
        Ok(Seq::empty())
    } else {
        match parse_lines(all.drop_last()) {
            Err(error) => Err(error),
            Ok(entries) => match line_outcome(all.last()) {
                LineOutcome::Blank => Ok(entries),
                LineOutcome::Entry(entry) => Ok(entries.push(entry)),
                LineOutcome::BadLine => Err(
                    TunnelErrorView::InvalidLine { line_no: all.len(), line: trimmed(all.last()) },
                ),
                LineOutcome::BadPort => Err(TunnelErrorView::InvalidPort { line_no: all.len() }),
            },
        }
    }
}

/// The entries of a tunnel list, at least one, or why it is not accepted.
pub open spec fn parse_list(content: Seq<char>) -> Result<Seq<TunnelEntryView>, TunnelErrorView> {
    match parse_lines(lines(content)) {
        Err(error) => Err(error),
        Ok(entries) => if entries.len() == 0 {
            Err(TunnelErrorView::NoServers)
        } else {
            Ok(entries)
        },
    }
}

/// The view of the result of reading a tunnel list.
pub open spec fn entries_result(r: Result<Vec<TunnelEntry>, TunnelError>) -> Result<
    Seq<TunnelEntryView>,
    TunnelErrorView,
> {
    match r {
        Ok(entries) => Ok(entry_views(entries@)),
        Err(error) => Err(error@),
    }
}

proof fn lemma_parse_lines_error(all: Seq<Seq<char>>, k: int)
    requires
        0 <= k <= all.len(),
        parse_lines(all.take(k)) is Err,
    ensures
        parse_lines(all) == parse_lines(all.take(k)),
    decreases all.len(),
{
    if k == all.len() {
        assert(all.take(k) == all);
    } else {
        assert(all.drop_last().take(k) == all.take(k));
        lemma_parse_lines_error(all.drop_last(), k);
    }
}

/// The entry that the captured groups of a line give, or none where the port is
/// invalid.
pub fn entry_from_captures(groups: &LineCaptures) -> (r: Option<TunnelEntry>)
    ensures
        match r {
            Some(entry) => captured_entry(groups@) == Some(entry@),
            None => captured_entry(groups@) is None,
        },
{
    let port: u16 = match &groups.port {
        None => DEFAULT_PORT,
        Some(digits) => match parse_u16(digits.as_str()) {
            None => {
                return None;
            },
            Some(port) => port,
        },
    };
    Some(
        TunnelEntry {
            name: trim(groups.name.as_str()).to_owned(),
            ip: groups.ip.clone(),
            port,
            pool: match &groups.pool {
                None => None,
                Some(pool) => Some(trim(pool.as_str()).to_owned()),
            },
        },
    )
}

/// Reads a tunnel list.
pub fn parse_tunnel_entries(content: &str) -> (r: Result<Vec<TunnelEntry>, TunnelError>)
    ensures
        entries_result(r) == parse_list(content@),
{
    let all = split_lines(content);
    let ghost views = texts(all@);
    let mut entries: Vec<TunnelEntry> = Vec::new();
    let mut i: usize = 0;
    assert(views.take(0) == Seq::<Seq<char>>::empty());
    assert(entry_views(entries@) == Seq::<TunnelEntryView>::empty());
    while i < all.len()
        invariant
            views == texts(all@),
            views == lines(content@),
            i <= all@.len(),
            parse_lines(views.take(i as int)) == Ok::<Seq<TunnelEntryView>, TunnelErrorView>(
                entry_views(entries@),
            ),
        decreases all.len() - i,
    {
        let line = trim(all[i].as_str());
        let ghost taken = views.take(i + 1);
        let ghost before = entry_views(entries@);
        proof {
            assert(taken.drop_last() == views.take(i as int));
            assert(taken.last() == all@[i as int]@);
        }
        if !line.is_empty() {
            match match_line(line) {
                None => {
                    proof {
                        assert(line_outcome(taken.last()) == LineOutcome::BadLine);
                        lemma_parse_lines_error(views, i + 1);
                    }
                    return Err(
                        TunnelError::InvalidLine { line_no: i + 1, line: line.to_owned() },
                    );
                },
                Some(groups) => {
                    proof {
                        lemma_captures(line@, groups@);
                    }
                    match entry_from_captures(&groups) {
                        None => {
                            proof {
                                assert(line_outcome(taken.last()) == LineOutcome::BadPort);
                                lemma_parse_lines_error(views, i + 1);
                            }
                            return Err(TunnelError::InvalidPort { line_no: i + 1 });
                        },
                        Some(entry) => {
                            let ghost view = entry@;
                            entries.push(entry);
                            proof {
                                assert(line_outcome(taken.last()) == LineOutcome::Entry(view));
                                assert(entry_views(entries@) == before.push(view));
                            }
                        },
                    }
                },
            }
        } else {
            proof {
                assert(line_outcome(taken.last()) == LineOutcome::Blank);
            }
        }
        i += 1;
    }
    assert(views.take(i as int) == views);
    if entries.len() == 0 {
        return Err(TunnelError::NoServers);
    }
    Ok(entries)
}

proof fn lemma_captures(line: Seq<char>, groups: LineCapturesView)
    requires
        exists|cut: LineSplit| #[trigger] preferred(line, cut) && groups == captured(line, cut),
    ensures
        line_captures(line) == Some(groups),
{
    let a = choose|cut: LineSplit| #[trigger]
        preferred(line, cut) && groups == captured(line, cut);
    let b = choose|cut: LineSplit| preferred(line, cut);
    lemma_preferred_unique(line, a, b);
}

/// The line of an entry; the default port is left out.
pub open spec fn entry_line(entry: TunnelEntryView) -> Seq<char> {
    let base = entry.name + " - "@ + entry.ip;
    let with_port = if entry.port == DEFAULT_PORT {
        base
    } else {
        base + ":"@ + decimal(entry.port as nat)
    };
    match entry.pool {
        Some(pool) => with_port + " @"@ + pool,
        None => with_port,
    }
}

/// The text of a tunnel list: the line of each entry, ended by a line feed.
pub open spec fn list_text(entries: Seq<TunnelEntryView>) -> Seq<char>
    decreases entries.len(),
{
    if entries.len() == 0 {
        Seq::empty()
    } else {
        entry_line(entries[0]) + seq!['\n'] + list_text(entries.drop_first())
    }
}

/// Writes the line of an entry.
pub fn format_tunnel_line(entry: &TunnelEntry) -> (r: String)
    ensures
        r@ == entry_line(entry@),
{
    let mut r = entry.name.clone();
    r.append(" - ");
    r.append(entry.ip.as_str());
    if entry.port != DEFAULT_PORT {
        r.append(":");
        r.append(decimal_text(entry.port as u64).as_str());
    }
    match &entry.pool {
        Some(pool) => {
            r.append(" @");
            r.append(pool.as_str());
        },
        None => {},
    }
    r
}

/// The text that stores a tunnel list.
pub fn tunnels_text(entries: &Vec<TunnelEntry>) -> (r: String)
    ensures
        r@ == list_text(entry_views(entries@)),
{
    let mut r = String::new();
    let mut i: usize = 0;
    let ghost all = entry_views(entries@);
    proof {
        reveal_strlit("\n");
        assert(all.skip(0) == all);
        assert(r@ + list_text(all) == list_text(all));
    }
    while i < entries.len()
        invariant
            i <= entries@.len(),
            all == entry_views(entries@),
            "\n"@ == seq!['\n'],
            list_text(all) == r@ + list_text(all.skip(i as int)),
        decreases entries.len() - i,
    {
        let line = format_tunnel_line(&entries[i]);
        let ghost before = r@;
        r.append(line.as_str());
        r.append("\n");
        proof {
            let rest = all.skip(i as int);
            assert(rest[0] == entries@[i as int]@);
            assert(rest.drop_first() == all.skip(i + 1));
            assert(r@ + list_text(all.skip(i + 1)) == before + (line@ + seq!['\n'] + list_text(
                all.skip(i + 1),
            )));
        }
        i += 1;
    }
    assert(all.skip(i as int) == Seq::<TunnelEntryView>::empty());
    assert(r@ + Seq::<char>::empty() == r@);
    r
}

} // verus!
