//! What holds between reading and writing a tunnel list.

use vstd::prelude::*;

use crate::text::{
    decimal, decimal_reads_back, is_ascii_digit, is_white, lemma_lines_first,
    lemma_lines_hold_no_feed, lemma_trimmed_fixed, lemma_trimmed_range, lines, trimmed,
};
use crate::tunnels::{
    captured, captured_entry, entry_line, is_address, is_digit, lemma_address_chars,
    lemma_preferred_unique, line_captures, line_outcome, list_text, one_line_between, parse_lines,
    parse_list, preferred, splits, splits_head, white_between, LineOutcome, LineSplit,
    TunnelEntryView, TunnelErrorView, DEFAULT_PORT,
};

verus! {

/// Text on one line that neither begins nor ends with white space.
pub open spec fn is_word(s: Seq<char>) -> bool {
    &&& s.len() > 0
    &&& !is_white(s[0])
    &&& !is_white(s.last())
    &&& one_line_between(s, 0, s.len() as int)
}

/// Whether the name itself reads as an entry up to the mark of a pool.
pub open spec fn reads_as_entry(name: Seq<char>, cut: LineSplit) -> bool {
    &&& splits_head(name, cut)
    &&& cut.at matches Some(at) && {
        &&& cut.port_end < at < name.len()
        &&& white_between(name, cut.port_end, at)
        &&& name[at] == '@'
    }
}

/// The entries that a tunnel list can hold.
pub open spec fn storable(entry: TunnelEntryView) -> bool {
    &&& is_word(entry.name)
    &&& forall|cut: LineSplit| !reads_as_entry(entry.name, cut)
    &&& is_address(entry.ip)
    &&& match entry.pool {
        Some(pool) => is_word(pool),
        None => true,
    }
}

/// The cut of an entry's line at the places where its parts were put.
spec fn own_cut(entry: TunnelEntryView) -> LineSplit {
    let name_end = entry.name.len() as int;
    let ip_end = name_end + 3 + entry.ip.len();
    let port_end = if entry.port == DEFAULT_PORT {
        ip_end
    } else {
        ip_end + 1 + decimal(entry.port as nat).len()
    };
    LineSplit {
        name_end,
        dash: name_end + 1,
        ip_start: name_end + 3,
        ip_end,
        port_end,
        at: match entry.pool {
            Some(pool) => Some(port_end + 1),
            None => None,
        },
        pool_end: entry_line(entry).len() as int,
    }
}

/// What stands where in the line of an entry.
spec fn laid_out(line: Seq<char>, entry: TunnelEntryView, cut: LineSplit) -> bool {
    &&& cut.name_end == entry.name.len()
    &&& cut.dash == cut.name_end + 1
    &&& cut.ip_start == cut.name_end + 3
    &&& cut.ip_end == cut.ip_start + entry.ip.len()
    &&& cut.ip_end <= cut.port_end <= cut.pool_end == line.len()
    &&& line.take(cut.name_end) == entry.name
    &&& line[cut.name_end] == ' ' && line[cut.dash] == '-' && line[cut.dash + 1] == ' '
    &&& line.subrange(cut.ip_start, cut.ip_end) == entry.ip
    &&& (cut.port_end == cut.ip_end) == (entry.port == DEFAULT_PORT)
    &&& cut.port_end != cut.ip_end ==> {
        &&& line[cut.ip_end] == ':'
        &&& cut.ip_end + 1 < cut.port_end
        &&& line.subrange(cut.ip_end + 1, cut.port_end) == decimal(entry.port as nat)
    }
    &&& match entry.pool {
        Some(pool) => {
            &&& cut.at == Some(cut.port_end + 1)
            &&& cut.port_end + 2 < cut.pool_end
            &&& line[cut.port_end] == ' '
            &&& line[cut.port_end + 1] == '@'
            &&& line.subrange(cut.port_end + 2, cut.pool_end) == pool
        },
        None => cut.at is None && cut.port_end == line.len(),
    }
}

proof fn lemma_laid_out(entry: TunnelEntryView)
    requires
        storable(entry),
    ensures
        laid_out(entry_line(entry), entry, own_cut(entry)),
{
    reveal_strlit(" - ");
    reveal_strlit(":");
    reveal_strlit(" @");
    decimal_reads_back(entry.port as nat);
    let line = entry_line(entry);
    let cut = own_cut(entry);
    assert(line.take(cut.name_end) =~= entry.name);
    assert(line.subrange(cut.ip_start, cut.ip_end) =~= entry.ip);
    if entry.port != DEFAULT_PORT {
        assert(line.subrange(cut.ip_end + 1, cut.port_end) =~= decimal(entry.port as nat));
    }
    match entry.pool {
        Some(pool) => {
            assert(line.subrange(cut.port_end + 2, cut.pool_end) =~= pool);
        },
        None => {},
    }
}

proof fn lemma_own_cut_splits(line: Seq<char>, entry: TunnelEntryView, cut: LineSplit)
    requires
        storable(entry),
        laid_out(line, entry, cut),
    ensures
        splits(line, cut),
{
    decimal_reads_back(entry.port as nat);
    assert forall|i: int| 0 <= i < cut.name_end implies #[trigger] line[i] != '\n' by {
        assert(line[i] == line.take(cut.name_end)[i]);
    }
    if cut.port_end != cut.ip_end {
        let digits = line.subrange(cut.ip_end + 1, cut.port_end);
        assert forall|i: int| cut.ip_end + 1 <= i < cut.port_end implies is_digit(
            #[trigger] line[i],
        ) by {
            assert(line[i] == digits[i - cut.ip_end - 1]);
        }
    }
    match entry.pool {
        Some(pool) => {
            assert forall|i: int| cut.port_end + 2 <= i < cut.pool_end implies #[trigger] line[i]
                != '\n' by {
                assert(line[i] == pool[i - cut.port_end - 2]);
            }
        },
        None => {},
    }
}

/// No other cut of an entry's line has a shorter name.
proof fn lemma_no_shorter_name(
    line: Seq<char>,
    entry: TunnelEntryView,
    cut: LineSplit,
    other: LineSplit,
)
    requires
        storable(entry),
        laid_out(line, entry, cut),
        splits(line, other),
    ensures
        cut.name_end <= other.name_end,
{
    let n = cut.name_end;
    if other.name_end < n {
        let ip = line.subrange(other.ip_start, other.ip_end);
        lemma_address_chars(ip);
        assert(line[n - 1] == line.take(n)[n - 1]);
        assert(!is_white(line[n - 1]));
        assert(other.dash < n);
        assert(ip[0] == line[other.ip_start]);
        assert(other.ip_start < n);
        assert(other.ip_end <= n) by {
            if other.ip_end > n {
                assert(ip[n - other.ip_start] == line[n]);
            }
        }
        assert(other.port_end <= n);
        assert(!is_white(line[n + 1]));
        assert(other.at matches Some(at) && at < n);
        assert forall|i: int| 0 <= i < n implies #[trigger] line[i] == entry.name[i] by {
            assert(line[i] == line.take(n)[i]);
        }
        assert(entry.name.subrange(other.ip_start, other.ip_end) =~= ip);
        assert(reads_as_entry(entry.name, other));
    }
}

proof fn lemma_own_cut_preferred(line: Seq<char>, entry: TunnelEntryView, cut: LineSplit)
    requires
        storable(entry),
        laid_out(line, entry, cut),
    ensures
        preferred(line, cut),
{
    lemma_own_cut_splits(line, entry, cut);
    assert forall|other: LineSplit| #[trigger] splits(line, other) implies cut.name_end
        < other.name_end || (cut.name_end == other.name_end && cut.pool_end >= other.pool_end) by {
        lemma_no_shorter_name(line, entry, cut, other);
    }
}

proof fn lemma_line_is_word(line: Seq<char>, entry: TunnelEntryView, cut: LineSplit)
    requires
        storable(entry),
        laid_out(line, entry, cut),
    ensures
        is_word(line),
{
    decimal_reads_back(entry.port as nat);
    lemma_address_chars(entry.ip);
    lemma_own_cut_splits(line, entry, cut);
    assert(line[0] == line.take(cut.name_end)[0]);
    let ip = line.subrange(cut.ip_start, cut.ip_end);
    let port = line.subrange(cut.ip_end + 1, cut.port_end);
    match entry.pool {
        Some(pool) => {
            assert(line.last() == pool.last());
        },
        None => {
            if cut.port_end == cut.ip_end {
                assert(line.last() == ip.last());
            } else {
                assert(line.last() == port.last());
                assert(is_ascii_digit(port[port.len() - 1]));
            }
        },
    }
    assert forall|i: int| 0 <= i < line.len() implies #[trigger] line[i] != '\n' by {
        if cut.ip_start <= i < cut.ip_end {
            assert(line[i] == ip[i - cut.ip_start]);
        }
    }
}

/// The line that stores an entry reads back as that entry.
pub proof fn stored_line_reads_back(entry: TunnelEntryView)
    requires
        storable(entry),
    ensures
        line_outcome(entry_line(entry)) == LineOutcome::Entry(entry),
        is_word(entry_line(entry)),
{
    lemma_laid_out(entry);
    lemma_reads_back(entry_line(entry), entry, own_cut(entry));
}

proof fn lemma_reads_back(line: Seq<char>, entry: TunnelEntryView, cut: LineSplit)
    requires
        storable(entry),
        laid_out(line, entry, cut),
    ensures
        line_outcome(line) == LineOutcome::Entry(entry),
        is_word(line),
{
    lemma_own_cut_preferred(line, entry, cut);
    lemma_preferred_unique(line, cut, choose|c: LineSplit| preferred(line, c));
    assert(line_captures(line) == Some(captured(line, cut)));
    lemma_line_is_word(line, entry, cut);
    decimal_reads_back(entry.port as nat);
    lemma_trimmed_fixed(line);
    lemma_trimmed_fixed(entry.name);
    match entry.pool {
        Some(pool) => {
            lemma_trimmed_fixed(pool);
        },
        None => {},
    }
    assert(captured_entry(captured(line, cut)) == Some(entry));
}

proof fn lemma_lines_of_list(entries: Seq<TunnelEntryView>)
    requires
        forall|i: int| 0 <= i < entries.len() ==> storable(#[trigger] entries[i]),
    ensures
        lines(list_text(entries)) == Seq::new(entries.len(), |i: int| entry_line(entries[i])),
    decreases entries.len(),
{
    let all = Seq::new(entries.len(), |i: int| entry_line(entries[i]));
    if entries.len() == 0 {
        assert(all =~= Seq::empty());
    } else {
        let rest = entries.drop_first();
        assert forall|i: int| 0 <= i < rest.len() implies storable(#[trigger] rest[i]) by {
            assert(rest[i] == entries[i + 1]);
        }
        lemma_lines_of_list(rest);
        stored_line_reads_back(entries[0]);
        lemma_lines_first(entry_line(entries[0]), list_text(rest));
        assert(all =~= seq![entry_line(entries[0])] + Seq::new(
            rest.len(),
            |i: int| entry_line(rest[i]),
        ));
    }
}

proof fn lemma_parse_stored_lines(entries: Seq<TunnelEntryView>)
    requires
        forall|i: int| 0 <= i < entries.len() ==> storable(#[trigger] entries[i]),
    ensures
        parse_lines(Seq::new(entries.len(), |i: int| entry_line(entries[i]))) == Ok::<
            Seq<TunnelEntryView>,
            TunnelErrorView,
        >(entries),
    decreases entries.len(),
{
    let all = Seq::new(entries.len(), |i: int| entry_line(entries[i]));
    if entries.len() == 0 {
        assert(entries =~= Seq::empty());
    } else {
        let front = entries.drop_last();
        lemma_parse_stored_lines(front);
        assert(all.drop_last() =~= Seq::new(front.len(), |i: int| entry_line(front[i])));
        stored_line_reads_back(entries.last());
        assert(front.push(entries.last()) =~= entries);
    }
}

/// Reading the text that stores a list of entries gives the entries back.
pub proof fn stored_list_reads_back(entries: Seq<TunnelEntryView>)
    requires
        entries.len() > 0,
        forall|i: int| 0 <= i < entries.len() ==> storable(#[trigger] entries[i]),
    ensures
        parse_list(list_text(entries)) == Ok::<Seq<TunnelEntryView>, TunnelErrorView>(entries),
{
    lemma_lines_of_list(entries);
    lemma_parse_stored_lines(entries);
}

/// The name that the preferred cut of a word takes does not end with white space.
proof fn lemma_name_is_word(line: Seq<char>, cut: LineSplit)
    requires
        is_word(line),
        preferred(line, cut),
    ensures
        is_word(line.take(cut.name_end)),
{
    let name = line.take(cut.name_end);
    assert(name[0] == line[0]);
    assert forall|i: int| 0 <= i < name.len() implies #[trigger] name[i] != '\n' by {
        assert(name[i] == line[i]);
    }
    if is_white(line[cut.name_end - 1]) {
        let shorter = LineSplit { name_end: cut.name_end - 1, ..cut };
        assert(splits(line, shorter));
    }
}

/// The name that the preferred cut of a word takes does not itself read as an
/// entry with a pool: the pattern would have stopped there.
proof fn lemma_name_reads_no_entry(line: Seq<char>, cut: LineSplit, inner: LineSplit)
    requires
        is_word(line),
        preferred(line, cut),
    ensures
        !reads_as_entry(line.take(cut.name_end), inner),
{
    let name = line.take(cut.name_end);
    if reads_as_entry(name, inner) {
        let other = LineSplit { pool_end: line.len() as int, ..inner };
        assert forall|i: int| 0 <= i < cut.name_end implies #[trigger] line[i] == name[i] by {}
        assert(line.subrange(inner.ip_start, inner.ip_end) =~= name.subrange(
            inner.ip_start,
            inner.ip_end,
        ));
        assert(splits_head(line, other));
        assert(splits(line, other));
        lemma_address_chars(name.subrange(inner.ip_start, inner.ip_end));
    }
}

proof fn lemma_captured_storable(line: Seq<char>, cut: LineSplit)
    requires
        is_word(line),
        preferred(line, cut),
    ensures
        captured_entry(captured(line, cut)) matches Some(entry) ==> storable(entry),
{
    let name = line.take(cut.name_end);
    lemma_name_is_word(line, cut);
    lemma_trimmed_fixed(name);
    assert forall|inner: LineSplit| !reads_as_entry(name, inner) by {
        lemma_name_reads_no_entry(line, cut, inner);
    }
    match cut.at {
        Some(at) => {
            let pool = line.subrange(at + 1, cut.pool_end);
            assert(cut.pool_end == line.len());
            assert(pool.last() == line.last());
            let (from, to) = lemma_trimmed_range(pool);
            let inner = pool.subrange(from, to);
            assert(from < to);
            assert(inner[0] == pool[from] && inner.last() == pool[to - 1]);
            assert forall|i: int| 0 <= i < inner.len() implies #[trigger] inner[i] != '\n' by {
                assert(inner[i] == line[at + 1 + from + i]);
            }
        },
        None => {},
    }
}

/// An entry that a line reads as is one that a tunnel list can hold.
pub proof fn read_entry_is_storable(raw: Seq<char>)
    requires
        one_line_between(raw, 0, raw.len() as int),
    ensures
        line_outcome(raw) matches LineOutcome::Entry(entry) ==> storable(entry),
{
    let line = trimmed(raw);
    let (from, to) = lemma_trimmed_range(raw);
    if line.len() > 0 {
        assert(line[0] == raw[from] && line.last() == raw[to - 1]);
        assert forall|i: int| 0 <= i < line.len() implies #[trigger] line[i] != '\n' by {
            assert(line[i] == raw[from + i]);
        }
        if exists|cut: LineSplit| preferred(line, cut) {
            lemma_captured_storable(line, choose|cut: LineSplit| preferred(line, cut));
        }
    }
}

proof fn lemma_read_entries_storable(all: Seq<Seq<char>>)
    requires
        forall|k: int, i: int|
            0 <= k < all.len() && 0 <= i < all[k].len() ==> #[trigger] all[k][i] != '\n',
    ensures
        parse_lines(all) matches Ok(entries) ==> forall|i: int|
            0 <= i < entries.len() ==> storable(#[trigger] entries[i]),
    decreases all.len(),
{
    if all.len() > 0 {
        let front = all.drop_last();
        assert forall|k: int, i: int|
            0 <= k < front.len() && 0 <= i < front[k].len() implies #[trigger] front[k][i]
            != '\n' by {
            assert(all[k][i] != '\n');
        }
        lemma_read_entries_storable(front);
        let raw = all.last();
        assert forall|i: int| 0 <= i < raw.len() implies #[trigger] raw[i] != '\n' by {
            assert(all[all.len() - 1][i] != '\n');
        }
        read_entry_is_storable(raw);
    }
}

/// Storing the entries of a list that was read, and reading the text again, gives
/// the same entries.
pub proof fn read_list_survives_storing(content: Seq<char>)
    ensures
        parse_list(content) matches Ok(entries) ==> parse_list(list_text(entries)) == parse_list(
            content,
        ),
{
    lemma_lines_hold_no_feed(content);
    lemma_read_entries_storable(lines(content));
    if let Ok(entries) = parse_list(content) {
        stored_list_reads_back(entries);
    }
}

} // verus!
