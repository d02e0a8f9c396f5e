//! What holds of reading a tunnel list.

use vstd::prelude::*;

use crate::picks::increasing;
use crate::text::{
    all_ascii_digits, decimal, decimal_reads_back, is_ascii_digit, is_white, lemma_trimmed_fixed,
    lines, trimmed, u16_value,
};
use crate::text_laws::trimming_takes_white_space_only;
use crate::tunnel_laws::{is_word, reads_as_entry};
use crate::tunnels::{
    captured, captured_entry, digits_between, dotted_at, entry_line, is_address, is_digit,
    lemma_address_chars, lemma_preferred_unique, lemma_split_edges, line_captures, line_outcome,
    list_text, one_line_between, parse_lines, parse_list, preferred, splits, splits_head,
    tunnel_error_text, white_between, LineCapturesView, LineOutcome, LineSplit, TunnelEntryView,
    TunnelErrorView,
};

verus! {

/// What an accepted list holds, line by line.
proof fn lemma_accepted_lines(all: Seq<Seq<char>>, entries: Seq<TunnelEntryView>) -> (at: Seq<int>)
    requires
        parse_lines(all) == Ok::<Seq<TunnelEntryView>, TunnelErrorView>(entries),
    ensures
        increasing(at),
        at.len() == entries.len(),
        forall|k: int| 0 <= k < at.len() ==> 0 <= #[trigger] at[k] < all.len(),
        forall|i: int| #[trigger]
            at.contains(i) <==> 0 <= i < all.len() && trimmed(all[i]).len() > 0,
        forall|k: int|
            0 <= k < at.len() ==> line_outcome(all[#[trigger] at[k]]) == LineOutcome::Entry(
                entries[k],
            ),
    decreases all.len(),
{
    if all.len() == 0 {
        Seq::empty()
    } else {
        let front = all.drop_last();
        let last = all.len() - 1;
        let read = parse_lines(front)->Ok_0;
        let before = lemma_accepted_lines(front, read);
        assert(forall|i: int| 0 <= i < last ==> front[i] == all[i]);
        match line_outcome(all[last]) {
            LineOutcome::Blank => {
                assert forall|i: int|
                    #[trigger] before.contains(i) <==> 0 <= i < all.len() && trimmed(all[i]).len()
                        > 0 by {
                    if 0 <= i < last {
                        assert(front[i] == all[i]);
                    }
                }
                assert forall|k: int| 0 <= k < before.len() implies line_outcome(
                    all[#[trigger] before[k]],
                ) == LineOutcome::Entry(entries[k]) by {
                    assert(front[before[k]] == all[before[k]]);
                }
                before
            },
            _ => {
                let at = before.push(last);
                assert forall|i: int|
                    #[trigger] at.contains(i) <==> 0 <= i < all.len() && trimmed(all[i]).len()
                        > 0 by {
                    if at.contains(i) && i != last {
                        let k = choose|k: int| 0 <= k < at.len() && at[k] == i;
                        assert(before[k] == i);
                        assert(before.contains(i));
                        assert(front[i] == all[i]);
                    }
                    if 0 <= i < all.len() && trimmed(all[i]).len() > 0 {
                        if i == last {
                            assert(at[at.len() - 1] == i);
                        } else {
                            assert(front[i] == all[i]);
                            assert(before.contains(i));
                            let k = choose|k: int| 0 <= k < before.len() && before[k] == i;
                            assert(at[k] == i);
                        }
                    }
                }
                assert forall|k: int| 0 <= k < at.len() implies line_outcome(all[#[trigger] at[k]])
                    == LineOutcome::Entry(entries[k]) by {
                    if k < before.len() {
                        assert(front[before[k]] == all[before[k]]);
                        assert(at[k] == before[k]);
                    }
                }
                at
            },
        }
    }
}

/// An accepted list holds at least one entry, and has one for each line that is
/// not blank, in order: the entry that the line reads as.
pub proof fn accepted_list_is_its_lines(content: Seq<char>, entries: Seq<TunnelEntryView>) -> (at:
    Seq<int>)
    requires
        parse_list(content) == Ok::<Seq<TunnelEntryView>, TunnelErrorView>(entries),
    ensures
        entries.len() > 0,
        increasing(at),
        at.len() == entries.len(),
        forall|k: int| 0 <= k < at.len() ==> 0 <= #[trigger] at[k] < lines(content).len(),
        forall|i: int| #[trigger]
            at.contains(i) <==> 0 <= i < lines(content).len() && trimmed(lines(content)[i]).len()
                > 0,
        forall|k: int|
            0 <= k < at.len() ==> line_outcome(lines(content)[#[trigger] at[k]])
                == LineOutcome::Entry(entries[k]),
{
    lemma_accepted_lines(lines(content), entries)
}

/// Whether a line holds an entry or nothing.
pub open spec fn passes(raw: Seq<char>) -> bool {
    line_outcome(raw) is Entry || line_outcome(raw) is Blank
}

proof fn lemma_refused_lines(all: Seq<Seq<char>>)
    ensures
        parse_lines(all) is Ok ==> forall|i: int| 0 <= i < all.len() ==> passes(#[trigger] all[i]),
        parse_lines(all) matches Err(error) ==> match error {
            TunnelErrorView::InvalidLine { line_no, line } => {
                &&& 1 <= line_no <= all.len()
                &&& line == trimmed(all[line_no - 1])
                &&& line_outcome(all[line_no - 1]) is BadLine
                &&& forall|i: int| 0 <= i < line_no - 1 ==> passes(#[trigger] all[i])
            },
            TunnelErrorView::InvalidPort { line_no } => {
                &&& 1 <= line_no <= all.len()
                &&& line_outcome(all[line_no - 1]) is BadPort
                &&& forall|i: int| 0 <= i < line_no - 1 ==> passes(#[trigger] all[i])
            },
            TunnelErrorView::NoServers => false,
        },
    decreases all.len(),
{
    if all.len() > 0 {
        let front = all.drop_last();
        lemma_refused_lines(front);
        assert forall|i: int| 0 <= i < front.len() implies front[i] == #[trigger] all[i] by {}
        assert forall|i: int| 0 <= i < front.len() implies passes(front[i]) == passes(
            #[trigger] all[i],
        ) by {}
        if let Ok(entries) = parse_lines(front) {
            assert forall|i: int| 0 <= i < all.len() - 1 implies passes(#[trigger] all[i]) by {
                assert(passes(front[i]));
            }
        } else if let Err(error) = parse_lines(front) {
            match error {
                TunnelErrorView::InvalidLine { line_no, line } => {
                    assert(front[line_no - 1] == all[line_no - 1]);
                    assert forall|i: int| 0 <= i < line_no - 1 implies passes(
                        #[trigger] all[i],
                    ) by {
                        assert(passes(front[i]));
                    }
                },
                TunnelErrorView::InvalidPort { line_no } => {
                    assert(front[line_no - 1] == all[line_no - 1]);
                    assert forall|i: int| 0 <= i < line_no - 1 implies passes(
                        #[trigger] all[i],
                    ) by {
                        assert(passes(front[i]));
                    }
                },
                TunnelErrorView::NoServers => {},
            }
        }
    }
}

/// A list is refused for its first line that is neither blank nor an entry, by
/// the number of that line from one, or because all its lines are blank.
pub proof fn refusal_names_the_first_bad_line(content: Seq<char>)
    ensures
        parse_list(content) is Ok ==> forall|i: int|
            0 <= i < lines(content).len() ==> passes(#[trigger] lines(content)[i]),
        parse_list(content) matches Err(error) ==> match error {
            TunnelErrorView::InvalidLine { line_no, line } => {
                &&& 1 <= line_no <= lines(content).len()
                &&& line == trimmed(lines(content)[line_no - 1])
                &&& line_outcome(lines(content)[line_no - 1]) is BadLine
                &&& forall|i: int| 0 <= i < line_no - 1 ==> passes(#[trigger] lines(content)[i])
            },
            TunnelErrorView::InvalidPort { line_no } => {
                &&& 1 <= line_no <= lines(content).len()
                &&& line_outcome(lines(content)[line_no - 1]) is BadPort
                &&& forall|i: int| 0 <= i < line_no - 1 ==> passes(#[trigger] lines(content)[i])
            },
            TunnelErrorView::NoServers => forall|i: int|
                0 <= i < lines(content).len() ==> trimmed(#[trigger] lines(content)[i]).len() == 0,
        },
{
    lemma_refused_lines(lines(content));
    if parse_list(content) == Err::<Seq<TunnelEntryView>, TunnelErrorView>(
        TunnelErrorView::NoServers,
    ) {
        let at = lemma_accepted_lines(lines(content), parse_lines(lines(content))->Ok_0);
        assert forall|i: int| 0 <= i < lines(content).len() implies trimmed(
            #[trigger] lines(content)[i],
        ).len() == 0 by {
            assert(!at.contains(i));
        }
    }
}

/// The groups of a line give its entry: the name and the pool without the white
/// space around them, the address as it is, and the port, which is 29450 where the
/// line has none; a port that does not fit gives no entry.
pub proof fn groups_give_the_entry(groups: LineCapturesView, n: nat)
    ensures
        captured_entry(LineCapturesView { port: None, ..groups }) is Some,
        captured_entry(LineCapturesView { port: None, ..groups }).unwrap().port == 29450,
        ({
            let written = captured_entry(LineCapturesView { port: Some(decimal(n)), ..groups });
            &&& n <= 65535 <==> written is Some
            &&& n <= 65535 ==> written.unwrap().port == n
        }),
        captured_entry(groups) matches Some(entry) ==> {
            &&& entry.name == trimmed(groups.name)
            &&& entry.ip == groups.ip
            &&& groups.pool is None ==> entry.pool is None
            &&& groups.pool matches Some(pool) ==> entry.pool == Some(trimmed(pool))
        },
{
    decimal_reads_back(n);
}

/// Blank lines are those of white space alone, and white space around a line does
/// not matter.
pub proof fn white_space_around_a_line(before: Seq<char>, line: Seq<char>, after: Seq<char>)
    requires
        forall|i: int| 0 <= i < before.len() ==> is_white(#[trigger] before[i]),
        forall|i: int| 0 <= i < after.len() ==> is_white(#[trigger] after[i]),
        line.len() > 0 ==> !is_white(line[0]) && !is_white(line[line.len() - 1]),
    ensures
        line_outcome(before + line + after) == line_outcome(line),
        line_outcome(before + line + after) is Blank <==> line.len() == 0,
{
    trimming_takes_white_space_only(before, line, after);
    lemma_trimmed_fixed(line);
}

proof fn lemma_preferred_exists(line: Seq<char>, cut: LineSplit) -> (best: LineSplit)
    requires
        splits(line, cut),
    ensures
        preferred(line, best),
    decreases cut.name_end, line.len() - cut.pool_end,
{
    if preferred(line, cut) {
        cut
    } else {
        let other = choose|other: LineSplit| #[trigger]
            splits(line, other) && !(cut.name_end < other.name_end || (cut.name_end
                == other.name_end && cut.pool_end >= other.pool_end));
        lemma_split_edges(line, cut);
        lemma_split_edges(line, other);
        lemma_preferred_exists(line, other)
    }
}

/// A line is an entry, if perhaps with a bad port, exactly where it can be cut
/// into the parts of one.
pub proof fn cut_lines_are_entries(line: Seq<char>)
    requires
        is_word(line),
    ensures
        (exists|cut: LineSplit| splits(line, cut)) <==> line_outcome(line) is Entry || line_outcome(
            line,
        ) is BadPort,
        line_outcome(line) is BadLine <==> forall|cut: LineSplit| !splits(line, cut),
{
    lemma_trimmed_fixed(line);
    if exists|cut: LineSplit| splits(line, cut) {
        let best = lemma_preferred_exists(line, choose|cut: LineSplit| splits(line, cut));
        assert(preferred(line, best));
    }
}

/// A cut with a shorter name ends within the name and shows that it reads as an
/// entry itself.
proof fn lemma_shorter_name(line: Seq<char>, n: int, dash: int, other: LineSplit)
    requires
        0 < n <= dash < line.len(),
        line[dash] == '-',
        white_between(line, n, dash),
        !is_white(line[n - 1]),
        splits(line, other),
        other.name_end < n,
    ensures
        reads_as_entry(line.take(n), other),
{
    lemma_split_edges(line, other);
    let name = line.take(n);
    let ip = line.subrange(other.ip_start, other.ip_end);
    assert(is_white(line[n]) || line[n] == '-');
    assert(other.dash < n);
    assert(other.ip_start < n) by {
        if other.ip_start >= n {
            assert(other.dash == n - 1);
            assert(other.ip_start <= dash);
            assert(is_white(line[other.ip_start]) || line[other.ip_start] == '-');
        }
    }
    assert(other.ip_end <= n) by {
        if other.ip_end > n {
            assert(is_digit(line[n]) || line[n] == '.');
        }
    }
    assert(other.port_end <= n) by {
        if other.port_end > n {
            assert(other.ip_end == n || is_digit(line[n]));
        }
    }
    assert(other.at matches Some(at) && at < n) by {
        match other.at {
            None => {
                assert(is_white(line[dash]));
            },
            Some(at) => {
                if at >= n {
                    assert(at <= dash) by {
                        if at > dash {
                            assert(is_white(line[dash]));
                        }
                    }
                    assert(is_white(line[at]) || line[at] == '-');
                }
            },
        }
    }
    assert(name.subrange(other.ip_start, other.ip_end) =~= ip);
    assert(white_between(name, other.name_end, other.dash));
    assert(white_between(name, other.dash + 1, other.ip_start));
    assert(one_line_between(name, 0, other.name_end));
    if other.port_end != other.ip_end {
        assert(digits_between(name, other.ip_end + 1, other.port_end));
    }
    assert(splits_head(name, other));
}

proof fn lemma_cut_is_preferred(line: Seq<char>, cut: LineSplit, name: Seq<char>)
    requires
        splits(line, cut),
        cut.pool_end == line.len(),
        name == line.take(cut.name_end),
        is_word(name),
        forall|inner: LineSplit| !reads_as_entry(name, inner),
    ensures
        preferred(line, cut),
{
    assert(name[cut.name_end - 1] == line[cut.name_end - 1]);
    assert forall|other: LineSplit| #[trigger] splits(line, other) implies cut.name_end
        < other.name_end || (cut.name_end == other.name_end && cut.pool_end >= other.pool_end) by {
        lemma_split_edges(line, other);
        if other.name_end < cut.name_end {
            lemma_shorter_name(line, cut.name_end, cut.dash, other);
        }
    }
}

/// How a port is written behind an address.
pub open spec fn port_part(port: Option<Seq<char>>) -> Seq<char> {
    match port {
        Some(digits) => seq![':'] + digits,
        None => Seq::empty(),
    }
}

/// How a pool is written at the end of a line, with the white space before and
/// after its mark.
pub open spec fn pool_part(pool: Option<(Seq<char>, Seq<char>, Seq<char>)>) -> Seq<char> {
    match pool {
        Some((gap, space, text)) => gap + (seq!['@'] + (space + text)),
        None => Seq::empty(),
    }
}

/// The text of a line by its parts.
pub open spec fn line_of_parts(
    name: Seq<char>,
    dash: (Seq<char>, Seq<char>),
    ip: Seq<char>,
    port: Option<Seq<char>>,
    pool: Option<(Seq<char>, Seq<char>, Seq<char>)>,
) -> Seq<char> {
    name + (dash.0 + (seq!['-'] + (dash.1 + (ip + (port_part(port) + pool_part(pool))))))
}

/// A line reads as the parts that it is made of, however much white space stands
/// between them: a name, a dash, an address, a port where there is one, and a pool
/// where there is one. The port is 29450 where the line has none.
pub proof fn line_reads_as_its_parts(
    name: Seq<char>,
    dash: (Seq<char>, Seq<char>),
    ip: Seq<char>,
    port: Option<Seq<char>>,
    pool: Option<(Seq<char>, Seq<char>, Seq<char>)>,
)
    requires
        is_word(name),
        forall|inner: LineSplit| !reads_as_entry(name, inner),
        white_between(dash.0, 0, dash.0.len() as int),
        white_between(dash.1, 0, dash.1.len() as int),
        is_address(ip),
        port matches Some(digits) ==> digits.len() > 0 && all_ascii_digits(digits),
        pool matches Some((gap, space, text)) ==> {
            &&& gap.len() > 0
            &&& white_between(gap, 0, gap.len() as int)
            &&& white_between(space, 0, space.len() as int)
            &&& one_line_between(space, 0, space.len() as int)
            &&& is_word(text)
        },
    ensures
        ({
            let outcome = line_outcome(line_of_parts(name, dash, ip, port, pool));
            let value = match port {
                Some(digits) => u16_value(digits),
                None => Some(29450u16),
            };
            match value {
                Some(n) => outcome == LineOutcome::Entry(
                    TunnelEntryView {
                        name,
                        ip,
                        port: n,
                        pool: match pool {
                            Some((_, _, text)) => Some(text),
                            None => None,
                        },
                    },
                ),
                None => outcome == LineOutcome::BadPort,
            }
        }),
{
    let line = line_of_parts(name, dash, ip, port, pool);
    let dash_at = name.len() + dash.0.len();
    let ip_start = dash_at + 1 + dash.1.len();
    let ip_end = ip_start + ip.len();
    let port_end = ip_end + port_part(port).len();
    let at = match pool {
        Some((gap, space, text)) => Some(port_end + gap.len()),
        None => None,
    };
    let cut = LineSplit {
        name_end: name.len() as int,
        dash: dash_at as int,
        ip_start: ip_start as int,
        ip_end: ip_end as int,
        port_end: port_end as int,
        at: match at {
            Some(n) => Some(n as int),
            None => None,
        },
        pool_end: line.len() as int,
    };
    lemma_parts(name, dash, ip, port, pool, line, cut);
    lemma_cut_is_preferred(line, cut, name);
    lemma_preferred_unique(line, cut, choose|c: LineSplit| preferred(line, c));
    assert(line_captures(line) == Some(captured(line, cut)));
    lemma_trimmed_fixed(line);
    lemma_trimmed_fixed(name);
    if let Some((gap, space, text)) = pool {
        trimming_takes_white_space_only(space, text, Seq::empty());
        assert(space + text + Seq::<char>::empty() =~= space + text);
    }
}

/// Whether the part stands in the line at that place.
#[verifier::opaque]
spec fn located(line: Seq<char>, from: int, part: Seq<char>) -> bool {
    &&& 0 <= from && from + part.len() <= line.len()
    &&& line.subrange(from, from + part.len()) == part
}

proof fn lemma_locate(line: Seq<char>, from: int, part: Seq<char>, rest: Seq<char>)
    requires
        0 <= from <= line.len(),
        line.skip(from) == part + rest,
    ensures
        located(line, from, part),
        line.len() == from + part.len() + rest.len(),
        line.skip(from + part.len()) == rest,
{
    reveal(located);
    let whole = line.skip(from);
    assert(whole.len() == part.len() + rest.len());
    assert(line.subrange(from, from + part.len()) =~= part) by {
        assert forall|i: int| 0 <= i < part.len() implies line[from + i] == #[trigger] part[i] by {
            assert(whole[i] == part[i]);
        }
    }
    assert(line.skip(from + part.len()) =~= rest) by {
        assert forall|i: int| 0 <= i < rest.len() implies line[from + part.len() + i]
            == #[trigger] rest[i] by {
            assert(whole[part.len() + i] == rest[i]);
        }
    }
}

proof fn lemma_located_char(line: Seq<char>, from: int, part: Seq<char>, i: int)
    requires
        located(line, from, part),
        from <= i < from + part.len(),
    ensures
        line[i] == part[i - from],
{
    reveal(located);
    assert(line.subrange(from, from + part.len())[i - from] == line[i]);
}

proof fn lemma_located_text(line: Seq<char>, from: int, part: Seq<char>)
    requires
        located(line, from, part),
    ensures
        0 <= from && from + part.len() <= line.len(),
        line.subrange(from, from + part.len()) == part,
{
    reveal(located);
}

proof fn lemma_located_white(line: Seq<char>, from: int, part: Seq<char>)
    requires
        located(line, from, part),
        white_between(part, 0, part.len() as int),
    ensures
        white_between(line, from, from + part.len()),
{
    assert forall|i: int| from <= i < from + part.len() implies is_white(#[trigger] line[i]) by {
        lemma_located_char(line, from, part, i);
    }
}

proof fn lemma_located_line(line: Seq<char>, from: int, part: Seq<char>)
    requires
        located(line, from, part),
        one_line_between(part, 0, part.len() as int),
    ensures
        one_line_between(line, from, from + part.len()),
{
    assert forall|i: int| from <= i < from + part.len() implies #[trigger] line[i] != '\n' by {
        lemma_located_char(line, from, part, i);
    }
}

proof fn lemma_located_digits(line: Seq<char>, from: int, part: Seq<char>)
    requires
        located(line, from, part),
        all_ascii_digits(part),
    ensures
        digits_between(line, from, from + part.len()),
{
    assert forall|i: int| from <= i < from + part.len() implies is_digit(#[trigger] line[i]) by {
        lemma_located_char(line, from, part, i);
    }
}

proof fn lemma_port_part(line: Seq<char>, from: int, port: Option<Seq<char>>, rest: Seq<char>)
    requires
        0 <= from <= line.len(),
        line.skip(from) == port_part(port) + rest,
        port matches Some(digits) ==> digits.len() > 0 && all_ascii_digits(digits),
    ensures
        line.skip(from + port_part(port).len()) == rest,
        line.len() == from + port_part(port).len() + rest.len(),
        port matches Some(digits) ==> {
            &&& line[from] == ':'
            &&& located(line, from + 1, digits)
            &&& digits_between(line, from + 1, from + 1 + digits.len())
        },
{
    lemma_locate(line, from, port_part(port), rest);
    if let Some(digits) = port {
        assert(line.skip(from) =~= seq![':'] + (digits + rest));
        lemma_locate(line, from, seq![':'], digits + rest);
        lemma_locate(line, from + 1, digits, rest);
        lemma_located_char(line, from, seq![':'], from);
        lemma_located_digits(line, from + 1, digits);
    }
}

proof fn lemma_pool_part(
    line: Seq<char>,
    from: int,
    gap: Seq<char>,
    space: Seq<char>,
    text: Seq<char>,
)
    requires
        0 <= from <= line.len(),
        line.skip(from) == gap + (seq!['@'] + (space + text)),
        white_between(gap, 0, gap.len() as int),
        one_line_between(space, 0, space.len() as int),
        is_word(text),
    ensures
        ({
            let at = from + gap.len();
            &&& at + 1 < line.len()
            &&& white_between(line, from, at)
            &&& line[at] == '@'
            &&& one_line_between(line, at + 1, line.len() as int)
            &&& line.subrange(at + 1, line.len() as int) == space + text
            &&& line[line.len() - 1] == text[text.len() - 1]
        }),
{
    let at = from + gap.len();
    lemma_locate(line, from, gap, seq!['@'] + (space + text));
    lemma_located_white(line, from, gap);
    lemma_locate(line, at, seq!['@'], space + text);
    lemma_located_char(line, at, seq!['@'], at);
    assert(line.skip(at + 1) == space + text);
    lemma_locate(line, at + 1, space, text);
    lemma_located_line(line, at + 1, space);
    assert(line.skip(at + 1 + space.len()) =~= text + Seq::<char>::empty());
    lemma_locate(line, at + 1 + space.len(), text, Seq::empty());
    lemma_located_line(line, at + 1 + space.len(), text);
    lemma_located_char(line, at + 1 + space.len(), text, line.len() - 1);
    assert(line.subrange(at + 1, line.len() as int) =~= line.skip(at + 1));
}

proof fn lemma_parts(
    name: Seq<char>,
    dash: (Seq<char>, Seq<char>),
    ip: Seq<char>,
    port: Option<Seq<char>>,
    pool: Option<(Seq<char>, Seq<char>, Seq<char>)>,
    line: Seq<char>,
    cut: LineSplit,
)
    requires
        is_word(name),
        white_between(dash.0, 0, dash.0.len() as int),
        white_between(dash.1, 0, dash.1.len() as int),
        is_address(ip),
        port matches Some(digits) ==> digits.len() > 0 && all_ascii_digits(digits),
        pool matches Some((gap, space, text)) ==> {
            &&& gap.len() > 0
            &&& white_between(gap, 0, gap.len() as int)
            &&& one_line_between(space, 0, space.len() as int)
            &&& is_word(text)
        },
        line == line_of_parts(name, dash, ip, port, pool),
        cut.name_end == name.len(),
        cut.dash == name.len() + dash.0.len(),
        cut.ip_start == cut.dash + 1 + dash.1.len(),
        cut.ip_end == cut.ip_start + ip.len(),
        cut.port_end == cut.ip_end + port_part(port).len(),
        cut.at == (match pool {
            Some((gap, space, text)) => Some(cut.port_end + gap.len()),
            None => None,
        }),
        cut.pool_end == line.len(),
    ensures
        splits(line, cut),
        line.len() > 0,
        !is_white(line[0]),
        !is_white(line[line.len() - 1]),
        line.take(cut.name_end) == name,
        line.subrange(cut.ip_start, cut.ip_end) == ip,
        port matches Some(digits) ==> line.subrange(cut.ip_end + 1, cut.port_end) == digits,
        pool matches Some((gap, space, text)) ==> line.subrange(
            cut.port_end + gap.len() + 1,
            cut.pool_end,
        ) == space + text,
{
    lemma_head_parts(line, name, dash, ip, port_part(port) + pool_part(pool), cut);
    lemma_port_part(line, cut.ip_end, port, pool_part(pool));
    lemma_address_chars(ip);
    assert(ip[ip.len() - 1] == line.subrange(cut.ip_start, cut.ip_end)[ip.len() - 1]);
    assert(line[cut.ip_end - 1] == ip[ip.len() - 1]);
    if let Some(digits) = port {
        lemma_located_text(line, cut.ip_end + 1, digits);
    }
    match pool {
        Some((gap, space, text)) => {
            lemma_pool_part(line, cut.port_end, gap, space, text);
        },
        None => {
            if let Some(digits) = port {
                lemma_located_char(line, cut.ip_end + 1, digits, line.len() - 1);
                assert(is_ascii_digit(digits[digits.len() - 1]));
            }
        },
    }
    assert(splits_head(line, cut));
    assert(white_between(line, cut.pool_end, line.len() as int));
}

proof fn lemma_head_parts(
    line: Seq<char>,
    name: Seq<char>,
    dash: (Seq<char>, Seq<char>),
    ip: Seq<char>,
    rest: Seq<char>,
    cut: LineSplit,
)
    requires
        line == name + (dash.0 + (seq!['-'] + (dash.1 + (ip + rest)))),
        is_word(name),
        white_between(dash.0, 0, dash.0.len() as int),
        white_between(dash.1, 0, dash.1.len() as int),
        cut.name_end == name.len(),
        cut.dash == name.len() + dash.0.len(),
        cut.ip_start == cut.dash + 1 + dash.1.len(),
        cut.ip_end == cut.ip_start + ip.len(),
    ensures
        line[0] == name[0],
        one_line_between(line, 0, cut.name_end),
        line.take(cut.name_end) == name,
        white_between(line, cut.name_end, cut.dash),
        line[cut.dash] == '-',
        white_between(line, cut.dash + 1, cut.ip_start),
        line.subrange(cut.ip_start, cut.ip_end) == ip,
        line.len() == cut.ip_end + rest.len(),
        line.skip(cut.ip_end) == rest,
{
    let t4 = ip + rest;
    let t3 = dash.1 + t4;
    let t2 = seq!['-'] + t3;
    let t1 = dash.0 + t2;
    assert(line.skip(0) =~= line);
    lemma_locate(line, 0, name, t1);
    lemma_located_line(line, 0, name);
    lemma_located_char(line, 0, name, 0);
    lemma_located_text(line, 0, name);
    assert(line.take(cut.name_end) =~= line.subrange(0, name.len() as int));
    lemma_locate(line, cut.name_end, dash.0, t2);
    lemma_located_white(line, cut.name_end, dash.0);
    lemma_locate(line, cut.dash, seq!['-'], t3);
    lemma_located_char(line, cut.dash, seq!['-'], cut.dash);
    lemma_locate(line, cut.dash + 1, dash.1, t4);
    lemma_located_white(line, cut.dash + 1, dash.1);
    lemma_locate(line, cut.ip_start, ip, rest);
    lemma_located_text(line, cut.ip_start, ip);
}

/// Four numbers with dots between them are an address.
pub proof fn dotted_numbers_are_an_address(a: nat, b: nat, c: nat, d: nat)
    ensures
        is_address(
            decimal(a) + seq!['.'] + decimal(b) + seq!['.'] + decimal(c) + seq!['.'] + decimal(d),
        ),
{
    decimal_reads_back(a);
    decimal_reads_back(b);
    decimal_reads_back(c);
    decimal_reads_back(d);
    let s = decimal(a) + seq!['.'] + decimal(b) + seq!['.'] + decimal(c) + seq!['.'] + decimal(d);
    let first = decimal(a).len() as int;
    let second = first + 1 + decimal(b).len();
    let third = second + 1 + decimal(c).len();
    assert forall|i: int| 0 <= i < first implies is_digit(#[trigger] s[i]) by {
        assert(s[i] == decimal(a)[i]);
    }
    assert forall|i: int| first + 1 <= i < second implies is_digit(#[trigger] s[i]) by {
        assert(s[i] == decimal(b)[i - first - 1]);
    }
    assert forall|i: int| second + 1 <= i < third implies is_digit(#[trigger] s[i]) by {
        assert(s[i] == decimal(c)[i - second - 1]);
    }
    assert forall|i: int| third + 1 <= i < s.len() implies is_digit(#[trigger] s[i]) by {
        assert(s[i] == decimal(d)[i - third - 1]);
    }
    assert(dotted_at(s, first, second, third));
}

/// An address has three dots, and digits between them and around them.
pub proof fn addresses_have_three_dots(s: Seq<char>) -> (dots: (int, int, int))
    requires
        is_address(s),
    ensures
        0 < dots.0 && dots.0 + 1 < dots.1 && dots.1 + 1 < dots.2 && dots.2 + 1 < s.len(),
        forall|i: int|
            0 <= i < s.len() ==> if i == dots.0 || i == dots.1 || i == dots.2 {
                #[trigger] s[i] == '.'
            } else {
                is_digit(s[i])
            },
        forall|i: int|
            0 <= i < s.len() && (#[trigger] s[i]) as int <= 127 && s[i] != '.' ==> 48 <= s[i] as int
                <= 57,
{
    let (first, second, third) = choose|first: int, second: int, third: int|
        dotted_at(s, first, second, third);
    assert(dotted_at(s, first, second, third));
    (first, second, third)
}

/// The line of an entry holds its name, its address, its port unless that is 29450,
/// and its pool if it has one, in that order.
pub proof fn line_holds_the_entry(entry: TunnelEntryView, pool: Seq<char>)
    ensures
        ({
            let plain = TunnelEntryView { port: 29450, pool: None, ..entry };
            let line = entry_line(plain);
            &&& line.len() == entry.name.len() + 3 + entry.ip.len()
            &&& line.take(entry.name.len() as int) == entry.name
            &&& line[entry.name.len() as int] == ' '
            &&& line[entry.name.len() as int + 1] == '-'
            &&& line[entry.name.len() as int + 2] == ' '
            &&& line.skip(entry.name.len() as int + 3) == entry.ip
        }),
        ({
            let plain = entry_line(TunnelEntryView { port: 29450, pool: None, ..entry });
            let ported = entry_line(TunnelEntryView { pool: None, ..entry });
            &&& entry.port == 29450 ==> ported == plain
            &&& entry.port != 29450 ==> ported == plain.push(':') + decimal(entry.port as nat)
        }),
        entry_line(TunnelEntryView { pool: Some(pool), ..entry }) == entry_line(
            TunnelEntryView { pool: None, ..entry },
        ).push(' ').push('@') + pool,
{
    reveal_strlit(" - ");
    reveal_strlit(":");
    reveal_strlit(" @");
}

/// A stored list is the stored lists of its parts, and each entry of it a line of
/// its own.
pub proof fn list_is_stored_part_by_part(
    a: Seq<TunnelEntryView>,
    b: Seq<TunnelEntryView>,
    entry: TunnelEntryView,
)
    ensures
        list_text(Seq::empty()).len() == 0,
        list_text(seq![entry]) == entry_line(entry).push('\n'),
        list_text(a + b) == list_text(a) + list_text(b),
    decreases a.len(),
{
    assert(seq![entry].drop_first() == Seq::<TunnelEntryView>::empty());
    assert(list_text(seq![entry].drop_first()) == Seq::<char>::empty());
    if a.len() > 0 {
        assert((a + b).drop_first() == a.drop_first() + b);
        list_is_stored_part_by_part(a.drop_first(), b, entry);
    } else {
        assert(a + b == b);
        assert(list_text(a) + list_text(b) == list_text(b));
    }
}

/// The message of a bad line ends with the number of the line, a colon and the
/// line; that of a bad port ends with the number.
pub proof fn messages_tell_the_line(line_no: nat, line: Seq<char>)
    ensures
        tunnel_error_text(TunnelErrorView::InvalidLine { line_no, line })
            == "неверная строка в tunnels.txt, "@ + decimal(line_no) + seq![':', ' '] + line,
        tunnel_error_text(TunnelErrorView::InvalidPort { line_no }) == "неверный порт в строке "@
            + decimal(line_no),
        tunnel_error_text(TunnelErrorView::NoServers) == "в tunnels.txt не найдено серверов"@,
{
    reveal_strlit(": ");
    assert(": "@ == seq![':', ' ']);
}

} // verus!
