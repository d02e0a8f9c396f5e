//! What holds of the text helpers.

use vstd::prelude::*;

use crate::text::{
    all_ascii, ascii_lowercase, before_last, contains_text, decimal, decimal_reads_back,
    digits_value, is_ascii_digit, is_white, joined, lemma_line_feed_from, lemma_lines_first,
    lemma_trimmed_fixed, line_feed_from, lines, lowercase, occurs_at, padded, text_le, texts,
    trimmed, u16_value, unicode_lowercase,
};

verus! {

/// The white space characters by their code points.
pub proof fn white_space_is_exact(c: char)
    ensures
        is_white(c) <==> {
            let n = c as int;
            ||| 9 <= n <= 13
            ||| n == 32
            ||| n == 133
            ||| n == 160
            ||| n == 5760
            ||| 8192 <= n <= 8202
            ||| n == 8232
            ||| n == 8233
            ||| n == 8239
            ||| n == 8287
            ||| n == 12288
        },
{
}

/// White space around a text is trimmed away, however much there is, and nothing
/// else is.
pub proof fn trimming_takes_white_space_only(before: Seq<char>, core: Seq<char>, after: Seq<char>)
    requires
        forall|i: int| 0 <= i < before.len() ==> is_white(#[trigger] before[i]),
        forall|i: int| 0 <= i < after.len() ==> is_white(#[trigger] after[i]),
        core.len() > 0 ==> !is_white(core[0]) && !is_white(core[core.len() - 1]),
    ensures
        trimmed(before + core + after) == core,
    decreases before.len() + after.len(),
{
    let s = before + core + after;
    if before.len() > 0 {
        let rest = before.drop_first();
        assert(s[0] == before[0]);
        assert(s.drop_first() == rest + core + after);
        assert forall|i: int| 0 <= i < rest.len() implies is_white(#[trigger] rest[i]) by {
            assert(rest[i] == before[i + 1]);
        }
        trimming_takes_white_space_only(rest, core, after);
    } else if after.len() > 0 {
        let rest = after.drop_last();
        assert forall|i: int| 0 <= i < rest.len() implies is_white(#[trigger] rest[i]) by {
            assert(rest[i] == after[i]);
        }
        if core.len() > 0 {
            assert(s[0] == core[0]);
            assert(s.last() == after.last());
            assert(s.drop_last() == before + core + rest);
            assert((before + core + rest)[0] == core[0]);
            trimming_takes_white_space_only(before, core, rest);
        } else {
            assert(s == after);
            assert(s.drop_first() == after.drop_first());
            let tail = after.drop_first();
            assert forall|i: int| 0 <= i < tail.len() implies is_white(#[trigger] tail[i]) by {
                assert(tail[i] == after[i + 1]);
            }
            assert(before + core + tail == tail);
            assert(s[0] == after[0]);
            trimming_takes_white_space_only(before, core, tail);
        }
    } else {
        assert(s == core);
        lemma_trimmed_fixed(core);
    }
}

/// A text without a line feed is one line, or none where it is empty.
pub proof fn text_without_feed_is_one_line(s: Seq<char>)
    requires
        forall|i: int| 0 <= i < s.len() ==> #[trigger] s[i] != '\n',
    ensures
        s.len() == 0 ==> lines(s).len() == 0,
        s.len() > 0 ==> lines(s) == seq![s],
{
    lemma_line_feed_from(s, 0);
}

/// A line feed ends a line, and takes with it one carriage return that stands
/// before it.
pub proof fn feed_ends_a_line(line: Seq<char>, rest: Seq<char>)
    requires
        forall|i: int| 0 <= i < line.len() ==> #[trigger] line[i] != '\n',
    ensures
        lines(line + seq!['\r', '\n'] + rest) == seq![line] + lines(rest),
        line.len() == 0 || line[line.len() - 1] != '\r' ==> lines(line + seq!['\n'] + rest)
            == seq![line] + lines(rest),
{
    if line.len() == 0 || line[line.len() - 1] != '\r' {
        lemma_lines_first(line, rest);
    }
    let s = line + seq!['\r', '\n'] + rest;
    lemma_line_feed_from(s, 0);
    let end = line_feed_from(s, 0);
    let n = line.len() as int;
    assert(s[n] == '\r' && s[n + 1] == '\n');
    assert(end == n + 1) by {
        if end < n {
            assert(s[end] == line[end]);
        }
    }
    assert(s.take(end).drop_last() == line);
    assert(s.skip(end + 1) == rest);
}

/// Numbers are written without leading zeros, and different ones differently.
pub proof fn decimal_is_canonical(n: nat, m: nat)
    ensures
        decimal(n)[0] == '0' ==> n == 0,
        decimal(n) == decimal(m) ==> n == m,
    decreases n,
{
    decimal_reads_back(n);
    decimal_reads_back(m);
    if n >= 10 {
        decimal_is_canonical(n / 10, m);
        decimal_reads_back(n / 10);
        assert(decimal(n)[0] == decimal(n / 10)[0]);
    }
}

/// A digit behind a number makes it ten times as large and adds its own value.
pub proof fn digits_count_by_ten(s: Seq<char>, c: char)
    requires
        48 <= c as int <= 57,
    ensures
        digits_value(Seq::empty()) == 0,
        digits_value(s.push(c)) == 10 * digits_value(s) + (c as int - 48),
{
    assert(s.push(c).drop_last() == s);
}

/// A port that was written reads back, up to the largest one.
pub proof fn port_reads_back(n: nat)
    ensures
        n <= 65535 ==> u16_value(decimal(n)) == Some(n as u16),
        n > 65535 ==> u16_value(decimal(n)) is None,
{
    decimal_reads_back(n);
}

proof fn lemma_zero_before(s: Seq<char>)
    ensures
        digits_value(seq!['0'] + s) == digits_value(s),
    decreases s.len(),
{
    let z = seq!['0'] + s;
    if s.len() > 0 {
        assert(z.drop_last() == seq!['0'] + s.drop_last());
        assert(z.last() == s.last());
        lemma_zero_before(s.drop_last());
    } else {
        assert(z.drop_last() == Seq::<char>::empty());
        assert(digits_value(z.drop_last()) == 0);
        assert(s == Seq::<char>::empty());
    }
}

/// A leading zero does not change a port, and anything but digits makes it none.
pub proof fn ports_are_digits(s: Seq<char>)
    ensures
        s.len() > 0 ==> u16_value(seq!['0'] + s) == u16_value(s),
        u16_value(s) is Some ==> s.len() > 0,
        u16_value(s) is Some ==> forall|i: int|
            0 <= i < s.len() ==> 48 <= (#[trigger] s[i]) as int <= 57,
{
    lemma_zero_before(s);
    let z = seq!['0'] + s;
    assert forall|i: int| 0 <= i < s.len() implies #[trigger] s[i] == z[i + 1] by {}
    assert forall|i: int| 0 <= i < s.len() implies is_ascii_digit(#[trigger] s[i])
        == is_ascii_digit(z[i + 1]) by {}
    assert(z[0] == '0');
    if forall|i: int| 0 <= i < s.len() ==> is_ascii_digit(#[trigger] s[i]) {
        assert forall|i: int| 0 <= i < z.len() implies is_ascii_digit(#[trigger] z[i]) by {
            if i > 0 {
                assert(z[i] == s[i - 1]);
            }
        }
    }
}

/// The first difference decides the order of two texts: a text is before its
/// extensions, and otherwise the smaller character goes first.
pub proof fn first_difference_decides(common: Seq<char>, a: Seq<char>, b: Seq<char>)
    ensures
        a.len() == 0 ==> text_le(common + a, common + b),
        a.len() > 0 && b.len() == 0 ==> !text_le(common + a, common + b),
        a.len() > 0 && b.len() > 0 && a[0] != b[0] ==> (text_le(common + a, common + b) <==> (
        a[0] as int) < (b[0] as int)),
    decreases common.len(),
{
    if common.len() > 0 {
        first_difference_decides(common.drop_first(), a, b);
        assert((common + a).drop_first() == common.drop_first() + a);
        assert((common + b).drop_first() == common.drop_first() + b);
    } else {
        assert(common + a == a);
        assert(common + b == b);
    }
}

/// A text holds another exactly where it can be cut into what goes before, the
/// other text, and what goes after.
pub proof fn held_text_can_be_cut_out(s: Seq<char>, needle: Seq<char>)
    ensures
        contains_text(s, needle) <==> exists|before: Seq<char>, after: Seq<char>|
            s == #[trigger] (before + needle + after),
{
    if contains_text(s, needle) {
        let i = choose|i: int| occurs_at(s, needle, i);
        let before = s.take(i);
        let after = s.skip(i + needle.len());
        assert(s == before + needle + after) by {
            assert forall|k: int| 0 <= k < s.len() implies s[k] == #[trigger] (before + needle
                + after)[k] by {
                if i <= k < i + needle.len() {
                    assert(s.subrange(i, i + needle.len())[k - i] == needle[k - i]);
                }
            }
        }
    }
    if exists|before: Seq<char>, after: Seq<char>| s == #[trigger] (before + needle + after) {
        let (before, after) = choose|before: Seq<char>, after: Seq<char>|
            s == #[trigger] (before + needle + after);
        let i = before.len() as int;
        assert(s.subrange(i, i + needle.len()) == needle);
        assert(occurs_at(s, needle, i));
    }
}

/// What stands before the last occurrence of a character, whatever stands around
/// it; none where it does not occur.
pub proof fn last_occurrence_cuts(head: Seq<char>, c: char, tail: Seq<char>)
    requires
        forall|i: int| 0 <= i < tail.len() ==> #[trigger] tail[i] != c,
    ensures
        before_last(head + seq![c] + tail, c) == Some(head),
        before_last(tail, c) is None,
    decreases tail.len(),
{
    let s = head + seq![c] + tail;
    if tail.len() > 0 {
        let rest = tail.drop_last();
        assert forall|i: int| 0 <= i < rest.len() implies #[trigger] rest[i] != c by {
            assert(rest[i] == tail[i]);
        }
        assert(s.drop_last() == head + seq![c] + rest);
        assert(s.last() == tail[tail.len() - 1]);
        last_occurrence_cuts(head, c, rest);
    } else {
        assert(s.drop_last() == head);
    }
}

/// A padded text begins with the text, goes on with spaces only, and is as wide
/// as asked for or as the text.
pub proof fn padding_is_spaces(s: Seq<char>, width: nat)
    ensures
        padded(s, width).len() >= s.len(),
        padded(s, width).len() >= width,
        padded(s, width).len() == s.len() || padded(s, width).len() == width,
        padded(s, width).take(s.len() as int) == s,
        forall|i: int|
            s.len() <= i < padded(s, width).len() ==> #[trigger] padded(s, width)[i] == ' ',
{
}

/// Joining puts the separator between any two neighbours and nowhere else.
pub proof fn joining_two_lists(a: Seq<Seq<char>>, b: Seq<Seq<char>>, x: Seq<char>, sep: Seq<char>)
    ensures
        joined(Seq::empty(), sep).len() == 0,
        joined(seq![x], sep) == x,
        a.len() > 0 && b.len() > 0 ==> joined(a + b, sep) == joined(a, sep) + sep + joined(b, sep),
    decreases b.len(),
{
    if a.len() > 0 && b.len() > 0 {
        assert((a + b).drop_last() == a + b.drop_last());
        assert((a + b).last() == b.last());
        if b.len() == 1 {
            assert(a + b.drop_last() == a);
            assert(b.last() == b[0]);
        } else {
            joining_two_lists(a, b.drop_last(), x, sep);
            assert(joined(a, sep) + sep + joined(b.drop_last(), sep) + sep + b.last() == joined(
                a,
                sep,
            ) + sep + (joined(b.drop_last(), sep) + sep + b.last()));
        }
    }
}

/// Of an ASCII text, lower case changes the capital letters and nothing else.
pub proof fn lower_case_of_ascii(s: Seq<char>)
    requires
        forall|i: int| 0 <= i < s.len() ==> (#[trigger] s[i]) as int <= 127,
    ensures
        lowercase(s).len() == s.len(),
        forall|i: int|
            0 <= i < s.len() ==> (#[trigger] lowercase(s)[i]) as int == if 65 <= s[i] as int <= 90 {
                s[i] as int + 32
            } else {
                s[i] as int
            },
{
    assert(all_ascii(s));
    assert forall|i: int| 0 <= i < s.len() implies (#[trigger] lowercase(s)[i]) as int == (if 65
        <= s[i] as int <= 90 {
        s[i] as int + 32
    } else {
        s[i] as int
    }) by {
        assert(lowercase(s)[i] == ascii_lowercase(s[i]));
    }
}

/// A text with any other character has the lower case that Unicode gives it.
pub proof fn lower_case_of_other_texts(s: Seq<char>, i: int)
    requires
        0 <= i < s.len(),
        s[i] as int > 127,
    ensures
        lowercase(s) == unicode_lowercase(s),
{
    assert(!(s[i] <= '\u{7f}'));
}

/// Lower case of an ASCII text is that of its parts.
pub proof fn lower_case_of_parts(a: Seq<char>, b: Seq<char>)
    requires
        all_ascii(a),
        all_ascii(b),
    ensures
        all_ascii(a + b),
        lowercase(a + b) == lowercase(a) + lowercase(b),
{
    assert forall|i: int| 0 <= i < (a + b).len() implies (#[trigger] (a + b)[i]) <= '\u{7f}' by {
        if i < a.len() {
            assert((a + b)[i] == a[i]);
        } else {
            assert((a + b)[i] == b[i - a.len()]);
        }
    }
    assert(lowercase(a + b) == lowercase(a) + lowercase(b));
}

/// The views of strings are their texts, one for each.
pub proof fn texts_are_the_strings(v: Seq<String>)
    ensures
        texts(v).len() == v.len(),
        forall|i: int| 0 <= i < v.len() ==> #[trigger] texts(v)[i] == v[i]@,
{
}

} // verus!
