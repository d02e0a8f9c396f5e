//! Text helpers over strings viewed as sequences of characters.

use vstd::prelude::*;

verus! {

/// The characters with the Unicode property `White_Space`.
pub open spec fn is_white(c: char) -> bool {
    ||| '\t' <= c <= '\r'
    ||| c == ' '
    ||| c == '\u{85}'
    ||| c == '\u{a0}'
    ||| c == '\u{1680}'
    ||| '\u{2000}' <= c <= '\u{200a}'
    ||| '\u{2028}' <= c <= '\u{2029}'
    ||| c == '\u{202f}'
    ||| c == '\u{205f}'
    ||| c == '\u{3000}'
}

pub open spec fn trim_start(s: Seq<char>) -> Seq<char>
    decreases s.len(),
{
    if s.len() > 0 && is_white(s.first()) {
        trim_start(s.drop_first())
    } else {
        s
    }
}

pub open spec fn trim_end(s: Seq<char>) -> Seq<char>
    decreases s.len(),
{
    if s.len() > 0 && is_white(s.last()) {
        trim_end(s.drop_last())
    } else {
        s
    }
}

/// The text without its leading and trailing white space.
pub open spec fn trimmed(s: Seq<char>) -> Seq<char> {
    trim_end(trim_start(s))
}

/// The views of a sequence of strings.
pub open spec fn texts(v: Seq<String>) -> Seq<Seq<char>> {
    Seq::new(v.len(), |i: int| v[i]@)
}

/// Whether the character has the property `White_Space`.
pub fn white(c: char) -> (r: bool)
    ensures
        r == is_white(c),
{
    ('\t' <= c && c <= '\r') || c == ' ' || c == '\u{85}' || c == '\u{a0}' || c == '\u{1680}' || (
    '\u{2000}' <= c && c <= '\u{200a}') || ('\u{2028}' <= c && c <= '\u{2029}') || c == '\u{202f}'
        || c == '\u{205f}' || c == '\u{3000}'
}

/// The characters of a string.
pub fn char_vec(s: &str) -> (v: Vec<char>)
    ensures
        v@ == s@,
{
    let mut v: Vec<char> = Vec::new();
    for c in it: s.chars()
        invariant
            it.seq() == s@,
            v@ == s@.take(it.index() as int),
    {
        v.push(c);
        assert(s@.take(it.index() + 1) == s@.take(it.index() as int).push(s@[it.index() as int]));
    }
    assert(s@.take(s@.len() as int) == s@);
    v
}

proof fn lemma_trim_start_at(s: Seq<char>, k: int)
    requires
        0 <= k <= s.len(),
        forall|i: int| 0 <= i < k ==> is_white(#[trigger] s[i]),
        k == s.len() || !is_white(s[k]),
    ensures
        trim_start(s) == s.skip(k),
    decreases k,
{
    if k == 0 {
        assert(s.skip(0) == s);
    } else {
        let t = s.drop_first();
        assert forall|i: int| 0 <= i < k - 1 implies is_white(#[trigger] t[i]) by {
            assert(t[i] == s[i + 1]);
        }
        lemma_trim_start_at(t, k - 1);
        assert(t.skip(k - 1) == s.skip(k));
    }
}

proof fn lemma_trim_end_at(s: Seq<char>, k: int)
    requires
        0 <= k <= s.len(),
        forall|i: int| k <= i < s.len() ==> is_white(#[trigger] s[i]),
        k == 0 || !is_white(s[k - 1]),
    ensures
        trim_end(s) == s.take(k),
    decreases s.len() - k,
{
    if k == s.len() {
        assert(s.take(k) == s);
    } else {
        let t = s.drop_last();
        assert forall|i: int| k <= i < t.len() implies is_white(#[trigger] t[i]) by {
            assert(t[i] == s[i]);
        }
        lemma_trim_end_at(t, k);
        assert(t.take(k) == s.take(k));
    }
}

/// A text that neither begins nor ends with white space is its own trimmed form.
pub proof fn lemma_trimmed_fixed(s: Seq<char>)
    requires
        s.len() > 0 ==> !is_white(s[0]) && !is_white(s.last()),
    ensures
        trimmed(s) == s,
{
    lemma_trim_start_at(s, 0);
    assert(s.skip(0) == s);
    lemma_trim_end_at(s, s.len() as int);
    assert(s.take(s.len() as int) == s);
}

/// Where the trimmed form of a text stands in the text.
pub proof fn lemma_trimmed_range(s: Seq<char>) -> (range: (int, int))
    ensures
        0 <= range.0 <= range.1 <= s.len(),
        trimmed(s) == s.subrange(range.0, range.1),
        forall|i: int| 0 <= i < range.0 ==> is_white(#[trigger] s[i]),
        forall|i: int| range.1 <= i < s.len() ==> is_white(#[trigger] s[i]),
        range.0 < range.1 ==> !is_white(s[range.0]) && !is_white(s[range.1 - 1]),
{
    let from = lemma_trim_start_exists(s, 0);
    lemma_trim_start_at(s, from);
    let t = s.skip(from);
    let to = lemma_trim_end_exists(t, t.len() as int);
    lemma_trim_end_at(t, to);
    assert(t.take(to) == s.subrange(from, from + to));
    assert forall|i: int| from + to <= i < s.len() implies is_white(#[trigger] s[i]) by {
        assert(s[i] == t[i - from]);
    }
    if to > 0 {
        assert(t[to - 1] == s[from + to - 1]);
    }
    (from, from + to)
}

proof fn lemma_trim_start_exists(s: Seq<char>, k: int) -> (from: int)
    requires
        0 <= k <= s.len(),
        forall|i: int| 0 <= i < k ==> is_white(#[trigger] s[i]),
    ensures
        k <= from <= s.len(),
        forall|i: int| 0 <= i < from ==> is_white(#[trigger] s[i]),
        from == s.len() || !is_white(s[from]),
    decreases s.len() - k,
{
    if k < s.len() && is_white(s[k]) {
        lemma_trim_start_exists(s, k + 1)
    } else {
        k
    }
}

proof fn lemma_trim_end_exists(s: Seq<char>, k: int) -> (to: int)
    requires
        0 <= k <= s.len(),
        forall|i: int| k <= i < s.len() ==> is_white(#[trigger] s[i]),
    ensures
        0 <= to <= k,
        forall|i: int| to <= i < s.len() ==> is_white(#[trigger] s[i]),
        to == 0 || !is_white(s[to - 1]),
    decreases k,
{
    if k > 0 && is_white(s[k - 1]) {
        lemma_trim_end_exists(s, k - 1)
    } else {
        k
    }
}

/// The text without its leading and trailing white space.
pub fn trim(s: &str) -> (r: &str)
    ensures
        r@ == trimmed(s@),
{
    let v = char_vec(s);
    let n: usize = v.len();
    let mut from: usize = 0;
    while from < n && white(v[from])
        invariant
            n == v@.len(),
            from <= n,
            forall|i: int| 0 <= i < from ==> is_white(#[trigger] v@[i]),
        decreases n - from,
    {
        from += 1;
    }
    let mut to: usize = n;
    while from < to && white(v[to - 1])
        invariant
            n == v@.len(),
            from <= to <= n,
            forall|i: int| to <= i < n ==> is_white(#[trigger] v@[i]),
        decreases to,
    {
        to -= 1;
    }
    proof {
        lemma_trim_start_at(s@, from as int);
        let t = s@.skip(from as int);
        assert forall|i: int| to - from <= i < t.len() implies is_white(#[trigger] t[i]) by {
            assert(t[i] == s@[i + from]);
        }
        lemma_trim_end_at(t, to - from);
        assert(t.take(to - from) == s@.subrange(from as int, to as int));
    }
    s.substring_char(from, to)
}

/// Position of the first line feed at or after `from`, or the length.
pub open spec fn line_feed_from(s: Seq<char>, from: int) -> int
    decreases s.len() - from,
{
    if from >= s.len() || s[from] == '\n' {
        from
    } else {
        line_feed_from(s, from + 1)
    }
}

/// A line without the carriage return that ends it, if one does.
pub open spec fn strip_return(line: Seq<char>) -> Seq<char> {
    if line.len() > 0 && line.last() == '\r' {
        line.drop_last()
    } else {
        line
    }
}

/// The lines of a text: each ends at a line feed, alone or after a carriage
/// return; the last one may have no line feed.
pub open spec fn lines(s: Seq<char>) -> Seq<Seq<char>>
    decreases s.len(),
{
    let end = line_feed_from(s, 0);
    if s.len() == 0 {
        Seq::empty()
    } else if 0 <= end < s.len() {
        seq![strip_return(s.take(end))] + lines(s.skip(end + 1))
    } else {
        seq![s]
    }
}

pub proof fn lemma_line_feed_from(s: Seq<char>, from: int)
    requires
        0 <= from <= s.len(),
    ensures
        from <= line_feed_from(s, from) <= s.len(),
        forall|i: int| from <= i < line_feed_from(s, from) ==> #[trigger] s[i] != '\n',
        line_feed_from(s, from) < s.len() ==> s[line_feed_from(s, from)] == '\n',
    decreases s.len() - from,
{
    if from < s.len() && s[from] != '\n' {
        lemma_line_feed_from(s, from + 1);
    }
}

/// A text that begins with a line and its line feed has that line first.
pub proof fn lemma_lines_first(line: Seq<char>, rest: Seq<char>)
    requires
        forall|i: int| 0 <= i < line.len() ==> #[trigger] line[i] != '\n',
        line.len() > 0 ==> line.last() != '\r',
    ensures
        lines(line + seq!['\n'] + rest) == seq![line] + lines(rest),
{
    let s = line + seq!['\n'] + rest;
    lemma_line_feed_from(s, 0);
    let end = line_feed_from(s, 0);
    assert(s[line.len() as int] == '\n');
    assert(end == line.len()) by {
        if end < line.len() {
            assert(s[end] == line[end]);
        }
    }
    assert(s.take(end) == line);
    assert(s.skip(end + 1) == rest);
}

/// No line of a text holds a line feed.
pub proof fn lemma_lines_hold_no_feed(s: Seq<char>)
    ensures
        forall|k: int, i: int|
            0 <= k < lines(s).len() && 0 <= i < lines(s)[k].len() ==> #[trigger] lines(s)[k][i]
                != '\n',
    decreases s.len(),
{
    let end = line_feed_from(s, 0);
    lemma_line_feed_from(s, 0);
    if s.len() > 0 && end < s.len() {
        let rest = s.skip(end + 1);
        lemma_lines_hold_no_feed(rest);
        let all = lines(s);
        assert forall|k: int, i: int|
            0 <= k < all.len() && 0 <= i < all[k].len() implies #[trigger] all[k][i] != '\n' by {
            if k > 0 {
                assert(all[k] == lines(rest)[k - 1]);
                assert(lines(rest)[k - 1][i] != '\n');
            }
        }
    }
}

proof fn lemma_line_feed_skip(s: Seq<char>, from: int, i: int)
    requires
        0 <= from <= s.len(),
        0 <= i <= s.len() - from,
    ensures
        line_feed_from(s.skip(from), i) == line_feed_from(s, from + i) - from,
    decreases s.len() - from - i,
{
    if from + i < s.len() && s[from + i] != '\n' {
        lemma_line_feed_skip(s, from, i + 1);
    }
}

/// Splits a text into its lines.
pub fn split_lines(s: &str) -> (r: Vec<String>)
    ensures
        texts(r@) == lines(s@),
{
    let v = char_vec(s);
    let n: usize = v.len();
    let mut r: Vec<String> = Vec::new();
    let mut from: usize = 0;
    assert(s@.skip(0) == s@);
    assert(texts(r@) + lines(s@) == lines(s@));
    while from < n
        invariant
            v@ == s@,
            n == v@.len(),
            from <= n,
            lines(s@) == texts(r@) + lines(s@.skip(from as int)),
        decreases n - from,
    {
        let mut end: usize = from;
        while end < n && v[end] != '\n'
            invariant
                v@ == s@,
                n == v@.len(),
                from <= end <= n,
                line_feed_from(s@, from as int) == line_feed_from(s@, end as int),
            decreases n - end,
        {
            end += 1;
        }
        proof {
            lemma_line_feed_from(s@, from as int);
            lemma_line_feed_skip(s@, from as int, 0);
        }
        let ghost rest = s@.skip(from as int);
        let ghost before = texts(r@);
        if end == n {
            let last = s.substring_char(from, n);
            proof {
                assert(last@ == s@.skip(from as int));
            }
            r.push(last.to_owned());
            proof {
                assert(texts(r@) == before + seq![rest]);
                assert(s@.skip(n as int) == Seq::<char>::empty());
                assert(texts(r@) + Seq::<Seq<char>>::empty() == texts(r@));
            }
            from = n;
        } else {
            let stop: usize = if from < end && v[end - 1] == '\r' {
                end - 1
            } else {
                end
            };
            let line = s.substring_char(from, stop);
            proof {
                assert(rest.take(end - from) == s@.subrange(from as int, end as int));
                assert(line@ == strip_return(rest.take(end - from)));
            }
            r.push(line.to_owned());
            proof {
                assert(texts(r@) == before.push(line@));
                assert(rest.skip(end - from + 1) == s@.skip(end + 1));
                assert(before.push(line@) + lines(s@.skip(end + 1)) == before + (seq![line@]
                    + lines(s@.skip(end + 1))));
            }
            from = end + 1;
        }
    }
    proof {
        assert(s@.skip(n as int) == Seq::<char>::empty());
        assert(texts(r@) + Seq::<Seq<char>>::empty() == texts(r@));
    }
    r
}

/// The ASCII digit of a number below ten.
pub open spec fn digit(d: nat) -> char {
    (48 + d) as char
}

/// The decimal digits of a number, without leading zeros.
pub open spec fn decimal(n: nat) -> Seq<char>
    decreases n,
{
    if n < 10 {
        seq![digit(n)]
    } else {
        decimal(n / 10).push(digit(n % 10))
    }
}

/// The number that ASCII digits stand for.
pub open spec fn digits_value(s: Seq<char>) -> nat
    decreases s.len(),
{
    if s.len() == 0 {
        0
    } else {
        digits_value(s.drop_last()) * 10 + (s.last() as nat - 48) as nat
    }
}

pub open spec fn is_ascii_digit(c: char) -> bool {
    '0' <= c <= '9'
}

/// Whether every character is an ASCII digit.
pub open spec fn all_ascii_digits(s: Seq<char>) -> bool {
    forall|i: int| 0 <= i < s.len() ==> is_ascii_digit(#[trigger] s[i])
}

/// The 16-bit number that a text of digits gives: none where the text is empty,
/// holds anything but ASCII digits, or the number is too large.
pub open spec fn u16_value(s: Seq<char>) -> Option<u16> {
    if s.len() > 0 && all_ascii_digits(s) && digits_value(s) <= u16::MAX {
        Some(digits_value(s) as u16)
    } else {
        None
    }
}

/// Writing a number in decimal and reading it back gives the number.
pub proof fn decimal_reads_back(n: nat)
    ensures
        decimal(n).len() > 0,
        all_ascii_digits(decimal(n)),
        digits_value(decimal(n)) == n,
    decreases n,
{
    if n < 10 {
        let s = seq![digit(n)];
        assert(s.drop_last() == Seq::<char>::empty());
        assert(digits_value(s.drop_last()) == 0);
    } else {
        decimal_reads_back(n / 10);
        let s = decimal(n);
        assert(s.drop_last() == decimal(n / 10));
        assert forall|i: int| 0 <= i < s.len() implies is_ascii_digit(#[trigger] s[i]) by {
            if i < s.len() - 1 {
                assert(s[i] == decimal(n / 10)[i]);
            }
        }
    }
}

fn digit_text(d: u128) -> (r: &'static str)
    requires
        d < 10,
    ensures
        r@ == seq![digit(d as nat)],
{
    proof {
        reveal_strlit("0");
        reveal_strlit("1");
        reveal_strlit("2");
        reveal_strlit("3");
        reveal_strlit("4");
        reveal_strlit("5");
        reveal_strlit("6");
        reveal_strlit("7");
        reveal_strlit("8");
        reveal_strlit("9");
    }
    match d {
        0 => "0",
        1 => "1",
        2 => "2",
        3 => "3",
        4 => "4",
        5 => "5",
        6 => "6",
        7 => "7",
        8 => "8",
        _ => "9",
    }
}

/// The decimal digits of a wide number.
pub fn wide_decimal_text(n: u128) -> (r: String)
    ensures
        r@ == decimal(n as nat),
    decreases n,
{
    if n < 10 {
        digit_text(n).to_owned()
    } else {
        let mut r = wide_decimal_text(n / 10);
        r.append(digit_text(n % 10));
        r
    }
}

/// The decimal digits of a number.
pub fn decimal_text(n: u64) -> (r: String)
    ensures
        r@ == decimal(n as nat),
{
    wide_decimal_text(n as u128)
}

proof fn lemma_digits_value_grows(s: Seq<char>, k: int)
    requires
        0 <= k <= s.len(),
    ensures
        digits_value(s.take(k)) <= digits_value(s),
    decreases s.len() - k,
{
    if k == s.len() {
        assert(s.take(k) == s);
    } else {
        lemma_digits_value_grows(s, k + 1);
        assert(s.take(k + 1).drop_last() == s.take(k));
    }
}

/// Reads a 16-bit number from a text of digits.
pub fn parse_u16(s: &str) -> (r: Option<u16>)
    ensures
        r == u16_value(s@),
{
    let v = char_vec(s);
    let n: usize = v.len();
    if n == 0 {
        return None;
    }
    let mut total: u32 = 0;
    let mut i: usize = 0;
    while i < n
        invariant
            v@ == s@,
            n == v@.len(),
            i <= n,
            all_ascii_digits(s@.take(i as int)),
            total == digits_value(s@.take(i as int)),
            total <= 65535,
        decreases n - i,
    {
        let c = v[i];
        if !('0' <= c && c <= '9') {
            assert(!is_ascii_digit(s@[i as int]));
            return None;
        }
        let ghost taken = s@.take(i + 1);
        assert(taken.drop_last() == s@.take(i as int));
        assert(forall|j: int| 0 <= j < i ==> #[trigger] taken[j] == s@.take(i as int)[j]);
        total = total * 10 + (c as u32 - 48);
        if total > 65535 {
            proof {
                lemma_digits_value_grows(s@, i + 1);
            }
            return None;
        }
        i += 1;
    }
    assert(s@.take(n as int) == s@);
    Some(total as u16)
}

/// Dictionary order of texts by character.
pub open spec fn text_le(a: Seq<char>, b: Seq<char>) -> bool
    decreases a.len(),
{
    if a.len() == 0 {
        true
    } else if b.len() == 0 {
        false
    } else if a[0] != b[0] {
        a[0] < b[0]
    } else {
        text_le(a.drop_first(), b.drop_first())
    }
}

/// Of two texts, one is not after the other.
pub proof fn text_le_total(a: Seq<char>, b: Seq<char>)
    ensures
        text_le(a, b) || text_le(b, a),
    decreases a.len(),
{
    if a.len() > 0 && b.len() > 0 && a[0] == b[0] {
        text_le_total(a.drop_first(), b.drop_first());
    }
}

/// Two texts of which neither is after the other are equal.
pub proof fn text_le_antisymmetric(a: Seq<char>, b: Seq<char>)
    requires
        text_le(a, b),
        text_le(b, a),
    ensures
        a == b,
    decreases a.len(),
{
    if a.len() > 0 && b.len() > 0 {
        text_le_antisymmetric(a.drop_first(), b.drop_first());
        assert(a == seq![a[0]] + a.drop_first());
        assert(b == seq![b[0]] + b.drop_first());
    } else {
        assert(a == b);
    }
}

/// Dictionary order is transitive.
pub proof fn text_le_transitive(a: Seq<char>, b: Seq<char>, c: Seq<char>)
    requires
        text_le(a, b),
        text_le(b, c),
    ensures
        text_le(a, c),
    decreases a.len(),
{
    if a.len() > 0 && a[0] == b[0] && b[0] == c[0] {
        text_le_transitive(a.drop_first(), b.drop_first(), c.drop_first());
    }
}

/// Whether `a` is not after `b` in dictionary order.
pub fn not_after(a: &str, b: &str) -> (r: bool)
    ensures
        r == text_le(a@, b@),
{
    let x = char_vec(a);
    let y = char_vec(b);
    let mut i: usize = 0;
    assert(a@.skip(0) == a@ && b@.skip(0) == b@);
    while i < x.len() && i < y.len() && x[i] == y[i]
        invariant
            x@ == a@,
            y@ == b@,
            i <= x.len(),
            i <= y.len(),
            text_le(a@, b@) == text_le(a@.skip(i as int), b@.skip(i as int)),
        decreases x.len() - i,
    {
        assert(a@.skip(i as int).drop_first() == a@.skip(i + 1));
        assert(b@.skip(i as int).drop_first() == b@.skip(i + 1));
        i += 1;
    }
    if i == x.len() {
        true
    } else if i == y.len() {
        false
    } else {
        x[i] < y[i]
    }
}

/// Whether the text begins with the prefix.
pub fn starts_with(s: &str, prefix: &str) -> (r: bool)
    ensures
        r == prefix@.is_prefix_of(s@),
{
    let p: usize = prefix.unicode_len();
    if p > s.unicode_len() {
        return false;
    }
    let head = s.substring_char(0, p).to_owned();
    let r = head == prefix.to_owned();
    r
}

/// Whether `needle` stands in `s` at position `i`.
pub open spec fn occurs_at(s: Seq<char>, needle: Seq<char>, i: int) -> bool {
    0 <= i <= s.len() - needle.len() && s.subrange(i, i + needle.len()) == needle
}

/// Whether `needle` stands somewhere in `s`.
pub open spec fn contains_text(s: Seq<char>, needle: Seq<char>) -> bool {
    exists|i: int| occurs_at(s, needle, i)
}

/// Whether `needle` stands somewhere in `s`.
pub fn contains(s: &str, needle: &str) -> (r: bool)
    ensures
        r == contains_text(s@, needle@),
{
    let v = char_vec(s);
    let w = char_vec(needle);
    let n: usize = v.len();
    let m: usize = w.len();
    if m > n {
        return false;
    }
    let mut i: usize = 0;
    while i <= n - m
        invariant
            v@ == s@,
            w@ == needle@,
            n == v@.len(),
            m == w@.len(),
            m <= n,
            i <= n - m + 1,
            forall|k: int| 0 <= k < i ==> !occurs_at(s@, needle@, k),
        decreases n - i + 1,
    {
        let mut j: usize = 0;
        while j < m && v[i + j] == w[j]
            invariant
                v@ == s@,
                w@ == needle@,
                n == v@.len(),
                m == w@.len(),
                j <= m,
                i + m <= n,
                forall|k: int| 0 <= k < j ==> s@[i + k] == #[trigger] needle@[k],
            decreases m - j,
        {
            j += 1;
        }
        if j == m {
            assert(s@.subrange(i as int, i + m) == needle@);
            assert(occurs_at(s@, needle@, i as int));
            return true;
        }
        assert(s@.subrange(i as int, i + m)[j as int] != needle@[j as int]);
        if i == n - m {
            assert(forall|k: int| 0 <= k <= i ==> !occurs_at(s@, needle@, k));
            return false;
        }
        i += 1;
    }
    false
}

/// What stands before the last `c`, or none where `c` does not occur.
pub open spec fn before_last(s: Seq<char>, c: char) -> Option<Seq<char>>
    decreases s.len(),
{
    if s.len() == 0 {
        None
    } else if s.last() == c {
        Some(s.drop_last())
    } else {
        before_last(s.drop_last(), c)
    }
}

/// What stands before the last `c`, or the whole text where `c` does not occur.
pub fn head_before_last(s: &str, c: char) -> (r: String)
    ensures
        r@ == (match before_last(s@, c) {
            Some(head) => head,
            None => s@,
        }),
{
    let v = char_vec(s);
    let mut i: usize = v.len();
    assert(s@.take(i as int) == s@);
    while i > 0
        invariant
            v@ == s@,
            i <= v@.len(),
            before_last(s@, c) == before_last(s@.take(i as int), c),
        decreases i,
    {
        assert(s@.take(i as int).drop_last() == s@.take(i - 1));
        if v[i - 1] == c {
            let head = s.substring_char(0, i - 1);
            assert(head@ == s@.take(i - 1));
            return head.to_owned();
        }
        i -= 1;
    }
    s.to_owned()
}

/// The text followed by spaces up to the given width.
pub open spec fn padded(s: Seq<char>, width: nat) -> Seq<char> {
    s + Seq::new((if s.len() < width { width - s.len() } else { 0 }) as nat, |i: int| ' ')
}

/// Fills the text with spaces up to the given width.
pub fn pad(s: &str, width: usize) -> (r: String)
    ensures
        r@ == padded(s@, width as nat),
{
    let mut r = s.to_owned();
    let mut n: usize = s.unicode_len();
    proof {
        reveal_strlit(" ");
    }
    assert(r@ == s@ + Seq::new(0, |i: int| ' '));
    while n < width
        invariant
            n >= s@.len(),
            n > s@.len() ==> n <= width,
            " "@ == seq![' '],
            r@ == s@ + Seq::new((n - s@.len()) as nat, |i: int| ' '),
        decreases width - n,
    {
        r.append(" ");
        n += 1;
        assert(r@ == s@ + Seq::new((n - s@.len()) as nat, |i: int| ' '));
    }
    r
}

/// The texts with the separator between any two neighbours.
pub open spec fn joined(parts: Seq<Seq<char>>, separator: Seq<char>) -> Seq<char>
    decreases parts.len(),
{
    if parts.len() == 0 {
        Seq::empty()
    } else if parts.len() == 1 {
        parts[0]
    } else {
        joined(parts.drop_last(), separator) + separator + parts.last()
    }
}

/// Joins texts with a separator.
pub fn join(parts: &Vec<String>, separator: &str) -> (r: String)
    ensures
        r@ == joined(texts(parts@), separator@),
{
    let mut r = String::new();
    let mut i: usize = 0;
    let ghost all = texts(parts@);
    while i < parts.len()
        invariant
            i <= parts@.len(),
            all == texts(parts@),
            r@ == joined(all.take(i as int), separator@),
        decreases parts.len() - i,
    {
        if i > 0 {
            r.append(separator);
        }
        r.append(parts[i].as_str());
        proof {
            assert(all.take(i + 1).drop_last() == all.take(i as int));
            if i == 0 {
                assert(Seq::<char>::empty() + all[0] == all[0]);
            }
        }
        i += 1;
    }
    assert(all.take(i as int) == all);
    r
}

/// The lower case form of a text that holds characters outside ASCII.
pub uninterp spec fn unicode_lowercase(s: Seq<char>) -> Seq<char>;

/// The lower case form of an ASCII character.
pub open spec fn ascii_lowercase(c: char) -> char {
    if 'A' <= c <= 'Z' {
        (c as int + 32) as char
    } else {
        c
    }
}

pub open spec fn all_ascii(s: Seq<char>) -> bool {
    forall|i: int| 0 <= i < s.len() ==> (#[trigger] s[i]) <= '\u{7f}'
}

/// The lower case form of a text.
pub open spec fn lowercase(s: Seq<char>) -> Seq<char> {
    if all_ascii(s) {
        s.map_values(|c: char| ascii_lowercase(c))
    } else {
        unicode_lowercase(s)
    }
}

/// Calls `str::to_lowercase`. Of an ASCII text the result holds each letter in
/// lower case and every other character as it is; of any other text it is a
/// function of the text alone, the Unicode lower case mapping of the standard
/// library, which has a name here and is not spelled out.
#[verifier::external_body]
pub(crate) fn to_lowercase(s: &str) -> (r: String)
    ensures
        all_ascii(s@) ==> r@ == s@.map_values(|c: char| ascii_lowercase(c)),
        !all_ascii(s@) ==> r@ == unicode_lowercase(s@),
{
    s.to_lowercase()
}

/// Whether the text is among the given ones.
pub fn is_among(all: &Vec<String>, s: &str) -> (r: bool)
    ensures
        r == texts(all@).contains(s@),
{
    let wanted = s.to_owned();
    let mut i: usize = 0;
    while i < all.len()
        invariant
            wanted@ == s@,
            i <= all@.len(),
            forall|k: int| 0 <= k < i ==> #[trigger] texts(all@)[k] != s@,
        decreases all.len() - i,
    {
        if all[i] == wanted {
            assert(texts(all@)[i as int] == s@);
            return true;
        }
        i += 1;
    }
    false
}

} // verus!
