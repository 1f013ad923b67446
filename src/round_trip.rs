//! Entries written in the export format parse back to exactly what was written.
use vstd::prelude::*;

use crate::format::{
    content_lines, datetime_end, day_name_at, digits_between, keep_nonblank, kind_at,
    lemma_leftmost_some, line_piece, lines_scan, month_from, month_names, page_at, point_at,
    range_at, short_number_end, time_end, title_break_at, weekday_at, weekday_name, word_at,
    year_time_end,
};
use crate::parser::{
    clipping_of, datetime_of, kind_name, kind_of, location_of, location_text, page_of,
    title_author_of, weekday_of, ClippingType, ClippingView, Location, ParseErrorView, Weekday,
};
use crate::text::{
    back_space, decimal, decimal_value, digit_char, digits_end, is_blank, is_digit, is_space,
    lemma_skip_space_bounds, skip_space, trimmed,
};

verus! {

proof fn lemma_word_starts(s: Seq<char>, q: int, w: Seq<char>)
    requires
        word_at(s, q, w),
        w.len() > 0,
    ensures
        s[q] == w[0],
{
    assert(s.subrange(q, q + w.len())[0] == s[q]);
}

proof fn lemma_word_in_concat(a: Seq<char>, w: Seq<char>, b: Seq<char>)
    ensures
        word_at(a + w + b, a.len() as int, w),
{
    assert((a + w + b).subrange(a.len() as int, a.len() + w.len() as int) =~= w);
}

/// The kind keyword after `- Your ` is the kind that is read.
pub proof fn lemma_kind_round_trip(kind: ClippingType, rest: Seq<char>)
    ensures
        kind_of("- Your "@ + kind_name(kind) + rest) == Ok::<_, ParseErrorView>(kind),
{
    reveal_strlit("- Your ");
    reveal_strlit("Bookmark");
    reveal_strlit("Highlight");
    reveal_strlit("Note");
    let s = "- Your "@ + kind_name(kind) + rest;
    lemma_word_in_concat("- Your "@, kind_name(kind), rest);
    assert forall|q: int| 0 <= q < 7 implies kind_at(s, q) is None by {
        assert(s[q] == "- Your "@[q]);
        if word_at(s, q, "Bookmark"@) {
            lemma_word_starts(s, q, "Bookmark"@);
        }
        if word_at(s, q, "Highlight"@) {
            lemma_word_starts(s, q, "Highlight"@);
        }
        if word_at(s, q, "Note"@) {
            lemma_word_starts(s, q, "Note"@);
        }
    }
    assert(s[7] == kind_name(kind)[0]);
    if word_at(s, 7, "Bookmark"@) {
        lemma_word_starts(s, 7, "Bookmark"@);
    }
    if word_at(s, 7, "Highlight"@) {
        lemma_word_starts(s, 7, "Highlight"@);
    }
    assert(kind_at(s, 7) == Some(kind));
    lemma_leftmost_some(s.len() as int, |q: int| kind_at(s, q) is Some, 7);
}

/// `c` does not occur in `s`.
pub open spec fn lacks(s: Seq<char>, c: char) -> bool {
    forall|i: int| 0 <= i < s.len() ==> s[i] != c
}

/// A text that starts and ends with a character that is not space.
pub open spec fn is_trimmed(s: Seq<char>) -> bool {
    s.len() > 0 && !is_space(s[0]) && !is_space(s[s.len() - 1])
}

/// One line of an entry: no line break in it, not blank, no carriage return at its end.
pub open spec fn is_line(s: Seq<char>) -> bool {
    &&& lacks(s, '\n')
    &&& !is_blank(s)
    &&& s.len() > 0 ==> s[s.len() - 1] != '\r'
}

proof fn lemma_trimmed_keeps(s: Seq<char>)
    requires
        is_trimmed(s),
    ensures
        trimmed(s) == s,
{
    assert(skip_space(s, 0) == 0);
    assert(back_space(s, 0, s.len() as int) == s.len());
    assert(s.subrange(0, s.len() as int) =~= s);
}

proof fn lemma_lines_shift(a: Seq<char>, b: Seq<char>, start: int, i: int)
    requires
        0 <= start <= i <= b.len(),
    ensures
        lines_scan(a + b, a.len() + start, a.len() + i) == lines_scan(b, start, i),
    decreases b.len() - i,
{
    let s = a + b;
    let o = a.len() as int;
    if i < b.len() {
        assert(s[o + i] == b[i]);
        if b[i] == '\n' {
            lemma_lines_shift(a, b, i + 1, i + 1);
            assert(line_piece(s, o + start, o + i, true) =~= line_piece(b, start, i, true));
        } else {
            lemma_lines_shift(a, b, start, i + 1);
        }
    } else {
        assert(line_piece(s, o + start, s.len() as int, false) =~= line_piece(b, start, b.len() as int, false));
    }
}

proof fn lemma_lines_within(s: Seq<char>, start: int, i: int, e: int)
    requires
        0 <= start <= i <= e <= s.len(),
        forall|k: int| i <= k < e ==> s[k] != '\n',
    ensures
        lines_scan(s, start, i) == lines_scan(s, start, e),
    decreases e - i,
{
    if i < e {
        lemma_lines_within(s, start, i + 1, e);
    }
}

/// A line followed by a line break and more text.
proof fn lemma_lines_cons(x: Seq<char>, rest: Seq<char>)
    requires
        is_line(x),
    ensures
        content_lines(x + seq!['\n'] + rest) == seq![x] + content_lines(rest),
{
    let s = x + seq!['\n'] + rest;
    let n = x.len() as int;
    lemma_lines_within(s, 0, 0, n);
    assert(s[n] == '\n');
    assert(line_piece(s, 0, n, true) =~= x);
    assert(keep_nonblank(x) == seq![x]);
    lemma_lines_shift(x + seq!['\n'], rest, 0, 0);
}

/// A last line, with nothing after it.
proof fn lemma_lines_last(x: Seq<char>)
    requires
        is_line(x),
    ensures
        content_lines(x) == seq![x],
{
    lemma_lines_within(x, 0, 0, x.len() as int);
    assert(line_piece(x, 0, x.len() as int, false) =~= x);
}

/// No space in `s` stands right before a `(`.
pub open spec fn no_space_before_paren(s: Seq<char>) -> bool {
    forall|i: int| 0 < i < s.len() && #[trigger] s[i] == '(' ==> !is_space(s[i - 1])
}

/// The first line of an entry: `<title> (<author>)`.
pub open spec fn title_line(title: Seq<char>, author: Seq<char>) -> Seq<char> {
    title + seq![' ', '('] + author + seq![')']
}

/// A title in which no space stands right before a `(`, and an author, both
/// trimmed, are read back from their line.
pub proof fn lemma_title_author_round_trip(title: Seq<char>, author: Seq<char>)
    requires
        is_trimmed(title),
        no_space_before_paren(title),
        is_trimmed(author),
    ensures
        title_author_of(title_line(title, author)) == Ok::<_, ParseErrorView>((title, author)),
{
    let s = title_line(title, author);
    let t = title.len() as int;
    assert(s[t] == ' ');
    assert(s[t + 1] == '(');
    assert(skip_space(s, t + 1) == t + 1);
    assert(skip_space(s, t) == t + 1);
    assert(s[s.len() - 1] == ')');
    assert(title_break_at(s, t));
    assert forall|q: int| 0 <= q < t implies !title_break_at(s, q) by {
        if 1 <= q && is_space(s[q]) {
            lemma_skip_space_bounds(s, q);
            let j = skip_space(s, q);
            if j >= t {
                assert(is_space(s[t - 1]));
                assert(s[t - 1] == title[t - 1]);
            }
            assert(s[j] == title[j]);
            assert(s[j - 1] == title[j - 1]);
            assert(is_space(s[j - 1]));
        }
    }
    lemma_leftmost_some(s.len() as int, |i: int| title_break_at(s, i), t);
    assert(s.subrange(0, t) =~= title);
    assert(s.subrange(t + 2, s.len() - 1) =~= author);
    lemma_trimmed_keeps(title);
    lemma_trimmed_keeps(author);
}

proof fn lemma_decimal(n: nat)
    ensures
        decimal(n).len() >= 1,
        forall|i: int| 0 <= i < decimal(n).len() ==> is_digit(#[trigger] decimal(n)[i]),
        decimal_value(decimal(n)) == n,
        n < 10 ==> decimal(n).len() == 1,
        10 <= n < 100 ==> decimal(n).len() == 2,
        100 <= n < 1000 ==> decimal(n).len() == 3,
        1000 <= n < 10000 ==> decimal(n).len() == 4,
    decreases n,
{
    let c = digit_char(n % 10);
    assert(c as nat == n % 10 + '0' as nat);
    if n >= 10 {
        lemma_decimal(n / 10);
        let d = decimal(n / 10);
        assert(decimal(n).drop_last() =~= d);
        assert(decimal(n).last() == c);
        assert(n == (n / 10) * 10 + n % 10);
        assert(decimal_value(decimal(n)) == decimal_value(d) * 10 + (c as nat - '0' as nat) as nat);
    } else {
        assert(decimal(n).drop_last() =~= Seq::<char>::empty());
        assert(decimal_value(Seq::<char>::empty()) == 0);
        assert(decimal_value(decimal(n)) == decimal_value(decimal(n).drop_last()) * 10 + (c as nat
            - '0' as nat) as nat);
    }
}

proof fn lemma_digits_run(s: Seq<char>, i: int, b: int)
    requires
        0 <= i <= b <= s.len(),
        forall|k: int| i <= k < b ==> is_digit(#[trigger] s[k]),
        b < s.len() ==> !is_digit(s[b]),
    ensures
        digits_end(s, i) == b,
    decreases b - i,
{
    if i < b {
        lemma_digits_run(s, i + 1, b);
    }
}

/// A number written in decimal and followed by something other than a digit is read back whole.
proof fn lemma_number_read(s: Seq<char>, a: int, n: nat)
    requires
        0 <= a,
        a + decimal(n).len() <= s.len(),
        s.subrange(a, a + decimal(n).len()) == decimal(n),
        a + decimal(n).len() < s.len() ==> !is_digit(s[a + decimal(n).len()]),
    ensures
        digits_end(s, a) == a + decimal(n).len(),
        s.subrange(a, digits_end(s, a)) == decimal(n),
        is_digit(s[a]),
        decimal_value(s.subrange(a, digits_end(s, a))) == n,
{
    lemma_decimal(n);
    let b = a + decimal(n).len();
    assert forall|k: int| a <= k < b implies is_digit(#[trigger] s[k]) by {
        assert(s[k] == s.subrange(a, b)[k - a]);
    }
    assert(s[a] == s.subrange(a, b)[0]);
    lemma_digits_run(s, a, b);
}

proof fn lemma_word_second(s: Seq<char>, q: int, w: Seq<char>)
    requires
        word_at(s, q, w),
        w.len() > 1,
    ensures
        s[q] == w[0],
        s[q + 1] == w[1],
{
    assert(s.subrange(q, q + w.len())[0] == s[q]);
    assert(s.subrange(q, q + w.len())[1] == s[q + 1]);
}

/// The page after the first `page ` is read back.
pub proof fn lemma_page_round_trip(pre: Seq<char>, n: u32, post: Seq<char>)
    requires
        lacks(pre, 'p'),
        post.len() > 0,
        !is_digit(post[0]),
    ensures
        page_of(pre + "page "@ + decimal(n as nat) + post) == Ok::<_, ParseErrorView>(Some(n)),
{
    reveal_strlit("page ");
    let s = pre + "page "@ + decimal(n as nat) + post;
    let p = pre.len() as int;
    lemma_decimal(n as nat);
    assert((pre + "page "@ + decimal(n as nat)).subrange(p, p + 5) =~= "page "@);
    assert(s.subrange(p, p + 5) =~= "page "@);
    assert(s.subrange(p + 5, p + 5 + decimal(n as nat).len()) =~= decimal(n as nat));
    lemma_number_read(s, p + 5, n as nat);
    assert(page_at(s, p));
    assert forall|q: int| 0 <= q < p implies !page_at(s, q) by {
        if page_at(s, q) {
            lemma_word_starts(s, q, "page "@);
            assert(s[q] == pre[q]);
        }
    }
    lemma_leftmost_some(s.len() as int, |q: int| page_at(s, q), p);
}

/// The range after the first `Location ` is read back.
pub proof fn lemma_range_round_trip(pre: Seq<char>, a: u32, b: u32, post: Seq<char>)
    requires
        lacks(pre, 'L'),
        post.len() > 0,
        !is_digit(post[0]),
    ensures
        location_of(pre + "Location "@ + decimal(a as nat) + seq!['-'] + decimal(b as nat) + post)
            == Ok::<_, ParseErrorView>(Location { start: a, end: Some(b) }),
{
    reveal_strlit("Location ");
    let s = pre + "Location "@ + decimal(a as nat) + seq!['-'] + decimal(b as nat) + post;
    let p = pre.len() as int;
    lemma_decimal(a as nat);
    lemma_decimal(b as nat);
    let da = decimal(a as nat).len() as int;
    let db = decimal(b as nat).len() as int;
    assert(s.subrange(p, p + 9) =~= "Location "@);
    assert(s.subrange(p + 9, p + 9 + da) =~= decimal(a as nat));
    assert(s[p + 9 + da] == '-');
    lemma_number_read(s, p + 9, a as nat);
    assert(s.subrange(p + 10 + da, p + 10 + da + db) =~= decimal(b as nat));
    lemma_number_read(s, p + 10 + da, b as nat);
    assert(range_at(s, p));
    assert forall|q: int| 0 <= q < p implies !range_at(s, q) by {
        if range_at(s, q) {
            lemma_word_starts(s, q, "Location "@);
            assert(s[q] == pre[q]);
        }
    }
    lemma_leftmost_some(s.len() as int, |q: int| range_at(s, q), p);
}

/// The point after the only `L` of a line is read back, with no end.
#[verifier::rlimit(60)]
pub proof fn lemma_point_round_trip(pre: Seq<char>, a: u32, post: Seq<char>)
    requires
        lacks(pre, 'L'),
        lacks(post, 'L'),
        post.len() > 0,
        !is_digit(post[0]),
        post[0] != '-',
    ensures
        location_of(pre + "Location "@ + decimal(a as nat) + post) == Ok::<_, ParseErrorView>(
            Location { start: a, end: None },
        ),
{
    reveal_strlit("Location ");
    let s = pre + "Location "@ + decimal(a as nat) + post;
    let p = pre.len() as int;
    lemma_decimal(a as nat);
    let da = decimal(a as nat).len() as int;
    assert(s.subrange(p, p + 9) =~= "Location "@);
    assert(s.subrange(p + 9, p + 9 + da) =~= decimal(a as nat));
    lemma_number_read(s, p + 9, a as nat);
    assert(point_at(s, p));
    assert(!range_at(s, p));
    assert forall|q: int| 0 <= q < s.len() && q != p implies !point_at(s, q) by {
        if point_at(s, q) {
            lemma_word_starts(s, q, "Location "@);
            if q < p {
                assert(s[q] == pre[q]);
            } else if q < p + 9 {
                assert(s[q] == "Location "@[q - p]);
            } else if q < p + 9 + da {
                assert(s[q] == decimal(a as nat)[q - p - 9]);
            } else {
                assert(s[q] == post[q - p - 9 - da]);
            }
        }
    }
    assert forall|q: int| 0 <= q < s.len() implies !range_at(s, q) by {
    }
    crate::format::lemma_leftmost_none(s.len() as int, |q: int| range_at(s, q));
    assert forall|q: int| 0 <= q < p implies !point_at(s, q) by {
    }
    lemma_leftmost_some(s.len() as int, |q: int| point_at(s, q), p);
}

/// The day after the first `Added on ` is read back.
pub proof fn lemma_weekday_round_trip(pre: Seq<char>, d: Weekday, post: Seq<char>)
    requires
        lacks(pre, 'A'),
    ensures
        weekday_of(pre + "Added on "@ + weekday_name(d) + post) == Ok::<_, ParseErrorView>(d),
{
    reveal_strlit("Added on ");
    reveal_strlit("Monday");
    reveal_strlit("Tuesday");
    reveal_strlit("Wednesday");
    reveal_strlit("Thursday");
    reveal_strlit("Friday");
    reveal_strlit("Saturday");
    reveal_strlit("Sunday");
    let s = pre + "Added on "@ + weekday_name(d) + post;
    let p = pre.len() as int;
    assert(s.subrange(p, p + 9) =~= "Added on "@);
    lemma_word_in_concat(pre + "Added on "@, weekday_name(d), post);
    let x = p + 9;
    assert(s[x] == weekday_name(d)[0]);
    assert(s[x + 1] == weekday_name(d)[1]);
    if word_at(s, x, "Monday"@) { lemma_word_second(s, x, "Monday"@); }
    if word_at(s, x, "Tuesday"@) { lemma_word_second(s, x, "Tuesday"@); }
    if word_at(s, x, "Wednesday"@) { lemma_word_second(s, x, "Wednesday"@); }
    if word_at(s, x, "Thursday"@) { lemma_word_second(s, x, "Thursday"@); }
    if word_at(s, x, "Friday"@) { lemma_word_second(s, x, "Friday"@); }
    if word_at(s, x, "Saturday"@) { lemma_word_second(s, x, "Saturday"@); }
    assert(day_name_at(s, x) == Some(d));
    assert(weekday_at(s, p) == Some(d));
    assert forall|q: int| 0 <= q < p implies weekday_at(s, q) is None by {
        if word_at(s, q, "Added on "@) {
            lemma_word_starts(s, q, "Added on "@);
            assert(s[q] == pre[q]);
        }
    }
    lemma_leftmost_some(s.len() as int, |q: int| weekday_at(s, q) is Some, p);
}

/// Between `lo` and `hi` decimal digits, and nothing else.
pub open spec fn digit_string(s: Seq<char>, lo: int, hi: int) -> bool {
    &&& lo <= s.len() <= hi
    &&& forall|i: int| 0 <= i < s.len() ==> is_digit(#[trigger] s[i])
}

/// A date and time as the export writes it: `<d> <Month> <yyyy> <h>:<mm>:<ss>`.
pub open spec fn date_text(
    day: Seq<char>,
    month: int,
    year: Seq<char>,
    hour: Seq<char>,
    minute: Seq<char>,
    second: Seq<char>,
) -> Seq<char> {
    day + seq![' '] + month_names()[month] + seq![' '] + year + seq![' '] + hour + seq![':'] + minute
        + seq![':'] + second
}

/// The parts of a date have the widths that the export writes: one or two
/// digits for day and hour, four for the year, two for minute and second.
pub open spec fn date_fits(
    day: Seq<char>,
    month: int,
    year: Seq<char>,
    hour: Seq<char>,
    minute: Seq<char>,
    second: Seq<char>,
) -> bool {
    &&& digit_string(day, 1, 2)
    &&& 0 <= month < 12
    &&& digit_string(year, 4, 4)
    &&& digit_string(hour, 1, 2)
    &&& digit_string(minute, 2, 2)
    &&& digit_string(second, 2, 2)
}

/// Every `p` is followed by something other than `a`: no `page ` can start anywhere.
pub open spec fn no_page_word(s: Seq<char>) -> bool {
    forall|i: int| 0 <= i < s.len() && #[trigger] s[i] == 'p' ==> i + 1 < s.len() && s[i + 1] != 'a'
}

proof fn lemma_no_page_word_concat(x: Seq<char>, y: Seq<char>)
    requires
        no_page_word(x),
        no_page_word(y),
    ensures
        no_page_word(x + y),
{
    let s = x + y;
    assert forall|i: int| 0 <= i < s.len() && #[trigger] s[i] == 'p' implies i + 1 < s.len() && s[i + 1] != 'a' by {
        if i < x.len() {
            assert(s[i] == x[i]);
        } else {
            assert(s[i] == y[i - x.len()]);
            assert(s[i + 1] == y[i + 1 - x.len()]);
        }
    }
}

/// A space that follows a digit is followed by `|`.
pub open spec fn spaces_after_digits_lead_to_bar(s: Seq<char>) -> bool {
    forall|i: int|
        0 < i < s.len() && is_digit(s[i - 1]) && is_space(#[trigger] s[i]) ==> i + 1 < s.len() && s[i
            + 1] == '|'
}

proof fn lemma_month_facts()
    ensures
        forall|k: int| 0 <= k < 12 ==> (#[trigger] month_names()[k]).len() >= 3,
        forall|k: int| 0 <= k < 12 ==> 'A' <= (#[trigger] month_names()[k])[0] <= 'S',
        forall|k: int| 0 <= k < 12 ==> lacks(#[trigger] month_names()[k], 'L'),
        forall|k: int| 0 <= k < 12 ==> no_page_word(#[trigger] month_names()[k]),
        forall|j: int, k: int|
            0 <= j < 12 && 0 <= k < 12 && j != k ==> #[trigger] month_names()[j][0] != #[trigger] month_names()[k][0]
                || month_names()[j][1] != month_names()[k][1] || month_names()[j][2]
                != month_names()[k][2],
{
    reveal_strlit("January");
    reveal_strlit("February");
    reveal_strlit("March");
    reveal_strlit("April");
    reveal_strlit("May");
    reveal_strlit("June");
    reveal_strlit("July");
    reveal_strlit("August");
    reveal_strlit("September");
    reveal_strlit("October");
    reveal_strlit("November");
    reveal_strlit("December");
}

proof fn lemma_month_none(s: Seq<char>, p: int, j: int)
    requires
        0 <= p < s.len(),
        !('A' <= s[p] <= 'S'),
        0 <= j <= 12,
    ensures
        month_from(s, p, j) is None,
    decreases 12 - j,
{
    lemma_month_facts();
    if j < 12 {
        if word_at(s, p, month_names()[j]) {
            lemma_word_starts(s, p, month_names()[j]);
        }
        lemma_month_none(s, p, j + 1);
    }
}

proof fn lemma_month_read(s: Seq<char>, p: int, k: int, j: int)
    requires
        0 <= k < 12,
        0 <= j <= k,
        word_at(s, p, month_names()[k]),
    ensures
        month_from(s, p, j) == Some(p + month_names()[k].len()),
    decreases k - j,
{
    lemma_month_facts();
    if j < k {
        if word_at(s, p, month_names()[j]) {
            let mj = month_names()[j];
            let mk = month_names()[k];
            assert(s.subrange(p, p + mj.len())[0] == s.subrange(p, p + mk.len())[0]);
            assert(s.subrange(p, p + mj.len())[1] == s.subrange(p, p + mk.len())[1]);
            assert(s.subrange(p, p + mj.len())[2] == s.subrange(p, p + mk.len())[2]);
            assert(false);
        }
        lemma_month_read(s, p, k, j + 1);
    }
}

proof fn lemma_date_at(
    pre: Seq<char>,
    day: Seq<char>,
    month: int,
    year: Seq<char>,
    hour: Seq<char>,
    minute: Seq<char>,
    second: Seq<char>,
)
    requires
        date_fits(day, month, year, hour, minute, second),
    ensures
        datetime_end(pre + date_text(day, month, year, hour, minute, second), pre.len() as int)
            == Some((pre + date_text(day, month, year, hour, minute, second)).len() as int),
{
    let date = date_text(day, month, year, hour, minute, second);
    let s = pre + date;
    let p = pre.len() as int;
    lemma_month_facts();
    let m = month_names()[month];
    let d = p + day.len();
    assert(s[d] == ' ');
    assert(short_number_end(s, p, |c: char| is_space(c)) == Some(d));
    assert(s[d + 1] == m[0]);
    assert(skip_space(s, d + 1) == d + 1);
    assert(skip_space(s, d) == d + 1);
    assert(s.subrange(d + 1, d + 1 + m.len()) =~= m);
    lemma_month_read(s, d + 1, month, 0);
    let me = d + 1 + m.len();
    assert(s[me] == ' ');
    let y = me + 1;
    assert(s[y] == year[0]);
    assert(skip_space(s, y) == y);
    assert(skip_space(s, me) == y);
    assert(digits_between(s, y, y + 4)) by {
        assert forall|k: int| y <= k < y + 4 implies is_digit(#[trigger] s[k]) by {
            assert(s[k] == year[k - y]);
        }
    }
    assert(s[y + 4] == ' ');
    let t = y + 5;
    assert(s[t] == hour[0]);
    assert(skip_space(s, t) == t);
    assert(skip_space(s, y + 4) == t);
    let h = t + hour.len();
    assert(s[h] == ':');
    assert(short_number_end(s, t, |c: char| c == ':') == Some(h));
    assert(digits_between(s, h + 1, h + 3)) by {
        assert forall|k: int| h + 1 <= k < h + 3 implies is_digit(#[trigger] s[k]) by {
            assert(s[k] == minute[k - h - 1]);
        }
    }
    assert(s[h + 3] == ':');
    assert(digits_between(s, h + 4, h + 6)) by {
        assert forall|k: int| h + 4 <= k < h + 6 implies is_digit(#[trigger] s[k]) by {
            assert(s[k] == second[k - h - 4]);
        }
    }
    assert(h + 6 == s.len());
    assert(time_end(s, t) == Some(h + 6));
    assert(year_time_end(s, y) == Some(h + 6));
}

proof fn lemma_no_date_before(pre: Seq<char>, date: Seq<char>, q: int)
    requires
        pre.len() > 0,
        !is_digit(pre[pre.len() - 1]),
        spaces_after_digits_lead_to_bar(pre),
        0 <= q < pre.len(),
    ensures
        datetime_end(pre + date, q) is None,
{
    let s = pre + date;
    let p = pre.len() as int;
    if let Some(e) = short_number_end(s, q, |c: char| is_space(c)) {
        assert(is_digit(s[e - 1]));
        assert(is_space(s[e]));
        assert(e < p) by {
            if e >= p {
                assert(s[p - 1] == pre[p - 1]);
            }
        }
        assert(s[e] == pre[e]);
        assert(s[e - 1] == pre[e - 1]);
        assert(pre[e + 1] == '|');
        assert(s[e + 1] == '|');
        assert(skip_space(s, e + 1) == e + 1);
        assert(skip_space(s, e) == e + 1);
        lemma_month_none(s, e + 1, 0);
    }
}

/// A date and time written after `pre` is the leftmost one of the line, and is read back as written.
pub proof fn lemma_datetime_round_trip(
    pre: Seq<char>,
    day: Seq<char>,
    month: int,
    year: Seq<char>,
    hour: Seq<char>,
    minute: Seq<char>,
    second: Seq<char>,
)
    requires
        date_fits(day, month, year, hour, minute, second),
        pre.len() > 0,
        !is_digit(pre[pre.len() - 1]),
        spaces_after_digits_lead_to_bar(pre),
    ensures
        datetime_of(pre + date_text(day, month, year, hour, minute, second)) == Ok::<_, ParseErrorView>(
            date_text(day, month, year, hour, minute, second),
        ),
{
    let date = date_text(day, month, year, hour, minute, second);
    let s = pre + date;
    let p = pre.len() as int;
    lemma_date_at(pre, day, month, year, hour, minute, second);
    assert forall|q: int| 0 <= q < p implies datetime_end(s, q) is None by {
        lemma_no_date_before(pre, date, q);
    }
    lemma_leftmost_some(s.len() as int, |q: int| datetime_end(s, q) is Some, p);
    assert(s.subrange(p, s.len() as int) =~= date);
}

proof fn lemma_bar_concat(x: Seq<char>, y: Seq<char>)
    requires
        spaces_after_digits_lead_to_bar(x),
        spaces_after_digits_lead_to_bar(y),
        x.len() > 0 && is_digit(x[x.len() - 1]) && y.len() > 0 && is_space(y[0]) ==> y.len() > 1
            && y[1] == '|',
    ensures
        spaces_after_digits_lead_to_bar(x + y),
{
    let s = x + y;
    assert forall|i: int| 0 < i < s.len() && is_digit(s[i - 1]) && is_space(#[trigger] s[i]) implies i
        + 1 < s.len() && s[i + 1] == '|' by {
        if i < x.len() {
            assert(s[i] == x[i]);
            assert(s[i - 1] == x[i - 1]);
        } else if i == x.len() {
            assert(s[i] == y[0]);
        } else {
            assert(s[i] == y[i - x.len()]);
            assert(s[i - 1] == y[i - 1 - x.len()]);
        }
    }
}

proof fn lemma_bar_without_digits(x: Seq<char>)
    requires
        forall|i: int| 0 <= i < x.len() ==> !is_digit(#[trigger] x[i]),
    ensures
        spaces_after_digits_lead_to_bar(x),
{
}

proof fn lemma_bar_without_spaces(x: Seq<char>)
    requires
        forall|i: int| 0 <= i < x.len() ==> !is_space(#[trigger] x[i]),
    ensures
        spaces_after_digits_lead_to_bar(x),
{
}

proof fn lemma_literals()
    ensures
        forall|i: int| 0 <= i < 7 ==> !is_digit(#[trigger] "- Your "@[i]) && "- Your "@[i] != 'p'
            && "- Your "@[i] != 'L' && "- Your "@[i] != 'A' && "- Your "@[i] != '\n',
        forall|i: int| 0 <= i < 4 ==> !is_digit(#[trigger] " on "@[i]) && " on "@[i] != 'p' && " on "@[i]
            != 'L' && " on "@[i] != 'A' && " on "@[i] != '\n',
        forall|i: int| 0 <= i < 5 ==> !is_digit(#[trigger] "page "@[i]) && "page "@[i] != 'L'
            && "page "@[i] != 'A' && "page "@[i] != '\n',
        forall|i: int| 0 <= i < 3 ==> !is_digit(#[trigger] " | "@[i]) && " | "@[i] != 'L' && " | "@[i]
            != 'A' && " | "@[i] != '\n' && " | "@[i] != 'p',
        forall|i: int| 0 <= i < 9 ==> !is_digit(#[trigger] "Location "@[i]) && "Location "@[i]
            != 'A' && "Location "@[i] != '\n' && "Location "@[i] != 'p',
        forall|i: int| 0 <= i < 9 ==> !is_digit(#[trigger] "Added on "@[i]) && "Added on "@[i]
            != 'L' && "Added on "@[i] != '\n' && "Added on "@[i] != 'p',
        forall|i: int| 0 <= i < 2 ==> !is_digit(#[trigger] ", "@[i]) && ", "@[i] != 'L' && ", "@[i]
            != '\n' && ", "@[i] != 'p',
        "- Your "@.len() == 7,
        " on "@.len() == 4,
        "page "@.len() == 5,
        " | "@.len() == 3,
        " | "@[0] == ' ',
        " | "@[1] == '|',
        " | "@[2] == ' ',
        "Location "@.len() == 9,
        "Added on "@.len() == 9,
        ", "@.len() == 2,
        ", "@[1] == ' ',
        "-"@ == seq!['-'],
        "- Your "@[0] == '-',
{
    reveal_strlit("- Your ");
    reveal_strlit(" on ");
    reveal_strlit("page ");
    reveal_strlit(" | ");
    reveal_strlit("Location ");
    reveal_strlit("Added on ");
    reveal_strlit(", ");
    reveal_strlit("-");
    assert("-"@ =~= seq!['-']);
}

proof fn lemma_name_letters(kind: ClippingType, d: Weekday)
    ensures
        forall|i: int| 0 <= i < kind_name(kind).len() ==> !is_digit(#[trigger] kind_name(kind)[i])
            && kind_name(kind)[i] != 'p' && kind_name(kind)[i] != 'L' && kind_name(kind)[i] != 'A'
            && kind_name(kind)[i] != '\n',
        kind_name(kind).len() > 0,
        forall|i: int| 0 <= i < weekday_name(d).len() ==> !is_digit(#[trigger] weekday_name(d)[i])
            && weekday_name(d)[i] != 'L' && weekday_name(d)[i] != '\n' && weekday_name(d)[i] != 'p',
{
    reveal_strlit("Bookmark");
    reveal_strlit("Highlight");
    reveal_strlit("Note");
    reveal_strlit("Monday");
    reveal_strlit("Tuesday");
    reveal_strlit("Wednesday");
    reveal_strlit("Thursday");
    reveal_strlit("Friday");
    reveal_strlit("Saturday");
    reveal_strlit("Sunday");
}

/// The page part of a metadata line: `page <n> | `, or nothing.
pub open spec fn page_text(page: Option<u32>) -> Seq<char> {
    match page {
        Some(p) => "page "@ + decimal(p as nat) + " | "@,
        None => Seq::empty(),
    }
}

/// The metadata line of an entry.
pub open spec fn metadata_text(
    kind: ClippingType,
    page: Option<u32>,
    loc: Location,
    day: Weekday,
    date: Seq<char>,
) -> Seq<char> {
    "- Your "@ + kind_name(kind) + " on "@ + page_text(page) + "Location "@ + location_text(loc)
        + " | "@ + "Added on "@ + weekday_name(day) + ", "@ + date
}

proof fn lemma_lacks_concat(a: Seq<char>, b: Seq<char>, c: char)
    requires
        lacks(a, c),
        lacks(b, c),
    ensures
        lacks(a + b, c),
{
    assert forall|i: int| 0 <= i < (a + b).len() implies (a + b)[i] != c by {
        if i >= a.len() {
            assert((a + b)[i] == b[i - a.len()]);
        }
    }
}

proof fn lemma_digits_lack(x: Seq<char>)
    requires
        forall|i: int| 0 <= i < x.len() ==> is_digit(#[trigger] x[i]),
    ensures
        lacks(x, 'L'),
        lacks(x, '\n'),
        lacks(x, 'A'),
        lacks(x, 'p'),
{
}

proof fn lemma_date_letters(day: Seq<char>, month: int, year: Seq<char>, hour: Seq<char>, minute: Seq<char>, second: Seq<char>)
    requires
        date_fits(day, month, year, hour, minute, second),
    ensures
        lacks(date_text(day, month, year, hour, minute, second), 'L'),
        lacks(date_text(day, month, year, hour, minute, second), '\n'),
        date_text(day, month, year, hour, minute, second).len() > 0,
        is_digit(date_text(day, month, year, hour, minute, second).last()),
{
    lemma_month_facts();
    let m = month_names()[month];
    assert(lacks(m, 'L'));
    assert(lacks(m, '\n')) by {
        reveal_strlit("January");
        reveal_strlit("February");
        reveal_strlit("March");
        reveal_strlit("April");
        reveal_strlit("May");
        reveal_strlit("June");
        reveal_strlit("July");
        reveal_strlit("August");
        reveal_strlit("September");
        reveal_strlit("October");
        reveal_strlit("November");
        reveal_strlit("December");
    }
    let sp = seq![' '];
    let co = seq![':'];
    lemma_digits_lack(day);
    lemma_digits_lack(year);
    lemma_digits_lack(hour);
    lemma_digits_lack(minute);
    lemma_digits_lack(second);
    lemma_lacks_concat(day, sp, 'L');
    lemma_lacks_concat(day + sp, m, 'L');
    lemma_lacks_concat(day + sp + m, sp, 'L');
    lemma_lacks_concat(day + sp + m + sp, year, 'L');
    lemma_lacks_concat(day + sp + m + sp + year, sp, 'L');
    lemma_lacks_concat(day + sp + m + sp + year + sp, hour, 'L');
    lemma_lacks_concat(day + sp + m + sp + year + sp + hour, co, 'L');
    lemma_lacks_concat(day + sp + m + sp + year + sp + hour + co, minute, 'L');
    lemma_lacks_concat(day + sp + m + sp + year + sp + hour + co + minute, co, 'L');
    lemma_lacks_concat(day + sp + m + sp + year + sp + hour + co + minute + co, second, 'L');
    lemma_lacks_concat(day, sp, '\n');
    lemma_lacks_concat(day + sp, m, '\n');
    lemma_lacks_concat(day + sp + m, sp, '\n');
    lemma_lacks_concat(day + sp + m + sp, year, '\n');
    lemma_lacks_concat(day + sp + m + sp + year, sp, '\n');
    lemma_lacks_concat(day + sp + m + sp + year + sp, hour, '\n');
    lemma_lacks_concat(day + sp + m + sp + year + sp + hour, co, '\n');
    lemma_lacks_concat(day + sp + m + sp + year + sp + hour + co, minute, '\n');
    lemma_lacks_concat(day + sp + m + sp + year + sp + hour + co + minute, co, '\n');
    lemma_lacks_concat(day + sp + m + sp + year + sp + hour + co + minute + co, second, '\n');
}

proof fn lemma_location_letters(loc: Location)
    ensures
        forall|i: int| 0 <= i < location_text(loc).len() ==> !is_space(#[trigger] location_text(loc)[i])
            && location_text(loc)[i] != 'A' && location_text(loc)[i] != '\n',
        location_text(loc).len() > 0,
        is_digit(location_text(loc).last()),
{
    lemma_literals();
    lemma_decimal(loc.start as nat);
    if let Some(e) = loc.end {
        lemma_decimal(e as nat);
    }
}

proof fn lemma_page_text_facts(page: Option<u32>)
    ensures
        lacks(page_text(page), 'L'),
        lacks(page_text(page), 'A'),
        lacks(page_text(page), '\n'),
        spaces_after_digits_lead_to_bar(page_text(page)),
        page_text(page).len() > 0 ==> page_text(page)[page_text(page).len() - 1] == ' ',
{
    lemma_literals();
    if let Some(p) = page {
        let n = decimal(p as nat);
        lemma_decimal(p as nat);
        lemma_digits_lack(n);
        lemma_lacks_concat("page "@, n, 'L');
        lemma_lacks_concat("page "@ + n, " | "@, 'L');
        lemma_lacks_concat("page "@, n, 'A');
        lemma_lacks_concat("page "@ + n, " | "@, 'A');
        lemma_lacks_concat("page "@, n, '\n');
        lemma_lacks_concat("page "@ + n, " | "@, '\n');
        lemma_bar_without_digits("page "@);
        lemma_bar_without_spaces(n);
        lemma_bar_concat("page "@, n);
        lemma_bar_without_digits(" | "@);
        lemma_bar_concat("page "@ + n, " | "@);
    }
}

proof fn lemma_meta_kind(
    kind: ClippingType,
    page: Option<u32>,
    loc: Location,
    day: Weekday,
    t: Seq<char>,
)
    ensures
        kind_of(metadata_text(kind, page, loc, day, t)) == Ok::<_, ParseErrorView>(kind),
{
    let k = kind_name(kind);
    let rest = " on "@ + page_text(page) + "Location "@ + location_text(loc) + " | "@ + "Added on "@
        + weekday_name(day) + ", "@ + t;
    lemma_kind_round_trip(kind, rest);
    assert(metadata_text(kind, page, loc, day, t) =~= "- Your "@ + k + rest);
}

proof fn lemma_meta_page(
    kind: ClippingType,
    page: Option<u32>,
    loc: Location,
    day: Weekday,
    d: Seq<char>,
    mo: int,
    y: Seq<char>,
    h: Seq<char>,
    mi: Seq<char>,
    se: Seq<char>,
)
    requires
        date_fits(d, mo, y, h, mi, se),
    ensures
        page_of(metadata_text(kind, page, loc, day, date_text(d, mo, y, h, mi, se)))
            == Ok::<_, ParseErrorView>(page),
{
    lemma_literals();
    lemma_name_letters(kind, day);
    let k = kind_name(kind);
    let l = location_text(loc);
    let w = weekday_name(day);
    let t = date_text(d, mo, y, h, mi, se);
    let meta = metadata_text(kind, page, loc, day, t);
    let pre_p = "- Your "@ + k + " on "@;
    lemma_lacks_concat("- Your "@, k, 'p');
    lemma_lacks_concat("- Your "@ + k, " on "@, 'p');
    match page {
        Some(p) => {
            let n = decimal(p as nat);
            let post_p = " | "@ + "Location "@ + l + " | "@ + "Added on "@ + w + ", "@ + t;
            assert(meta =~= pre_p + "page "@ + n + post_p);
            lemma_page_round_trip(pre_p, p, post_p);
        },
        None => {
            lemma_location_letters_p(loc);
            lemma_date_no_page_word(d, mo, y, h, mi, se);
            let x = pre_p + "Location "@ + l + " | "@ + "Added on "@ + w + ", "@;
            lemma_lacks_concat(pre_p, "Location "@, 'p');
            lemma_lacks_concat(pre_p + "Location "@, l, 'p');
            lemma_lacks_concat(pre_p + "Location "@ + l, " | "@, 'p');
            lemma_lacks_concat(pre_p + "Location "@ + l + " | "@, "Added on "@, 'p');
            lemma_lacks_concat(pre_p + "Location "@ + l + " | "@ + "Added on "@, w, 'p');
            lemma_lacks_concat(pre_p + "Location "@ + l + " | "@ + "Added on "@ + w, ", "@, 'p');
            lemma_no_page_word_concat(x, t);
            assert(meta =~= x + t);
            assert forall|q: int| 0 <= q < meta.len() implies !page_at(meta, q) by {
                if page_at(meta, q) {
                    reveal_strlit("page ");
                    lemma_word_second(meta, q, "page "@);
                }
            }
            crate::format::lemma_leftmost_none(meta.len() as int, |q: int| page_at(meta, q));
        },
    }
}

proof fn lemma_location_letters_p(loc: Location)
    ensures
        lacks(location_text(loc), 'p'),
{
    lemma_literals();
    lemma_decimal(loc.start as nat);
    if let Some(e) = loc.end {
        lemma_decimal(e as nat);
    }
}

proof fn lemma_date_no_page_word(
    day: Seq<char>,
    month: int,
    year: Seq<char>,
    hour: Seq<char>,
    minute: Seq<char>,
    second: Seq<char>,
)
    requires
        date_fits(day, month, year, hour, minute, second),
    ensures
        no_page_word(date_text(day, month, year, hour, minute, second)),
{
    lemma_month_facts();
    let m = month_names()[month];
    let sp = seq![' '];
    let co = seq![':'];
    lemma_digits_lack(day);
    lemma_digits_lack(year);
    lemma_digits_lack(hour);
    lemma_digits_lack(minute);
    lemma_digits_lack(second);
    assert(no_page_word(sp));
    assert(no_page_word(co));
    lemma_no_page_word_concat(day, sp);
    lemma_no_page_word_concat(day + sp, m);
    lemma_no_page_word_concat(day + sp + m, sp);
    lemma_no_page_word_concat(day + sp + m + sp, year);
    lemma_no_page_word_concat(day + sp + m + sp + year, sp);
    lemma_no_page_word_concat(day + sp + m + sp + year + sp, hour);
    lemma_no_page_word_concat(day + sp + m + sp + year + sp + hour, co);
    lemma_no_page_word_concat(day + sp + m + sp + year + sp + hour + co, minute);
    lemma_no_page_word_concat(day + sp + m + sp + year + sp + hour + co + minute, co);
    lemma_no_page_word_concat(day + sp + m + sp + year + sp + hour + co + minute + co, second);
}

proof fn lemma_meta_location(
    kind: ClippingType,
    page: Option<u32>,
    loc: Location,
    day: Weekday,
    d: Seq<char>,
    mo: int,
    y: Seq<char>,
    h: Seq<char>,
    mi: Seq<char>,
    se: Seq<char>,
)
    requires
        date_fits(d, mo, y, h, mi, se),
    ensures
        location_of(metadata_text(kind, page, loc, day, date_text(d, mo, y, h, mi, se)))
            == Ok::<_, ParseErrorView>(loc),
{
    lemma_literals();
    lemma_name_letters(kind, day);
    lemma_page_text_facts(page);
    lemma_date_letters(d, mo, y, h, mi, se);
    let k = kind_name(kind);
    let pt = page_text(page);
    let l = location_text(loc);
    let w = weekday_name(day);
    let t = date_text(d, mo, y, h, mi, se);
    let meta = metadata_text(kind, page, loc, day, t);
    let pre_l = "- Your "@ + k + " on "@ + pt;
    let post_l = " | "@ + "Added on "@ + w + ", "@ + t;
    lemma_lacks_concat("- Your "@, k, 'L');
    lemma_lacks_concat("- Your "@ + k, " on "@, 'L');
    lemma_lacks_concat("- Your "@ + k + " on "@, pt, 'L');
    match loc.end {
        Some(e) => {
            assert(l =~= decimal(loc.start as nat) + seq!['-'] + decimal(e as nat));
            assert(meta =~= pre_l + "Location "@ + decimal(loc.start as nat) + seq!['-'] + decimal(e as nat) + post_l);
            lemma_range_round_trip(pre_l, loc.start, e, post_l);
        },
        None => {
            lemma_lacks_concat(" | "@, "Added on "@, 'L');
            lemma_lacks_concat(" | "@ + "Added on "@, w, 'L');
            lemma_lacks_concat(" | "@ + "Added on "@ + w, ", "@, 'L');
            lemma_lacks_concat(" | "@ + "Added on "@ + w + ", "@, t, 'L');
            assert(meta =~= pre_l + "Location "@ + decimal(loc.start as nat) + post_l);
            lemma_point_round_trip(pre_l, loc.start, post_l);
        },
    }
}

proof fn lemma_meta_weekday(
    kind: ClippingType,
    page: Option<u32>,
    loc: Location,
    day: Weekday,
    t: Seq<char>,
)
    ensures
        weekday_of(metadata_text(kind, page, loc, day, t)) == Ok::<_, ParseErrorView>(day),
{
    lemma_literals();
    lemma_name_letters(kind, day);
    lemma_page_text_facts(page);
    lemma_location_letters(loc);
    let k = kind_name(kind);
    let pt = page_text(page);
    let l = location_text(loc);
    let w = weekday_name(day);
    let meta = metadata_text(kind, page, loc, day, t);
    let pre_w = "- Your "@ + k + " on "@ + pt + "Location "@ + l + " | "@;
    lemma_lacks_concat("- Your "@, k, 'A');
    lemma_lacks_concat("- Your "@ + k, " on "@, 'A');
    lemma_lacks_concat("- Your "@ + k + " on "@, pt, 'A');
    lemma_lacks_concat("- Your "@ + k + " on "@ + pt, "Location "@, 'A');
    lemma_lacks_concat("- Your "@ + k + " on "@ + pt + "Location "@, l, 'A');
    lemma_lacks_concat("- Your "@ + k + " on "@ + pt + "Location "@ + l, " | "@, 'A');
    assert(meta =~= pre_w + "Added on "@ + w + (", "@ + t));
    lemma_weekday_round_trip(pre_w, day, ", "@ + t);
}

/// What stands before the date and time in a metadata line.
pub open spec fn date_prefix(kind: ClippingType, page: Option<u32>, loc: Location, day: Weekday) -> Seq<char> {
    "- Your "@ + kind_name(kind) + " on "@ + page_text(page) + "Location "@ + location_text(loc)
        + " | "@ + "Added on "@ + weekday_name(day) + ", "@
}

proof fn lemma_kind_prefix(kind: ClippingType)
    ensures
        spaces_after_digits_lead_to_bar("- Your "@ + kind_name(kind) + " on "@),
        ("- Your "@ + kind_name(kind) + " on "@).len() > 0,
        ("- Your "@ + kind_name(kind) + " on "@).last() == ' ',
{
    reveal_strlit(" on ");
    lemma_literals();
    lemma_name_letters(kind, Weekday::Monday);
    let x1 = "- Your "@ + kind_name(kind) + " on "@;
    assert(forall|i: int| 0 <= i < x1.len() ==> !is_digit(#[trigger] x1[i]));
    lemma_bar_without_digits(x1);
    assert(x1.last() == " on "@[3]);
}

proof fn lemma_kind_page_prefix(kind: ClippingType, page: Option<u32>)
    ensures
        spaces_after_digits_lead_to_bar("- Your "@ + kind_name(kind) + " on "@ + page_text(page)),
        ("- Your "@ + kind_name(kind) + " on "@ + page_text(page)).len() > 0,
        ("- Your "@ + kind_name(kind) + " on "@ + page_text(page)).last() == ' ',
{
    let x1 = "- Your "@ + kind_name(kind) + " on "@;
    let pt = page_text(page);
    lemma_kind_prefix(kind);
    lemma_page_text_facts(page);
    lemma_bar_concat(x1, pt);
    let x2 = x1 + pt;
    if pt.len() > 0 {
        assert(x2[x2.len() - 1] == pt[pt.len() - 1]);
    } else {
        assert(x2 =~= x1);
    }
}

proof fn lemma_date_prefix(kind: ClippingType, page: Option<u32>, loc: Location, day: Weekday)
    ensures
        date_prefix(kind, page, loc, day).len() > 0,
        date_prefix(kind, page, loc, day)[date_prefix(kind, page, loc, day).len() - 1] == ' ',
        spaces_after_digits_lead_to_bar(date_prefix(kind, page, loc, day)),
{
    lemma_literals();
    lemma_location_letters(loc);
    lemma_kind_page_prefix(kind, page);
    let x2 = "- Your "@ + kind_name(kind) + " on "@ + page_text(page);
    let l = location_text(loc);
    let w = weekday_name(day);
    lemma_bar_without_digits("Location "@);
    lemma_bar_concat(x2, "Location "@);
    lemma_bar_without_spaces(l);
    lemma_bar_concat(x2 + "Location "@, l);
    lemma_bar_without_digits(" | "@);
    lemma_bar_concat(x2 + "Location "@ + l, " | "@);
    lemma_bar_without_digits("Added on "@);
    lemma_bar_concat(x2 + "Location "@ + l + " | "@, "Added on "@);
    assert(forall|i: int| 0 <= i < w.len() ==> !is_digit(#[trigger] w[i])) by {
        lemma_name_letters(kind, day);
    }
    lemma_bar_without_digits(w);
    lemma_bar_concat(x2 + "Location "@ + l + " | "@ + "Added on "@, w);
    lemma_bar_without_digits(", "@);
    lemma_bar_concat(x2 + "Location "@ + l + " | "@ + "Added on "@ + w, ", "@);
}

proof fn lemma_meta_datetime(
    kind: ClippingType,
    page: Option<u32>,
    loc: Location,
    day: Weekday,
    d: Seq<char>,
    mo: int,
    y: Seq<char>,
    h: Seq<char>,
    mi: Seq<char>,
    se: Seq<char>,
)
    requires
        date_fits(d, mo, y, h, mi, se),
    ensures
        datetime_of(metadata_text(kind, page, loc, day, date_text(d, mo, y, h, mi, se)))
            == Ok::<_, ParseErrorView>(date_text(d, mo, y, h, mi, se)),
{
    let pre_d = date_prefix(kind, page, loc, day);
    lemma_date_prefix(kind, page, loc, day);
    lemma_datetime_round_trip(pre_d, d, mo, y, h, mi, se);
    assert(metadata_text(kind, page, loc, day, date_text(d, mo, y, h, mi, se)) == pre_d + date_text(d, mo, y, h, mi, se));
}

proof fn lemma_meta_is_line(
    kind: ClippingType,
    page: Option<u32>,
    loc: Location,
    day: Weekday,
    d: Seq<char>,
    mo: int,
    y: Seq<char>,
    h: Seq<char>,
    mi: Seq<char>,
    se: Seq<char>,
)
    requires
        date_fits(d, mo, y, h, mi, se),
    ensures
        is_line(metadata_text(kind, page, loc, day, date_text(d, mo, y, h, mi, se))),
{
    lemma_literals();
    lemma_name_letters(kind, day);
    lemma_page_text_facts(page);
    lemma_location_letters(loc);
    lemma_date_letters(d, mo, y, h, mi, se);
    let k = kind_name(kind);
    let pt = page_text(page);
    let l = location_text(loc);
    let w = weekday_name(day);
    let t = date_text(d, mo, y, h, mi, se);
    let c = '\n';
    lemma_lacks_concat("- Your "@, k, c);
    lemma_lacks_concat("- Your "@ + k, " on "@, c);
    lemma_lacks_concat("- Your "@ + k + " on "@, pt, c);
    lemma_lacks_concat("- Your "@ + k + " on "@ + pt, "Location "@, c);
    lemma_lacks_concat("- Your "@ + k + " on "@ + pt + "Location "@, l, c);
    lemma_lacks_concat("- Your "@ + k + " on "@ + pt + "Location "@ + l, " | "@, c);
    lemma_lacks_concat("- Your "@ + k + " on "@ + pt + "Location "@ + l + " | "@, "Added on "@, c);
    lemma_lacks_concat("- Your "@ + k + " on "@ + pt + "Location "@ + l + " | "@ + "Added on "@, w, c);
    lemma_lacks_concat("- Your "@ + k + " on "@ + pt + "Location "@ + l + " | "@ + "Added on "@ + w, ", "@, c);
    lemma_lacks_concat("- Your "@ + k + " on "@ + pt + "Location "@ + l + " | "@ + "Added on "@ + w + ", "@, t, c);
    let meta = metadata_text(kind, page, loc, day, t);
    assert(meta[0] == '-');
    assert(meta[meta.len() - 1] == t.last());
}

/// Blank lines, each ended by a line break.
pub open spec fn is_gap(g: Seq<char>) -> bool {
    is_blank(g) && (g.len() > 0 ==> g[g.len() - 1] == '\n')
}

/// Blank text after a last line: nothing, or a line break and blank text.
pub open spec fn is_tail(g: Seq<char>) -> bool {
    is_blank(g) && (g.len() > 0 ==> g[0] == '\n')
}

proof fn lemma_blank_piece(s: Seq<char>, start: int, end: int, ended: bool)
    requires
        0 <= start <= end <= s.len(),
        forall|k: int| start <= k < end ==> is_space(#[trigger] s[k]),
    ensures
        keep_nonblank(line_piece(s, start, end, ended)) == Seq::<Seq<char>>::empty(),
{
    let piece = line_piece(s, start, end, ended);
    assert forall|k: int| 0 <= k < piece.len() implies is_space(#[trigger] piece[k]) by {
        assert(piece[k] == s[start + k]);
    }
}

proof fn lemma_blank_lines(b: Seq<char>, start: int, i: int)
    requires
        is_blank(b),
        0 <= start <= i <= b.len(),
    ensures
        lines_scan(b, start, i) == Seq::<Seq<char>>::empty(),
    decreases b.len() - i,
{
    if i >= b.len() {
        if start < b.len() {
            lemma_blank_piece(b, start, b.len() as int, false);
        }
    } else if b[i] == '\n' {
        lemma_blank_piece(b, start, i, true);
        lemma_blank_lines(b, i + 1, i + 1);
    } else {
        lemma_blank_lines(b, start, i + 1);
    }
}

proof fn lemma_gap_scan(g: Seq<char>, rest: Seq<char>, start: int, i: int)
    requires
        is_gap(g),
        0 <= start <= i <= g.len(),
        i == g.len() ==> start == i,
    ensures
        lines_scan(g + rest, start, i) == lines_scan(g + rest, g.len() as int, g.len() as int),
    decreases g.len() - i,
{
    let s = g + rest;
    if i < g.len() {
        assert(s[i] == g[i]);
        assert forall|k: int| start <= k < i implies is_space(#[trigger] s[k]) by {
            assert(s[k] == g[k]);
        }
        if g[i] == '\n' {
            lemma_blank_piece(s, start, i, true);
            lemma_gap_scan(g, rest, i + 1, i + 1);
        } else {
            lemma_gap_scan(g, rest, start, i + 1);
        }
    }
}

/// Blank lines before some text add no line.
proof fn lemma_gap_lines(g: Seq<char>, rest: Seq<char>)
    requires
        is_gap(g),
    ensures
        content_lines(g + rest) == content_lines(rest),
{
    lemma_gap_scan(g, rest, 0, 0);
    lemma_lines_shift(g, rest, 0, 0);
}

/// A last line followed by blank text only.
proof fn lemma_tail_lines(x: Seq<char>, g: Seq<char>)
    requires
        is_line(x),
        is_tail(g),
    ensures
        content_lines(x + g) == seq![x],
{
    if g.len() == 0 {
        assert(x + g =~= x);
        lemma_lines_last(x);
    } else {
        let b = g.subrange(1, g.len() as int);
        assert(x + g =~= x + seq!['\n'] + b);
        lemma_lines_cons(x, b);
        assert forall|k: int| 0 <= k < b.len() implies is_space(#[trigger] b[k]) by {
            assert(b[k] == g[k + 1]);
        }
        lemma_blank_lines(b, 0, 0);
        assert(seq![x] + Seq::<Seq<char>>::empty() =~= seq![x]);
    }
}

/// An entry as the export writes it: the title line, the metadata line, and
/// for a highlight or a note the content line. Blank lines may stand before
/// each line (`before_title`, `before_meta`, `before_content`), and after the
/// metadata line of a bookmark (`before_content` then ends the entry).
pub open spec fn entry_text(
    title: Seq<char>,
    author: Seq<char>,
    kind: ClippingType,
    page: Option<u32>,
    loc: Location,
    day: Weekday,
    date: Seq<char>,
    content: Seq<char>,
    before_title: Seq<char>,
    before_meta: Seq<char>,
    before_content: Seq<char>,
) -> Seq<char> {
    let head = before_title + title_line(title, author) + seq!['\n'] + before_meta + metadata_text(
        kind,
        page,
        loc,
        day,
        date,
    );
    if kind == ClippingType::Bookmark {
        head + before_content
    } else {
        head + seq!['\n'] + before_content + content
    }
}

/// The blank text around the lines of an entry has the shape that `entry_text` allows.
pub open spec fn gaps_fit(
    kind: ClippingType,
    before_title: Seq<char>,
    before_meta: Seq<char>,
    before_content: Seq<char>,
) -> bool {
    &&& is_gap(before_title)
    &&& is_gap(before_meta)
    &&& if kind == ClippingType::Bookmark {
        is_tail(before_content)
    } else {
        is_gap(before_content)
    }
}

proof fn lemma_entry_lines(
    title: Seq<char>,
    author: Seq<char>,
    kind: ClippingType,
    page: Option<u32>,
    loc: Location,
    day: Weekday,
    d: Seq<char>,
    mo: int,
    y: Seq<char>,
    h: Seq<char>,
    mi: Seq<char>,
    se: Seq<char>,
    content: Seq<char>,
    g0: Seq<char>,
    g1: Seq<char>,
    g2: Seq<char>,
)
    requires
        is_trimmed(title),
        lacks(title, '\n'),
        is_trimmed(author),
        lacks(author, '\n'),
        date_fits(d, mo, y, h, mi, se),
        kind != ClippingType::Bookmark ==> is_line(content),
        gaps_fit(kind, g0, g1, g2),
    ensures
        content_lines(
            entry_text(title, author, kind, page, loc, day, date_text(d, mo, y, h, mi, se), content, g0, g1, g2),
        ) == if kind == ClippingType::Bookmark {
            seq![title_line(title, author), metadata_text(kind, page, loc, day, date_text(d, mo, y, h, mi, se))]
        } else {
            seq![
                title_line(title, author),
                metadata_text(kind, page, loc, day, date_text(d, mo, y, h, mi, se)),
                content,
            ]
        },
{
    let date = date_text(d, mo, y, h, mi, se);
    let tl = title_line(title, author);
    let meta = metadata_text(kind, page, loc, day, date);
    let text = entry_text(title, author, kind, page, loc, day, date, content, g0, g1, g2);
    lemma_lacks_concat(title, seq![' ', '('], '\n');
    lemma_lacks_concat(title + seq![' ', '('], author, '\n');
    lemma_lacks_concat(title + seq![' ', '('] + author, seq![')'], '\n');
    assert(tl[0] == title[0]);
    assert(!is_blank(tl));
    assert(tl[tl.len() - 1] == ')');
    assert(is_line(tl));
    lemma_meta_is_line(kind, page, loc, day, d, mo, y, h, mi, se);
    let rest = if kind == ClippingType::Bookmark {
        meta + g2
    } else {
        meta + seq!['\n'] + g2 + content
    };
    assert(text =~= g0 + (tl + seq!['\n'] + (g1 + rest)));
    lemma_gap_lines(g0, tl + seq!['\n'] + (g1 + rest));
    lemma_lines_cons(tl, g1 + rest);
    lemma_gap_lines(g1, rest);
    if kind == ClippingType::Bookmark {
        lemma_tail_lines(meta, g2);
        assert(content_lines(text) =~= seq![tl, meta]);
    } else {
        lemma_lines_last(content);
        lemma_gap_lines(g2, content);
        lemma_lines_cons(meta, g2 + content);
        assert(rest =~= meta + seq!['\n'] + (g2 + content));
        assert(content_lines(text) =~= seq![tl, meta, content]);
    }
}

proof fn lemma_clipping_from_fields(
    text: Seq<char>,
    tl: Seq<char>,
    meta: Seq<char>,
    title: Seq<char>,
    author: Seq<char>,
    kind: ClippingType,
    page: Option<u32>,
    loc: Location,
    day: Weekday,
    date: Seq<char>,
    content: Seq<char>,
)
    requires
        content_lines(text) == if kind == ClippingType::Bookmark {
            seq![tl, meta]
        } else {
            seq![tl, meta, content]
        },
        title_author_of(tl) == Ok::<_, ParseErrorView>((title, author)),
        kind_of(meta) == Ok::<_, ParseErrorView>(kind),
        page_of(meta) == Ok::<_, ParseErrorView>(page),
        location_of(meta) == Ok::<_, ParseErrorView>(loc),
        weekday_of(meta) == Ok::<_, ParseErrorView>(day),
        datetime_of(meta) == Ok::<_, ParseErrorView>(date),
    ensures
        clipping_of(text) == Ok::<_, ParseErrorView>(
            ClippingView {
                clipping_type: kind,
                book_title: title,
                author,
                page,
                location: loc,
                datetime: date,
                weekday: day,
                content: if kind == ClippingType::Bookmark {
                    None
                } else {
                    Some(content)
                },
            },
        ),
{
}

/// A well-formed entry of any kind, with or without a page, parses back to exactly
/// what was written: title, author, kind, page, location bounds, weekday, the date
/// and time as written (leading zeros included), and the content, which a bookmark
/// has not. Blank lines may stand between the lines of the entry. In the title no
/// space stands right before a `(`; title and author start and end with a
/// non-space character.
pub proof fn lemma_entry_round_trip(
    title: Seq<char>,
    author: Seq<char>,
    kind: ClippingType,
    page: Option<u32>,
    loc: Location,
    day: Weekday,
    d: Seq<char>,
    mo: int,
    y: Seq<char>,
    h: Seq<char>,
    mi: Seq<char>,
    se: Seq<char>,
    content: Seq<char>,
    before_title: Seq<char>,
    before_meta: Seq<char>,
    before_content: Seq<char>,
)
    requires
        is_trimmed(title),
        no_space_before_paren(title),
        lacks(title, '\n'),
        is_trimmed(author),
        lacks(author, '\n'),
        date_fits(d, mo, y, h, mi, se),
        kind != ClippingType::Bookmark ==> is_line(content),
        gaps_fit(kind, before_title, before_meta, before_content),
    ensures
        clipping_of(entry_text(title, author, kind, page, loc, day, date_text(d, mo, y, h, mi, se), content, before_title, before_meta, before_content))
            == Ok::<_, ParseErrorView>(
            ClippingView {
                clipping_type: kind,
                book_title: title,
                author,
                page,
                location: loc,
                datetime: date_text(d, mo, y, h, mi, se),
                weekday: day,
                content: if kind == ClippingType::Bookmark {
                    None
                } else {
                    Some(content)
                },
            },
        ),
{
    let date = date_text(d, mo, y, h, mi, se);
    let text = entry_text(title, author, kind, page, loc, day, date, content, before_title, before_meta, before_content);
    let meta = metadata_text(kind, page, loc, day, date);
    lemma_entry_lines(title, author, kind, page, loc, day, d, mo, y, h, mi, se, content, before_title, before_meta, before_content);
    lemma_title_author_round_trip(title, author);
    lemma_meta_kind(kind, page, loc, day, date);
    lemma_meta_page(kind, page, loc, day, d, mo, y, h, mi, se);
    lemma_meta_location(kind, page, loc, day, d, mo, y, h, mi, se);
    lemma_meta_weekday(kind, page, loc, day, date);
    lemma_meta_datetime(kind, page, loc, day, d, mo, y, h, mi, se);
    lemma_clipping_from_fields(
        text,
        title_line(title, author),
        meta,
        title,
        author,
        kind,
        page,
        loc,
        day,
        date,
        content,
    );
}

} // verus!
