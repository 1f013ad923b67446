//! The entry format as mathematics: how a file splits into entries and an entry
//! into lines, and where each field of the metadata line is found.
use vstd::prelude::*;

use crate::parser::{ClippingType, Weekday};
use crate::text::{digits_end, is_blank, is_digit, is_space, skip_space};

verus! {

/// The least index `p` in `0..n` for which `hit(p)` holds.
pub closed spec fn leftmost(n: int, hit: spec_fn(int) -> bool) -> Option<int> {
    if exists|p: int| 0 <= p < n && #[trigger] hit(p) {
        Some(choose|p: int| 0 <= p < n && #[trigger] hit(p) && forall|q: int| 0 <= q < p ==> !#[trigger] hit(q))
    } else {
        None
    }
}

pub proof fn lemma_leftmost_some(n: int, hit: spec_fn(int) -> bool, p: int)
    requires
        0 <= p < n,
        hit(p),
        forall|q: int| 0 <= q < p ==> !#[trigger] hit(q),
    ensures
        leftmost(n, hit) == Some(p),
{
    let c = choose|c: int| 0 <= c < n && #[trigger] hit(c) && forall|q: int| 0 <= q < c ==> !#[trigger] hit(q);
    assert(0 <= c < n && hit(c) && forall|q: int| 0 <= q < c ==> !#[trigger] hit(q));
    if c < p {
        assert(!hit(c));
    }
    if p < c {
        assert(!hit(p));
    }
}

proof fn lemma_least_hit_exists(n: int, hit: spec_fn(int) -> bool, p: int)
    requires
        0 <= p < n,
        hit(p),
    ensures
        exists|m: int| 0 <= m < n && #[trigger] hit(m) && forall|q: int| 0 <= q < m ==> !#[trigger] hit(q),
    decreases p,
{
    if exists|q: int| 0 <= q < p && #[trigger] hit(q) {
        let q = choose|q: int| 0 <= q < p && #[trigger] hit(q);
        lemma_least_hit_exists(n, hit, q);
    } else {
        assert(forall|q: int| 0 <= q < p ==> !#[trigger] hit(q));
    }
}

pub proof fn lemma_leftmost_hit(n: int, hit: spec_fn(int) -> bool)
    requires
        leftmost(n, hit) is Some,
    ensures
        0 <= leftmost(n, hit)->Some_0 < n,
        hit(leftmost(n, hit)->Some_0),
        forall|q: int| 0 <= q < leftmost(n, hit)->Some_0 ==> !#[trigger] hit(q),
{
    let p = choose|p: int| 0 <= p < n && #[trigger] hit(p);
    lemma_least_hit_exists(n, hit, p);
}

pub proof fn lemma_leftmost_miss(n: int, hit: spec_fn(int) -> bool)
    requires
        leftmost(n, hit) is None,
    ensures
        forall|q: int| 0 <= q < n ==> !#[trigger] hit(q),
{
}

pub proof fn lemma_leftmost_none(n: int, hit: spec_fn(int) -> bool)
    requires
        forall|q: int| 0 <= q < n ==> !#[trigger] hit(q),
    ensures
        leftmost(n, hit) == None::<int>,
{
}

/// `w` stands in `s` from index `p`.
pub open spec fn word_at(s: Seq<char>, p: int, w: Seq<char>) -> bool {
    0 <= p && p + w.len() <= s.len() && s.subrange(p, p + w.len()) == w
}

// ---- splitting a file into entries and an entry into lines

/// The line that ends at a `'\n'` loses one `'\r'` before it; an unended last line keeps it.
pub open spec fn line_piece(s: Seq<char>, start: int, end: int, ended: bool) -> Seq<char> {
    if ended && start < end && s[end - 1] == '\r' {
        s.subrange(start, end - 1)
    } else {
        s.subrange(start, end)
    }
}

pub open spec fn keep_nonblank(l: Seq<char>) -> Seq<Seq<char>> {
    if is_blank(l) {
        Seq::empty()
    } else {
        seq![l]
    }
}

/// The non-blank lines of `s`, for a scan whose current line began at `start`
/// and which has reached `i`.
pub open spec fn lines_scan(s: Seq<char>, start: int, i: int) -> Seq<Seq<char>>
    decreases s.len() - i,
{
    if i >= s.len() {
        if start < s.len() {
            keep_nonblank(line_piece(s, start, s.len() as int, false))
        } else {
            Seq::empty()
        }
    } else if s[i] == '\n' {
        keep_nonblank(line_piece(s, start, i, true)) + lines_scan(s, i + 1, i + 1)
    } else {
        lines_scan(s, start, i + 1)
    }
}

/// The non-blank lines of `s`, in order, as `str::lines` splits them.
pub open spec fn content_lines(s: Seq<char>) -> Seq<Seq<char>> {
    lines_scan(s, 0, 0)
}

/// The line that separates entries: ten `=`.
pub open spec fn separator() -> Seq<char> {
    seq!['=', '=', '=', '=', '=', '=', '=', '=', '=', '=']
}

/// A separator line starts at `i`: ten `=` that begin a line and end it, the
/// line ending in `'\n'`, in `"\r\n"` or with the text.
pub open spec fn separator_line_at(s: Seq<char>, i: int) -> bool {
    &&& word_at(s, i, separator())
    &&& (i == 0 || s[i - 1] == '\n')
    &&& (i + 10 == s.len() || s[i + 10] == '\n' || (i + 11 < s.len() && s[i + 10] == '\r' && s[i
        + 11] == '\n'))
}

/// The non-blank pieces of `s` between separator lines, for a scan whose current
/// piece began at `start` and which has reached `i`.
pub open spec fn blocks_scan(s: Seq<char>, start: int, i: int) -> Seq<Seq<char>>
    decreases s.len() - i,
{
    if i >= s.len() {
        keep_nonblank(s.subrange(start, s.len() as int))
    } else if separator_line_at(s, i) {
        keep_nonblank(s.subrange(start, i)) + blocks_scan(s, i + 10, i + 10)
    } else {
        blocks_scan(s, start, i + 1)
    }
}

/// The entries of a file: its non-blank pieces between separator lines, in order.
pub open spec fn entry_blocks(s: Seq<char>) -> Seq<Seq<char>> {
    blocks_scan(s, 0, 0)
}

// ---- title and author: `<title> (<author>)`

/// The title may end before `i`: space runs from `i` up to a `(` that opens a
/// non-empty author closed by the `)` that ends the line.
pub open spec fn title_break_at(s: Seq<char>, i: int) -> bool {
    &&& 1 <= i < s.len()
    &&& is_space(s[i])
    &&& skip_space(s, i) + 2 < s.len()
    &&& s[skip_space(s, i)] == '('
    &&& s[s.len() - 1] == ')'
}

/// Where the shortest title ends.
pub open spec fn title_break(s: Seq<char>) -> Option<int> {
    leftmost(s.len() as int, |i: int| title_break_at(s, i))
}

// ---- entry kind

/// The kind whose keyword stands at `p`.
pub open spec fn kind_at(s: Seq<char>, p: int) -> Option<ClippingType> {
    if word_at(s, p, "Bookmark"@) {
        Some(ClippingType::Bookmark)
    } else if word_at(s, p, "Highlight"@) {
        Some(ClippingType::Highlight)
    } else if word_at(s, p, "Note"@) {
        Some(ClippingType::Note)
    } else {
        None
    }
}

pub open spec fn kind_pos(s: Seq<char>) -> Option<int> {
    leftmost(s.len() as int, |p: int| kind_at(s, p) is Some)
}

// ---- page: `page <digits>`

pub open spec fn page_at(s: Seq<char>, p: int) -> bool {
    word_at(s, p, "page "@) && p + 5 < s.len() && is_digit(s[p + 5])
}

pub open spec fn page_pos(s: Seq<char>) -> Option<int> {
    leftmost(s.len() as int, |p: int| page_at(s, p))
}

// ---- location: `Location <digits>-<digits>`, else `Location <digits>`

pub open spec fn point_at(s: Seq<char>, p: int) -> bool {
    word_at(s, p, "Location "@) && p + 9 < s.len() && is_digit(s[p + 9])
}

pub open spec fn range_at(s: Seq<char>, p: int) -> bool {
    let m = digits_end(s, p + 9);
    &&& point_at(s, p)
    &&& m + 1 < s.len()
    &&& s[m] == '-'
    &&& is_digit(s[m + 1])
}

pub open spec fn range_pos(s: Seq<char>) -> Option<int> {
    leftmost(s.len() as int, |p: int| range_at(s, p))
}

pub open spec fn point_pos(s: Seq<char>) -> Option<int> {
    leftmost(s.len() as int, |p: int| point_at(s, p))
}

// ---- weekday: `Added on <day name>`

pub open spec fn weekday_name(d: Weekday) -> Seq<char> {
    match d {
        Weekday::Monday => "Monday"@,
        Weekday::Tuesday => "Tuesday"@,
        Weekday::Wednesday => "Wednesday"@,
        Weekday::Thursday => "Thursday"@,
        Weekday::Friday => "Friday"@,
        Weekday::Saturday => "Saturday"@,
        Weekday::Sunday => "Sunday"@,
    }
}

/// The day whose name stands at `p`.
pub open spec fn day_name_at(s: Seq<char>, p: int) -> Option<Weekday> {
    if word_at(s, p, "Monday"@) {
        Some(Weekday::Monday)
    } else if word_at(s, p, "Tuesday"@) {
        Some(Weekday::Tuesday)
    } else if word_at(s, p, "Wednesday"@) {
        Some(Weekday::Wednesday)
    } else if word_at(s, p, "Thursday"@) {
        Some(Weekday::Thursday)
    } else if word_at(s, p, "Friday"@) {
        Some(Weekday::Friday)
    } else if word_at(s, p, "Saturday"@) {
        Some(Weekday::Saturday)
    } else if word_at(s, p, "Sunday"@) {
        Some(Weekday::Sunday)
    } else {
        None
    }
}

pub open spec fn weekday_at(s: Seq<char>, p: int) -> Option<Weekday> {
    if word_at(s, p, "Added on "@) {
        day_name_at(s, p + 9)
    } else {
        None
    }
}

pub open spec fn weekday_pos(s: Seq<char>) -> Option<int> {
    leftmost(s.len() as int, |p: int| weekday_at(s, p) is Some)
}

// ---- date and time: `<d> <Month> <yyyy> <h>:<mm>:<ss>`, spaces one or more

pub open spec fn month_names() -> Seq<Seq<char>> {
    seq![
        "January"@,
        "February"@,
        "March"@,
        "April"@,
        "May"@,
        "June"@,
        "July"@,
        "August"@,
        "September"@,
        "October"@,
        "November"@,
        "December"@,
    ]
}

/// Where the first month name, from the `k`-th on, that stands at `p` ends.
pub open spec fn month_from(s: Seq<char>, p: int, k: int) -> Option<int>
    decreases 12 - k,
{
    if k >= 12 {
        None
    } else if word_at(s, p, month_names()[k]) {
        Some(p + month_names()[k].len())
    } else {
        month_from(s, p, k + 1)
    }
}

/// Where the month name that stands at `p` ends.
pub open spec fn month_end(s: Seq<char>, p: int) -> Option<int> {
    month_from(s, p, 0)
}

/// Where one or two digits from `p` end, when `stop` follows them.
pub open spec fn short_number_end(s: Seq<char>, p: int, stop: spec_fn(char) -> bool) -> Option<int> {
    if 0 <= p && p + 1 < s.len() && is_digit(s[p]) && stop(s[p + 1]) {
        Some(p + 1)
    } else if 0 <= p && p + 2 < s.len() && is_digit(s[p]) && is_digit(s[p + 1]) && stop(s[p + 2]) {
        Some(p + 2)
    } else {
        None
    }
}

pub open spec fn digits_between(s: Seq<char>, lo: int, hi: int) -> bool {
    0 <= lo <= hi <= s.len() && forall|k: int| lo <= k < hi ==> is_digit(#[trigger] s[k])
}

/// `<h>:<mm>:<ss>` from `p`: where it ends.
pub open spec fn time_end(s: Seq<char>, p: int) -> Option<int> {
    match short_number_end(s, p, |c: char| c == ':') {
        Some(h) => if h + 6 <= s.len() && digits_between(s, h + 1, h + 3) && s[h + 3] == ':'
            && digits_between(s, h + 4, h + 6) {
            Some(h + 6)
        } else {
            None
        },
        None => None,
    }
}

/// `<yyyy> <h>:<mm>:<ss>` from `p`: where it ends.
pub open spec fn year_time_end(s: Seq<char>, p: int) -> Option<int> {
    if 0 <= p && p + 5 <= s.len() && digits_between(s, p, p + 4) && is_space(s[p + 4]) {
        time_end(s, skip_space(s, p + 4))
    } else {
        None
    }
}

/// Where a date and time that starts at `p` ends.
pub open spec fn datetime_end(s: Seq<char>, p: int) -> Option<int> {
    match short_number_end(s, p, |c: char| is_space(c)) {
        Some(d) => match month_end(s, skip_space(s, d)) {
            Some(m) => if m < s.len() && is_space(s[m]) {
                year_time_end(s, skip_space(s, m))
            } else {
                None
            },
            None => None,
        },
        None => None,
    }
}

pub open spec fn datetime_pos(s: Seq<char>) -> Option<int> {
    leftmost(s.len() as int, |p: int| datetime_end(s, p) is Some)
}

} // verus!
