//! Records, errors, and the parser from clipping text to records.
use vstd::prelude::*;

use crate::format::{
    blocks_scan, content_lines, datetime_end, datetime_pos, day_name_at, digits_between,
    entry_blocks, keep_nonblank, kind_at, kind_pos, leftmost, lemma_leftmost_none,
    lemma_leftmost_some, line_piece, lines_scan, month_end, month_from, month_names, page_at,
    page_pos, point_at, point_pos, range_at, range_pos, separator, separator_line_at,
    short_number_end, title_break, title_break_at, weekday_at, weekday_name, weekday_pos, word_at,
};
use crate::text::{
    chars_of, decimal, decimal_value, digits_end, is_blank_chars, is_digit, is_digit_char, is_space,
    is_space_char, lemma_digits_end_bounds, lemma_skip_space_bounds, parse_decimal, push_all,
    push_decimal, skip_digits, skip_space, skip_spaces, slice_of, string_of, trim_chars, trimmed,
};

verus! {

/// Why a clipping could not be parsed.
#[derive(Debug)]
pub enum ParseError {
    InvalidFormat(String),
    MissingField(String),
    InvalidWeekday(String),
}

/// What a `ParseError` says, as character sequences.
pub enum ParseErrorView {
    InvalidFormat(Seq<char>),
    MissingField(Seq<char>),
    InvalidWeekday(Seq<char>),
}

impl View for ParseError {
    type V = ParseErrorView;

    open spec fn view(&self) -> ParseErrorView {
        match self {
            ParseError::InvalidFormat(m) => ParseErrorView::InvalidFormat(m@),
            ParseError::MissingField(m) => ParseErrorView::MissingField(m@),
            ParseError::InvalidWeekday(m) => ParseErrorView::InvalidWeekday(m@),
        }
    }
}

/// The kind of a clipping.
#[derive(Debug, Clone, Copy, PartialEq, Eq, Structural)]
pub enum ClippingType {
    Highlight,
    Note,
    Bookmark,
}

/// A position in a book, or a range of positions.
#[derive(Debug, Clone, Copy, PartialEq, Eq, Structural)]
pub struct Location {
    pub start: u32,
    pub end: Option<u32>,
}

/// Days of the week.
#[derive(Debug, Clone, Copy, PartialEq, Eq, Structural)]
pub enum Weekday {
    Monday,
    Tuesday,
    Wednesday,
    Thursday,
    Friday,
    Saturday,
    Sunday,
}

/// A single clipping.
#[derive(Debug)]
pub struct Clipping {
    pub clipping_type: ClippingType,
    pub book_title: String,
    pub author: String,
    pub page: Option<u32>,
    pub location: Location,
    pub datetime: String,
    pub weekday: Weekday,
    pub content: Option<String>,
}

/// A clipping with its text fields as character sequences.
pub struct ClippingView {
    pub clipping_type: ClippingType,
    pub book_title: Seq<char>,
    pub author: Seq<char>,
    pub page: Option<u32>,
    pub location: Location,
    pub datetime: Seq<char>,
    pub weekday: Weekday,
    pub content: Option<Seq<char>>,
}

impl View for Clipping {
    type V = ClippingView;

    open spec fn view(&self) -> ClippingView {
        ClippingView {
            clipping_type: self.clipping_type,
            book_title: self.book_title@,
            author: self.author@,
            page: self.page,
            location: self.location,
            datetime: self.datetime@,
            weekday: self.weekday,
            content: match self.content {
                Some(c) => Some(c@),
                None => None,
            },
        }
    }
}

/// A number that fits in a `u32`, from its decimal digits.
pub open spec fn number_of(d: Seq<char>) -> Option<u32> {
    if decimal_value(d) <= u32::MAX {
        Some(decimal_value(d) as u32)
    } else {
        None
    }
}

/// Title and author of a first line, both trimmed.
pub open spec fn title_author_of(line: Seq<char>) -> Result<(Seq<char>, Seq<char>), ParseErrorView> {
    match title_break(line) {
        Some(i) => Ok(
            (
                trimmed(line.subrange(0, i)),
                trimmed(line.subrange(skip_space(line, i) + 1, line.len() - 1)),
            ),
        ),
        None => Err(ParseErrorView::InvalidFormat("Expected 'Title (Author)' format, got: "@ + line)),
    }
}

/// The kind of the leftmost kind keyword of a metadata line.
pub open spec fn kind_of(line: Seq<char>) -> Result<ClippingType, ParseErrorView> {
    match kind_pos(line) {
        Some(p) => Ok(kind_at(line, p)->Some_0),
        None => Err(ParseErrorView::InvalidFormat("Failed to parse clipping type: "@ + line)),
    }
}

/// The page of a metadata line; a line without one has none.
pub open spec fn page_of(line: Seq<char>) -> Result<Option<u32>, ParseErrorView> {
    match page_pos(line) {
        Some(p) => {
            let d = line.subrange(p + 5, digits_end(line, p + 5));
            match number_of(d) {
                Some(n) => Ok(Some(n)),
                None => Err(ParseErrorView::InvalidFormat("Invalid page: "@ + d)),
            }
        },
        None => Ok(None),
    }
}

/// The location of a metadata line: a range where one is written, else a point.
pub open spec fn location_of(line: Seq<char>) -> Result<Location, ParseErrorView> {
    match range_pos(line) {
        Some(p) => {
            let m = digits_end(line, p + 9);
            let a = line.subrange(p + 9, m);
            let b = line.subrange(m + 1, digits_end(line, m + 1));
            match (number_of(a), number_of(b)) {
                (Some(x), Some(y)) => Ok(Location { start: x, end: Some(y) }),
                (None, _) => Err(ParseErrorView::InvalidFormat("Invalid start location: "@ + a)),
                (_, None) => Err(ParseErrorView::InvalidFormat("Invalid end location: "@ + b)),
            }
        },
        None => match point_pos(line) {
            Some(p) => {
                let a = line.subrange(p + 9, digits_end(line, p + 9));
                match number_of(a) {
                    Some(x) => Ok(Location { start: x, end: None }),
                    None => Err(ParseErrorView::InvalidFormat("Invalid start location: "@ + a)),
                }
            },
            None => Err(ParseErrorView::InvalidFormat("Failed to parse location: "@ + line)),
        },
    }
}

/// The day named after the leftmost `Added on ` of a metadata line.
pub open spec fn weekday_of(line: Seq<char>) -> Result<Weekday, ParseErrorView> {
    match weekday_pos(line) {
        Some(p) => Ok(weekday_at(line, p)->Some_0),
        None => Err(ParseErrorView::InvalidFormat("Failed to parse weekday: "@ + line)),
    }
}

/// The leftmost date and time of a metadata line, as written.
pub open spec fn datetime_of(line: Seq<char>) -> Result<Seq<char>, ParseErrorView> {
    match datetime_pos(line) {
        Some(p) => Ok(line.subrange(p, datetime_end(line, p)->Some_0)),
        None => Err(ParseErrorView::InvalidFormat("Failed to parse datetime: "@ + line)),
    }
}

/// The name of a kind, as written in a metadata line.
pub open spec fn kind_name(k: ClippingType) -> Seq<char> {
    match k {
        ClippingType::Highlight => "Highlight"@,
        ClippingType::Note => "Note"@,
        ClippingType::Bookmark => "Bookmark"@,
    }
}

/// The kind that `s` names.
pub open spec fn kind_named(s: Seq<char>) -> Option<ClippingType> {
    if s == "Highlight"@ {
        Some(ClippingType::Highlight)
    } else if s == "Note"@ {
        Some(ClippingType::Note)
    } else if s == "Bookmark"@ {
        Some(ClippingType::Bookmark)
    } else {
        None
    }
}

/// The day that `s` names.
pub open spec fn weekday_named(s: Seq<char>) -> Option<Weekday> {
    if s == "Monday"@ {
        Some(Weekday::Monday)
    } else if s == "Tuesday"@ {
        Some(Weekday::Tuesday)
    } else if s == "Wednesday"@ {
        Some(Weekday::Wednesday)
    } else if s == "Thursday"@ {
        Some(Weekday::Thursday)
    } else if s == "Friday"@ {
        Some(Weekday::Friday)
    } else if s == "Saturday"@ {
        Some(Weekday::Saturday)
    } else if s == "Sunday"@ {
        Some(Weekday::Sunday)
    } else {
        None
    }
}

/// A location as text: `start`, or `start-end`.
pub open spec fn location_text(l: Location) -> Seq<char> {
    match l.end {
        Some(e) => decimal(l.start as nat) + "-"@ + decimal(e as nat),
        None => decimal(l.start as nat),
    }
}

/// A clipping as text, one field per line; a missing page or content reads `N/A`.
pub open spec fn clipping_text(c: ClippingView) -> Seq<char> {
    "Book: "@ + c.book_title + "\nAuthor: "@ + c.author + "\nLocation: "@ + location_text(c.location)
        + "\nDate: "@ + c.datetime + " ("@ + weekday_name(c.weekday) + ")\nPage: "@ + match c.page {
        Some(p) => decimal(p as nat),
        None => "N/A"@,
    } + "\nContent: "@ + match c.content {
        Some(t) => t,
        None => "N/A"@,
    }
}

/// Whether `v` holds exactly the characters of `w`.
fn same_chars(v: &[char], w: &[char]) -> (r: bool)
    ensures
        r == (v@ == w@),
{
    if v.len() != w.len() {
        return false;
    }
    let r = has_word_at(v, 0, w);
    proof {
        assert(v@.subrange(0, w@.len() as int) =~= v@);
    }
    r
}

impl ClippingType {
    /// Reads a kind from its name.
    pub fn from_name(s: &str) -> (r: Result<ClippingType, String>)
        ensures
            match r {
                Ok(k) => kind_named(s@) == Some(k),
                Err(m) => kind_named(s@) is None && m@ == "Invalid clipping type: "@ + s@,
            },
    {
        let v = chars_of(s);
        if same_chars(v.as_slice(), chars_of("Highlight").as_slice()) {
            Ok(ClippingType::Highlight)
        } else if same_chars(v.as_slice(), chars_of("Note").as_slice()) {
            Ok(ClippingType::Note)
        } else if same_chars(v.as_slice(), chars_of("Bookmark").as_slice()) {
            Ok(ClippingType::Bookmark)
        } else {
            Err(message("Invalid clipping type: ", v.as_slice()))
        }
    }

    /// The name of the kind.
    pub fn name(&self) -> (r: String)
        ensures
            r@ == kind_name(*self),
    {
        match self {
            ClippingType::Highlight => string_of(chars_of("Highlight").as_slice()),
            ClippingType::Note => string_of(chars_of("Note").as_slice()),
            ClippingType::Bookmark => string_of(chars_of("Bookmark").as_slice()),
        }
    }
}

impl std::str::FromStr for ClippingType {
    type Err = String;

    fn from_str(s: &str) -> (r: Result<ClippingType, String>)
        ensures
            match r {
                Ok(k) => kind_named(s@) == Some(k),
                Err(m) => kind_named(s@) is None && m@ == "Invalid clipping type: "@ + s@,
            },
    {
        ClippingType::from_name(s)
    }
}

impl Weekday {
    /// Reads a day from its English name.
    pub fn from_name(s: &str) -> (r: Result<Weekday, String>)
        ensures
            match r {
                Ok(d) => weekday_named(s@) == Some(d),
                Err(m) => weekday_named(s@) is None && m@ == "Invalid weekday: "@ + s@,
            },
    {
        let v = chars_of(s);
        let w = v.as_slice();
        if same_chars(w, chars_of("Monday").as_slice()) {
            Ok(Weekday::Monday)
        } else if same_chars(w, chars_of("Tuesday").as_slice()) {
            Ok(Weekday::Tuesday)
        } else if same_chars(w, chars_of("Wednesday").as_slice()) {
            Ok(Weekday::Wednesday)
        } else if same_chars(w, chars_of("Thursday").as_slice()) {
            Ok(Weekday::Thursday)
        } else if same_chars(w, chars_of("Friday").as_slice()) {
            Ok(Weekday::Friday)
        } else if same_chars(w, chars_of("Saturday").as_slice()) {
            Ok(Weekday::Saturday)
        } else if same_chars(w, chars_of("Sunday").as_slice()) {
            Ok(Weekday::Sunday)
        } else {
            Err(message("Invalid weekday: ", w))
        }
    }

    /// The English name of the day.
    pub fn name(&self) -> (r: String)
        ensures
            r@ == weekday_name(*self),
    {
        let s = match self {
            Weekday::Monday => "Monday",
            Weekday::Tuesday => "Tuesday",
            Weekday::Wednesday => "Wednesday",
            Weekday::Thursday => "Thursday",
            Weekday::Friday => "Friday",
            Weekday::Saturday => "Saturday",
            Weekday::Sunday => "Sunday",
        };
        string_of(chars_of(s).as_slice())
    }
}

impl std::str::FromStr for Weekday {
    type Err = String;

    fn from_str(s: &str) -> (r: Result<Weekday, String>)
        ensures
            match r {
                Ok(d) => weekday_named(s@) == Some(d),
                Err(m) => weekday_named(s@) is None && m@ == "Invalid weekday: "@ + s@,
            },
    {
        Weekday::from_name(s)
    }
}

impl Location {
    /// The location as text: `start`, or `start-end`.
    pub fn describe(&self) -> (r: String)
        ensures
            r@ == location_text(*self),
    {
        let mut v: Vec<char> = Vec::new();
        push_decimal(self.start as u64, &mut v);
        if let Some(e) = self.end {
            v.push('-');
            push_decimal(e as u64, &mut v);
            proof {
                reveal_strlit("-");
                assert(v@ =~= location_text(*self));
            }
        }
        string_of(v.as_slice())
    }
}

/// What `describe` writes for an error.
pub open spec fn describe_view(e: ParseErrorView) -> Seq<char> {
    match e {
        ParseErrorView::InvalidFormat(m) => "Invalid format: "@ + m,
        ParseErrorView::MissingField(f) => "Missing field: "@ + f,
        ParseErrorView::InvalidWeekday(d) => "Invalid weekday: "@ + d,
    }
}

/// The clipping that one entry's text holds: the first non-blank line gives
/// title and author, the second the metadata, the third the content, which a
/// bookmark has not.
pub open spec fn clipping_of(text: Seq<char>) -> Result<ClippingView, ParseErrorView> {
    let ls = content_lines(text);
    if ls.len() == 0 {
        Err(ParseErrorView::MissingField("title/author"@))
    } else {
        match title_author_of(ls[0]) {
            Err(e) => Err(e),
            Ok((title, author)) => if ls.len() < 2 {
                Err(ParseErrorView::MissingField("metadata"@))
            } else {
                let m = ls[1];
                match (kind_of(m), page_of(m), location_of(m), weekday_of(m), datetime_of(m)) {
                    (Err(e), _, _, _, _) => Err(e),
                    (Ok(_), Err(e), _, _, _) => Err(e),
                    (Ok(_), Ok(_), Err(e), _, _) => Err(e),
                    (Ok(_), Ok(_), Ok(_), Err(e), _) => Err(e),
                    (Ok(_), Ok(_), Ok(_), Ok(_), Err(e)) => Err(e),
                    (Ok(kind), Ok(page), Ok(location), Ok(weekday), Ok(datetime)) => {
                        if kind != ClippingType::Bookmark && ls.len() < 3 {
                            Err(ParseErrorView::MissingField("content"@))
                        } else {
                            Ok(
                                ClippingView {
                                    clipping_type: kind,
                                    book_title: title,
                                    author,
                                    page,
                                    location,
                                    datetime,
                                    weekday,
                                    content: if kind == ClippingType::Bookmark {
                                        None
                                    } else {
                                        Some(ls[2])
                                    },
                                },
                            )
                        }
                    },
                }
            },
        }
    }
}

/// The error that reports entry number `n` (counted from one) failing with `e`.
pub open spec fn entry_error(n: nat, e: ParseErrorView) -> ParseErrorView {
    ParseErrorView::InvalidFormat(
        "Failed to parse clipping #"@ + decimal(n) + ": "@ + describe_view(e),
    )
}

/// The index of the first entry of `bs` that does not parse.
pub open spec fn first_failure(bs: Seq<Seq<char>>) -> Option<int> {
    leftmost(bs.len() as int, |k: int| clipping_of(bs[k]) is Err)
}

/// The clippings of a whole file, or the error of its first entry that fails.
pub open spec fn clippings_of(s: Seq<char>) -> Result<Seq<ClippingView>, ParseErrorView> {
    let bs = entry_blocks(s);
    match first_failure(bs) {
        Some(k) => Err(entry_error((k + 1) as nat, clipping_of(bs[k])->Err_0)),
        None => Ok(Seq::new(bs.len(), |k: int| clipping_of(bs[k])->Ok_0)),
    }
}

pub open spec fn views(v: Seq<Clipping>) -> Seq<ClippingView> {
    Seq::new(v.len(), |i: int| v[i]@)
}

/// `r` is what the model `m` says, with the error seen through its view.
pub open spec fn agrees<T>(r: Result<T, ParseError>, m: Result<T, ParseErrorView>) -> bool {
    match r {
        Ok(x) => m == Ok::<T, ParseErrorView>(x),
        Err(e) => m == Err::<T, ParseErrorView>(e@),
    }
}

/// `prefix` followed by `tail`, as a string.
fn message(prefix: &str, tail: &[char]) -> (r: String)
    ensures
        r@ == prefix@ + tail@,
{
    let mut v = chars_of(prefix);
    push_all(&mut v, tail);
    string_of(v.as_slice())
}

/// Whether `w` stands in `v` from `p`.
fn has_word_at(v: &[char], p: usize, w: &[char]) -> (r: bool)
    ensures
        r == word_at(v@, p as int, w@),
{
    if p > v.len() || w.len() > v.len() - p {
        return false;
    }
    let mut k: usize = 0;
    while k < w.len()
        invariant
            k <= w.len(),
            p + w.len() <= v.len(),
            forall|j: int| 0 <= j < k ==> v@[p + j] == w@[j],
        decreases w.len() - k,
    {
        if v[p + k] != w[k] {
            proof {
                assert(v@.subrange(p as int, p + w.len())[k as int] != w@[k as int]);
            }
            return false;
        }
        k = k + 1;
    }
    proof {
        assert(v@.subrange(p as int, p + w.len()) =~= w@);
    }
    true
}

/// Whether every character of `v` from `lo` up to `hi` is a digit.
fn all_digits(v: &[char], lo: usize, hi: usize) -> (r: bool)
    requires
        lo <= hi <= v.len(),
    ensures
        r == digits_between(v@, lo as int, hi as int),
{
    let mut k: usize = lo;
    while k < hi
        invariant
            lo <= k <= hi <= v.len(),
            forall|j: int| lo <= j < k ==> is_digit(#[trigger] v@[j]),
        decreases hi - k,
    {
        if !is_digit_char(v[k]) {
            return false;
        }
        k = k + 1;
    }
    true
}

/// The twelve month names, in calendar order.
fn month_table() -> (r: Vec<Vec<char>>)
    ensures
        r.len() == 12,
        forall|k: int| 0 <= k < 12 ==> (#[trigger] r[k])@ == month_names()[k],
{
    let r = vec![
        chars_of("January"),
        chars_of("February"),
        chars_of("March"),
        chars_of("April"),
        chars_of("May"),
        chars_of("June"),
        chars_of("July"),
        chars_of("August"),
        chars_of("September"),
        chars_of("October"),
        chars_of("November"),
        chars_of("December"),
    ];
    r
}

/// Where the month name that stands at `p` ends.
fn month_end_at(v: &[char], p: usize, months: &Vec<Vec<char>>) -> (r: Option<usize>)
    requires
        months.len() == 12,
        forall|k: int| 0 <= k < 12 ==> (#[trigger] months[k])@ == month_names()[k],
    ensures
        match r {
            Some(e) => month_end(v@, p as int) == Some(e as int) && p <= e,
            None => month_end(v@, p as int) is None,
        },
{
    let mut k: usize = 0;
    while k < 12
        invariant
            k <= 12,
            months.len() == 12,
            forall|j: int| 0 <= j < 12 ==> (#[trigger] months[j])@ == month_names()[j],
            month_end(v@, p as int) == month_from(v@, p as int, k as int),
        decreases 12 - k,
    {
        let w = months[k].as_slice();
        if p <= v.len() && has_word_at(v, p, w) {
            return Some(p + w.len());
        }
        k = k + 1;
    }
    None
}

/// Where one or two digits from `p` end, when a space follows them.
fn short_number_then_space(v: &[char], p: usize) -> (r: Option<usize>)
    ensures
        match r {
            Some(e) => short_number_end(v@, p as int, |c: char| is_space(c)) == Some(e as int) && p < e,
            None => short_number_end(v@, p as int, |c: char| is_space(c)) is None,
        },
{
    let n = v.len();
    if p < n && n - p > 1 && is_digit_char(v[p]) && is_space_char(v[p + 1]) {
        Some(p + 1)
    } else if p < n && n - p > 2 && is_digit_char(v[p]) && is_digit_char(v[p + 1]) && is_space_char(
        v[p + 2],
    ) {
        Some(p + 2)
    } else {
        None
    }
}

/// Where one or two digits from `p` end, when a `:` follows them.
fn short_number_then_colon(v: &[char], p: usize) -> (r: Option<usize>)
    ensures
        match r {
            Some(e) => short_number_end(v@, p as int, |c: char| c == ':') == Some(e as int) && p < e,
            None => short_number_end(v@, p as int, |c: char| c == ':') is None,
        },
{
    let n = v.len();
    if p < n && n - p > 1 && is_digit_char(v[p]) && v[p + 1] == ':' {
        Some(p + 1)
    } else if p < n && n - p > 2 && is_digit_char(v[p]) && is_digit_char(v[p + 1]) && v[p + 2]
        == ':' {
        Some(p + 2)
    } else {
        None
    }
}

/// Where a date and time that starts at `p` ends.
fn datetime_end_at(v: &[char], p: usize, months: &Vec<Vec<char>>) -> (r: Option<usize>)
    requires
        months.len() == 12,
        forall|k: int| 0 <= k < 12 ==> (#[trigger] months[k])@ == month_names()[k],
    ensures
        match r {
            Some(e) => datetime_end(v@, p as int) == Some(e as int) && p < e <= v@.len(),
            None => datetime_end(v@, p as int) is None,
        },
{
    let n = v.len();
    let d = match short_number_then_space(v, p) {
        Some(d) => d,
        None => {
            return None;
        },
    };
    let ms = skip_spaces(v, d);
    proof {
        lemma_skip_space_bounds(v@, d as int);
    }
    let m = match month_end_at(v, ms, months) {
        Some(m) => m,
        None => {
            return None;
        },
    };
    if !(m < n && is_space_char(v[m])) {
        return None;
    }
    let y = skip_spaces(v, m);
    proof {
        lemma_skip_space_bounds(v@, m as int);
    }
    if !(y <= n && n - y >= 5 && all_digits(v, y, y + 4) && is_space_char(v[y + 4])) {
        return None;
    }
    let t = skip_spaces(v, y + 4);
    proof {
        lemma_skip_space_bounds(v@, y + 4);
    }
    let h = match short_number_then_colon(v, t) {
        Some(h) => h,
        None => {
            return None;
        },
    };
    if h <= n && n - h >= 6 && all_digits(v, h + 1, h + 3) && v[h + 3] == ':' && all_digits(v, h + 4, h + 6) {
        Some(h + 6)
    } else {
        None
    }
}

/// The leftmost kind keyword, with its kind.
fn find_kind(line: &[char]) -> (r: Option<(usize, ClippingType)>)
    ensures
        match r {
            Some((p, k)) => kind_pos(line@) == Some(p as int) && kind_at(line@, p as int) == Some(k),
            None => kind_pos(line@) is None,
        },
{
    let bookmark = chars_of("Bookmark");
    let highlight = chars_of("Highlight");
    let note = chars_of("Note");
    let mut p: usize = 0;
    while p < line.len()
        invariant
            p <= line.len(),
            bookmark@ == "Bookmark"@,
            highlight@ == "Highlight"@,
            note@ == "Note"@,
            forall|q: int| 0 <= q < p ==> kind_at(line@, q) is None,
        decreases line.len() - p,
    {
        let found = if has_word_at(line, p, bookmark.as_slice()) {
            Some(ClippingType::Bookmark)
        } else if has_word_at(line, p, highlight.as_slice()) {
            Some(ClippingType::Highlight)
        } else if has_word_at(line, p, note.as_slice()) {
            Some(ClippingType::Note)
        } else {
            None
        };
        if let Some(kind) = found {
            proof {
                lemma_leftmost_some(line@.len() as int, |q: int| kind_at(line@, q) is Some, p as int);
            }
            return Some((p, kind));
        }
        p = p + 1;
    }
    proof {
        lemma_leftmost_none(line@.len() as int, |q: int| kind_at(line@, q) is Some);
    }
    None
}

/// The leftmost `page ` that a digit follows.
fn find_page(line: &[char]) -> (r: Option<usize>)
    ensures
        match r {
            Some(p) => page_pos(line@) == Some(p as int) && page_at(line@, p as int) && p + 5 < line.len(),
            None => page_pos(line@) is None,
        },
{
    let word = chars_of("page ");
    let n = line.len();
    let mut p: usize = 0;
    while p < n
        invariant
            p <= n == line@.len(),
            word@ == "page "@,
            forall|q: int| 0 <= q < p ==> !page_at(line@, q),
        decreases n - p,
    {
        if has_word_at(line, p, word.as_slice()) && n - p > 5 && is_digit_char(line[p + 5]) {
            proof {
                lemma_leftmost_some(n as int, |q: int| page_at(line@, q), p as int);
            }
            return Some(p);
        }
        p = p + 1;
    }
    proof {
        lemma_leftmost_none(n as int, |q: int| page_at(line@, q));
    }
    None
}

/// The leftmost `Location <digits>-<digits>`.
fn find_range(line: &[char]) -> (r: Option<usize>)
    ensures
        match r {
            Some(p) => range_pos(line@) == Some(p as int) && range_at(line@, p as int) && p + 9 < line.len(),
            None => range_pos(line@) is None,
        },
{
    let word = chars_of("Location ");
    let n = line.len();
    let mut p: usize = 0;
    while p < n
        invariant
            p <= n == line@.len(),
            word@ == "Location "@,
            forall|q: int| 0 <= q < p ==> !range_at(line@, q),
        decreases n - p,
    {
        if has_word_at(line, p, word.as_slice()) && n - p > 9 && is_digit_char(line[p + 9]) {
            proof {
                lemma_digits_end_bounds(line@, p + 9);
            }
            let m = skip_digits(line, p + 9);
            if n - m > 1 && line[m] == '-' && is_digit_char(line[m + 1]) {
                proof {
                    lemma_leftmost_some(n as int, |q: int| range_at(line@, q), p as int);
                }
                return Some(p);
            }
        }
        p = p + 1;
    }
    proof {
        lemma_leftmost_none(n as int, |q: int| range_at(line@, q));
    }
    None
}

/// The leftmost `Location ` that a digit follows.
fn find_point(line: &[char]) -> (r: Option<usize>)
    ensures
        match r {
            Some(p) => point_pos(line@) == Some(p as int) && point_at(line@, p as int) && p + 9 < line.len(),
            None => point_pos(line@) is None,
        },
{
    let word = chars_of("Location ");
    let n = line.len();
    let mut p: usize = 0;
    while p < n
        invariant
            p <= n == line@.len(),
            word@ == "Location "@,
            forall|q: int| 0 <= q < p ==> !point_at(line@, q),
        decreases n - p,
    {
        if has_word_at(line, p, word.as_slice()) && n - p > 9 && is_digit_char(line[p + 9]) {
            proof {
                lemma_leftmost_some(n as int, |q: int| point_at(line@, q), p as int);
            }
            return Some(p);
        }
        p = p + 1;
    }
    proof {
        lemma_leftmost_none(n as int, |q: int| point_at(line@, q));
    }
    None
}

/// The day whose name stands at `p`.
fn day_name_at_exec(v: &[char], p: usize, names: &Vec<Vec<char>>) -> (r: Option<Weekday>)
    requires
        names.len() == 7,
        names[0]@ == "Monday"@,
        names[1]@ == "Tuesday"@,
        names[2]@ == "Wednesday"@,
        names[3]@ == "Thursday"@,
        names[4]@ == "Friday"@,
        names[5]@ == "Saturday"@,
        names[6]@ == "Sunday"@,
    ensures
        r == day_name_at(v@, p as int),
{
    if has_word_at(v, p, names[0].as_slice()) {
        Some(Weekday::Monday)
    } else if has_word_at(v, p, names[1].as_slice()) {
        Some(Weekday::Tuesday)
    } else if has_word_at(v, p, names[2].as_slice()) {
        Some(Weekday::Wednesday)
    } else if has_word_at(v, p, names[3].as_slice()) {
        Some(Weekday::Thursday)
    } else if has_word_at(v, p, names[4].as_slice()) {
        Some(Weekday::Friday)
    } else if has_word_at(v, p, names[5].as_slice()) {
        Some(Weekday::Saturday)
    } else if has_word_at(v, p, names[6].as_slice()) {
        Some(Weekday::Sunday)
    } else {
        None
    }
}

/// The leftmost `Added on ` that a day name follows, with that day.
fn find_weekday(line: &[char]) -> (r: Option<(usize, Weekday)>)
    ensures
        match r {
            Some((p, d)) => weekday_pos(line@) == Some(p as int) && weekday_at(line@, p as int) == Some(d),
            None => weekday_pos(line@) is None,
        },
{
    let word = chars_of("Added on ");
    let names = vec![
        chars_of("Monday"),
        chars_of("Tuesday"),
        chars_of("Wednesday"),
        chars_of("Thursday"),
        chars_of("Friday"),
        chars_of("Saturday"),
        chars_of("Sunday"),
    ];
    let n = line.len();
    let mut p: usize = 0;
    while p < n
        invariant
            p <= n == line@.len(),
            word@ == "Added on "@,
            names.len() == 7,
            names[0]@ == "Monday"@,
            names[1]@ == "Tuesday"@,
            names[2]@ == "Wednesday"@,
            names[3]@ == "Thursday"@,
            names[4]@ == "Friday"@,
            names[5]@ == "Saturday"@,
            names[6]@ == "Sunday"@,
            forall|q: int| 0 <= q < p ==> weekday_at(line@, q) is None,
        decreases n - p,
    {
        if has_word_at(line, p, word.as_slice()) && n - p >= 9 {
            if let Some(d) = day_name_at_exec(line, p + 9, &names) {
                proof {
                    lemma_leftmost_some(n as int, |q: int| weekday_at(line@, q) is Some, p as int);
                }
                return Some((p, d));
            }
        }
        p = p + 1;
    }
    proof {
        lemma_leftmost_none(n as int, |q: int| weekday_at(line@, q) is Some);
    }
    None
}

/// The leftmost date and time, with where it ends.
fn find_datetime(line: &[char]) -> (r: Option<(usize, usize)>)
    ensures
        match r {
            Some((p, e)) => datetime_pos(line@) == Some(p as int) && datetime_end(line@, p as int)
                == Some(e as int) && p < e <= line@.len(),
            None => datetime_pos(line@) is None,
        },
{
    let months = month_table();
    let n = line.len();
    let mut p: usize = 0;
    while p < n
        invariant
            p <= n == line@.len(),
            months.len() == 12,
            forall|k: int| 0 <= k < 12 ==> (#[trigger] months[k])@ == month_names()[k],
            forall|q: int| 0 <= q < p ==> datetime_end(line@, q) is None,
        decreases n - p,
    {
        if let Some(e) = datetime_end_at(line, p, &months) {
            proof {
                lemma_leftmost_some(n as int, |q: int| datetime_end(line@, q) is Some, p as int);
            }
            return Some((p, e));
        }
        p = p + 1;
    }
    proof {
        lemma_leftmost_none(n as int, |q: int| datetime_end(line@, q) is Some);
    }
    None
}

/// The non-blank lines of `v`, in order.
fn lines_of(v: &[char]) -> (r: Vec<Vec<char>>)
    ensures
        r.len() == content_lines(v@).len(),
        forall|k: int| 0 <= k < r.len() ==> (#[trigger] r[k])@ == content_lines(v@)[k],
{
    let n = v.len();
    let mut out: Vec<Vec<char>> = Vec::new();
    let ghost done: Seq<Seq<char>> = Seq::empty();
    let mut start: usize = 0;
    let mut i: usize = 0;
    while i < n
        invariant
            start <= i <= n == v@.len(),
            out.len() == done.len(),
            forall|k: int| 0 <= k < out.len() ==> (#[trigger] out[k])@ == done[k],
            done + lines_scan(v@, start as int, i as int) == content_lines(v@),
        decreases n - i,
    {
        if v[i] == '\n' {
            let end = if start < i && v[i - 1] == '\r' {
                i - 1
            } else {
                i
            };
            let piece = slice_of(v, start, end);
            assert(piece@ == line_piece(v@, start as int, i as int, true));
            proof {
                assert(done + lines_scan(v@, start as int, i as int) == done + (keep_nonblank(piece@)
                    + lines_scan(v@, i + 1, i + 1)));
            }
            if !is_blank_chars(piece.as_slice()) {
                proof {
                    assert(done + (keep_nonblank(piece@) + lines_scan(v@, i + 1, i + 1)) =~= done.push(
                        piece@,
                    ) + lines_scan(v@, i + 1, i + 1));
                    done = done.push(piece@);
                }
                out.push(piece);
            } else {
                proof {
                    assert(done + (keep_nonblank(piece@) + lines_scan(v@, i + 1, i + 1)) =~= done
                        + lines_scan(v@, i + 1, i + 1));
                }
            }
            start = i + 1;
        }
        i = i + 1;
    }
    if start < n {
        let piece = slice_of(v, start, n);
        if !is_blank_chars(piece.as_slice()) {
            proof {
                done = done.push(piece@);
            }
            out.push(piece);
        }
    }
    proof {
        assert(done =~= content_lines(v@));
    }
    out
}

/// The non-blank pieces of `v` between separator lines, in order.
fn blocks_of(v: &[char]) -> (r: Vec<Vec<char>>)
    ensures
        r.len() == entry_blocks(v@).len(),
        forall|k: int| 0 <= k < r.len() ==> (#[trigger] r[k])@ == entry_blocks(v@)[k],
{
    let sep = vec!['=', '=', '=', '=', '=', '=', '=', '=', '=', '='];
    proof {
        assert(sep@ =~= separator());
    }
    let n = v.len();
    let mut out: Vec<Vec<char>> = Vec::new();
    let ghost done: Seq<Seq<char>> = Seq::empty();
    let mut start: usize = 0;
    let mut i: usize = 0;
    while i < n
        invariant
            start <= i <= n == v@.len(),
            sep@ == separator(),
            out.len() == done.len(),
            forall|k: int| 0 <= k < out.len() ==> (#[trigger] out[k])@ == done[k],
            done + blocks_scan(v@, start as int, i as int) == entry_blocks(v@),
        decreases n - i,
    {
        if has_word_at(v, i, sep.as_slice()) && (i == 0 || v[i - 1] == '\n') && (n - i == 10 || v[i
            + 10] == '\n' || (n - i > 11 && v[i + 10] == '\r' && v[i + 11] == '\n')) {
            let piece = slice_of(v, start, i);
            proof {
                assert(done + blocks_scan(v@, start as int, i as int) == done + (keep_nonblank(piece@)
                    + blocks_scan(v@, i + 10, i + 10)));
            }
            if !is_blank_chars(piece.as_slice()) {
                proof {
                    assert(done + (keep_nonblank(piece@) + blocks_scan(v@, i + 10, i + 10)) =~= done.push(
                        piece@,
                    ) + blocks_scan(v@, i + 10, i + 10));
                    done = done.push(piece@);
                }
                out.push(piece);
            } else {
                proof {
                    assert(done + (keep_nonblank(piece@) + blocks_scan(v@, i + 10, i + 10)) =~= done
                        + blocks_scan(v@, i + 10, i + 10));
                }
            }
            i = i + 10;
            start = i;
        } else {
            i = i + 1;
        }
    }
    let piece = slice_of(v, start, n);
    if !is_blank_chars(piece.as_slice()) {
        proof {
            done = done.push(piece@);
        }
        out.push(piece);
    }
    proof {
        assert(done =~= entry_blocks(v@));
    }
    out
}

impl Clipping {
    /// Title and author from the first line of an entry.
    fn parse_title_and_author(line: &[char]) -> (r: Result<(String, String), ParseError>)
        ensures
            match r {
                Ok((t, a)) => title_author_of(line@) == Ok::<_, ParseErrorView>((t@, a@)),
                Err(e) => title_author_of(line@) == Err::<(Seq<char>, Seq<char>), _>(e@),
            },
    {
        let n = line.len();
        let mut i: usize = 1;
        while i < n
            invariant
                1 <= i,
                n == line@.len(),
                forall|q: int| 0 <= q < i ==> !title_break_at(line@, q),
            decreases n - i,
        {
            if is_space_char(line[i]) && line[n - 1] == ')' {
                let j = skip_spaces(line, i);
                proof {
                    lemma_skip_space_bounds(line@, i as int);
                }
                if j < n - 2 && line[j] == '(' {
                    proof {
                        lemma_leftmost_some(n as int, |q: int| title_break_at(line@, q), i as int);
                    }
                    let title = trim_chars(&slice_of(line, 0, i));
                    let author = trim_chars(&slice_of(line, j + 1, n - 1));
                    return Ok((string_of(title.as_slice()), string_of(author.as_slice())));
                }
            }
            i = i + 1;
        }
        proof {
            lemma_leftmost_none(n as int, |q: int| title_break_at(line@, q));
        }
        Err(ParseError::InvalidFormat(message("Expected 'Title (Author)' format, got: ", line)))
    }

    /// The kind from the metadata line.
    fn parse_type(line: &[char]) -> (r: Result<ClippingType, ParseError>)
        ensures
            agrees(r, kind_of(line@)),
    {
        match find_kind(line) {
            Some((_, kind)) => Ok(kind),
            None => Err(ParseError::InvalidFormat(message("Failed to parse clipping type: ", line))),
        }
    }

    /// The page from the metadata line, if it has one.
    fn parse_page(line: &[char]) -> (r: Result<Option<u32>, ParseError>)
        ensures
            agrees(r, page_of(line@)),
    {
        match find_page(line) {
            Some(p) => {
                proof {
                    lemma_digits_end_bounds(line@, p + 5);
                }
                let e = skip_digits(line, p + 5);
                match parse_decimal(line, p + 5, e) {
                    Some(page) => Ok(Some(page)),
                    None => Err(ParseError::InvalidFormat(message("Invalid page: ", &slice_of(line, p + 5, e)))),
                }
            },
            None => Ok(None),
        }
    }

    /// The location from the metadata line.
    fn parse_location(line: &[char]) -> (r: Result<Location, ParseError>)
        ensures
            agrees(r, location_of(line@)),
    {
        if let Some(p) = find_range(line) {
            proof {
                lemma_digits_end_bounds(line@, p + 9);
            }
            let m = skip_digits(line, p + 9);
            proof {
                lemma_digits_end_bounds(line@, m + 1);
            }
            let e = skip_digits(line, m + 1);
            let start = match parse_decimal(line, p + 9, m) {
                Some(x) => x,
                None => {
                    return Err(ParseError::InvalidFormat(message("Invalid start location: ", &slice_of(line, p + 9, m))));
                },
            };
            return match parse_decimal(line, m + 1, e) {
                Some(y) => Ok(Location { start, end: Some(y) }),
                None => Err(ParseError::InvalidFormat(message("Invalid end location: ", &slice_of(line, m + 1, e)))),
            };
        }
        match find_point(line) {
            Some(p) => {
                proof {
                    lemma_digits_end_bounds(line@, p + 9);
                }
                let m = skip_digits(line, p + 9);
                match parse_decimal(line, p + 9, m) {
                    Some(x) => Ok(Location { start: x, end: None }),
                    None => Err(ParseError::InvalidFormat(message("Invalid start location: ", &slice_of(line, p + 9, m)))),
                }
            },
            None => Err(ParseError::InvalidFormat(message("Failed to parse location: ", line))),
        }
    }

    /// The weekday from the metadata line.
    fn parse_weekday(line: &[char]) -> (r: Result<Weekday, ParseError>)
        ensures
            agrees(r, weekday_of(line@)),
    {
        match find_weekday(line) {
            Some((_, d)) => Ok(d),
            None => Err(ParseError::InvalidFormat(message("Failed to parse weekday: ", line))),
        }
    }

    /// The date and time from the metadata line, as written.
    fn parse_datetime(line: &[char]) -> (r: Result<String, ParseError>)
        ensures
            match r {
                Ok(d) => datetime_of(line@) == Ok::<_, ParseErrorView>(d@),
                Err(e) => datetime_of(line@) == Err::<Seq<char>, _>(e@),
            },
    {
        match find_datetime(line) {
            Some((p, e)) => {
                Ok(string_of(slice_of(line, p, e).as_slice()))
            },
            None => Err(ParseError::InvalidFormat(message("Failed to parse datetime: ", line))),
        }
    }
    /// Parses one clipping from the text of one entry.
    pub fn from_text(text: &str) -> (r: Result<Self, ParseError>)
        ensures
            match r {
                Ok(c) => clipping_of(text@) == Ok::<_, ParseErrorView>(c@),
                Err(e) => clipping_of(text@) == Err::<ClippingView, _>(e@),
            },
            r is Ok ==> (r->Ok_0.content is None <==> r->Ok_0.clipping_type == ClippingType::Bookmark),
    {
        let v = chars_of(text);
        Self::from_chars(v.as_slice())
    }

    /// Parses one clipping from the characters of one entry.
    fn from_chars(text: &[char]) -> (r: Result<Self, ParseError>)
        ensures
            match r {
                Ok(c) => clipping_of(text@) == Ok::<_, ParseErrorView>(c@),
                Err(e) => clipping_of(text@) == Err::<ClippingView, _>(e@),
            },
            r is Ok ==> (r->Ok_0.content is None <==> r->Ok_0.clipping_type == ClippingType::Bookmark),
    {
        let lines = lines_of(text);
        if lines.len() == 0 {
            return Err(ParseError::MissingField(string_of(chars_of("title/author").as_slice())));
        }
        let (book_title, author) = match Self::parse_title_and_author(lines[0].as_slice()) {
            Ok(ta) => ta,
            Err(e) => {
                return Err(e);
            },
        };
        if lines.len() < 2 {
            return Err(ParseError::MissingField(string_of(chars_of("metadata").as_slice())));
        }
        let meta = lines[1].as_slice();
        let clipping_type = match Self::parse_type(meta) {
            Ok(k) => k,
            Err(e) => {
                return Err(e);
            },
        };
        let page = match Self::parse_page(meta) {
            Ok(p) => p,
            Err(e) => {
                return Err(e);
            },
        };
        let location = match Self::parse_location(meta) {
            Ok(l) => l,
            Err(e) => {
                return Err(e);
            },
        };
        let weekday = match Self::parse_weekday(meta) {
            Ok(d) => d,
            Err(e) => {
                return Err(e);
            },
        };
        let datetime = match Self::parse_datetime(meta) {
            Ok(d) => d,
            Err(e) => {
                return Err(e);
            },
        };
        let content = if clipping_type == ClippingType::Bookmark {
            None
        } else {
            if lines.len() < 3 {
                return Err(ParseError::MissingField(string_of(chars_of("content").as_slice())));
            }
            Some(string_of(lines[2].as_slice()))
        };
        Ok(Clipping { clipping_type, book_title, author, page, location, datetime, weekday, content })
    }
}

impl Clipping {
    /// The clipping as text, one field per line; a missing page or content reads `N/A`.
    pub fn describe(&self) -> (r: String)
        ensures
            r@ == clipping_text(self@),
    {
        let mut v = chars_of("Book: ");
        push_all(&mut v, chars_of(self.book_title.as_str()).as_slice());
        push_all(&mut v, chars_of("\nAuthor: ").as_slice());
        push_all(&mut v, chars_of(self.author.as_str()).as_slice());
        push_all(&mut v, chars_of("\nLocation: ").as_slice());
        push_all(&mut v, chars_of(self.location.describe().as_str()).as_slice());
        push_all(&mut v, chars_of("\nDate: ").as_slice());
        push_all(&mut v, chars_of(self.datetime.as_str()).as_slice());
        push_all(&mut v, chars_of(" (").as_slice());
        push_all(&mut v, chars_of(self.weekday.name().as_str()).as_slice());
        push_all(&mut v, chars_of(")\nPage: ").as_slice());
        match self.page {
            Some(p) => push_decimal(p as u64, &mut v),
            None => push_all(&mut v, chars_of("N/A").as_slice()),
        }
        push_all(&mut v, chars_of("\nContent: ").as_slice());
        match &self.content {
            Some(t) => push_all(&mut v, chars_of(t.as_str()).as_slice()),
            None => push_all(&mut v, chars_of("N/A").as_slice()),
        }
        string_of(v.as_slice())
    }
}

impl ParseError {
    /// The message of the error, as it is shown to a reader.
    pub fn describe(&self) -> (r: String)
        ensures
            r@ == describe_view(self@),
    {
        match self {
            ParseError::InvalidFormat(m) => message("Invalid format: ", chars_of(m.as_str()).as_slice()),
            ParseError::MissingField(f) => message("Missing field: ", chars_of(f.as_str()).as_slice()),
            ParseError::InvalidWeekday(d) => message("Invalid weekday: ", chars_of(d.as_str()).as_slice()),
        }
    }
}

/// The error that reports entry number `n` (counted from one) failing with `e`.
fn entry_failure(n: usize, e: &ParseError) -> (r: ParseError)
    ensures
        r@ == entry_error(n as nat, e@),
{
    let mut v = chars_of("Failed to parse clipping #");
    push_decimal(n as u64, &mut v);
    push_all(&mut v, chars_of(": ").as_slice());
    let prefix = string_of(v.as_slice());
    let d = e.describe();
    let text = message(prefix.as_str(), chars_of(d.as_str()).as_slice());
    ParseError::InvalidFormat(text)
}

/// Parses every clipping of a file, in order; stops at the first entry that fails.
pub fn parse_clippings(contents: &str) -> (r: Result<Vec<Clipping>, ParseError>)
    ensures
        match r {
            Ok(v) => clippings_of(contents@) == Ok::<_, ParseErrorView>(views(v@)),
            Err(e) => clippings_of(contents@) == Err::<Seq<ClippingView>, _>(e@),
        },
        r is Ok ==> forall|i: int| 0 <= i < r->Ok_0.len() ==> ((#[trigger] r->Ok_0[i]).content is None
            <==> r->Ok_0[i].clipping_type == ClippingType::Bookmark),
{
    let chars = chars_of(contents);
    let blocks = blocks_of(chars.as_slice());
    let ghost bs = entry_blocks(contents@);
    let mut out: Vec<Clipping> = Vec::new();
    let mut k: usize = 0;
    while k < blocks.len()
        invariant
            k <= blocks.len() == bs.len(),
            bs == entry_blocks(contents@),
            forall|j: int| 0 <= j < blocks.len() ==> (#[trigger] blocks[j])@ == bs[j],
            out.len() == k,
            forall|j: int| 0 <= j < k ==> clipping_of(#[trigger] bs[j]) == Ok::<_, ParseErrorView>(out[j]@),
            forall|j: int| 0 <= j < k ==> ((#[trigger] out[j]).content is None <==> out[j].clipping_type
                == ClippingType::Bookmark),
        decreases blocks.len() - k,
    {
        match Clipping::from_chars(blocks[k].as_slice()) {
            Ok(c) => {
                out.push(c);
            },
            Err(e) => {
                proof {
                    assert forall|j: int| 0 <= j < k implies !(clipping_of(bs[j]) is Err) by {
                        assert(clipping_of(bs[j]) == Ok::<_, ParseErrorView>(out[j]@));
                    }
                    lemma_leftmost_some(bs.len() as int, |j: int| clipping_of(bs[j]) is Err, k as int);
                }
                return Err(entry_failure(k + 1, &e));
            },
        }
        k = k + 1;
    }
    proof {
        assert forall|j: int| 0 <= j < bs.len() implies !(clipping_of(bs[j]) is Err) by {
            assert(clipping_of(bs[j]) == Ok::<_, ParseErrorView>(out[j]@));
        }
        lemma_leftmost_none(bs.len() as int, |j: int| clipping_of(bs[j]) is Err);
        assert(views(out@) =~= Seq::new(bs.len(), |j: int| clipping_of(bs[j])->Ok_0));
    }
    Ok(out)
}

} // verus!