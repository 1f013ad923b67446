//! Laws of the parser, stated over the model of the entry format and proved.
use vstd::prelude::*;

use crate::format::{
    blocks_scan, content_lines, entry_blocks, lemma_leftmost_hit, lemma_leftmost_miss,
    lemma_leftmost_none, lemma_leftmost_some, range_at, range_pos, separator_line_at,
};
use crate::parser::{
    clipping_of, clippings_of, entry_error, location_of, ClippingType, ClippingView, ParseErrorView,
};
use crate::text::{is_blank, is_space};

verus! {

/// A parsed clipping has content exactly when it is not a bookmark.
pub proof fn lemma_content_follows_kind(text: Seq<char>)
    ensures
        clipping_of(text) matches Ok(c) ==> (c.content is None <==> c.clipping_type
            == ClippingType::Bookmark),
{
}

/// A location gets an end only from a written `start-end` range: the end is
/// present exactly when the metadata line holds `Location <digits>-<digits>`.
pub proof fn lemma_end_only_from_range(line: Seq<char>)
    ensures
        location_of(line) matches Ok(l) ==> (l.end is Some <==> exists|p: int| range_at(line, p)),
{
    if range_pos(line) is Some {
        lemma_leftmost_hit(line.len() as int, |p: int| range_at(line, p));
    } else {
        lemma_leftmost_miss(line.len() as int, |p: int| range_at(line, p));
        assert forall|p: int| !range_at(line, p) by {
            let hit = |q: int| range_at(line, q);
            if range_at(line, p) {
                assert(0 <= p < line.len());
                assert(!hit(p));
            }
        }
    }
}

/// In a parsed clipping, the location has an end exactly when the entry's
/// metadata line (its second non-blank line) writes a `start-end` range.
pub proof fn lemma_clipping_end_only_from_range(text: Seq<char>)
    ensures
        clipping_of(text) matches Ok(c) ==> (c.location.end is Some <==> exists|p: int|
            range_at(content_lines(text)[1], p)),
{
    lemma_end_only_from_range(content_lines(text)[1]);
}

/// Parsing is a function of the text: equal texts give equal results.
pub proof fn lemma_parse_deterministic(a: Seq<char>, b: Seq<char>)
    requires
        a == b,
    ensures
        clippings_of(a) == clippings_of(b),
        clipping_of(a) == clipping_of(b),
{
}

proof fn lemma_blank_blocks(s: Seq<char>, start: int, i: int)
    requires
        is_blank(s),
        0 <= start <= i <= s.len(),
    ensures
        blocks_scan(s, start, i) == Seq::<Seq<char>>::empty(),
    decreases s.len() - i,
{
    if i >= s.len() {
        assert(is_blank(s.subrange(start, s.len() as int)));
    } else {
        if separator_line_at(s, i) {
            assert(s.subrange(i, i + 10)[0] == s[i]);
            assert(is_space(s[i]));
        }
        lemma_blank_blocks(s, start, i + 1);
    }
}

/// A file that is empty or holds only space has no entries, and parses to no clippings.
pub proof fn lemma_blank_file_is_empty(s: Seq<char>)
    requires
        is_blank(s),
    ensures
        entry_blocks(s).len() == 0,
        clippings_of(s) == Ok::<Seq<ClippingView>, ParseErrorView>(Seq::empty()),
{
    lemma_blank_blocks(s, 0, 0);
    let bs = entry_blocks(s);
    lemma_leftmost_none(bs.len() as int, |k: int| clipping_of(bs[k]) is Err);
    assert(Seq::new(bs.len(), |k: int| clipping_of(bs[k])->Ok_0) =~= Seq::<ClippingView>::empty());
}

/// Every character of `s` is space or belongs to a separator line.
#[verifier::opaque]
pub open spec fn only_blank_and_separators(s: Seq<char>) -> bool {
    forall|k: int|
        0 <= k < s.len() ==> is_space(#[trigger] s[k]) || exists|j: int|
            separator_line_at(s, j) && j <= k < j + 10
}

proof fn lemma_separator_chars(s: Seq<char>, j: int, k: int)
    requires
        separator_line_at(s, j),
        j <= k < j + 10,
    ensures
        s[k] == '=',
{
    assert(s.subrange(j, j + 10)[k - j] == s[k]);
}

/// Two separator lines never overlap.
proof fn lemma_separators_apart(s: Seq<char>, j: int, p: int)
    requires
        separator_line_at(s, j),
        separator_line_at(s, p),
        j < p,
    ensures
        j + 10 <= p,
{
    if p < j + 10 {
        lemma_separator_chars(s, j, p - 1);
    }
}

proof fn lemma_piece_is_blank(s: Seq<char>, start: int, i: int, k: int)
    requires
        only_blank_and_separators(s),
        0 <= start <= k < i <= s.len(),
        start == 0 || separator_line_at(s, start - 10),
        forall|j: int| start <= j < i ==> !separator_line_at(s, j),
    ensures
        is_space(s[k]),
{
    reveal(only_blank_and_separators);
    if !is_space(s[k]) {
        let j = choose|j: int| separator_line_at(s, j) && j <= k < j + 10;
        if j >= start {
            assert(!separator_line_at(s, j));
        } else {
            assert(start != 0);
            let p = start - 10;
            if j < p {
                lemma_separators_apart(s, j, p);
            } else if p < j {
                lemma_separators_apart(s, p, j);
            }
        }
    }
}

proof fn lemma_separated_blanks(s: Seq<char>, start: int, i: int)
    requires
        only_blank_and_separators(s),
        0 <= start <= i <= s.len(),
        start == 0 || separator_line_at(s, start - 10),
        forall|j: int| start <= j < i ==> !separator_line_at(s, j),
    ensures
        blocks_scan(s, start, i) == Seq::<Seq<char>>::empty(),
    decreases s.len() - i,
{
    if i >= s.len() {
        assert forall|k: int| 0 <= k < s.len() - start implies is_space(
            #[trigger] s.subrange(start, s.len() as int)[k],
        ) by {
            lemma_piece_is_blank(s, start, s.len() as int, start + k);
        }
    } else if separator_line_at(s, i) {
        assert forall|k: int| 0 <= k < i - start implies is_space(
            #[trigger] s.subrange(start, i)[k],
        ) by {
            lemma_piece_is_blank(s, start, i, start + k);
        }
        assert(i + 10 <= s.len());
        lemma_separated_blanks(s, i + 10, i + 10);
    } else {
        lemma_separated_blanks(s, start, i + 1);
    }
}

/// A file whose lines are all blank or separator lines has no entries, and
/// parses to no clippings.
pub proof fn lemma_separators_and_blanks_are_empty(s: Seq<char>)
    requires
        only_blank_and_separators(s),
    ensures
        entry_blocks(s).len() == 0,
        clippings_of(s) == Ok::<Seq<ClippingView>, ParseErrorView>(Seq::empty()),
{
    lemma_separated_blanks(s, 0, 0);
    let bs = entry_blocks(s);
    lemma_leftmost_none(bs.len() as int, |k: int| clipping_of(bs[k]) is Err);
    assert(Seq::new(bs.len(), |k: int| clipping_of(bs[k])->Ok_0) =~= Seq::<ClippingView>::empty());
}

/// Parsing stops at the first entry that fails: when the first entry parses and
/// the second does not, the whole file fails with the error of entry number two.
pub proof fn lemma_second_entry_fails_file(s: Seq<char>)
    requires
        entry_blocks(s).len() >= 2,
        clipping_of(entry_blocks(s)[0]) is Ok,
        clipping_of(entry_blocks(s)[1]) is Err,
    ensures
        clippings_of(s) == Err::<Seq<ClippingView>, ParseErrorView>(
            entry_error(2, clipping_of(entry_blocks(s)[1])->Err_0),
        ),
{
    let bs = entry_blocks(s);
    lemma_leftmost_some(bs.len() as int, |k: int| clipping_of(bs[k]) is Err, 1);
}

} // verus!
