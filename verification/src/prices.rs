//! The text side of the price files and of the quote service's answer.

use vstd::prelude::*;
use crate::text::{chars_of, fields_of, first_separator, split_fields, string_of, trim, trimmed};

verus! {

/// Whether a price file needs its header line before the next row: when
/// the file was not there, or is empty.
pub fn needs_header(file_exists: bool, file_len: u64) -> (needed: bool)
    ensures
        needed == (!file_exists || file_len == 0),
{
    !file_exists || file_len == 0
}

/// The second line of `body`, without its line feed: nothing when `body`
/// has no line feed.
pub open spec fn second_line(body: Seq<char>) -> Option<Seq<char>> {
    let first_end = first_separator(body, '\n');
    if 0 <= first_end < body.len() {
        let rest = body.skip(first_end + 1);
        let second_end = first_separator(rest, '\n');
        if 0 <= second_end <= rest.len() {
            Some(rest.take(second_end))
        } else {
            None
        }
    } else {
        None
    }
}

/// The closing price in a quote answer, as text: the seventh field of the
/// second line, without the white space around it. Nothing when there is
/// no second line or it has fewer than seven fields.
pub open spec fn close_field(body: Seq<char>) -> Option<Seq<char>> {
    match second_line(body) {
        Some(line) => {
            let fields = fields_of(line, ',');
            if fields.len() >= 7 {
                Some(trimmed(fields[6]))
            } else {
                None
            }
        },
        None => None,
    }
}

/// Picks the closing price out of a quote answer; the text is left for the
/// caller to read as a number.
pub fn stooq_close_field(body: &str) -> (field: Option<String>)
    ensures
        match field {
            Some(text) => close_field(body@) == Some(text@),
            None => close_field(body@) is None,
        },
{
    let chars = chars_of(body);
    assert(chars@.subrange(0, chars.len() as int) == body@);
    let lines = split_fields(&chars, 0, chars.len(), '\n');
    proof {
        crate::text::lemma_fields_start(body@, '\n');
    }
    if lines.len() < 2 {
        return None;
    }
    let (line_from, line_to) = lines[1];
    let fields = split_fields(&chars, line_from, line_to, ',');
    if fields.len() < 7 {
        return None;
    }
    let (from, to) = fields[6];
    let (kept_from, kept_to) = trim(&chars, from, to);
    Some(string_of(&chars, kept_from, kept_to))
}

} // verus!
