//! Book records and the lines that store them: title, author and year,
//! with commas between.

use vstd::prelude::*;
use vstd::string::StringExecFns;
use crate::text::{chars_of, decimal, fields_of, parse_unsigned, parse_unsigned_spec, push_decimal,
    split_fields, string_of};

verus! {

/// A book on record.
#[derive(Debug, Clone, PartialEq, Eq)]
pub struct Book {
    pub title: String,
    pub author: String,
    pub year: u16,
}

/// A [`Book`] as a mathematical value.
pub struct BookView {
    pub title: Seq<char>,
    pub author: Seq<char>,
    pub year: nat,
}

impl View for Book {
    type V = BookView;

    open spec fn view(&self) -> BookView {
        BookView { title: self.title@, author: self.author@, year: self.year as nat }
    }
}

/// Why a line is no book record.
#[derive(Debug, Clone, Copy, PartialEq, Eq, Structural)]
pub enum LineError {
    /// The line does not have exactly three fields.
    FieldCount,
    /// The third field is not a year from 0 to 65535.
    Year,
}

/// The line that stores `book`.
pub open spec fn book_line(book: BookView) -> Seq<char> {
    book.title + seq![','] + book.author + seq![','] + decimal(book.year)
}

/// What a line stores: a book when the line has three fields and the third
/// is a year, and the reason why not otherwise.
pub open spec fn read_book_line(line: Seq<char>) -> Result<BookView, LineError> {
    let fields = fields_of(line, ',');
    if fields.len() != 3 {
        Err(LineError::FieldCount)
    } else {
        match parse_unsigned_spec(fields[2], u16::MAX as nat) {
            Some(year) => Ok(BookView { title: fields[0], author: fields[1], year }),
            None => Err(LineError::Year),
        }
    }
}

/// Writes `book` as a line, without the line's end.
pub fn format_book_line(book: &Book) -> (line: String)
    ensures
        line@ == book_line(book@),
{
    let mut line = book.title.clone();
    line.push(',');
    line.append(book.author.as_str());
    line.push(',');
    push_decimal(&mut line, book.year as u64);
    line
}

/// Reads one line as a book record.
pub fn parse_book_line(line: &str) -> (read: Result<Book, LineError>)
    ensures
        match read {
            Ok(book) => read_book_line(line@) == Ok::<BookView, LineError>(book@),
            Err(error) => read_book_line(line@) == Err::<BookView, LineError>(error),
        },
{
    let chars = chars_of(line);
    assert(chars@.subrange(0, chars.len() as int) == line@);
    let fields = split_fields(&chars, 0, chars.len(), ',');
    if fields.len() != 3 {
        return Err(LineError::FieldCount);
    }
    let (title_from, title_to) = fields[0];
    let (author_from, author_to) = fields[1];
    let (year_from, year_to) = fields[2];
    match parse_unsigned(&chars, year_from, year_to, u16::MAX as u64) {
        Some(year) => Ok(
            Book {
                title: string_of(&chars, title_from, title_to),
                author: string_of(&chars, author_from, author_to),
                year: year as u16,
            },
        ),
        None => Err(LineError::Year),
    }
}

} // verus!
