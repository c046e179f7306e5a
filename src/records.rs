//! The record list: one row per output document, read from delimited text.

use vstd::prelude::*;
use crate::decimal::{parse_u32_chars, parse_u32_spec};
use crate::ids::{format_id, id_text};
use crate::text::{
    contains_chars, seq_contains, split_chars, split_on, string_of, trim, trim_chars, views,
    chars_of,
};

verus! {

/// One output document: its identifier and the two links a QR code may carry.
pub struct Record {
    pub id: String,
    pub url_primary: String,
    pub url_secondary: String,
}

impl View for Record {
    type V = (Seq<char>, Seq<char>, Seq<char>);

    open spec fn view(&self) -> Self::V {
        (self.id@, self.url_primary@, self.url_secondary@)
    }
}

pub open spec fn record_views(v: Seq<Record>) -> Seq<(Seq<char>, Seq<char>, Seq<char>)> {
    v.map_values(|r: Record| r@)
}

/// The lines of a text: the pieces between newlines, without the empty piece after a final
/// newline. A carriage return before a newline stays on its line and counts as whitespace.
pub open spec fn lines_of(s: Seq<char>) -> Seq<Seq<char>> {
    let p = split_on(s, '\n');
    if p.last().len() == 0 {
        p.drop_last()
    } else {
        p
    }
}

/// The column delimiter: `;` if the first line that holds `;` or `,` holds a `;`, else `,`.
pub open spec fn delimiter_of(lines: Seq<Seq<char>>) -> char
    decreases lines.len(),
{
    if lines.len() == 0 {
        ','
    } else if seq_contains(trim(lines[0]), seq![';']) {
        ';'
    } else if seq_contains(trim(lines[0]), seq![',']) {
        ','
    } else {
        delimiter_of(lines.drop_first())
    }
}

/// The record a data row stands for, if it has one: three columns (identifier, primary and
/// secondary link) or, in the older layout, two (identifier and one link for both). Every
/// used column must be non-empty and the identifier an unsigned number.
pub open spec fn row_record(line: Seq<char>, d: char) -> Option<(Seq<char>, Seq<char>, Seq<char>)> {
    let l = trim(line);
    let parts = split_on(l, d);
    if l.len() == 0 {
        None
    } else if parts.len() >= 3 {
        let id = trim(parts[0]);
        let a = trim(parts[1]);
        let b = trim(parts[2]);
        if id.len() > 0 && a.len() > 0 && b.len() > 0 && parse_u32_spec(id) is Some {
            Some((id_text(parse_u32_spec(id)->0 as nat), a, b))
        } else {
            None
        }
    } else if parts.len() == 2 {
        let id = trim(parts[0]);
        let a = trim(parts[1]);
        if id.len() > 0 && a.len() > 0 && parse_u32_spec(id) is Some {
            Some((id_text(parse_u32_spec(id)->0 as nat), a, a))
        } else {
            None
        }
    } else {
        None
    }
}

/// The records of the rows, in order, with rows that stand for none left out.
pub open spec fn rows_records(rows: Seq<Seq<char>>, d: char) -> Seq<(Seq<char>, Seq<char>, Seq<char>)>
    decreases rows.len(),
{
    if rows.len() == 0 {
        Seq::empty()
    } else {
        let prev = rows_records(rows.drop_last(), d);
        match row_record(rows.last(), d) {
            Some(r) => prev.push(r),
            None => prev,
        }
    }
}

/// The records of a whole text: its first line is a header and is skipped.
pub open spec fn records_of(content: Seq<char>) -> Seq<(Seq<char>, Seq<char>, Seq<char>)> {
    let lines = lines_of(content);
    if lines.len() == 0 {
        Seq::empty()
    } else {
        rows_records(lines.drop_first(), delimiter_of(lines))
    }
}

/// Picks the column delimiter of the text's lines.
pub fn detect_delimiter(lines: &Vec<Vec<char>>) -> (d: char)
    ensures
        d == delimiter_of(views(lines@)),
{
    let semi: Vec<char> = vec![';'];
    let comma: Vec<char> = vec![','];
    let mut i: usize = 0;
    assert(views(lines@).subrange(0, lines.len() as int) =~= views(lines@));
    while i < lines.len()
        invariant
            i <= lines.len(),
            semi@ == seq![';'],
            comma@ == seq![','],
            delimiter_of(views(lines@)) == delimiter_of(views(lines@).subrange(i as int, lines.len() as int)),
        decreases lines.len() - i,
    {
        let ghost rest = views(lines@).subrange(i as int, lines.len() as int);
        assert(rest[0] == lines@[i as int]@);
        let l = trim_chars(lines[i].as_slice());
        if contains_chars(l.as_slice(), semi.as_slice()) {
            return ';';
        }
        if contains_chars(l.as_slice(), comma.as_slice()) {
            return ',';
        }
        assert(rest.drop_first() =~= views(lines@).subrange(i + 1, lines.len() as int));
        i += 1;
    }
    ','
}

/// The record of one data row, if it has one.
pub fn parse_row(line: &[char], d: char) -> (r: Option<Record>)
    ensures
        match r {
            Some(rec) => row_record(line@, d) == Some(rec@),
            None => row_record(line@, d) is None,
        },
{
    let l = trim_chars(line);
    if l.len() == 0 {
        return None;
    }
    let parts = split_chars(l.as_slice(), d);
    assert(views(parts@)[0] == parts@[0]@);
    if parts.len() >= 3 {
        assert(views(parts@)[1] == parts@[1]@);
        assert(views(parts@)[2] == parts@[2]@);
        let id = trim_chars(parts[0].as_slice());
        let a = trim_chars(parts[1].as_slice());
        let b = trim_chars(parts[2].as_slice());
        if id.len() == 0 || a.len() == 0 || b.len() == 0 {
            return None;
        }
        match parse_u32_chars(id.as_slice()) {
            Some(n) => Some(
                Record {
                    id: format_id(n),
                    url_primary: string_of(a.as_slice()),
                    url_secondary: string_of(b.as_slice()),
                },
            ),
            None => None,
        }
    } else if parts.len() == 2 {
        assert(views(parts@)[1] == parts@[1]@);
        let id = trim_chars(parts[0].as_slice());
        let a = trim_chars(parts[1].as_slice());
        if id.len() == 0 || a.len() == 0 {
            return None;
        }
        match parse_u32_chars(id.as_slice()) {
            Some(n) => Some(
                Record {
                    id: format_id(n),
                    url_primary: string_of(a.as_slice()),
                    url_secondary: string_of(a.as_slice()),
                },
            ),
            None => None,
        }
    } else {
        None
    }
}

/// Splits a text into its lines.
pub fn text_lines(s: &[char]) -> (r: Vec<Vec<char>>)
    ensures
        views(r@) == lines_of(s@),
{
    let mut pieces = split_chars(s, '\n');
    let last_len = pieces[pieces.len() - 1].len();
    assert(views(pieces@).last() == pieces@.last()@);
    if last_len == 0 {
        let ghost before = pieces@;
        pieces.pop();
        assert(views(pieces@) =~= views(before).drop_last());
    }
    pieces
}

/// Reads the record list from delimited text: the first line is a header; rows without a
/// record are dropped.
pub fn parse_records(content: &str) -> (r: Vec<Record>)
    ensures
        record_views(r@) == records_of(content@),
{
    let cs = chars_of(content);
    let lines = text_lines(cs.as_slice());
    let mut out: Vec<Record> = Vec::new();
    if lines.len() == 0 {
        assert(record_views(out@) =~= Seq::empty());
        return out;
    }
    let d = detect_delimiter(&lines);
    let ghost rows = views(lines@).drop_first();
    let mut i: usize = 1;
    assert(rows.subrange(0, 0) =~= Seq::<Seq<char>>::empty());
    assert(record_views(out@) =~= Seq::empty());
    while i < lines.len()
        invariant
            1 <= i <= lines.len(),
            rows == views(lines@).drop_first(),
            d == delimiter_of(views(lines@)),
            record_views(out@) == rows_records(rows.subrange(0, i - 1), d),
        decreases lines.len() - i,
    {
        assert(rows.subrange(0, i as int).drop_last() =~= rows.subrange(0, i - 1));
        assert(rows.subrange(0, i as int).last() == lines@[i as int]@);
        let ghost before = out@;
        match parse_row(lines[i].as_slice(), d) {
            Some(rec) => {
                out.push(rec);
                assert(record_views(out@) =~= record_views(before).push(rec@));
            },
            None => {},
        }
        i += 1;
    }
    assert(rows.subrange(0, lines.len() - 1) =~= rows);
    out
}

} // verus!
