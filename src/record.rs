use vstd::prelude::*;
use vstd::string::StringExecFns;

use crate::movie::{Movie, MovieView};
use crate::number::{int_text, int_text_within, parse_decimal_i32, parse_hex_i64};
use crate::text::{pieces, split_text, texts, trim_text, trimmed};

verus! {

/// Why a line of the catalog was skipped.
pub enum LineError {
    /// The first field is not a hexadecimal number that fits in `i64`.
    InvalidId,
    /// The line has fewer than four fields.
    MissingField,
    /// The fourth field is not a decimal number that fits in `i32`.
    InvalidRating { title: String },
}

/// The reason a line was skipped, as plain values.
pub enum LineFault {
    InvalidId,
    MissingField,
    InvalidRating(Seq<char>),
}

impl View for LineError {
    type V = LineFault;

    open spec fn view(&self) -> LineFault {
        match self {
            LineError::InvalidId => LineFault::InvalidId,
            LineError::MissingField => LineFault::MissingField,
            LineError::InvalidRating { title } => LineFault::InvalidRating(title@),
        }
    }
}

/// The diagnostic written for a skipped line.
pub open spec fn fault_message(f: LineFault) -> Seq<char> {
    match f {
        LineFault::InvalidId => "Invalid ID found for movie!"@,
        LineFault::MissingField => "Missing fields in movie line"@,
        LineFault::InvalidRating(title) => "Invalid FSK value for movie '"@ + title + "'"@,
    }
}

impl LineError {
    /// The diagnostic for this error.
    pub fn message(&self) -> (r: String)
        ensures
            r@ == fault_message(self@),
    {
        match self {
            LineError::InvalidId => String::from_str("Invalid ID found for movie!"),
            LineError::MissingField => String::from_str("Missing fields in movie line"),
            LineError::InvalidRating { title } => {
                let mut r = String::from_str("Invalid FSK value for movie '");
                r.append(title.as_str());
                r.append("'");
                r
            },
        }
    }
}

/// A catalog entry as plain values: the movie and its age rating.
pub open spec fn entry_view(e: (Movie, i32)) -> (MovieView, i32) {
    (e.0@, e.1)
}

/// What parsing gave, as plain values.
pub open spec fn parsed_view(r: Result<(Movie, i32), LineError>) -> Result<(MovieView, i32), LineFault> {
    match r {
        Ok(e) => Ok(entry_view(e)),
        Err(e) => Err(e@),
    }
}

/// The entry that trimmed fields `id, title, director, rating` give: the id in
/// hexadecimal, the rating in decimal; fields past the fourth are ignored. The id
/// is judged before the number of fields.
pub open spec fn fields_entry(f: Seq<Seq<char>>) -> Result<(MovieView, i32), LineFault> {
    let id_text = if f.len() > 0 { f[0] } else { Seq::<char>::empty() };
    if !int_text_within(id_text, 16, i64::MIN as int, i64::MAX as int) {
        Err(LineFault::InvalidId)
    } else if f.len() < 4 {
        Err(LineFault::MissingField)
    } else if !int_text_within(f[3], 10, i32::MIN as int, i32::MAX as int) {
        Err(LineFault::InvalidRating(f[1]))
    } else {
        Ok(
            (
                MovieView { id: int_text(id_text, 16)->0 as i64, title: f[1], director: f[2] },
                int_text(f[3], 10)->0 as i32,
            ),
        )
    }
}

/// The comma-separated fields of a catalog line, each trimmed.
pub open spec fn line_fields(line: Seq<char>) -> Seq<Seq<char>> {
    pieces(line, seq![',']).map_values(|p: Seq<char>| trimmed(p))
}

/// The entry that a catalog line gives.
pub open spec fn line_entry(line: Seq<char>) -> Result<(MovieView, i32), LineFault> {
    fields_entry(line_fields(line))
}

/// Builds an entry from the trimmed fields of a catalog line.
pub fn from_fields(fields: &Vec<String>) -> (r: Result<(Movie, i32), LineError>)
    ensures
        parsed_view(r) == fields_entry(texts(fields@)),
{
    let ghost f = texts(fields@);
    if fields.len() == 0 {
        let ghost e = Seq::<char>::empty();
        assert(!int_text_within(e, 16, i64::MIN as int, i64::MAX as int));
        return Err(LineError::InvalidId);
    }
    let id = match parse_hex_i64(fields[0].as_str()) {
        Some(id) => id,
        None => {
            return Err(LineError::InvalidId);
        },
    };
    if fields.len() < 4 {
        return Err(LineError::MissingField);
    }
    let title = fields[1].clone();
    let director = fields[2].clone();
    match parse_decimal_i32(fields[3].as_str()) {
        Some(rating) => Ok((Movie { id, title, director }, rating)),
        None => Err(LineError::InvalidRating { title }),
    }
}

/// Parses one line of the catalog: `hex id, title, director, decimal rating`.
pub fn parse_line(line: &str) -> (r: Result<(Movie, i32), LineError>)
    ensures
        parsed_view(r) == line_entry(line@),
{
    let sep = ",";
    proof {
        reveal_strlit(",");
        assert(sep@ =~= seq![',']);
    }
    let raw = split_text(line, sep);
    let mut fields: Vec<String> = Vec::new();
    let mut i: usize = 0;
    while i < raw.len()
        invariant
            i <= raw@.len(),
            texts(raw@) == pieces(line@, seq![',']),
            texts(fields@) =~= line_fields(line@).subrange(0, i as int),
        decreases raw@.len() - i,
    {
        let t = trim_text(raw[i].as_str());
        let field = String::from_str(t);
        proof {
            assert(texts(raw@)[i as int] == raw@[i as int]@);
            assert(line_fields(line@)[i as int] == field@);
            assert(texts(fields@.push(field)) =~= texts(fields@).push(field@));
        }
        fields.push(field);
        i = i + 1;
    }
    assert(line_fields(line@).subrange(0, i as int) =~= line_fields(line@));
    from_fields(&fields)
}

} // verus!
