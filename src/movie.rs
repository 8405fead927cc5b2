use vstd::prelude::*;
use vstd::string::StringExecFns;

use crate::number::{hex_text, lower_hex, unsigned_bits};
use crate::text::{join, lemma_line_pieces_join, line_pieces, split_lines_at, texts};

verus! {

/// A movie of the catalog. Its identity is its `id` alone.
pub struct Movie {
    pub id: i64,
    pub title: String,
    pub director: String,
}

/// What a movie holds, as plain values.
pub struct MovieView {
    pub id: i64,
    pub title: Seq<char>,
    pub director: Seq<char>,
}

impl View for Movie {
    type V = MovieView;

    open spec fn view(&self) -> MovieView {
        MovieView { id: self.id, title: self.title@, director: self.director@ }
    }
}

impl PartialEq for Movie {
    fn eq(&self, other: &Movie) -> (r: bool) {
        self.id == other.id
    }
}

impl vstd::std_specs::cmp::PartialEqSpecImpl for Movie {
    open spec fn obeys_eq_spec() -> bool {
        true
    }

    open spec fn eq_spec(&self, other: &Movie) -> bool {
        self.id == other.id
    }
}

impl Eq for Movie {

}

/// Relies on `<i64 as Hash>::hash`, which feeds the integer to the hasher; nothing
/// is claimed of the hasher's state.
pub assume_specification<H: std::hash::Hasher>[ <i64 as std::hash::Hash>::hash::<H> ](
    v: &i64,
    state: &mut H,
);

/// Hashes the id alone, so that equal movies hash alike.
impl std::hash::Hash for Movie {
    fn hash<H: std::hash::Hasher>(&self, state: &mut H) {
        self.id.hash(state);
    }
}

/// The line that separates two segments of a movie's content.
pub open spec fn segment_separator() -> Seq<char> {
    seq!['-', '-', '-', '\n']
}

/// The segments of a movie's content, in the order in which they are shown: the
/// text between separator lines (a line of exactly `---`), each segment keeping
/// its own line ends. Dashes in the middle of a line separate nothing.
pub fn segments(content: &str) -> (r: Vec<String>)
    ensures
        texts(r@) == line_pieces(content@, segment_separator()),
{
    let sep = "---\n";
    proof {
        reveal_strlit("---\n");
        assert(sep@ =~= segment_separator());
    }
    split_lines_at(content, sep)
}

/// Of all contents: the segments, joined again by separator lines, give back the
/// content, so nothing is skipped or repeated.
pub proof fn lemma_segments_rejoin(content: Seq<char>)
    ensures
        join(line_pieces(content, segment_separator()), segment_separator()) == content,
{
    lemma_line_pieces_join(content, segment_separator());
}

/// Something that can be watched: it says what is shown, where its content is
/// kept, and what is said when that content cannot be loaded.
pub trait Watch {
    spec fn spec_announcement(&self) -> Seq<char>;

    spec fn spec_content_path(&self, dir: Seq<char>) -> Seq<char>;

    spec fn spec_load_failure(&self, path: Seq<char>) -> Seq<char>;

    /// The line printed when watching starts.
    fn announcement(&self) -> (r: String)
        ensures
            r@ == self.spec_announcement(),
    ;

    /// The file under `dir` that holds the content.
    fn content_path(&self, dir: &str) -> (r: String)
        ensures
            r@ == self.spec_content_path(dir@),
    ;

    /// The diagnostic for content at `path` that could not be read.
    fn load_failure(&self, path: &str) -> (r: String)
        ensures
            r@ == self.spec_load_failure(path@),
    ;
}

impl Watch for Movie {
    /// `Watching <title> by <director>...`
    open spec fn spec_announcement(&self) -> Seq<char> {
        "Watching "@ + self.title@ + " by "@ + self.director@ + "..."@
    }

    /// `<dir>/<id in lowercase hexadecimal>.tmov`
    open spec fn spec_content_path(&self, dir: Seq<char>) -> Seq<char> {
        dir + "/"@ + lower_hex(unsigned_bits(self.id)) + ".tmov"@
    }

    /// `Could not load contents for movie <title> at <path>`
    open spec fn spec_load_failure(&self, path: Seq<char>) -> Seq<char> {
        "Could not load contents for movie "@ + self.title@ + " at "@ + path
    }

    fn announcement(&self) -> (r: String) {
        let mut r = String::from_str("Watching ");
        r.append(self.title.as_str());
        r.append(" by ");
        r.append(self.director.as_str());
        r.append("...");
        r
    }

    fn content_path(&self, dir: &str) -> (r: String) {
        let mut r = String::from_str(dir);
        r.append("/");
        let hex = hex_text(self.id);
        r.append(hex.as_str());
        r.append(".tmov");
        r
    }

    fn load_failure(&self, path: &str) -> (r: String) {
        let mut r = String::from_str("Could not load contents for movie ");
        r.append(self.title.as_str());
        r.append(" at ");
        r.append(path);
        r
    }
}

} // verus!
