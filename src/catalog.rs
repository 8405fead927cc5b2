use vstd::prelude::*;

use crate::input::valid_selection;
use crate::movie::{Movie, MovieView};
use crate::record::{entry_view, fault_message, line_entry, parse_line};
use crate::text::{lemma_text_le_total, lemma_text_le_transitive, text_le, text_le_exec, texts};

verus! {

/// Whether no two entries share an id.
pub open spec fn ids_unique(es: Seq<(Movie, i32)>) -> bool {
    forall|i: int, j: int|
        0 <= i < es.len() && 0 <= j < es.len() && i != j ==> #[trigger] es[i].0.id != #[trigger] es[j].0.id
}

/// Whether some entry has the id `k`.
pub open spec fn has_id(es: Seq<(Movie, i32)>, k: i64) -> bool {
    exists|i: int| 0 <= i < es.len() && #[trigger] es[i].0.id == k
}

/// The entries keyed by id.
pub open spec fn entries_map(es: Seq<(Movie, i32)>) -> Map<i64, (MovieView, i32)> {
    Map::new(
        |k: i64| has_id(es, k),
        |k: i64| entry_view(es[choose|i: int| 0 <= i < es.len() && #[trigger] es[i].0.id == k]),
    )
}

/// With unique ids, the entry at `i` is the one the map holds for its id.
pub proof fn lemma_entries_map_at(es: Seq<(Movie, i32)>, i: int)
    requires
        ids_unique(es),
        0 <= i < es.len(),
    ensures
        entries_map(es).contains_key(es[i].0.id),
        entries_map(es)[es[i].0.id] == entry_view(es[i]),
{
    let k = es[i].0.id;
    assert(has_id(es, k));
    let j = choose|j: int| 0 <= j < es.len() && #[trigger] es[j].0.id == k;
    assert(i == j);
}

/// The movies of the catalog with their age ratings, keyed by movie id.
pub struct Catalog {
    entries: Vec<(Movie, i32)>,
}

impl View for Catalog {
    type V = Map<i64, (MovieView, i32)>;

    closed spec fn view(&self) -> Map<i64, (MovieView, i32)> {
        entries_map(self.entries@)
    }
}

impl Catalog {
    /// No two entries share an id.
    #[verifier::type_invariant]
    spec fn wf(self) -> bool {
        ids_unique(self.entries@)
    }

    /// An empty catalog.
    pub fn new() -> (r: Catalog)
        ensures
            r@ == Map::<i64, (MovieView, i32)>::empty(),
    {
        let r = Catalog { entries: Vec::new() };
        assert(r@ =~= Map::<i64, (MovieView, i32)>::empty());
        r
    }

    /// The number of movies.
    pub fn len(&self) -> (r: usize)
        ensures
            r == self@.len(),
    {
        proof {
            use_type_invariant(self);
            lemma_entries_map_len(self.entries@);
        }
        self.entries.len()
    }

    /// The movie with the id `id` and its rating, if the catalog has one.
    pub fn get(&self, id: i64) -> (r: Option<&(Movie, i32)>)
        ensures
            r is Some <==> self@.contains_key(id),
            r matches Some(e) ==> entry_view(*e) == self@[id] && e.0.id == id,
    {
        proof {
            use_type_invariant(self);
        }
        let mut i: usize = 0;
        while i < self.entries.len()
            invariant
                ids_unique(self.entries@),
                i <= self.entries@.len(),
                forall|j: int| 0 <= j < i ==> self.entries@[j].0.id != id,
            decreases self.entries@.len() - i,
        {
            if self.entries[i].0.id == id {
                proof {
                    lemma_entries_map_at(self.entries@, i as int);
                }
                return Some(&self.entries[i]);
            }
            i = i + 1;
        }
        None
    }

    /// Adds a movie with its rating; one with the same id is replaced.
    pub fn insert(&mut self, movie: Movie, rating: i32)
        ensures
            final(self)@ == old(self)@.insert(movie.id, (movie@, rating)),
    {
        proof {
            use_type_invariant(&*self);
        }
        let mut es: Vec<(Movie, i32)> = Vec::new();
        std::mem::swap(&mut es, &mut self.entries);
        let ghost es0 = es@;
        let ghost k = movie.id;
        let ghost v = (movie@, rating);
        let mut i: usize = 0;
        while i < es.len() && es[i].0.id != movie.id
            invariant
                i <= es@.len(),
                forall|j: int| 0 <= j < i ==> es@[j].0.id != movie.id,
            decreases es@.len() - i,
        {
            i = i + 1;
        }
        if i < es.len() {
            es.set(i, (movie, rating));
            proof {
                lemma_replace_entry(es0, i as int, es@[i as int]);
            }
        } else {
            es.push((movie, rating));
            proof {
                lemma_push_entry(es0, es@[es0.len() as int]);
            }
        }
        self.entries = es;
    }
}

/// The number of keys is the number of entries, when ids are unique.
proof fn lemma_entries_map_len(es: Seq<(Movie, i32)>)
    requires
        ids_unique(es),
    ensures
        entries_map(es).len() == es.len(),
{
    let ids = Set::new(|k: i64| has_id(es, k));
    assert(entries_map(es).dom() =~= ids);
    let f = |i: int| es[i].0.id;
    let idx = Set::new(|i: int| 0 <= i < es.len());
    assert(idx =~= vstd::set_lib::set_int_range(0, es.len() as int));
    vstd::set_lib::lemma_int_range(0, es.len() as int);
    assert(ids =~= idx.map(f)) by {
        assert forall|k: i64| ids.contains(k) implies idx.map(f).contains(k) by {
            let i = choose|i: int| 0 <= i < es.len() && #[trigger] es[i].0.id == k;
            assert(idx.contains(i) && f(i) == k);
        }
    }
    assert(vstd::relations::injective_on(f, idx)) by {
        assert forall|a: int, b: int|
            idx.contains(a) && idx.contains(b) && #[trigger] f(a) == #[trigger] f(b) implies a
            == b by {
            if a != b {
                assert(es[a].0.id != es[b].0.id);
            }
        }
    }
    vstd::set_lib::lemma_map_size(idx, ids, f);
}

/// Replacing the entry at `i` by one with the same id replaces the map's value.
proof fn lemma_replace_entry(es: Seq<(Movie, i32)>, i: int, e: (Movie, i32))
    requires
        ids_unique(es),
        0 <= i < es.len(),
        es[i].0.id == e.0.id,
    ensures
        ids_unique(es.update(i, e)),
        entries_map(es.update(i, e)) == entries_map(es).insert(e.0.id, entry_view(e)),
{
    let ns = es.update(i, e);
    let k = e.0.id;
    let v = entry_view(e);
    assert(ids_unique(ns)) by {
        assert forall|a: int, b: int|
            0 <= a < ns.len() && 0 <= b < ns.len() && a != b implies #[trigger] ns[a].0.id
            != #[trigger] ns[b].0.id by {
            assert(es[a].0.id != es[b].0.id);
        }
    }
    assert forall|q: i64| #[trigger] entries_map(ns).contains_key(q) == entries_map(es).insert(
        k,
        v,
    ).contains_key(q) by {
        assert(ns[i].0.id == k);
        if has_id(es, q) {
            let j = choose|j: int| 0 <= j < es.len() && #[trigger] es[j].0.id == q;
            assert(ns[j].0.id == q);
        }
        if has_id(ns, q) {
            let j = choose|j: int| 0 <= j < ns.len() && #[trigger] ns[j].0.id == q;
            assert(es[j].0.id == q);
        }
    }
    assert forall|q: i64| #[trigger] entries_map(ns).contains_key(q) implies entries_map(ns)[q]
        == entries_map(es).insert(k, v)[q] by {
        let j = choose|j: int| 0 <= j < ns.len() && #[trigger] ns[j].0.id == q;
        lemma_entries_map_at(ns, j);
        if j != i {
            lemma_entries_map_at(es, j);
        }
    }
    assert(entries_map(ns) =~= entries_map(es).insert(k, v));
}

/// Appending an entry with a new id adds it to the map.
proof fn lemma_push_entry(es: Seq<(Movie, i32)>, e: (Movie, i32))
    requires
        ids_unique(es),
        forall|j: int| 0 <= j < es.len() ==> es[j].0.id != e.0.id,
    ensures
        ids_unique(es.push(e)),
        entries_map(es.push(e)) == entries_map(es).insert(e.0.id, entry_view(e)),
{
    let ns = es.push(e);
    let k = e.0.id;
    let v = entry_view(e);
    assert(ids_unique(ns)) by {
        assert forall|a: int, b: int|
            0 <= a < ns.len() && 0 <= b < ns.len() && a != b implies #[trigger] ns[a].0.id
            != #[trigger] ns[b].0.id by {
            if a < es.len() && b < es.len() {
                assert(es[a].0.id != es[b].0.id);
            } else if a < es.len() {
                assert(es[a].0.id != k);
            } else {
                assert(es[b].0.id != k);
            }
        }
    }
    assert forall|q: i64| #[trigger] entries_map(ns).contains_key(q) == entries_map(es).insert(
        k,
        v,
    ).contains_key(q) by {
        assert(ns[es.len() as int].0.id == k);
        if has_id(es, q) {
            let j = choose|j: int| 0 <= j < es.len() && #[trigger] es[j].0.id == q;
            assert(ns[j].0.id == q);
        }
        if has_id(ns, q) {
            let j = choose|j: int| 0 <= j < ns.len() && #[trigger] ns[j].0.id == q;
            if j < es.len() {
                assert(es[j].0.id == q);
            }
        }
    }
    assert forall|q: i64| #[trigger] entries_map(ns).contains_key(q) implies entries_map(ns)[q]
        == entries_map(es).insert(k, v)[q] by {
        let j = choose|j: int| 0 <= j < ns.len() && #[trigger] ns[j].0.id == q;
        lemma_entries_map_at(ns, j);
        if j < es.len() {
            lemma_entries_map_at(es, j);
        }
    }
    assert(entries_map(ns) =~= entries_map(es).insert(k, v));
}

/// The catalog that the lines give, read in order: blank lines and lines that do
/// not parse are skipped, and a later line replaces an earlier one with its id.
pub open spec fn catalog_of(lines: Seq<Seq<char>>) -> Map<i64, (MovieView, i32)>
    decreases lines.len(),
{
    if lines.len() == 0 {
        Map::empty()
    } else {
        let m = catalog_of(lines.drop_last());
        let l = lines.last();
        if l.len() == 0 {
            m
        } else {
            match line_entry(l) {
                Ok(e) => m.insert(e.0.id, e),
                Err(_) => m,
            }
        }
    }
}

/// The diagnostics for the lines that were skipped, in order; blank lines are
/// skipped silently.
pub open spec fn diagnostics_of(lines: Seq<Seq<char>>) -> Seq<Seq<char>>
    decreases lines.len(),
{
    if lines.len() == 0 {
        Seq::empty()
    } else {
        let d = diagnostics_of(lines.drop_last());
        let l = lines.last();
        if l.len() == 0 {
            d
        } else {
            match line_entry(l) {
                Ok(_) => d,
                Err(f) => d.push(fault_message(f)),
            }
        }
    }
}

/// Builds the catalog from the lines of a catalog file, with a diagnostic for each
/// line that was skipped.
pub fn load_catalog(lines: &Vec<String>) -> (r: (Catalog, Vec<String>))
    ensures
        r.0@ == catalog_of(texts(lines@)),
        texts(r.1@) == diagnostics_of(texts(lines@)),
{
    let ghost ls = texts(lines@);
    let mut catalog = Catalog::new();
    let mut diagnostics: Vec<String> = Vec::new();
    let mut i: usize = 0;
    while i < lines.len()
        invariant
            ls == texts(lines@),
            i <= lines@.len(),
            catalog@ == catalog_of(ls.subrange(0, i as int)),
            texts(diagnostics@) == diagnostics_of(ls.subrange(0, i as int)),
        decreases lines@.len() - i,
    {
        let line = lines[i].as_str();
        proof {
            assert(ls.subrange(0, i + 1).drop_last() =~= ls.subrange(0, i as int));
            assert(ls.subrange(0, i + 1).last() == line@);
        }
        if line.unicode_len() != 0 {
            match parse_line(line) {
                Ok((movie, rating)) => {
                    catalog.insert(movie, rating);
                },
                Err(e) => {
                    let m = e.message();
                    proof {
                        assert(texts(diagnostics@.push(m)) =~= texts(diagnostics@).push(m@));
                    }
                    diagnostics.push(m);
                },
            }
        }
        i = i + 1;
    }
    assert(ls.subrange(0, i as int) =~= ls);
    (catalog, diagnostics)
}

/// Whether the entries are in order of their titles.
pub open spec fn sorted_by_title(es: Seq<(Movie, i32)>) -> bool {
    forall|i: int, j: int|
        0 <= i < j < es.len() ==> text_le(#[trigger] es[i].0.title@, #[trigger] es[j].0.title@)
}

/// Whether `list` holds exactly the entries of `catalog` that a viewer of `age`
/// may watch, each once, in order of their titles.
pub open spec fn watchable_list(list: Seq<(Movie, i32)>, catalog: Map<i64, (MovieView, i32)>, age: i32) -> bool {
    &&& forall|i: int|
        0 <= i < list.len() ==> {
            &&& #[trigger] list[i].1 <= age
            &&& catalog.contains_key(list[i].0.id)
            &&& catalog[list[i].0.id] == entry_view(list[i])
        }
    &&& forall|k: i64| #[trigger] catalog.contains_key(k) && catalog[k].1 <= age ==> has_id(list, k)
    &&& ids_unique(list)
    &&& sorted_by_title(list)
}

proof fn lemma_insert_sorted(s: Seq<(Movie, i32)>, p: int, e: (Movie, i32))
    requires
        sorted_by_title(s),
        0 <= p <= s.len(),
        forall|q: int| 0 <= q < p ==> text_le(#[trigger] s[q].0.title@, e.0.title@),
        p < s.len() ==> !text_le(s[p].0.title@, e.0.title@),
    ensures
        sorted_by_title(s.insert(p, e)),
{
    let t = s.insert(p, e);
    assert forall|a: int, b: int| 0 <= a < b < t.len() implies text_le(
        #[trigger] t[a].0.title@,
        #[trigger] t[b].0.title@,
    ) by {
        if b == p {
            assert(t[a] == s[a]);
        } else if a == p {
            assert(t[b] == s[b - 1]);
            lemma_text_le_total(s[p].0.title@, e.0.title@);
            if b - 1 > p {
                lemma_text_le_transitive(e.0.title@, s[p].0.title@, s[b - 1].0.title@);
            }
        } else {
            let a0 = if a < p { a } else { a - 1 };
            let b0 = if b < p { b } else { b - 1 };
            assert(t[a] == s[a0] && t[b] == s[b0]);
        }
    }
}

/// The entries of the catalog that a viewer of `age` may watch (rating at most
/// `age`), in order of their titles.
pub fn watchable(catalog: Catalog, age: i32) -> (r: Vec<(Movie, i32)>)
    ensures
        watchable_list(r@, catalog@, age),
{
    proof {
        use_type_invariant(&catalog);
    }
    let ghost m = catalog@;
    let mut es = catalog.entries;
    let ghost es0 = es@;
    let mut out: Vec<(Movie, i32)> = Vec::new();
    while es.len() > 0
        invariant
            ids_unique(es0),
            m == entries_map(es0),
            es@.len() <= es0.len(),
            es@ == es0.subrange(0, es@.len() as int),
            forall|i: int|
                0 <= i < out@.len() ==> exists|j: int|
                    es@.len() <= j < es0.len() && #[trigger] out@[i] == es0[j],
            forall|i: int| 0 <= i < out@.len() ==> #[trigger] out@[i].1 <= age,
            forall|j: int|
                es@.len() <= j < es0.len() && #[trigger] es0[j].1 <= age ==> has_id(
                    out@,
                    es0[j].0.id,
                ),
            ids_unique(out@),
            sorted_by_title(out@),
        decreases es@.len(),
    {
        let ghost n = es@.len() as int;
        let e = es.pop().unwrap();
        assert(e == es0[n - 1]);
        if e.1 <= age {
            let mut p: usize = 0;
            while p < out.len() && text_le_exec(out[p].0.title.as_str(), e.0.title.as_str())
                invariant
                    p <= out@.len(),
                    forall|q: int| 0 <= q < p ==> text_le(#[trigger] out@[q].0.title@, e.0.title@),
                decreases out@.len() - p,
            {
                p = p + 1;
            }
            let ghost old_out = out@;
            proof {
                lemma_insert_sorted(old_out, p as int, e);
            }
            out.insert(p, e);
            proof {
                let t = out@;
                assert(t == old_out.insert(p as int, e));
                assert forall|i: int| 0 <= i < t.len() implies exists|j: int|
                    n - 1 <= j < es0.len() && #[trigger] t[i] == es0[j] by {
                    if i != p {
                        let i0 = if i < p { i } else { i - 1 };
                        assert(t[i] == old_out[i0]);
                        let j = choose|j: int| n <= j < es0.len() && #[trigger] old_out[i0] == es0[j];
                        assert(t[i] == es0[j]);
                    } else {
                        assert(t[i] == es0[n - 1]);
                    }
                }
                assert forall|i: int| 0 <= i < t.len() implies #[trigger] t[i].1 <= age by {
                    if i < p {
                        assert(t[i] == old_out[i]);
                    } else if i > p {
                        assert(t[i] == old_out[i - 1]);
                    }
                }
                assert forall|i: int| 0 <= i < old_out.len() implies #[trigger] old_out[i].0.id
                    != e.0.id by {
                    let j = choose|j: int| n <= j < es0.len() && #[trigger] old_out[i] == es0[j];
                    assert(es0[j].0.id != es0[n - 1].0.id);
                }
                assert forall|a: int, b: int|
                    0 <= a < t.len() && 0 <= b < t.len() && a != b implies #[trigger] t[a].0.id
                    != #[trigger] t[b].0.id by {
                    let a0 = if a < p { a } else { a - 1 };
                    let b0 = if b < p { b } else { b - 1 };
                    if a != p {
                        assert(t[a] == old_out[a0]);
                    }
                    if b != p {
                        assert(t[b] == old_out[b0]);
                    }
                }
                assert forall|j: int|
                    n - 1 <= j < es0.len() && #[trigger] es0[j].1 <= age implies has_id(
                    t,
                    es0[j].0.id,
                ) by {
                    if j == n - 1 {
                        assert(t[p as int] == e);
                    } else {
                        let i = choose|i: int| 0 <= i < old_out.len() && #[trigger] old_out[i].0.id
                            == es0[j].0.id;
                        if i < p {
                            assert(t[i] == old_out[i]);
                        } else {
                            assert(t[i + 1] == old_out[i]);
                        }
                    }
                }
            }
        }
        proof {
            assert(es@ =~= es0.subrange(0, es@.len() as int));
        }
    }
    proof {
        assert forall|i: int| 0 <= i < out@.len() implies {
            &&& #[trigger] out@[i].1 <= age
            &&& m.contains_key(out@[i].0.id)
            &&& m[out@[i].0.id] == entry_view(out@[i])
        } by {
            let j = choose|j: int| es@.len() <= j < es0.len() && #[trigger] out@[i] == es0[j];
            lemma_entries_map_at(es0, j);
        }
        assert forall|k: i64| #[trigger] m.contains_key(k) && m[k].1 <= age implies has_id(
            out@,
            k,
        ) by {
            let j = choose|j: int| 0 <= j < es0.len() && #[trigger] es0[j].0.id == k;
            lemma_entries_map_at(es0, j);
        }
    }
    out
}

/// The entry that the 1-based `index` picks from a listing.
pub fn select(list: &Vec<(Movie, i32)>, index: usize) -> (r: &(Movie, i32))
    requires
        valid_selection(index as int, list@.len() as int),
    ensures
        *r == list@[index - 1],
{
    &list[index - 1]
}

/// Of all inputs: an index of zero or one past the number of listed entries is
/// never a valid selection, while the number of entries itself is, and picks the
/// last entry.
pub proof fn lemma_selection_bounds(list: Seq<(Movie, i32)>, index: int)
    ensures
        index <= 0 || index > list.len() ==> !valid_selection(index, list.len() as int),
        list.len() > 0 ==> valid_selection(list.len() as int, list.len() as int),
        list.len() > 0 ==> list[list.len() - 1] == list.last(),
{
}

/// Whether the line at `j` is the last line of `lines` that gives an entry with
/// the id `k`.
pub open spec fn last_line_with_id(lines: Seq<Seq<char>>, j: int, k: i64) -> bool {
    &&& 0 <= j < lines.len()
    &&& lines[j].len() > 0
    &&& line_entry(lines[j]) is Ok
    &&& line_entry(lines[j])->Ok_0.0.id == k
    &&& forall|q: int|
        j < q < lines.len() && #[trigger] lines[q].len() > 0 && line_entry(lines[q]) is Ok
            ==> line_entry(lines[q])->Ok_0.0.id != k
}

/// Of all catalog files: of several lines that share an id, the catalog keeps
/// exactly one entry for it, the one of the line read last.
pub proof fn lemma_last_line_wins(lines: Seq<Seq<char>>, j: int, k: i64)
    requires
        last_line_with_id(lines, j, k),
    ensures
        catalog_of(lines).contains_key(k),
        catalog_of(lines)[k] == line_entry(lines[j])->Ok_0,
    decreases lines.len(),
{
    let init = lines.drop_last();
    if j < lines.len() - 1 {
        assert forall|q: int|
            j < q < init.len() && #[trigger] init[q].len() > 0 && line_entry(init[q]) is Ok
                implies line_entry(init[q])->Ok_0.0.id != k by {
            assert(init[q] == lines[q]);
        }
        lemma_last_line_wins(init, j, k);
        let l = lines.last();
        assert(l == lines[lines.len() - 1]);
    }
}

/// The color in which an age rating is shown.
#[derive(PartialEq, Eq, Structural, Debug, Clone, Copy)]
pub enum RatingColor {
    White,
    Yellow,
    Green,
    Blue,
    Red,
    Plain,
}

/// The color of a rating: 0 white, 6 yellow, 12 green, 16 blue, 18 red, any
/// other plain.
pub fn rating_color(rating: i32) -> (r: RatingColor)
    ensures
        r == (if rating == 0 {
            RatingColor::White
        } else if rating == 6 {
            RatingColor::Yellow
        } else if rating == 12 {
            RatingColor::Green
        } else if rating == 16 {
            RatingColor::Blue
        } else if rating == 18 {
            RatingColor::Red
        } else {
            RatingColor::Plain
        }),
{
    match rating {
        0 => RatingColor::White,
        6 => RatingColor::Yellow,
        12 => RatingColor::Green,
        16 => RatingColor::Blue,
        18 => RatingColor::Red,
        _ => RatingColor::Plain,
    }
}

/// Whether a catalog line gives an entry: it is not blank and it parses.
pub open spec fn gives_entry(line: Seq<char>) -> bool {
    line.len() > 0 && line_entry(line) is Ok
}

/// Of all catalog files: blank and malformed lines, wherever they stand, change
/// nothing; the catalog is the one that the well-formed lines alone give.
pub proof fn lemma_malformed_lines_change_nothing(lines: Seq<Seq<char>>)
    ensures
        catalog_of(lines) == catalog_of(lines.filter(|l: Seq<char>| gives_entry(l))),
    decreases lines.len(),
{
    reveal(Seq::filter);
    let f = |l: Seq<char>| gives_entry(l);
    if lines.len() > 0 {
        lemma_malformed_lines_change_nothing(lines.drop_last());
        let sub = lines.drop_last().filter(f);
        if f(lines.last()) {
            let t = sub.push(lines.last());
            assert(t.drop_last() =~= sub);
            assert(t.last() == lines.last());
        }
    }
}

} // verus!
