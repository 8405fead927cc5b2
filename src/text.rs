use vstd::prelude::*;

verus! {

/// Whether `sep` occurs in `s` starting at position `i`.
pub open spec fn occurs_at(s: Seq<char>, sep: Seq<char>, i: int) -> bool {
    0 <= i && i + sep.len() <= s.len() && s.subrange(i, i + sep.len()) == sep
}

/// Whether an occurrence of `sep` at `i` cuts `s`: anywhere, or, where only
/// whole lines separate, only at the start of `s` or right after a line end.
pub open spec fn cuts_at(s: Seq<char>, sep: Seq<char>, whole_lines: bool, i: int) -> bool {
    occurs_at(s, sep, i) && (!whole_lines || i == 0 || s[i - 1] == '\n')
}

/// The pieces of `s[start..]` cut at the leftmost non-overlapping occurrences of
/// `sep` that cut (see `cuts_at`), where the scan for the next one has already
/// reached `i`.
pub open spec fn split_from(
    s: Seq<char>,
    sep: Seq<char>,
    whole_lines: bool,
    start: int,
    i: int,
) -> Seq<Seq<char>>
    recommends
        sep.len() > 0,
        0 <= start <= i,
    decreases s.len() - i,
{
    if sep.len() == 0 || i < 0 || i + sep.len() > s.len() {
        seq![s.subrange(start, s.len() as int)]
    } else if cuts_at(s, sep, whole_lines, i) {
        seq![s.subrange(start, i)] + split_from(s, sep, whole_lines, i + sep.len(), i + sep.len())
    } else {
        split_from(s, sep, whole_lines, start, i + 1)
    }
}

/// The pieces of `s` between the leftmost non-overlapping occurrences of `sep`:
/// one more piece than there are occurrences, each possibly empty.
pub open spec fn pieces(s: Seq<char>, sep: Seq<char>) -> Seq<Seq<char>> {
    split_from(s, sep, false, 0, 0)
}

/// The pieces of `s` between the occurrences of `sep` that start a line (at the
/// start of `s` or right after a line end), taken from left to right without
/// overlap.
pub open spec fn line_pieces(s: Seq<char>, sep: Seq<char>) -> Seq<Seq<char>> {
    split_from(s, sep, true, 0, 0)
}

/// The pieces joined back together, with `sep` between each two.
pub open spec fn join(ps: Seq<Seq<char>>, sep: Seq<char>) -> Seq<char>
    decreases ps.len(),
{
    if ps.len() <= 1 {
        if ps.len() == 1 { ps[0] } else { Seq::empty() }
    } else {
        ps[0] + sep + join(ps.drop_first(), sep)
    }
}

/// Joining the pieces with the separator gives back the text they were cut from.
pub proof fn lemma_split_from_join(
    s: Seq<char>,
    sep: Seq<char>,
    whole_lines: bool,
    start: int,
    i: int,
)
    requires
        sep.len() > 0,
        0 <= start <= i,
        start <= s.len(),
    ensures
        split_from(s, sep, whole_lines, start, i).len() >= 1,
        join(split_from(s, sep, whole_lines, start, i), sep) == s.subrange(start, s.len() as int),
    decreases s.len() - i,
{
    if i + sep.len() > s.len() {
    } else if cuts_at(s, sep, whole_lines, i) {
        let j = i + sep.len();
        lemma_split_from_join(s, sep, whole_lines, j, j);
        let rest = split_from(s, sep, whole_lines, j, j);
        let ps = seq![s.subrange(start, i)] + rest;
        assert(ps.drop_first() =~= rest);
        assert(ps[0] == s.subrange(start, i));
        assert(s.subrange(i, j) == sep);
        assert(s.subrange(start, i) + sep + s.subrange(j, s.len() as int) =~= s.subrange(
            start,
            s.len() as int,
        ));
    } else {
        lemma_split_from_join(s, sep, whole_lines, start, i + 1);
    }
}

/// Of all texts: the pieces joined by the separator give back the text.
pub proof fn lemma_line_pieces_join(s: Seq<char>, sep: Seq<char>)
    requires
        sep.len() > 0,
    ensures
        join(line_pieces(s, sep), sep) == s,
{
    lemma_split_from_join(s, sep, true, 0, 0);
    assert(s.subrange(0, s.len() as int) =~= s);
}

/// The text of each string of `v`.
pub open spec fn texts(v: Seq<String>) -> Seq<Seq<char>> {
    v.map_values(|p: String| p@)
}

/// Whether `sep` occurs in `s` at position `i`.
fn sep_at(s: &str, n: usize, sep: &str, m: usize, i: usize) -> (r: bool)
    requires
        n == s@.len(),
        m == sep@.len(),
        i + m <= n,
    ensures
        r == occurs_at(s@, sep@, i as int),
{
    let mut k: usize = 0;
    while k < m
        invariant
            n == s@.len(),
            m == sep@.len(),
            i + m <= n,
            k <= m,
            forall|j: int| 0 <= j < k ==> s@[i + j] == sep@[j],
        decreases m - k,
    {
        if s.get_char(i + k) != sep.get_char(k) {
            assert(s@.subrange(i as int, i + m)[k as int] != sep@[k as int]);
            return false;
        }
        k = k + 1;
    }
    assert(s@.subrange(i as int, i + m) =~= sep@);
    true
}

/// Cuts `s` at the leftmost non-overlapping occurrences of `sep` that cut (see
/// `cuts_at`).
fn split_by(s: &str, sep: &str, whole_lines: bool) -> (r: Vec<String>)
    requires
        sep@.len() > 0,
    ensures
        texts(r@) == split_from(s@, sep@, whole_lines, 0, 0),
{
    let n = s.unicode_len();
    let m = sep.unicode_len();
    let mut out: Vec<String> = Vec::new();
    let mut start: usize = 0;
    let mut i: usize = 0;
    while i <= n && m <= n - i
        invariant
            n == s@.len(),
            m == sep@.len(),
            m > 0,
            start <= i <= n,
            texts(out@) + split_from(s@, sep@, whole_lines, start as int, i as int) == split_from(s@, sep@, whole_lines, 0, 0),
        decreases n - i,
    {
        if sep_at(s, n, sep, m, i) && (!whole_lines || i == 0 || s.get_char(i - 1) == '\n') {
            let piece = String::from_str(s.substring_char(start, i));
            proof {
                assert(texts(out@.push(piece)) =~= texts(out@).push(piece@));
                assert(split_from(s@, sep@, whole_lines, start as int, i as int) == seq![piece@]
                    + split_from(s@, sep@, whole_lines, i + m, i + m));
                assert(texts(out@) + split_from(s@, sep@, whole_lines, start as int, i as int)
                    =~= texts(out@).push(piece@) + split_from(s@, sep@, whole_lines, i + m, i + m));
            }
            out.push(piece);
            i = i + m;
            start = i;
        } else {
            i = i + 1;
        }
    }
    let last = String::from_str(s.substring_char(start, n));
    proof {
        assert(split_from(s@, sep@, whole_lines, start as int, i as int) == seq![last@]);
        assert(texts(out@.push(last)) =~= texts(out@) + seq![last@]);
    }
    out.push(last);
    out
}

/// Cuts `s` at the leftmost non-overlapping occurrences of `sep`.
pub fn split_text(s: &str, sep: &str) -> (r: Vec<String>)
    requires
        sep@.len() > 0,
    ensures
        texts(r@) == pieces(s@, sep@),
{
    split_by(s, sep, false)
}

/// Cuts `s` at the occurrences of `sep` that start a line, from left to right.
pub fn split_lines_at(s: &str, sep: &str) -> (r: Vec<String>)
    requires
        sep@.len() > 0,
    ensures
        texts(r@) == line_pieces(s@, sep@),
{
    split_by(s, sep, true)
}

/// Whether `c` has the Unicode property White_Space.
pub open spec fn is_white_space(c: char) -> bool {
    let u = c as u32;
    ||| 0x9 <= u <= 0xd
    ||| u == 0x20
    ||| u == 0x85
    ||| u == 0xa0
    ||| u == 0x1680
    ||| 0x2000 <= u <= 0x200a
    ||| u == 0x2028
    ||| u == 0x2029
    ||| u == 0x202f
    ||| u == 0x205f
    ||| u == 0x3000
}

/// `s` without its leading white space.
pub open spec fn trim_start(s: Seq<char>) -> Seq<char>
    decreases s.len(),
{
    if s.len() > 0 && is_white_space(s[0]) {
        trim_start(s.drop_first())
    } else {
        s
    }
}

/// `s` without its trailing white space.
pub open spec fn trim_end(s: Seq<char>) -> Seq<char>
    decreases s.len(),
{
    if s.len() > 0 && is_white_space(s.last()) {
        trim_end(s.drop_last())
    } else {
        s
    }
}

/// `s` without leading and trailing white space.
pub open spec fn trimmed(s: Seq<char>) -> Seq<char> {
    trim_end(trim_start(s))
}

/// Relies on `str::trim`: the text with leading and trailing whitespace removed,
/// whitespace being the characters with the Unicode property White_Space.
#[verifier::external_body]
pub(crate) fn trim_text<'a>(s: &'a str) -> (r: &'a str)
    ensures
        r@ == trimmed(s@),
{
    s.trim()
}

/// Lexicographic order of texts by character code: a proper prefix comes first.
pub open spec fn text_le(a: Seq<char>, b: Seq<char>) -> bool
    decreases a.len(),
{
    if a.len() == 0 {
        true
    } else if b.len() == 0 {
        false
    } else if (a[0] as u32) != (b[0] as u32) {
        (a[0] as u32) < (b[0] as u32)
    } else {
        text_le(a.drop_first(), b.drop_first())
    }
}

/// Any two texts are ordered one way or the other.
pub proof fn lemma_text_le_total(a: Seq<char>, b: Seq<char>)
    ensures
        text_le(a, b) || text_le(b, a),
    decreases a.len(),
{
    if a.len() > 0 && b.len() > 0 && (a[0] as u32) == (b[0] as u32) {
        lemma_text_le_total(a.drop_first(), b.drop_first());
    }
}

/// The order is transitive.
pub proof fn lemma_text_le_transitive(a: Seq<char>, b: Seq<char>, c: Seq<char>)
    requires
        text_le(a, b),
        text_le(b, c),
    ensures
        text_le(a, c),
    decreases a.len(),
{
    if a.len() > 0 && b.len() > 0 && c.len() > 0 && (a[0] as u32) == (b[0] as u32)
        && (b[0] as u32) == (c[0] as u32) {
        lemma_text_le_transitive(a.drop_first(), b.drop_first(), c.drop_first());
    }
}

/// Compares two texts character by character.
pub fn text_le_exec(a: &str, b: &str) -> (r: bool)
    ensures
        r == text_le(a@, b@),
{
    let n = a.unicode_len();
    let m = b.unicode_len();
    let mut i: usize = 0;
    assert(a@.subrange(0, n as int) =~= a@);
    assert(b@.subrange(0, m as int) =~= b@);
    while i < n && i < m
        invariant
            n == a@.len(),
            m == b@.len(),
            i <= n,
            i <= m,
            text_le(a@, b@) == text_le(a@.subrange(i as int, n as int), b@.subrange(i as int, m as int)),
        decreases n - i,
    {
        let x = a.get_char(i);
        let y = b.get_char(i);
        proof {
            let sa = a@.subrange(i as int, n as int);
            let sb = b@.subrange(i as int, m as int);
            assert(sa[0] == x && sb[0] == y);
            assert(sa.drop_first() =~= a@.subrange(i + 1, n as int));
            assert(sb.drop_first() =~= b@.subrange(i + 1, m as int));
        }
        if (x as u32) != (y as u32) {
            return (x as u32) < (y as u32);
        }
        i = i + 1;
    }
    i == n
}

} // verus!
