use movie_night::catalog::{load_catalog, rating_color, select, watchable, Catalog, RatingColor};
use movie_night::record::{from_fields, parse_line, LineError};
use movie_night::input::index_in_range;
use movie_night::movie::Movie;

fn lines(v: &[&str]) -> Vec<String> {
    v.iter().map(|s| s.to_string()).collect()
}

fn movie(id: i64, title: &str, director: &str) -> Movie {
    Movie { id, title: title.to_string(), director: director.to_string() }
}

#[test]
fn load_skips_malformed_lines() {
    let (catalog, diagnostics) = load_catalog(&lines(&[
        "1,Alpha,DirA,6",
        "2,Beta,DirB,18",
        "g,Bad,DirX,12",
        "3,Gamma,DirC,notanum",
    ]));
    assert_eq!(catalog.len(), 2);
    let (m1, r1) = catalog.get(1).unwrap();
    assert_eq!(m1.title, "Alpha");
    assert_eq!(m1.director, "DirA");
    assert_eq!(*r1, 6);
    let (m2, r2) = catalog.get(2).unwrap();
    assert_eq!(m2.title, "Beta");
    assert_eq!(*r2, 18);
    assert!(catalog.get(3).is_none());
    assert_eq!(
        diagnostics,
        vec!["Invalid ID found for movie!".to_string(), "Invalid FSK value for movie 'Gamma'".to_string()]
    );
}

#[test]
fn later_line_with_same_id_wins() {
    let (catalog, diagnostics) = load_catalog(&lines(&["a,First,DirA,12", "b,Other,DirB,0", "a,Second,DirC,16"]));
    assert!(diagnostics.is_empty());
    assert_eq!(catalog.len(), 2);
    let (m, r) = catalog.get(10).unwrap();
    assert_eq!(m.title, "Second");
    assert_eq!(m.director, "DirC");
    assert_eq!(*r, 16);
}

#[test]
fn blank_lines_are_skipped_silently() {
    let (catalog, diagnostics) = load_catalog(&lines(&["", "1,Alpha,DirA,6", ""]));
    assert_eq!(catalog.len(), 1);
    assert!(diagnostics.is_empty());
}

#[test]
fn whitespace_only_line_has_invalid_id() {
    let (catalog, diagnostics) = load_catalog(&lines(&["   "]));
    assert_eq!(catalog.len(), 0);
    assert_eq!(diagnostics, vec!["Invalid ID found for movie!".to_string()]);
}

#[test]
fn fields_are_trimmed_and_id_is_hexadecimal() {
    let (m, r) = parse_line("  1F , The Title ,  Some One ,  12 ").ok().unwrap();
    assert_eq!(m.id, 31);
    assert_eq!(m.title, "The Title");
    assert_eq!(m.director, "Some One");
    assert_eq!(r, 12);
}

#[test]
fn signed_values_parse() {
    let (m, r) = parse_line("-ff,T,D,+7").ok().unwrap();
    assert_eq!(m.id, -255);
    assert_eq!(r, 7);
}

#[test]
fn id_out_of_range_is_invalid() {
    assert!(matches!(parse_line("8000000000000000,T,D,1"), Err(LineError::InvalidId)));
    let (m, _) = parse_line("7fffffffffffffff,T,D,1").ok().unwrap();
    assert_eq!(m.id, i64::MAX);
}

#[test]
fn rating_out_of_range_is_invalid() {
    match parse_line("1,Big,D,2147483648") {
        Err(LineError::InvalidRating { title }) => assert_eq!(title, "Big"),
        _ => panic!("expected an invalid rating"),
    }
}

#[test]
fn missing_fields_are_reported() {
    assert!(matches!(parse_line("1,Alpha,DirA"), Err(LineError::MissingField)));
    assert_eq!(LineError::MissingField.message(), "Missing fields in movie line");
}

#[test]
fn invalid_id_is_judged_before_field_count() {
    assert!(matches!(parse_line("zz"), Err(LineError::InvalidId)));
}

#[test]
fn extra_fields_are_ignored() {
    let (m, r) = parse_line("2,T,D,18,extra").ok().unwrap();
    assert_eq!(m.id, 2);
    assert_eq!(r, 18);
}

#[test]
fn fields_of_an_entry() {
    let f = vec!["10".to_string(), "T".to_string(), "D".to_string(), "6".to_string()];
    let (m, r) = from_fields(&f).ok().unwrap();
    assert_eq!(m.id, 16);
    assert_eq!(r, 6);
    assert!(matches!(from_fields(&Vec::new()), Err(LineError::InvalidId)));
}

#[test]
fn error_messages() {
    assert_eq!(LineError::InvalidId.message(), "Invalid ID found for movie!");
    let e = LineError::InvalidRating { title: "X".to_string() };
    assert_eq!(e.message(), "Invalid FSK value for movie 'X'");
}

#[test]
fn catalog_insert_replaces_same_id() {
    let mut c = Catalog::new();
    c.insert(movie(5, "A", "B"), 6);
    c.insert(movie(5, "C", "D"), 12);
    assert_eq!(c.len(), 1);
    let (m, r) = c.get(5).unwrap();
    assert_eq!(m.title, "C");
    assert_eq!(*r, 12);
}

fn two_ratings() -> Catalog {
    let mut c = Catalog::new();
    c.insert(movie(1, "Kids", "K"), 6);
    c.insert(movie(2, "Adults", "A"), 18);
    c
}

#[test]
fn filter_by_age_ten() {
    let list = watchable(two_ratings(), 10);
    assert_eq!(list.len(), 1);
    assert_eq!(list[0].0.title, "Kids");
    assert_eq!(list[0].1, 6);
}

#[test]
fn filter_by_age_eighteen() {
    let list = watchable(two_ratings(), 18);
    assert_eq!(list.len(), 2);
    let titles: Vec<&str> = list.iter().map(|(m, _)| m.title.as_str()).collect();
    assert_eq!(titles, vec!["Adults", "Kids"]);
}

#[test]
fn sorted_by_title() {
    let mut c = Catalog::new();
    c.insert(movie(1, "Zeta", "Z"), 0);
    c.insert(movie(2, "Alpha", "A"), 0);
    c.insert(movie(3, "Mike", "M"), 0);
    let list = watchable(c, 0);
    let titles: Vec<&str> = list.iter().map(|(m, _)| m.title.as_str()).collect();
    assert_eq!(titles, vec!["Alpha", "Mike", "Zeta"]);
}

#[test]
fn sorting_puts_prefix_first_and_uppercase_before_lowercase() {
    let mut c = Catalog::new();
    c.insert(movie(1, "abc", "X"), 0);
    c.insert(movie(2, "ab", "X"), 0);
    c.insert(movie(3, "Abc", "X"), 0);
    let list = watchable(c, 150);
    let titles: Vec<&str> = list.iter().map(|(m, _)| m.title.as_str()).collect();
    assert_eq!(titles, vec!["Abc", "ab", "abc"]);
}

#[test]
fn empty_catalog_lists_nothing() {
    assert!(watchable(Catalog::new(), 150).is_empty());
}

#[test]
fn selection_bounds() {
    let mut c = Catalog::new();
    c.insert(movie(1, "Zeta", "Z"), 0);
    c.insert(movie(2, "Alpha", "A"), 0);
    let list = watchable(c, 0);
    assert!(!index_in_range(&0, list.len()));
    assert!(!index_in_range(&3, list.len()));
    assert!(index_in_range(&2, list.len()));
    assert!(index_in_range(&1, list.len()));
    let (m, _) = select(&list, 2);
    assert_eq!(m.title, "Zeta");
    let (m, _) = select(&list, 1);
    assert_eq!(m.title, "Alpha");
}

#[test]
fn rating_colors() {
    assert_eq!(rating_color(0), RatingColor::White);
    assert_eq!(rating_color(6), RatingColor::Yellow);
    assert_eq!(rating_color(12), RatingColor::Green);
    assert_eq!(rating_color(16), RatingColor::Blue);
    assert_eq!(rating_color(18), RatingColor::Red);
    assert_eq!(rating_color(7), RatingColor::Plain);
}

#[test]
fn malformed_lines_anywhere_change_nothing() {
    let (with_bad, _) = load_catalog(&lines(&["zz,Bad,X,1", "1,Alpha,DirA,6", "", "2,Beta,DirB,x", "2,Beta,DirB,18", "3"]));
    let (clean, _) = load_catalog(&lines(&["1,Alpha,DirA,6", "2,Beta,DirB,18"]));
    assert_eq!(with_bad.len(), clean.len());
    for id in [1, 2] {
        let (a, ra) = with_bad.get(id).unwrap();
        let (b, rb) = clean.get(id).unwrap();
        assert_eq!(a.title, b.title);
        assert_eq!(a.director, b.director);
        assert_eq!(ra, rb);
    }
}

#[test]
fn unicode_white_space_is_trimmed() {
    let (m, r) = parse_line("\u{3000}1\u{a0},\tTitle\u{2003}, Dir ,\u{85}6\n").ok().unwrap();
    assert_eq!(m.id, 1);
    assert_eq!(m.title, "Title");
    assert_eq!(m.director, "Dir");
    assert_eq!(r, 6);
}
