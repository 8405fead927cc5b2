use std::collections::hash_map::DefaultHasher;
use std::hash::{Hash, Hasher};

use movie_night::movie::{segments, Movie, Watch};
use movie_night::text::{split_lines_at, split_text, text_le_exec};

fn movie(id: i64) -> Movie {
    Movie { id, title: "Alpha".to_string(), director: "DirA".to_string() }
}

#[test]
fn three_segments_in_order() {
    assert_eq!(segments("intro\n---\nmiddle\n---\nend"), vec!["intro\n", "middle\n", "end"]);
}

#[test]
fn content_without_separator_is_one_segment() {
    assert_eq!(segments("all of it"), vec!["all of it"]);
    assert_eq!(segments(""), vec![""]);
}

#[test]
fn separator_at_the_ends_gives_empty_segments() {
    assert_eq!(segments("---\na\n---\n"), vec!["", "a\n", ""]);
}

#[test]
fn content_path_uses_lowercase_hex() {
    assert_eq!(movie(255).content_path("res/movies"), "res/movies/ff.tmov");
    assert_eq!(movie(0).content_path("d"), "d/0.tmov");
    assert_eq!(movie(-1).content_path("d"), "d/ffffffffffffffff.tmov");
}

#[test]
fn missing_content_names_movie_and_path() {
    let m = movie(26);
    let path = m.content_path("res/movies");
    assert_eq!(
        m.load_failure(&path),
        "Could not load contents for movie Alpha at res/movies/1a.tmov"
    );
}

#[test]
fn announcement_names_title_and_director() {
    assert_eq!(movie(1).announcement(), "Watching Alpha by DirA...");
}

#[test]
fn identity_is_the_id() {
    let a = movie(3);
    let b = Movie { id: 3, title: "Other".to_string(), director: "X".to_string() };
    assert!(a == b);
    assert!(movie(4) != b);
}

#[test]
fn split_leftmost_occurrences() {
    assert_eq!(split_text("aaa", "aa"), vec!["", "a"]);
    assert_eq!(split_text("a,b,,c", ","), vec!["a", "b", "", "c"]);
}

#[test]
fn text_order() {
    assert!(text_le_exec("Alpha", "Mike"));
    assert!(!text_le_exec("Zeta", "Mike"));
    assert!(text_le_exec("Mike", "Mike"));
    assert!(text_le_exec("", "a"));
    assert!(!text_le_exec("ab", "a"));
}

#[test]
fn equal_movies_hash_alike() {
    let digest = |m: &Movie| {
        let mut h = DefaultHasher::new();
        m.hash(&mut h);
        h.finish()
    };
    let a = movie(9);
    let b = Movie { id: 9, title: "B".to_string(), director: "C".to_string() };
    assert_eq!(digest(&a), digest(&b));
}

#[test]
fn dashes_in_mid_line_separate_nothing() {
    assert_eq!(segments("a---\nb"), vec!["a---\nb"]);
    assert_eq!(segments("x\nab---\ny"), vec!["x\nab---\ny"]);
}

#[test]
fn consecutive_separator_lines_give_an_empty_segment() {
    assert_eq!(segments("a\n---\n---\nb"), vec!["a\n", "", "b"]);
}

#[test]
fn final_dashes_without_line_end_separate_nothing() {
    assert_eq!(segments("a\n---"), vec!["a\n---"]);
}

#[test]
fn segments_rejoin_to_content() {
    let content = "one\n---\ntwo---\nstill two\n---\nthree";
    let parts = segments(content);
    assert_eq!(parts, vec!["one\n", "two---\nstill two\n", "three"]);
    assert_eq!(parts.join("---\n"), content);
}

#[test]
fn split_only_at_line_starts() {
    assert_eq!(split_lines_at("ab\nab", "ab"), vec!["", "\n", ""]);
    assert_eq!(split_lines_at("xab", "ab"), vec!["xab"]);
}
