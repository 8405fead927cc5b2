use movie_night::input::{age_in_range, index_in_range, judge_input, InputError};

#[test]
fn parse_failure_is_rejected_as_parse() {
    let parsed: Result<i32, String> = Err("bad".to_string());
    match judge_input(parsed, |_: &i32| true) {
        Err(InputError::Parse(e)) => assert_eq!(e, "bad"),
        _ => panic!("expected a parse error"),
    }
}

#[test]
fn refused_value_is_rejected_as_false_predicate() {
    let parsed: Result<i32, String> = Ok(200);
    assert!(matches!(judge_input(parsed, age_in_range), Err(InputError::FalsePredicate)));
}

#[test]
fn accepted_value_is_returned() {
    let parsed: Result<i32, String> = Ok(42);
    assert!(matches!(judge_input(parsed, age_in_range), Ok(42)));
}

#[test]
fn entered_text_through_std_parse() {
    let r = judge_input(" 17 ".trim().parse::<i32>(), age_in_range);
    assert!(matches!(r, Ok(17)));
    let r = judge_input("abc".parse::<i32>(), age_in_range);
    assert!(matches!(r, Err(InputError::Parse(_))));
}

#[test]
fn index_predicate_uses_count() {
    let count = 3;
    let pred = |i: &usize| index_in_range(i, count);
    assert!(matches!(judge_input(Ok::<usize, String>(0), &pred), Err(InputError::FalsePredicate)));
    assert!(matches!(judge_input(Ok::<usize, String>(4), &pred), Err(InputError::FalsePredicate)));
    assert!(matches!(judge_input(Ok::<usize, String>(3), &pred), Ok(3)));
}

#[test]
fn age_bounds() {
    assert!(age_in_range(&0));
    assert!(age_in_range(&150));
    assert!(!age_in_range(&-1));
    assert!(!age_in_range(&151));
}

#[test]
fn input_error_messages() {
    assert_eq!(InputError::<String>::FalsePredicate.message(), "input predicate returned false");
    assert_eq!(
        InputError::Parse("x".to_string()).message(),
        "the input could not be parsed into the desired type"
    );
}

#[test]
fn input_error_kind_names() {
    assert_eq!(InputError::<String>::FalsePredicate.kind_name(), "FalsePredicate");
    assert_eq!(InputError::Parse(3u8).kind_name(), "Parse");
}
