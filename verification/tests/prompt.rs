use dexios::error::Error;
use dexios::prompt::{confirm, get_answer, SkipMode};

#[test]
fn a_line_break_stands_for_the_default() {
    assert_eq!(get_answer("\n", true), Ok(Some(true)));
    assert_eq!(get_answer("\n", false), Ok(Some(false)));
    assert_eq!(get_answer("\r\n", true), Ok(Some(true)));
    assert_eq!(get_answer("\r\n", false), Ok(Some(false)));
}

#[test]
fn yes_and_no_in_either_case() {
    assert_eq!(get_answer("y\n", false), Ok(Some(true)));
    assert_eq!(get_answer("Y\n", false), Ok(Some(true)));
    assert_eq!(get_answer("yes\n", false), Ok(Some(true)));
    assert_eq!(get_answer("n\n", true), Ok(Some(false)));
    assert_eq!(get_answer("N\n", true), Ok(Some(false)));
    assert_eq!(get_answer("nope", true), Ok(Some(false)));
}

#[test]
fn anything_else_asks_again() {
    assert_eq!(get_answer("maybe\n", true), Ok(None));
    assert_eq!(get_answer(" y\n", true), Ok(None));
    assert_eq!(get_answer("1\n", false), Ok(None));
    assert_eq!(get_answer("ÿ\n", false), Ok(None));
}

#[test]
fn the_end_of_the_input_is_a_failure() {
    assert_eq!(get_answer("", true), Err(Error::IoFailure));
    assert_eq!(get_answer("", false), Err(Error::IoFailure));
}

#[test]
fn a_negative_answer_aborts_unless_prompts_are_hidden() {
    assert_eq!(confirm(SkipMode::ShowPrompts, true), Ok(()));
    assert_eq!(confirm(SkipMode::ShowPrompts, false), Err(Error::UserAborted));
    assert_eq!(confirm(SkipMode::HidePrompts, false), Ok(()));
    assert_eq!(confirm(SkipMode::HidePrompts, true), Ok(()));
}
