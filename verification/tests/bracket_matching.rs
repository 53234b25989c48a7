use bf_rs::find_matching_bracket;
use bf_rs::parse_string;
use bf_rs::BfError;

#[test]
fn forward_match() {
    assert_eq!(
        Ok(5),
        find_matching_bracket(&parse_string("-[-]-]]--", true), true)
    );
}

#[test]
fn backward_match() {
    assert_eq!(
        Ok(3),
        find_matching_bracket(&parse_string("--[[-[-]-", true), false)
    );
}

#[test]
fn forward_match_missing_partner() {
    assert_eq!(
        Err(BfError::UnmatchedBracket),
        find_matching_bracket(&parse_string("-[-]--", true), true)
    );
}

#[test]
fn backward_match_missing_partner() {
    assert_eq!(
        Err(BfError::UnmatchedBracket),
        find_matching_bracket(&parse_string("-[-]--", true), false)
    );
}
