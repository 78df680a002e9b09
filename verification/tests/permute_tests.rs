use std::collections::HashSet;

use gcode::permute::permute_whitespace;

#[test]
fn test_permute_whitespace() {
    let tokens = ["foo"];
    let expected: HashSet<String> = ["foo", " foo", "foo ", " foo "]
        .iter()
        .map(|s| s.to_string())
        .collect();
    let actual: HashSet<String> = permute_whitespace(&tokens).into_iter().collect();
    assert_eq!(expected, actual);
}

#[test]
fn mod_test_permute_whitespace() {
    let tokens = ["foo"];
    let expected: HashSet<String> = ["foo", " foo", "foo ", " foo "]
        .iter()
        .map(|s| s.to_string())
        .collect();
    let actual: HashSet<String> = permute_whitespace(&tokens).into_iter().collect();
    assert_eq!(expected, actual);
}

#[test]
fn permute_whitespace_two_tokens() {
    let tokens = ["G0", "X1"];
    let results = permute_whitespace(&tokens);
    assert_eq!(results.len(), 8);
    let set: HashSet<String> = results.into_iter().collect();
    assert!(set.contains("G0X1"));
    assert!(set.contains(" G0 X1 "));
    assert!(set.contains("G0 X1"));
}
