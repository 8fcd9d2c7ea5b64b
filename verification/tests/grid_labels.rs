use garage_door::grid::{parse_label, sorted_grid_labels};
use garage_door::ResolveError;

fn positions(labels: &[&str]) -> Vec<(String, usize)> {
    labels.iter().map(|l| (l.to_string(), 0)).collect()
}

#[test]
fn parse_bracketed_negative() {
    assert_eq!(parse_label(&"[-45]".to_string()), Some(-45));
}

#[test]
fn parse_bracketed_positive() {
    assert_eq!(parse_label(&"[30]".to_string()), Some(30));
    assert_eq!(parse_label(&"[0]".to_string()), Some(0));
}

#[test]
fn parse_without_brackets() {
    assert_eq!(parse_label(&"120".to_string()), Some(120));
    assert_eq!(parse_label(&"+7".to_string()), Some(7));
}

#[test]
fn parse_doubled_brackets() {
    assert_eq!(parse_label(&"[[15]]".to_string()), Some(15));
}

#[test]
fn parse_rejects_malformed() {
    assert_eq!(parse_label(&"".to_string()), None);
    assert_eq!(parse_label(&"[]".to_string()), None);
    assert_eq!(parse_label(&"[-]".to_string()), None);
    assert_eq!(parse_label(&"[1a]".to_string()), None);
    assert_eq!(parse_label(&"abc".to_string()), None);
    assert_eq!(parse_label(&"[1 2]".to_string()), None);
}

#[test]
fn parse_rejects_oversized() {
    // one past what a 64-bit word holds
    assert_eq!(parse_label(&"[9223372036854775808]".to_string()), None);
    assert_eq!(parse_label(&"[9223372036854775807]".to_string()), Some(i64::MAX));
    assert_eq!(parse_label(&"[-9223372036854775808]".to_string()), Some(i64::MIN));
    assert_eq!(parse_label(&"[-9223372036854775809]".to_string()), None);
}

#[test]
fn sort_by_enclosed_integer() {
    // regardless of the original order, labels come out by ascending
    // enclosed integer
    let sorted = sorted_grid_labels(&positions(&["[30]", "[-15]", "[0]"])).unwrap();
    assert_eq!(sorted, vec!["[-15]".to_string(), "[0]".to_string(), "[30]".to_string()]);
}

#[test]
fn sort_is_numeric_not_lexicographic() {
    let sorted = sorted_grid_labels(&positions(&["[100]", "[20]", "[-3]"])).unwrap();
    assert_eq!(sorted, vec!["[-3]".to_string(), "[20]".to_string(), "[100]".to_string()]);
}

#[test]
fn sort_fails_on_malformed_label() {
    let err = sorted_grid_labels(&positions(&["[30]", "[oops]"])).unwrap_err();
    match err {
        ResolveError::BadGridLabel { label } => assert_eq!(label, "[oops]"),
        other => panic!("unexpected error: {other:?}"),
    }
}
