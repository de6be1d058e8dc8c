use pkg_graph::deps::parse_dependencies;

fn groups(raw: &str) -> Vec<Vec<String>> {
    parse_dependencies(raw)
}

#[test]
fn alternatives_and_version_annotation() {
    // One plain clause, then one clause with three alternatives, the second
    // of which carries a version annotation.
    let g = groups("a, b | c (>= 1.0) | d");
    assert_eq!(g, vec![vec!["a".to_string()], vec![
        "b".to_string(),
        "c".to_string(),
        "d".to_string(),
    ]]);
}

#[test]
fn single_name() {
    assert_eq!(groups("libc6"), vec![vec!["libc6".to_string()]]);
}

#[test]
fn version_annotation_is_dropped() {
    assert_eq!(groups("libc6 (>= 2.2.5)"), vec![vec!["libc6".to_string()]]);
    assert_eq!(groups("libc6(>= 2.2.5)"), vec![vec!["libc6".to_string()]]);
}

#[test]
fn whitespace_is_trimmed() {
    assert_eq!(groups("  a  ,\tb "), vec![vec!["a".to_string()], vec!["b".to_string()]]);
}

#[test]
fn empty_alternative_is_kept() {
    // A malformed clause that trims to nothing is kept as the empty name.
    let g = groups("a,,b");
    assert_eq!(g, vec![vec!["a".to_string()], vec![String::new()], vec!["b".to_string()]]);
}

#[test]
fn empty_input_is_one_empty_alternative() {
    assert_eq!(groups(""), vec![vec![String::new()]]);
}

#[test]
fn pipes_without_commas() {
    let g = groups("x | y");
    assert_eq!(g, vec![vec!["x".to_string(), "y".to_string()]]);
}

#[test]
fn annotation_swallows_rest_of_alternative() {
    // Everything from the first `(` onward goes, even a stray `|` inside.
    let g = groups("a (>= 1 | b)");
    assert_eq!(g, vec![vec!["a".to_string(), "b)".to_string()]]);
}
