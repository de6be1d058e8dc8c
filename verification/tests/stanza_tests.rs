use pkg_graph::stanza::read_package_from_lines;
use pkg_graph::stanza::ParseError;
use pkg_graph::stanza::Paragraph;
use pkg_graph::stanza::ReadOutcome;

fn lines(v: &[&str]) -> Vec<String> {
    v.iter().map(|s| s.to_string()).collect()
}

fn complete(v: &[&str], start: usize) -> (Paragraph, usize) {
    match read_package_from_lines(&lines(v), start, false) {
        ReadOutcome::Complete(p, next) => (p, next),
        other => panic!("expected a paragraph, got {:?}", other),
    }
}

#[test]
fn name_is_the_token_after_the_field() {
    let (p, next) = complete(&["Package: vim extra tokens", ""], 0);
    assert_eq!(p.name, "vim");
    assert_eq!(next, 2);
}

#[test]
fn description_continuation_lines() {
    // The header line contributes one token, then two indented lines follow;
    // a later non-indented line ends capture without ending the paragraph.
    let (p, next) = complete(
        &[
            "Package: vim",
            "Description: editor",
            " first continuation",
            "\tsecond continuation",
            "Homepage: nowhere",
            ""
        ],
        0,
    );
    assert_eq!(p.name, "vim");
    assert_eq!(p.description, vec![
        "editor".to_string(),
        "first continuation".to_string(),
        "second continuation".to_string(),
    ]);
    assert_eq!(next, 6);
}

#[test]
fn description_keeps_only_its_first_token() {
    let (p, _) = complete(&["Package: vim", "Description: short summary here", ""], 0);
    assert_eq!(p.description, vec!["short".to_string()]);
}

#[test]
fn indented_line_after_capture_stopped_is_ignored() {
    let (p, _) = complete(
        &["Package: vim", "Description: editor", "Homepage: nowhere", " indented again", ""],
        0,
    );
    assert_eq!(p.description, vec!["editor".to_string()]);
}

#[test]
fn depends_line_is_split_into_groups() {
    let (p, _) = complete(&["Package: vim", "Depends: a, b | c (>= 1.0) | d", ""], 0);
    assert_eq!(p.dep_groups, vec![vec!["a".to_string()], vec![
        "b".to_string(),
        "c".to_string(),
        "d".to_string(),
    ]]);
}

#[test]
fn second_depends_line_overwrites() {
    let (p, _) = complete(&["Package: vim", "Depends: a", "Depends: b", ""], 0);
    assert_eq!(p.dep_groups, vec![vec!["b".to_string()]]);
}

#[test]
fn no_depends_line_means_no_groups() {
    let (p, _) = complete(&["Package: vim", ""], 0);
    assert!(p.dep_groups.is_empty());
}

#[test]
fn blank_line_without_package_fails() {
    match read_package_from_lines(&lines(&["Homepage: nowhere", "", "Package: vim", ""]), 0, false)
    {
        ReadOutcome::Failed(e) => assert_eq!(e, ParseError::MissingPackageField),
        other => panic!("expected a failure, got {:?}", other),
    }
}

#[test]
fn end_of_input_with_package_yields_the_paragraph() {
    let (p, next) = complete(&["Package: vim", "Depends: a"], 0);
    assert_eq!(p.name, "vim");
    assert_eq!(p.dep_groups, vec![vec!["a".to_string()]]);
    assert_eq!(next, 2);
}

#[test]
fn end_of_input_without_package_ends_the_stream() {
    match read_package_from_lines(&lines(&["Homepage: nowhere"]), 0, false) {
        ReadOutcome::NoMoreParagraphs => {},
        other => panic!("expected the end of the stream, got {:?}", other),
    }
}

#[test]
fn empty_input_ends_the_stream() {
    match read_package_from_lines(&lines(&[]), 0, false) {
        ReadOutcome::NoMoreParagraphs => {},
        other => panic!("expected the end of the stream, got {:?}", other),
    }
}

#[test]
fn package_field_may_sit_anywhere_when_lenient() {
    let (p, _) = complete(&["Homepage: nowhere", "Package: vim", ""], 0);
    assert_eq!(p.name, "vim");
}

#[test]
fn strict_mode_requires_package_on_the_first_line() {
    match read_package_from_lines(&lines(&["Homepage: nowhere", "Package: vim", ""]), 0, true) {
        ReadOutcome::Failed(e) => assert_eq!(e, ParseError::MalformedHeader),
        other => panic!("expected a failure, got {:?}", other),
    }
}

#[test]
fn strict_mode_accepts_a_leading_package_line() {
    match read_package_from_lines(&lines(&["Package: vim", ""]), 0, true) {
        ReadOutcome::Complete(p, _) => assert_eq!(p.name, "vim"),
        other => panic!("expected a paragraph, got {:?}", other),
    }
}

#[test]
fn reading_resumes_at_the_returned_position() {
    let v = lines(&["Package: a", "", "Package: b", ""]);
    let (first, next) = match read_package_from_lines(&v, 0, false) {
        ReadOutcome::Complete(p, n) => (p, n),
        other => panic!("expected a paragraph, got {:?}", other),
    };
    assert_eq!(first.name, "a");
    let (second, end) = match read_package_from_lines(&v, next, false) {
        ReadOutcome::Complete(p, n) => (p, n),
        other => panic!("expected a paragraph, got {:?}", other),
    };
    assert_eq!(second.name, "b");
    match read_package_from_lines(&v, end, false) {
        ReadOutcome::NoMoreParagraphs => {},
        other => panic!("expected the end of the stream, got {:?}", other),
    }
}

#[test]
fn package_line_without_token_keeps_the_empty_name() {
    let (p, _) = complete(&["Package: ", ""], 0);
    assert_eq!(p.name, "");
}

#[test]
fn description_header_without_token_still_starts_capture() {
    let (p, _) = complete(&["Package: a", "Description: ", " only continuation", ""], 0);
    assert_eq!(p.description, vec!["only continuation".to_string()]);
}

#[test]
fn package_line_does_not_stop_description_capture() {
    // A field line recognised by its prefix is consumed without touching
    // capture state, so an indented line after it still continues the
    // description; the later name wins.
    let (p, _) = complete(
        &["Package: a", "Description: d", "Package: b", " more", ""],
        0,
    );
    assert_eq!(p.name, "b");
    assert_eq!(p.description, vec!["d".to_string(), "more".to_string()]);
}
