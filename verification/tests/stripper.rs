use httop::clean_up_comments;

#[test]
fn comment_lines_are_removed_in_order() {
    let input = "# heading\nkeep one\n   # indented comment\nkeep two\n# trailing";
    assert_eq!(clean_up_comments(input), "keep one\nkeep two");
}

#[test]
fn blank_and_whitespace_lines_are_preserved() {
    let input = "a\n\n   \nb";
    assert_eq!(clean_up_comments(input), "a\n\n   \nb");
}

#[test]
fn hash_after_other_content_is_not_a_comment() {
    let input = "value # not a comment";
    assert_eq!(clean_up_comments(input), "value # not a comment");
}

#[test]
fn all_comment_input_becomes_empty() {
    let input = "# one\n\t# two";
    assert_eq!(clean_up_comments(input), "");
}

#[test]
fn empty_input_stays_empty() {
    assert_eq!(clean_up_comments(""), "");
}

#[test]
fn comment_only_prefix_and_suffix() {
    let input = "# lead\nmiddle\n# tail\n";
    assert_eq!(clean_up_comments(input), "middle");
}

#[test]
fn final_line_ending_is_optional() {
    assert_eq!(clean_up_comments("x\n"), "x");
    assert_eq!(clean_up_comments("x"), "x");
    assert_eq!(clean_up_comments("x\n\n"), "x\n");
}

#[test]
fn crlf_line_endings_are_line_endings() {
    assert_eq!(clean_up_comments("a\r\nb\r\n"), "a\nb");
    assert_eq!(clean_up_comments("# c\r\nkeep\r\n"), "keep");
}

#[test]
fn lone_carriage_return_is_kept() {
    assert_eq!(clean_up_comments("a\rb"), "a\rb");
    assert_eq!(clean_up_comments("tail\r"), "tail\r");
}
