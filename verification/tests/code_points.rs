use lexer::unicode::{count_code_points, iter_code_points};

#[test]
fn code_points_of_ascii_are_its_bytes() {
    assert_eq!(count_code_points(""), 0);
    assert_eq!(count_code_points("a"), 1);
    assert_eq!(count_code_points("var x = 1;"), 10);
    assert_eq!(iter_code_points("var x = 1;".chars()), 10);
}

#[test]
fn code_points_are_not_bytes() {
    let text = "h\u{e9}llo \u{4e16}\u{754c} \u{1f600}";
    assert_eq!(text.len(), 18);
    assert_eq!(count_code_points(text), 10);
    assert_eq!(iter_code_points(text.chars()), 10);
}

#[test]
fn code_points_left_in_a_used_iterator() {
    let mut it = "a\u{e9}b".chars();
    it.next();
    assert_eq!(iter_code_points(it), 2);
    let mut done = "".chars();
    assert_eq!(done.next(), None);
    assert_eq!(iter_code_points(done), 0);
}
