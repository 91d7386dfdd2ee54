use rodo::lines::{render_lines, split_lines};

#[test]
fn split_terminated_lines() {
    let lines = split_lines(b"a\nbc\n");
    assert_eq!(lines.len(), 2);
    assert_eq!(lines[0], b"a".to_vec());
    assert_eq!(lines[1], b"bc".to_vec());
}

#[test]
fn split_unterminated_tail() {
    let lines = split_lines(b"a\nb");
    assert_eq!(lines.len(), 2);
    assert_eq!(lines[0], b"a".to_vec());
    assert_eq!(lines[1], b"b".to_vec());
}

#[test]
fn split_empty_input_has_no_lines() {
    let lines = split_lines(b"");
    assert_eq!(lines.len(), 0);
}

#[test]
fn split_lone_newline_is_one_empty_line() {
    let lines = split_lines(b"\n");
    assert_eq!(lines.len(), 1);
    assert_eq!(lines[0], b"".to_vec());
}

#[test]
fn split_drops_carriage_return_before_newline() {
    let lines = split_lines(b"a\r\nb\n");
    assert_eq!(lines.len(), 2);
    assert_eq!(lines[0], b"a".to_vec());
    assert_eq!(lines[1], b"b".to_vec());
}

#[test]
fn split_keeps_carriage_return_without_newline() {
    let lines = split_lines(b"a\r");
    assert_eq!(lines.len(), 1);
    assert_eq!(lines[0], b"a\r".to_vec());
}

#[test]
fn render_joins_with_single_newlines() {
    let lines = vec![b"one".to_vec(), b"two".to_vec()];
    assert_eq!(render_lines(&lines), b"one\ntwo\n".to_vec());
}

#[test]
fn render_of_split_restores_terminated_input() {
    let input = b"hello\nworld\n".to_vec();
    let lines = split_lines(&input);
    assert_eq!(render_lines(&lines), input);
}

#[test]
fn render_of_split_terminates_last_line() {
    let lines = split_lines(b"hello\nworld");
    assert_eq!(render_lines(&lines), b"hello\nworld\n".to_vec());
}
