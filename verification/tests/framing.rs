use vecdb::framing::{frame_lines, split_lines, CARRIAGE_RETURN, LINE_FEED};

fn bytes_of(lines: &[&str]) -> Vec<Vec<u8>> {
    lines.iter().map(|line| line.as_bytes().to_vec()).collect()
}

#[test]
fn line_end_bytes() {
    assert_eq!(LINE_FEED, b'\n');
    assert_eq!(CARRIAGE_RETURN, b'\r');
}

#[test]
fn framing_ends_each_line_with_a_line_feed() {
    assert_eq!(frame_lines(&bytes_of(&["ab", "", "c"])), b"ab\n\nc\n".to_vec());
    assert_eq!(frame_lines(&Vec::new()), Vec::<u8>::new());
    assert_eq!(frame_lines(&bytes_of(&[""])), b"\n".to_vec());
}

#[test]
fn splitting_cuts_at_line_feeds() {
    assert_eq!(split_lines(b"ab\n\nc\n"), bytes_of(&["ab", "", "c"]));
    assert_eq!(split_lines(b""), Vec::<Vec<u8>>::new());
    assert_eq!(split_lines(b"\n"), bytes_of(&[""]));
    assert_eq!(split_lines(b"\n\n"), bytes_of(&["", ""]));
}

#[test]
fn splitting_keeps_an_unfinished_last_line() {
    assert_eq!(split_lines(b"ab\ncd"), bytes_of(&["ab", "cd"]));
    assert_eq!(split_lines(b"cd"), bytes_of(&["cd"]));
}

#[test]
fn splitting_drops_a_carriage_return_before_a_line_feed() {
    assert_eq!(split_lines(b"ab\r\ncd\r\n"), bytes_of(&["ab", "cd"]));
    assert_eq!(split_lines(b"a\rb\n"), bytes_of(&["a\rb"]));
    assert_eq!(split_lines(b"ab\r\r\n"), bytes_of(&["ab\r"]));
    assert_eq!(split_lines(b"\r\n"), bytes_of(&[""]));
    assert_eq!(split_lines(b"ab\r"), bytes_of(&["ab\r"]));
}

#[test]
fn framed_lines_split_back() {
    let lines = bytes_of(&[
        "{\"id\":0,\"operation\":\"Insert\",\"vector\":{\"x\":1.0,\"y\":2.0,\"z\":3.0}}",
        "{\"id\":0,\"operation\":\"Delete\",\"vector\":{\"x\":1.0,\"y\":2.0,\"z\":3.0}}",
        "",
        "x",
    ]);
    assert_eq!(split_lines(&frame_lines(&lines)), lines);
}

#[test]
fn appended_batches_split_into_all_their_lines() {
    let first = bytes_of(&["one", "two"]);
    let second = bytes_of(&["three"]);
    let mut stored = frame_lines(&first);
    stored.extend(frame_lines(&second));
    assert_eq!(split_lines(&stored), bytes_of(&["one", "two", "three"]));
}
