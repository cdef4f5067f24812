use llmtmplog::lines::{displayed, emit_line, terminate};
use llmtmplog::preview::LineTracker;

fn numbers(n: usize) -> Vec<u8> {
    let mut bytes = Vec::new();
    for i in 1..n + 1 {
        bytes.extend_from_slice(format!("{i}\n").as_bytes());
    }
    bytes
}

fn preview(show_head: bool, show_tail: bool, chunks: &[&[u8]]) -> Vec<String> {
    let mut tracker = LineTracker::new(show_head, show_tail);
    let mut out = Vec::new();
    for chunk in chunks {
        out.extend(tracker.feed(chunk));
    }
    out.extend(tracker.flush_tail());
    out
}

#[test]
fn head_comes_as_the_output_comes() {
    let mut tracker = LineTracker::new(true, false);
    assert!(tracker.active());
    assert_eq!(tracker.feed(b"one\ntw"), vec!["one\n"]);
    assert_eq!(tracker.feed(b"o\n"), vec!["two\n"]);
    assert!(tracker.feed(b"").is_empty());
    assert!(tracker.feed(b"three").is_empty());
    assert_eq!(tracker.flush_tail(), vec!["three\n"]);
}

#[test]
fn tail_comes_at_the_end() {
    let mut tracker = LineTracker::new(false, true);
    assert!(tracker.feed(&numbers(60)).is_empty());
    assert!(tracker.feed(b"last").is_empty());
    let out = tracker.flush_tail();
    assert_eq!(out.len(), 50);
    assert_eq!(out[0], "12\n");
    assert_eq!(out[48], "60\n");
    assert_eq!(out[49], "last\n");
}

#[test]
fn head_and_tail_of_short_output_overlap() {
    let out = preview(true, true, &[b"a\nb\n", b"c"]);
    assert_eq!(out, vec!["a\n", "b\n", "c\n", "a\n", "b\n", "c\n"]);
}

#[test]
fn nothing_is_shown_without_flags() {
    let tracker = LineTracker::new(false, false);
    assert!(!tracker.active());
    assert!(preview(false, false, &[&numbers(100), b"more"]).is_empty());
}

#[test]
fn chunks_do_not_matter() {
    let whole = numbers(120);
    let expected = preview(true, true, &[&whole]);
    for size in [1, 2, 3, 7, 100] {
        let chunks: Vec<&[u8]> = whole.chunks(size).collect();
        assert_eq!(preview(true, true, &chunks), expected);
    }
}

#[test]
fn finish_line_takes_what_is_there() {
    let mut tracker = LineTracker::new(true, true);
    assert!(tracker.feed(b"abc").is_empty());
    assert_eq!(tracker.finish_line(), Some("abc\n".to_string()));
    assert_eq!(tracker.finish_line(), Some("\n".to_string()));
    let mut tracker = LineTracker::new(false, true);
    tracker.feed(b"abc");
    assert_eq!(tracker.finish_line(), None);
    assert_eq!(tracker.flush_tail(), vec!["abc\n"]);
}

#[test]
fn no_more_than_50_head_lines() {
    let mut tracker = LineTracker::new(true, false);
    assert_eq!(tracker.feed(&numbers(49)).len(), 49);
    assert_eq!(tracker.feed(b"x\ny\nz\n"), vec!["x\n"]);
    assert_eq!(tracker.finish_line(), None);
}

#[test]
fn overlong_lines_are_cut_at_chunk_ends() {
    let mut tracker = LineTracker::new(true, false);
    assert!(tracker.feed(&vec![b'a'; 8192]).is_empty());
    let out = tracker.feed(b"a");
    assert_eq!(out.len(), 1);
    assert_eq!(out[0], format!("{}\n", "a".repeat(4096)));
    assert_eq!(tracker.feed(b"b\n"), vec!["b\n"]);

    let mut tracker = LineTracker::new(true, false);
    let mut line = vec![b'a'; 20000];
    line.push(b'\n');
    assert_eq!(tracker.feed(&line).len(), 1);
}

#[test]
fn lines_are_shown_up_to_4096_bytes() {
    assert_eq!(emit_line(&vec![b'x'; 5000]), format!("{}\n", "x".repeat(4096)));
    let mut line = vec![b'x'; 4095];
    line.push(b'\n');
    assert_eq!(emit_line(&line), format!("{}\n", "x".repeat(4095)));
    let mut line = vec![b'x'; 4096];
    line.push(b'\n');
    assert_eq!(emit_line(&line), format!("{}\n", "x".repeat(4096)));
    assert_eq!(displayed(b"abc"), b"abc");
    assert_eq!(displayed(&[1u8; 4097]).len(), 4096);
}

#[test]
fn lines_need_not_be_text() {
    assert_eq!(emit_line(b"h\xc3\xa9llo\n"), "h\u{e9}llo\n");
    assert_eq!(emit_line(b"a\xff\xfeb\n"), "a\u{fffd}\u{fffd}b\n");
    assert_eq!(emit_line(b"\xff"), "\u{fffd}\n");
    // The cut may fall within a character.
    let mut line = vec![b'x'; 4095];
    line.extend_from_slice("\u{e9}\n".as_bytes());
    assert_eq!(emit_line(&line), format!("{}\u{fffd}\n", "x".repeat(4095)));
}

#[test]
fn a_newline_is_added_where_it_is_missing() {
    assert_eq!(terminate("abc".to_string()), "abc\n");
    assert_eq!(terminate("abc\n".to_string()), "abc\n");
    assert_eq!(terminate(String::new()), "\n");
    assert_eq!(emit_line(b""), "\n");
}
