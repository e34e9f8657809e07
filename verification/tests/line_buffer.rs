//! Lines out of a stream of bytes.
use std::time::Duration;

use mish::line_buffer::{is_erase_sequence, Line, LineBuffer};

// Test 6: Complete line via LF
#[test]
fn test_complete_line_via_lf() {
    let mut buf = LineBuffer::new();
    let lines = buf.ingest(b"hello world\n");
    assert_eq!(lines, vec![Line::Complete("hello world".to_string())]);
}

// Test 7: Windows CRLF handling
#[test]
fn test_crlf_handling() {
    let mut buf = LineBuffer::new();
    let lines = buf.ingest(b"hello\r\nworld\r\n");
    assert_eq!(
        lines,
        vec![
            Line::Complete("hello".to_string()),
            Line::Complete("world".to_string()),
        ]
    );
}

// Test 8: Multiple lines in one chunk
#[test]
fn test_multiple_lines_in_one_chunk() {
    let mut buf = LineBuffer::new();
    let lines = buf.ingest(b"line1\nline2\nline3\n");
    assert_eq!(
        lines,
        vec![
            Line::Complete("line1".to_string()),
            Line::Complete("line2".to_string()),
            Line::Complete("line3".to_string()),
        ]
    );
}

// Test 9: Partial line timeout (after 500ms)
#[test]
fn test_partial_line_timeout() {
    let mut buf = LineBuffer::new();
    buf.partial_timeout = Duration::from_millis(50); // shorter for test
    let lines = buf.ingest(b"partial data");
    assert!(lines.is_empty());

    // Not yet timed out
    assert!(buf.emit_partial_after(Duration::from_millis(10)).is_none());

    // After the timeout
    let partial = buf.emit_partial_after(Duration::from_millis(60));
    assert_eq!(partial, Some(Line::Partial("partial data".to_string())));
}

#[test]
fn partial_lines_without_patience() {
    let mut buf = LineBuffer::new();
    buf.partial_timeout = Duration::ZERO;
    assert_eq!(buf.emit_partial(), None);
    buf.ingest(b"wait");
    assert_eq!(buf.emit_partial(), Some(Line::Partial("wait".to_string())));
    assert_eq!(buf.emit_partial(), None);
    buf.partial_timeout = Duration::from_secs(3600);
    buf.ingest(b"wait");
    assert_eq!(buf.emit_partial(), None);
}

// Test 10: Overwrite via CR
#[test]
fn test_overwrite_via_cr() {
    let mut buf = LineBuffer::new();
    let lines = buf.ingest(b"progress 50%\rprogress 100%\n");
    assert_eq!(
        lines,
        vec![
            Line::Overwrite("progress 50%".to_string()),
            Line::Complete("progress 100%".to_string()),
        ]
    );
}

// Test 11: Progress bar collapse (multiple CRs, one final LF)
#[test]
fn test_progress_bar_collapse() {
    let mut buf = LineBuffer::new();
    let lines = buf.ingest(b"10%\r20%\r30%\r40%\rdone\n");
    assert_eq!(
        lines,
        vec![
            Line::Overwrite("10%".to_string()),
            Line::Overwrite("20%".to_string()),
            Line::Overwrite("30%".to_string()),
            Line::Overwrite("40%".to_string()),
            Line::Complete("done".to_string()),
        ]
    );
}

// Test 12: CR without content after
#[test]
fn test_cr_without_content_after() {
    let mut buf = LineBuffer::new();
    let lines = buf.ingest(b"hello\r");
    assert_eq!(lines, vec![Line::Overwrite("hello".to_string())]);
    // Partial buffer should be empty
    assert!(buf.partial.is_empty());
}

// Test 13: Empty line (just LF)
#[test]
fn test_empty_line() {
    let mut buf = LineBuffer::new();
    let lines = buf.ingest(b"\n");
    assert_eq!(lines, vec![Line::Complete("".to_string())]);
}

// Test 14: Finalize flushes partial
#[test]
fn test_finalize_flushes_partial() {
    let mut buf = LineBuffer::new();
    let lines = buf.ingest(b"no newline");
    assert!(lines.is_empty());

    let lines = buf.finalize(b"");
    assert_eq!(lines, vec![Line::Partial("no newline".to_string())]);
}

// Test 15: Binary data / invalid UTF-8 (lossy conversion)
#[test]
fn test_invalid_utf8_lossy() {
    let mut buf = LineBuffer::new();
    // Invalid UTF-8: 0xFF 0xFE are not valid UTF-8 bytes
    let lines = buf.ingest(b"hello \xff\xfe world\n");
    assert_eq!(lines.len(), 1);
    match &lines[0] {
        Line::Complete(s) => {
            assert!(s.contains("hello"));
            assert!(s.contains("world"));
            // Should contain replacement characters
            assert!(s.contains('\u{FFFD}'));
        }
        other => panic!("expected Complete, got {:?}", other),
    }
}

// Test 16: CSI erase-to-end-of-line detection
#[test]
fn test_csi_erase_to_end_of_line() {
    let mut buf = LineBuffer::new();
    // ESC [ K — erase to end of line
    let mut input = Vec::new();
    input.extend_from_slice(b"old text");
    input.extend_from_slice(b"\x1b[K");
    input.extend_from_slice(b"new text\n");
    let lines = buf.ingest(&input);
    assert_eq!(
        lines,
        vec![
            Line::Overwrite("old text".to_string()),
            Line::Complete("new text".to_string()),
        ]
    );
}

// Test 17: CSI cursor up detection
#[test]
fn test_csi_cursor_up() {
    let mut buf = LineBuffer::new();
    let mut input = Vec::new();
    input.extend_from_slice(b"line content");
    input.extend_from_slice(b"\x1b[A");
    input.extend_from_slice(b"replacement\n");
    let lines = buf.ingest(&input);
    assert_eq!(
        lines,
        vec![
            Line::Overwrite("line content".to_string()),
            Line::Complete("replacement".to_string()),
        ]
    );
}

// Test 18: Mixed content: normal lines + progress + CSI sequences
#[test]
fn test_mixed_content() {
    let mut buf = LineBuffer::new();
    let mut input = Vec::new();
    input.extend_from_slice(b"Starting...\n");
    input.extend_from_slice(b"10%\r20%\r30%\n");
    input.extend_from_slice(b"processing");
    input.extend_from_slice(b"\x1b[K");
    input.extend_from_slice(b"done\n");
    input.extend_from_slice(b"Finished!\n");

    let lines = buf.ingest(&input);
    assert_eq!(
        lines,
        vec![
            Line::Complete("Starting...".to_string()),
            Line::Overwrite("10%".to_string()),
            Line::Overwrite("20%".to_string()),
            Line::Complete("30%".to_string()),
            Line::Overwrite("processing".to_string()),
            Line::Complete("done".to_string()),
            Line::Complete("Finished!".to_string()),
        ]
    );
}

// Additional: CRLF split across chunks
#[test]
fn test_crlf_split_across_chunks() {
    let mut buf = LineBuffer::new();
    // First chunk ends with \r, second starts with \n
    let lines1 = buf.ingest(b"hello\r");
    // \r alone means overwrite
    assert_eq!(lines1, vec![Line::Overwrite("hello".to_string())]);

    // But if next byte is \n, we should get a complete line
    // Since we already emitted the overwrite, the \n produces an empty complete
    let lines2 = buf.ingest(b"\n");
    assert_eq!(lines2, vec![Line::Complete("".to_string())]);
}

// Finalize with remaining bytes
#[test]
fn test_finalize_with_remaining() {
    let mut buf = LineBuffer::new();
    buf.ingest(b"start ");
    let lines = buf.finalize(b"end");
    assert_eq!(lines, vec![Line::Partial("start end".to_string())]);
}
