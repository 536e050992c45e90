use winston_transport::line_buffer::{render_batch, LineBuffer};
use winston_transport::LogRecord;

fn line_to_record(level: &str, line: Vec<u8>) -> LogRecord {
    LogRecord::new(level, &String::from_utf8_lossy(&line))
}

#[test]
fn test_owned_transport_to_writer() {
    // A transport used as a writer: written bytes become one record per
    // completed line.
    let mut writer = LineBuffer::new();
    let mut messages: Vec<String> = Vec::new();

    for line in writer.push_bytes(b"Test message 1\n") {
        messages.push(line_to_record("INFO", line).message);
    }
    for line in writer.push_bytes(b"Test message 2\n") {
        messages.push(line_to_record("INFO", line).message);
    }

    assert_eq!(messages.len(), 2);
    assert!(messages[0].contains("Test message 1"));
    assert!(messages[1].contains("Test message 2"));
}

#[test]
fn test_borrowed_transport_to_writer() {
    let mut writer = LineBuffer::new();
    let mut messages: Vec<String> = Vec::new();

    for line in writer.push_bytes(b"Borrowed message 1\nBorrowed message 2\n") {
        messages.push(line_to_record("INFO", line).message);
    }

    assert_eq!(messages.len(), 2);
    assert!(messages[0].contains("Borrowed message 1"));
    assert!(messages[1].contains("Borrowed message 2"));
}

#[test]
fn test_owned_writer_to_transport() {
    // A writer used as a transport: each logged record writes its message
    // and a newline.
    let records = vec![
        LogRecord::new("INFO", "Test log 1"),
        LogRecord::new("INFO", "Test log 2"),
    ];
    let bytes = render_batch(&records);
    let content = String::from_utf8(bytes).unwrap();
    assert!(content.contains("Test log 1"));
    assert!(content.contains("Test log 2"));
}

#[test]
fn test_borrowed_writer_to_transport() {
    let first = render_batch(&vec![LogRecord::new("INFO", "Borrowed log 1")]);
    let second = render_batch(&vec![LogRecord::new("INFO", "Borrowed log 2")]);
    let mut contents = String::from_utf8(first).unwrap();
    contents.push_str(&String::from_utf8(second).unwrap());
    assert!(contents.contains("Borrowed log 1"));
    assert!(contents.contains("Borrowed log 2"));
}

#[test]
fn test_partial_lines_wait_and_flush() {
    let mut writer = LineBuffer::new();
    let lines = writer.push_bytes(b"half");
    assert!(lines.is_empty());
    let lines = writer.push_bytes(b" a line\r\nand more");
    assert_eq!(lines.len(), 1);
    assert_eq!(lines[0], b"half a line".to_vec());
    // On flush the leftover is emitted untrimmed.
    let rest = writer.take_rest().unwrap();
    assert_eq!(rest, b"and more".to_vec());
    assert!(writer.take_rest().is_none());
}

#[test]
fn test_rendered_batch_layout() {
    let records = vec![LogRecord::new("INFO", "a"), LogRecord::new("INFO", "b")];
    let bytes = render_batch(&records);
    assert_eq!(bytes, b"a\nb\n".to_vec());
}
