use repo_index::writer::{CountingWriter, WriteError};

#[test]
fn counting_writer_counts_line_feeds() {
    let mut sink = CountingWriter::new(Vec::new(), 0);
    assert_eq!(sink.write(b"one\ntwo\n"), Ok(8));
    assert_eq!(sink.write(b"no line"), Ok(7));
    assert_eq!(sink.write(b"\n"), Ok(1));
    assert_eq!(sink.lines(), 3);
    assert_eq!(sink.bytes().as_slice(), b"one\ntwo\nno line\n");
}

#[test]
fn counting_writer_continues_buffer_and_counter() {
    let mut sink = CountingWriter::new(b"kept\n".to_vec(), 41);
    assert_eq!(sink.write("é\n".as_bytes()), Ok(3));
    sink.flush();
    let (bytes, count) = sink.into_parts();
    assert_eq!(bytes, "kept\né\n".as_bytes());
    assert_eq!(count, 42);
}

#[test]
fn counting_writer_counts_line_feeds_of_any_bytes() {
    let mut sink = CountingWriter::new(Vec::new(), 5);
    assert_eq!(sink.write(&[0xff, b'\n', b'\n']), Ok(3));
    assert_eq!(sink.lines(), 7);
    assert_eq!(sink.bytes().as_slice(), &[0xff, b'\n', b'\n']);
    assert!(!sink.refused());
}

#[test]
fn counting_writer_refuses_to_overflow() {
    let mut sink = CountingWriter::new(Vec::new(), usize::MAX - 1);
    assert!(!sink.refused());
    assert_eq!(sink.write(b"a\nb\n"), Err(WriteError::CounterOverflow));
    assert!(sink.refused());
    assert_eq!(sink.lines(), usize::MAX - 1);
    assert!(sink.bytes().is_empty());
    assert_eq!(sink.write(b"a\n"), Ok(2));
    assert_eq!(sink.lines(), usize::MAX);
    assert_eq!(sink.write(b"no line feed"), Ok(12));
    assert_eq!(sink.write(b"\n"), Err(WriteError::CounterOverflow));
}

#[test]
fn count_stays_in_step_with_lines_written() {
    let mut sink = CountingWriter::new(Vec::new(), 0);
    for chunk in ["a\n", "", "b", "\n\n", "c\nd\ne", "\n"] {
        let _ = sink.write(chunk.as_bytes());
    }
    let lines = sink.bytes().iter().filter(|b| **b == b'\n').count();
    assert_eq!(sink.lines(), lines);
    assert_eq!(lines, 6);
}
