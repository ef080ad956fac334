use htmlparse::stream::Stream;

#[test]
fn is_eof_exactly_at_buffer_length() {
    let data: Vec<u8> = b"ab".to_vec();
    let mut stream = Stream::new(&data);
    // Position 0 of 2: not at end; current is guarded by the check.
    assert!(!stream.is_eof());
    assert_eq!(*stream.current(), b'a');
    stream.advance();
    assert!(!stream.is_eof());
    assert_eq!(*stream.current(), b'b');
    stream.advance();
    // Position 2 of 2: at end, and only now.
    assert!(stream.is_eof());
}

#[test]
fn empty_buffer_starts_at_eof() {
    let data: Vec<u8> = Vec::new();
    let stream = Stream::new(&data);
    assert!(stream.is_eof());
}

#[test]
fn reconsume_steps_back_one_byte() {
    let data: Vec<u8> = b"xy".to_vec();
    let mut stream = Stream::new(&data);
    stream.advance();
    assert_eq!(*stream.current(), b'y');
    stream.reconsume();
    assert_eq!(*stream.current(), b'x');
}

#[test]
fn expect_matches_literal_without_consuming() {
    let data: Vec<u8> = b"DOCTYPE html".to_vec();
    let stream = Stream::new(&data);
    assert!(stream.expect(b"DOCTYPE"));
    assert!(!stream.expect(b"doctype"));
    assert!(!stream.expect(b"DOCTYPE html plus more"));
    assert_eq!(*stream.current(), b'D');
}

#[test]
fn expect_insensitive_ignores_ascii_case() {
    let data: Vec<u8> = b"dOcTyPe".to_vec();
    let stream = Stream::new(&data);
    assert!(stream.expect_insensitive(b"DOCTYPE"));
    assert!(stream.expect_insensitive(b"doctype"));
    assert!(!stream.expect_insensitive(b"DOCTYPES"));
}

#[test]
fn consume_skips_rest_of_matched_literal() {
    let data: Vec<u8> = b"--rest".to_vec();
    let mut stream = Stream::new(&data);
    stream.advance();
    stream.consume(b"--");
    assert_eq!(*stream.current(), b'r');
}
