use htmlparse::scanner::Parser;

#[test]
fn test_skipping_whitespace() {
    let test_value = "    t".as_bytes();
    let mut parser = Parser::new(test_value);
    parser.skip_whitespace();
    assert_eq!(b't', parser.stream.data[parser.stream.idx]);
}

#[test]
fn test_read_to_quote() {
    let test_value = "testing value\"".as_bytes();
    let mut parser = Parser::new(test_value);
    assert_eq!("testing value".as_bytes(), parser.read_to(b'"'));
}

#[test]
fn test_read_tag() {
    let test_value = "p >".as_bytes();
    let mut parser = Parser::new(test_value);
    let node = parser.parse_element();
    assert_eq!(node.get_tag_name(), "p".as_bytes());
}

#[test]
fn test_parse_attr() {
    let test_value = "class=\"test\">".as_bytes();
    let mut parser = Parser::new(test_value);
    let (attr_identifier, attr_value) = parser.read_attribute();
    assert_eq!("class".as_bytes(), attr_identifier);
    assert_eq!("\"test\"".as_bytes(), attr_value);
}

#[test]
fn test_parse_text() {
    let mut parser = Parser::new("this is just random text until <h>".as_bytes());
    let node = parser.parse_text();
    assert_eq!("this is just random text until ".as_bytes(), node.get_tag_name());
}

#[test]
fn test_read_attribute_without_value_reads_true() {
    let mut parser = Parser::new("disabled>".as_bytes());
    let (key, value) = parser.read_attribute();
    assert_eq!("disabled".as_bytes(), key);
    assert_eq!("true".as_bytes(), value);
}

#[test]
fn test_read_to_stops_at_end_without_needle() {
    let mut parser = Parser::new("abc".as_bytes());
    assert_eq!("abc".as_bytes(), parser.read_to(b'<'));
    assert!(parser.stream.is_eof());
}

#[test]
fn test_skip_whitespace_reports_end_of_data() {
    let mut parser = Parser::new("  ".as_bytes());
    assert_eq!(None, parser.skip_whitespace());
    assert!(parser.stream.is_eof());
}
