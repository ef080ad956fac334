use htmlparse::html::HTMLError;
use htmlparse::tokenizer::Tokenizer;
use htmlparse::tokens::{Tag, Token, TokenBuilder, TokenVariant};

/// Drives a fresh tokenizer over `data` and collects every token up to and
/// including the end of file.
fn tokenize(data: &[u8]) -> Vec<Token> {
    let owned: Vec<u8> = data.to_vec();
    let mut tokenizer = Tokenizer::new(&owned);
    let mut out = Vec::new();
    loop {
        match tokenizer.get_next_token() {
            Ok(Some(token)) => {
                let done = matches!(token, Token::EndOfFile);
                out.push(token);
                if done {
                    return out;
                }
            }
            Ok(None) => {}
            Err(e) => panic!("tokenizer failed: {:?}", e),
        }
    }
}

#[test]
fn builder_refuses_second_variant() {
    let mut builder = TokenBuilder::default();
    assert_eq!(builder.set_variant(TokenVariant::StartTag), Ok(()));
    assert_eq!(
        builder.set_variant(TokenVariant::Comment),
        Err(HTMLError::TokenBuilderImproperlyCleared)
    );
    // After a build the builder is clear again.
    builder.push_to_buffer(b'x');
    builder.commit_buffer_to_attr_keys();
    let token = builder.build();
    assert!(matches!(token, Token::StartTag(_)));
    assert_eq!(builder.set_variant(TokenVariant::Comment), Ok(()));
}

#[test]
fn duplicate_attribute_keeps_first_value() {
    // The duplicate attribute rule: the earlier occurrence wins.
    let tokens = tokenize(b"<div a=\"1\" a=\"2\">");
    match &tokens[0] {
        Token::StartTag(tag) => {
            assert_eq!(tag.name, b"div".to_vec());
            assert_eq!(tag.attr_keys, vec![b"a".to_vec()]);
            assert_eq!(tag.attr_values, vec![b"1".to_vec()]);
            assert!(!tag.self_closing);
        }
        other => panic!("expected a start tag, got {:?}", other),
    }
}

#[test]
fn round_trip_tag_fragment() {
    // Tokenizing a well-formed fragment and reassembling name, keys and
    // values reproduces the original spelling exactly.
    let tokens = tokenize(b"<tag attr=\"v\">text</tag>");
    match &tokens[0] {
        Token::StartTag(tag) => {
            assert_eq!(tag.name, b"tag".to_vec());
            assert_eq!(tag.attr_keys, vec![b"attr".to_vec()]);
            assert_eq!(tag.attr_values, vec![b"v".to_vec()]);
            let mut rebuilt: Vec<u8> = Vec::new();
            rebuilt.push(b'<');
            rebuilt.extend_from_slice(&tag.name);
            rebuilt.push(b' ');
            rebuilt.extend_from_slice(&tag.attr_keys[0]);
            rebuilt.extend_from_slice(b"=\"");
            rebuilt.extend_from_slice(&tag.attr_values[0]);
            rebuilt.extend_from_slice(b"\">");
            assert_eq!(rebuilt, b"<tag attr=\"v\">".to_vec());
        }
        other => panic!("expected a start tag, got {:?}", other),
    }
    assert_eq!(tokens[1], Token::Character(b't'));
    assert_eq!(tokens[2], Token::Character(b'e'));
    assert_eq!(tokens[3], Token::Character(b'x'));
    assert_eq!(tokens[4], Token::Character(b't'));
    match &tokens[5] {
        Token::EndTag(tag) => assert_eq!(tag.name, b"tag".to_vec()),
        other => panic!("expected an end tag, got {:?}", other),
    }
    assert_eq!(tokens[6], Token::EndOfFile);
}

#[test]
fn comment_is_tokenized_between_character_runs() {
    let tokens = tokenize(b"a<!--c-->b");
    assert_eq!(tokens[0], Token::Character(b'a'));
    assert_eq!(tokens[1], Token::Comment(b"c".to_vec()));
    assert_eq!(tokens[2], Token::Character(b'b'));
    assert_eq!(tokens[3], Token::EndOfFile);
}

#[test]
fn doctype_without_name_forces_quirks() {
    let tokens = tokenize(b"<!DOCTYPE>");
    match &tokens[0] {
        Token::Doctype(doctype) => {
            assert!(doctype.force_quirks);
            assert!(doctype.name.is_empty());
        }
        other => panic!("expected a doctype, got {:?}", other),
    }
}

#[test]
fn self_closing_tag_sets_flag() {
    let tokens = tokenize(b"<br/>");
    match &tokens[0] {
        Token::StartTag(tag) => {
            assert_eq!(tag.name, b"br".to_vec());
            assert!(tag.self_closing);
        }
        other => panic!("expected a start tag, got {:?}", other),
    }
}

#[test]
fn empty_input_yields_end_of_file_first() {
    let tokens = tokenize(b"");
    assert_eq!(tokens, vec![Token::EndOfFile]);
}

#[test]
fn nul_in_text_becomes_replacement_bytes() {
    let tokens = tokenize(b"\0");
    assert_eq!(tokens[0], Token::Character(0xFF));
    assert_eq!(tokens[1], Token::Character(0xFD));
    assert_eq!(tokens[2], Token::EndOfFile);
}

#[test]
fn unquoted_attribute_value_is_kept() {
    let tokens = tokenize(b"<a href=x>");
    match &tokens[0] {
        Token::StartTag(tag) => {
            assert_eq!(tag.attr_keys, vec![b"href".to_vec()]);
            assert_eq!(tag.attr_values, vec![b"x".to_vec()]);
        }
        other => panic!("expected a start tag, got {:?}", other),
    }
}

#[test]
fn ampersand_stays_literal_text() {
    // Entity decoding is a pluggable lookup outside this subset: the bytes
    // of the reference come through as literal characters.
    let tokens = tokenize(b"&amp;");
    let bytes: Vec<u8> = tokens
        .iter()
        .filter_map(|t| match t {
            Token::Character(b) => Some(*b),
            _ => None,
        })
        .collect();
    assert_eq!(bytes, b"&amp;".to_vec());
}

#[test]
fn present_spells_out_tokens() {
    assert_eq!(Token::EndOfFile.present(), "EOF");
    assert_eq!(Token::Character(b'x').present(), "Character: x");
    assert_eq!(Token::Comment(b"hi".to_vec()).present(), "Comment: hi");
    let tag = Tag {
        name: b"div".to_vec(),
        self_closing: false,
        attr_keys: vec![b"a".to_vec()],
        attr_values: vec![b"1".to_vec()],
    };
    assert_eq!(Token::StartTag(tag).present(), "StartTag: div[ a: 1]");
}

#[test]
fn get_class_list_finds_first_class_attribute() {
    let tag = Tag {
        name: b"div".to_vec(),
        self_closing: false,
        attr_keys: vec![b"id".to_vec(), b"class".to_vec()],
        attr_values: vec![b"x".to_vec(), b"a b".to_vec()],
    };
    assert_eq!(tag.get_class_list(), Some(String::from("a b")));
    let plain = Tag {
        name: b"div".to_vec(),
        self_closing: false,
        attr_keys: vec![b"id".to_vec()],
        attr_values: vec![b"x".to_vec()],
    };
    assert_eq!(plain.get_class_list(), None);
}

#[test]
fn doctype_test_forces_quirks() {
    let mut doctype = htmlparse::tokens::DocType::default();
    assert!(!doctype.force_quirks);
    doctype.test();
    assert!(doctype.force_quirks);
}
