use htmlparse::domtree::{DomObject, DomTree};
use htmlparse::html::{make_dom, HTMLError};
use htmlparse::parser::{Mode, Parser};
use htmlparse::tokenizer::{States, Tokenizer};
use htmlparse::tokens::Token;

/// The children of the node behind `handle`.
fn children_of(tree: &DomTree, handle: usize) -> Vec<usize> {
    tree.arena.get(handle).expect("live node").children.clone()
}

/// The payload of the node behind `handle`.
fn payload_of(tree: &DomTree, handle: usize) -> &DomObject {
    &tree.arena.get(handle).expect("live node").dom_obj
}

#[test]
fn whole_document_builds_expected_tree() {
    let data = b"<!DOCTYPE html><html><head><title>Hi</title></head><body>Hello</body></html>"
        .to_vec();
    let tree = make_dom(&data).expect("document parses");
    let root = tree.root.expect("root handle");
    assert!(matches!(payload_of(&tree, root), DomObject::Document));
    let top = children_of(&tree, root);
    assert_eq!(top.len(), 2);
    match payload_of(&tree, top[0]) {
        DomObject::DocumentType(doctype) => assert_eq!(doctype.name, b"html".to_vec()),
        other => panic!("expected a document type, got {:?}", other),
    }
    match payload_of(&tree, top[1]) {
        DomObject::Element(name) => assert_eq!(name, &b"html".to_vec()),
        other => panic!("expected the html element, got {:?}", other),
    }
    let html_children = children_of(&tree, top[1]);
    assert_eq!(html_children.len(), 2);
    assert!(matches!(payload_of(&tree, html_children[0]), DomObject::Head));
    assert_eq!(tree.head, Some(html_children[0]));
    match payload_of(&tree, html_children[1]) {
        DomObject::Element(name) => assert_eq!(name, &b"body".to_vec()),
        other => panic!("expected the body element, got {:?}", other),
    }
    let head_children = children_of(&tree, html_children[0]);
    assert_eq!(head_children.len(), 1);
    match payload_of(&tree, head_children[0]) {
        DomObject::Element(name) => assert_eq!(name, &b"title".to_vec()),
        other => panic!("expected the title element, got {:?}", other),
    }
    let title_children = children_of(&tree, head_children[0]);
    assert_eq!(title_children.len(), 1);
    match payload_of(&tree, title_children[0]) {
        DomObject::Text(text) => assert_eq!(text, &b"Hi".to_vec()),
        other => panic!("expected the title text, got {:?}", other),
    }
    let body_children = children_of(&tree, html_children[1]);
    assert_eq!(body_children.len(), 1);
    match payload_of(&tree, body_children[0]) {
        DomObject::Text(text) => assert_eq!(text, &b"Hello".to_vec()),
        other => panic!("expected the body text, got {:?}", other),
    }
}

#[test]
fn empty_document_yields_bare_root() {
    let data: Vec<u8> = Vec::new();
    let tree = make_dom(&data).expect("empty document parses");
    let root = tree.root.expect("root handle");
    assert!(matches!(payload_of(&tree, root), DomObject::Document));
    assert!(children_of(&tree, root).is_empty());
    assert_eq!(tree.doctype, None);
    assert_eq!(tree.head, None);
}

#[test]
fn foreign_doctype_is_a_parse_error() {
    let data = b"<!DOCTYPE foo>".to_vec();
    assert_eq!(make_dom(&data).err(), Some(HTMLError::ParseError));
}

#[test]
fn comment_breaks_text_coalescing() {
    let data =
        b"<!DOCTYPE html><html><head><title>T</title></head><body><p>a<!--c-->b</p></body></html>"
            .to_vec();
    let tree = make_dom(&data).expect("document parses");
    let root = tree.root.expect("root handle");
    let top = children_of(&tree, root);
    let html_children = children_of(&tree, top[1]);
    let body_children = children_of(&tree, html_children[1]);
    assert_eq!(body_children.len(), 1);
    match payload_of(&tree, body_children[0]) {
        DomObject::Element(name) => assert_eq!(name, &b"p".to_vec()),
        other => panic!("expected the p element, got {:?}", other),
    }
    // Two separate text runs: the comment broke the coalescing between them.
    let p_children = children_of(&tree, body_children[0]);
    assert_eq!(p_children.len(), 2);
    match payload_of(&tree, p_children[0]) {
        DomObject::Text(text) => assert_eq!(text, &b"a".to_vec()),
        other => panic!("expected the first text run, got {:?}", other),
    }
    match payload_of(&tree, p_children[1]) {
        DomObject::Text(text) => assert_eq!(text, &b"b".to_vec()),
        other => panic!("expected the second text run, got {:?}", other),
    }
}

#[test]
fn coalescing_yields_one_text_node_per_run() {
    let data = b"<!DOCTYPE html><html><head><title>x</title></head><body>abcdef</body></html>"
        .to_vec();
    let tree = make_dom(&data).expect("document parses");
    let root = tree.root.expect("root handle");
    let top = children_of(&tree, root);
    let html_children = children_of(&tree, top[1]);
    let body_children = children_of(&tree, html_children[1]);
    assert_eq!(body_children.len(), 1);
    match payload_of(&tree, body_children[0]) {
        DomObject::Text(text) => assert_eq!(text, &b"abcdef".to_vec()),
        other => panic!("expected one text node for the run, got {:?}", other),
    }
}

#[test]
fn title_start_tag_switches_tokenizer_to_rcdata() {
    // Drive the two machines by hand, exactly as the driver loop would, and
    // look at the tokenizer's lexical state after the parser has processed
    // the title start tag.
    let data = b"<!DOCTYPE html><html><head><title>".to_vec();
    let mut tokenizer = Tokenizer::new(&data);
    let mut parser = Parser::new();
    loop {
        match tokenizer.get_next_token() {
            Ok(Some(Token::EndOfFile)) => break,
            Ok(Some(token)) => match parser.parse_token(token) {
                Ok(Some(state)) => tokenizer.state = state,
                Ok(None) => {}
                Err(e) => panic!("parser failed: {:?}", e),
            },
            Ok(None) => {}
            Err(e) => panic!("tokenizer failed: {:?}", e),
        }
    }
    assert!(matches!(tokenizer.state, States::RCData));
    assert!(matches!(parser.insertion_mode, Mode::Text));
}

#[test]
fn style_content_is_lexed_as_rawtext() {
    // Inside a style element an ampersand is plain text, and the matching
    // end tag closes the element.
    let data =
        b"<!DOCTYPE html><html><head><style>a&b</style></head><body>x</body></html>".to_vec();
    let tree = make_dom(&data).expect("document parses");
    let root = tree.root.expect("root handle");
    let top = children_of(&tree, root);
    let html_children = children_of(&tree, top[1]);
    let head_children = children_of(&tree, html_children[0]);
    assert_eq!(head_children.len(), 1);
    match payload_of(&tree, head_children[0]) {
        DomObject::Element(name) => assert_eq!(name, &b"style".to_vec()),
        other => panic!("expected the style element, got {:?}", other),
    }
    let style_children = children_of(&tree, head_children[0]);
    assert_eq!(style_children.len(), 1);
    match payload_of(&tree, style_children[0]) {
        DomObject::Text(text) => assert_eq!(text, &b"a&b".to_vec()),
        other => panic!("expected the style text, got {:?}", other),
    }
}

#[test]
fn markup_in_initial_mode_is_unsupported() {
    let data = b"<p>".to_vec();
    assert_eq!(make_dom(&data).err(), Some(HTMLError::UnsupportedConstruct));
}

#[test]
fn body_start_tag_without_open_element_is_an_orphan() {
    let mut parser = Parser {
        insertion_mode: Mode::AfterHead,
        original_mode: None,
        open_elements: Vec::new(),
        last_element: 0,
        dom_tree: DomTree::new(DomObject::Document),
    };
    let tag = htmlparse::tokens::Tag {
        name: b"body".to_vec(),
        self_closing: false,
        attr_keys: Vec::new(),
        attr_values: Vec::new(),
    };
    assert_eq!(
        parser.parse_token(Token::StartTag(tag)),
        Err(HTMLError::OrphanObject)
    );
}

#[test]
fn text_mode_without_original_mode_is_reported() {
    let mut parser = Parser {
        insertion_mode: Mode::Text,
        original_mode: None,
        open_elements: vec![0],
        last_element: 0,
        dom_tree: DomTree::new(DomObject::Document),
    };
    let tag = htmlparse::tokens::Tag {
        name: b"title".to_vec(),
        self_closing: false,
        attr_keys: Vec::new(),
        attr_values: Vec::new(),
    };
    assert_eq!(
        parser.parse_token(Token::EndTag(tag)),
        Err(HTMLError::ParserLostOriginalMode)
    );
}

#[test]
fn tree_insert_under_dead_handle_is_refused() {
    let mut tree = DomTree::new(DomObject::Document);
    assert_eq!(
        tree.insert(DomObject::Head, 99),
        Err(HTMLError::InaccessibleDomTreeNode)
    );
}

#[test]
fn tree_tracks_doctype_and_head_handles() {
    let mut tree = DomTree::new(DomObject::Document);
    let doctype = tree
        .insert(
            DomObject::DocumentType(htmlparse::domtree::DocumentType::new(
                b"html".to_vec(),
                None,
                None,
            )),
            0,
        )
        .expect("insert under root");
    tree.set_doctype(doctype);
    let head = tree.insert(DomObject::Head, 0).expect("insert under root");
    tree.set_head(head);
    assert_eq!(tree.doctype, Some(doctype));
    assert_eq!(tree.head, Some(head));
}

#[test]
fn get_last_child_of_reaches_newest_child() {
    let mut tree = DomTree::new(DomObject::Document);
    tree.insert(DomObject::Element(b"html".to_vec()), 0)
        .expect("insert under root");
    tree.insert(DomObject::Text(b"tail".to_vec()), 0)
        .expect("insert under root");
    match tree.get_last_child_of(0) {
        DomObject::Text(text) => assert_eq!(text, &b"tail".to_vec()),
        other => panic!("expected the newest child, got {:?}", other),
    }
}
