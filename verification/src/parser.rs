//! The tree-construction state machine: it consumes one token at a time,
//! dispatches on the current insertion mode, mutates the document tree,
//! keeps the open-elements stack, and may ask the driver to switch the
//! tokenizer's lexical state before the next token is fetched.

use vstd::prelude::*;

use crate::arena::ArenaRef;
use crate::ascii::is_lexical_whitespace;
use crate::domtree::{DomObject, DomTree, DocumentType, lemma_payload_update_wf};
use crate::html::HTMLError;
use crate::tokenizer::States;
use crate::tokens::{Tag, Token};

verus! {

/// The insertion modes of the tree-construction algorithm. Only the modes
/// exercised by the document forms this implementation accepts carry rules;
/// a token reaching any other mode stops the parse with
/// `UnsupportedConstruct`.
#[derive(Debug, PartialEq, Eq, Structural, Clone, Copy)]
pub enum Mode {
    Initial,
    BeforeHtml,
    BeforeHead,
    InHead,
    InHeadNoscript,
    AfterHead,
    InBody,
    Text,
    InTable,
    InTableText,
    InCaption,
    InColumnGroup,
    InTableBody,
    InRow,
    InCell,
    InSelect,
    InSelectInTable,
    InTemplate,
    AfterBody,
    InFrameset,
    AfterFrameset,
    AfterAfterBody,
    AfterAfterFrameset,
}

/// What one token's worth of tree construction reports: possibly a lexical
/// state the tokenizer must switch to before the next token, or a failure.
pub type ParserResult = Result<Option<States>, HTMLError>;

/// The bytes of `html`.
pub open spec fn html_lit() -> Seq<u8> {
    seq![0x68u8, 0x74u8, 0x6Du8, 0x6Cu8]
}

/// The bytes of `head`.
pub open spec fn head_lit() -> Seq<u8> {
    seq![0x68u8, 0x65u8, 0x61u8, 0x64u8]
}

/// The bytes of `title`.
pub open spec fn title_lit() -> Seq<u8> {
    seq![0x74u8, 0x69u8, 0x74u8, 0x6Cu8, 0x65u8]
}

/// The bytes of `body`.
pub open spec fn body_lit() -> Seq<u8> {
    seq![0x62u8, 0x6Fu8, 0x64u8, 0x79u8]
}

/// The bytes of `style`.
pub open spec fn style_lit() -> Seq<u8> {
    seq![0x73u8, 0x74u8, 0x79u8, 0x6Cu8, 0x65u8]
}

/// No lexical-state override requested.
pub open spec fn ok_no_override() -> ParserResult {
    Ok(None)
}

/// The tokenizer must switch to `s` before the next token.
pub open spec fn ok_override(s: States) -> ParserResult {
    Ok(Some(s))
}

/// The parse stopped with `e`.
pub open spec fn parser_err(e: HTMLError) -> ParserResult {
    Err(e)
}

/// Whether `token_string` spells exactly the bytes of `cmp`.
pub fn cmp_token_string(token_string: &Vec<u8>, cmp: &[u8]) -> (r: bool)
    ensures
        r == (token_string@ == cmp@),
{
    if token_string.len() != cmp.len() {
        proof {
            assert(token_string@ != cmp@);
        }
        return false;
    }
    let n = token_string.len();
    for i in 0..n
        invariant
            n == token_string@.len(),
            n == cmp@.len(),
            forall|k: int| 0 <= k < i ==> token_string@[k] == cmp@[k],
    {
        if token_string[i] != cmp[i] {
            proof {
                assert(token_string@[i as int] != cmp@[i as int]);
            }
            return false;
        }
    }
    proof {
        assert(token_string@ =~= cmp@);
    }
    true
}

/// A fresh copy of a token's byte field, as the tree stores it.
pub fn dom_string_from_token_string(token_string: &Vec<u8>) -> (r: Vec<u8>)
    ensures
        r@ == token_string@,
{
    let mut out: Vec<u8> = Vec::new();
    let n = token_string.len();
    for i in 0..n
        invariant
            n == token_string@.len(),
            out@ == token_string@.subrange(0, i as int),
    {
        out.push(token_string[i]);
        proof {
            assert(out@ =~= token_string@.subrange(0, i + 1));
        }
    }
    proof {
        assert(token_string@.subrange(0, n as int) =~= token_string@);
    }
    out
}

/// Whether the byte belongs to the lexical whitespace set the
/// tree-construction rules ignore or coalesce.
pub fn byte_is_whitespacish(byte: u8) -> (r: bool)
    ensures
        r == is_lexical_whitespace(byte),
{
    crate::ascii::lexical_whitespace(byte)
}

/// The tree-construction state machine.
pub struct Parser {
    pub insertion_mode: Mode,
    pub original_mode: Option<Mode>,
    pub open_elements: Vec<ArenaRef>,
    pub last_element: ArenaRef,
    pub dom_tree: DomTree,
}

impl Parser {
    /// The tree is well formed, every open element is a live node, and so
    /// is the most recently inserted one.
    pub open spec fn wf(&self) -> bool {
        &&& self.dom_tree.wf()
        &&& forall|k: int|
            0 <= k < self.open_elements@.len() ==> self.dom_tree.live(
                #[trigger] self.open_elements@[k],
            )
        &&& self.dom_tree.live(self.last_element)
    }

    /// Insertion mode and recorded original mode are unchanged.
    pub open spec fn same_modes(pre: Self, post: Self) -> bool {
        &&& post.insertion_mode == pre.insertion_mode
        &&& post.original_mode == pre.original_mode
    }

    /// Open-elements stack and last-inserted handle are unchanged.
    pub open spec fn same_stack(pre: Self, post: Self) -> bool {
        &&& post.open_elements == pre.open_elements
        &&& post.last_element == pre.last_element
    }

    /// The document tree is untouched.
    pub open spec fn same_tree(pre: Self, post: Self) -> bool {
        post.dom_tree == pre.dom_tree
    }

    /// The last-inserted node is a text node whose data grew by `data`;
    /// nothing else in the tree, the stack or the modes changed.
    pub open spec fn text_appended(pre: Self, post: Self, data: Seq<u8>) -> bool {
        let le = pre.last_element;
        &&& pre.dom_tree.node(le).dom_obj is Text
        &&& post.dom_tree.live(le)
        &&& post.dom_tree.node(le).dom_obj is Text
        &&& post.dom_tree.node(le).dom_obj->Text_0@ == pre.dom_tree.node(le).dom_obj->Text_0@
            + data
        &&& post.dom_tree.node(le).parent == pre.dom_tree.node(le).parent
        &&& post.dom_tree.node(le).children == pre.dom_tree.node(le).children
        &&& forall|j: ArenaRef|
            j != le ==> #[trigger] post.dom_tree.arena.spec_get(j) == pre.dom_tree.arena.spec_get(
                j,
            )
        &&& post.dom_tree.arena.slots().len() == pre.dom_tree.arena.slots().len()
        &&& post.dom_tree.arena.free_list() == pre.dom_tree.arena.free_list()
        &&& post.dom_tree.root == pre.dom_tree.root
        &&& post.dom_tree.doctype == pre.dom_tree.doctype
        &&& post.dom_tree.head == pre.dom_tree.head
        &&& Self::same_stack(pre, post)
    }

    /// A fresh text node holding `data` was attached under the innermost
    /// open element and became the last-inserted node; the stack itself is
    /// unchanged.
    pub open spec fn fresh_text(pre: Self, post: Self, data: Seq<u8>) -> bool {
        let nr = pre.dom_tree.arena.next_handle();
        &&& pre.open_elements@.len() > 0
        &&& DomTree::inserted_shape(pre.dom_tree, post.dom_tree, pre.open_elements@.last(), nr)
        &&& post.dom_tree.node(nr).dom_obj is Text
        &&& post.dom_tree.node(nr).dom_obj->Text_0@ == data
        &&& post.dom_tree.doctype == pre.dom_tree.doctype
        &&& post.dom_tree.head == pre.dom_tree.head
        &&& post.open_elements == pre.open_elements
        &&& post.last_element == nr
    }

    /// Whether feeding character data can succeed: either it coalesces into
    /// the last-inserted text node, or an open element can parent a fresh
    /// one.
    pub open spec fn merge_ok(pre: Self) -> bool {
        pre.dom_tree.node(pre.last_element).dom_obj is Text || pre.open_elements@.len() > 0
    }

    /// The coalescing rule: character data extends the last-inserted node
    /// when it is a text node, otherwise a fresh text node is created; with
    /// no possible parent, nothing changes.
    pub open spec fn merged_text(pre: Self, post: Self, data: Seq<u8>, ok: bool) -> bool {
        if pre.dom_tree.node(pre.last_element).dom_obj is Text {
            ok && Self::text_appended(pre, post, data)
        } else if pre.open_elements@.len() > 0 {
            ok && Self::fresh_text(pre, post, data)
        } else {
            !ok && post == pre
        }
    }

    /// A fresh element named `name` was attached under the innermost open
    /// element, pushed onto the stack, and recorded as last inserted; the
    /// insertion mode moved to `new_mode`.
    pub open spec fn elem_opened(pre: Self, post: Self, name: Seq<u8>, new_mode: Mode) -> bool {
        let nr = pre.dom_tree.arena.next_handle();
        &&& pre.open_elements@.len() > 0
        &&& DomTree::inserted_shape(pre.dom_tree, post.dom_tree, pre.open_elements@.last(), nr)
        &&& post.dom_tree.node(nr).dom_obj is Element
        &&& post.dom_tree.node(nr).dom_obj->Element_0@ == name
        &&& post.dom_tree.doctype == pre.dom_tree.doctype
        &&& post.dom_tree.head == pre.dom_tree.head
        &&& post.open_elements@ == pre.open_elements@.push(nr)
        &&& post.last_element == nr
        &&& post.insertion_mode == new_mode
        &&& post.original_mode == pre.original_mode
    }

    /// As `elem_opened`, but the node is the distinguished head element and
    /// its handle is recorded on the tree.
    pub open spec fn head_opened(pre: Self, post: Self) -> bool {
        let nr = pre.dom_tree.arena.next_handle();
        &&& pre.open_elements@.len() > 0
        &&& DomTree::inserted_shape(pre.dom_tree, post.dom_tree, pre.open_elements@.last(), nr)
        &&& post.dom_tree.node(nr).dom_obj == DomObject::Head
        &&& post.dom_tree.doctype == pre.dom_tree.doctype
        &&& post.dom_tree.head == Some(nr)
        &&& post.open_elements@ == pre.open_elements@.push(nr)
        &&& post.last_element == nr
        &&& post.insertion_mode == Mode::InHead
        &&& post.original_mode == pre.original_mode
    }

    /// The generic rcdata rule: the element is attached and pushed, the
    /// current mode is remembered, the machine moves to text mode, and the
    /// tokenizer is asked to lex what follows as rcdata.
    pub open spec fn rcdata_opened(pre: Self, post: Self, name: Seq<u8>) -> bool {
        let nr = pre.dom_tree.arena.next_handle();
        &&& pre.open_elements@.len() > 0
        &&& DomTree::inserted_shape(pre.dom_tree, post.dom_tree, pre.open_elements@.last(), nr)
        &&& post.dom_tree.node(nr).dom_obj is Element
        &&& post.dom_tree.node(nr).dom_obj->Element_0@ == name
        &&& post.dom_tree.doctype == pre.dom_tree.doctype
        &&& post.dom_tree.head == pre.dom_tree.head
        &&& post.open_elements@ == pre.open_elements@.push(nr)
        &&& post.last_element == nr
        &&& post.insertion_mode == Mode::Text
        &&& post.original_mode == Some(pre.insertion_mode)
    }

    /// The initial mode: only a doctype whose name is exactly `html` is
    /// accepted — a document-type node is attached under the root and the
    /// machine moves on — any other doctype is a parse error, and any other
    /// token is outside the implemented subset.
    pub open spec fn step_initial(pre: Self, post: Self, token: Token, r: ParserResult) -> bool {
        match token {
            Token::Doctype(doctype) => if doctype.name@ == html_lit() {
                let nr = pre.dom_tree.arena.next_handle();
                &&& DomTree::inserted_shape(pre.dom_tree, post.dom_tree, pre.dom_tree.root_ref(), nr)
                &&& post.dom_tree.node(nr).dom_obj is DocumentType
                &&& post.dom_tree.node(nr).dom_obj->DocumentType_0.name@ == doctype.name@
                &&& post.dom_tree.node(nr).dom_obj->DocumentType_0.public_id@.len() == 0
                &&& post.dom_tree.node(nr).dom_obj->DocumentType_0.system_id@.len() == 0
                &&& post.dom_tree.doctype == pre.dom_tree.doctype
                &&& post.dom_tree.head == pre.dom_tree.head
                &&& Self::same_stack(pre, post)
                &&& post.insertion_mode == Mode::BeforeHtml
                &&& post.original_mode == pre.original_mode
                &&& r == ok_no_override()
            } else {
                post == pre && r == parser_err(HTMLError::ParseError)
            },
            _ => post == pre && r == parser_err(HTMLError::UnsupportedConstruct),
        }
    }

    /// Before `html`: a further doctype is a parse error, whitespace is
    /// ignored, and the `html` start tag opens the document element.
    pub open spec fn step_before_html(pre: Self, post: Self, token: Token, r: ParserResult) -> bool {
        match token {
            Token::Doctype(_) => post == pre && r == parser_err(HTMLError::ParseError),
            Token::Character(byte) => if is_lexical_whitespace(byte) {
                post == pre && r == ok_no_override()
            } else {
                post == pre && r == parser_err(HTMLError::UnsupportedConstruct)
            },
            Token::StartTag(tag) => if tag.name@ == html_lit() {
                if pre.open_elements@.len() > 0 {
                    Self::elem_opened(pre, post, tag.name@, Mode::BeforeHead) && r
                        == ok_no_override()
                } else {
                    post == pre && r == parser_err(HTMLError::OrphanObject)
                }
            } else {
                post == pre && r == parser_err(HTMLError::UnsupportedConstruct)
            },
            _ => post == pre && r == parser_err(HTMLError::UnsupportedConstruct),
        }
    }

    /// Before `head`: whitespace is ignored and the `head` start tag opens
    /// the distinguished head element.
    pub open spec fn step_before_head(pre: Self, post: Self, token: Token, r: ParserResult) -> bool {
        match token {
            Token::Character(byte) => if is_lexical_whitespace(byte) {
                post == pre && r == ok_no_override()
            } else {
                post == pre && r == parser_err(HTMLError::UnsupportedConstruct)
            },
            Token::StartTag(tag) => if tag.name@ == head_lit() {
                if pre.open_elements@.len() > 0 {
                    Self::head_opened(pre, post) && r == ok_no_override()
                } else {
                    post == pre && r == parser_err(HTMLError::OrphanObject)
                }
            } else {
                post == pre && r == parser_err(HTMLError::UnsupportedConstruct)
            },
            _ => post == pre && r == parser_err(HTMLError::UnsupportedConstruct),
        }
    }

    /// Inside `head`: whitespace is ignored, a `title` start tag follows
    /// the generic rcdata rule, a `style` start tag the generic rawtext
    /// rule, and any end tag closes the head.
    pub open spec fn step_in_head(pre: Self, post: Self, token: Token, r: ParserResult) -> bool {
        match token {
            Token::Character(byte) => if is_lexical_whitespace(byte) {
                post == pre && r == ok_no_override()
            } else {
                post == pre && r == parser_err(HTMLError::UnsupportedConstruct)
            },
            Token::StartTag(tag) => if tag.name@ == title_lit() {
                if pre.open_elements@.len() > 0 {
                    Self::rcdata_opened(pre, post, tag.name@) && r == ok_override(States::RCData)
                } else {
                    post == pre && r == parser_err(HTMLError::OrphanObject)
                }
            } else if tag.name@ == style_lit() {
                if pre.open_elements@.len() > 0 {
                    Self::rcdata_opened(pre, post, tag.name@) && r == ok_override(States::RawText)
                } else {
                    post == pre && r == parser_err(HTMLError::OrphanObject)
                }
            } else {
                post == pre && r == parser_err(HTMLError::UnsupportedConstruct)
            },
            Token::EndTag(_) => {
                &&& post.open_elements@ == if pre.open_elements@.len() > 0 {
                    pre.open_elements@.drop_last()
                } else {
                    pre.open_elements@
                }
                &&& post.last_element == pre.last_element
                &&& Self::same_tree(pre, post)
                &&& post.insertion_mode == Mode::AfterHead
                &&& post.original_mode == pre.original_mode
                &&& r == ok_no_override()
            },
            _ => post == pre && r == parser_err(HTMLError::UnsupportedConstruct),
        }
    }

    /// Text mode: characters coalesce into the current text node, and an
    /// end tag pops the element and returns to the remembered mode — losing
    /// that mode is an internal fault.
    pub open spec fn step_text_mode(pre: Self, post: Self, token: Token, r: ParserResult) -> bool {
        match token {
            Token::Character(byte) => {
                &&& Self::merged_text(pre, post, seq![byte], Self::merge_ok(pre))
                &&& Self::same_modes(pre, post)
                &&& r == if Self::merge_ok(pre) {
                    ok_no_override()
                } else {
                    parser_err(HTMLError::OrphanObject)
                }
            },
            Token::EndTag(_) => {
                &&& post.open_elements@ == if pre.open_elements@.len() > 0 {
                    pre.open_elements@.drop_last()
                } else {
                    pre.open_elements@
                }
                &&& post.last_element == pre.last_element
                &&& Self::same_tree(pre, post)
                &&& post.original_mode == pre.original_mode
                &&& match pre.original_mode {
                    Some(m) => post.insertion_mode == m && r == ok_no_override(),
                    None => post.insertion_mode == pre.insertion_mode && r == parser_err(
                        HTMLError::ParserLostOriginalMode,
                    ),
                }
            },
            _ => post == pre && r == parser_err(HTMLError::UnsupportedConstruct),
        }
    }

    /// After `head`: whitespace coalesces as text, and the `body` start tag
    /// opens the body.
    pub open spec fn step_after_head(pre: Self, post: Self, token: Token, r: ParserResult) -> bool {
        match token {
            Token::Character(byte) => if is_lexical_whitespace(byte) {
                &&& Self::merged_text(pre, post, seq![byte], Self::merge_ok(pre))
                &&& Self::same_modes(pre, post)
                &&& r == if Self::merge_ok(pre) {
                    ok_no_override()
                } else {
                    parser_err(HTMLError::OrphanObject)
                }
            } else {
                post == pre && r == parser_err(HTMLError::UnsupportedConstruct)
            },
            Token::StartTag(tag) => if tag.name@ == body_lit() {
                if pre.open_elements@.len() > 0 {
                    Self::elem_opened(pre, post, tag.name@, Mode::InBody) && r == ok_no_override()
                } else {
                    post == pre && r == parser_err(HTMLError::OrphanObject)
                }
            } else {
                post == pre && r == parser_err(HTMLError::UnsupportedConstruct)
            },
            _ => post == pre && r == parser_err(HTMLError::UnsupportedConstruct),
        }
    }

    /// Inside `body`: characters coalesce as text; a start tag opens a
    /// child element; `</body>` moves on; another end tag closes the
    /// innermost element; a comment is not attached — the tree has no
    /// comment payload — but still breaks text coalescing.
    pub open spec fn step_in_body(pre: Self, post: Self, token: Token, r: ParserResult) -> bool {
        match token {
            Token::Character(byte) => {
                &&& Self::merged_text(pre, post, seq![byte], Self::merge_ok(pre))
                &&& Self::same_modes(pre, post)
                &&& r == if Self::merge_ok(pre) {
                    ok_no_override()
                } else {
                    parser_err(HTMLError::OrphanObject)
                }
            },
            Token::StartTag(tag) => if pre.open_elements@.len() > 0 {
                Self::elem_opened(pre, post, tag.name@, Mode::InBody) && r == ok_no_override()
            } else {
                post == pre && r == parser_err(HTMLError::OrphanObject)
            },
            Token::EndTag(tag) => if tag.name@ == body_lit() {
                &&& Self::same_tree(pre, post)
                &&& Self::same_stack(pre, post)
                &&& post.insertion_mode == Mode::AfterBody
                &&& post.original_mode == pre.original_mode
                &&& r == ok_no_override()
            } else {
                if pre.open_elements@.len() > 1 {
                    &&& post.open_elements@ == pre.open_elements@.drop_last()
                    &&& post.last_element == pre.open_elements@.last()
                    &&& Self::same_tree(pre, post)
                    &&& Self::same_modes(pre, post)
                    &&& r == ok_no_override()
                } else {
                    post == pre && r == parser_err(HTMLError::UnsupportedConstruct)
                }
            },
            Token::Comment(_) => if pre.open_elements@.len() > 0 {
                &&& Self::same_tree(pre, post)
                &&& post.open_elements == pre.open_elements
                &&& post.last_element == pre.open_elements@.last()
                &&& Self::same_modes(pre, post)
                &&& r == ok_no_override()
            } else {
                post == pre && r == parser_err(HTMLError::OrphanObject)
            },
            _ => post == pre && r == parser_err(HTMLError::UnsupportedConstruct),
        }
    }

    /// After `body`: whitespace is reprocessed exactly as inside the body,
    /// and `</html>` moves past the document element.
    pub open spec fn step_after_body(pre: Self, post: Self, token: Token, r: ParserResult) -> bool {
        match token {
            Token::Character(byte) => if is_lexical_whitespace(byte) {
                Self::step_in_body(pre, post, token, r)
            } else {
                post == pre && r == parser_err(HTMLError::UnsupportedConstruct)
            },
            Token::EndTag(tag) => if tag.name@ == html_lit() {
                &&& Self::same_tree(pre, post)
                &&& Self::same_stack(pre, post)
                &&& post.insertion_mode == Mode::AfterAfterBody
                &&& post.original_mode == pre.original_mode
                &&& r == ok_no_override()
            } else {
                post == pre && r == parser_err(HTMLError::UnsupportedConstruct)
            },
            _ => post == pre && r == parser_err(HTMLError::UnsupportedConstruct),
        }
    }

    /// Past the document element: whitespace is still reprocessed as inside
    /// the body; everything else is outside the implemented subset.
    pub open spec fn step_after_after_body(
        pre: Self,
        post: Self,
        token: Token,
        r: ParserResult,
    ) -> bool {
        match token {
            Token::Character(byte) => if is_lexical_whitespace(byte) {
                Self::step_in_body(pre, post, token, r)
            } else {
                post == pre && r == parser_err(HTMLError::UnsupportedConstruct)
            },
            _ => post == pre && r == parser_err(HTMLError::UnsupportedConstruct),
        }
    }

    /// One token's worth of tree construction, dispatched by the insertion
    /// mode. Modes outside the implemented subset stop the parse with
    /// `UnsupportedConstruct`, with nothing changed.
    pub open spec fn parse_step(pre: Self, post: Self, token: Token, r: ParserResult) -> bool {
        match pre.insertion_mode {
            Mode::Initial => Self::step_initial(pre, post, token, r),
            Mode::BeforeHtml => Self::step_before_html(pre, post, token, r),
            Mode::BeforeHead => Self::step_before_head(pre, post, token, r),
            Mode::InHead => Self::step_in_head(pre, post, token, r),
            Mode::AfterHead => Self::step_after_head(pre, post, token, r),
            Mode::InBody => Self::step_in_body(pre, post, token, r),
            Mode::Text => Self::step_text_mode(pre, post, token, r),
            Mode::AfterBody => Self::step_after_body(pre, post, token, r),
            Mode::AfterAfterBody => Self::step_after_after_body(pre, post, token, r),
            _ => post == pre && r == parser_err(HTMLError::UnsupportedConstruct),
        }
    }

    /// The two parsers read the same: equal modes, stack and last-inserted
    /// handle, over trees that read the same.
    pub open spec fn equiv(a: Self, b: Self) -> bool {
        &&& a.insertion_mode == b.insertion_mode
        &&& a.original_mode == b.original_mode
        &&& a.open_elements@ == b.open_elements@
        &&& a.last_element == b.last_element
        &&& crate::domtree::tree_equiv(a.dom_tree, b.dom_tree)
    }

    /// Reading the same is symmetric.
    pub proof fn lemma_equiv_sym(a: Self, b: Self)
        requires
            Self::equiv(a, b),
        ensures
            Self::equiv(b, a),
    {
        crate::domtree::lemma_tree_equiv_sym(a.dom_tree, b.dom_tree);
    }

    /// A parser that reads the same as a well-formed parser is well formed
    /// itself.
    pub proof fn lemma_equiv_wf(a: Self, b: Self)
        requires
            Self::equiv(a, b),
            a.wf(),
        ensures
            b.wf(),
    {
        crate::domtree::lemma_tree_equiv_wf(a.dom_tree, b.dom_tree);
        assert forall|k: int|
            0 <= k < b.open_elements@.len() implies b.dom_tree.live(
            #[trigger] b.open_elements@[k],
        ) by {
            assert(a.dom_tree.live(a.open_elements@[k]));
        }
        assert(a.dom_tree.live(a.last_element));
    }

    /// Feeding the same character data to parsers that read the same
    /// coalesces the same way on both sides.
    proof fn lemma_merged_text_equiv(a: Self, a2: Self, b: Self, b2: Self, data: Seq<u8>)
        requires
            Self::equiv(a, b),
            a.wf(),
            b.wf(),
            Self::merged_text(a, a2, data, Self::merge_ok(a)),
            Self::merged_text(b, b2, data, Self::merge_ok(b)),
        ensures
            Self::merge_ok(a) == Self::merge_ok(b),
            crate::domtree::tree_equiv(a2.dom_tree, b2.dom_tree),
            a2.open_elements@ == b2.open_elements@,
            a2.last_element == b2.last_element,
    {
        let le = a.last_element;
        assert(a.dom_tree.live(le) && b.dom_tree.live(le));
        assert(crate::domtree::node_equiv(a.dom_tree.node(le), b.dom_tree.node(le)));
        if a.dom_tree.node(le).dom_obj is Text {
            assert(Self::text_appended(a, a2, data));
            assert(Self::text_appended(b, b2, data));
            assert forall|i: ArenaRef|
                #![all_triggers]
                (a2.dom_tree.live(i) <==> b2.dom_tree.live(i)) && (a2.dom_tree.live(i)
                    ==> crate::domtree::node_equiv(a2.dom_tree.node(i), b2.dom_tree.node(i))) by {
                if i == le {
                    assert(a2.dom_tree.node(le).dom_obj->Text_0@ == b2.dom_tree.node(
                        le,
                    ).dom_obj->Text_0@);
                    assert(crate::domtree::node_equiv(a2.dom_tree.node(le), b2.dom_tree.node(le)));
                } else {
                    assert(a2.dom_tree.arena.spec_get(i) == a.dom_tree.arena.spec_get(i));
                    assert(b2.dom_tree.arena.spec_get(i) == b.dom_tree.arena.spec_get(i));
                    if a2.dom_tree.live(i) {
                        assert(crate::domtree::node_equiv(a.dom_tree.node(i), b.dom_tree.node(i)));
                    }
                }
            }
        } else if a.open_elements@.len() > 0 {
            assert(Self::fresh_text(a, a2, data));
            assert(Self::fresh_text(b, b2, data));
            let parent = a.open_elements@.last();
            assert(a.dom_tree.live(parent) && b.dom_tree.live(parent));
            assert(a.dom_tree.arena.next_handle() == b.dom_tree.arena.next_handle());
            crate::domtree::lemma_inserted_shape_equiv(
                a.dom_tree,
                a2.dom_tree,
                b.dom_tree,
                b2.dom_tree,
                parent,
                a.dom_tree.arena.next_handle(),
            );
        } else {
            assert(a2 == a && b2 == b);
        }
    }

    /// Up to how states read, tree construction is deterministic: parsers
    /// that read the same, fed tokens that read the same, answer alike and
    /// land in parsers that read the same.
    pub proof fn lemma_parse_step_deterministic(
        a: Self,
        a2: Self,
        ta: Token,
        ra: ParserResult,
        b: Self,
        b2: Self,
        tb: Token,
        rb: ParserResult,
    )
        requires
            Self::equiv(a, b),
            a.wf(),
            b.wf(),
            crate::tokens::token_equiv(ta, tb),
            Self::parse_step(a, a2, ta, ra),
            Self::parse_step(b, b2, tb, rb),
        ensures
            Self::equiv(a2, b2),
            ra == rb,
    {
        let nh = a.dom_tree.arena.next_handle();
        assert(b.dom_tree.arena.next_handle() == nh);
        match a.insertion_mode {
            Mode::Initial => {
                match ta {
                    Token::Doctype(da) => {
                        if da.name@ == html_lit() {
                            assert(a.dom_tree.live(a.dom_tree.root_ref()));
                            assert(b.dom_tree.live(b.dom_tree.root_ref()));
                            assert(a2.dom_tree.node(nh).dom_obj->DocumentType_0.public_id@
                                =~= b2.dom_tree.node(nh).dom_obj->DocumentType_0.public_id@);
                            assert(a2.dom_tree.node(nh).dom_obj->DocumentType_0.system_id@
                                =~= b2.dom_tree.node(nh).dom_obj->DocumentType_0.system_id@);
                            assert(crate::domtree::obj_equiv(
                                a2.dom_tree.node(nh).dom_obj,
                                b2.dom_tree.node(nh).dom_obj,
                            ));
                            crate::domtree::lemma_inserted_shape_equiv(
                                a.dom_tree,
                                a2.dom_tree,
                                b.dom_tree,
                                b2.dom_tree,
                                a.dom_tree.root_ref(),
                                nh,
                            );
                        }
                    },
                    _ => {
                    },
                }
            },
            Mode::BeforeHtml => {
                match ta {
                    Token::StartTag(tag) => {
                        if tag.name@ == html_lit() && a.open_elements@.len() > 0 {
                            assert(a.dom_tree.live(a.open_elements@.last()));
                            assert(b.dom_tree.live(b.open_elements@.last()));
                            crate::domtree::lemma_inserted_shape_equiv(
                                a.dom_tree,
                                a2.dom_tree,
                                b.dom_tree,
                                b2.dom_tree,
                                a.open_elements@.last(),
                                nh,
                            );
                        }
                    },
                    _ => {
                    },
                }
            },
            Mode::BeforeHead => {
                match ta {
                    Token::StartTag(tag) => {
                        if tag.name@ == head_lit() && a.open_elements@.len() > 0 {
                            assert(a.dom_tree.live(a.open_elements@.last()));
                            assert(b.dom_tree.live(b.open_elements@.last()));
                            crate::domtree::lemma_inserted_shape_equiv(
                                a.dom_tree,
                                a2.dom_tree,
                                b.dom_tree,
                                b2.dom_tree,
                                a.open_elements@.last(),
                                nh,
                            );
                        }
                    },
                    _ => {
                    },
                }
            },
            Mode::InHead => {
                match ta {
                    Token::StartTag(tag) => {
                        if (tag.name@ == title_lit() || tag.name@ == style_lit())
                            && a.open_elements@.len() > 0 {
                            assert(a.dom_tree.live(a.open_elements@.last()));
                            assert(b.dom_tree.live(b.open_elements@.last()));
                            crate::domtree::lemma_inserted_shape_equiv(
                                a.dom_tree,
                                a2.dom_tree,
                                b.dom_tree,
                                b2.dom_tree,
                                a.open_elements@.last(),
                                nh,
                            );
                        }
                    },
                    _ => {
                    },
                }
            },
            Mode::AfterHead => {
                match ta {
                    Token::Character(byte) => {
                        if is_lexical_whitespace(byte) {
                            Self::lemma_merged_text_equiv(a, a2, b, b2, seq![byte]);
                        }
                    },
                    Token::StartTag(tag) => {
                        if tag.name@ == body_lit() && a.open_elements@.len() > 0 {
                            assert(a.dom_tree.live(a.open_elements@.last()));
                            assert(b.dom_tree.live(b.open_elements@.last()));
                            crate::domtree::lemma_inserted_shape_equiv(
                                a.dom_tree,
                                a2.dom_tree,
                                b.dom_tree,
                                b2.dom_tree,
                                a.open_elements@.last(),
                                nh,
                            );
                        }
                    },
                    _ => {
                    },
                }
            },
            Mode::InBody | Mode::AfterBody | Mode::AfterAfterBody => {
                match ta {
                    Token::Character(byte) => {
                        if a.insertion_mode == Mode::InBody || is_lexical_whitespace(byte) {
                            Self::lemma_merged_text_equiv(a, a2, b, b2, seq![byte]);
                        }
                    },
                    Token::StartTag(tag) => {
                        if a.insertion_mode == Mode::InBody && a.open_elements@.len() > 0 {
                            assert(a.dom_tree.live(a.open_elements@.last()));
                            assert(b.dom_tree.live(b.open_elements@.last()));
                            crate::domtree::lemma_inserted_shape_equiv(
                                a.dom_tree,
                                a2.dom_tree,
                                b.dom_tree,
                                b2.dom_tree,
                                a.open_elements@.last(),
                                nh,
                            );
                        }
                    },
                    _ => {
                    },
                }
            },
            Mode::Text => {
                match ta {
                    Token::Character(byte) => {
                        Self::lemma_merged_text_equiv(a, a2, b, b2, seq![byte]);
                    },
                    _ => {
                    },
                }
            },
            _ => {
            },
        }
    }

    /// A parser over a fresh single-root tree, in the initial mode, with
    /// the root as the only open element.
    pub fn new() -> (r: Self)
        ensures
            r.wf(),
            r.insertion_mode == Mode::Initial,
            r.original_mode is None,
            r.open_elements@ == seq![0usize],
            r.last_element == 0,
            r.dom_tree.root == Some(0usize),
            r.dom_tree.doctype is None,
            r.dom_tree.head is None,
            r.dom_tree.arena.slots().len() == 1,
            r.dom_tree.arena.free_list().len() == 0,
            r.dom_tree.node(0).parent is None,
            r.dom_tree.node(0).dom_obj == DomObject::Document,
            r.dom_tree.node(0).children@.len() == 0,
    {
        let mut open_elements: Vec<ArenaRef> = Vec::new();
        open_elements.push(0);
        proof {
            assert(open_elements@ =~= seq![0usize]);
        }
        Self {
            insertion_mode: Mode::Initial,
            original_mode: None,
            open_elements,
            last_element: 0,
            dom_tree: DomTree::new(DomObject::Document),
        }
    }

    /// Feeds one token to the machine; see `parse_step` for what each mode
    /// does with it.
    pub fn parse_token(&mut self, token: Token) -> (r: ParserResult)
        requires
            old(self).wf(),
        ensures
            final(self).wf(),
            Self::parse_step(*old(self), *final(self), token, r),
    {
        match self.insertion_mode {
            Mode::Initial => self.initial_ruleset(token),
            Mode::BeforeHtml => self.before_html_ruleset(token),
            Mode::BeforeHead => self.before_head_ruleset(token),
            Mode::InHead => self.in_head_ruleset(token),
            Mode::AfterHead => self.after_head_ruleset(token),
            Mode::InBody => self.in_body_ruleset(token),
            Mode::Text => self.in_text_ruleset(token),
            Mode::AfterBody => self.after_body_ruleset(token),
            Mode::AfterAfterBody => self.after_after_body_ruleset(token),
            _ => Err(HTMLError::UnsupportedConstruct),
        }
    }

    /// The initial mode's rules; see `step_initial`.
    fn initial_ruleset(&mut self, token: Token) -> (r: ParserResult)
        requires
            old(self).wf(),
            old(self).insertion_mode == Mode::Initial,
        ensures
            final(self).wf(),
            Self::step_initial(*old(self), *final(self), token, r),
    {
        match token {
            Token::Doctype(doctype) => {
                let html: [u8; 4] = [0x68, 0x74, 0x6D, 0x6C];
                proof {
                    assert(html@ =~= html_lit());
                }
                if cmp_token_string(&doctype.name, html.as_slice()) {
                    let root_ref: ArenaRef = match self.dom_tree.root {
                        Some(root_ref) => root_ref,
                        None => {
                            proof {
                                assert(false);
                            }
                            0
                        },
                    };
                    let name_copy = dom_string_from_token_string(&doctype.name);
                    match self.dom_tree.insert(
                        DomObject::DocumentType(DocumentType::new(name_copy, None, None)),
                        root_ref,
                    ) {
                        Ok(_) => {},
                        Err(e) => {
                            proof {
                                assert(false);
                            }
                            return Err(e);
                        },
                    }
                    self.insertion_mode = Mode::BeforeHtml;
                    proof {
                        let pre = *old(self);
                        let nr = pre.dom_tree.arena.next_handle();
                        let parent = pre.dom_tree.root_ref();
                        assert forall|k: int|
                            0 <= k < self.open_elements@.len() implies self.dom_tree.live(
                            #[trigger] self.open_elements@[k],
                        ) by {
                            assert(pre.dom_tree.live(pre.open_elements@[k]));
                            crate::domtree::lemma_inserted_keeps_live(
                                pre.dom_tree,
                                self.dom_tree,
                                parent,
                                nr,
                                self.open_elements@[k],
                            );
                        }
                        crate::domtree::lemma_inserted_keeps_live(
                            pre.dom_tree,
                            self.dom_tree,
                            parent,
                            nr,
                            self.last_element,
                        );
                    }
                    Ok(None)
                } else {
                    Err(HTMLError::ParseError)
                }
            },
            _ => Err(HTMLError::UnsupportedConstruct),
        }
    }

    /// The before-html mode's rules; see `step_before_html`.
    fn before_html_ruleset(&mut self, token: Token) -> (r: ParserResult)
        requires
            old(self).wf(),
            old(self).insertion_mode == Mode::BeforeHtml,
        ensures
            final(self).wf(),
            Self::step_before_html(*old(self), *final(self), token, r),
    {
        match token {
            Token::Doctype(_) => Err(HTMLError::ParseError),
            Token::Character(byte) => {
                if byte_is_whitespacish(byte) {
                    Ok(None)
                } else {
                    Err(HTMLError::UnsupportedConstruct)
                }
            },
            Token::StartTag(tag) => {
                let html: [u8; 4] = [0x68, 0x74, 0x6D, 0x6C];
                proof {
                    assert(html@ =~= html_lit());
                }
                if cmp_token_string(&tag.name, html.as_slice()) {
                    if self.open_elements.len() == 0 {
                        return Err(HTMLError::OrphanObject);
                    }
                    self.open_element(&tag, Mode::BeforeHead)
                } else {
                    Err(HTMLError::UnsupportedConstruct)
                }
            },
            _ => Err(HTMLError::UnsupportedConstruct),
        }
    }

    /// The before-head mode's rules; see `step_before_head`.
    fn before_head_ruleset(&mut self, token: Token) -> (r: ParserResult)
        requires
            old(self).wf(),
            old(self).insertion_mode == Mode::BeforeHead,
        ensures
            final(self).wf(),
            Self::step_before_head(*old(self), *final(self), token, r),
    {
        match token {
            Token::Character(byte) => {
                if byte_is_whitespacish(byte) {
                    Ok(None)
                } else {
                    Err(HTMLError::UnsupportedConstruct)
                }
            },
            Token::StartTag(tag) => {
                let head: [u8; 4] = [0x68, 0x65, 0x61, 0x64];
                proof {
                    assert(head@ =~= head_lit());
                }
                if cmp_token_string(&tag.name, head.as_slice()) {
                    if self.open_elements.len() == 0 {
                        return Err(HTMLError::OrphanObject);
                    }
                    match self.insert_into_tree(DomObject::Head) {
                        Ok(_) => {},
                        Err(e) => {
                            proof {
                                assert(false);
                            }
                            return Err(e);
                        },
                    }
                    let ghost mid = *self;
                    let head_ref = self.last_element;
                    self.dom_tree.set_head(head_ref);
                    self.open_elements.push(head_ref);
                    self.insertion_mode = Mode::InHead;
                    proof {
                        crate::domtree::lemma_same_arena_wf(mid.dom_tree, self.dom_tree);
                        lemma_after_push(mid, *self, head_ref);
                    }
                    Ok(None)
                } else {
                    Err(HTMLError::UnsupportedConstruct)
                }
            },
            _ => Err(HTMLError::UnsupportedConstruct),
        }
    }

    /// The in-head mode's rules; see `step_in_head`.
    fn in_head_ruleset(&mut self, token: Token) -> (r: ParserResult)
        requires
            old(self).wf(),
            old(self).insertion_mode == Mode::InHead,
        ensures
            final(self).wf(),
            Self::step_in_head(*old(self), *final(self), token, r),
    {
        match token {
            Token::Character(byte) => {
                if byte_is_whitespacish(byte) {
                    Ok(None)
                } else {
                    Err(HTMLError::UnsupportedConstruct)
                }
            },
            Token::StartTag(ref tag) => {
                let title: [u8; 5] = [0x74, 0x69, 0x74, 0x6C, 0x65];
                let style: [u8; 5] = [0x73, 0x74, 0x79, 0x6C, 0x65];
                proof {
                    assert(title@ =~= title_lit());
                    assert(style@ =~= style_lit());
                }
                if cmp_token_string(&tag.name, title.as_slice()) {
                    self.generic_rcdata_element_ruleset(&token)
                } else if cmp_token_string(&tag.name, style.as_slice()) {
                    self.generic_raw_text_element_ruleset(&token)
                } else {
                    Err(HTMLError::UnsupportedConstruct)
                }
            },
            Token::EndTag(_) => {
                self.open_elements.pop();
                self.insertion_mode = Mode::AfterHead;
                proof {
                    lemma_after_pop(*old(self), *self);
                }
                Ok(None)
            },
            _ => Err(HTMLError::UnsupportedConstruct),
        }
    }

    /// Text mode's rules; see `step_text_mode`.
    fn in_text_ruleset(&mut self, token: Token) -> (r: ParserResult)
        requires
            old(self).wf(),
            old(self).insertion_mode == Mode::Text,
        ensures
            final(self).wf(),
            Self::step_text_mode(*old(self), *final(self), token, r),
    {
        match token {
            Token::Character(byte) => {
                let mut data: Vec<u8> = Vec::new();
                data.push(byte);
                proof {
                    assert(data@ =~= seq![byte]);
                }
                match self.insert_or_merge_text_into_tree(data) {
                    Ok(_) => Ok(None),
                    Err(e) => Err(e),
                }
            },
            Token::EndTag(_) => {
                self.open_elements.pop();
                proof {
                    lemma_after_pop(*old(self), *self);
                }
                match self.original_mode {
                    Some(original_mode) => {
                        self.insertion_mode = original_mode;
                        Ok(None)
                    },
                    None => Err(HTMLError::ParserLostOriginalMode),
                }
            },
            _ => Err(HTMLError::UnsupportedConstruct),
        }
    }

    /// The after-head mode's rules; see `step_after_head`.
    fn after_head_ruleset(&mut self, token: Token) -> (r: ParserResult)
        requires
            old(self).wf(),
            old(self).insertion_mode == Mode::AfterHead,
        ensures
            final(self).wf(),
            Self::step_after_head(*old(self), *final(self), token, r),
    {
        match token {
            Token::Character(byte) => {
                if byte_is_whitespacish(byte) {
                    let mut data: Vec<u8> = Vec::new();
                    data.push(byte);
                    proof {
                        assert(data@ =~= seq![byte]);
                    }
                    match self.insert_or_merge_text_into_tree(data) {
                        Ok(_) => Ok(None),
                        Err(e) => Err(e),
                    }
                } else {
                    Err(HTMLError::UnsupportedConstruct)
                }
            },
            Token::StartTag(tag) => {
                let body: [u8; 4] = [0x62, 0x6F, 0x64, 0x79];
                proof {
                    assert(body@ =~= body_lit());
                }
                if cmp_token_string(&tag.name, body.as_slice()) {
                    if self.open_elements.len() == 0 {
                        return Err(HTMLError::OrphanObject);
                    }
                    self.open_element(&tag, Mode::InBody)
                } else {
                    Err(HTMLError::UnsupportedConstruct)
                }
            },
            _ => Err(HTMLError::UnsupportedConstruct),
        }
    }

    /// The in-body mode's rules; see `step_in_body`.
    fn in_body_ruleset(&mut self, token: Token) -> (r: ParserResult)
        requires
            old(self).wf(),
            old(self).insertion_mode == Mode::InBody,
        ensures
            final(self).wf(),
            Self::step_in_body(*old(self), *final(self), token, r),
    {
        match token {
            Token::Character(byte) => {
                let mut data: Vec<u8> = Vec::new();
                data.push(byte);
                proof {
                    assert(data@ =~= seq![byte]);
                }
                match self.insert_or_merge_text_into_tree(data) {
                    Ok(_) => Ok(None),
                    Err(e) => Err(e),
                }
            },
            Token::StartTag(tag) => {
                if self.open_elements.len() == 0 {
                    return Err(HTMLError::OrphanObject);
                }
                self.open_element(&tag, Mode::InBody)
            },
            Token::EndTag(tag) => {
                let body: [u8; 4] = [0x62, 0x6F, 0x64, 0x79];
                proof {
                    assert(body@ =~= body_lit());
                }
                if cmp_token_string(&tag.name, body.as_slice()) {
                    self.insertion_mode = Mode::AfterBody;
                    Ok(None)
                } else {
                    if self.open_elements.len() > 1 {
                        let closed: ArenaRef = match self.open_elements.pop() {
                            Some(closed) => closed,
                            None => {
                                proof {
                                    assert(false);
                                }
                                0
                            },
                        };
                        self.last_element = closed;
                        proof {
                            assert(old(self).dom_tree.live(
                                old(self).open_elements@[old(self).open_elements@.len() - 1],
                            ));
                            lemma_after_pop_keep(*old(self), *self);
                        }
                        Ok(None)
                    } else {
                        Err(HTMLError::UnsupportedConstruct)
                    }
                }
            },
            Token::Comment(_) => {
                let n = self.open_elements.len();
                if n == 0 {
                    return Err(HTMLError::OrphanObject);
                }
                self.last_element = self.open_elements[n - 1];
                Ok(None)
            },
            _ => Err(HTMLError::UnsupportedConstruct),
        }
    }

    /// The after-body mode's rules; see `step_after_body`.
    fn after_body_ruleset(&mut self, token: Token) -> (r: ParserResult)
        requires
            old(self).wf(),
            old(self).insertion_mode == Mode::AfterBody,
        ensures
            final(self).wf(),
            Self::step_after_body(*old(self), *final(self), token, r),
    {
        match token {
            Token::Character(byte) => {
                if byte_is_whitespacish(byte) {
                    self.reprocess_in_body(token)
                } else {
                    Err(HTMLError::UnsupportedConstruct)
                }
            },
            Token::EndTag(tag) => {
                let html: [u8; 4] = [0x68, 0x74, 0x6D, 0x6C];
                proof {
                    assert(html@ =~= html_lit());
                }
                if cmp_token_string(&tag.name, html.as_slice()) {
                    self.insertion_mode = Mode::AfterAfterBody;
                    Ok(None)
                } else {
                    Err(HTMLError::UnsupportedConstruct)
                }
            },
            _ => Err(HTMLError::UnsupportedConstruct),
        }
    }

    /// The after-after-body mode's rules; see `step_after_after_body`.
    fn after_after_body_ruleset(&mut self, token: Token) -> (r: ParserResult)
        requires
            old(self).wf(),
            old(self).insertion_mode == Mode::AfterAfterBody,
        ensures
            final(self).wf(),
            Self::step_after_after_body(*old(self), *final(self), token, r),
    {
        match token {
            Token::Character(byte) => {
                if byte_is_whitespacish(byte) {
                    self.reprocess_in_body(token)
                } else {
                    Err(HTMLError::UnsupportedConstruct)
                }
            },
            _ => Err(HTMLError::UnsupportedConstruct),
        }
    }

    /// Reprocesses a whitespace character exactly as the in-body rules
    /// would, without leaving the current mode.
    fn reprocess_in_body(&mut self, token: Token) -> (r: ParserResult)
        requires
            old(self).wf(),
            token is Character,
            is_lexical_whitespace(token->Character_0),
        ensures
            final(self).wf(),
            Self::step_in_body(*old(self), *final(self), token, r),
    {
        match token {
            Token::Character(byte) => {
                let mut data: Vec<u8> = Vec::new();
                data.push(byte);
                proof {
                    assert(data@ =~= seq![byte]);
                }
                match self.insert_or_merge_text_into_tree(data) {
                    Ok(_) => Ok(None),
                    Err(e) => Err(e),
                }
            },
            _ => {
                proof {
                    assert(false);
                }
                Err(HTMLError::UnsupportedConstruct)
            },
        }
    }

    /// The generic rcdata rule; see `rcdata_opened`. The element is
    /// attached and pushed, the mode is remembered, and the tokenizer is
    /// asked to lex the element's content as rcdata.
    fn generic_rcdata_element_ruleset(&mut self, token: &Token) -> (r: ParserResult)
        requires
            old(self).wf(),
        ensures
            final(self).wf(),
            match *token {
                Token::StartTag(ref tag) => if old(self).open_elements@.len() > 0 {
                    Self::rcdata_opened(*old(self), *final(self), tag.name@) && r == ok_override(
                        States::RCData,
                    )
                } else {
                    *final(self) == *old(self) && r == parser_err(HTMLError::OrphanObject)
                },
                _ => *final(self) == *old(self) && r == parser_err(
                    HTMLError::UnsupportedConstruct,
                ),
            },
    {
        match token {
            Token::StartTag(tag) => {
                if self.open_elements.len() == 0 {
                    return Err(HTMLError::OrphanObject);
                }
                let name_copy = dom_string_from_token_string(&tag.name);
                match self.insert_into_tree(DomObject::Element(name_copy)) {
                    Ok(_) => {},
                    Err(e) => {
                        proof {
                            assert(false);
                        }
                        return Err(e);
                    },
                }
                let ghost mid = *self;
                let new_ref = self.last_element;
                self.open_elements.push(new_ref);
                self.original_mode = Some(self.insertion_mode);
                self.insertion_mode = Mode::Text;
                proof {
                    lemma_after_push(mid, *self, new_ref);
                }
                Ok(Some(States::RCData))
            },
            _ => Err(HTMLError::UnsupportedConstruct),
        }
    }

    /// The generic rawtext rule: as the rcdata rule, but the element's
    /// content is lexed as rawtext, where character references do not
    /// apply.
    fn generic_raw_text_element_ruleset(&mut self, token: &Token) -> (r: ParserResult)
        requires
            old(self).wf(),
        ensures
            final(self).wf(),
            match *token {
                Token::StartTag(ref tag) => if old(self).open_elements@.len() > 0 {
                    Self::rcdata_opened(*old(self), *final(self), tag.name@) && r == ok_override(
                        States::RawText,
                    )
                } else {
                    *final(self) == *old(self) && r == parser_err(HTMLError::OrphanObject)
                },
                _ => *final(self) == *old(self) && r == parser_err(
                    HTMLError::UnsupportedConstruct,
                ),
            },
    {
        match token {
            Token::StartTag(tag) => {
                if self.open_elements.len() == 0 {
                    return Err(HTMLError::OrphanObject);
                }
                let name_copy = dom_string_from_token_string(&tag.name);
                match self.insert_into_tree(DomObject::Element(name_copy)) {
                    Ok(_) => {},
                    Err(e) => {
                        proof {
                            assert(false);
                        }
                        return Err(e);
                    },
                }
                let ghost mid = *self;
                let new_ref = self.last_element;
                self.open_elements.push(new_ref);
                self.original_mode = Some(self.insertion_mode);
                self.insertion_mode = Mode::Text;
                proof {
                    lemma_after_push(mid, *self, new_ref);
                }
                Ok(Some(States::RawText))
            },
            _ => Err(HTMLError::UnsupportedConstruct),
        }
    }

    /// Opens an element named after `tag` under the innermost open element:
    /// attaches it, pushes it, records it as last inserted, and moves to
    /// `new_mode`.
    fn open_element(&mut self, tag: &Tag, new_mode: Mode) -> (r: ParserResult)
        requires
            old(self).wf(),
            old(self).open_elements@.len() > 0,
        ensures
            final(self).wf(),
            Self::elem_opened(*old(self), *final(self), tag.name@, new_mode),
            r == ok_no_override(),
    {
        let name_copy = dom_string_from_token_string(&tag.name);
        match self.insert_into_tree(DomObject::Element(name_copy)) {
            Ok(_) => {},
            Err(e) => {
                proof {
                    assert(false);
                }
                return Err(e);
            },
        }
        let ghost mid = *self;
        let new_ref = self.last_element;
        self.open_elements.push(new_ref);
        self.insertion_mode = new_mode;
        proof {
            lemma_after_push(mid, *self, new_ref);
        }
        Ok(None)
    }

    /// Attaches a node holding `obj` under the innermost open element and
    /// records it as the last-inserted node. With an empty stack no node
    /// can parent it, and nothing changes.
    fn insert_into_tree(&mut self, obj: DomObject) -> (r: Result<(), HTMLError>)
        requires
            old(self).wf(),
        ensures
            final(self).wf(),
            Self::same_modes(*old(self), *final(self)),
            old(self).open_elements@.len() == 0 ==> r == Err::<(), HTMLError>(
                HTMLError::OrphanObject,
            ) && *final(self) == *old(self),
            old(self).open_elements@.len() > 0 ==> {
                let nr = old(self).dom_tree.arena.next_handle();
                &&& r == Ok::<(), HTMLError>(())
                &&& DomTree::inserted_shape(
                    old(self).dom_tree,
                    final(self).dom_tree,
                    old(self).open_elements@.last(),
                    nr,
                )
                &&& final(self).dom_tree.node(nr).dom_obj == obj
                &&& final(self).dom_tree.doctype == old(self).dom_tree.doctype
                &&& final(self).dom_tree.head == old(self).dom_tree.head
                &&& final(self).open_elements == old(self).open_elements
                &&& final(self).last_element == nr
            },
    {
        let n = self.open_elements.len();
        if n == 0 {
            return Err(HTMLError::OrphanObject);
        }
        let parent_ref = self.open_elements[n - 1];
        match self.dom_tree.insert(obj, parent_ref) {
            Ok(new_ref) => {
                self.last_element = new_ref;
                proof {
                    let pre = *old(self);
                    let nr = pre.dom_tree.arena.next_handle();
                    let parent = pre.open_elements@.last();
                    assert forall|k: int|
                        0 <= k < self.open_elements@.len() implies self.dom_tree.live(
                        #[trigger] self.open_elements@[k],
                    ) by {
                        assert(pre.dom_tree.live(pre.open_elements@[k]));
                        crate::domtree::lemma_inserted_keeps_live(
                            pre.dom_tree,
                            self.dom_tree,
                            parent,
                            nr,
                            self.open_elements@[k],
                        );
                    }
                }
                Ok(())
            },
            Err(e) => {
                proof {
                    assert(false);
                }
                Err(e)
            },
        }
    }

    /// The text-coalescing rule: appends `data` to the last-inserted node
    /// when it is a text node, and otherwise attaches a fresh text node
    /// under the innermost open element; see `merged_text`.
    fn insert_or_merge_text_into_tree(&mut self, data: Vec<u8>) -> (r: Result<(), HTMLError>)
        requires
            old(self).wf(),
        ensures
            final(self).wf(),
            Self::same_modes(*old(self), *final(self)),
            Self::merged_text(*old(self), *final(self), data@, Self::merge_ok(*old(self))),
            r == if Self::merge_ok(*old(self)) {
                Ok::<(), HTMLError>(())
            } else {
                Err::<(), HTMLError>(HTMLError::OrphanObject)
            },
    {
        let le = self.last_element;
        let is_text: bool = match self.dom_tree.arena.get(le) {
            Some(node) => matches!(&node.dom_obj, DomObject::Text(_)),
            None => {
                proof {
                    assert(false);
                }
                false
            },
        };
        if is_text {
            match self.dom_tree.arena.get_mut(le) {
                Some(node) => {
                    match &mut node.dom_obj {
                        DomObject::Text(text) => {
                            let mut incoming = data;
                            text.append(&mut incoming);
                        },
                        _ => {
                            proof {
                                assert(false);
                            }
                        },
                    }
                },
                None => {
                    proof {
                        assert(false);
                    }
                },
            }
            proof {
                lemma_payload_update_wf(old(self).dom_tree, self.dom_tree, le);
                assert forall|k: int|
                    0 <= k < self.open_elements@.len() implies self.dom_tree.live(
                    #[trigger] self.open_elements@[k],
                ) by {
                    let h = self.open_elements@[k];
                    assert(old(self).dom_tree.live(h));
                    if h != le {
                        assert(self.dom_tree.arena.spec_get(h) == old(self).dom_tree.arena.spec_get(
                            h,
                        ));
                    }
                }
            }
            Ok(())
        } else {
            self.insert_into_tree(DomObject::Text(data))
        }
    }
}

/// Once the last-inserted node is a text node, every further character
/// token in a coalescing mode appends to that very node: across the whole
/// run the handle, the stack, the modes and every other node stay as they
/// were, and the node's data grows by exactly the bytes fed.
proof fn lemma_text_run_appends(chain: Seq<Parser>, chars: Seq<u8>, s: int, i: int)
    requires
        chain.len() == chars.len() + 1,
        0 <= s <= i < chain.len(),
        forall|k: int|
            0 <= k < chars.len() ==> #[trigger] Parser::parse_step(
                chain[k],
                chain[k + 1],
                Token::Character(chars[k]),
                ok_no_override(),
            ),
        chain[s].insertion_mode == Mode::InBody || chain[s].insertion_mode == Mode::Text,
        chain[s].dom_tree.node(chain[s].last_element).dom_obj is Text,
    ensures
        chain[i].last_element == chain[s].last_element,
        chain[i].insertion_mode == chain[s].insertion_mode,
        chain[i].original_mode == chain[s].original_mode,
        chain[i].open_elements == chain[s].open_elements,
        chain[i].dom_tree.node(chain[i].last_element).dom_obj is Text,
        chain[i].dom_tree.node(chain[i].last_element).dom_obj->Text_0@ == chain[s].dom_tree.node(
            chain[s].last_element,
        ).dom_obj->Text_0@ + chars.subrange(s, i),
        chain[i].dom_tree.node(chain[i].last_element).parent == chain[s].dom_tree.node(
            chain[s].last_element,
        ).parent,
        chain[i].dom_tree.node(chain[i].last_element).children == chain[s].dom_tree.node(
            chain[s].last_element,
        ).children,
        forall|j: ArenaRef|
            j != chain[s].last_element ==> #[trigger] chain[i].dom_tree.arena.spec_get(j)
                == chain[s].dom_tree.arena.spec_get(j),
        chain[i].dom_tree.root == chain[s].dom_tree.root,
        chain[i].dom_tree.doctype == chain[s].dom_tree.doctype,
        chain[i].dom_tree.head == chain[s].dom_tree.head,
    decreases i - s,
{
    if i == s {
        assert(chars.subrange(s, s) =~= Seq::<u8>::empty());
        assert(chain[s].dom_tree.node(chain[s].last_element).dom_obj->Text_0@ + chars.subrange(
            s,
            s,
        ) =~= chain[s].dom_tree.node(chain[s].last_element).dom_obj->Text_0@);
    } else {
        lemma_text_run_appends(chain, chars, s, i - 1);
        assert(Parser::parse_step(
            chain[i - 1],
            chain[i - 1 + 1],
            Token::Character(chars[i - 1]),
            ok_no_override(),
        ));
        assert(chain[i - 1 + 1] == chain[i]);
        assert(Parser::merged_text(
            chain[i - 1],
            chain[i],
            seq![chars[i - 1]],
            Parser::merge_ok(chain[i - 1]),
        ));
        assert(chars.subrange(s, i) =~= chars.subrange(s, i - 1) + seq![chars[i - 1]]);
    }
}

/// Coalescing idempotence: a run of character tokens fed to a parser in a
/// coalescing mode, starting while the last-inserted node is not a text
/// node, always yields exactly one fresh text node holding the whole run in
/// order — one node for the run, never one per character. Every other node
/// keeps what it held, and the run's parent gains exactly the one child.
pub proof fn lemma_coalescing_idempotence(chain: Seq<Parser>, chars: Seq<u8>)
    requires
        chain.len() == chars.len() + 1,
        chars.len() >= 1,
        forall|k: int|
            0 <= k < chars.len() ==> #[trigger] Parser::parse_step(
                chain[k],
                chain[k + 1],
                Token::Character(chars[k]),
                ok_no_override(),
            ),
        chain[0].insertion_mode == Mode::InBody || chain[0].insertion_mode == Mode::Text,
        !(chain[0].dom_tree.node(chain[0].last_element).dom_obj is Text),
        chain[0].open_elements@.len() > 0,
    ensures
        ({
            let nr = chain[0].dom_tree.arena.next_handle();
            let parent = chain[0].open_elements@.last();
            &&& chain.last().dom_tree.node(nr).dom_obj is Text
            &&& chain.last().dom_tree.node(nr).dom_obj->Text_0@ == chars
            &&& chain.last().dom_tree.node(nr).parent == Some(parent)
            &&& chain.last().dom_tree.node(parent).children@ == chain[0].dom_tree.node(
                parent,
            ).children@.push(nr)
            &&& forall|j: ArenaRef|
                j != nr && j != parent ==> #[trigger] chain.last().dom_tree.arena.spec_get(j)
                    == chain[0].dom_tree.arena.spec_get(j)
            &&& chain.last().last_element == nr
            &&& chain.last().open_elements == chain[0].open_elements
        }),
{
    let nr = chain[0].dom_tree.arena.next_handle();
    let parent = chain[0].open_elements@.last();
    assert(Parser::parse_step(chain[0int], chain[0int + 1], Token::Character(chars[0]), ok_no_override()));
    assert(Parser::merged_text(chain[0], chain[1], seq![chars[0]], Parser::merge_ok(chain[0])));
    assert(Parser::fresh_text(chain[0], chain[1], seq![chars[0]]));
    assert(chain[1].insertion_mode == chain[0].insertion_mode && chain[1].original_mode
        == chain[0].original_mode) by {
        if chain[0].insertion_mode == Mode::InBody {
            assert(Parser::step_in_body(
                chain[0],
                chain[1],
                Token::Character(chars[0]),
                ok_no_override(),
            ));
        } else {
            assert(Parser::step_text_mode(
                chain[0],
                chain[1],
                Token::Character(chars[0]),
                ok_no_override(),
            ));
        }
    }
    lemma_text_run_appends(chain, chars, 1, chain.len() - 1);
    assert(chain.last() == chain[chain.len() - 1]);
    assert(chain.last().dom_tree.node(nr).dom_obj->Text_0@ =~= chars) by {
        assert(chain[1].dom_tree.node(nr).dom_obj->Text_0@ == seq![chars[0]]);
        assert(chain.last().dom_tree.node(nr).dom_obj->Text_0@ == seq![chars[0]] + chars.subrange(
            1,
            chain.len() - 1,
        ));
        assert(seq![chars[0]] + chars.subrange(1, chars.len() as int) =~= chars);
    }
    assert forall|j: ArenaRef|
        j != nr && j != parent implies #[trigger] chain.last().dom_tree.arena.spec_get(j)
        == chain[0].dom_tree.arena.spec_get(j) by {
        assert(chain.last().dom_tree.arena.spec_get(j) == chain[1].dom_tree.arena.spec_get(j));
        assert(chain[1].dom_tree.arena.spec_get(j) == chain[0].dom_tree.arena.spec_get(j));
    }
    assert(chain.last().dom_tree.node(parent).children@ == chain[0].dom_tree.node(
        parent,
    ).children@.push(nr)) by {
        if parent != nr {
            assert(chain.last().dom_tree.arena.spec_get(parent) == chain[1].dom_tree.arena.spec_get(
                parent,
            ));
        }
    }
}

/// After pushing the freshly inserted handle onto the stack of a
/// well-formed parser whose arena has not changed since, every stack entry
/// is still live.
proof fn lemma_after_push(mid: Parser, post: Parser, nr: ArenaRef)
    requires
        mid.wf(),
        post.dom_tree.arena == mid.dom_tree.arena,
        post.dom_tree.live(nr),
        post.open_elements@ == mid.open_elements@.push(nr),
    ensures
        forall|k: int|
            0 <= k < post.open_elements@.len() ==> post.dom_tree.live(
                #[trigger] post.open_elements@[k],
            ),
{
    assert forall|k: int|
        0 <= k < post.open_elements@.len() implies post.dom_tree.live(
        #[trigger] post.open_elements@[k],
    ) by {
        if k < mid.open_elements@.len() {
            assert(post.open_elements@[k] == mid.open_elements@[k]);
            assert(mid.dom_tree.live(mid.open_elements@[k]));
        } else {
            assert(post.open_elements@[k] == nr);
        }
    }
}

/// Popping the stack of a well-formed parser whose arena and last-inserted
/// handle are unchanged leaves every remaining entry live.
proof fn lemma_after_pop(pre: Parser, post: Parser)
    requires
        pre.wf(),
        post.dom_tree.arena == pre.dom_tree.arena,
        post.last_element == pre.last_element,
        post.open_elements@ == if pre.open_elements@.len() > 0 {
            pre.open_elements@.drop_last()
        } else {
            pre.open_elements@
        },
    ensures
        forall|k: int|
            0 <= k < post.open_elements@.len() ==> post.dom_tree.live(
                #[trigger] post.open_elements@[k],
            ),
        post.dom_tree.live(post.last_element),
{
    assert forall|k: int|
        0 <= k < post.open_elements@.len() implies post.dom_tree.live(
        #[trigger] post.open_elements@[k],
    ) by {
        assert(post.open_elements@[k] == pre.open_elements@[k]);
        assert(pre.dom_tree.live(pre.open_elements@[k]));
    }
}

/// As `lemma_after_pop`, but the last-inserted handle moved to some handle
/// the caller shows live.
proof fn lemma_after_pop_keep(pre: Parser, post: Parser)
    requires
        pre.wf(),
        post.dom_tree.arena == pre.dom_tree.arena,
        pre.dom_tree.live(post.last_element),
        post.open_elements@ == if pre.open_elements@.len() > 0 {
            pre.open_elements@.drop_last()
        } else {
            pre.open_elements@
        },
    ensures
        forall|k: int|
            0 <= k < post.open_elements@.len() ==> post.dom_tree.live(
                #[trigger] post.open_elements@[k],
            ),
        post.dom_tree.live(post.last_element),
{
    assert forall|k: int|
        0 <= k < post.open_elements@.len() implies post.dom_tree.live(
        #[trigger] post.open_elements@[k],
    ) by {
        assert(post.open_elements@[k] == pre.open_elements@[k]);
        assert(pre.dom_tree.live(pre.open_elements@[k]));
    }
}

} // verus!
