//! The lexical state machine: it drives the cursor byte by byte, mutates the
//! token builder, and yields one token at a time. The tree parser can force
//! its state from outside, because some elements change how the bytes that
//! follow them must be lexed.

use vstd::prelude::*;

use crate::ascii::{
    AMPERSAND, APOSTROPHE, EQUALS, EXCLAMATION, GREATER_THAN, HYPHEN, LESS_THAN, LOWER_D, NUL,
    QUESTION, QUOTE, SLASH, SP, UPPER_D, is_ascii_letter, is_lexical_whitespace,
};
use crate::html::HTMLError;
use crate::stream::Stream;
use crate::tokens::{Tag, Token, TokenBuilder, TokenVariant};

verus! {

broadcast use vstd::array::group_array_axioms;

/// The lexical states, mirroring the tokenization states of the HTML
/// standard. Only the subset exercised by the tree-construction rules is
/// implemented; entering any other state stops the parse with
/// `UnsupportedConstruct`.
#[derive(Debug, PartialEq, Eq, Structural, Clone, Copy)]
pub enum States {
    Data,
    RCData,
    RawText,
    ScriptData,
    PlainText,
    TagOpen,
    EndTagOpen,
    TagName,
    RCDataLessThanSign,
    RCDataEndTagOpen,
    RCDataEndTagName,
    RawTextLessThanSign,
    RawTextEndTagOpen,
    RawTextEndTagName,
    ScriptDataLessThanSign,
    ScriptDataEndTagOpen,
    ScriptDataEndTagName,
    ScriptDataEscapeStart,
    ScriptDataEscapeStartDash,
    ScriptDataEscaped,
    ScriptDataEscapedDash,
    ScriptDataEscapedDashDash,
    ScriptDataEscapedLessThanSign,
    ScriptDataEscapedEndTagOpen,
    ScriptDataEscapedEndTagName,
    ScriptDataDoubleEscapeStart,
    ScriptDataDoubleEscaped,
    ScriptDataDoubleEscapedDash,
    ScriptDataDoubleEscapedDashDash,
    ScriptDataDoubleEscapedLessThanSign,
    ScriptDataDoubleEscapeEnd,
    BeforeAttributeName,
    AttributeName,
    AfterAttributeName,
    BeforeAttributeValue,
    AttributeValueDoubleQuoted,
    AttributeValueSingleQuoted,
    AttributeValueUnquoted,
    AfterAttributeValueQuoted,
    SelfClosingStartTag,
    BogusComment,
    MarkupDeclarationOpen,
    CommentStart,
    CommentStartDash,
    Comment,
    CommentLessThanSign,
    CommentLessThanSignBang,
    CommentLessThanSignBangDash,
    CommentLessThanSignBangDashDash,
    CommentEndDash,
    CommentEnd,
    CommentEndBang,
    DocType,
    BeforeDocTypeName,
    DocTypeName,
    AfterDocTypeName,
    AfterDocTypeNamePublicKeyword,
    BeforeDocTypePublicIdentifier,
    DocTypePublicIdentifierDoubleQuoted,
    DocTypePublicIdentifierSingleQuoted,
    AfterDocTypePublicIdentifier,
    BetweenDocTypePublicSystemIdentifiers,
    AfterDocTypeSystemKeyword,
    BeforeDocTypeSystemIdentifier,
    DocTypeSystemIdentifierDoubleQuoted,
    DocTypeSystemIdentifierSingleQuoted,
    AfterDocTypeSystemIdentifier,
    BogusDocType,
    CDataSection,
    CDataSectionBracket,
    CDataSectionEnd,
    CharacterReference,
    NamedCharacterReference,
    AmbiguousAmpersand,
    NumericCharacterReference,
    HexadecimalCharacterReferenceStart,
    DecimalCharacterReferenceStart,
    HexadecimalCharacterReference,
    DecimalCharacterReference,
    NumericCharacterReferenceEnd,
}

/// A list of already-emitted tokens waiting to be handed out.
pub type TokenList = Vec<Token>;

/// The lexical state machine over one input buffer.
pub struct Tokenizer<'stream> {
    pub stream: Stream<'stream>,
    pub state: States,
    pub return_state: States,
    pub tokens: TokenList,
    pub builder: TokenBuilder,
}

/// The result of asking the tokenizer for progress: a token, nothing yet, or
/// a structured failure.
pub type TokResult = Result<Option<Token>, HTMLError>;

/// `Ok(None)`: the machine did housekeeping only and wants to be driven on.
pub open spec fn ok_none() -> TokResult {
    Ok(None)
}

/// `Ok(Some(t))`: the machine yielded a token.
pub open spec fn ok_tok(t: Token) -> TokResult {
    Ok(Some(t))
}

/// The failure for markup outside the implemented subset.
pub open spec fn unsupported() -> TokResult {
    Err(HTMLError::UnsupportedConstruct)
}

impl<'stream> Tokenizer<'stream> {
    /// The input bytes.
    pub open spec fn bytes(&self) -> Seq<u8> {
        self.stream.bytes()
    }

    /// The cursor position.
    pub open spec fn pos(&self) -> int {
        self.stream.pos()
    }

    /// The lexical state to resume after a character-reference detour.
    pub open spec fn spec_return_state(&self) -> States {
        self.return_state
    }

    /// The already-emitted tokens waiting to be handed out.
    pub open spec fn queue(&self) -> Seq<Token> {
        self.tokens@
    }

    /// The token builder's scratch state.
    pub open spec fn spec_builder(&self) -> TokenBuilder {
        self.builder
    }

    /// The byte under the cursor.
    pub open spec fn at(&self) -> u8 {
        self.bytes()[self.pos()]
    }

    /// What the builder must hold for the machine to sit in `state`: each
    /// family of states works on one kind of pending token, and the states
    /// that can finalize or extend it rely on exactly that shape.
    pub open spec fn builder_ok_for(state: States, ret: States, b: TokenBuilder) -> bool {
        match state {
            States::Data | States::RCData | States::RawText | States::ScriptData
                | States::PlainText | States::TagOpen | States::EndTagOpen
                | States::MarkupDeclarationOpen | States::RCDataLessThanSign
                | States::RCDataEndTagOpen | States::RawTextLessThanSign
                | States::RawTextEndTagOpen => b.is_clear(),
            States::TagName | States::BeforeAttributeName | States::AfterAttributeName
                | States::SelfClosingStartTag => {
                &&& (b.variant == Some(TokenVariant::StartTag) || b.variant == Some(
                    TokenVariant::EndTag,
                ))
                &&& b.tag.wf()
                &&& b.doctype.is_clear()
                &&& b.buffer@.len() == 0
            },
            States::AttributeName => {
                &&& (b.variant == Some(TokenVariant::StartTag) || b.variant == Some(
                    TokenVariant::EndTag,
                ))
                &&& b.tag.wf()
                &&& b.doctype.is_clear()
            },
            States::BeforeAttributeValue | States::AttributeValueDoubleQuoted
                | States::AttributeValueSingleQuoted | States::AttributeValueUnquoted => {
                &&& (b.variant == Some(TokenVariant::StartTag) || b.variant == Some(
                    TokenVariant::EndTag,
                ))
                &&& b.tag.wf()
                &&& b.doctype.is_clear()
                &&& (b.drop_attr_value || b.tag.attr_values@.len() > 0)
            },
            States::AfterAttributeValueQuoted => {
                &&& (b.variant == Some(TokenVariant::StartTag) || b.variant == Some(
                    TokenVariant::EndTag,
                ))
                &&& b.tag.wf()
                &&& b.doctype.is_clear()
                &&& b.buffer@.len() == 0
            },
            States::RCDataEndTagName | States::RawTextEndTagName => {
                &&& b.variant == Some(TokenVariant::EndTag)
                &&& b.tag.wf()
                &&& b.doctype.is_clear()
                &&& b.buffer@.len() == 0
            },
            States::BogusComment | States::CommentStart | States::CommentStartDash
                | States::Comment | States::CommentEndDash | States::CommentEnd
                | States::CommentEndBang => {
                &&& b.variant == Some(TokenVariant::Comment)
                &&& b.doctype.is_clear()
                &&& b.tag.is_clear()
            },
            States::DocType | States::BeforeDocTypeName | States::DocTypeName => {
                &&& b.variant is None
                &&& b.doctype.is_clear()
                &&& b.tag.is_clear()
            },
            States::CharacterReference => {
                match ret {
                    States::Data | States::RCData => b.is_clear(),
                    States::AttributeValueDoubleQuoted | States::AttributeValueSingleQuoted
                        | States::AttributeValueUnquoted => {
                        &&& (b.variant == Some(TokenVariant::StartTag) || b.variant == Some(
                            TokenVariant::EndTag,
                        ))
                        &&& b.tag.wf()
                        &&& b.doctype.is_clear()
                        &&& (b.drop_attr_value || b.tag.attr_values@.len() > 0)
                    },
                    _ => false,
                }
            },
            _ => true,
        }
    }

    /// The machine's internal consistency: the cursor stays inside the
    /// buffer, the builder holds what the current state relies on, and only
    /// character tokens ever wait in the queue.
    pub open spec fn wf(&self) -> bool {
        &&& self.stream.wf()
        &&& Self::builder_ok_for(self.state, self.spec_return_state(), self.spec_builder())
        &&& forall|k: int| 0 <= k < self.queue().len() ==> (#[trigger] self.queue()[k]) is Character
    }

    /// How many of the measure's units a state may burn before it must
    /// consume a byte or yield: states that redispatch the current byte
    /// under another state rank above their target for that byte.
    pub open spec fn rank(state: States, b: u8) -> int {
        match state {
            States::TagOpen => if b == EXCLAMATION || b == SLASH {
                0
            } else {
                1
            },
            States::EndTagOpen => if b == GREATER_THAN {
                0
            } else {
                1
            },
            States::RCDataLessThanSign | States::RawTextLessThanSign => if b == SLASH {
                0
            } else {
                1
            },
            States::RCDataEndTagOpen | States::RawTextEndTagOpen => if is_ascii_letter(b) {
                1
            } else {
                0
            },
            States::BeforeAttributeName => if is_lexical_whitespace(b) || b == EQUALS {
                0
            } else {
                1
            },
            States::AttributeName => if is_lexical_whitespace(b) || b == SLASH || b
                == GREATER_THAN {
                1
            } else {
                0
            },
            States::AfterAttributeName => if is_lexical_whitespace(b) || b == SLASH || b == EQUALS
                || b == GREATER_THAN {
                0
            } else {
                1
            },
            States::BeforeAttributeValue => if is_lexical_whitespace(b) || b == QUOTE || b
                == APOSTROPHE || b == GREATER_THAN {
                0
            } else {
                1
            },
            States::AfterAttributeValueQuoted => if is_lexical_whitespace(b) || b == SLASH || b
                == GREATER_THAN {
                0
            } else {
                2
            },
            States::SelfClosingStartTag => if b == GREATER_THAN {
                0
            } else {
                2
            },
            States::CommentStart => if b == HYPHEN || b == GREATER_THAN {
                0
            } else {
                1
            },
            States::CommentStartDash => if b == HYPHEN || b == GREATER_THAN {
                0
            } else {
                1
            },
            States::CommentEndDash => if b == HYPHEN {
                0
            } else {
                1
            },
            States::CommentEnd => if b == GREATER_THAN || b == EXCLAMATION || b == HYPHEN {
                0
            } else {
                1
            },
            States::CommentEndBang => if b == HYPHEN || b == GREATER_THAN {
                0
            } else {
                1
            },
            States::DocType => if is_lexical_whitespace(b) {
                0
            } else {
                1
            },
            States::CharacterReference => 1,
            _ => 0,
        }
    }

    /// A strictly decreasing measure of the work left: bytes not yet
    /// consumed, queued tokens not yet handed out, and the rank of the
    /// current state on the byte under the cursor. Every successful call
    /// that does not report end of file strictly shrinks it.
    pub open spec fn measure(&self) -> int {
        3 * (self.bytes().len() - self.pos()) + 2 * self.queue().len() + if self.pos()
            < self.bytes().len() {
            Self::rank(self.state, self.at())
        } else {
            0
        }
    }

    /// `mid` is `pre` with the byte under the cursor consumed and nothing
    /// else touched: the shape of the machine right after the dispatch loop
    /// reads and advances.
    pub open spec fn is_advance_of(pre: Self, mid: Self) -> bool {
        &&& mid.bytes() == pre.bytes()
        &&& mid.pos() == pre.pos() + 1
        &&& mid.state == pre.state
        &&& mid.spec_return_state() == pre.spec_return_state()
        &&& mid.spec_builder() == pre.spec_builder()
        &&& mid.queue() == pre.queue()
    }

    /// The input is the same and the cursor moved one byte forward.
    pub open spec fn advanced1(pre: Self, post: Self) -> bool {
        &&& post.bytes() == pre.bytes()
        &&& post.pos() == pre.pos() + 1
    }

    /// The input is the same and the cursor is back on the dispatched byte:
    /// the byte was reconsumed for redispatch under the new state.
    pub open spec fn stayed(pre: Self, post: Self) -> bool {
        &&& post.bytes() == pre.bytes()
        &&& post.pos() == pre.pos()
    }

    /// Builder and token queue are unchanged.
    pub open spec fn same_builder_queue(pre: Self, post: Self) -> bool {
        &&& post.spec_builder() == pre.spec_builder()
        &&& post.queue() == pre.queue()
    }

    /// The builder was drained by a `build`: everything is back at rest,
    /// with the remembered last start tag possibly updated to `last`.
    pub open spec fn drained(post: Self, last: Seq<u8>) -> bool {
        &&& post.spec_builder().is_clear()
        &&& post.spec_builder().last_start_tag@ == last
    }

    /// The value rows after the pending commit: the scratch buffer replaces
    /// the last value, unless the duplicate rule drops it.
    pub open spec fn committed_values(bd: TokenBuilder) -> Seq<Seq<u8>> {
        if bd.drop_attr_value {
            crate::tokens::rows_view(bd.tag.attr_values)
        } else {
            crate::tokens::rows_view(bd.tag.attr_values).update(
                bd.tag.attr_values@.len() - 1,
                bd.buffer@,
            )
        }
    }

    /// The data state: `&` starts a character reference, `<` opens a tag,
    /// and every other byte is one character token — a NUL is replaced by
    /// the two replacement bytes, the second of them queued.
    pub open spec fn step_data(pre: Self, post: Self, r: TokResult) -> bool {
        let b = pre.at();
        &&& (post.spec_return_state() == pre.spec_return_state() || post.state
            == States::CharacterReference)
        &&& ({
            if b == AMPERSAND {
                &&& post.state == States::CharacterReference
                &&& post.spec_return_state() == States::Data
                &&& Self::advanced1(pre, post)
                &&& Self::same_builder_queue(pre, post)
                &&& r == ok_none()
            } else if b == LESS_THAN {
                &&& post.state == States::TagOpen
                &&& post.spec_return_state() == pre.spec_return_state()
                &&& Self::advanced1(pre, post)
                &&& Self::same_builder_queue(pre, post)
                &&& r == ok_none()
            } else if b == NUL {
                &&& post.state == States::Data
                &&& Self::advanced1(pre, post)
                &&& Self::drained(post, pre.spec_builder().last_start_tag@)
                &&& post.queue() == pre.queue().push(Token::Character(0xFD))
                &&& r == ok_tok(Token::Character(0xFF))
            } else {
                &&& post.state == States::Data
                &&& Self::advanced1(pre, post)
                &&& Self::drained(post, pre.spec_builder().last_start_tag@)
                &&& post.queue() == pre.queue()
                &&& r == ok_tok(Token::Character(b))
            }
        })
    }

    /// The pending tag was finalized and emitted, and the machine returned
    /// to the data state: a start tag is remembered as the last start tag,
    /// an end tag leaves the memory alone.
    pub open spec fn emits_pending_tag(pre: Self, post: Self, r: TokResult) -> bool {
        let bd = pre.spec_builder();
        &&& post.state == States::Data
        &&& post.queue() == pre.queue()
        &&& if bd.variant == Some(TokenVariant::StartTag) {
            Self::drained(post, bd.tag.name@) && r == ok_tok(Token::StartTag(bd.tag))
        } else {
            Self::drained(post, bd.last_start_tag@) && r == ok_tok(Token::EndTag(bd.tag))
        }
    }

    /// The builder's tag name grew by `s`; everything else is unchanged.
    pub open spec fn tag_name_pushed(pre: TokenBuilder, post: TokenBuilder, s: Seq<u8>) -> bool {
        &&& post.tag.name@ == pre.tag.name@ + s
        &&& post.tag.self_closing == pre.tag.self_closing
        &&& post.tag.attr_keys == pre.tag.attr_keys
        &&& post.tag.attr_values == pre.tag.attr_values
        &&& post.variant == pre.variant
        &&& post.doctype == pre.doctype
        &&& post.buffer == pre.buffer
        &&& post.drop_attr_value == pre.drop_attr_value
        &&& post.last_start_tag == pre.last_start_tag
    }

    /// The builder's scratch buffer grew by `s`; everything else is
    /// unchanged.
    pub open spec fn buffer_pushed(pre: TokenBuilder, post: TokenBuilder, s: Seq<u8>) -> bool {
        &&& post.buffer@ == pre.buffer@ + s
        &&& TokenBuilder::same_but_buffer(pre, post)
    }

    /// The scratch buffer was committed as an attribute key, first
    /// occurrence winning; see `commit_buffer_to_attr_keys`.
    pub open spec fn keys_committed(pre: TokenBuilder, post: TokenBuilder) -> bool {
        &&& if crate::tokens::keys_contain(
            crate::tokens::rows_view(pre.tag.attr_keys),
            pre.buffer@,
        ) {
            post.tag == pre.tag && post.drop_attr_value
        } else {
            &&& crate::tokens::rows_view(post.tag.attr_keys) == crate::tokens::rows_view(
                pre.tag.attr_keys,
            ).push(pre.buffer@)
            &&& crate::tokens::rows_view(post.tag.attr_values) == crate::tokens::rows_view(
                pre.tag.attr_values,
            ).push(Seq::<u8>::empty())
            &&& post.tag.name == pre.tag.name
            &&& post.tag.self_closing == pre.tag.self_closing
            &&& !post.drop_attr_value
        }
        &&& post.buffer@.len() == 0
        &&& post.variant == pre.variant
        &&& post.doctype == pre.doctype
        &&& post.last_start_tag == pre.last_start_tag
    }

    /// The scratch buffer was committed as the pending attribute's value,
    /// or dropped with a duplicate key; see `commit_buffer_to_attr_value`.
    pub open spec fn value_committed(pre: TokenBuilder, post: TokenBuilder) -> bool {
        &&& if pre.drop_attr_value {
            post.tag == pre.tag && !post.drop_attr_value
        } else {
            &&& crate::tokens::rows_view(post.tag.attr_values) == crate::tokens::rows_view(
                pre.tag.attr_values,
            ).update(pre.tag.attr_values@.len() - 1, pre.buffer@)
            &&& post.tag.attr_keys == pre.tag.attr_keys
            &&& post.tag.name == pre.tag.name
            &&& post.tag.self_closing == pre.tag.self_closing
            &&& post.drop_attr_value == pre.drop_attr_value
        }
        &&& post.buffer@.len() == 0
        &&& post.variant == pre.variant
        &&& post.doctype == pre.doctype
        &&& post.last_start_tag == pre.last_start_tag
    }

    /// The tag-open state: `!` opens a markup declaration, `/` an end tag,
    /// `?` a bogus comment, a letter a start tag name; anything else emits
    /// the `<` as literal character data and redispatches under the data
    /// state.
    pub open spec fn step_tag_open(pre: Self, post: Self, r: TokResult) -> bool {
        let b = pre.at();
        &&& (post.spec_return_state() == pre.spec_return_state() || post.state
            == States::CharacterReference)
        &&& ({
            if b == EXCLAMATION {
                &&& post.state == States::MarkupDeclarationOpen
                &&& Self::advanced1(pre, post)
                &&& Self::same_builder_queue(pre, post)
                &&& r == ok_none()
            } else if b == SLASH {
                &&& post.state == States::EndTagOpen
                &&& Self::advanced1(pre, post)
                &&& Self::same_builder_queue(pre, post)
                &&& r == ok_none()
            } else if b == QUESTION {
                &&& post.state == States::BogusComment
                &&& Self::stayed(pre, post)
                &&& TokenBuilder::same_but_variant(pre.spec_builder(), post.spec_builder())
                &&& post.spec_builder().variant == Some(TokenVariant::Comment)
                &&& post.queue() == pre.queue()
                &&& r == ok_none()
            } else if is_ascii_letter(b) {
                &&& post.state == States::TagName
                &&& Self::stayed(pre, post)
                &&& TokenBuilder::same_but_variant(pre.spec_builder(), post.spec_builder())
                &&& post.spec_builder().variant == Some(TokenVariant::StartTag)
                &&& post.queue() == pre.queue()
                &&& r == ok_none()
            } else {
                &&& post.state == States::Data
                &&& Self::stayed(pre, post)
                &&& Self::drained(post, pre.spec_builder().last_start_tag@)
                &&& post.queue() == pre.queue()
                &&& r == ok_tok(Token::Character(LESS_THAN))
            }
        })
    }

    /// The end-tag-open state: a letter starts an end tag name, a stray `>`
    /// is dropped, anything else becomes a bogus comment.
    pub open spec fn step_end_tag_open(pre: Self, post: Self, r: TokResult) -> bool {
        let b = pre.at();
        &&& (post.spec_return_state() == pre.spec_return_state() || post.state
            == States::CharacterReference)
        &&& ({
            if is_ascii_letter(b) {
                &&& post.state == States::TagName
                &&& Self::stayed(pre, post)
                &&& TokenBuilder::same_but_variant(pre.spec_builder(), post.spec_builder())
                &&& post.spec_builder().variant == Some(TokenVariant::EndTag)
                &&& post.queue() == pre.queue()
                &&& r == ok_none()
            } else if b == GREATER_THAN {
                &&& post.state == States::Data
                &&& Self::advanced1(pre, post)
                &&& Self::same_builder_queue(pre, post)
                &&& r == ok_none()
            } else {
                &&& post.state == States::BogusComment
                &&& Self::stayed(pre, post)
                &&& TokenBuilder::same_but_variant(pre.spec_builder(), post.spec_builder())
                &&& post.spec_builder().variant == Some(TokenVariant::Comment)
                &&& post.queue() == pre.queue()
                &&& r == ok_none()
            }
        })
    }

    /// The tag-name state: whitespace moves to the attributes, `/` to a
    /// self-closing tag, `>` finalizes and emits; every other byte extends
    /// the name, a NUL as the two replacement bytes.
    pub open spec fn step_tag_name(pre: Self, post: Self, r: TokResult) -> bool {
        let b = pre.at();
        &&& (post.spec_return_state() == pre.spec_return_state() || post.state
            == States::CharacterReference)
        &&& ({
            if is_lexical_whitespace(b) {
                &&& post.state == States::BeforeAttributeName
                &&& Self::advanced1(pre, post)
                &&& Self::same_builder_queue(pre, post)
                &&& r == ok_none()
            } else if b == SLASH {
                &&& post.state == States::SelfClosingStartTag
                &&& Self::advanced1(pre, post)
                &&& Self::same_builder_queue(pre, post)
                &&& r == ok_none()
            } else if b == GREATER_THAN {
                &&& Self::advanced1(pre, post)
                &&& Self::emits_pending_tag(pre, post, r)
            } else if b == NUL {
                &&& post.state == States::TagName
                &&& Self::advanced1(pre, post)
                &&& Self::tag_name_pushed(pre.spec_builder(), post.spec_builder(), seq![0xFFu8, 0xFDu8])
                &&& post.queue() == pre.queue()
                &&& r == ok_none()
            } else {
                &&& post.state == States::TagName
                &&& Self::advanced1(pre, post)
                &&& Self::tag_name_pushed(pre.spec_builder(), post.spec_builder(), seq![b])
                &&& post.queue() == pre.queue()
                &&& r == ok_none()
            }
        })
    }

    /// The self-closing-start-tag state: `>` marks the pending tag
    /// self-closing and emits it; anything else redispatches before the
    /// attribute names.
    pub open spec fn step_self_closing_start_tag(pre: Self, post: Self, r: TokResult) -> bool {
        let b = pre.at();
        let bd = pre.spec_builder();
        &&& (post.spec_return_state() == pre.spec_return_state() || post.state
            == States::CharacterReference)
        &&& ({
            if b == GREATER_THAN {
                &&& Self::advanced1(pre, post)
                &&& post.state == States::Data
                &&& post.queue() == pre.queue()
                &&& if bd.variant == Some(TokenVariant::StartTag) {
                    Self::drained(post, bd.tag.name@) && r == ok_tok(
                        Token::StartTag(
                            (Tag {
                                self_closing: true,
                                name: bd.tag.name,
                                attr_keys: bd.tag.attr_keys,
                                attr_values: bd.tag.attr_values,
                            }),
                        ),
                    )
                } else {
                    Self::drained(post, bd.last_start_tag@) && r == ok_tok(
                        Token::EndTag(
                            (Tag {
                                self_closing: true,
                                name: bd.tag.name,
                                attr_keys: bd.tag.attr_keys,
                                attr_values: bd.tag.attr_values,
                            }),
                        ),
                    )
                }
            } else {
                &&& post.state == States::BeforeAttributeName
                &&& Self::stayed(pre, post)
                &&& Self::same_builder_queue(pre, post)
                &&& r == ok_none()
            }
        })
    }

    /// The before-attribute-name state: whitespace is skipped, `/` and `>`
    /// redispatch after the attribute names, a stray `=` starts an
    /// attribute name with it, anything else redispatches as an attribute
    /// name.
    pub open spec fn step_before_attribute_name(pre: Self, post: Self, r: TokResult) -> bool {
        let b = pre.at();
        &&& (post.spec_return_state() == pre.spec_return_state() || post.state
            == States::CharacterReference)
        &&& ({
            if is_lexical_whitespace(b) {
                &&& post.state == States::BeforeAttributeName
                &&& Self::advanced1(pre, post)
                &&& Self::same_builder_queue(pre, post)
                &&& r == ok_none()
            } else if b == SLASH || b == GREATER_THAN {
                &&& post.state == States::AfterAttributeName
                &&& Self::stayed(pre, post)
                &&& Self::same_builder_queue(pre, post)
                &&& r == ok_none()
            } else if b == EQUALS {
                &&& post.state == States::AttributeName
                &&& Self::advanced1(pre, post)
                &&& Self::buffer_pushed(pre.spec_builder(), post.spec_builder(), seq![EQUALS])
                &&& post.queue() == pre.queue()
                &&& r == ok_none()
            } else {
                &&& post.state == States::AttributeName
                &&& Self::stayed(pre, post)
                &&& Self::same_builder_queue(pre, post)
                &&& r == ok_none()
            }
        })
    }

    /// The attribute-name state: whitespace, `/` and `>` end the name and
    /// redispatch after it, `=` ends it before a value; every other byte
    /// extends the name in the scratch buffer.
    pub open spec fn step_attribute_name(pre: Self, post: Self, r: TokResult) -> bool {
        let b = pre.at();
        &&& (post.spec_return_state() == pre.spec_return_state() || post.state
            == States::CharacterReference)
        &&& ({
            if is_lexical_whitespace(b) || b == SLASH || b == GREATER_THAN {
                &&& post.state == States::AfterAttributeName
                &&& Self::stayed(pre, post)
                &&& Self::keys_committed(pre.spec_builder(), post.spec_builder())
                &&& post.queue() == pre.queue()
                &&& r == ok_none()
            } else if b == EQUALS {
                &&& post.state == States::BeforeAttributeValue
                &&& Self::advanced1(pre, post)
                &&& Self::keys_committed(pre.spec_builder(), post.spec_builder())
                &&& post.queue() == pre.queue()
                &&& r == ok_none()
            } else if b == NUL {
                &&& post.state == States::AttributeName
                &&& Self::advanced1(pre, post)
                &&& Self::buffer_pushed(pre.spec_builder(), post.spec_builder(), seq![0xFFu8, 0xFDu8])
                &&& post.queue() == pre.queue()
                &&& r == ok_none()
            } else {
                &&& post.state == States::AttributeName
                &&& Self::advanced1(pre, post)
                &&& Self::buffer_pushed(pre.spec_builder(), post.spec_builder(), seq![b])
                &&& post.queue() == pre.queue()
                &&& r == ok_none()
            }
        })
    }

    /// The after-attribute-name state: whitespace is skipped, `/` turns to a
    /// self-closing tag, `=` to a value — refused if no attribute is pending
    /// — `>` emits, and anything else starts the next attribute name.
    pub open spec fn step_after_attribute_name(pre: Self, post: Self, r: TokResult) -> bool {
        let b = pre.at();
        let bd = pre.spec_builder();
        &&& (post.spec_return_state() == pre.spec_return_state() || post.state
            == States::CharacterReference)
        &&& ({
            if is_lexical_whitespace(b) {
                &&& post.state == States::AfterAttributeName
                &&& Self::advanced1(pre, post)
                &&& Self::same_builder_queue(pre, post)
                &&& r == ok_none()
            } else if b == SLASH {
                &&& post.state == States::SelfClosingStartTag
                &&& Self::advanced1(pre, post)
                &&& Self::same_builder_queue(pre, post)
                &&& r == ok_none()
            } else if b == EQUALS {
                if bd.drop_attr_value || bd.tag.attr_values@.len() > 0 {
                    &&& post.state == States::BeforeAttributeValue
                    &&& Self::advanced1(pre, post)
                    &&& Self::same_builder_queue(pre, post)
                    &&& r == ok_none()
                } else {
                    &&& Self::is_advance_of(pre, post)
                    &&& r == unsupported()
                }
            } else if b == GREATER_THAN {
                &&& Self::advanced1(pre, post)
                &&& Self::emits_pending_tag(pre, post, r)
            } else {
                &&& post.state == States::AttributeName
                &&& Self::stayed(pre, post)
                &&& Self::same_builder_queue(pre, post)
                &&& r == ok_none()
            }
        })
    }

    /// The before-attribute-value state: whitespace is skipped, a quote
    /// opens a quoted value, `>` emits the tag with the attribute's value
    /// left empty, anything else redispatches as an unquoted value.
    pub open spec fn step_before_attribute_value(pre: Self, post: Self, r: TokResult) -> bool {
        let b = pre.at();
        &&& (post.spec_return_state() == pre.spec_return_state() || post.state
            == States::CharacterReference)
        &&& ({
            if is_lexical_whitespace(b) {
                &&& post.state == States::BeforeAttributeValue
                &&& Self::advanced1(pre, post)
                &&& Self::same_builder_queue(pre, post)
                &&& r == ok_none()
            } else if b == QUOTE {
                &&& post.state == States::AttributeValueDoubleQuoted
                &&& Self::advanced1(pre, post)
                &&& Self::same_builder_queue(pre, post)
                &&& r == ok_none()
            } else if b == APOSTROPHE {
                &&& post.state == States::AttributeValueSingleQuoted
                &&& Self::advanced1(pre, post)
                &&& Self::same_builder_queue(pre, post)
                &&& r == ok_none()
            } else if b == GREATER_THAN {
                &&& Self::advanced1(pre, post)
                &&& Self::emits_pending_tag(pre, post, r)
            } else {
                &&& post.state == States::AttributeValueUnquoted
                &&& Self::stayed(pre, post)
                &&& Self::same_builder_queue(pre, post)
                &&& r == ok_none()
            }
        })
    }

    /// A quoted attribute value: the matching quote commits the value, `&`
    /// detours into a character reference, and every other byte extends the
    /// value, a NUL as the two replacement bytes.
    pub open spec fn step_attribute_value_quoted(
        pre: Self,
        post: Self,
        r: TokResult,
        quote: u8,
        here: States,
    ) -> bool {
        let b = pre.at();
        &&& (post.spec_return_state() == pre.spec_return_state() || post.state
            == States::CharacterReference)
        &&& ({
            if b == quote {
                &&& post.state == States::AfterAttributeValueQuoted
                &&& Self::advanced1(pre, post)
                &&& Self::value_committed(pre.spec_builder(), post.spec_builder())
                &&& post.queue() == pre.queue()
                &&& r == ok_none()
            } else if b == AMPERSAND {
                &&& post.state == States::CharacterReference
                &&& post.spec_return_state() == here
                &&& Self::advanced1(pre, post)
                &&& Self::same_builder_queue(pre, post)
                &&& r == ok_none()
            } else if b == NUL {
                &&& post.state == here
                &&& Self::advanced1(pre, post)
                &&& Self::buffer_pushed(pre.spec_builder(), post.spec_builder(), seq![0xFFu8, 0xFDu8])
                &&& post.queue() == pre.queue()
                &&& r == ok_none()
            } else {
                &&& post.state == here
                &&& Self::advanced1(pre, post)
                &&& Self::buffer_pushed(pre.spec_builder(), post.spec_builder(), seq![b])
                &&& post.queue() == pre.queue()
                &&& r == ok_none()
            }
        })
    }

    /// The unquoted attribute value: whitespace commits the value before the
    /// next attribute, `&` detours into a character reference, `>` commits
    /// and emits, and every other byte extends the value.
    pub open spec fn step_attribute_value_unquoted(pre: Self, post: Self, r: TokResult) -> bool {
        let b = pre.at();
        let bd = pre.spec_builder();
        &&& (post.spec_return_state() == pre.spec_return_state() || post.state
            == States::CharacterReference)
        &&& ({
            if is_lexical_whitespace(b) {
                &&& post.state == States::BeforeAttributeName
                &&& Self::advanced1(pre, post)
                &&& Self::value_committed(pre.spec_builder(), post.spec_builder())
                &&& post.queue() == pre.queue()
                &&& r == ok_none()
            } else if b == AMPERSAND {
                &&& post.state == States::CharacterReference
                &&& post.spec_return_state() == States::AttributeValueUnquoted
                &&& Self::advanced1(pre, post)
                &&& Self::same_builder_queue(pre, post)
                &&& r == ok_none()
            } else if b == GREATER_THAN {
                &&& Self::advanced1(pre, post)
                &&& post.state == States::Data
                &&& post.queue() == pre.queue()
                &&& Self::drained(
                    post,
                    if bd.variant == Some(TokenVariant::StartTag) {
                        bd.tag.name@
                    } else {
                        bd.last_start_tag@
                    },
                )
                &&& match r {
                    Ok(Some(Token::StartTag(tag2))) => {
                        &&& bd.variant == Some(TokenVariant::StartTag)
                        &&& tag2.name@ == bd.tag.name@
                        &&& tag2.self_closing == bd.tag.self_closing
                        &&& crate::tokens::rows_view(tag2.attr_keys) == crate::tokens::rows_view(
                            bd.tag.attr_keys,
                        )
                        &&& crate::tokens::rows_view(tag2.attr_values) == Self::committed_values(bd)
                    },
                    Ok(Some(Token::EndTag(tag2))) => {
                        &&& bd.variant == Some(TokenVariant::EndTag)
                        &&& tag2.name@ == bd.tag.name@
                        &&& tag2.self_closing == bd.tag.self_closing
                        &&& crate::tokens::rows_view(tag2.attr_keys) == crate::tokens::rows_view(
                            bd.tag.attr_keys,
                        )
                        &&& crate::tokens::rows_view(tag2.attr_values) == Self::committed_values(bd)
                    },
                    _ => false,
                }
            } else if b == NUL {
                &&& post.state == States::AttributeValueUnquoted
                &&& Self::advanced1(pre, post)
                &&& Self::buffer_pushed(pre.spec_builder(), post.spec_builder(), seq![0xFFu8, 0xFDu8])
                &&& post.queue() == pre.queue()
                &&& r == ok_none()
            } else {
                &&& post.state == States::AttributeValueUnquoted
                &&& Self::advanced1(pre, post)
                &&& Self::buffer_pushed(pre.spec_builder(), post.spec_builder(), seq![b])
                &&& post.queue() == pre.queue()
                &&& r == ok_none()
            }
        })
    }

    /// After a quoted attribute value: whitespace moves on, `/` to a
    /// self-closing tag, `>` emits; anything else redispatches before the
    /// next attribute name.
    pub open spec fn step_after_attribute_value_quoted(pre: Self, post: Self, r: TokResult) -> bool {
        let b = pre.at();
        &&& (post.spec_return_state() == pre.spec_return_state() || post.state
            == States::CharacterReference)
        &&& ({
            if is_lexical_whitespace(b) {
                &&& post.state == States::BeforeAttributeName
                &&& Self::advanced1(pre, post)
                &&& Self::same_builder_queue(pre, post)
                &&& r == ok_none()
            } else if b == SLASH {
                &&& post.state == States::SelfClosingStartTag
                &&& Self::advanced1(pre, post)
                &&& Self::same_builder_queue(pre, post)
                &&& r == ok_none()
            } else if b == GREATER_THAN {
                &&& Self::advanced1(pre, post)
                &&& Self::emits_pending_tag(pre, post, r)
            } else {
                &&& post.state == States::BeforeAttributeName
                &&& Self::stayed(pre, post)
                &&& Self::same_builder_queue(pre, post)
                &&& r == ok_none()
            }
        })
    }

    /// One byte of text content was consumed and emitted as a character
    /// token, with the machine staying in `here`: a NUL is replaced by the
    /// two replacement bytes, the second of them queued.
    pub open spec fn emits_character(pre: Self, post: Self, r: TokResult, here: States) -> bool {
        let b = pre.at();
        &&& post.state == here
        &&& Self::advanced1(pre, post)
        &&& Self::drained(post, pre.spec_builder().last_start_tag@)
        &&& if b == NUL {
            post.queue() == pre.queue().push(Token::Character(0xFD)) && r == ok_tok(
                Token::Character(0xFF),
            )
        } else {
            post.queue() == pre.queue() && r == ok_tok(Token::Character(b))
        }
    }

    /// A text-like state (rcdata, rawtext, script data, plaintext): `&`
    /// detours into a character reference where the state decodes entities,
    /// `<` peeks for a matching end tag where the state knows one, and
    /// every other byte is one character token.
    pub open spec fn step_text(pre: Self, post: Self, r: TokResult, here: States) -> bool {
        let b = pre.at();
        &&& (post.spec_return_state() == pre.spec_return_state() || post.state
            == States::CharacterReference)
        &&& ({
            if b == AMPERSAND && here == States::RCData {
                &&& post.state == States::CharacterReference
                &&& post.spec_return_state() == States::RCData
                &&& Self::advanced1(pre, post)
                &&& Self::same_builder_queue(pre, post)
                &&& r == ok_none()
            } else if b == LESS_THAN && here == States::RCData {
                &&& post.state == States::RCDataLessThanSign
                &&& Self::advanced1(pre, post)
                &&& Self::same_builder_queue(pre, post)
                &&& r == ok_none()
            } else if b == LESS_THAN && here == States::RawText {
                &&& post.state == States::RawTextLessThanSign
                &&& Self::advanced1(pre, post)
                &&& Self::same_builder_queue(pre, post)
                &&& r == ok_none()
            } else if b == LESS_THAN && here == States::ScriptData {
                &&& post.state == States::ScriptDataLessThanSign
                &&& Self::advanced1(pre, post)
                &&& Self::same_builder_queue(pre, post)
                &&& r == ok_none()
            } else {
                Self::emits_character(pre, post, r, here)
            }
        })
    }

    /// After `<` inside rcdata: `/` peeks for an end tag; anything else
    /// emits the `<` as one character and redispatches as rcdata.
    pub open spec fn step_rcdata_less_than_sign(pre: Self, post: Self, r: TokResult) -> bool {
        let b = pre.at();
        &&& (post.spec_return_state() == pre.spec_return_state() || post.state
            == States::CharacterReference)
        &&& ({
            if b == SLASH {
                &&& post.state == States::RCDataEndTagOpen
                &&& Self::advanced1(pre, post)
                &&& Self::same_builder_queue(pre, post)
                &&& r == ok_none()
            } else {
                &&& post.state == States::RCData
                &&& Self::stayed(pre, post)
                &&& Self::drained(post, pre.spec_builder().last_start_tag@)
                &&& post.queue() == pre.queue()
                &&& r == ok_tok(Token::Character(LESS_THAN))
            }
        })
    }

    /// After `</` inside rcdata: a letter starts an end tag name; anything
    /// else is outside the implemented subset.
    pub open spec fn step_rcdata_end_tag_open(pre: Self, post: Self, r: TokResult) -> bool {
        let b = pre.at();
        &&& (post.spec_return_state() == pre.spec_return_state() || post.state
            == States::CharacterReference)
        &&& ({
            if is_ascii_letter(b) {
                &&& post.state == States::RCDataEndTagName
                &&& Self::stayed(pre, post)
                &&& TokenBuilder::same_but_variant(pre.spec_builder(), post.spec_builder())
                &&& post.spec_builder().variant == Some(TokenVariant::EndTag)
                &&& post.queue() == pre.queue()
                &&& r == ok_none()
            } else {
                &&& Self::is_advance_of(pre, post)
                &&& r == unsupported()
            }
        })
    }

    /// An end tag name inside rcdata: letters extend the name; whitespace,
    /// `/` and `>` act only when the name matches the start tag that opened
    /// the text content, else the input is outside the implemented subset.
    pub open spec fn step_rcdata_end_tag_name(pre: Self, post: Self, r: TokResult) -> bool {
        let b = pre.at();
        let bd = pre.spec_builder();
        let appropriate = bd.tag.name@ == bd.last_start_tag@;
        &&& (post.spec_return_state() == pre.spec_return_state() || post.state
            == States::CharacterReference)
        &&& ({
            if is_ascii_letter(b) {
                &&& post.state == States::RCDataEndTagName
                &&& Self::advanced1(pre, post)
                &&& Self::tag_name_pushed(pre.spec_builder(), post.spec_builder(), seq![b])
                &&& post.queue() == pre.queue()
                &&& r == ok_none()
            } else if is_lexical_whitespace(b) && appropriate {
                &&& post.state == States::BeforeAttributeName
                &&& Self::advanced1(pre, post)
                &&& Self::same_builder_queue(pre, post)
                &&& r == ok_none()
            } else if b == SLASH && appropriate {
                &&& post.state == States::SelfClosingStartTag
                &&& Self::advanced1(pre, post)
                &&& Self::same_builder_queue(pre, post)
                &&& r == ok_none()
            } else if b == GREATER_THAN && appropriate {
                &&& Self::advanced1(pre, post)
                &&& Self::emits_pending_tag(pre, post, r)
            } else {
                &&& Self::is_advance_of(pre, post)
                &&& r == unsupported()
            }
        })
    }

    /// After `<` inside rawtext: `/` peeks for an end tag; anything else
    /// emits the `<` as one character and redispatches as rawtext.
    pub open spec fn step_rawtext_less_than_sign(pre: Self, post: Self, r: TokResult) -> bool {
        let b = pre.at();
        &&& (post.spec_return_state() == pre.spec_return_state() || post.state
            == States::CharacterReference)
        &&& ({
            if b == SLASH {
                &&& post.state == States::RawTextEndTagOpen
                &&& Self::advanced1(pre, post)
                &&& Self::same_builder_queue(pre, post)
                &&& r == ok_none()
            } else {
                &&& post.state == States::RawText
                &&& Self::stayed(pre, post)
                &&& Self::drained(post, pre.spec_builder().last_start_tag@)
                &&& post.queue() == pre.queue()
                &&& r == ok_tok(Token::Character(LESS_THAN))
            }
        })
    }

    /// After `</` inside rawtext: a letter starts an end tag name; anything
    /// else is outside the implemented subset.
    pub open spec fn step_rawtext_end_tag_open(pre: Self, post: Self, r: TokResult) -> bool {
        let b = pre.at();
        &&& (post.spec_return_state() == pre.spec_return_state() || post.state
            == States::CharacterReference)
        &&& ({
            if is_ascii_letter(b) {
                &&& post.state == States::RawTextEndTagName
                &&& Self::stayed(pre, post)
                &&& TokenBuilder::same_but_variant(pre.spec_builder(), post.spec_builder())
                &&& post.spec_builder().variant == Some(TokenVariant::EndTag)
                &&& post.queue() == pre.queue()
                &&& r == ok_none()
            } else {
                &&& Self::is_advance_of(pre, post)
                &&& r == unsupported()
            }
        })
    }

    /// An end tag name inside rawtext: letters extend the name; whitespace,
    /// `/` and `>` act only when the name matches the start tag that opened
    /// the text content, else the input is outside the implemented subset.
    pub open spec fn step_rawtext_end_tag_name(pre: Self, post: Self, r: TokResult) -> bool {
        let b = pre.at();
        let bd = pre.spec_builder();
        let appropriate = bd.tag.name@ == bd.last_start_tag@;
        &&& (post.spec_return_state() == pre.spec_return_state() || post.state
            == States::CharacterReference)
        &&& ({
            if is_ascii_letter(b) {
                &&& post.state == States::RawTextEndTagName
                &&& Self::advanced1(pre, post)
                &&& Self::tag_name_pushed(pre.spec_builder(), post.spec_builder(), seq![b])
                &&& post.queue() == pre.queue()
                &&& r == ok_none()
            } else if is_lexical_whitespace(b) && appropriate {
                &&& post.state == States::BeforeAttributeName
                &&& Self::advanced1(pre, post)
                &&& Self::same_builder_queue(pre, post)
                &&& r == ok_none()
            } else if b == SLASH && appropriate {
                &&& post.state == States::SelfClosingStartTag
                &&& Self::advanced1(pre, post)
                &&& Self::same_builder_queue(pre, post)
                &&& r == ok_none()
            } else if b == GREATER_THAN && appropriate {
                &&& Self::advanced1(pre, post)
                &&& Self::emits_pending_tag(pre, post, r)
            } else {
                &&& Self::is_advance_of(pre, post)
                &&& r == unsupported()
            }
        })
    }

    /// The character-reference detour, with entity decoding left to a
    /// pluggable lookup this subset does not include: the `&` is kept as
    /// literal text — appended to the value being built when the detour came
    /// from an attribute value, emitted as one character otherwise — and the
    /// byte after it is redispatched under the state that detoured.
    pub open spec fn step_character_reference(pre: Self, post: Self, r: TokResult) -> bool {
        let ret = pre.spec_return_state();
        if ret == States::AttributeValueDoubleQuoted || ret == States::AttributeValueSingleQuoted
            || ret == States::AttributeValueUnquoted {
            &&& post.state == ret
            &&& post.spec_return_state() == ret
            &&& Self::stayed(pre, post)
            &&& Self::buffer_pushed(pre.spec_builder(), post.spec_builder(), seq![AMPERSAND])
            &&& post.queue() == pre.queue()
            &&& r == ok_none()
        } else {
            &&& post.state == ret
            &&& post.spec_return_state() == ret
            &&& Self::stayed(pre, post)
            &&& Self::drained(post, pre.spec_builder().last_start_tag@)
            &&& post.queue() == pre.queue()
            &&& r == ok_tok(Token::Character(AMPERSAND))
        }
    }

    /// The letters of `OCTYPE`, the lookahead that follows the `d` of a
    /// doctype declaration.
    pub open spec fn octype_lit() -> Seq<u8> {
        seq![0x4Fu8, 0x43u8, 0x54u8, 0x59u8, 0x50u8, 0x45u8]
    }

    /// Whether `lit` occurs, up to ASCII case, right after the byte under
    /// the cursor.
    pub open spec fn lookahead_insensitive(pre: Self, lit: Seq<u8>) -> bool {
        &&& pre.pos() + 1 + lit.len() <= pre.bytes().len()
        &&& forall|k: int|
            0 <= k < lit.len() ==> crate::stream::ascii_to_lower(
                #[trigger] pre.bytes()[pre.pos() + 1 + k],
            ) == crate::stream::ascii_to_lower(lit[k])
    }

    /// The pending comment was finalized and emitted, and the machine
    /// returned to the data state.
    pub open spec fn emits_comment(pre: Self, post: Self, r: TokResult) -> bool {
        let bd = pre.spec_builder();
        &&& post.state == States::Data
        &&& post.queue() == pre.queue()
        &&& Self::drained(post, bd.last_start_tag@)
        &&& r == ok_tok(Token::Comment(bd.buffer))
    }

    /// The markup-declaration-open state: `--` opens a comment, a
    /// case-insensitive `DOCTYPE` a doctype; everything else — a CDATA
    /// section included — is outside the implemented subset.
    pub open spec fn step_markup_declaration_open(pre: Self, post: Self, r: TokResult) -> bool {
        let b = pre.at();
        &&& (post.spec_return_state() == pre.spec_return_state() || post.state
            == States::CharacterReference)
        &&& ({
            if b == HYPHEN {
                if pre.pos() + 2 <= pre.bytes().len() && pre.bytes()[pre.pos() + 1] == HYPHEN {
                    &&& post.state == States::CommentStart
                    &&& post.bytes() == pre.bytes()
                    &&& post.pos() == pre.pos() + 2
                    &&& TokenBuilder::same_but_variant(pre.spec_builder(), post.spec_builder())
                    &&& post.spec_builder().variant == Some(TokenVariant::Comment)
                    &&& post.queue() == pre.queue()
                    &&& r == ok_none()
                } else {
                    &&& Self::is_advance_of(pre, post)
                    &&& r == unsupported()
                }
            } else if b == LOWER_D || b == UPPER_D {
                if Self::lookahead_insensitive(pre, Self::octype_lit()) {
                    &&& post.state == States::DocType
                    &&& post.bytes() == pre.bytes()
                    &&& post.pos() == pre.pos() + 7
                    &&& Self::same_builder_queue(pre, post)
                    &&& r == ok_none()
                } else {
                    &&& Self::is_advance_of(pre, post)
                    &&& r == unsupported()
                }
            } else {
                &&& Self::is_advance_of(pre, post)
                &&& r == unsupported()
            }
        })
    }

    /// A bogus comment: `>` finalizes and emits it; every other byte
    /// extends its data, a NUL as the two replacement bytes.
    pub open spec fn step_bogus_comment(pre: Self, post: Self, r: TokResult) -> bool {
        let b = pre.at();
        &&& (post.spec_return_state() == pre.spec_return_state() || post.state
            == States::CharacterReference)
        &&& ({
            if b == GREATER_THAN {
                &&& Self::advanced1(pre, post)
                &&& Self::emits_comment(pre, post, r)
            } else if b == NUL {
                &&& post.state == States::BogusComment
                &&& Self::advanced1(pre, post)
                &&& Self::buffer_pushed(pre.spec_builder(), post.spec_builder(), seq![0xFFu8, 0xFDu8])
                &&& post.queue() == pre.queue()
                &&& r == ok_none()
            } else {
                &&& post.state == States::BogusComment
                &&& Self::advanced1(pre, post)
                &&& Self::buffer_pushed(pre.spec_builder(), post.spec_builder(), seq![b])
                &&& post.queue() == pre.queue()
                &&& r == ok_none()
            }
        })
    }

    /// The comment-start state: a second `-` may already end the comment,
    /// `>` closes it abruptly, anything else is comment data.
    pub open spec fn step_comment_start(pre: Self, post: Self, r: TokResult) -> bool {
        let b = pre.at();
        &&& (post.spec_return_state() == pre.spec_return_state() || post.state
            == States::CharacterReference)
        &&& ({
            if b == HYPHEN {
                &&& post.state == States::CommentStartDash
                &&& Self::advanced1(pre, post)
                &&& Self::same_builder_queue(pre, post)
                &&& r == ok_none()
            } else if b == GREATER_THAN {
                &&& Self::advanced1(pre, post)
                &&& Self::emits_comment(pre, post, r)
            } else {
                &&& post.state == States::Comment
                &&& Self::stayed(pre, post)
                &&& Self::same_builder_queue(pre, post)
                &&& r == ok_none()
            }
        })
    }

    /// The comment-start-dash state: a second `-` moves to the comment end,
    /// `>` closes abruptly, anything else keeps the `-` as comment data.
    pub open spec fn step_comment_start_dash(pre: Self, post: Self, r: TokResult) -> bool {
        let b = pre.at();
        &&& (post.spec_return_state() == pre.spec_return_state() || post.state
            == States::CharacterReference)
        &&& ({
            if b == HYPHEN {
                &&& post.state == States::CommentEnd
                &&& Self::advanced1(pre, post)
                &&& Self::same_builder_queue(pre, post)
                &&& r == ok_none()
            } else if b == GREATER_THAN {
                &&& Self::advanced1(pre, post)
                &&& Self::emits_comment(pre, post, r)
            } else {
                &&& post.state == States::Comment
                &&& Self::stayed(pre, post)
                &&& Self::buffer_pushed(pre.spec_builder(), post.spec_builder(), seq![HYPHEN])
                &&& post.queue() == pre.queue()
                &&& r == ok_none()
            }
        })
    }

    /// The comment state: `-` may start the comment's end; every other byte
    /// is comment data — a `<` too, as nested-comment detection is outside
    /// the implemented subset — a NUL as the two replacement bytes.
    pub open spec fn step_comment(pre: Self, post: Self, r: TokResult) -> bool {
        let b = pre.at();
        &&& (post.spec_return_state() == pre.spec_return_state() || post.state
            == States::CharacterReference)
        &&& ({
            if b == HYPHEN {
                &&& post.state == States::CommentEndDash
                &&& Self::advanced1(pre, post)
                &&& Self::same_builder_queue(pre, post)
                &&& r == ok_none()
            } else if b == NUL {
                &&& post.state == States::Comment
                &&& Self::advanced1(pre, post)
                &&& Self::buffer_pushed(pre.spec_builder(), post.spec_builder(), seq![0xFFu8, 0xFDu8])
                &&& post.queue() == pre.queue()
                &&& r == ok_none()
            } else {
                &&& post.state == States::Comment
                &&& Self::advanced1(pre, post)
                &&& Self::buffer_pushed(pre.spec_builder(), post.spec_builder(), seq![b])
                &&& post.queue() == pre.queue()
                &&& r == ok_none()
            }
        })
    }

    /// The comment-end-dash state: a second `-` reaches the comment end;
    /// anything else keeps the `-` as comment data.
    pub open spec fn step_comment_end_dash(pre: Self, post: Self, r: TokResult) -> bool {
        let b = pre.at();
        &&& (post.spec_return_state() == pre.spec_return_state() || post.state
            == States::CharacterReference)
        &&& ({
            if b == HYPHEN {
                &&& post.state == States::CommentEnd
                &&& Self::advanced1(pre, post)
                &&& Self::same_builder_queue(pre, post)
                &&& r == ok_none()
            } else {
                &&& post.state == States::Comment
                &&& Self::stayed(pre, post)
                &&& Self::buffer_pushed(pre.spec_builder(), post.spec_builder(), seq![HYPHEN])
                &&& post.queue() == pre.queue()
                &&& r == ok_none()
            }
        })
    }

    /// The comment-end state: `>` finalizes and emits, `!` may close the
    /// comment incorrectly, a further `-` is comment data; anything else
    /// keeps the two `-` as comment data.
    pub open spec fn step_comment_end(pre: Self, post: Self, r: TokResult) -> bool {
        let b = pre.at();
        &&& (post.spec_return_state() == pre.spec_return_state() || post.state
            == States::CharacterReference)
        &&& ({
            if b == GREATER_THAN {
                &&& Self::advanced1(pre, post)
                &&& Self::emits_comment(pre, post, r)
            } else if b == EXCLAMATION {
                &&& post.state == States::CommentEndBang
                &&& Self::advanced1(pre, post)
                &&& Self::same_builder_queue(pre, post)
                &&& r == ok_none()
            } else if b == HYPHEN {
                &&& post.state == States::CommentEnd
                &&& Self::advanced1(pre, post)
                &&& Self::buffer_pushed(pre.spec_builder(), post.spec_builder(), seq![HYPHEN])
                &&& post.queue() == pre.queue()
                &&& r == ok_none()
            } else {
                &&& post.state == States::Comment
                &&& Self::stayed(pre, post)
                &&& Self::buffer_pushed(pre.spec_builder(), post.spec_builder(), seq![HYPHEN, HYPHEN])
                &&& post.queue() == pre.queue()
                &&& r == ok_none()
            }
        })
    }

    /// The comment-end-bang state: `-` and anything else keep `--!` as
    /// comment data, `>` closes the comment incorrectly but completely.
    pub open spec fn step_comment_end_bang(pre: Self, post: Self, r: TokResult) -> bool {
        let b = pre.at();
        &&& (post.spec_return_state() == pre.spec_return_state() || post.state
            == States::CharacterReference)
        &&& ({
            if b == HYPHEN {
                &&& post.state == States::CommentEndDash
                &&& Self::advanced1(pre, post)
                &&& Self::buffer_pushed(
                    pre.spec_builder(),
                    post.spec_builder(),
                    seq![HYPHEN, HYPHEN, EXCLAMATION],
                )
                &&& post.queue() == pre.queue()
                &&& r == ok_none()
            } else if b == GREATER_THAN {
                &&& Self::advanced1(pre, post)
                &&& Self::emits_comment(pre, post, r)
            } else {
                &&& post.state == States::Comment
                &&& Self::stayed(pre, post)
                &&& Self::buffer_pushed(
                    pre.spec_builder(),
                    post.spec_builder(),
                    seq![HYPHEN, HYPHEN, EXCLAMATION],
                )
                &&& post.queue() == pre.queue()
                &&& r == ok_none()
            }
        })
    }

    /// The doctype state: whitespace moves before the name; anything else —
    /// a premature `>` included — redispatches there.
    pub open spec fn step_doctype(pre: Self, post: Self, r: TokResult) -> bool {
        let b = pre.at();
        &&& (post.spec_return_state() == pre.spec_return_state() || post.state
            == States::CharacterReference)
        &&& ({
            if is_lexical_whitespace(b) {
                &&& post.state == States::BeforeDocTypeName
                &&& Self::advanced1(pre, post)
                &&& Self::same_builder_queue(pre, post)
                &&& r == ok_none()
            } else {
                &&& post.state == States::BeforeDocTypeName
                &&& Self::stayed(pre, post)
                &&& Self::same_builder_queue(pre, post)
                &&& r == ok_none()
            }
        })
    }

    /// Before the doctype name: whitespace is skipped, `>` emits a nameless
    /// doctype that forces quirks mode, and any other byte starts the name,
    /// a NUL as the two replacement bytes.
    pub open spec fn step_before_doctype_name(pre: Self, post: Self, r: TokResult) -> bool {
        let b = pre.at();
        let bd = pre.spec_builder();
        &&& (post.spec_return_state() == pre.spec_return_state() || post.state
            == States::CharacterReference)
        &&& ({
            if is_lexical_whitespace(b) {
                &&& post.state == States::BeforeDocTypeName
                &&& Self::advanced1(pre, post)
                &&& Self::same_builder_queue(pre, post)
                &&& r == ok_none()
            } else if b == GREATER_THAN {
                &&& post.state == States::Data
                &&& Self::advanced1(pre, post)
                &&& Self::drained(post, bd.last_start_tag@)
                &&& post.queue() == pre.queue()
                &&& r == ok_tok(
                    Token::Doctype(
                        (crate::tokens::DocType {
                            name: bd.doctype.name,
                            public_id: bd.doctype.public_id,
                            system_id: bd.doctype.system_id,
                            force_quirks: true,
                        }),
                    ),
                )
            } else if b == NUL {
                &&& post.state == States::DocTypeName
                &&& Self::advanced1(pre, post)
                &&& Self::buffer_pushed(pre.spec_builder(), post.spec_builder(), seq![0xFFu8, 0xFDu8])
                &&& post.queue() == pre.queue()
                &&& r == ok_none()
            } else {
                &&& post.state == States::DocTypeName
                &&& Self::advanced1(pre, post)
                &&& Self::buffer_pushed(pre.spec_builder(), post.spec_builder(), seq![b])
                &&& post.queue() == pre.queue()
                &&& r == ok_none()
            }
        })
    }

    /// The doctype name: whitespace ends it — what follows is outside the
    /// implemented subset — `>` finalizes and emits the doctype with the
    /// accumulated name, and every other byte extends the name.
    pub open spec fn step_doctype_name(pre: Self, post: Self, r: TokResult) -> bool {
        let b = pre.at();
        let bd = pre.spec_builder();
        &&& (post.spec_return_state() == pre.spec_return_state() || post.state
            == States::CharacterReference)
        &&& ({
            if is_lexical_whitespace(b) {
                &&& post.state == States::AfterDocTypeName
                &&& Self::advanced1(pre, post)
                &&& Self::same_builder_queue(pre, post)
                &&& r == ok_none()
            } else if b == GREATER_THAN {
                &&& post.state == States::Data
                &&& Self::advanced1(pre, post)
                &&& Self::drained(post, bd.last_start_tag@)
                &&& post.queue() == pre.queue()
                &&& r == ok_tok(
                    Token::Doctype(
                        (crate::tokens::DocType {
                            name: bd.buffer,
                            public_id: bd.doctype.public_id,
                            system_id: bd.doctype.system_id,
                            force_quirks: bd.doctype.force_quirks,
                        }),
                    ),
                )
            } else if b == NUL {
                &&& post.state == States::DocTypeName
                &&& Self::advanced1(pre, post)
                &&& Self::buffer_pushed(pre.spec_builder(), post.spec_builder(), seq![0xFFu8, 0xFDu8])
                &&& post.queue() == pre.queue()
                &&& r == ok_none()
            } else {
                &&& post.state == States::DocTypeName
                &&& Self::advanced1(pre, post)
                &&& Self::buffer_pushed(pre.spec_builder(), post.spec_builder(), seq![b])
                &&& post.queue() == pre.queue()
                &&& r == ok_none()
            }
        })
    }

    /// One dispatch of the byte under the cursor, by the current state.
    /// States outside the implemented subset consume the byte and stop the
    /// parse with `UnsupportedConstruct`.
    pub open spec fn tok_step(pre: Self, post: Self, r: TokResult) -> bool {
        match pre.state {
            States::Data => Self::step_data(pre, post, r),
            States::TagOpen => Self::step_tag_open(pre, post, r),
            States::EndTagOpen => Self::step_end_tag_open(pre, post, r),
            States::TagName => Self::step_tag_name(pre, post, r),
            States::SelfClosingStartTag => Self::step_self_closing_start_tag(pre, post, r),
            States::BeforeAttributeName => Self::step_before_attribute_name(pre, post, r),
            States::AttributeName => Self::step_attribute_name(pre, post, r),
            States::AfterAttributeName => Self::step_after_attribute_name(pre, post, r),
            States::BeforeAttributeValue => Self::step_before_attribute_value(pre, post, r),
            States::AttributeValueDoubleQuoted => Self::step_attribute_value_quoted(
                pre,
                post,
                r,
                QUOTE,
                States::AttributeValueDoubleQuoted,
            ),
            States::AttributeValueSingleQuoted => Self::step_attribute_value_quoted(
                pre,
                post,
                r,
                APOSTROPHE,
                States::AttributeValueSingleQuoted,
            ),
            States::AttributeValueUnquoted => Self::step_attribute_value_unquoted(pre, post, r),
            States::AfterAttributeValueQuoted => Self::step_after_attribute_value_quoted(
                pre,
                post,
                r,
            ),
            States::RCData => Self::step_text(pre, post, r, States::RCData),
            States::RawText => Self::step_text(pre, post, r, States::RawText),
            States::ScriptData => Self::step_text(pre, post, r, States::ScriptData),
            States::PlainText => Self::step_text(pre, post, r, States::PlainText),
            States::RCDataLessThanSign => Self::step_rcdata_less_than_sign(pre, post, r),
            States::RCDataEndTagOpen => Self::step_rcdata_end_tag_open(pre, post, r),
            States::RCDataEndTagName => Self::step_rcdata_end_tag_name(pre, post, r),
            States::RawTextLessThanSign => Self::step_rawtext_less_than_sign(pre, post, r),
            States::RawTextEndTagOpen => Self::step_rawtext_end_tag_open(pre, post, r),
            States::RawTextEndTagName => Self::step_rawtext_end_tag_name(pre, post, r),
            States::CharacterReference => Self::step_character_reference(pre, post, r),
            States::MarkupDeclarationOpen => Self::step_markup_declaration_open(pre, post, r),
            States::BogusComment => Self::step_bogus_comment(pre, post, r),
            States::CommentStart => Self::step_comment_start(pre, post, r),
            States::CommentStartDash => Self::step_comment_start_dash(pre, post, r),
            States::Comment => Self::step_comment(pre, post, r),
            States::CommentEndDash => Self::step_comment_end_dash(pre, post, r),
            States::CommentEnd => Self::step_comment_end(pre, post, r),
            States::CommentEndBang => Self::step_comment_end_bang(pre, post, r),
            States::DocType => Self::step_doctype(pre, post, r),
            States::BeforeDocTypeName => Self::step_before_doctype_name(pre, post, r),
            States::DocTypeName => Self::step_doctype_name(pre, post, r),
            _ => {
                &&& Self::is_advance_of(pre, post)
                &&& r == unsupported()
            },
        }
    }

    /// What one call for the next token does: hand out the head of the
    /// queue if one waits, report end of file at the end of input, and
    /// otherwise dispatch the byte under the cursor.
    pub open spec fn tok_next(pre: Self, post: Self, r: TokResult) -> bool {
        if pre.queue().len() > 0 {
            &&& post.queue() == pre.queue().drop_first()
            &&& post.state == pre.state
            &&& post.spec_return_state() == pre.spec_return_state()
            &&& post.spec_builder() == pre.spec_builder()
            &&& Self::stayed(pre, post)
            &&& r == ok_tok(pre.queue()[0])
        } else if pre.pos() == pre.bytes().len() {
            &&& post == pre
            &&& r == ok_tok(Token::EndOfFile)
        } else {
            Self::tok_step(pre, post, r)
        }
    }

    /// The two machines read the same: every observable view — input,
    /// position, states, queue and builder — is equal.
    pub open spec fn equiv(a: Self, b: Self) -> bool {
        &&& a.bytes() == b.bytes()
        &&& a.pos() == b.pos()
        &&& a.state == b.state
        &&& a.return_state == b.return_state
        &&& a.queue() == b.queue()
        &&& crate::tokens::builder_equiv(a.spec_builder(), b.spec_builder())
    }

    /// The two answers read the same: the same case, with tokens that read
    /// the same.
    pub open spec fn result_equiv(a: TokResult, b: TokResult) -> bool {
        match (a, b) {
            (Ok(x), Ok(y)) => match (x, y) {
                (Some(t1), Some(t2)) => crate::tokens::token_equiv(t1, t2),
                (None, None) => true,
                _ => false,
            },
            (Err(e1), Err(e2)) => e1 == e2,
            _ => false,
        }
    }

    /// Up to how machines read, `tok_next` is deterministic: two machines
    /// that read the same answer the same and land in machines that read
    /// the same. Fresh allocations may differ, their contents never.
    pub proof fn lemma_tok_next_deterministic(
        a: Self,
        a2: Self,
        ra: TokResult,
        b: Self,
        b2: Self,
        rb: TokResult,
    )
        requires
            Self::equiv(a, b),
            Self::tok_next(a, a2, ra),
            Self::tok_next(b, b2, rb),
        ensures
            Self::equiv(a2, b2),
            Self::result_equiv(ra, rb),
    {
        if a.queue().len() > 0 {
        } else if a.pos() == a.bytes().len() {
        } else {
            let byte = a.at();
            assert(b.at() == byte);
            assert(crate::tokens::tag_equiv(a.spec_builder().tag, b.spec_builder().tag));
            assert(crate::tokens::rows_view(a.spec_builder().tag.attr_values).len()
                == a.spec_builder().tag.attr_values@.len());
            assert(crate::tokens::rows_view(b.spec_builder().tag.attr_values).len()
                == b.spec_builder().tag.attr_values@.len());
            assert(a.spec_builder().tag.attr_values@.len() == b.spec_builder().tag.attr_values@.len());
            match a.state {
                States::Data => {
                    if byte != AMPERSAND && byte != LESS_THAN {
                        crate::tokens::lemma_clear_builders_equiv(
                            a2.spec_builder(),
                            b2.spec_builder(),
                        );
                    }
                },
                States::RCData | States::RawText | States::ScriptData | States::PlainText => {
                    if Self::emits_character(a, a2, ra, a.state) {
                        crate::tokens::lemma_clear_builders_equiv(
                            a2.spec_builder(),
                            b2.spec_builder(),
                        );
                    }
                },
                States::TagOpen => {
                    if byte != EXCLAMATION && byte != SLASH && byte != QUESTION
                        && !is_ascii_letter(byte) {
                        crate::tokens::lemma_clear_builders_equiv(
                            a2.spec_builder(),
                            b2.spec_builder(),
                        );
                    }
                },
                States::EndTagOpen => {
                },
                States::TagName => {
                    if !is_lexical_whitespace(byte) && byte != SLASH && byte == GREATER_THAN {
                        crate::tokens::lemma_clear_builders_equiv(
                            a2.spec_builder(),
                            b2.spec_builder(),
                        );
                    }
                },
                States::SelfClosingStartTag => {
                    if byte == GREATER_THAN {
                        crate::tokens::lemma_clear_builders_equiv(
                            a2.spec_builder(),
                            b2.spec_builder(),
                        );
                    }
                },
                States::BeforeAttributeName => {
                },
                States::AttributeName => {
                    if is_lexical_whitespace(byte) || byte == SLASH || byte == GREATER_THAN
                        || byte == EQUALS {
                        crate::tokens::lemma_keys_committed_equiv(
                            a.spec_builder(),
                            b.spec_builder(),
                            a2.spec_builder(),
                            b2.spec_builder(),
                        );
                    }
                },
                States::AfterAttributeName => {
                    if !is_lexical_whitespace(byte) && byte != SLASH && byte != EQUALS && byte
                        == GREATER_THAN {
                        crate::tokens::lemma_clear_builders_equiv(
                            a2.spec_builder(),
                            b2.spec_builder(),
                        );
                    }
                },
                States::BeforeAttributeValue => {
                    if !is_lexical_whitespace(byte) && byte != QUOTE && byte != APOSTROPHE && byte
                        == GREATER_THAN {
                        crate::tokens::lemma_clear_builders_equiv(
                            a2.spec_builder(),
                            b2.spec_builder(),
                        );
                    }
                },
                States::AttributeValueDoubleQuoted => {
                    if byte == QUOTE {
                        crate::tokens::lemma_value_committed_equiv(
                            a.spec_builder(),
                            b.spec_builder(),
                            a2.spec_builder(),
                            b2.spec_builder(),
                        );
                    }
                },
                States::AttributeValueSingleQuoted => {
                    if byte == APOSTROPHE {
                        crate::tokens::lemma_value_committed_equiv(
                            a.spec_builder(),
                            b.spec_builder(),
                            a2.spec_builder(),
                            b2.spec_builder(),
                        );
                    }
                },
                States::AttributeValueUnquoted => {
                    if is_lexical_whitespace(byte) {
                        crate::tokens::lemma_value_committed_equiv(
                            a.spec_builder(),
                            b.spec_builder(),
                            a2.spec_builder(),
                            b2.spec_builder(),
                        );
                    } else if byte != AMPERSAND && byte == GREATER_THAN {
                        crate::tokens::lemma_clear_builders_equiv(
                            a2.spec_builder(),
                            b2.spec_builder(),
                        );
                        assert(Self::committed_values(a.spec_builder()) =~= Self::committed_values(
                            b.spec_builder(),
                        ));
                    }
                },
                States::AfterAttributeValueQuoted => {
                    if !is_lexical_whitespace(byte) && byte != SLASH && byte == GREATER_THAN {
                        crate::tokens::lemma_clear_builders_equiv(
                            a2.spec_builder(),
                            b2.spec_builder(),
                        );
                    }
                },
                States::RCDataLessThanSign | States::RawTextLessThanSign => {
                    if byte != SLASH {
                        crate::tokens::lemma_clear_builders_equiv(
                            a2.spec_builder(),
                            b2.spec_builder(),
                        );
                    }
                },
                States::RCDataEndTagOpen | States::RawTextEndTagOpen => {
                },
                States::RCDataEndTagName | States::RawTextEndTagName => {
                    if !is_ascii_letter(byte) && !is_lexical_whitespace(byte) && byte != SLASH
                        && byte == GREATER_THAN && a.spec_builder().tag.name@
                        == a.spec_builder().last_start_tag@ {
                        crate::tokens::lemma_clear_builders_equiv(
                            a2.spec_builder(),
                            b2.spec_builder(),
                        );
                    }
                },
                States::CharacterReference => {
                    if a.return_state != States::AttributeValueDoubleQuoted && a.return_state
                        != States::AttributeValueSingleQuoted && a.return_state
                        != States::AttributeValueUnquoted {
                        crate::tokens::lemma_clear_builders_equiv(
                            a2.spec_builder(),
                            b2.spec_builder(),
                        );
                    }
                },
                States::MarkupDeclarationOpen => {
                },
                States::BogusComment | States::CommentStart | States::CommentStartDash
                    | States::CommentEnd | States::CommentEndBang => {
                    if byte == GREATER_THAN {
                        crate::tokens::lemma_clear_builders_equiv(
                            a2.spec_builder(),
                            b2.spec_builder(),
                        );
                    }
                },
                States::Comment | States::CommentEndDash => {
                },
                States::DocType => {
                },
                States::BeforeDocTypeName | States::DocTypeName => {
                    if !is_lexical_whitespace(byte) && byte == GREATER_THAN {
                        crate::tokens::lemma_clear_builders_equiv(
                            a2.spec_builder(),
                            b2.spec_builder(),
                        );
                    }
                },
                _ => {
                },
            }
        }
    }

    /// A tokenizer at the start of `data`, in the data state, with a clear
    /// builder and no queued token.
    pub fn new(data: &'stream Vec<u8>) -> (r: Self)
        ensures
            r.wf(),
            r.bytes() == data@,
            r.pos() == 0,
            r.state == States::Data,
            r.spec_return_state() == States::Data,
            r.queue().len() == 0,
            r.spec_builder().is_clear(),
            r.spec_builder().last_start_tag@.len() == 0,
    {
        Self {
            stream: Stream::new(data),
            state: States::Data,
            return_state: States::Data,
            tokens: TokenList::new(),
            builder: TokenBuilder::default(),
        }
    }

    /// The next token: the head of the queue if one waits, `EndOfFile` at
    /// the end of input, and otherwise whatever dispatching the byte under
    /// the cursor produces — possibly nothing yet. Every successful call
    /// that does not report end of file shrinks the measure, so the driver
    /// loop terminates.
    pub fn get_next_token(&mut self) -> (r: TokResult)
        requires
            old(self).wf(),
        ensures
            final(self).wf(),
            final(self).bytes() == old(self).bytes(),
            Self::tok_next(*old(self), *final(self), r),
            r is Ok && r != ok_tok(Token::EndOfFile) ==> final(self).measure() < old(
                self,
            ).measure(),
    {
        if self.tokens.len() > 0 {
            let tok = self.tokens.remove(0);
            Ok(Some(tok))
        } else if self.stream.is_eof() {
            Ok(Some(Token::EndOfFile))
        } else {
            self.run_state()
        }
    }

    /// Dispatches the byte under the cursor by the current state: consumes
    /// it, transitions, and possibly yields a token. Not to be called at the
    /// end of input.
    pub fn run_state(&mut self) -> (r: TokResult)
        requires
            old(self).wf(),
            old(self).pos() < old(self).bytes().len(),
        ensures
            final(self).wf(),
            final(self).bytes() == old(self).bytes(),
            Self::tok_step(*old(self), *final(self), r),
            r is Ok ==> final(self).measure() < old(self).measure(),
    {
        let ghost pre = *self;
        let char = *self.stream.current();
        self.stream.advance();
        match self.state {
            States::Data => self.run_data(char, Ghost(pre)),
            States::TagOpen => self.run_tag_open(char, Ghost(pre)),
            States::EndTagOpen => self.run_end_tag_open(char, Ghost(pre)),
            States::TagName => self.run_tag_name(char, Ghost(pre)),
            States::SelfClosingStartTag => self.run_self_closing_start_tag(char, Ghost(pre)),
            States::BeforeAttributeName => self.run_before_attribute_name(char, Ghost(pre)),
            States::AttributeName => self.run_attribute_name(char, Ghost(pre)),
            States::AfterAttributeName => self.run_after_attribute_name(char, Ghost(pre)),
            States::BeforeAttributeValue => self.run_before_attribute_value(char, Ghost(pre)),
            States::AttributeValueDoubleQuoted => self.run_attribute_value_quoted(
                char,
                QUOTE,
                Ghost(pre),
            ),
            States::AttributeValueSingleQuoted => self.run_attribute_value_quoted(
                char,
                APOSTROPHE,
                Ghost(pre),
            ),
            States::AttributeValueUnquoted => self.run_attribute_value_unquoted(char, Ghost(pre)),
            States::AfterAttributeValueQuoted => self.run_after_attribute_value_quoted(
                char,
                Ghost(pre),
            ),
            States::RCData => self.run_rcdata(char, Ghost(pre)),
            States::RawText => self.run_rawtext(char, Ghost(pre)),
            States::ScriptData => self.run_scriptdata(char, Ghost(pre)),
            States::PlainText => self.run_plaintext(char, Ghost(pre)),
            States::RCDataLessThanSign => self.run_rcdata_less_than_sign(char, Ghost(pre)),
            States::RCDataEndTagOpen => self.run_rcdata_end_tag_open(char, Ghost(pre)),
            States::RCDataEndTagName => self.run_rcdata_end_tag_name(char, Ghost(pre)),
            States::RawTextLessThanSign => self.run_rawtext_less_than_sign(char, Ghost(pre)),
            States::RawTextEndTagOpen => self.run_rawtext_end_tag_open(char, Ghost(pre)),
            States::RawTextEndTagName => self.run_rawtext_end_tag_name(char, Ghost(pre)),
            States::CharacterReference => self.run_character_reference(char, Ghost(pre)),
            States::MarkupDeclarationOpen => self.run_markup_declaration_open(char, Ghost(pre)),
            States::BogusComment => self.run_bogus_comment(char, Ghost(pre)),
            States::CommentStart => self.run_comment_start(char, Ghost(pre)),
            States::CommentStartDash => self.run_comment_start_dash(char, Ghost(pre)),
            States::Comment => self.run_comment(char, Ghost(pre)),
            States::CommentEndDash => self.run_comment_end_dash(char, Ghost(pre)),
            States::CommentEnd => self.run_comment_end(char, Ghost(pre)),
            States::CommentEndBang => self.run_comment_end_bang(char, Ghost(pre)),
            States::DocType => self.run_doctype(char, Ghost(pre)),
            States::BeforeDocTypeName => self.run_before_doctype_name(char, Ghost(pre)),
            States::DocTypeName => self.run_doctype_name(char, Ghost(pre)),
            _ => Err(HTMLError::UnsupportedConstruct),
        }
    }

    /// The markup-declaration-open state on one byte; see
    /// `step_markup_declaration_open`.
    fn run_markup_declaration_open(&mut self, char: u8, Ghost(pre): Ghost<Tokenizer<'stream>>) -> (
        r: TokResult)
        requires
            pre.wf(),
            pre.state == States::MarkupDeclarationOpen,
            pre.pos() < pre.bytes().len(),
            char == pre.at(),
            Self::is_advance_of(pre, *old(self)),
        ensures
            final(self).wf(),
            Self::step_markup_declaration_open(pre, *final(self), r),
            r is Ok ==> final(self).measure() < pre.measure(),
    {
        if char == HYPHEN {
            let dash: [u8; 1] = [HYPHEN];
            if self.stream.expect(dash.as_slice()) {
                proof {
                    assert(self.stream.matches_at(dash@));
                    assert(pre.bytes().subrange(pre.pos() + 1, pre.pos() + 2)[0] == dash@[0]);
                    assert(pre.bytes()[pre.pos() + 1] == HYPHEN);
                }
                let two_dashes: [u8; 2] = [HYPHEN, HYPHEN];
                self.stream.consume(two_dashes.as_slice());
                self.builder.set_variant(TokenVariant::Comment)?;
                self.state = States::CommentStart;
                Ok(None)
            } else {
                proof {
                    if pre.pos() + 2 <= pre.bytes().len() && pre.bytes()[pre.pos() + 1] == HYPHEN {
                        assert(pre.bytes().subrange(pre.pos() + 1, pre.pos() + 2) =~= dash@);
                        assert(self.stream.matches_at(dash@));
                    }
                }
                Err(HTMLError::UnsupportedConstruct)
            }
        } else if char == LOWER_D || char == UPPER_D {
            let octype: [u8; 6] = [0x4F, 0x43, 0x54, 0x59, 0x50, 0x45];
            proof {
                assert(octype@ =~= Self::octype_lit());
            }
            if self.stream.expect_insensitive(octype.as_slice()) {
                let doctype_word: [u8; 7] = [0x64, 0x6F, 0x63, 0x74, 0x79, 0x70, 0x65];
                self.stream.consume(doctype_word.as_slice());
                self.state = States::DocType;
                Ok(None)
            } else {
                Err(HTMLError::UnsupportedConstruct)
            }
        } else {
            Err(HTMLError::UnsupportedConstruct)
        }
    }

    /// A bogus comment on one byte; see `step_bogus_comment`.
    fn run_bogus_comment(&mut self, char: u8, Ghost(pre): Ghost<Tokenizer<'stream>>) -> (r:
        TokResult)
        requires
            pre.wf(),
            pre.state == States::BogusComment,
            pre.pos() < pre.bytes().len(),
            char == pre.at(),
            Self::is_advance_of(pre, *old(self)),
        ensures
            final(self).wf(),
            Self::step_bogus_comment(pre, *final(self), r),
            r is Ok ==> final(self).measure() < pre.measure(),
    {
        if char == GREATER_THAN {
            self.state = States::Data;
            let tok = self.builder.build();
            Ok(Some(tok))
        } else if char == NUL {
            self.builder.push_replacement_character_to_buffer();
            Ok(None)
        } else {
            self.builder.push_to_buffer(char);
            proof {
                assert(self.builder.buffer@ =~= pre.spec_builder().buffer@ + seq![char]);
            }
            Ok(None)
        }
    }

    /// The comment-start state on one byte; see `step_comment_start`.
    fn run_comment_start(&mut self, char: u8, Ghost(pre): Ghost<Tokenizer<'stream>>) -> (r:
        TokResult)
        requires
            pre.wf(),
            pre.state == States::CommentStart,
            pre.pos() < pre.bytes().len(),
            char == pre.at(),
            Self::is_advance_of(pre, *old(self)),
        ensures
            final(self).wf(),
            Self::step_comment_start(pre, *final(self), r),
            r is Ok ==> final(self).measure() < pre.measure(),
    {
        if char == HYPHEN {
            self.state = States::CommentStartDash;
            Ok(None)
        } else if char == GREATER_THAN {
            self.state = States::Data;
            let tok = self.builder.build();
            Ok(Some(tok))
        } else {
            self.state = States::Comment;
            self.stream.reconsume();
            Ok(None)
        }
    }

    /// The comment-start-dash state on one byte; see
    /// `step_comment_start_dash`.
    fn run_comment_start_dash(&mut self, char: u8, Ghost(pre): Ghost<Tokenizer<'stream>>) -> (r:
        TokResult)
        requires
            pre.wf(),
            pre.state == States::CommentStartDash,
            pre.pos() < pre.bytes().len(),
            char == pre.at(),
            Self::is_advance_of(pre, *old(self)),
        ensures
            final(self).wf(),
            Self::step_comment_start_dash(pre, *final(self), r),
            r is Ok ==> final(self).measure() < pre.measure(),
    {
        if char == HYPHEN {
            self.state = States::CommentEnd;
            Ok(None)
        } else if char == GREATER_THAN {
            self.state = States::Data;
            let tok = self.builder.build();
            Ok(Some(tok))
        } else {
            self.builder.push_to_buffer(HYPHEN);
            self.state = States::Comment;
            self.stream.reconsume();
            proof {
                assert(self.builder.buffer@ =~= pre.spec_builder().buffer@ + seq![HYPHEN]);
            }
            Ok(None)
        }
    }

    /// The comment state on one byte; see `step_comment`.
    fn run_comment(&mut self, char: u8, Ghost(pre): Ghost<Tokenizer<'stream>>) -> (r: TokResult)
        requires
            pre.wf(),
            pre.state == States::Comment,
            pre.pos() < pre.bytes().len(),
            char == pre.at(),
            Self::is_advance_of(pre, *old(self)),
        ensures
            final(self).wf(),
            Self::step_comment(pre, *final(self), r),
            r is Ok ==> final(self).measure() < pre.measure(),
    {
        if char == HYPHEN {
            self.state = States::CommentEndDash;
            Ok(None)
        } else if char == NUL {
            self.builder.push_replacement_character_to_buffer();
            Ok(None)
        } else {
            self.builder.push_to_buffer(char);
            proof {
                assert(self.builder.buffer@ =~= pre.spec_builder().buffer@ + seq![char]);
            }
            Ok(None)
        }
    }

    /// The comment-end-dash state on one byte; see `step_comment_end_dash`.
    fn run_comment_end_dash(&mut self, char: u8, Ghost(pre): Ghost<Tokenizer<'stream>>) -> (r:
        TokResult)
        requires
            pre.wf(),
            pre.state == States::CommentEndDash,
            pre.pos() < pre.bytes().len(),
            char == pre.at(),
            Self::is_advance_of(pre, *old(self)),
        ensures
            final(self).wf(),
            Self::step_comment_end_dash(pre, *final(self), r),
            r is Ok ==> final(self).measure() < pre.measure(),
    {
        if char == HYPHEN {
            self.state = States::CommentEnd;
            Ok(None)
        } else {
            self.builder.push_to_buffer(HYPHEN);
            self.state = States::Comment;
            self.stream.reconsume();
            proof {
                assert(self.builder.buffer@ =~= pre.spec_builder().buffer@ + seq![HYPHEN]);
            }
            Ok(None)
        }
    }

    /// The comment-end state on one byte; see `step_comment_end`.
    fn run_comment_end(&mut self, char: u8, Ghost(pre): Ghost<Tokenizer<'stream>>) -> (r: TokResult)
        requires
            pre.wf(),
            pre.state == States::CommentEnd,
            pre.pos() < pre.bytes().len(),
            char == pre.at(),
            Self::is_advance_of(pre, *old(self)),
        ensures
            final(self).wf(),
            Self::step_comment_end(pre, *final(self), r),
            r is Ok ==> final(self).measure() < pre.measure(),
    {
        if char == GREATER_THAN {
            self.state = States::Data;
            let tok = self.builder.build();
            Ok(Some(tok))
        } else if char == EXCLAMATION {
            self.state = States::CommentEndBang;
            Ok(None)
        } else if char == HYPHEN {
            self.builder.push_to_buffer(HYPHEN);
            proof {
                assert(self.builder.buffer@ =~= pre.spec_builder().buffer@ + seq![HYPHEN]);
            }
            Ok(None)
        } else {
            self.builder.push_to_buffer(HYPHEN);
            self.builder.push_to_buffer(HYPHEN);
            self.state = States::Comment;
            self.stream.reconsume();
            proof {
                assert(self.builder.buffer@ =~= pre.spec_builder().buffer@ + seq![HYPHEN, HYPHEN]);
            }
            Ok(None)
        }
    }

    /// The comment-end-bang state on one byte; see `step_comment_end_bang`.
    fn run_comment_end_bang(&mut self, char: u8, Ghost(pre): Ghost<Tokenizer<'stream>>) -> (r:
        TokResult)
        requires
            pre.wf(),
            pre.state == States::CommentEndBang,
            pre.pos() < pre.bytes().len(),
            char == pre.at(),
            Self::is_advance_of(pre, *old(self)),
        ensures
            final(self).wf(),
            Self::step_comment_end_bang(pre, *final(self), r),
            r is Ok ==> final(self).measure() < pre.measure(),
    {
        if char == HYPHEN {
            self.builder.push_to_buffer(HYPHEN);
            self.builder.push_to_buffer(HYPHEN);
            self.builder.push_to_buffer(EXCLAMATION);
            self.state = States::CommentEndDash;
            proof {
                assert(self.builder.buffer@ =~= pre.spec_builder().buffer@
                    + seq![HYPHEN, HYPHEN, EXCLAMATION]);
            }
            Ok(None)
        } else if char == GREATER_THAN {
            self.state = States::Data;
            let tok = self.builder.build();
            Ok(Some(tok))
        } else {
            self.builder.push_to_buffer(HYPHEN);
            self.builder.push_to_buffer(HYPHEN);
            self.builder.push_to_buffer(EXCLAMATION);
            self.state = States::Comment;
            self.stream.reconsume();
            proof {
                assert(self.builder.buffer@ =~= pre.spec_builder().buffer@
                    + seq![HYPHEN, HYPHEN, EXCLAMATION]);
            }
            Ok(None)
        }
    }

    /// The doctype state on one byte; see `step_doctype`.
    fn run_doctype(&mut self, char: u8, Ghost(pre): Ghost<Tokenizer<'stream>>) -> (r: TokResult)
        requires
            pre.wf(),
            pre.state == States::DocType,
            pre.pos() < pre.bytes().len(),
            char == pre.at(),
            Self::is_advance_of(pre, *old(self)),
        ensures
            final(self).wf(),
            Self::step_doctype(pre, *final(self), r),
            r is Ok ==> final(self).measure() < pre.measure(),
    {
        if crate::ascii::lexical_whitespace(char) {
            self.state = States::BeforeDocTypeName;
            Ok(None)
        } else {
            self.stream.reconsume();
            self.state = States::BeforeDocTypeName;
            Ok(None)
        }
    }

    /// Before the doctype name, on one byte; see
    /// `step_before_doctype_name`.
    fn run_before_doctype_name(&mut self, char: u8, Ghost(pre): Ghost<Tokenizer<'stream>>) -> (r:
        TokResult)
        requires
            pre.wf(),
            pre.state == States::BeforeDocTypeName,
            pre.pos() < pre.bytes().len(),
            char == pre.at(),
            Self::is_advance_of(pre, *old(self)),
        ensures
            final(self).wf(),
            Self::step_before_doctype_name(pre, *final(self), r),
            r is Ok ==> final(self).measure() < pre.measure(),
    {
        if crate::ascii::lexical_whitespace(char) {
            Ok(None)
        } else if char == GREATER_THAN {
            self.builder.set_variant(TokenVariant::Doctype)?;
            self.builder.force_quirks();
            self.state = States::Data;
            let tok = self.builder.build();
            Ok(Some(tok))
        } else if char == NUL {
            self.builder.push_replacement_character_to_buffer();
            self.state = States::DocTypeName;
            Ok(None)
        } else {
            self.builder.push_to_buffer(char);
            self.state = States::DocTypeName;
            proof {
                assert(self.builder.buffer@ =~= pre.spec_builder().buffer@ + seq![char]);
            }
            Ok(None)
        }
    }

    /// The doctype name on one byte; see `step_doctype_name`.
    fn run_doctype_name(&mut self, char: u8, Ghost(pre): Ghost<Tokenizer<'stream>>) -> (r:
        TokResult)
        requires
            pre.wf(),
            pre.state == States::DocTypeName,
            pre.pos() < pre.bytes().len(),
            char == pre.at(),
            Self::is_advance_of(pre, *old(self)),
        ensures
            final(self).wf(),
            Self::step_doctype_name(pre, *final(self), r),
            r is Ok ==> final(self).measure() < pre.measure(),
    {
        if crate::ascii::lexical_whitespace(char) {
            self.state = States::AfterDocTypeName;
            Ok(None)
        } else if char == GREATER_THAN {
            self.builder.set_variant(TokenVariant::Doctype)?;
            self.builder.commit_buffer_to_doctype_name();
            self.state = States::Data;
            let tok = self.builder.build();
            Ok(Some(tok))
        } else if char == NUL {
            self.builder.push_replacement_character_to_buffer();
            Ok(None)
        } else {
            self.builder.push_to_buffer(char);
            proof {
                assert(self.builder.buffer@ =~= pre.spec_builder().buffer@ + seq![char]);
            }
            Ok(None)
        }
    }

    /// The rcdata state on one byte; see `step_text`.
    fn run_rcdata(&mut self, char: u8, Ghost(pre): Ghost<Tokenizer<'stream>>) -> (r: TokResult)
        requires
            pre.wf(),
            pre.state == States::RCData,
            pre.pos() < pre.bytes().len(),
            char == pre.at(),
            Self::is_advance_of(pre, *old(self)),
        ensures
            final(self).wf(),
            Self::step_text(pre, *final(self), r, States::RCData),
            r is Ok ==> final(self).measure() < pre.measure(),
    {
        if char == AMPERSAND {
            self.return_state = States::RCData;
            self.state = States::CharacterReference;
            Ok(None)
        } else if char == LESS_THAN {
            self.state = States::RCDataLessThanSign;
            Ok(None)
        } else if char == NUL {
            self.builder.set_variant(TokenVariant::Character)?;
            self.builder.push_to_buffer(0xFF);
            let tok = self.builder.build();
            self.tokens.push(Token::Character(0xFD));
            Ok(Some(tok))
        } else {
            self.builder.set_variant(TokenVariant::Character)?;
            self.builder.push_to_buffer(char);
            let tok = self.builder.build();
            Ok(Some(tok))
        }
    }

    /// The rawtext state on one byte; see `step_text`.
    fn run_rawtext(&mut self, char: u8, Ghost(pre): Ghost<Tokenizer<'stream>>) -> (r: TokResult)
        requires
            pre.wf(),
            pre.state == States::RawText,
            pre.pos() < pre.bytes().len(),
            char == pre.at(),
            Self::is_advance_of(pre, *old(self)),
        ensures
            final(self).wf(),
            Self::step_text(pre, *final(self), r, States::RawText),
            r is Ok ==> final(self).measure() < pre.measure(),
    {
        if char == LESS_THAN {
            self.state = States::RawTextLessThanSign;
            Ok(None)
        } else if char == NUL {
            self.builder.set_variant(TokenVariant::Character)?;
            self.builder.push_to_buffer(0xFF);
            let tok = self.builder.build();
            self.tokens.push(Token::Character(0xFD));
            Ok(Some(tok))
        } else {
            self.builder.set_variant(TokenVariant::Character)?;
            self.builder.push_to_buffer(char);
            let tok = self.builder.build();
            Ok(Some(tok))
        }
    }

    /// The script-data state on one byte; see `step_text`.
    fn run_scriptdata(&mut self, char: u8, Ghost(pre): Ghost<Tokenizer<'stream>>) -> (r: TokResult)
        requires
            pre.wf(),
            pre.state == States::ScriptData,
            pre.pos() < pre.bytes().len(),
            char == pre.at(),
            Self::is_advance_of(pre, *old(self)),
        ensures
            final(self).wf(),
            Self::step_text(pre, *final(self), r, States::ScriptData),
            r is Ok ==> final(self).measure() < pre.measure(),
    {
        if char == LESS_THAN {
            self.state = States::ScriptDataLessThanSign;
            Ok(None)
        } else if char == NUL {
            self.builder.set_variant(TokenVariant::Character)?;
            self.builder.push_to_buffer(0xFF);
            let tok = self.builder.build();
            self.tokens.push(Token::Character(0xFD));
            Ok(Some(tok))
        } else {
            self.builder.set_variant(TokenVariant::Character)?;
            self.builder.push_to_buffer(char);
            let tok = self.builder.build();
            Ok(Some(tok))
        }
    }

    /// The plaintext state on one byte; see `step_text`.
    fn run_plaintext(&mut self, char: u8, Ghost(pre): Ghost<Tokenizer<'stream>>) -> (r: TokResult)
        requires
            pre.wf(),
            pre.state == States::PlainText,
            pre.pos() < pre.bytes().len(),
            char == pre.at(),
            Self::is_advance_of(pre, *old(self)),
        ensures
            final(self).wf(),
            Self::step_text(pre, *final(self), r, States::PlainText),
            r is Ok ==> final(self).measure() < pre.measure(),
    {
        if char == NUL {
            self.builder.set_variant(TokenVariant::Character)?;
            self.builder.push_to_buffer(0xFF);
            let tok = self.builder.build();
            self.tokens.push(Token::Character(0xFD));
            Ok(Some(tok))
        } else {
            self.builder.set_variant(TokenVariant::Character)?;
            self.builder.push_to_buffer(char);
            let tok = self.builder.build();
            Ok(Some(tok))
        }
    }

    /// After `<` inside rcdata, on one byte; see
    /// `step_rcdata_less_than_sign`.
    fn run_rcdata_less_than_sign(&mut self, char: u8, Ghost(pre): Ghost<Tokenizer<'stream>>) -> (r:
        TokResult)
        requires
            pre.wf(),
            pre.state == States::RCDataLessThanSign,
            pre.pos() < pre.bytes().len(),
            char == pre.at(),
            Self::is_advance_of(pre, *old(self)),
        ensures
            final(self).wf(),
            Self::step_rcdata_less_than_sign(pre, *final(self), r),
            r is Ok ==> final(self).measure() < pre.measure(),
    {
        if char == SLASH {
            self.state = States::RCDataEndTagOpen;
            Ok(None)
        } else {
            self.builder.set_variant(TokenVariant::Character)?;
            self.builder.push_to_buffer(LESS_THAN);
            self.state = States::RCData;
            self.stream.reconsume();
            let tok = self.builder.build();
            Ok(Some(tok))
        }
    }

    /// After `</` inside rcdata, on one byte; see
    /// `step_rcdata_end_tag_open`.
    fn run_rcdata_end_tag_open(&mut self, char: u8, Ghost(pre): Ghost<Tokenizer<'stream>>) -> (r:
        TokResult)
        requires
            pre.wf(),
            pre.state == States::RCDataEndTagOpen,
            pre.pos() < pre.bytes().len(),
            char == pre.at(),
            Self::is_advance_of(pre, *old(self)),
        ensures
            final(self).wf(),
            Self::step_rcdata_end_tag_open(pre, *final(self), r),
            r is Ok ==> final(self).measure() < pre.measure(),
    {
        if crate::ascii::letter(char) {
            self.builder.set_variant(TokenVariant::EndTag)?;
            self.state = States::RCDataEndTagName;
            self.stream.reconsume();
            Ok(None)
        } else {
            Err(HTMLError::UnsupportedConstruct)
        }
    }

    /// An end tag name inside rcdata, on one byte; see
    /// `step_rcdata_end_tag_name`.
    fn run_rcdata_end_tag_name(&mut self, char: u8, Ghost(pre): Ghost<Tokenizer<'stream>>) -> (r:
        TokResult)
        requires
            pre.wf(),
            pre.state == States::RCDataEndTagName,
            pre.pos() < pre.bytes().len(),
            char == pre.at(),
            Self::is_advance_of(pre, *old(self)),
        ensures
            final(self).wf(),
            Self::step_rcdata_end_tag_name(pre, *final(self), r),
            r is Ok ==> final(self).measure() < pre.measure(),
    {
        if crate::ascii::letter(char) {
            self.builder.tag.name.push(char);
            proof {
                assert(self.builder.tag.name@ =~= pre.spec_builder().tag.name@ + seq![char]);
            }
            Ok(None)
        } else if crate::ascii::lexical_whitespace(char) {
            if self.builder.check_tag_validitiy() {
                self.state = States::BeforeAttributeName;
                Ok(None)
            } else {
                Err(HTMLError::UnsupportedConstruct)
            }
        } else if char == SLASH {
            if self.builder.check_tag_validitiy() {
                self.state = States::SelfClosingStartTag;
                Ok(None)
            } else {
                Err(HTMLError::UnsupportedConstruct)
            }
        } else if char == GREATER_THAN {
            if self.builder.check_tag_validitiy() {
                self.state = States::Data;
                let tok = self.builder.build();
                Ok(Some(tok))
            } else {
                Err(HTMLError::UnsupportedConstruct)
            }
        } else {
            Err(HTMLError::UnsupportedConstruct)
        }
    }

    /// After `<` inside rawtext, on one byte; see
    /// `step_rawtext_less_than_sign`.
    fn run_rawtext_less_than_sign(&mut self, char: u8, Ghost(pre): Ghost<Tokenizer<'stream>>) -> (r:
        TokResult)
        requires
            pre.wf(),
            pre.state == States::RawTextLessThanSign,
            pre.pos() < pre.bytes().len(),
            char == pre.at(),
            Self::is_advance_of(pre, *old(self)),
        ensures
            final(self).wf(),
            Self::step_rawtext_less_than_sign(pre, *final(self), r),
            r is Ok ==> final(self).measure() < pre.measure(),
    {
        if char == SLASH {
            self.state = States::RawTextEndTagOpen;
            Ok(None)
        } else {
            self.builder.set_variant(TokenVariant::Character)?;
            self.builder.push_to_buffer(LESS_THAN);
            self.state = States::RawText;
            self.stream.reconsume();
            let tok = self.builder.build();
            Ok(Some(tok))
        }
    }

    /// After `</` inside rawtext, on one byte; see
    /// `step_rawtext_end_tag_open`.
    fn run_rawtext_end_tag_open(&mut self, char: u8, Ghost(pre): Ghost<Tokenizer<'stream>>) -> (r:
        TokResult)
        requires
            pre.wf(),
            pre.state == States::RawTextEndTagOpen,
            pre.pos() < pre.bytes().len(),
            char == pre.at(),
            Self::is_advance_of(pre, *old(self)),
        ensures
            final(self).wf(),
            Self::step_rawtext_end_tag_open(pre, *final(self), r),
            r is Ok ==> final(self).measure() < pre.measure(),
    {
        if crate::ascii::letter(char) {
            self.builder.set_variant(TokenVariant::EndTag)?;
            self.state = States::RawTextEndTagName;
            self.stream.reconsume();
            Ok(None)
        } else {
            Err(HTMLError::UnsupportedConstruct)
        }
    }

    /// An end tag name inside rawtext, on one byte; see
    /// `step_rawtext_end_tag_name`.
    fn run_rawtext_end_tag_name(&mut self, char: u8, Ghost(pre): Ghost<Tokenizer<'stream>>) -> (r:
        TokResult)
        requires
            pre.wf(),
            pre.state == States::RawTextEndTagName,
            pre.pos() < pre.bytes().len(),
            char == pre.at(),
            Self::is_advance_of(pre, *old(self)),
        ensures
            final(self).wf(),
            Self::step_rawtext_end_tag_name(pre, *final(self), r),
            r is Ok ==> final(self).measure() < pre.measure(),
    {
        if crate::ascii::letter(char) {
            self.builder.tag.name.push(char);
            proof {
                assert(self.builder.tag.name@ =~= pre.spec_builder().tag.name@ + seq![char]);
            }
            Ok(None)
        } else if crate::ascii::lexical_whitespace(char) {
            if self.builder.check_tag_validitiy() {
                self.state = States::BeforeAttributeName;
                Ok(None)
            } else {
                Err(HTMLError::UnsupportedConstruct)
            }
        } else if char == SLASH {
            if self.builder.check_tag_validitiy() {
                self.state = States::SelfClosingStartTag;
                Ok(None)
            } else {
                Err(HTMLError::UnsupportedConstruct)
            }
        } else if char == GREATER_THAN {
            if self.builder.check_tag_validitiy() {
                self.state = States::Data;
                let tok = self.builder.build();
                Ok(Some(tok))
            } else {
                Err(HTMLError::UnsupportedConstruct)
            }
        } else {
            Err(HTMLError::UnsupportedConstruct)
        }
    }

    /// The character-reference detour on one byte; see
    /// `step_character_reference`.
    fn run_character_reference(&mut self, char: u8, Ghost(pre): Ghost<Tokenizer<'stream>>) -> (r:
        TokResult)
        requires
            pre.wf(),
            pre.state == States::CharacterReference,
            pre.pos() < pre.bytes().len(),
            char == pre.at(),
            Self::is_advance_of(pre, *old(self)),
        ensures
            final(self).wf(),
            Self::step_character_reference(pre, *final(self), r),
            r is Ok ==> final(self).measure() < pre.measure(),
    {
        match self.return_state {
            States::AttributeValueDoubleQuoted | States::AttributeValueSingleQuoted
                | States::AttributeValueUnquoted => {
                self.builder.push_to_buffer(AMPERSAND);
                self.state = self.return_state;
                self.stream.reconsume();
                proof {
                    assert(self.builder.buffer@ =~= pre.spec_builder().buffer@ + seq![AMPERSAND]);
                }
                Ok(None)
            },
            _ => {
                self.builder.set_variant(TokenVariant::Character)?;
                self.builder.push_to_buffer(AMPERSAND);
                self.state = self.return_state;
                self.stream.reconsume();
                let tok = self.builder.build();
                Ok(Some(tok))
            },
        }
    }

    /// The tag-open state on one byte; see `step_tag_open`.
    fn run_tag_open(&mut self, char: u8, Ghost(pre): Ghost<Tokenizer<'stream>>) -> (r: TokResult)
        requires
            pre.wf(),
            pre.state == States::TagOpen,
            pre.pos() < pre.bytes().len(),
            char == pre.at(),
            Self::is_advance_of(pre, *old(self)),
        ensures
            final(self).wf(),
            Self::step_tag_open(pre, *final(self), r),
            r is Ok ==> final(self).measure() < pre.measure(),
    {
        if char == EXCLAMATION {
            self.state = States::MarkupDeclarationOpen;
            Ok(None)
        } else if char == SLASH {
            self.state = States::EndTagOpen;
            Ok(None)
        } else if char == QUESTION {
            self.state = States::BogusComment;
            self.builder.set_variant(TokenVariant::Comment)?;
            self.stream.reconsume();
            Ok(None)
        } else if crate::ascii::letter(char) {
            self.state = States::TagName;
            self.builder.set_variant(TokenVariant::StartTag)?;
            self.stream.reconsume();
            Ok(None)
        } else {
            self.state = States::Data;
            self.builder.set_variant(TokenVariant::Character)?;
            self.builder.push_to_buffer(LESS_THAN);
            let tok = self.builder.build();
            self.stream.reconsume();
            Ok(Some(tok))
        }
    }

    /// The end-tag-open state on one byte; see `step_end_tag_open`.
    fn run_end_tag_open(&mut self, char: u8, Ghost(pre): Ghost<Tokenizer<'stream>>) -> (r:
        TokResult)
        requires
            pre.wf(),
            pre.state == States::EndTagOpen,
            pre.pos() < pre.bytes().len(),
            char == pre.at(),
            Self::is_advance_of(pre, *old(self)),
        ensures
            final(self).wf(),
            Self::step_end_tag_open(pre, *final(self), r),
            r is Ok ==> final(self).measure() < pre.measure(),
    {
        if crate::ascii::letter(char) {
            self.state = States::TagName;
            self.builder.set_variant(TokenVariant::EndTag)?;
            self.stream.reconsume();
            Ok(None)
        } else if char == GREATER_THAN {
            self.state = States::Data;
            Ok(None)
        } else {
            self.state = States::BogusComment;
            self.builder.set_variant(TokenVariant::Comment)?;
            self.stream.reconsume();
            Ok(None)
        }
    }

    /// The tag-name state on one byte; see `step_tag_name`.
    fn run_tag_name(&mut self, char: u8, Ghost(pre): Ghost<Tokenizer<'stream>>) -> (r: TokResult)
        requires
            pre.wf(),
            pre.state == States::TagName,
            pre.pos() < pre.bytes().len(),
            char == pre.at(),
            Self::is_advance_of(pre, *old(self)),
        ensures
            final(self).wf(),
            Self::step_tag_name(pre, *final(self), r),
            r is Ok ==> final(self).measure() < pre.measure(),
    {
        if crate::ascii::lexical_whitespace(char) {
            self.state = States::BeforeAttributeName;
            Ok(None)
        } else if char == SLASH {
            self.state = States::SelfClosingStartTag;
            Ok(None)
        } else if char == GREATER_THAN {
            self.state = States::Data;
            let tok = self.builder.build();
            Ok(Some(tok))
        } else if char == NUL {
            self.builder.tag.name.push(0xFF);
            self.builder.tag.name.push(0xFD);
            proof {
                assert(final(self).spec_builder().tag.name@ =~= pre.spec_builder().tag.name@
                    + seq![0xFFu8, 0xFDu8]);
            }
            Ok(None)
        } else {
            self.builder.tag.name.push(char);
            proof {
                assert(final(self).spec_builder().tag.name@ =~= pre.spec_builder().tag.name@
                    + seq![char]);
            }
            Ok(None)
        }
    }

    /// The self-closing-start-tag state on one byte; see
    /// `step_self_closing_start_tag`.
    fn run_self_closing_start_tag(&mut self, char: u8, Ghost(pre): Ghost<Tokenizer<'stream>>) -> (r:
        TokResult)
        requires
            pre.wf(),
            pre.state == States::SelfClosingStartTag,
            pre.pos() < pre.bytes().len(),
            char == pre.at(),
            Self::is_advance_of(pre, *old(self)),
        ensures
            final(self).wf(),
            Self::step_self_closing_start_tag(pre, *final(self), r),
            r is Ok ==> final(self).measure() < pre.measure(),
    {
        if char == GREATER_THAN {
            self.builder.tag.self_closing = true;
            self.state = States::Data;
            let tok = self.builder.build();
            Ok(Some(tok))
        } else {
            self.state = States::BeforeAttributeName;
            self.stream.reconsume();
            Ok(None)
        }
    }

    /// The before-attribute-name state on one byte; see
    /// `step_before_attribute_name`.
    fn run_before_attribute_name(&mut self, char: u8, Ghost(pre): Ghost<Tokenizer<'stream>>) -> (r:
        TokResult)
        requires
            pre.wf(),
            pre.state == States::BeforeAttributeName,
            pre.pos() < pre.bytes().len(),
            char == pre.at(),
            Self::is_advance_of(pre, *old(self)),
        ensures
            final(self).wf(),
            Self::step_before_attribute_name(pre, *final(self), r),
            r is Ok ==> final(self).measure() < pre.measure(),
    {
        if crate::ascii::lexical_whitespace(char) {
            Ok(None)
        } else if char == SLASH || char == GREATER_THAN {
            self.state = States::AfterAttributeName;
            self.stream.reconsume();
            Ok(None)
        } else if char == EQUALS {
            self.builder.push_to_buffer(char);
            self.state = States::AttributeName;
            proof {
                assert(self.builder.buffer@ =~= pre.spec_builder().buffer@ + seq![char]);
            }
            Ok(None)
        } else {
            self.state = States::AttributeName;
            self.stream.reconsume();
            Ok(None)
        }
    }

    /// The attribute-name state on one byte; see `step_attribute_name`.
    fn run_attribute_name(&mut self, char: u8, Ghost(pre): Ghost<Tokenizer<'stream>>) -> (r:
        TokResult)
        requires
            pre.wf(),
            pre.state == States::AttributeName,
            pre.pos() < pre.bytes().len(),
            char == pre.at(),
            Self::is_advance_of(pre, *old(self)),
        ensures
            final(self).wf(),
            Self::step_attribute_name(pre, *final(self), r),
            r is Ok ==> final(self).measure() < pre.measure(),
    {
        if crate::ascii::lexical_whitespace(char) || char == SLASH || char == GREATER_THAN {
            self.builder.commit_buffer_to_attr_keys();
            self.state = States::AfterAttributeName;
            self.stream.reconsume();
            Ok(None)
        } else if char == EQUALS {
            self.builder.commit_buffer_to_attr_keys();
            self.state = States::BeforeAttributeValue;
            proof {
                if !self.builder.drop_attr_value {
                    assert(crate::tokens::rows_view(self.builder.tag.attr_values).len()
                        == crate::tokens::rows_view(pre.spec_builder().tag.attr_values).len() + 1);
                    assert(self.builder.tag.attr_values@.len() > 0);
                }
            }
            Ok(None)
        } else if char == NUL {
            self.builder.push_replacement_character_to_buffer();
            Ok(None)
        } else {
            self.builder.push_to_buffer(char);
            proof {
                assert(self.builder.buffer@ =~= pre.spec_builder().buffer@ + seq![char]);
            }
            Ok(None)
        }
    }

    /// The after-attribute-name state on one byte; see
    /// `step_after_attribute_name`.
    fn run_after_attribute_name(&mut self, char: u8, Ghost(pre): Ghost<Tokenizer<'stream>>) -> (r:
        TokResult)
        requires
            pre.wf(),
            pre.state == States::AfterAttributeName,
            pre.pos() < pre.bytes().len(),
            char == pre.at(),
            Self::is_advance_of(pre, *old(self)),
        ensures
            final(self).wf(),
            Self::step_after_attribute_name(pre, *final(self), r),
            r is Ok ==> final(self).measure() < pre.measure(),
    {
        if crate::ascii::lexical_whitespace(char) {
            Ok(None)
        } else if char == SLASH {
            self.state = States::SelfClosingStartTag;
            Ok(None)
        } else if char == EQUALS {
            if self.builder.drop_attr_value || self.builder.tag.attr_values.len() > 0 {
                self.state = States::BeforeAttributeValue;
                Ok(None)
            } else {
                Err(HTMLError::UnsupportedConstruct)
            }
        } else if char == GREATER_THAN {
            self.state = States::Data;
            let tok = self.builder.build();
            Ok(Some(tok))
        } else {
            self.state = States::AttributeName;
            self.stream.reconsume();
            Ok(None)
        }
    }

    /// The before-attribute-value state on one byte; see
    /// `step_before_attribute_value`.
    fn run_before_attribute_value(&mut self, char: u8, Ghost(pre): Ghost<Tokenizer<'stream>>) -> (r:
        TokResult)
        requires
            pre.wf(),
            pre.state == States::BeforeAttributeValue,
            pre.pos() < pre.bytes().len(),
            char == pre.at(),
            Self::is_advance_of(pre, *old(self)),
        ensures
            final(self).wf(),
            Self::step_before_attribute_value(pre, *final(self), r),
            r is Ok ==> final(self).measure() < pre.measure(),
    {
        if crate::ascii::lexical_whitespace(char) {
            Ok(None)
        } else if char == QUOTE {
            self.state = States::AttributeValueDoubleQuoted;
            Ok(None)
        } else if char == APOSTROPHE {
            self.state = States::AttributeValueSingleQuoted;
            Ok(None)
        } else if char == GREATER_THAN {
            self.state = States::Data;
            let tok = self.builder.build();
            Ok(Some(tok))
        } else {
            self.state = States::AttributeValueUnquoted;
            self.stream.reconsume();
            Ok(None)
        }
    }

    /// A quoted attribute value on one byte; see
    /// `step_attribute_value_quoted`.
    fn run_attribute_value_quoted(
        &mut self,
        char: u8,
        quote: u8,
        Ghost(pre): Ghost<Tokenizer<'stream>>,
    ) -> (r: TokResult)
        requires
            pre.wf(),
            quote == QUOTE ==> pre.state == States::AttributeValueDoubleQuoted,
            quote == APOSTROPHE ==> pre.state == States::AttributeValueSingleQuoted,
            quote == QUOTE || quote == APOSTROPHE,
            pre.pos() < pre.bytes().len(),
            char == pre.at(),
            Self::is_advance_of(pre, *old(self)),
        ensures
            final(self).wf(),
            Self::step_attribute_value_quoted(pre, *final(self), r, quote, pre.state),
            r is Ok ==> final(self).measure() < pre.measure(),
    {
        if char == quote {
            self.state = States::AfterAttributeValueQuoted;
            self.builder.commit_buffer_to_attr_value();
            Ok(None)
        } else if char == AMPERSAND {
            self.return_state = if quote == QUOTE {
                States::AttributeValueDoubleQuoted
            } else {
                States::AttributeValueSingleQuoted
            };
            self.state = States::CharacterReference;
            Ok(None)
        } else if char == NUL {
            self.builder.push_replacement_character_to_buffer();
            Ok(None)
        } else {
            self.builder.push_to_buffer(char);
            proof {
                assert(self.builder.buffer@ =~= pre.spec_builder().buffer@ + seq![char]);
            }
            Ok(None)
        }
    }

    /// The unquoted attribute value on one byte; see
    /// `step_attribute_value_unquoted`.
    fn run_attribute_value_unquoted(&mut self, char: u8, Ghost(pre): Ghost<Tokenizer<'stream>>) -> (
        r: TokResult)
        requires
            pre.wf(),
            pre.state == States::AttributeValueUnquoted,
            pre.pos() < pre.bytes().len(),
            char == pre.at(),
            Self::is_advance_of(pre, *old(self)),
        ensures
            final(self).wf(),
            Self::step_attribute_value_unquoted(pre, *final(self), r),
            r is Ok ==> final(self).measure() < pre.measure(),
    {
        if crate::ascii::lexical_whitespace(char) {
            self.state = States::BeforeAttributeName;
            self.builder.commit_buffer_to_attr_value();
            Ok(None)
        } else if char == AMPERSAND {
            self.return_state = States::AttributeValueUnquoted;
            self.state = States::CharacterReference;
            Ok(None)
        } else if char == GREATER_THAN {
            self.state = States::Data;
            self.builder.commit_buffer_to_attr_value();
            proof {
                assert(Self::value_committed(pre.spec_builder(), self.builder));
            }
            let tok = self.builder.build();
            Ok(Some(tok))
        } else if char == NUL {
            self.builder.push_replacement_character_to_buffer();
            Ok(None)
        } else {
            self.builder.push_to_buffer(char);
            proof {
                assert(self.builder.buffer@ =~= pre.spec_builder().buffer@ + seq![char]);
            }
            Ok(None)
        }
    }

    /// After a quoted attribute value, on one byte; see
    /// `step_after_attribute_value_quoted`.
    fn run_after_attribute_value_quoted(
        &mut self,
        char: u8,
        Ghost(pre): Ghost<Tokenizer<'stream>>,
    ) -> (r: TokResult)
        requires
            pre.wf(),
            pre.state == States::AfterAttributeValueQuoted,
            pre.pos() < pre.bytes().len(),
            char == pre.at(),
            Self::is_advance_of(pre, *old(self)),
        ensures
            final(self).wf(),
            Self::step_after_attribute_value_quoted(pre, *final(self), r),
            r is Ok ==> final(self).measure() < pre.measure(),
    {
        if crate::ascii::lexical_whitespace(char) {
            self.state = States::BeforeAttributeName;
            Ok(None)
        } else if char == SLASH {
            self.state = States::SelfClosingStartTag;
            Ok(None)
        } else if char == GREATER_THAN {
            self.state = States::Data;
            let tok = self.builder.build();
            Ok(Some(tok))
        } else {
            self.state = States::BeforeAttributeName;
            self.stream.reconsume();
            Ok(None)
        }
    }

    /// A run of ASCII letters under the tag-name state extends the pending
    /// tag's name by exactly those letters, consuming them one per step and
    /// yielding no token.
    proof fn lemma_tag_name_letters(
        chain: Seq<Tokenizer<'stream>>,
        rs: Seq<TokResult>,
        s: int,
        word: Seq<u8>,
    )
        requires
            chain.len() == rs.len() + 1,
            0 <= s,
            s + word.len() < chain.len(),
            forall|i: int|
                0 <= i < rs.len() ==> #[trigger] Tokenizer::tok_next(chain[i], chain[i + 1], rs[i]),
            forall|j: int| 0 <= j < word.len() ==> is_ascii_letter(#[trigger] word[j]),
            chain[s].state == States::TagName,
            chain[s].queue().len() == 0,
            chain[s].pos() >= 0,
            chain[s].pos() + word.len() <= chain[s].bytes().len(),
            chain[s].bytes().subrange(chain[s].pos(), chain[s].pos() + word.len()) == word,
        ensures
            chain[s + word.len()].state == States::TagName,
            chain[s + word.len()].bytes() == chain[s].bytes(),
            chain[s + word.len()].pos() == chain[s].pos() + word.len(),
            chain[s + word.len()].queue().len() == 0,
            Self::tag_name_pushed(
                chain[s].spec_builder(),
                chain[s + word.len()].spec_builder(),
                word,
            ),
            forall|i: int| s <= i < s + word.len() ==> rs[i] == ok_none(),
        decreases word.len(),
    {
        if word.len() == 0 {
            assert(chain[s].spec_builder().tag.name@ + word
                =~= chain[s].spec_builder().tag.name@);
        } else {
            let b = word[0];
            assert(Tokenizer::tok_next(chain[s], chain[s + 1], rs[s]));
            assert(chain[s].at() == chain[s].bytes().subrange(
                chain[s].pos(),
                chain[s].pos() + word.len(),
            )[0]);
            assert(chain[s].at() == b);
            assert(!is_lexical_whitespace(b) && b != SLASH && b != GREATER_THAN && b != NUL);
            assert(Self::step_tag_name(chain[s], chain[s + 1], rs[s]));
            assert(Self::tag_name_pushed(
                chain[s].spec_builder(),
                chain[s + 1].spec_builder(),
                seq![b],
            ));
            let rest = word.subrange(1, word.len() as int);
            assert(chain[s + 1].bytes().subrange(
                chain[s + 1].pos(),
                chain[s + 1].pos() + rest.len(),
            ) =~= rest) by {
                assert forall|j: int| 0 <= j < rest.len() implies chain[s + 1].bytes().subrange(
                    chain[s + 1].pos(),
                    chain[s + 1].pos() + rest.len(),
                )[j] == rest[j] by {
                    assert(rest[j] == word[j + 1]);
                    assert(chain[s].bytes().subrange(
                        chain[s].pos(),
                        chain[s].pos() + word.len(),
                    )[j + 1] == word[j + 1]);
                }
            }
            Self::lemma_tag_name_letters(chain, rs, s + 1, rest);
            assert(chain[s + 1 + rest.len()] == chain[s + word.len()]);
            assert(Self::tag_name_pushed(
                chain[s].spec_builder(),
                chain[s + word.len()].spec_builder(),
                word,
            )) by {
                assert(chain[s + word.len()].spec_builder().tag.name@
                    == chain[s].spec_builder().tag.name@ + seq![b] + rest);
                assert(chain[s].spec_builder().tag.name@ + seq![b] + rest
                    =~= chain[s].spec_builder().tag.name@ + word);
            }
            assert forall|i: int| s <= i < s + word.len() implies rs[i] == ok_none() by {
                if i > s {
                    assert(s + 1 <= i < s + 1 + rest.len());
                }
            }
        }
    }

    /// A run of ASCII letters under the attribute-name state extends the
    /// scratch buffer by exactly those letters, consuming them one per step
    /// and yielding no token.
    proof fn lemma_attr_name_letters(
        chain: Seq<Tokenizer<'stream>>,
        rs: Seq<TokResult>,
        s: int,
        word: Seq<u8>,
    )
        requires
            chain.len() == rs.len() + 1,
            0 <= s,
            s + word.len() < chain.len(),
            forall|i: int|
                0 <= i < rs.len() ==> #[trigger] Tokenizer::tok_next(chain[i], chain[i + 1], rs[i]),
            forall|j: int| 0 <= j < word.len() ==> is_ascii_letter(#[trigger] word[j]),
            chain[s].state == States::AttributeName,
            chain[s].queue().len() == 0,
            chain[s].pos() >= 0,
            chain[s].pos() + word.len() <= chain[s].bytes().len(),
            chain[s].bytes().subrange(chain[s].pos(), chain[s].pos() + word.len()) == word,
        ensures
            chain[s + word.len()].state == States::AttributeName,
            chain[s + word.len()].bytes() == chain[s].bytes(),
            chain[s + word.len()].pos() == chain[s].pos() + word.len(),
            chain[s + word.len()].queue().len() == 0,
            Self::buffer_pushed(
                chain[s].spec_builder(),
                chain[s + word.len()].spec_builder(),
                word,
            ),
            forall|i: int| s <= i < s + word.len() ==> rs[i] == ok_none(),
        decreases word.len(),
    {
        if word.len() == 0 {
            assert(chain[s].spec_builder().buffer@ + word =~= chain[s].spec_builder().buffer@);
        } else {
            let b = word[0];
            assert(Tokenizer::tok_next(chain[s], chain[s + 1], rs[s]));
            assert(chain[s].at() == chain[s].bytes().subrange(
                chain[s].pos(),
                chain[s].pos() + word.len(),
            )[0]);
            assert(chain[s].at() == b);
            assert(!is_lexical_whitespace(b) && b != SLASH && b != GREATER_THAN && b != EQUALS
                && b != NUL);
            assert(Self::step_attribute_name(chain[s], chain[s + 1], rs[s]));
            assert(Self::buffer_pushed(
                chain[s].spec_builder(),
                chain[s + 1].spec_builder(),
                seq![b],
            ));
            let rest = word.subrange(1, word.len() as int);
            assert(chain[s + 1].bytes().subrange(
                chain[s + 1].pos(),
                chain[s + 1].pos() + rest.len(),
            ) =~= rest) by {
                assert forall|j: int| 0 <= j < rest.len() implies chain[s + 1].bytes().subrange(
                    chain[s + 1].pos(),
                    chain[s + 1].pos() + rest.len(),
                )[j] == rest[j] by {
                    assert(rest[j] == word[j + 1]);
                    assert(chain[s].bytes().subrange(
                        chain[s].pos(),
                        chain[s].pos() + word.len(),
                    )[j + 1] == word[j + 1]);
                }
            }
            Self::lemma_attr_name_letters(chain, rs, s + 1, rest);
            assert(chain[s + 1 + rest.len()] == chain[s + word.len()]);
            assert(Self::buffer_pushed(
                chain[s].spec_builder(),
                chain[s + word.len()].spec_builder(),
                word,
            )) by {
                assert(chain[s + word.len()].spec_builder().buffer@
                    == chain[s].spec_builder().buffer@ + seq![b] + rest);
                assert(chain[s].spec_builder().buffer@ + seq![b] + rest
                    =~= chain[s].spec_builder().buffer@ + word);
            }
            assert forall|i: int| s <= i < s + word.len() implies rs[i] == ok_none() by {
                if i > s {
                    assert(s + 1 <= i < s + 1 + rest.len());
                }
            }
        }
    }

    /// A run of ordinary bytes inside a double-quoted attribute value — no
    /// quote, no ampersand, no NUL — extends the scratch buffer by exactly
    /// those bytes, consuming them one per step and yielding no token.
    proof fn lemma_attr_value_bytes(
        chain: Seq<Tokenizer<'stream>>,
        rs: Seq<TokResult>,
        s: int,
        word: Seq<u8>,
    )
        requires
            chain.len() == rs.len() + 1,
            0 <= s,
            s + word.len() < chain.len(),
            forall|i: int|
                0 <= i < rs.len() ==> #[trigger] Tokenizer::tok_next(chain[i], chain[i + 1], rs[i]),
            forall|j: int|
                0 <= j < word.len() ==> (#[trigger] word[j]) != QUOTE && word[j] != AMPERSAND
                    && word[j] != NUL,
            chain[s].state == States::AttributeValueDoubleQuoted,
            chain[s].queue().len() == 0,
            chain[s].pos() >= 0,
            chain[s].pos() + word.len() <= chain[s].bytes().len(),
            chain[s].bytes().subrange(chain[s].pos(), chain[s].pos() + word.len()) == word,
        ensures
            chain[s + word.len()].state == States::AttributeValueDoubleQuoted,
            chain[s + word.len()].bytes() == chain[s].bytes(),
            chain[s + word.len()].pos() == chain[s].pos() + word.len(),
            chain[s + word.len()].queue().len() == 0,
            Self::buffer_pushed(
                chain[s].spec_builder(),
                chain[s + word.len()].spec_builder(),
                word,
            ),
            forall|i: int| s <= i < s + word.len() ==> rs[i] == ok_none(),
        decreases word.len(),
    {
        if word.len() == 0 {
            assert(chain[s].spec_builder().buffer@ + word =~= chain[s].spec_builder().buffer@);
        } else {
            let b = word[0];
            assert(Tokenizer::tok_next(chain[s], chain[s + 1], rs[s]));
            assert(chain[s].at() == chain[s].bytes().subrange(
                chain[s].pos(),
                chain[s].pos() + word.len(),
            )[0]);
            assert(chain[s].at() == b);
            assert(Self::step_attribute_value_quoted(
                chain[s],
                chain[s + 1],
                rs[s],
                QUOTE,
                States::AttributeValueDoubleQuoted,
            ));
            assert(Self::buffer_pushed(
                chain[s].spec_builder(),
                chain[s + 1].spec_builder(),
                seq![b],
            ));
            let rest = word.subrange(1, word.len() as int);
            assert(chain[s + 1].bytes().subrange(
                chain[s + 1].pos(),
                chain[s + 1].pos() + rest.len(),
            ) =~= rest) by {
                assert forall|j: int| 0 <= j < rest.len() implies chain[s + 1].bytes().subrange(
                    chain[s + 1].pos(),
                    chain[s + 1].pos() + rest.len(),
                )[j] == rest[j] by {
                    assert(rest[j] == word[j + 1]);
                    assert(chain[s].bytes().subrange(
                        chain[s].pos(),
                        chain[s].pos() + word.len(),
                    )[j + 1] == word[j + 1]);
                }
            }
            Self::lemma_attr_value_bytes(chain, rs, s + 1, rest);
            assert(chain[s + 1 + rest.len()] == chain[s + word.len()]);
            assert(Self::buffer_pushed(
                chain[s].spec_builder(),
                chain[s + word.len()].spec_builder(),
                word,
            )) by {
                assert(chain[s + word.len()].spec_builder().buffer@
                    == chain[s].spec_builder().buffer@ + seq![b] + rest);
                assert(chain[s].spec_builder().buffer@ + seq![b] + rest
                    =~= chain[s].spec_builder().buffer@ + word);
            }
            assert forall|i: int| s <= i < s + word.len() implies rs[i] == ok_none() by {
                if i > s {
                    assert(s + 1 <= i < s + 1 + rest.len());
                }
            }
        }
    }

    /// The spelling of a well-formed start-tag fragment with one quoted
    /// attribute: `<` name ` ` key `="` value `">`.
    pub open spec fn tag_fragment(name: Seq<u8>, key: Seq<u8>, value: Seq<u8>) -> Seq<u8> {
        seq![LESS_THAN] + name + seq![SP] + key + seq![EQUALS, QUOTE] + value + seq![
            QUOTE,
            GREATER_THAN,
        ]
    }

    /// Round-trip tagging: tokenizing a well-formed fragment
    /// `<` name ` ` key `="` value `">` from the data state — the name and
    /// key nonempty ASCII letters, the value free of quotes, ampersands and
    /// NULs — emits exactly one start-tag token whose name, attribute key
    /// and attribute value reproduce the original spellings byte for byte,
    /// with no other attribute and the self-closing flag off; every step
    /// before the emission yields nothing. The tokenizer retains the raw
    /// bytes, so the reproduction is exact rather than case-folded.
    pub proof fn lemma_round_trip_tagging(
        chain: Seq<Tokenizer<'stream>>,
        rs: Seq<TokResult>,
        name: Seq<u8>,
        key: Seq<u8>,
        value: Seq<u8>,
    )
        requires
            chain.len() == rs.len() + 1,
            rs.len() == name.len() + key.len() + value.len() + 8,
            forall|i: int|
                0 <= i < rs.len() ==> #[trigger] Tokenizer::tok_next(chain[i], chain[i + 1], rs[i]),
            name.len() >= 1,
            key.len() >= 1,
            forall|j: int| 0 <= j < name.len() ==> is_ascii_letter(#[trigger] name[j]),
            forall|j: int| 0 <= j < key.len() ==> is_ascii_letter(#[trigger] key[j]),
            forall|j: int|
                0 <= j < value.len() ==> (#[trigger] value[j]) != QUOTE && value[j] != AMPERSAND
                    && value[j] != NUL,
            chain[0].state == States::Data,
            chain[0].spec_builder().is_clear(),
            chain[0].queue().len() == 0,
            chain[0].pos() == 0,
            chain[0].bytes().len() >= name.len() + key.len() + value.len() + 6,
            chain[0].bytes().subrange(0, name.len() as int + key.len() as int + value.len() as int + 6)
                == Self::tag_fragment(name, key, value),
        ensures
            ({
                let r = rs[rs.len() - 1];
                match r {
                    Ok(Some(Token::StartTag(tag))) => {
                        &&& tag.name@ == name
                        &&& crate::tokens::rows_view(tag.attr_keys) == seq![key]
                        &&& crate::tokens::rows_view(tag.attr_values) == seq![value]
                        &&& !tag.self_closing
                    },
                    _ => false,
                }
            }),
            forall|i: int| 0 <= i < rs.len() - 1 ==> rs[i] == ok_none(),
    {
        let n = name.len() as int;
        let k = key.len() as int;
        let v = value.len() as int;
        let frag = Self::tag_fragment(name, key, value);
        let bs = chain[0].bytes();
        assert(frag.len() == n + k + v + 6);
        assert forall|j: int| 0 <= j < n + k + v + 6 implies bs[j] == frag[j] by {
            assert(bs.subrange(0, n + k + v + 6)[j] == frag[j]);
        }
        // Work out where each piece of the fragment sits.
        assert(frag[0] == LESS_THAN);
        assert forall|j: int| 0 <= j < n implies frag[1 + j] == name[j] by {}
        assert(frag[1 + n] == SP);
        assert forall|j: int| 0 <= j < k implies frag[2 + n + j] == key[j] by {}
        assert(frag[2 + n + k] == EQUALS);
        assert(frag[3 + n + k] == QUOTE);
        assert forall|j: int| 0 <= j < v implies frag[4 + n + k + j] == value[j] by {}
        assert(frag[4 + n + k + v] == QUOTE);
        assert(frag[5 + n + k + v] == GREATER_THAN);
        // The `<` opens a tag.
        assert(Tokenizer::tok_next(chain[0int], chain[0int + 1], rs[0int]));
        assert(chain[0].at() == LESS_THAN);
        assert(Self::step_data(chain[0], chain[1], rs[0]));
        // The first name letter starts the tag name, redispatched under it.
        assert(Tokenizer::tok_next(chain[1int], chain[1int + 1], rs[1int]));
        assert(chain[1].at() == name[0]);
        assert(Self::step_tag_open(chain[1], chain[2], rs[1]));
        assert(chain[2].state == States::TagName && chain[2].pos() == 1 && chain[2].bytes() == bs
            && chain[2].queue().len() == 0);
        assert(chain[2].spec_builder().variant == Some(TokenVariant::StartTag));
        // The name letters accumulate.
        assert(chain[2].bytes().subrange(1, 1 + n) =~= name);
        Self::lemma_tag_name_letters(chain, rs, 2, name);
        let e1 = 2 + n;
        assert(chain[e1].spec_builder().tag.name@ =~= name);
        // The space moves before the attribute names.
        assert(Tokenizer::tok_next(chain[e1], chain[e1 + 1], rs[e1]));
        assert(chain[e1].at() == SP);
        assert(Self::step_tag_name(chain[e1], chain[e1 + 1], rs[e1]));
        let e2 = 3 + n;
        assert(chain[e2].state == States::BeforeAttributeName && chain[e2].pos() == 2 + n
            && chain[e2].bytes() == bs && chain[e2].queue().len() == 0);
        // The first key letter starts an attribute name, redispatched.
        assert(Tokenizer::tok_next(chain[e2], chain[e2 + 1], rs[e2]));
        assert(chain[e2].at() == key[0]);
        assert(Self::step_before_attribute_name(chain[e2], chain[e2 + 1], rs[e2]));
        let e3 = 4 + n;
        assert(chain[e3].state == States::AttributeName && chain[e3].pos() == 2 + n
            && chain[e3].bytes() == bs && chain[e3].queue().len() == 0);
        assert(chain[e3].spec_builder() == chain[e2].spec_builder());
        // The key letters accumulate in the scratch buffer.
        assert(chain[e3].bytes().subrange(2 + n, 2 + n + k) =~= key);
        Self::lemma_attr_name_letters(chain, rs, e3, key);
        let e4 = 4 + n + k;
        assert(chain[e4].spec_builder().buffer@ =~= key);
        assert(chain[e4].spec_builder().tag == chain[e3].spec_builder().tag);
        assert(chain[e4].spec_builder().tag.attr_keys@.len() == 0);
        assert(chain[e4].spec_builder().tag.attr_values@.len() == 0);
        // The `=` commits the key, paired with an empty value.
        assert(Tokenizer::tok_next(chain[e4], chain[e4 + 1], rs[e4]));
        assert(chain[e4].at() == EQUALS);
        assert(Self::step_attribute_name(chain[e4], chain[e4 + 1], rs[e4]));
        assert(Self::keys_committed(chain[e4].spec_builder(), chain[e4 + 1].spec_builder()));
        let e5 = 5 + n + k;
        assert(!crate::tokens::keys_contain(
            crate::tokens::rows_view(chain[e4].spec_builder().tag.attr_keys),
            chain[e4].spec_builder().buffer@,
        ));
        assert(crate::tokens::rows_view(chain[e5].spec_builder().tag.attr_keys) =~= seq![key]) by {
            assert(crate::tokens::rows_view(chain[e4].spec_builder().tag.attr_keys)
                =~= Seq::<Seq<u8>>::empty());
        }
        assert(crate::tokens::rows_view(chain[e5].spec_builder().tag.attr_values).len() == 1);
        assert(chain[e5].state == States::BeforeAttributeValue && chain[e5].pos() == 3 + n + k
            && chain[e5].bytes() == bs && chain[e5].queue().len() == 0);
        // The quote opens the value.
        assert(Tokenizer::tok_next(chain[e5], chain[e5 + 1], rs[e5]));
        assert(chain[e5].at() == QUOTE);
        assert(Self::step_before_attribute_value(chain[e5], chain[e5 + 1], rs[e5]));
        let e6 = 6 + n + k;
        assert(chain[e6].state == States::AttributeValueDoubleQuoted && chain[e6].pos() == 4 + n + k
            && chain[e6].bytes() == bs && chain[e6].queue().len() == 0);
        assert(chain[e6].spec_builder() == chain[e5].spec_builder());
        // The value bytes accumulate in the scratch buffer.
        assert(chain[e6].bytes().subrange(4 + n + k, 4 + n + k + v) =~= value);
        Self::lemma_attr_value_bytes(chain, rs, e6, value);
        let e7 = 6 + n + k + v;
        assert(chain[e7].spec_builder().buffer@ =~= value);
        assert(chain[e7].spec_builder().tag == chain[e6].spec_builder().tag);
        assert(!chain[e7].spec_builder().drop_attr_value);
        // The closing quote commits the value onto the pending attribute.
        assert(Tokenizer::tok_next(chain[e7], chain[e7 + 1], rs[e7]));
        assert(chain[e7].at() == QUOTE);
        assert(Self::step_attribute_value_quoted(
            chain[e7],
            chain[e7 + 1],
            rs[e7],
            QUOTE,
            States::AttributeValueDoubleQuoted,
        ));
        assert(Self::value_committed(chain[e7].spec_builder(), chain[e7 + 1].spec_builder()));
        let e8 = 7 + n + k + v;
        assert(crate::tokens::rows_view(chain[e8].spec_builder().tag.attr_values) =~= seq![value]);
        assert(chain[e8].spec_builder().tag.attr_keys == chain[e7].spec_builder().tag.attr_keys);
        assert(chain[e8].state == States::AfterAttributeValueQuoted && chain[e8].pos() == 5 + n + k
            + v && chain[e8].bytes() == bs && chain[e8].queue().len() == 0);
        assert(chain[e8].spec_builder().variant == Some(TokenVariant::StartTag));
        assert(chain[e8].spec_builder().tag.name@ == name);
        assert(!chain[e8].spec_builder().tag.self_closing);
        // The `>` finalizes and emits the tag.
        assert(Tokenizer::tok_next(chain[e8], chain[e8 + 1], rs[e8]));
        assert(chain[e8].at() == GREATER_THAN);
        assert(Self::step_after_attribute_value_quoted(chain[e8], chain[e8 + 1], rs[e8]));
        assert(Self::emits_pending_tag(chain[e8], chain[e8 + 1], rs[e8]));
        assert(rs[e8] == ok_tok(Token::StartTag(chain[e8].spec_builder().tag)));
        assert(e8 == rs.len() - 1);
        assert forall|i: int| 0 <= i < rs.len() - 1 implies rs[i] == ok_none() by {
            if 2 <= i < e1 {
                assert(2 <= i < 2 + n);
            } else if e3 <= i < e4 {
                assert(e3 <= i < e3 + k);
            } else if e6 <= i < e7 {
                assert(e6 <= i < e6 + v);
            }
        }
    }

    /// Round-trip tagging for a bare name: tokenizing `<` + name + `>` from
    /// the data state, for any nonempty ASCII-letter name, emits exactly one
    /// start-tag token carrying that very name, unfolded, with no attributes
    /// and the self-closing flag off; every step before it yields nothing.
    pub proof fn lemma_round_trip_tag_name(
        chain: Seq<Tokenizer<'stream>>,
        rs: Seq<TokResult>,
        name: Seq<u8>,
    )
        requires
            chain.len() == rs.len() + 1,
            rs.len() == name.len() + 3,
            forall|i: int|
                0 <= i < rs.len() ==> #[trigger] Tokenizer::tok_next(chain[i], chain[i + 1], rs[i]),
            name.len() >= 1,
            forall|j: int| 0 <= j < name.len() ==> is_ascii_letter(#[trigger] name[j]),
            chain[0].state == States::Data,
            chain[0].spec_builder().is_clear(),
            chain[0].queue().len() == 0,
            chain[0].pos() == 0,
            chain[0].bytes().len() >= name.len() as int + 2,
            chain[0].bytes().subrange(0, name.len() as int + 2) == seq![LESS_THAN] + name
                + seq![GREATER_THAN],
        ensures
            ({
                let r = rs[rs.len() - 1];
                match r {
                    Ok(Some(Token::StartTag(tag))) => {
                        &&& tag.name@ == name
                        &&& tag.attr_keys@.len() == 0
                        &&& tag.attr_values@.len() == 0
                        &&& !tag.self_closing
                    },
                    _ => false,
                }
            }),
            forall|i: int| 0 <= i < rs.len() - 1 ==> rs[i] == ok_none(),
    {
        let n = name.len() as int;
        let frag = seq![LESS_THAN] + name + seq![GREATER_THAN];
        assert(frag.len() == n + 2);
        assert forall|j: int| 0 <= j < n + 2 implies chain[0].bytes()[j] == frag[j] by {
            assert(chain[0].bytes().subrange(0, n + 2)[j] == frag[j]);
        }
        // The `<` opens a tag.
        assert(Tokenizer::tok_next(chain[0int], chain[0int + 1], rs[0int]));
        assert(frag[0] == LESS_THAN);
        assert(chain[0].bytes()[0] == frag[0]);
        assert(chain[0].at() == LESS_THAN);
        assert(Self::step_data(chain[0], chain[1], rs[0]));
        assert(chain[1].state == States::TagOpen && chain[1].pos() == 1 && chain[1].bytes()
            == chain[0].bytes() && chain[1].queue().len() == 0 && chain[1].spec_builder()
            == chain[0].spec_builder());
        // The first letter starts the tag name, redispatched under it.
        assert(Tokenizer::tok_next(chain[1int], chain[1int + 1], rs[1int]));
        assert(chain[1].at() == frag[1] && frag[1] == name[0]);
        assert(is_ascii_letter(chain[1].at()));
        assert(Self::step_tag_open(chain[1], chain[2], rs[1]));
        assert(chain[2].state == States::TagName && chain[2].pos() == 1 && chain[2].bytes()
            == chain[0].bytes() && chain[2].queue().len() == 0);
        assert(chain[2].spec_builder().variant == Some(TokenVariant::StartTag));
        assert(TokenBuilder::same_but_variant(chain[1].spec_builder(), chain[2].spec_builder()));
        // The letters accumulate into the name.
        assert(chain[2].bytes().subrange(1, 1 + n) =~= name) by {
            assert forall|j: int| 0 <= j < n implies chain[2].bytes().subrange(1, 1 + n)[j]
                == name[j] by {
                assert(chain[0].bytes()[1 + j] == frag[1 + j]);
                assert(frag[1 + j] == name[j]);
            }
        }
        Self::lemma_tag_name_letters(chain, rs, 2, name);
        let e = 2 + n;
        assert(chain[e].state == States::TagName && chain[e].pos() == 1 + n && chain[e].queue().len()
            == 0);
        assert(chain[e].spec_builder().tag.name@ =~= name);
        assert(chain[e].spec_builder().variant == Some(TokenVariant::StartTag));
        assert(chain[e].spec_builder().tag.attr_keys@.len() == 0);
        assert(chain[e].spec_builder().tag.attr_values@.len() == 0);
        assert(!chain[e].spec_builder().tag.self_closing);
        // The `>` finalizes and emits the tag.
        assert(Tokenizer::tok_next(chain[e], chain[e + 1], rs[e]));
        assert(chain[e].at() == chain[0].bytes()[1 + n]);
        assert(chain[0].bytes()[1 + n] == frag[1 + n]);
        assert(frag[1 + n] == GREATER_THAN);
        assert(chain[e].at() == GREATER_THAN);
        assert(Self::step_tag_name(chain[e], chain[e + 1], rs[e]));
        assert(Self::emits_pending_tag(chain[e], chain[e + 1], rs[e]));
        assert(rs[e] == ok_tok(Token::StartTag(chain[e].spec_builder().tag)));
        assert(e == rs.len() - 1);
        assert forall|i: int| 0 <= i < rs.len() - 1 implies rs[i] == ok_none() by {
            if i >= 2 {
                assert(2 <= i < 2 + n);
            }
        }
    }

    /// The data state on one byte; see `step_data`.
    fn run_data(&mut self, char: u8, Ghost(pre): Ghost<Tokenizer<'stream>>) -> (r: TokResult)
        requires
            pre.wf(),
            pre.state == States::Data,
            pre.pos() < pre.bytes().len(),
            char == pre.at(),
            Self::is_advance_of(pre, *old(self)),
        ensures
            final(self).wf(),
            Self::step_data(pre, *final(self), r),
            r is Ok ==> final(self).measure() < pre.measure(),
    {
        if char == AMPERSAND {
            self.return_state = States::Data;
            self.state = States::CharacterReference;
            Ok(None)
        } else if char == LESS_THAN {
            self.state = States::TagOpen;
            Ok(None)
        } else if char == NUL {
            self.builder.set_variant(TokenVariant::Character)?;
            self.builder.push_to_buffer(0xFF);
            let tok = self.builder.build();
            self.tokens.push(Token::Character(0xFD));
            Ok(Some(tok))
        } else {
            self.builder.set_variant(TokenVariant::Character)?;
            self.builder.push_to_buffer(char);
            let tok = self.builder.build();
            Ok(Some(tok))
        }
    }
}

} // verus!
