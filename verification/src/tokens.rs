//! The token model: finalized lexical tokens, and the incremental builder
//! that accumulates tag names, attributes and doctype fields across many
//! state transitions before finalizing them into one immutable token.

use vstd::prelude::*;

use crate::html::HTMLError;

verus! {

/// The kind of token a builder is currently assembling.
#[derive(Debug, PartialEq, Eq, Structural, Clone, Copy)]
pub enum TokenVariant {
    Doctype,
    StartTag,
    EndTag,
    Comment,
    Character,
}

/// A doctype token: every field a byte sequence, possibly empty, plus the
/// quirks flag.
#[derive(Debug, PartialEq, Eq)]
pub struct DocType {
    pub name: Vec<u8>,
    pub public_id: Vec<u8>,
    pub system_id: Vec<u8>,
    pub force_quirks: bool,
}

/// A start or end tag: its name, its self-closing flag, and its attributes
/// as two parallel lists of keys and values.
#[derive(Debug, PartialEq, Eq)]
pub struct Tag {
    pub name: Vec<u8>,
    pub self_closing: bool,
    pub attr_keys: Vec<Vec<u8>>,
    pub attr_values: Vec<Vec<u8>>,
}

/// A finalized, immutable lexical unit.
#[derive(Debug, PartialEq, Eq)]
pub enum Token {
    Doctype(DocType),
    StartTag(Tag),
    EndTag(Tag),
    Comment(Vec<u8>),
    Character(u8),
    EndOfFile,
}

/// The byte rows of a list of byte lists, as a sequence of sequences.
pub open spec fn rows_view(rows: Vec<Vec<u8>>) -> Seq<Seq<u8>> {
    Seq::new(rows@.len(), |i: int| rows@[i]@)
}

/// Whether `key` occurs among `keys`.
pub open spec fn keys_contain(keys: Seq<Seq<u8>>, key: Seq<u8>) -> bool {
    exists|i: int| 0 <= i < keys.len() && keys[i] == key
}

impl DocType {
    /// All fields at their rest value.
    pub open spec fn is_clear(&self) -> bool {
        &&& self.name@.len() == 0
        &&& self.public_id@.len() == 0
        &&& self.system_id@.len() == 0
        &&& !self.force_quirks
    }
}

impl Default for DocType {
    /// A doctype with empty fields and quirks off.
    fn default() -> (r: Self)
        ensures
            r.is_clear(),
    {
        DocType { name: Vec::new(), public_id: Vec::new(), system_id: Vec::new(), force_quirks: false }
    }
}

impl Tag {
    /// All fields at their rest value.
    pub open spec fn is_clear(&self) -> bool {
        &&& self.name@.len() == 0
        &&& !self.self_closing
        &&& self.attr_keys@.len() == 0
        &&& self.attr_values@.len() == 0
    }

    /// Keys and values pair up, and no key occurs twice: the duplicate rule
    /// keeps only an attribute's first occurrence.
    pub open spec fn wf(&self) -> bool {
        &&& self.attr_keys@.len() == self.attr_values@.len()
        &&& forall|i: int, j: int|
            0 <= i < j < self.attr_keys@.len() ==> rows_view(self.attr_keys)[i] != rows_view(
                self.attr_keys,
            )[j]
    }
}

impl Default for Tag {
    /// A tag with an empty name, no attributes, not self-closing.
    fn default() -> (r: Self)
        ensures
            r.is_clear(),
            r.wf(),
    {
        Tag { name: Vec::new(), self_closing: false, attr_keys: Vec::new(), attr_values: Vec::new() }
    }
}

/// Mutable scratch state for the token being assembled: a pending variant, a
/// doctype and a tag in progress, and a generic byte buffer holding whatever
/// field is currently accumulating. At most one token is in progress at a
/// time; `build` drains everything and resets the builder.
pub struct TokenBuilder {
    pub variant: Option<TokenVariant>,
    pub doctype: DocType,
    pub tag: Tag,
    pub buffer: Vec<u8>,
    /// Set when the attribute key just committed repeated an earlier key, so
    /// the value about to be committed is dropped (the first occurrence
    /// wins).
    pub drop_attr_value: bool,
    /// The name of the most recent start tag finalized by `build`, against
    /// which an end tag inside text-like content is matched.
    pub last_start_tag: Vec<u8>,
}

impl TokenBuilder {
    /// No token in progress and all scratch state at rest; the remembered
    /// last start tag may carry over.
    pub open spec fn is_clear(&self) -> bool {
        &&& self.variant is None
        &&& self.doctype.is_clear()
        &&& self.tag.is_clear()
        &&& self.buffer@.len() == 0
        &&& !self.drop_attr_value
    }

    /// Everything except the pending variant is unchanged between `pre` and
    /// `post`.
    pub open spec fn same_but_variant(pre: Self, post: Self) -> bool {
        &&& post.doctype == pre.doctype
        &&& post.tag == pre.tag
        &&& post.buffer == pre.buffer
        &&& post.drop_attr_value == pre.drop_attr_value
        &&& post.last_start_tag == pre.last_start_tag
    }

    /// Everything except the scratch buffer is unchanged between `pre` and
    /// `post`.
    pub open spec fn same_but_buffer(pre: Self, post: Self) -> bool {
        &&& post.variant == pre.variant
        &&& post.doctype == pre.doctype
        &&& post.tag == pre.tag
        &&& post.drop_attr_value == pre.drop_attr_value
        &&& post.last_start_tag == pre.last_start_tag
    }

    /// Begins a token of the given kind. Starting a second token before
    /// `build` has cleared the first is refused, with nothing changed.
    pub fn set_variant(&mut self, variant: TokenVariant) -> (r: Result<(), HTMLError>)
        ensures
            old(self).variant is Some ==> r == Err::<(), HTMLError>(
                HTMLError::TokenBuilderImproperlyCleared,
            ) && *final(self) == *old(self),
            old(self).variant is None ==> r == Ok::<(), HTMLError>(()) && final(self).variant
                == Some(variant) && Self::same_but_variant(*old(self), *final(self)),
    {
        match self.variant {
            Some(_) => Err(HTMLError::TokenBuilderImproperlyCleared),
            None => {
                self.variant = Some(variant);
                Ok(())
            },
        }
    }

    /// Appends one byte to the scratch buffer.
    pub fn push_to_buffer(&mut self, char: u8)
        ensures
            final(self).buffer@ == old(self).buffer@.push(char),
            Self::same_but_buffer(*old(self), *final(self)),
    {
        self.buffer.push(char);
    }

    /// Appends the two-byte stand-in for the replacement character, used
    /// where a NUL byte appears inside markup.
    pub fn push_replacement_character_to_buffer(&mut self)
        ensures
            final(self).buffer@ == old(self).buffer@ + seq![0xFFu8, 0xFDu8],
            Self::same_but_buffer(*old(self), *final(self)),
    {
        self.buffer.push(0xFF);
        self.buffer.push(0xFD);
        proof {
            assert(final(self).buffer@ =~= old(self).buffer@ + seq![0xFFu8, 0xFDu8]);
        }
    }

    /// Moves the scratch buffer into the doctype name, leaving the buffer
    /// empty.
    pub fn commit_buffer_to_doctype_name(&mut self)
        ensures
            final(self).doctype.name == old(self).buffer,
            final(self).doctype.public_id == old(self).doctype.public_id,
            final(self).doctype.system_id == old(self).doctype.system_id,
            final(self).doctype.force_quirks == old(self).doctype.force_quirks,
            final(self).buffer@.len() == 0,
            final(self).variant == old(self).variant,
            final(self).tag == old(self).tag,
            final(self).drop_attr_value == old(self).drop_attr_value,
            final(self).last_start_tag == old(self).last_start_tag,
    {
        self.doctype.name = take_bytes(&mut self.buffer);
    }

    /// Commits the scratch buffer as the next attribute key. A key already
    /// present is dropped instead — the first occurrence wins — and the value
    /// that follows it will be dropped too. A fresh key is paired with an
    /// empty value until one is committed.
    pub fn commit_buffer_to_attr_keys(&mut self)
        requires
            old(self).tag.wf(),
        ensures
            final(self).tag.wf(),
            keys_contain(rows_view(old(self).tag.attr_keys), old(self).buffer@) ==> {
                &&& final(self).tag == old(self).tag
                &&& final(self).drop_attr_value
            },
            !keys_contain(rows_view(old(self).tag.attr_keys), old(self).buffer@) ==> {
                &&& rows_view(final(self).tag.attr_keys) == rows_view(old(self).tag.attr_keys).push(
                    old(self).buffer@,
                )
                &&& rows_view(final(self).tag.attr_values) == rows_view(
                    old(self).tag.attr_values,
                ).push(Seq::<u8>::empty())
                &&& final(self).tag.name == old(self).tag.name
                &&& final(self).tag.self_closing == old(self).tag.self_closing
                &&& !final(self).drop_attr_value
            },
            final(self).buffer@.len() == 0,
            final(self).variant == old(self).variant,
            final(self).doctype == old(self).doctype,
            final(self).last_start_tag == old(self).last_start_tag,
    {
        let key = take_bytes(&mut self.buffer);
        if keys_contain_exec(&self.tag.attr_keys, &key) {
            self.drop_attr_value = true;
        } else {
            self.tag.attr_keys.push(key);
            self.tag.attr_values.push(Vec::new());
            self.drop_attr_value = false;
            proof {
                assert(rows_view(self.tag.attr_keys) =~= rows_view(old(self).tag.attr_keys).push(
                    old(self).buffer@,
                ));
                assert(rows_view(self.tag.attr_values) =~= rows_view(
                    old(self).tag.attr_values,
                ).push(Seq::<u8>::empty()));
            }
        }
    }

    /// Commits the scratch buffer as the value of the attribute committed
    /// last. If that attribute repeated an earlier key the value is dropped
    /// with it; otherwise it replaces the empty value the key was paired
    /// with. Only valid while a committed attribute is pending.
    pub fn commit_buffer_to_attr_value(&mut self)
        requires
            old(self).drop_attr_value || old(self).tag.attr_values@.len() > 0,
        ensures
            old(self).drop_attr_value ==> {
                &&& final(self).tag == old(self).tag
                &&& !final(self).drop_attr_value
            },
            !old(self).drop_attr_value ==> {
                &&& rows_view(final(self).tag.attr_values) == rows_view(
                    old(self).tag.attr_values,
                ).update(old(self).tag.attr_values@.len() - 1, old(self).buffer@)
                &&& final(self).tag.attr_keys == old(self).tag.attr_keys
                &&& final(self).tag.name == old(self).tag.name
                &&& final(self).tag.self_closing == old(self).tag.self_closing
                &&& final(self).drop_attr_value == old(self).drop_attr_value
            },
            final(self).buffer@.len() == 0,
            final(self).variant == old(self).variant,
            final(self).doctype == old(self).doctype,
            final(self).last_start_tag == old(self).last_start_tag,
            old(self).tag.wf() ==> final(self).tag.wf(),
    {
        let value = take_bytes(&mut self.buffer);
        if self.drop_attr_value {
            self.drop_attr_value = false;
        } else {
            let n = self.tag.attr_values.len();
            self.tag.attr_values[n - 1] = value;
            proof {
                assert(rows_view(self.tag.attr_values) =~= rows_view(
                    old(self).tag.attr_values,
                ).update(old(self).tag.attr_values@.len() - 1, old(self).buffer@));
            }
        }
    }

    /// Marks the doctype in progress as forcing quirks mode.
    pub fn force_quirks(&mut self)
        ensures
            final(self).doctype.force_quirks,
            final(self).doctype.name == old(self).doctype.name,
            final(self).doctype.public_id == old(self).doctype.public_id,
            final(self).doctype.system_id == old(self).doctype.system_id,
            final(self).buffer == old(self).buffer,
            final(self).variant == old(self).variant,
            final(self).tag == old(self).tag,
            final(self).drop_attr_value == old(self).drop_attr_value,
            final(self).last_start_tag == old(self).last_start_tag,
    {
        self.doctype.force_quirks = true;
    }

    /// Finalizes the pending token, returning it and resetting the builder.
    /// A finalized start tag is remembered as the last start tag. Only valid
    /// while a token is in progress; a character token drains the last
    /// buffered byte.
    pub fn build(&mut self) -> (token: Token)
        requires
            old(self).variant is Some,
            old(self).variant == Some(TokenVariant::Character) ==> old(self).buffer@.len() >= 1,
        ensures
            final(self).is_clear(),
            old(self).variant == Some(TokenVariant::Doctype) ==> token == Token::Doctype(
                old(self).doctype,
            ),
            old(self).variant == Some(TokenVariant::StartTag) ==> token == Token::StartTag(
                old(self).tag,
            ),
            old(self).variant == Some(TokenVariant::EndTag) ==> token == Token::EndTag(
                old(self).tag,
            ),
            old(self).variant == Some(TokenVariant::Comment) ==> token == Token::Comment(
                old(self).buffer,
            ),
            old(self).variant == Some(TokenVariant::Character) ==> token == Token::Character(
                old(self).buffer@.last(),
            ),
            final(self).last_start_tag@ == if old(self).variant == Some(TokenVariant::StartTag) {
                old(self).tag.name@
            } else {
                old(self).last_start_tag@
            },
    {
        let variant = self.variant.take();
        let token: Token = match variant {
            Some(TokenVariant::Doctype) => {
                let mut doctype = DocType::default();
                core::mem::swap(&mut doctype, &mut self.doctype);
                Token::Doctype(doctype)
            },
            Some(TokenVariant::StartTag) => {
                let mut tag = Tag::default();
                core::mem::swap(&mut tag, &mut self.tag);
                self.last_start_tag = copy_bytes(&tag.name);
                Token::StartTag(tag)
            },
            Some(TokenVariant::EndTag) => {
                let mut tag = Tag::default();
                core::mem::swap(&mut tag, &mut self.tag);
                Token::EndTag(tag)
            },
            Some(TokenVariant::Comment) => Token::Comment(take_bytes(&mut self.buffer)),
            Some(TokenVariant::Character) => {
                let byte = match self.buffer.pop() {
                    Some(b) => b,
                    None => 0,
                };
                Token::Character(byte)
            },
            None => Token::EndOfFile,
        };
        self.doctype = DocType::default();
        self.tag = Tag::default();
        self.buffer = Vec::new();
        self.drop_attr_value = false;
        token
    }

    /// Whether the end tag being assembled matches the last start tag that
    /// was finalized, so a closing tag inside text-like content closes the
    /// element that opened it.
    pub fn check_tag_validitiy(&self) -> (r: bool)
        ensures
            r == (self.tag.name@ == self.last_start_tag@),
    {
        bytes_eq(&self.tag.name, &self.last_start_tag)
    }
}

impl Default for TokenBuilder {
    /// A builder with no token in progress and no remembered start tag.
    fn default() -> (r: Self)
        ensures
            r.is_clear(),
            r.last_start_tag@.len() == 0,
            r.tag.wf(),
    {
        TokenBuilder {
            variant: None,
            doctype: DocType::default(),
            tag: Tag::default(),
            buffer: Vec::new(),
            drop_attr_value: false,
            last_start_tag: Vec::new(),
        }
    }
}

/// The bytes read as characters, one per byte.
pub open spec fn chars_of_bytes(s: Seq<u8>) -> Seq<char> {
    Seq::new(s.len(), |i: int| s[i] as char)
}

/// The bytes of `class`.
pub open spec fn class_lit() -> Seq<u8> {
    seq![0x63u8, 0x6Cu8, 0x61u8, 0x73u8, 0x73u8]
}

/// The first position at or after `i` where `keys` holds `key`, or the end
/// of the list.
pub open spec fn find_key_from(keys: Seq<Seq<u8>>, key: Seq<u8>, i: int) -> int
    decreases keys.len() - i,
    when 0 <= i
{
    if i < keys.len() {
        if keys[i] == key {
            i
        } else {
            find_key_from(keys, key, i + 1)
        }
    } else {
        i
    }
}

/// How one attribute reads: a space, the key, a colon, and the value — or
/// the word `EMPTY` where no value lines up with the key.
pub open spec fn attr_entry_chars(keys: Seq<Seq<u8>>, values: Seq<Seq<u8>>, i: int) -> Seq<char> {
    seq![' '] + chars_of_bytes(keys[i]) + ": "@ + if i < values.len() {
        chars_of_bytes(values[i])
    } else {
        "EMPTY"@
    }
}

/// The attributes from position `i` on, one entry after another.
pub open spec fn attr_list_chars(keys: Seq<Seq<u8>>, values: Seq<Seq<u8>>, i: int) -> Seq<char>
    decreases keys.len() - i,
    when 0 <= i
{
    if i < keys.len() {
        attr_entry_chars(keys, values, i) + attr_list_chars(keys, values, i + 1)
    } else {
        Seq::empty()
    }
}

/// How a tag's body reads: its name, then its attributes in brackets.
pub open spec fn tag_body_chars(tag: Tag) -> Seq<char> {
    chars_of_bytes(tag.name@) + seq!['['] + attr_list_chars(
        rows_view(tag.attr_keys),
        rows_view(tag.attr_values),
        0,
    ) + seq![']']
}

/// How a token reads when presented for diagnostics.
pub open spec fn present_spec(token: Token) -> Seq<char> {
    match token {
        Token::EndOfFile => "EOF"@,
        Token::Doctype(_) => "DocType "@,
        Token::Comment(data) => "Comment: "@ + chars_of_bytes(data@),
        Token::Character(byte) => "Character: "@ + seq![byte as char],
        Token::StartTag(tag) => "StartTag: "@ + tag_body_chars(tag),
        Token::EndTag(tag) => "EndTag: "@ + tag_body_chars(tag),
    }
}

impl Token {
    /// The bytes of a token field read as text, one character per byte.
    fn printer_helper(&self, data: &[u8]) -> (r: String)
        ensures
            r@ == chars_of_bytes(data@),
    {
        bytes_to_string(data)
    }

    /// Presents the token for diagnostics, reading exactly as
    /// `present_spec` spells out.
    pub fn present(&self) -> (r: String)
        ensures
            r@ == present_spec(*self),
    {
        match self {
            Self::EndOfFile => {
                let mut fmt_str = String::new();
                fmt_str.append("EOF");
                proof {
                    assert(fmt_str@ =~= present_spec(*self));
                }
                fmt_str
            },
            Self::Doctype(_) => {
                let mut fmt_str = String::new();
                fmt_str.append("DocType ");
                proof {
                    assert(fmt_str@ =~= present_spec(*self));
                }
                fmt_str
            },
            Self::Comment(data) => {
                let mut fmt_str = String::new();
                fmt_str.append("Comment: ");
                let body = self.printer_helper(data.as_slice());
                fmt_str.append(body.as_str());
                proof {
                    assert(fmt_str@ =~= present_spec(*self));
                }
                fmt_str
            },
            Self::Character(byte) => {
                let mut fmt_str = String::new();
                fmt_str.append("Character: ");
                push_char(&mut fmt_str, *byte as char);
                proof {
                    assert(fmt_str@ =~= present_spec(*self));
                }
                fmt_str
            },
            Self::EndTag(tag) | Self::StartTag(tag) => {
                let mut fmt_str = String::new();
                match self {
                    Self::EndTag(_) => fmt_str.append("EndTag: "),
                    Self::StartTag(_) => fmt_str.append("StartTag: "),
                    _ => {},
                }
                let name = self.printer_helper(tag.name.as_slice());
                fmt_str.append(name.as_str());
                push_char(&mut fmt_str, '[');
                let ghost header = fmt_str@;
                let ghost keys = rows_view(tag.attr_keys);
                let ghost values = rows_view(tag.attr_values);
                let n = tag.attr_keys.len();
                for i in 0..n
                    invariant
                        n == tag.attr_keys@.len(),
                        keys == rows_view(tag.attr_keys),
                        values == rows_view(tag.attr_values),
                        fmt_str@ + attr_list_chars(keys, values, i as int) == header
                            + attr_list_chars(keys, values, 0),
                {
                    let ghost before = fmt_str@;
                    push_char(&mut fmt_str, ' ');
                    let key = self.printer_helper(tag.attr_keys[i].as_slice());
                    fmt_str.append(key.as_str());
                    fmt_str.append(": ");
                    if i < tag.attr_values.len() {
                        let value = self.printer_helper(tag.attr_values[i].as_slice());
                        fmt_str.append(value.as_str());
                    } else {
                        fmt_str.append("EMPTY");
                    }
                    proof {
                        assert(fmt_str@ =~= before + attr_entry_chars(keys, values, i as int));
                        assert(attr_list_chars(keys, values, i as int) == attr_entry_chars(
                            keys,
                            values,
                            i as int,
                        ) + attr_list_chars(keys, values, i + 1));
                        assert(fmt_str@ + attr_list_chars(keys, values, i + 1) =~= before
                            + attr_list_chars(keys, values, i as int));
                    }
                }
                push_char(&mut fmt_str, ']');
                proof {
                    assert(attr_list_chars(keys, values, n as int) =~= Seq::<char>::empty());
                    assert(fmt_str@ =~= header + attr_list_chars(keys, values, 0) + seq![']']);
                    assert(fmt_str@ =~= present_spec(*self));
                }
                fmt_str
            },
        }
    }
}

impl DocType {
    /// Forces quirks mode on; every other field keeps its value.
    pub fn test(&mut self)
        ensures
            final(self).force_quirks,
            final(self).name == old(self).name,
            final(self).public_id == old(self).public_id,
            final(self).system_id == old(self).system_id,
    {
        self.force_quirks = true;
    }
}

impl Tag {
    /// The value of the `class` attribute, read as text, if the tag carries
    /// one.
    pub fn get_class_list(&self) -> (r: Option<String>)
        requires
            self.wf(),
        ensures
            ({
                let idx = find_key_from(rows_view(self.attr_keys), class_lit(), 0);
                if idx < self.attr_keys@.len() {
                    match r {
                        Some(s) => s@ == chars_of_bytes(rows_view(self.attr_values)[idx]),
                        None => false,
                    }
                } else {
                    r is None
                }
            }),
    {
        let mut class: Vec<u8> = Vec::new();
        class.push(0x63);
        class.push(0x6C);
        class.push(0x61);
        class.push(0x73);
        class.push(0x73);
        proof {
            assert(class@ =~= class_lit());
        }
        let n = self.attr_keys.len();
        for i in 0..n
            invariant
                n == self.attr_keys@.len(),
                self.wf(),
                class@ == class_lit(),
                find_key_from(rows_view(self.attr_keys), class_lit(), 0) == find_key_from(
                    rows_view(self.attr_keys),
                    class_lit(),
                    i as int,
                ),
        {
            if bytes_eq(&self.attr_keys[i], &class) {
                proof {
                    assert(rows_view(self.attr_keys)[i as int] == class_lit());
                    assert(find_key_from(rows_view(self.attr_keys), class_lit(), i as int)
                        == i as int);
                }
                return Some(bytes_to_string(self.attr_values[i].as_slice()));
            }
            proof {
                assert(rows_view(self.attr_keys)[i as int] != class_lit());
            }
        }
        None
    }
}

/// Relies on `String::push` of std: it appends exactly the one character.
#[verifier::external_body]
fn push_char(s: &mut String, c: char)
    ensures
        final(s)@ == old(s)@.push(c),
{
    s.push(c);
}

/// The bytes read as text, one character per byte.
fn bytes_to_string(data: &[u8]) -> (r: String)
    ensures
        r@ == chars_of_bytes(data@),
{
    let mut out = String::new();
    let n = data.len();
    for i in 0..n
        invariant
            n == data@.len(),
            out@ == chars_of_bytes(data@).subrange(0, i as int),
    {
        push_char(&mut out, data[i] as char);
        proof {
            assert(out@ =~= chars_of_bytes(data@).subrange(0, i + 1));
        }
    }
    proof {
        assert(chars_of_bytes(data@).subrange(0, n as int) =~= chars_of_bytes(data@));
    }
    out
}

/// The two declarations read the same: every field, viewed, is equal.
pub open spec fn doctype_equiv(a: DocType, b: DocType) -> bool {
    &&& a.name@ == b.name@
    &&& a.public_id@ == b.public_id@
    &&& a.system_id@ == b.system_id@
    &&& a.force_quirks == b.force_quirks
}

/// The two tags read the same: every field, viewed, is equal.
pub open spec fn tag_equiv(a: Tag, b: Tag) -> bool {
    &&& a.name@ == b.name@
    &&& a.self_closing == b.self_closing
    &&& rows_view(a.attr_keys) == rows_view(b.attr_keys)
    &&& rows_view(a.attr_values) == rows_view(b.attr_values)
}

/// The two tokens read the same: the same kind, with equal field views.
pub open spec fn token_equiv(a: Token, b: Token) -> bool {
    match (a, b) {
        (Token::Doctype(x), Token::Doctype(y)) => doctype_equiv(x, y),
        (Token::StartTag(x), Token::StartTag(y)) => tag_equiv(x, y),
        (Token::EndTag(x), Token::EndTag(y)) => tag_equiv(x, y),
        (Token::Comment(x), Token::Comment(y)) => x@ == y@,
        (Token::Character(x), Token::Character(y)) => x == y,
        (Token::EndOfFile, Token::EndOfFile) => true,
        _ => false,
    }
}

/// The two builders read the same: every field, viewed, is equal.
pub open spec fn builder_equiv(a: TokenBuilder, b: TokenBuilder) -> bool {
    &&& a.variant == b.variant
    &&& doctype_equiv(a.doctype, b.doctype)
    &&& tag_equiv(a.tag, b.tag)
    &&& a.buffer@ == b.buffer@
    &&& a.drop_attr_value == b.drop_attr_value
    &&& a.last_start_tag@ == b.last_start_tag@
}

/// Two builders at rest with the same remembered start tag read the same.
pub proof fn lemma_clear_builders_equiv(x: TokenBuilder, y: TokenBuilder)
    requires
        x.is_clear(),
        y.is_clear(),
        x.last_start_tag@ == y.last_start_tag@,
    ensures
        builder_equiv(x, y),
{
    assert(x.doctype.name@ =~= y.doctype.name@);
    assert(x.doctype.public_id@ =~= y.doctype.public_id@);
    assert(x.doctype.system_id@ =~= y.doctype.system_id@);
    assert(x.tag.name@ =~= y.tag.name@);
    assert(rows_view(x.tag.attr_keys) =~= rows_view(y.tag.attr_keys));
    assert(rows_view(x.tag.attr_values) =~= rows_view(y.tag.attr_values));
    assert(x.buffer@ =~= y.buffer@);
}

/// Committing the same key into builders that read the same leaves builders
/// that read the same.
pub proof fn lemma_keys_committed_equiv(
    p1: TokenBuilder,
    p2: TokenBuilder,
    x: TokenBuilder,
    y: TokenBuilder,
)
    requires
        builder_equiv(p1, p2),
        crate::tokenizer::Tokenizer::keys_committed(p1, x),
        crate::tokenizer::Tokenizer::keys_committed(p2, y),
    ensures
        builder_equiv(x, y),
{
    assert(x.buffer@ =~= y.buffer@);
    if keys_contain(rows_view(p1.tag.attr_keys), p1.buffer@) {
        assert(keys_contain(rows_view(p2.tag.attr_keys), p2.buffer@));
    } else {
        assert(!keys_contain(rows_view(p2.tag.attr_keys), p2.buffer@));
        assert(x.tag.name@ == p1.tag.name@ && y.tag.name@ == p2.tag.name@);
    }
}

/// Committing the pending value into builders that read the same leaves
/// builders that read the same.
pub proof fn lemma_value_committed_equiv(
    p1: TokenBuilder,
    p2: TokenBuilder,
    x: TokenBuilder,
    y: TokenBuilder,
)
    requires
        builder_equiv(p1, p2),
        crate::tokenizer::Tokenizer::value_committed(p1, x),
        crate::tokenizer::Tokenizer::value_committed(p2, y),
    ensures
        builder_equiv(x, y),
{
    assert(x.buffer@ =~= y.buffer@);
    if !p1.drop_attr_value {
        assert(x.tag.name@ == p1.tag.name@ && y.tag.name@ == p2.tag.name@);
        assert(rows_view(x.tag.attr_keys) == rows_view(p1.tag.attr_keys));
        assert(rows_view(y.tag.attr_keys) == rows_view(p2.tag.attr_keys));
        assert(rows_view(p1.tag.attr_values).len() == rows_view(p2.tag.attr_values).len());
    }
}

/// Moves the bytes out of `v`, leaving it empty.
fn take_bytes(v: &mut Vec<u8>) -> (r: Vec<u8>)
    ensures
        r == *old(v),
        final(v)@.len() == 0,
{
    let mut out: Vec<u8> = Vec::new();
    core::mem::swap(&mut out, v);
    out
}

/// A fresh copy of the bytes of `v`.
fn copy_bytes(v: &Vec<u8>) -> (r: Vec<u8>)
    ensures
        r@ == v@,
{
    let mut out: Vec<u8> = Vec::new();
    let n = v.len();
    for i in 0..n
        invariant
            n == v@.len(),
            out@ == v@.subrange(0, i as int),
    {
        out.push(v[i]);
        proof {
            assert(out@ =~= v@.subrange(0, i + 1));
        }
    }
    proof {
        assert(v@.subrange(0, n as int) =~= v@);
    }
    out
}

/// Whether `key` occurs among `keys`.
fn keys_contain_exec(keys: &Vec<Vec<u8>>, key: &Vec<u8>) -> (r: bool)
    ensures
        r == keys_contain(rows_view(*keys), key@),
{
    let n = keys.len();
    for i in 0..n
        invariant
            n == keys@.len(),
            forall|k: int| 0 <= k < i ==> rows_view(*keys)[k] != key@,
    {
        if bytes_eq(&keys[i], key) {
            proof {
                assert(rows_view(*keys)[i as int] == key@);
            }
            return true;
        }
    }
    false
}

/// Whether two byte lists hold the same bytes in the same order.
fn bytes_eq(a: &Vec<u8>, b: &Vec<u8>) -> (r: bool)
    ensures
        r == (a@ == b@),
{
    if a.len() != b.len() {
        proof {
            assert(a@ != b@);
        }
        return false;
    }
    let n = a.len();
    for i in 0..n
        invariant
            n == a@.len(),
            n == b@.len(),
            forall|k: int| 0 <= k < i ==> a@[k] == b@[k],
    {
        if a[i] != b[i] {
            proof {
                assert(a@[i as int] != b@[i as int]);
            }
            return false;
        }
    }
    proof {
        assert(a@ =~= b@);
    }
    true
}

} // verus!
