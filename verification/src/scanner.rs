//! A small hand-rolled scanner over one byte slice: a cursor with
//! single-byte lookahead, and a parser that reads whitespace runs,
//! identifiers, attributes, text runs and bare element names into the owned
//! node model. It predates the full pipeline and stays as its lightweight
//! counterpart.

use vstd::prelude::*;

use crate::ascii::{EQUALS, GREATER_THAN, LESS_THAN, LF, QUOTE, SP, is_ascii_digit, is_ascii_letter};
use crate::dom::{AttrMap, Node};

verus! {

/// The bytes of `true`, an attribute's value when none is written out.
pub const TRUE_WORD: [u8; 4] = [0x74, 0x72, 0x75, 0x65];

/// The bytes of `true`, as the specification sees them.
pub open spec fn true_word_seq() -> Seq<u8> {
    seq![0x74u8, 0x72u8, 0x75u8, 0x65u8]
}

/// The whitespace the scanner skips: space and line feed.
pub open spec fn is_scanner_whitespace(b: u8) -> bool {
    b == SP || b == LF
}

/// A byte an identifier may contain: a quote, a letter or a digit.
pub open spec fn is_ident_byte(b: u8) -> bool {
    b == QUOTE || is_ascii_letter(b) || is_ascii_digit(b)
}

/// The first position at or after `i` holding something other than scanner
/// whitespace, or the end of the data.
pub open spec fn scan_ws(data: Seq<u8>, i: int) -> int
    decreases data.len() - i,
    when 0 <= i <= data.len()
{
    if i < data.len() && is_scanner_whitespace(data[i]) {
        scan_ws(data, i + 1)
    } else {
        i
    }
}

/// The first position at or after `i` holding `needle`, or the end of the
/// data.
pub open spec fn scan_to(data: Seq<u8>, i: int, needle: u8) -> int
    decreases data.len() - i,
    when 0 <= i <= data.len()
{
    if i < data.len() && data[i] != needle {
        scan_to(data, i + 1, needle)
    } else {
        i
    }
}

/// The first position at or after `i` holding one of the two needles, or
/// the end of the data.
pub open spec fn scan_to_or(data: Seq<u8>, i: int, needle1: u8, needle2: u8) -> int
    decreases data.len() - i,
    when 0 <= i <= data.len()
{
    if i < data.len() && data[i] != needle1 && data[i] != needle2 {
        scan_to_or(data, i + 1, needle1, needle2)
    } else {
        i
    }
}

/// The first position at or after `i` holding a byte no identifier may
/// contain, or the end of the data.
pub open spec fn scan_ident(data: Seq<u8>, i: int) -> int
    decreases data.len() - i,
    when 0 <= i <= data.len()
{
    if i < data.len() && is_ident_byte(data[i]) {
        scan_ident(data, i + 1)
    } else {
        i
    }
}

/// A cursor over a borrowed byte slice.
pub struct Stream<'a> {
    pub data: &'a [u8],
    pub idx: usize,
}

impl<'a> Stream<'a> {
    /// The position stays within the data.
    pub open spec fn wf(&self) -> bool {
        self.idx <= self.data@.len()
    }

    /// A cursor at the start of `data`.
    pub fn new(data: &'a [u8]) -> (r: Self)
        ensures
            r.wf(),
            r.data == data,
            r.idx == 0,
    {
        Stream { data, idx: 0 }
    }

    /// Moves one byte forward; the caller has seen the current byte.
    pub fn advance(&mut self)
        requires
            old(self).wf(),
            old(self).idx < old(self).data@.len(),
        ensures
            final(self).wf(),
            final(self).data == old(self).data,
            final(self).idx == old(self).idx + 1,
    {
        let limit = self.data.len();
        proof {
            assert(self.idx < limit);
        }
        self.idx += 1;
    }

    /// Whether the cursor sits at the end of the data.
    pub fn is_eof(&self) -> (r: bool)
        requires
            self.wf(),
        ensures
            r <==> self.idx == self.data@.len(),
    {
        self.idx >= self.data.len()
    }

    /// The byte under the cursor, or nothing at the end of the data.
    pub fn current(&self) -> (r: Option<&u8>)
        requires
            self.wf(),
        ensures
            match r {
                Some(b) => self.idx < self.data@.len() && *b == self.data@[self.idx as int],
                None => self.idx == self.data@.len(),
            },
    {
        if self.idx < self.data.len() {
            Some(&self.data[self.idx])
        } else {
            None
        }
    }

    /// Whether the byte under the cursor is `check`, without consuming it.
    pub fn expect(&self, check: u8) -> (r: bool)
        requires
            self.wf(),
            self.idx < self.data@.len(),
        ensures
            r == (self.data@[self.idx as int] == check),
    {
        let cur = self.data[self.idx];
        cur == check
    }

    /// Consumes the byte under the cursor when it is `check`.
    pub fn expect_and_advance(&mut self, check: u8) -> (r: bool)
        requires
            old(self).wf(),
            old(self).idx < old(self).data@.len(),
        ensures
            final(self).wf(),
            final(self).data == old(self).data,
            r == (old(self).data@[old(self).idx as int] == check),
            r ==> final(self).idx == old(self).idx + 1,
            !r ==> final(self).idx == old(self).idx,
    {
        if self.expect(check) {
            self.advance();
            true
        } else {
            false
        }
    }

    /// The bytes between `start` and the cursor, as a borrowed slice.
    pub fn slice(&self, start: usize) -> (r: &'a [u8])
        requires
            self.wf(),
            start <= self.idx,
        ensures
            r@ == self.data@.subrange(start as int, self.idx as int),
    {
        vstd::slice::slice_subrange(self.data, start, self.idx)
    }
}

/// The scanner's parser: it owns the cursor and reads one construct at a
/// time.
pub struct Parser<'a> {
    pub stream: Stream<'a>,
}

impl<'a> Parser<'a> {
    /// A parser at the start of `data`.
    pub fn new(data: &'a [u8]) -> (r: Self)
        ensures
            r.stream.wf(),
            r.stream.data == data,
            r.stream.idx == 0,
    {
        Self { stream: Stream::new(data) }
    }

    /// Skips scanner whitespace. Reports nothing when the data ran out
    /// before anything else was found.
    pub fn skip_whitespace(&mut self) -> (r: Option<()>)
        requires
            old(self).stream.wf(),
        ensures
            final(self).stream.wf(),
            final(self).stream.data == old(self).stream.data,
            final(self).stream.idx == scan_ws(old(self).stream.data@, old(self).stream.idx as int),
            r is Some <==> scan_ws(old(self).stream.data@, old(self).stream.idx as int) < old(
                self,
            ).stream.data@.len(),
    {
        loop
            invariant
                self.stream.wf(),
                self.stream.data == old(self).stream.data,
                old(self).stream.idx <= self.stream.idx,
                scan_ws(self.stream.data@, old(self).stream.idx as int) == scan_ws(
                    self.stream.data@,
                    self.stream.idx as int,
                ),
            decreases self.stream.data@.len() - self.stream.idx,
        {
            match self.stream.current() {
                Some(char) => {
                    let c = *char;
                    if c == SP || c == LF {
                        self.stream.advance();
                    } else {
                        return Some(());
                    }
                },
                None => {
                    return None;
                },
            }
        }
    }

    /// Reads an identifier: the longest run of quotes, letters and digits
    /// from the cursor on.
    pub fn read_identifier(&mut self) -> (r: &'a [u8])
        requires
            old(self).stream.wf(),
        ensures
            final(self).stream.wf(),
            final(self).stream.data == old(self).stream.data,
            final(self).stream.idx == scan_ident(
                old(self).stream.data@,
                old(self).stream.idx as int,
            ),
            r@ == old(self).stream.data@.subrange(
                old(self).stream.idx as int,
                scan_ident(old(self).stream.data@, old(self).stream.idx as int),
            ),
    {
        let start = self.stream.idx;
        loop
            invariant
                self.stream.wf(),
                self.stream.data == old(self).stream.data,
                start == old(self).stream.idx,
                start <= self.stream.idx,
                scan_ident(self.stream.data@, start as int) == scan_ident(
                    self.stream.data@,
                    self.stream.idx as int,
                ),
            decreases self.stream.data@.len() - self.stream.idx,
        {
            match self.stream.current() {
                Some(char) => {
                    let c = *char;
                    if c == QUOTE || crate::ascii::letter(c) || crate::ascii::digit(c) {
                        self.stream.advance();
                    } else {
                        return self.stream.slice(start);
                    }
                },
                None => {
                    return self.stream.slice(start);
                },
            }
        }
    }

    /// Reads an attribute: an identifier, and after `=` a second identifier
    /// as its value — without one the value reads `true`.
    pub fn read_attribute(&mut self) -> (r: (&'a [u8], &'a [u8]))
        requires
            old(self).stream.wf(),
        ensures
            final(self).stream.wf(),
            final(self).stream.data == old(self).stream.data,
            ({
                let data = old(self).stream.data@;
                let p0 = scan_ws(data, old(self).stream.idx as int);
                let p1 = scan_ident(data, p0);
                &&& r.0@ == data.subrange(p0, p1)
                &&& if p1 < data.len() && data[p1] == EQUALS {
                    r.1@ == data.subrange(p1 + 1, scan_ident(data, p1 + 1))
                        && final(self).stream.idx == scan_ident(data, p1 + 1)
                } else {
                    r.1@ == true_word_seq() && final(self).stream.idx == p1
                }
            }),
    {
        self.skip_whitespace();
        let identifier = self.read_identifier();
        let has_value = if self.stream.is_eof() {
            false
        } else {
            self.stream.expect_and_advance(EQUALS)
        };
        let value: &'a [u8] = if has_value {
            self.read_identifier()
        } else {
            proof {
                assert(TRUE_WORD@ =~= true_word_seq());
            }
            (&TRUE_WORD).as_slice()
        };
        (identifier, value)
    }

    /// Reads a bare element name: whitespace, then everything up to `>` or
    /// a space, then whitespace again; the element carries no attributes
    /// and no children yet.
    pub fn parse_element(&mut self) -> (r: Node)
        requires
            old(self).stream.wf(),
        ensures
            final(self).stream.wf(),
            final(self).stream.data == old(self).stream.data,
            ({
                let data = old(self).stream.data@;
                let p0 = scan_ws(data, old(self).stream.idx as int);
                let p1 = scan_to_or(data, p0, GREATER_THAN, SP);
                &&& r.node_type is Element
                &&& r.node_type->Element_0.tag_name@ == data.subrange(p0, p1)
                &&& r.node_type->Element_0.attributes@.len() == 0
                &&& r.children@.len() == 0
                &&& final(self).stream.idx == scan_ws(data, p1)
            }),
    {
        self.skip_whitespace();
        let attributes = AttrMap::new();
        let tag_name = self.read_to_or(GREATER_THAN, SP);
        self.skip_whitespace();
        Node::elem(vstd::slice::slice_to_vec(tag_name), attributes, Vec::new())
    }

    /// Reads a run of text: everything up to the next `<` or the end of
    /// the data, as a text node.
    pub fn parse_text(&mut self) -> (r: Node)
        requires
            old(self).stream.wf(),
        ensures
            final(self).stream.wf(),
            final(self).stream.data == old(self).stream.data,
            ({
                let data = old(self).stream.data@;
                let p = scan_to(data, old(self).stream.idx as int, LESS_THAN);
                &&& r.node_type is Text
                &&& r.node_type->Text_0@ == data.subrange(old(self).stream.idx as int, p)
                &&& r.children@.len() == 0
                &&& final(self).stream.idx == p
            }),
    {
        let text = self.read_to(LESS_THAN);
        Node::text(vstd::slice::slice_to_vec(text))
    }

    /// Reads everything up to the next `needle`, or to the end of the data,
    /// without consuming the needle.
    pub fn read_to(&mut self, needle: u8) -> (r: &'a [u8])
        requires
            old(self).stream.wf(),
        ensures
            final(self).stream.wf(),
            final(self).stream.data == old(self).stream.data,
            final(self).stream.idx == scan_to(
                old(self).stream.data@,
                old(self).stream.idx as int,
                needle,
            ),
            r@ == old(self).stream.data@.subrange(
                old(self).stream.idx as int,
                scan_to(old(self).stream.data@, old(self).stream.idx as int, needle),
            ),
    {
        let start = self.stream.idx;
        loop
            invariant
                self.stream.wf(),
                self.stream.data == old(self).stream.data,
                start == old(self).stream.idx,
                start <= self.stream.idx,
                scan_to(self.stream.data@, start as int, needle) == scan_to(
                    self.stream.data@,
                    self.stream.idx as int,
                    needle,
                ),
            decreases self.stream.data@.len() - self.stream.idx,
        {
            match self.stream.current() {
                Some(char) => {
                    if *char == needle {
                        return self.stream.slice(start);
                    } else {
                        self.stream.advance();
                    }
                },
                None => {
                    return self.stream.slice(start);
                },
            }
        }
    }

    /// Reads everything up to the first of the two needles, or to the end
    /// of the data, without consuming it.
    pub fn read_to_or(&mut self, needle1: u8, needle2: u8) -> (r: &'a [u8])
        requires
            old(self).stream.wf(),
        ensures
            final(self).stream.wf(),
            final(self).stream.data == old(self).stream.data,
            final(self).stream.idx == scan_to_or(
                old(self).stream.data@,
                old(self).stream.idx as int,
                needle1,
                needle2,
            ),
            r@ == old(self).stream.data@.subrange(
                old(self).stream.idx as int,
                scan_to_or(old(self).stream.data@, old(self).stream.idx as int, needle1, needle2),
            ),
    {
        let start = self.stream.idx;
        loop
            invariant
                self.stream.wf(),
                self.stream.data == old(self).stream.data,
                start == old(self).stream.idx,
                start <= self.stream.idx,
                scan_to_or(self.stream.data@, start as int, needle1, needle2) == scan_to_or(
                    self.stream.data@,
                    self.stream.idx as int,
                    needle1,
                    needle2,
                ),
            decreases self.stream.data@.len() - self.stream.idx,
        {
            match self.stream.current() {
                Some(char) => {
                    if *char == needle1 || *char == needle2 {
                        return self.stream.slice(start);
                    } else {
                        self.stream.advance();
                    }
                },
                None => {
                    return self.stream.slice(start);
                },
            }
        }
    }
}

} // verus!
