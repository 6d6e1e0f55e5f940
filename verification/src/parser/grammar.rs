//! The low-level grammar: character classes, white space, line breaks,
//! comments and columns.
use crate::parser::base::Parser;
use vstd::prelude::*;

verus! {

pub const TAB: u8 = 0x09;

pub const LF: u8 = 0x0a;

pub const CR: u8 = 0x0d;

pub const SP: u8 = 0x20;

pub const HASH: u8 = 0x23;

pub const BANG: u8 = 0x21;

pub const DQ: u8 = 0x22;

pub const PERCENT: u8 = 0x25;

pub const AMP: u8 = 0x26;

pub const SQ: u8 = 0x27;

pub const STAR: u8 = 0x2a;

pub const PLUS: u8 = 0x2b;

pub const COMMA: u8 = 0x2c;

pub const DASH: u8 = 0x2d;

pub const DOT: u8 = 0x2e;

pub const COLON: u8 = 0x3a;

pub const LT: u8 = 0x3c;

pub const GT: u8 = 0x3e;

pub const QUESTION: u8 = 0x3f;

pub const AT: u8 = 0x40;

pub const LBRACKET: u8 = 0x5b;

pub const BACKSLASH: u8 = 0x5c;

pub const RBRACKET: u8 = 0x5d;

pub const BACKTICK: u8 = 0x60;

pub const LBRACE: u8 = 0x7b;

pub const PIPE: u8 = 0x7c;

pub const RBRACE: u8 = 0x7d;

/// A byte that cannot start a plain scalar by itself.
pub open spec fn is_indicator(b: u8) -> bool {
    ||| b == DASH
    ||| b == QUESTION
    ||| b == COLON
    ||| b == COMMA
    ||| b == LBRACKET
    ||| b == RBRACKET
    ||| b == LBRACE
    ||| b == RBRACE
    ||| b == HASH
    ||| b == AMP
    ||| b == STAR
    ||| b == BANG
    ||| b == PIPE
    ||| b == GT
    ||| b == SQ
    ||| b == DQ
    ||| b == PERCENT
    ||| b == AT
    ||| b == BACKTICK
}

/// A byte that ends a plain scalar inside a flow collection.
pub open spec fn is_flow_end(b: u8) -> bool {
    b == COMMA || b == LBRACKET || b == RBRACKET || b == LBRACE || b == RBRACE
}

/// Whether the byte cannot start a plain scalar by itself.
pub fn indicator(b: u8) -> (r: bool)
    ensures
        r == is_indicator(b),
{
    b == DASH || b == QUESTION || b == COLON || b == COMMA || b == LBRACKET || b == RBRACKET || b
        == LBRACE || b == RBRACE || b == HASH || b == AMP || b == STAR || b == BANG || b == PIPE
        || b == GT || b == SQ || b == DQ || b == PERCENT || b == AT || b == BACKTICK
}

/// Whether the byte ends a plain scalar inside a flow collection.
pub fn flow_end(b: u8) -> (r: bool)
    ensures
        r == is_flow_end(b),
{
    b == COMMA || b == LBRACKET || b == RBRACKET || b == LBRACE || b == RBRACE
}

/// Whether the byte is a space or a tab.
pub fn white(b: u8) -> (r: bool)
    ensures
        r == is_ws(b),
{
    b == SP || b == TAB
}

/// Whether the byte is a line feed or a carriage return.
pub fn newline(b: u8) -> (r: bool)
    ensures
        r == is_nl(b),
{
    b == LF || b == CR
}

/// A space or a tab.
pub open spec fn is_ws(b: u8) -> bool {
    b == SP || b == TAB
}

/// A line feed or a carriage return.
pub open spec fn is_nl(b: u8) -> bool {
    b == LF || b == CR
}

/// The first place at or behind `at` that holds no white space.
pub open spec fn ws_end(doc: Seq<u8>, at: int) -> int
    decreases doc.len() - at,
{
    if 0 <= at < doc.len() && is_ws(doc[at]) {
        ws_end(doc, at + 1)
    } else {
        at
    }
}

/// The first place at or behind `at` that holds no space.
pub open spec fn sp_end(doc: Seq<u8>, at: int) -> int
    decreases doc.len() - at,
{
    if 0 <= at < doc.len() && doc[at] == SP {
        sp_end(doc, at + 1)
    } else {
        at
    }
}

/// The first place at or behind `at` that holds a line break, or the end.
pub open spec fn line_end(doc: Seq<u8>, at: int) -> int
    decreases doc.len() - at,
{
    if 0 <= at < doc.len() && !is_nl(doc[at]) {
        line_end(doc, at + 1)
    } else {
        at
    }
}

/// The place at which the line of `at` starts.
pub open spec fn line_start(doc: Seq<u8>, at: int) -> int
    decreases at,
{
    if 0 < at <= doc.len() && !is_nl(doc[at - 1]) {
        line_start(doc, at - 1)
    } else {
        at
    }
}

/// The length of the line break at `at`: 2 for a carriage return with a
/// line feed, 1 for either alone, 0 where there is none.
pub open spec fn nl_len(doc: Seq<u8>, at: int) -> int {
    if 0 <= at < doc.len() && doc[at] == LF {
        1
    } else if 0 <= at < doc.len() && doc[at] == CR {
        if at + 1 < doc.len() && doc[at + 1] == LF {
            2
        } else {
            1
        }
    } else {
        0
    }
}

/// The end of white space and of a comment that follows it.
pub open spec fn blank_end(doc: Seq<u8>, at: int) -> int {
    let w = ws_end(doc, at);
    if 0 <= w < doc.len() && doc[w] == HASH {
        line_end(doc, w)
    } else {
        w
    }
}

/// Where the content goes on behind blank lines and comments: the start of
/// the first line that holds more than white space and a comment, or the end
/// of the input. A line that holds more is left as it is, its white space too.
pub open spec fn gap_end(doc: Seq<u8>, at: int) -> int
    decreases doc.len() - at,
{
    let b = blank_end(doc, at);
    if 0 <= at <= b < doc.len() && is_nl(doc[b]) {
        gap_end(doc, b + nl_len(doc, b))
    } else if 0 <= at && b >= doc.len() {
        doc.len() as int
    } else {
        at
    }
}

/// The line breaks that lie between `at` and `gap_end`.
pub open spec fn gap_lines(doc: Seq<u8>, at: int) -> int
    decreases doc.len() - at,
{
    let b = blank_end(doc, at);
    if 0 <= at <= b < doc.len() && is_nl(doc[b]) {
        1 + gap_lines(doc, b + nl_len(doc, b))
    } else {
        0
    }
}

pub proof fn ws_end_bounds(doc: Seq<u8>, at: int)
    requires
        0 <= at <= doc.len(),
    ensures
        at <= ws_end(doc, at) <= doc.len(),
    decreases doc.len() - at,
{
    if at < doc.len() && is_ws(doc[at]) {
        ws_end_bounds(doc, at + 1);
    }
}

pub proof fn line_end_bounds(doc: Seq<u8>, at: int)
    requires
        0 <= at <= doc.len(),
    ensures
        at <= line_end(doc, at) <= doc.len(),
    decreases doc.len() - at,
{
    if at < doc.len() && !is_nl(doc[at]) {
        line_end_bounds(doc, at + 1);
    }
}

pub proof fn blank_end_bounds(doc: Seq<u8>, at: int)
    requires
        0 <= at <= doc.len(),
    ensures
        at <= blank_end(doc, at) <= doc.len(),
{
    ws_end_bounds(doc, at);
    line_end_bounds(doc, ws_end(doc, at));
}

pub proof fn gap_end_bounds(doc: Seq<u8>, at: int)
    requires
        0 <= at <= doc.len(),
    ensures
        at <= gap_end(doc, at) <= doc.len(),
        0 <= gap_lines(doc, at) <= gap_end(doc, at) - at,
    decreases doc.len() - at,
{
    blank_end_bounds(doc, at);
    let b = blank_end(doc, at);
    if b < doc.len() && is_nl(doc[b]) {
        gap_end_bounds(doc, b + nl_len(doc, b));
    }
}

pub proof fn line_start_bounds(doc: Seq<u8>, at: int)
    requires
        0 <= at <= doc.len(),
    ensures
        0 <= line_start(doc, at) <= at,
    decreases at,
{
    if 0 < at && !is_nl(doc[at - 1]) {
        line_start_bounds(doc, at - 1);
    }
}

impl<'a> Parser<'a> {
    /// The byte `b` stands at the cursor.
    pub open spec fn at(&self, b: u8) -> bool {
        self.pos < self.doc@.len() && self.doc@[self.pos as int] == b
    }

    /// A document marker stands at the cursor: three times the byte `b` at
    /// the start of a line, before white space, a line break or the end.
    pub open spec fn marker_here(&self, b: u8) -> bool {
        crate::parser::scalar::marker_at(self.doc@, self.pos as int, b)
    }

    /// Whether a document marker made of the byte `b` stands at the cursor.
    pub fn marker(&self, b: u8) -> (r: bool)
        requires
            self.wf(),
        ensures
            r == self.marker_here(b),
    {
        self.column() == 0 && self.peek() == Some(b) && self.peek_at(1) == Some(b) && self.peek_at(2)
            == Some(b) && self.sep_at(3)
    }

    /// The byte at the cursor.
    pub fn peek(&self) -> (r: Option<u8>)
        requires
            self.wf(),
        ensures
            r == (if self.pos < self.doc@.len() {
                Some(self.doc@[self.pos as int])
            } else {
                None
            }),
    {
        if self.pos < self.doc.len() {
            Some(self.doc[self.pos])
        } else {
            None
        }
    }

    /// The byte `k` places behind the cursor.
    pub fn peek_at(&self, k: usize) -> (r: Option<u8>)
        requires
            self.wf(),
        ensures
            r == (if self.pos + k < self.doc@.len() {
                Some(self.doc@[self.pos + k])
            } else {
                None
            }),
    {
        if k < self.doc.len() - self.pos {
            Some(self.doc[self.pos + k])
        } else {
            None
        }
    }

    /// Whether the byte `k` places behind the cursor is white space or a
    /// line break, or lies behind the end of the input.
    pub fn sep_at(&self, k: usize) -> (r: bool)
        requires
            self.wf(),
        ensures
            r == (self.pos + k >= self.doc@.len() || is_ws(self.doc@[self.pos + k]) || is_nl(
                self.doc@[self.pos + k],
            )),
    {
        match self.peek_at(k) {
            None => true,
            Some(c) => c == SP || c == TAB || c == LF || c == CR,
        }
    }

    /// Skips white space; gives the number of bytes skipped.
    pub fn ws(&mut self) -> (n: usize)
        requires
            old(self).wf(),
        ensures
            final(self).wf(),
            *final(self) == old(self).moved(final(self).pos),
            final(self).pos == ws_end(old(self).doc@, old(self).pos as int),
            n == final(self).pos - old(self).pos,
    {
        let start = self.pos;
        proof {
            ws_end_bounds(self.doc@, start as int);
        }
        while self.pos < self.doc.len() && (self.doc[self.pos] == SP || self.doc[self.pos] == TAB)
            invariant
                self.wf(),
                start <= self.pos,
                *self == old(self).moved(self.pos),
                ws_end(self.doc@, start as int) == ws_end(self.doc@, self.pos as int),
            decreases self.doc@.len() - self.pos,
        {
            self.pos += 1;
        }
        self.pos - start
    }

    /// The number of spaces at the cursor.
    pub fn spaces(&self) -> (n: usize)
        requires
            self.wf(),
        ensures
            self.pos + n == sp_end(self.doc@, self.pos as int),
            self.pos + n <= self.doc@.len(),
    {
        let mut at = self.pos;
        while at < self.doc.len() && self.doc[at] == SP
            invariant
                self.wf(),
                self.pos <= at <= self.doc@.len(),
                sp_end(self.doc@, self.pos as int) == sp_end(self.doc@, at as int),
            decreases self.doc@.len() - at,
        {
            at += 1;
        }
        at - self.pos
    }

    /// Matches one line break; says whether there was one.
    pub fn nl(&mut self) -> (r: bool)
        requires
            old(self).wf(),
        ensures
            final(self).wf(),
            r == (old(self).pos < old(self).doc@.len() && is_nl(old(self).doc@[old(self).pos as int])),
            *final(self) == old(self).moved(final(self).pos),
            final(self).pos == old(self).pos + nl_len(old(self).doc@, old(self).pos as int),
    {
        match self.peek() {
            Some(c) => {
                if c == LF {
                    self.pos += 1;
                    true
                } else if c == CR {
                    self.pos += 1;
                    if self.pos < self.doc.len() && self.doc[self.pos] == LF {
                        self.pos += 1;
                    }
                    true
                } else {
                    false
                }
            },
            None => false,
        }
    }

    /// Moves to the end of the line.
    pub fn to_line_end(&mut self)
        requires
            old(self).wf(),
        ensures
            final(self).wf(),
            *final(self) == old(self).moved(final(self).pos),
            final(self).pos == line_end(old(self).doc@, old(self).pos as int),
            final(self).pos >= old(self).pos,
    {
        let ghost start = self.pos;
        proof {
            line_end_bounds(self.doc@, start as int);
        }
        while self.pos < self.doc.len() && self.doc[self.pos] != LF && self.doc[self.pos] != CR
            invariant
                self.wf(),
                start <= self.pos,
                *self == old(self).moved(self.pos),
                line_end(self.doc@, start as int) == line_end(self.doc@, self.pos as int),
            decreases self.doc@.len() - self.pos,
        {
            self.pos += 1;
        }
    }

    /// Skips white space and a comment that follows it.
    pub fn blank(&mut self)
        requires
            old(self).wf(),
        ensures
            final(self).wf(),
            *final(self) == old(self).moved(final(self).pos),
            final(self).pos == blank_end(old(self).doc@, old(self).pos as int),
            final(self).pos >= old(self).pos,
    {
        proof {
            blank_end_bounds(self.doc@, self.pos as int);
        }
        self.ws();
        if self.peek() == Some(HASH) {
            self.to_line_end();
        }
    }

    /// Skips blank lines and comments, up to the start of the next line with
    /// content or to the end of the input; gives the number of line breaks
    /// passed. On a line with content the cursor stays where it is.
    pub fn gap(&mut self) -> (lines: usize)
        requires
            old(self).wf(),
        ensures
            final(self).wf(),
            *final(self) == old(self).moved(final(self).pos),
            final(self).pos == gap_end(old(self).doc@, old(self).pos as int),
            lines == gap_lines(old(self).doc@, old(self).pos as int),
            final(self).pos >= old(self).pos,
    {
        let ghost doc = self.doc@;
        let ghost start = self.pos as int;
        let mut lines: usize = 0;
        proof {
            gap_end_bounds(doc, start);
        }
        loop
            invariant
                self.wf(),
                doc == self.doc@,
                start == old(self).pos,
                start <= self.pos,
                *self == old(self).moved(self.pos),
                gap_end(doc, start) == gap_end(doc, self.pos as int),
                gap_lines(doc, start) == lines + gap_lines(doc, self.pos as int),
                lines <= self.pos - start,
            decreases doc.len() - self.pos,
        {
            let save = self.pos;
            proof {
                gap_end_bounds(doc, save as int);
                blank_end_bounds(doc, save as int);
            }
            self.blank();
            let ghost b = self.pos as int;
            if self.nl() {
                lines += 1;
            } else if self.pos >= self.doc.len() {
                return lines;
            } else {
                self.pos = save;
                return lines;
            }
        }
    }

    /// The column of the cursor: its distance from the start of its line.
    pub fn column(&self) -> (r: usize)
        requires
            self.wf(),
        ensures
            r == self.pos - line_start(self.doc@, self.pos as int),
    {
        let mut at = self.pos;
        proof {
            line_start_bounds(self.doc@, at as int);
        }
        while at > 0 && self.doc[at - 1] != LF && self.doc[at - 1] != CR
            invariant
                self.wf(),
                at <= self.pos,
                line_start(self.doc@, self.pos as int) == line_start(self.doc@, at as int),
            decreases at,
        {
            at -= 1;
        }
        self.pos - at
    }
}

} // verus!
