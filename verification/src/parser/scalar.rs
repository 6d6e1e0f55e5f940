//! The scalars: plain, single-quoted, double-quoted, literal and folded.
use crate::parser::base::{PError, Parser};
use crate::parser::grammar::{
    blank_end, blank_end_bounds, flow_end, indicator, is_flow_end, is_indicator, is_nl, is_ws,
    line_end, line_end_bounds, line_start, newline, nl_len, sp_end, white, ws_end, ws_end_bounds,
    BACKSLASH, COLON, CR, DASH, DOT, DQ, GT, HASH, LF, PIPE, PLUS, QUESTION, SP, SQ, TAB,
};
use crate::parser::kind::{in_class, Class};
use crate::text::{char_string, text_of, to_text};
use vstd::prelude::*;
use vstd::utf8::{encode_scalar, is_scalar};

verus! {

/// `char::from_u32`: the character with this code, where the code is that
/// of a character, which is a number up to 0x10FFFF outside the surrogates.
#[verifier::external_body]
fn code_char(code: u32) -> (r: Option<char>)
    ensures
        r is Some <==> is_scalar(code),
        r matches Some(c) ==> c as u32 == code,
{
    char::from_u32(code)
}

/// Appends the UTF-8 encoding of the character.
fn push_char(buf: &mut Vec<u8>, c: char)
    ensures
        final(buf)@ == old(buf)@ + encode_scalar(c as u32),
{
    let s = char_string(c);
    let bytes = s.as_str().as_bytes();
    proof {
        reveal_with_fuel(vstd::utf8::encode_utf8, 2);
        assert(s@.drop_first() =~= Seq::<char>::empty());
        assert(bytes@ =~= encode_scalar(c as u32));
    }
    let mut i: usize = 0;
    while i < bytes.len()
        invariant
            i <= bytes@.len(),
            buf@ == old(buf)@ + bytes@.subrange(0, i as int),
        decreases bytes@.len() - i,
    {
        buf.push(bytes[i]);
        i += 1;
        assert(buf@ =~= old(buf)@ + bytes@.subrange(0, i as int));
    }
    assert(bytes@.subrange(0, i as int) =~= bytes@);
}

/// The character that the letter of a simple escape stands for.
pub open spec fn escape_code(c: u8) -> Option<u32> {
    if c == 0x30 {
        Some(0x00u32)
    } else if c == 0x61 {
        Some(0x07u32)
    } else if c == 0x62 {
        Some(0x08u32)
    } else if c == 0x74 {
        Some(0x09u32)
    } else if c == 0x6e {
        Some(0x0au32)
    } else if c == 0x76 {
        Some(0x0bu32)
    } else if c == 0x66 {
        Some(0x0cu32)
    } else if c == 0x72 {
        Some(0x0du32)
    } else if c == 0x65 {
        Some(0x1bu32)
    } else if c == 0x22 {
        Some(0x22u32)
    } else if c == 0x5c {
        Some(0x5cu32)
    } else if c == 0x4e {
        Some(0x85u32)
    } else if c == 0x5f {
        Some(0xa0u32)
    } else if c == 0x4c {
        Some(0x2028u32)
    } else if c == 0x50 {
        Some(0x2029u32)
    } else {
        None
    }
}

/// The number of hexadecimal digits that follow the letter of a numeric
/// escape: 2 behind `x`, 4 behind `u`, 8 behind `U`.
pub open spec fn escape_digits(c: u8) -> int {
    if c == 0x78 {
        2
    } else if c == 0x75 {
        4
    } else if c == 0x55 {
        8
    } else {
        0
    }
}

/// The value of a hexadecimal digit.
pub open spec fn hex_val(b: u8) -> int {
    if 0x30 <= b <= 0x39 {
        b - 0x30
    } else if 0x61 <= b <= 0x66 {
        b - 0x61 + 10
    } else {
        b - 0x41 + 10
    }
}

/// The number that hexadecimal digits write.
pub open spec fn hex_number(s: Seq<u8>) -> int
    decreases s.len(),
{
    if s.len() == 0 {
        0
    } else {
        hex_number(s.drop_last()) * 16 + hex_val(s.last())
    }
}

/// Every byte is a hexadecimal digit.
pub open spec fn all_hex(s: Seq<u8>) -> bool {
    forall|i: int| 0 <= i < s.len() ==> in_class(Class::Hex, #[trigger] s[i])
}

/// The character that the escape at `at`, the place behind the backslash,
/// stands for, and the length of the escape from there.
pub open spec fn escape_value(doc: Seq<u8>, at: int) -> Option<(u32, int)> {
    if !(0 <= at < doc.len()) {
        None
    } else if escape_code(doc[at]) is Some {
        Some((escape_code(doc[at])->0, 1int))
    } else {
        let k = escape_digits(doc[at]);
        let digits = doc.subrange(at + 1, at + 1 + k);
        if k > 0 && at + 1 + k <= doc.len() && all_hex(digits) && hex_number(digits) <= u32::MAX
            && is_scalar(hex_number(digits) as u32) {
            Some((hex_number(digits) as u32, 1 + k))
        } else {
            None
        }
    }
}

pub proof fn hex_number_bound(s: Seq<u8>)
    requires
        all_hex(s),
    ensures
        0 <= hex_number(s) < pow16(s.len()),
    decreases s.len(),
{
    if s.len() > 0 {
        assert(all_hex(s.drop_last())) by {
            assert forall|i: int| 0 <= i < s.drop_last().len() implies in_class(
                Class::Hex,
                #[trigger] s.drop_last()[i],
            ) by {
                assert(s.drop_last()[i] == s[i]);
            }
        }
        hex_number_bound(s.drop_last());
        assert(in_class(Class::Hex, s[s.len() - 1]));
    }
}

/// 16 to the power of `n`.
pub open spec fn pow16(n: nat) -> int
    decreases n,
{
    if n == 0 {
        1
    } else {
        16 * pow16((n - 1) as nat)
    }
}

fn simple_escape(c: u8) -> (r: Option<u32>)
    ensures
        r == escape_code(c),
{
    if c == 0x30 {
        Some(0x00)
    } else if c == 0x61 {
        Some(0x07)
    } else if c == 0x62 {
        Some(0x08)
    } else if c == 0x74 {
        Some(0x09)
    } else if c == 0x6e {
        Some(0x0a)
    } else if c == 0x76 {
        Some(0x0b)
    } else if c == 0x66 {
        Some(0x0c)
    } else if c == 0x72 {
        Some(0x0d)
    } else if c == 0x65 {
        Some(0x1b)
    } else if c == 0x22 {
        Some(0x22)
    } else if c == 0x5c {
        Some(0x5c)
    } else if c == 0x4e {
        Some(0x85)
    } else if c == 0x5f {
        Some(0xa0)
    } else if c == 0x4c {
        Some(0x2028)
    } else if c == 0x50 {
        Some(0x2029)
    } else {
        None
    }
}

fn hex_digit(b: u8) -> (r: Option<u32>)
    ensures
        r is Some <==> in_class(Class::Hex, b),
        r matches Some(v) ==> v == hex_val(b),
{
    if 0x30 <= b && b <= 0x39 {
        Some((b - 0x30) as u32)
    } else if 0x61 <= b && b <= 0x66 {
        Some((b - 0x61 + 10) as u32)
    } else if 0x41 <= b && b <= 0x46 {
        Some((b - 0x41 + 10) as u32)
    } else {
        None
    }
}

/// The text without the white space at its end, as far as it is longer
/// than `keep`.
pub open spec fn trimmed(buf: Seq<u8>, keep: int) -> Seq<u8>
    decreases buf.len(),
{
    if buf.len() > keep && buf.len() > 0 && is_ws(buf.last()) {
        trimmed(buf.drop_last(), keep)
    } else {
        buf
    }
}

/// Removes white space from the end of `buf`, down to the length `keep`.
pub fn trim(buf: &mut Vec<u8>, keep: usize)
    ensures
        final(buf)@ == trimmed(old(buf)@, keep as int),
{
    while buf.len() > keep && white(buf[buf.len() - 1])
        invariant
            trimmed(buf@, keep as int) == trimmed(old(buf)@, keep as int),
        decreases buf@.len(),
    {
        buf.pop();
    }
}

/// What a fold puts for `lines` line breaks: a space for one, and one line
/// feed less than there were for more.
pub open spec fn folded(lines: int) -> Seq<u8> {
    if lines <= 1 {
        seq![SP]
    } else {
        Seq::new((lines - 1) as nat, |i: int| LF)
    }
}

/// `n` line feeds.
pub open spec fn feeds(n: int) -> Seq<u8> {
    Seq::new(n as nat, |i: int| LF)
}

fn push_feeds(buf: &mut Vec<u8>, n: usize)
    ensures
        final(buf)@ == old(buf)@ + feeds(n as int),
{
    let mut i: usize = 0;
    while i < n
        invariant
            i <= n,
            buf@ == old(buf)@ + feeds(i as int),
        decreases n - i,
    {
        buf.push(LF);
        i += 1;
        assert(buf@ =~= old(buf)@ + feeds(i as int));
    }
    assert(buf@ =~= old(buf)@ + feeds(n as int));
}

fn push_fold(buf: &mut Vec<u8>, lines: usize)
    ensures
        final(buf)@ == old(buf)@ + folded(lines as int),
{
    if lines <= 1 {
        buf.push(SP);
        assert(buf@ =~= old(buf)@ + folded(lines as int));
    } else {
        push_feeds(buf, lines - 1);
        assert(feeds(lines - 1) =~= folded(lines as int));
    }
}

/// Where a fold that starts behind a line break ends: behind the blank
/// lines and the white space that leads the next line.
pub open spec fn fold_rest(doc: Seq<u8>, at: int) -> int
    decreases doc.len() - at,
{
    let w = ws_end(doc, at);
    if 0 <= at <= w < doc.len() && is_nl(doc[w]) {
        fold_rest(doc, w + nl_len(doc, w))
    } else {
        w
    }
}

/// The line breaks that `fold_rest` passes.
pub open spec fn fold_rest_lines(doc: Seq<u8>, at: int) -> int
    decreases doc.len() - at,
{
    let w = ws_end(doc, at);
    if 0 <= at <= w < doc.len() && is_nl(doc[w]) {
        1 + fold_rest_lines(doc, w + nl_len(doc, w))
    } else {
        0
    }
}

/// Where the fold of the line break at `at` ends.
pub open spec fn fold_end(doc: Seq<u8>, at: int) -> int {
    fold_rest(doc, at + nl_len(doc, at))
}

/// The line breaks that the fold of the line break at `at` passes.
pub open spec fn fold_lines(doc: Seq<u8>, at: int) -> int {
    1 + fold_rest_lines(doc, at + nl_len(doc, at))
}

/// The fatal error with this message at the place `at` of the window.
pub open spec fn fatal<T>(base: int, at: int, msg: &'static str) -> Result<T, PError> {
    Err(PError::Terminate((base + at) as u64, msg))
}

/// The rest of a double-quoted scalar from `at` on, with `buf` read so far,
/// of which the first `keep` bytes are safe from trimming: the text and the
/// place behind the closing quote.
pub open spec fn double_rest(doc: Seq<u8>, base: int, at: int, buf: Seq<u8>, keep: int) -> Result<
    (Seq<u8>, int),
    PError,
>
    decreases doc.len() - at,
{
    if !(0 <= at < doc.len()) {
        fatal(base, at, "unclosed quote")
    } else if doc[at] == DQ {
        Ok((buf, at + 1))
    } else if doc[at] == BACKSLASH {
        if at + 1 >= doc.len() {
            fatal(base, at + 1, "unclosed quote")
        } else if is_nl(doc[at + 1]) {
            let e = fold_end(doc, at + 1);
            if at < e <= doc.len() {
                double_rest(doc, base, e, buf, buf.len() as int)
            } else {
                fatal(base, at, "unclosed quote")
            }
        } else {
            match escape_value(doc, at + 1) {
                Some((code, len)) => {
                    let b = buf + encode_scalar(code);
                    if len > 0 {
                        double_rest(doc, base, at + 1 + len, b, b.len() as int)
                    } else {
                        fatal(base, at, "unclosed quote")
                    }
                },
                None => fatal(base, at + 1, "invalid escape"),
            }
        }
    } else if is_nl(doc[at]) {
        let b = trimmed(buf, keep) + folded(fold_lines(doc, at));
        let e = fold_end(doc, at);
        if at < e <= doc.len() {
            double_rest(doc, base, e, b, b.len() as int)
        } else {
            fatal(base, at, "unclosed quote")
        }
    } else {
        double_rest(
            doc,
            base,
            at + 1,
            buf.push(doc[at]),
            if is_ws(doc[at]) {
                keep
            } else {
                buf.len() as int + 1
            },
        )
    }
}

/// A double-quoted scalar at `at`: its text, with escapes resolved and line
/// breaks folded, and the place behind it. It is a mismatch where no quote
/// stands at `at`, and fatal where the quote is not closed or an escape is
/// invalid.
pub open spec fn double_text(doc: Seq<u8>, base: int, at: int) -> Result<(Seq<u8>, int), PError> {
    if 0 <= at < doc.len() && doc[at] == DQ {
        double_rest(doc, base, at + 1, Seq::<u8>::empty(), 0)
    } else {
        Err(PError::Mismatch)
    }
}

/// The rest of a single-quoted scalar from `at` on.
pub open spec fn single_rest(doc: Seq<u8>, base: int, at: int, buf: Seq<u8>, keep: int) -> Result<
    (Seq<u8>, int),
    PError,
>
    decreases doc.len() - at,
{
    if !(0 <= at < doc.len()) {
        fatal(base, at, "unclosed quote")
    } else if doc[at] == SQ {
        if at + 1 < doc.len() && doc[at + 1] == SQ {
            single_rest(doc, base, at + 2, buf.push(SQ), buf.len() as int + 1)
        } else {
            Ok((buf, at + 1))
        }
    } else if is_nl(doc[at]) {
        let b = trimmed(buf, keep) + folded(fold_lines(doc, at));
        let e = fold_end(doc, at);
        if at < e <= doc.len() {
            single_rest(doc, base, e, b, b.len() as int)
        } else {
            fatal(base, at, "unclosed quote")
        }
    } else {
        single_rest(
            doc,
            base,
            at + 1,
            buf.push(doc[at]),
            if is_ws(doc[at]) {
                keep
            } else {
                buf.len() as int + 1
            },
        )
    }
}

/// A single-quoted scalar at `at`: its text, with doubled quotes resolved
/// and line breaks folded, and the place behind it.
pub open spec fn single_text(doc: Seq<u8>, base: int, at: int) -> Result<(Seq<u8>, int), PError> {
    if 0 <= at < doc.len() && doc[at] == SQ {
        single_rest(doc, base, at + 1, Seq::<u8>::empty(), 0)
    } else {
        Err(PError::Mismatch)
    }
}

pub proof fn double_rest_bounds(doc: Seq<u8>, base: int, at: int, buf: Seq<u8>, keep: int)
    requires
        0 <= at,
    ensures
        double_rest(doc, base, at, buf, keep) matches Ok(got) ==> at < got.1 <= doc.len(),
        !(double_rest(doc, base, at, buf, keep) matches Err(PError::Mismatch)),
    decreases doc.len() - at,
{
    if 0 <= at < doc.len() {
        if doc[at] == DQ {
        } else if doc[at] == BACKSLASH {
            if at + 1 < doc.len() {
                if is_nl(doc[at + 1]) {
                    let e = fold_end(doc, at + 1);
                    if at < e <= doc.len() {
                        double_rest_bounds(doc, base, e, buf, buf.len() as int);
                    }
                } else {
                    match escape_value(doc, at + 1) {
                        Some((code, len)) => {
                            let b = buf + encode_scalar(code);
                            if len > 0 {
                                double_rest_bounds(doc, base, at + 1 + len, b, b.len() as int);
                            }
                        },
                        None => {},
                    }
                }
            }
        } else if is_nl(doc[at]) {
            let b = trimmed(buf, keep) + folded(fold_lines(doc, at));
            let e = fold_end(doc, at);
            if at < e <= doc.len() {
                double_rest_bounds(doc, base, e, b, b.len() as int);
            }
        } else {
            double_rest_bounds(
                doc,
                base,
                at + 1,
                buf.push(doc[at]),
                if is_ws(doc[at]) {
                    keep
                } else {
                    buf.len() as int + 1
                },
            );
        }
    }
}

pub proof fn single_rest_bounds(doc: Seq<u8>, base: int, at: int, buf: Seq<u8>, keep: int)
    requires
        0 <= at,
    ensures
        single_rest(doc, base, at, buf, keep) matches Ok(got) ==> at < got.1 <= doc.len(),
        !(single_rest(doc, base, at, buf, keep) matches Err(PError::Mismatch)),
    decreases doc.len() - at,
{
    if 0 <= at < doc.len() {
        if doc[at] == SQ {
            if at + 1 < doc.len() && doc[at + 1] == SQ {
                single_rest_bounds(doc, base, at + 2, buf.push(SQ), buf.len() as int + 1);
            }
        } else if is_nl(doc[at]) {
            let b = trimmed(buf, keep) + folded(fold_lines(doc, at));
            let e = fold_end(doc, at);
            if at < e <= doc.len() {
                single_rest_bounds(doc, base, e, b, b.len() as int);
            }
        } else {
            single_rest_bounds(
                doc,
                base,
                at + 1,
                buf.push(doc[at]),
                if is_ws(doc[at]) {
                    keep
                } else {
                    buf.len() as int + 1
                },
            );
        }
    }
}

/// A plain scalar can start at `at`: with a byte that is no indicator,
/// white space or line break; or with `-`, `?` or `:` before a byte that
/// does not end the scalar.
pub open spec fn plain_start(d: Seq<u8>, p: int, flow: bool) -> bool {
    &&& 0 <= p < d.len()
    &&& !is_ws(d[p]) && !is_nl(d[p])
    &&& if d[p] == DASH || d[p] == QUESTION || d[p] == COLON {
        p + 1 < d.len() && !is_ws(d[p + 1]) && !is_nl(d[p + 1]) && !(flow && is_flow_end(d[p + 1]))
    } else {
        !is_indicator(d[p])
    }
}

/// A plain scalar ends at `at`, on this line: at the end of the input, at a
/// line break, at a colon before a separator, at a `#` behind white space
/// and, in a flow collection, at one of its indicators or at a colon
/// before one. With `first`, at the start of a line, a `#` does not count.
pub open spec fn plain_end(d: Seq<u8>, p: int, flow: bool, first: bool) -> bool {
    if !(0 <= p < d.len()) {
        true
    } else if is_nl(d[p]) {
        true
    } else if d[p] == COLON {
        p + 1 >= d.len() || is_ws(d[p + 1]) || is_nl(d[p + 1]) || (flow && is_flow_end(d[p + 1]))
    } else if d[p] == HASH {
        !first && p > 0 && is_ws(d[p - 1])
    } else {
        flow && is_flow_end(d[p])
    }
}

/// The first place at or behind `at` at which the plain scalar ends on
/// this line.
pub open spec fn chunk_end(d: Seq<u8>, at: int, flow: bool) -> int
    decreases d.len() - at,
{
    if 0 <= at < d.len() && !plain_end(d, at, flow, false) {
        chunk_end(d, at + 1, flow)
    } else {
        at
    }
}

pub proof fn chunk_end_bounds(d: Seq<u8>, at: int, flow: bool)
    requires
        0 <= at <= d.len(),
    ensures
        at <= chunk_end(d, at, flow) <= d.len(),
    decreases d.len() - at,
{
    if at < d.len() && !plain_end(d, at, flow, false) {
        chunk_end_bounds(d, at + 1, flow);
    }
}

/// The start of the first line at or behind the line start `at` that holds
/// more than white space.
pub open spec fn blank_skip(d: Seq<u8>, at: int) -> int
    decreases d.len() - at,
{
    let w = ws_end(d, at);
    if 0 <= at <= w < d.len() && is_nl(d[w]) {
        blank_skip(d, w + nl_len(d, w))
    } else {
        at
    }
}

/// The lines that `blank_skip` passes.
pub open spec fn blank_count(d: Seq<u8>, at: int) -> int
    decreases d.len() - at,
{
    let w = ws_end(d, at);
    if 0 <= at <= w < d.len() && is_nl(d[w]) {
        1 + blank_count(d, w + nl_len(d, w))
    } else {
        0
    }
}

/// A document marker stands at `p`: three times the byte `b` at the start
/// of a line, before white space, a line break or the end.
pub open spec fn marker_at(d: Seq<u8>, p: int, b: u8) -> bool {
    &&& line_start(d, p) == p
    &&& 0 <= p
    &&& p + 3 <= d.len()
    &&& d[p] == b && d[p + 1] == b && d[p + 2] == b
    &&& (p + 3 == d.len() || is_ws(d[p + 3]) || is_nl(d[p + 3]))
}

/// The lines of a plain scalar from `at` on, with `buf` read so far: the
/// text, whether it spans lines, and the place behind it.
///
/// The line goes up to where the scalar ends on it, and loses the white
/// space at its end. The next line that is not blank continues the scalar,
/// behind a fold, where it is indented by `min_col` spaces or more, is no
/// document marker and starts with neither `#` nor what ends a scalar.
pub open spec fn plain_lines(
    d: Seq<u8>,
    at: int,
    buf: Seq<u8>,
    multi: bool,
    flow: bool,
    min_col: int,
    single: bool,
) -> (Seq<u8>, bool, int)
    decreases d.len() - at,
{
    let e = chunk_end(d, at, flow);
    let b = trimmed(buf + d.subrange(at, e), 0);
    if single || !(0 <= at <= e < d.len()) || !is_nl(d[e]) {
        (b, multi, e)
    } else {
        let line = blank_skip(d, e + nl_len(d, e));
        let lines = 1 + blank_count(d, e + nl_len(d, e));
        let n = sp_end(d, line) - line;
        let c = ws_end(d, line);
        let fits = n >= min_col && !marker_at(d, line, DASH) && !marker_at(d, line, DOT);
        if !fits || !(at < c < d.len()) || d[c] == HASH || plain_end(d, c, flow, true) {
            (b, multi, e)
        } else {
            plain_lines(d, c, b + folded(lines), true, flow, min_col, single)
        }
    }
}

/// A plain scalar at `at`: its text with line breaks folded, whether it
/// spans lines, and the place behind it; nothing where no plain scalar can
/// start there.
pub open spec fn plain_text(d: Seq<u8>, at: int, flow: bool, min_col: int, single: bool) -> Option<
    (Seq<u8>, bool, int),
> {
    if plain_start(d, at, flow) {
        Some(plain_lines(d, at + 1, seq![d[at]], false, flow, min_col, single))
    } else {
        None
    }
}

/// What the header of a block scalar says.
pub ghost struct Head {
    /// `-`: no line break at the end.
    pub strip: bool,
    /// `+`: every line break at the end.
    pub keep: bool,
    /// The indentation that a digit gives, or 0.
    pub explicit: int,
    /// The place behind the indicators.
    pub end: int,
}

/// The body of a block scalar, as far as it has been read.
pub ghost struct Body {
    /// The text so far.
    pub buf: Seq<u8>,
    /// Whether a line with content was read.
    pub have: bool,
    /// The line breaks since the last content.
    pub breaks: int,
    /// Whether the last line with content started with white space.
    pub more: bool,
    /// Whether the indentation is still to be found.
    pub auto: bool,
    /// The indentation of the lines.
    pub indent: int,
    /// The place behind the body.
    pub end: int,
}

/// Up to `left` indicators of a block scalar header from `at` on: one of
/// `-` and `+`, and a digit from 1 to 9, in either order.
pub open spec fn header(d: Seq<u8>, at: int, h: Head, left: int) -> Head
    decreases left,
{
    if left <= 0 {
        Head { end: at, ..h }
    } else if 0 <= at < d.len() && d[at] == DASH && !h.strip && !h.keep {
        header(d, at + 1, Head { strip: true, ..h }, left - 1)
    } else if 0 <= at < d.len() && d[at] == PLUS && !h.strip && !h.keep {
        header(d, at + 1, Head { keep: true, ..h }, left - 1)
    } else if 0 <= at < d.len() && 0x31 <= d[at] <= 0x39 && h.explicit == 0 {
        header(d, at + 1, Head { explicit: d[at] - 0x30, ..h }, left - 1)
    } else {
        header(d, at, h, left - 1)
    }
}

/// The lines of a block scalar from the line start `at` on.
///
/// A blank line counts as a line break. The first line with content sets
/// the indentation where the header gave none, if it is indented by
/// `min_col` spaces or more. A line that is indented by less than the
/// indentation, or a document marker, ends the scalar. The content of a
/// line is what stands behind the indentation. Before it stand the line
/// breaks since the last content: all of them in a literal scalar, before
/// the first content and next to a line that starts with white space; else
/// a fold.
pub open spec fn block_lines(d: Seq<u8>, at: int, b: Body, literal: bool, min_col: int) -> Body
    decreases d.len() - at,
{
    if !(0 <= at < d.len()) {
        Body { end: at, ..b }
    } else {
        let p = sp_end(d, at);
        let n = p - at;
        if at <= p && (p >= d.len() || is_nl(d[p])) {
            if p < d.len() {
                block_lines(
                    d,
                    p + nl_len(d, p),
                    Body { breaks: b.breaks + 1, ..b },
                    literal,
                    min_col,
                )
            } else {
                Body { end: p, ..b }
            }
        } else {
            let auto = b.auto && !(n >= min_col);
            let indent = if b.auto && n >= min_col {
                n
            } else {
                b.indent
            };
            if auto || n < indent || indent < 0 || (n == 0 && (marker_at(d, at, DASH) || marker_at(
                d,
                at,
                DOT,
            ))) {
                Body { end: at, ..b }
            } else {
                let c = at + indent;
                let e = line_end(d, c);
                let more = is_ws(d[c]);
                let joint = if !b.have || literal || b.more || more {
                    feeds(b.breaks)
                } else {
                    folded(b.breaks)
                };
                let buf = b.buf + joint + d.subrange(c, e);
                if at <= c <= e < d.len() && is_nl(d[e]) {
                    block_lines(
                        d,
                        e + nl_len(d, e),
                        Body { buf, have: true, breaks: 1, more, auto, indent, end: b.end },
                        literal,
                        min_col,
                    )
                } else {
                    Body { buf, have: true, breaks: 0, more, auto, indent, end: e }
                }
            }
        }
    }
}

/// The text of a block scalar once its body is read: with `+` every line
/// break at the end, with `-` none, and else one where there is content
/// and a line break behind it.
pub open spec fn chomped(h: Head, b: Body) -> Seq<u8> {
    if h.keep {
        b.buf + feeds(b.breaks)
    } else if !h.strip && b.have && b.breaks >= 1 {
        b.buf.push(LF)
    } else {
        b.buf
    }
}

/// A block scalar at `at`: its text and the place behind it. It is a
/// mismatch where neither `|` nor `>` stands at `at`, and fatal where the
/// header line holds more than indicators and a comment.
pub open spec fn block_text(d: Seq<u8>, base: int, at: int, min_col: int) -> Result<
    (Seq<u8>, int),
    PError,
> {
    if !(0 <= at < d.len() && (d[at] == PIPE || d[at] == GT)) {
        Err(PError::Mismatch)
    } else {
        let h = header(d, at + 1, Head { strip: false, keep: false, explicit: 0, end: at + 1 }, 2);
        let e = blank_end(d, h.end);
        if e < d.len() && !is_nl(d[e]) {
            fatal(base, e, "invalid block scalar header")
        } else {
            let body = e + nl_len(d, e);
            let parent = if min_col > 0 {
                min_col - 1
            } else {
                0
            };
            let indent = if parent + h.explicit <= usize::MAX {
                parent + h.explicit
            } else {
                usize::MAX as int
            };
            let b = block_lines(
                d,
                body,
                Body {
                    buf: Seq::<u8>::empty(),
                    have: false,
                    breaks: 0,
                    more: false,
                    auto: h.explicit == 0,
                    indent,
                    end: body,
                },
                d[at] == PIPE,
                min_col,
            );
            Ok((chomped(h, b), b.end))
        }
    }
}

impl<'a> Parser<'a> {
    /// Decodes the escape whose letter stands at the cursor, behind the
    /// backslash, and appends the character to `buf` in UTF-8.
    pub fn escape(&mut self, buf: &mut Vec<u8>) -> (r: Result<(), PError>)
        requires
            old(self).wf(),
        ensures
            final(self).kept(old(self)),
            *final(self) == old(self).moved(final(self).pos),
            match r {
                Ok(()) => match escape_value(old(self).doc@, old(self).pos as int) {
                    Some((code, len)) => final(self).pos == old(self).pos + len && final(buf)@
                        == old(buf)@ + encode_scalar(code),
                    None => false,
                },
                Err(e) => escape_value(old(self).doc@, old(self).pos as int) is None && e
                    == PError::Terminate(old(self).offset() as u64, "invalid escape")
                    && *final(self) == *old(self) && final(buf)@ == old(buf)@,
            },
    {
        let ghost doc = self.doc@;
        let ghost at = self.pos as int;
        let c = match self.peek() {
            Some(c) => c,
            None => {
                return self.err("invalid escape");
            },
        };
        match simple_escape(c) {
            Some(code) => {
                match code_char(code) {
                    Some(ch) => {
                        push_char(buf, ch);
                        self.pos += 1;
                        return Ok(());
                    },
                    None => {
                        assert(false);
                        return self.err("invalid escape");
                    },
                }
            },
            None => {},
        }
        let k: usize = if c == 0x78 {
            2
        } else if c == 0x75 {
            4
        } else if c == 0x55 {
            8
        } else {
            0
        };
        if k == 0 || k > self.doc.len() - self.pos - 1 {
            return self.err("invalid escape");
        }
        let mut value: u32 = 0;
        let mut i: usize = 0;
        let ghost digits = doc.subrange(at + 1, at + 1 + k);
        while i < k
            invariant
                i <= k <= 8,
                self.wf(),
                *self == *old(self),
                buf@ == old(buf)@,
                escape_code(doc[at]) is None,
                k == escape_digits(doc[at]),
                doc == self.doc@,
                at == self.pos,
                at + 1 + k <= doc.len(),
                digits == doc.subrange(at + 1, at + 1 + k),
                all_hex(digits.subrange(0, i as int)),
                value == hex_number(digits.subrange(0, i as int)),
                value < pow16(i as nat),
            decreases k - i,
        {
            let d = match hex_digit(self.doc[self.pos + 1 + i]) {
                Some(d) => d,
                None => {
                    assert(digits[i as int] == doc[at + 1 + i]);
                    assert(!all_hex(digits));
                    return self.err("invalid escape");
                },
            };
            proof {
                let next = digits.subrange(0, i + 1);
                assert(next.drop_last() =~= digits.subrange(0, i as int));
                assert(next.last() == doc[at + 1 + i]);
                pow16_monotone(i as nat, 7);
                assert(pow16(7) == 0x1000_0000int) by {
                    reveal_with_fuel(pow16, 9);
                }
                assert forall|j: int| 0 <= j < next.len() implies in_class(
                    Class::Hex,
                    #[trigger] next[j],
                ) by {
                    if j < i {
                        assert(next[j] == digits.subrange(0, i as int)[j]);
                    }
                }
            }
            value = value * 16 + d;
            i += 1;
        }
        assert(digits.subrange(0, k as int) =~= digits);
        match code_char(value) {
            Some(ch) => {
                push_char(buf, ch);
                self.pos += 1 + k;
                Ok(())
            },
            None => self.err("invalid escape"),
        }
    }

    /// Passes the line break at the cursor, the blank lines behind it and
    /// the white space that leads the next line; gives the number of line
    /// breaks passed.
    pub fn fold_break(&mut self) -> (lines: usize)
        requires
            old(self).wf(),
            old(self).pos < old(self).doc@.len(),
            is_nl(old(self).doc@[old(self).pos as int]),
        ensures
            final(self).wf(),
            *final(self) == old(self).moved(final(self).pos),
            final(self).pos == fold_end(old(self).doc@, old(self).pos as int),
            lines == fold_lines(old(self).doc@, old(self).pos as int),
            final(self).pos > old(self).pos,
            lines >= 1,
    {
        let ghost doc = self.doc@;
        let ghost start = self.pos as int;
        self.nl();
        let ghost first = self.pos as int;
        let mut lines: usize = 1;
        loop
            invariant
                self.wf(),
                doc == self.doc@,
                *self == old(self).moved(self.pos),
                self.pos >= first > start,
                start == old(self).pos,
                first == start + nl_len(doc, start),
                1 <= lines <= self.pos - start,
                fold_rest(doc, first) == fold_rest(doc, self.pos as int),
                fold_rest_lines(doc, first) + 1 == fold_rest_lines(doc, self.pos as int) + lines,
            decreases self.doc@.len() - self.pos,
        {
            proof {
                ws_end_bounds(doc, self.pos as int);
            }
            self.ws();
            if self.nl() {
                lines += 1;
            } else {
                return lines;
            }
        }
    }

    /// Matches a double-quoted scalar and gives its text, with escapes
    /// resolved and line breaks folded.
    pub fn double_quoted(&mut self) -> (r: Result<String, PError>)
        requires
            old(self).wf(),
        ensures
            final(self).wf(),
            *final(self) == old(self).moved(final(self).pos),
            final(self).read(
                old(self),
                r,
                double_text(old(self).doc@, old(self).consumed as int, old(self).pos as int),
            ),
            final(self).produced(old(self), r),
            r matches Err(PError::Mismatch) <==> !old(self).at(DQ),
    {
        if self.peek() != Some(DQ) {
            return Err(PError::Mismatch);
        }
        let ghost doc = self.doc@;
        let ghost base = self.consumed as int;
        let ghost start = self.pos as int;
        proof {
            double_rest_bounds(doc, base, start + 1, Seq::<u8>::empty(), 0);
        }
        self.pos += 1;
        let mut buf: Vec<u8> = Vec::new();
        let mut keep: usize = 0;
        loop
            invariant
                self.wf(),
                doc == self.doc@,
                base == self.consumed,
                *self == old(self).moved(self.pos),
                self.pos > start,
                start == old(self).pos,
                old(self).at(DQ),
                double_rest(doc, base, self.pos as int, buf@, keep as int) == double_rest(
                    doc,
                    base,
                    start + 1,
                    Seq::<u8>::empty(),
                    0,
                ),
            decreases self.doc@.len() - self.pos,
        {
            let c = match self.peek() {
                Some(c) => c,
                None => {
                    return self.err("unclosed quote");
                },
            };
            if c == DQ {
                self.pos += 1;
                return Ok(to_text(buf.as_slice()));
            } else if c == BACKSLASH {
                self.pos += 1;
                match self.peek() {
                    Some(e) => {
                        if newline(e) {
                            self.fold_break();
                        } else {
                            match self.escape(&mut buf) {
                                Ok(()) => {},
                                Err(e) => {
                                    return Err(e);
                                },
                            }
                        }
                        keep = buf.len();
                    },
                    None => {
                        return self.err("unclosed quote");
                    },
                }
            } else if newline(c) {
                trim(&mut buf, keep);
                let lines = self.fold_break();
                push_fold(&mut buf, lines);
                keep = buf.len();
            } else {
                buf.push(c);
                self.pos += 1;
                if !white(c) {
                    keep = buf.len();
                }
            }
        }
    }

    /// Matches a single-quoted scalar and gives its text, with doubled
    /// quotes resolved and line breaks folded.
    pub fn single_quoted(&mut self) -> (r: Result<String, PError>)
        requires
            old(self).wf(),
        ensures
            final(self).wf(),
            *final(self) == old(self).moved(final(self).pos),
            final(self).read(
                old(self),
                r,
                single_text(old(self).doc@, old(self).consumed as int, old(self).pos as int),
            ),
            final(self).produced(old(self), r),
            r matches Err(PError::Mismatch) <==> !old(self).at(SQ),
    {
        if self.peek() != Some(SQ) {
            return Err(PError::Mismatch);
        }
        let ghost doc = self.doc@;
        let ghost base = self.consumed as int;
        let ghost start = self.pos as int;
        proof {
            single_rest_bounds(doc, base, start + 1, Seq::<u8>::empty(), 0);
        }
        self.pos += 1;
        let mut buf: Vec<u8> = Vec::new();
        let mut keep: usize = 0;
        loop
            invariant
                self.wf(),
                doc == self.doc@,
                base == self.consumed,
                *self == old(self).moved(self.pos),
                self.pos > start,
                start == old(self).pos,
                old(self).at(SQ),
                single_rest(doc, base, self.pos as int, buf@, keep as int) == single_rest(
                    doc,
                    base,
                    start + 1,
                    Seq::<u8>::empty(),
                    0,
                ),
            decreases self.doc@.len() - self.pos,
        {
            let c = match self.peek() {
                Some(c) => c,
                None => {
                    return self.err("unclosed quote");
                },
            };
            if c == SQ {
                self.pos += 1;
                if self.peek() == Some(SQ) {
                    self.pos += 1;
                    buf.push(SQ);
                    keep = buf.len();
                } else {
                    return Ok(to_text(buf.as_slice()));
                }
            } else if newline(c) {
                trim(&mut buf, keep);
                let lines = self.fold_break();
                push_fold(&mut buf, lines);
                keep = buf.len();
            } else {
                buf.push(c);
                self.pos += 1;
                if !white(c) {
                    keep = buf.len();
                }
            }
        }
    }

    /// How a production that reads text leaves the parser, given what the
    /// grammar says of the input: with the text and the cursor behind it, or
    /// with the error, and then at the start where the error is a mismatch.
    pub open spec fn read(
        &self,
        before: &Self,
        r: Result<String, PError>,
        want: Result<(Seq<u8>, int), PError>,
    ) -> bool {
        match want {
            Ok((bytes, end)) => r matches Ok(s) && s@ == text_of(bytes) && self.pos == end
                && before.pos < end <= before.doc@.len(),
            Err(e) => r == Err::<String, PError>(e) && (e is Mismatch ==> self.pos == before.pos),
        }
    }

    /// Whether a plain scalar can start at the cursor.
    pub fn plain_first(&self, flow: bool) -> (r: bool)
        requires
            self.wf(),
        ensures
            r == plain_start(self.doc@, self.pos as int, flow),
    {
        match self.peek() {
            None => false,
            Some(c) => {
                if white(c) || newline(c) {
                    false
                } else if c == DASH || c == QUESTION || c == COLON {
                    match self.peek_at(1) {
                        None => false,
                        Some(n) => !white(n) && !newline(n) && !(flow && flow_end(n)),
                    }
                } else {
                    !indicator(c)
                }
            },
        }
    }

    /// Whether a plain scalar ends at the cursor, on this line.
    pub fn plain_stop(&self, flow: bool, first: bool) -> (r: bool)
        requires
            self.wf(),
        ensures
            r == plain_end(self.doc@, self.pos as int, flow, first),
    {
        match self.peek() {
            None => true,
            Some(c) => {
                if newline(c) {
                    true
                } else if c == COLON {
                    self.sep_at(1) || (flow && match self.peek_at(1) {
                        Some(n) => flow_end(n),
                        None => true,
                    })
                } else if c == HASH {
                    !first && self.pos > 0 && white(self.doc[self.pos - 1])
                } else {
                    flow && flow_end(c)
                }
            },
        }
    }

    /// Matches a plain scalar and gives its text, with line breaks folded,
    /// and whether it spans more than one line.
    ///
    /// A line continues the scalar where it is indented by `min_col` spaces
    /// or more, holds no comment and no document marker, and, with `single`,
    /// never.
    pub fn plain(&mut self, flow: bool, min_col: usize, single: bool) -> (r: Result<
        (Vec<u8>, bool),
        PError,
    >)
        requires
            old(self).wf(),
        ensures
            final(self).produced(old(self), r),
            *final(self) == old(self).moved(final(self).pos),
            r is Err ==> r == Err::<(Vec<u8>, bool), PError>(PError::Mismatch),
            match plain_text(old(self).doc@, old(self).pos as int, flow, min_col as int, single) {
                Some(want) => r matches Ok(got) && got.0@ == want.0 && got.1 == want.1
                    && final(self).pos == want.2 && final(self).pos > old(self).pos,
                None => r is Err,
            },
    {
        if !self.plain_first(flow) {
            return Err(PError::Mismatch);
        }
        let ghost doc = self.doc@;
        let ghost start = self.pos as int;
        let ghost goal = plain_text(doc, start, flow, min_col as int, single)->0;
        let mut buf: Vec<u8> = Vec::new();
        let mut multi = false;
        let c0 = self.doc[self.pos];
        buf.push(c0);
        self.pos += 1;
        assert(buf@ =~= seq![doc[start]]);
        loop
            invariant
                self.wf(),
                doc == self.doc@,
                *self == old(self).moved(self.pos),
                self.pos > start,
                start == old(self).pos,
                plain_start(doc, start, flow),
                goal == plain_lines(doc, self.pos as int, buf@, multi, flow, min_col as int, single),
                goal == plain_text(doc, start, flow, min_col as int, single)->0,
            decreases self.doc@.len() - self.pos,
        {
            let ghost head = self.pos as int;
            let ghost buf0 = buf@;
            proof {
                chunk_end_bounds(doc, head, flow);
            }
            while !self.plain_stop(flow, false)
                invariant
                    self.wf(),
                    doc == self.doc@,
                    *self == old(self).moved(self.pos),
                    self.pos > start,
                    self.pos >= head,
                    chunk_end(doc, head, flow) == chunk_end(doc, self.pos as int, flow),
                    self.pos <= chunk_end(doc, head, flow) <= doc.len(),
                    buf@ == buf0 + doc.subrange(head, self.pos as int),
                decreases self.doc@.len() - self.pos,
            {
                buf.push(self.doc[self.pos]);
                self.pos += 1;
                proof {
                    chunk_end_bounds(doc, self.pos as int, flow);
                }
                assert(buf@ =~= buf0 + doc.subrange(head, self.pos as int));
            }
            let ghost e = self.pos as int;
            assert(e == chunk_end(doc, head, flow));
            trim(&mut buf, 0);
            if single {
                return Ok((buf, multi));
            }
            match self.peek() {
                Some(c) => {
                    if !newline(c) {
                        return Ok((buf, multi));
                    }
                },
                None => {
                    return Ok((buf, multi));
                },
            }
            let save = self.pos;
            self.nl();
            let ghost first = self.pos as int;
            let mut lines: usize = 1;
            let mut n: usize = 0;
            let mut more = true;
            while more
                invariant
                    self.wf(),
                    doc == self.doc@,
                    *self == old(self).moved(self.pos),
                    self.pos > save > start,
                    save == e,
                    e >= head,
                    first == e + nl_len(doc, e),
                    self.pos >= first,
                    1 <= lines <= self.pos - save,
                    more ==> blank_skip(doc, first) == blank_skip(doc, self.pos as int),
                    more ==> blank_count(doc, first) + 1 == blank_count(doc, self.pos as int) + lines,
                    !more ==> self.pos == blank_skip(doc, first) && lines == blank_count(doc, first)
                        + 1 && self.pos + n == sp_end(doc, self.pos as int),
                decreases self.doc@.len() - self.pos + (if more { 1int } else { 0int }),
            {
                proof {
                    ws_end_bounds(doc, self.pos as int);
                }
                n = self.spaces();
                let line = self.pos;
                self.ws();
                if self.nl() {
                    lines += 1;
                } else {
                    self.pos = line;
                    more = false;
                }
            }
            let ghost line = self.pos as int;
            let fits = n >= min_col && !self.marker(DASH) && !self.marker(DOT);
            proof {
                ws_end_bounds(doc, line);
            }
            self.ws();
            if !fits || self.peek() == Some(HASH) || self.plain_stop(flow, true) {
                self.pos = save;
                return Ok((buf, multi));
            }
            push_fold(&mut buf, lines);
            multi = true;
        }
    }

    /// Matches a literal (`|`) or folded (`>`) block scalar and gives its
    /// text.
    ///
    /// The lines of the scalar are indented by `min_col` spaces or more: by
    /// as many as the first of them that is not blank, or by what the header
    /// says.
    pub fn block_scalar(&mut self, min_col: usize) -> (r: Result<String, PError>)
        requires
            old(self).wf(),
        ensures
            final(self).wf(),
            *final(self) == old(self).moved(final(self).pos),
            final(self).read(
                old(self),
                r,
                block_text(
                    old(self).doc@,
                    old(self).consumed as int,
                    old(self).pos as int,
                    min_col as int,
                ),
            ),
            final(self).produced(old(self), r),
            r matches Err(PError::Mismatch) <==> !(old(self).at(PIPE) || old(self).at(GT)),
    {
        let literal = match self.peek() {
            Some(c) => {
                if c == PIPE {
                    true
                } else if c == GT {
                    false
                } else {
                    return Err(PError::Mismatch);
                }
            },
            None => {
                return Err(PError::Mismatch);
            },
        };
        let ghost doc = self.doc@;
        let ghost base = self.consumed as int;
        let ghost start = self.pos as int;
        self.pos += 1;
        let mut strip = false;
        let mut keep = false;
        let mut explicit: usize = 0;
        let mut k: usize = 0;
        while k < 2
            invariant
                self.wf(),
                doc == self.doc@,
                *self == old(self).moved(self.pos),
                self.pos > start,
                start == old(self).pos,
                explicit <= 9,
                k <= 2,
                header(doc, start + 1, Head { strip: false, keep: false, explicit: 0, end: start + 1 }, 2)
                    == header(
                    doc,
                    self.pos as int,
                    Head { strip, keep, explicit: explicit as int, end: start + 1 },
                    2 - k,
                ),
            decreases 2 - k,
        {
            match self.peek() {
                Some(c) => {
                    if c == DASH && !strip && !keep {
                        strip = true;
                        self.pos += 1;
                    } else if c == PLUS && !strip && !keep {
                        keep = true;
                        self.pos += 1;
                    } else if 0x31 <= c && c <= 0x39 && explicit == 0 {
                        explicit = (c - 0x30) as usize;
                        self.pos += 1;
                    }
                },
                None => {},
            }
            k += 1;
        }
        let ghost head = header(
            doc,
            start + 1,
            Head { strip: false, keep: false, explicit: 0, end: start + 1 },
            2,
        );
        assert(head == Head { strip, keep, explicit: explicit as int, end: self.pos as int });
        proof {
            blank_end_bounds(doc, self.pos as int);
        }
        self.blank();
        if !self.nl() && self.pos < self.doc.len() {
            return self.err("invalid block scalar header");
        }
        let ghost body = self.pos as int;
        let base_col: usize = if min_col > 0 {
            min_col - 1
        } else {
            0
        };
        let mut auto = explicit == 0;
        let mut indent: usize = if base_col <= usize::MAX - explicit {
            base_col + explicit
        } else {
            usize::MAX
        };
        let mut buf: Vec<u8> = Vec::new();
        let mut have = false;
        let mut breaks: usize = 0;
        let mut prev_more = false;
        let mut done = false;
        let ghost first = Body {
            buf: Seq::<u8>::empty(),
            have: false,
            breaks: 0,
            more: false,
            auto,
            indent: indent as int,
            end: body,
        };
        let ghost goal = block_lines(doc, body, first, literal, min_col as int);
        while !done && self.pos < self.doc.len()
            invariant
                self.wf(),
                doc == self.doc@,
                base == self.consumed,
                *self == old(self).moved(self.pos),
                self.pos > start,
                start == old(self).pos,
                breaks <= self.pos,
                old(self).at(PIPE) || old(self).at(GT),
                body > start,
                !done ==> goal == block_lines(
                    doc,
                    self.pos as int,
                    Body {
                        buf: buf@,
                        have,
                        breaks: breaks as int,
                        more: prev_more,
                        auto,
                        indent: indent as int,
                        end: body,
                    },
                    literal,
                    min_col as int,
                ),
                done ==> goal.buf == buf@ && goal.have == have && goal.breaks == breaks
                    && goal.end == self.pos,
            decreases self.doc@.len() - self.pos + (if done { 0int } else { 1int }),
        {
            let line = self.pos;
            let n = self.spaces();
            if self.sep_at(n) && !(self.peek_at(n) == Some(SP)) && !(self.peek_at(n) == Some(TAB)) {
                self.pos += n;
                if self.nl() {
                    breaks += 1;
                } else {
                    done = true;
                }
            } else {
                if auto && n >= min_col {
                    indent = n;
                    auto = false;
                }
                if auto || n < indent || (n == 0 && (self.marker(DASH) || self.marker(DOT))) {
                    done = true;
                } else {
                    self.pos += indent;
                    let ghost c = self.pos as int;
                    let more = white(self.doc[self.pos]);
                    if !have || literal || prev_more || more {
                        push_feeds(&mut buf, breaks);
                    } else {
                        push_fold(&mut buf, breaks);
                    }
                    let ghost buf0 = buf@;
                    proof {
                        line_end_bounds(doc, c);
                    }
                    while self.pos < self.doc.len() && !newline(self.doc[self.pos])
                        invariant
                            self.wf(),
                            doc == self.doc@,
                            *self == old(self).moved(self.pos),
                            self.pos >= c >= line,
                            line > start,
                            line_end(doc, c) == line_end(doc, self.pos as int),
                            buf@ == buf0 + doc.subrange(c, self.pos as int),
                        decreases self.doc@.len() - self.pos,
                    {
                        buf.push(self.doc[self.pos]);
                        self.pos += 1;
                        assert(buf@ =~= buf0 + doc.subrange(c, self.pos as int));
                    }
                    have = true;
                    prev_more = more;
                    if self.nl() {
                        breaks = 1;
                    } else {
                        breaks = 0;
                        done = true;
                    }
                }
            }
        }
        if keep {
            push_feeds(&mut buf, breaks);
        } else if !strip && have && breaks >= 1 {
            buf.push(LF);
        }
        Ok(to_text(buf.as_slice()))
    }
}

pub proof fn pow16_monotone(a: nat, b: nat)
    requires
        a <= b,
    ensures
        0 < pow16(a) <= pow16(b),
    decreases b,
{
    if a < b {
        pow16_monotone(a, (b - 1) as nat);
    } else if a > 0 {
        pow16_monotone((a - 1) as nat, (b - 1) as nat);
    }
}

} // verus!
