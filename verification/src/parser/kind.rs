//! What a plain scalar is read as: null, a boolean, an integer, a float or
//! a string.
use crate::text::{ascii_chars, is_ascii_bytes, law_ascii_text, text_of, to_text};
use crate::yaml::{Payload, Yaml, YamlView};
use vstd::prelude::*;
use vstd::slice::slice_subrange;

verus! {

/// What a plain scalar is read as.
#[derive(Clone, Copy, Debug, PartialEq, Eq, Structural)]
pub enum Kind {
    Null,
    Bool(bool),
    Int,
    Float,
    Str,
}

/// A class of bytes.
#[derive(Clone, Copy, Debug, PartialEq, Eq, Structural)]
pub enum Class {
    /// `0` to `9`.
    Digit,
    /// `0` to `7`.
    Oct,
    /// `0` to `9`, `a` to `f` and `A` to `F`.
    Hex,
}

/// Whether the byte belongs to the class.
pub open spec fn in_class(class: Class, b: u8) -> bool {
    match class {
        Class::Digit => 0x30 <= b <= 0x39,
        Class::Oct => 0x30 <= b <= 0x37,
        Class::Hex => 0x30 <= b <= 0x39 || 0x61 <= b <= 0x66 || 0x41 <= b <= 0x46,
    }
}

/// The first place at or behind `at` whose byte is not of the class.
pub open spec fn run_end(s: Seq<u8>, at: int, class: Class) -> int
    decreases s.len() - at,
{
    if 0 <= at < s.len() && in_class(class, s[at]) {
        run_end(s, at + 1, class)
    } else {
        at
    }
}

/// The length of a leading sign.
pub open spec fn sign_len(s: Seq<u8>) -> int {
    if s.len() > 0 && (s[0] == 0x2b || s[0] == 0x2d) {
        1
    } else {
        0
    }
}

/// `null`, `Null`, `NULL`, `~` or nothing.
pub open spec fn is_null_text(s: Seq<u8>) -> bool {
    ||| s.len() == 0
    ||| s == seq![0x7eu8]
    ||| s == seq![0x6eu8, 0x75u8, 0x6cu8, 0x6cu8]
    ||| s == seq![0x4eu8, 0x75u8, 0x6cu8, 0x6cu8]
    ||| s == seq![0x4eu8, 0x55u8, 0x4cu8, 0x4cu8]
}

/// `true`, `True` or `TRUE`.
pub open spec fn is_true_text(s: Seq<u8>) -> bool {
    ||| s == seq![0x74u8, 0x72u8, 0x75u8, 0x65u8]
    ||| s == seq![0x54u8, 0x72u8, 0x75u8, 0x65u8]
    ||| s == seq![0x54u8, 0x52u8, 0x55u8, 0x45u8]
}

/// `false`, `False` or `FALSE`.
pub open spec fn is_false_text(s: Seq<u8>) -> bool {
    ||| s == seq![0x66u8, 0x61u8, 0x6cu8, 0x73u8, 0x65u8]
    ||| s == seq![0x46u8, 0x61u8, 0x6cu8, 0x73u8, 0x65u8]
    ||| s == seq![0x46u8, 0x41u8, 0x4cu8, 0x53u8, 0x45u8]
}

/// An integer: an optional sign before `0` or before digits that do not
/// start with `0`; or `0o` before octal digits; or `0x` before hexadecimal
/// digits.
pub open spec fn is_int_text(s: Seq<u8>) -> bool {
    let from = sign_len(s);
    ||| (from < s.len() && run_end(s, from, Class::Digit) == s.len() && (s.len() - from == 1
        || s[from] != 0x30))
    ||| (s.len() >= 3 && s[0] == 0x30 && s[1] == 0x6f && run_end(s, 2, Class::Oct) == s.len())
    ||| (s.len() >= 3 && s[0] == 0x30 && s[1] == 0x78 && run_end(s, 2, Class::Hex) == s.len())
}

/// An exponent that reaches from `at` to the end: `e` or `E`, an optional
/// sign, and at least one digit.
pub open spec fn is_exp(s: Seq<u8>, at: int) -> bool {
    let k = if at + 1 < s.len() && (s[at + 1] == 0x2b || s[at + 1] == 0x2d) {
        at + 2
    } else {
        at + 1
    };
    &&& 0 <= at < s.len()
    &&& (s[at] == 0x65 || s[at] == 0x45)
    &&& k < s.len()
    &&& run_end(s, k, Class::Digit) == s.len()
}

/// A decimal number from `from` on that has a fraction, an exponent or
/// both, with a digit before or behind the point.
pub open spec fn is_decimal(s: Seq<u8>, from: int) -> bool {
    let i = run_end(s, from, Class::Digit);
    if i < s.len() && s[i] == 0x2e {
        let j = run_end(s, i + 1, Class::Digit);
        (i > from || j > i + 1) && (j == s.len() || is_exp(s, j))
    } else {
        i > from && is_exp(s, i)
    }
}

/// `.inf`, `.Inf` or `.INF` from `from` on.
pub open spec fn is_inf(s: Seq<u8>, from: int) -> bool {
    let t = s.skip(from);
    ||| t == seq![0x2eu8, 0x69u8, 0x6eu8, 0x66u8]
    ||| t == seq![0x2eu8, 0x49u8, 0x6eu8, 0x66u8]
    ||| t == seq![0x2eu8, 0x49u8, 0x4eu8, 0x46u8]
}

/// `.nan`, `.NaN` or `.NAN`.
pub open spec fn is_nan(s: Seq<u8>) -> bool {
    ||| s == seq![0x2eu8, 0x6eu8, 0x61u8, 0x6eu8]
    ||| s == seq![0x2eu8, 0x4eu8, 0x61u8, 0x4eu8]
    ||| s == seq![0x2eu8, 0x4eu8, 0x41u8, 0x4eu8]
}

/// A float: a decimal number or an infinity, each with an optional sign, or
/// a not-a-number.
pub open spec fn is_float_text(s: Seq<u8>) -> bool {
    let from = sign_len(s);
    is_decimal(s, from) || is_inf(s, from) || is_nan(s)
}

/// What the text of a plain scalar is read as. The first that fits, in this
/// order: null, boolean, integer, float; a string where none does.
pub open spec fn kind_of(s: Seq<u8>) -> Kind {
    if is_null_text(s) {
        Kind::Null
    } else if is_true_text(s) {
        Kind::Bool(true)
    } else if is_false_text(s) {
        Kind::Bool(false)
    } else if is_int_text(s) {
        Kind::Int
    } else if is_float_text(s) {
        Kind::Float
    } else {
        Kind::Str
    }
}

/// The payload of the value that a plain scalar with this text becomes.
pub open spec fn scalar_payload(s: Seq<u8>) -> Payload {
    match kind_of(s) {
        Kind::Null => Payload::Null,
        Kind::Bool(b) => Payload::Bool(b),
        Kind::Int => Payload::Int(text_of(s)),
        Kind::Float => Payload::Float(text_of(s)),
        Kind::Str => Payload::Str(text_of(s)),
    }
}

pub proof fn run_end_bounds(s: Seq<u8>, at: int, class: Class)
    requires
        0 <= at <= s.len(),
    ensures
        at <= run_end(s, at, class) <= s.len(),
    decreases s.len() - at,
{
    if at < s.len() && in_class(class, s[at]) {
        run_end_bounds(s, at + 1, class);
    }
}

fn in_class_exec(class: Class, b: u8) -> (r: bool)
    ensures
        r == in_class(class, b),
{
    match class {
        Class::Digit => 0x30 <= b && b <= 0x39,
        Class::Oct => 0x30 <= b && b <= 0x37,
        Class::Hex => (0x30 <= b && b <= 0x39) || (0x61 <= b && b <= 0x66) || (0x41 <= b && b
            <= 0x46),
    }
}

/// The first place at or behind `at` whose byte is not of the class.
pub fn scan(s: &[u8], at: usize, class: Class) -> (r: usize)
    requires
        at <= s@.len(),
    ensures
        r == run_end(s@, at as int, class),
        at <= r <= s@.len(),
{
    let mut i = at;
    proof {
        run_end_bounds(s@, at as int, class);
    }
    while i < s.len() && in_class_exec(class, s[i])
        invariant
            at <= i <= s@.len(),
            run_end(s@, at as int, class) == run_end(s@, i as int, class),
        decreases s@.len() - i,
    {
        i += 1;
    }
    i
}

fn is1(s: &[u8], from: usize, a: u8) -> (r: bool)
    requires
        from <= s@.len(),
    ensures
        r == (s@.skip(from as int) == seq![a]),
{
    let r = s.len() - from == 1 && s[from] == a;
    proof {
        let t = s@.skip(from as int);
        if r {
            assert(t =~= seq![a]);
        } else if t == seq![a] {
            assert(t.len() == 1);
            assert(t[0] == a);
        }
    }
    r
}

fn is4(s: &[u8], from: usize, a: u8, b: u8, c: u8, d: u8) -> (r: bool)
    requires
        from <= s@.len(),
    ensures
        r == (s@.skip(from as int) == seq![a, b, c, d]),
{
    let r = s.len() - from == 4 && s[from] == a && s[from + 1] == b && s[from + 2] == c && s[from
        + 3] == d;
    proof {
        let t = s@.skip(from as int);
        let lit = seq![a, b, c, d];
        if r {
            assert(t =~= lit);
        } else if t == lit {
            assert(t.len() == 4);
            assert(t[0] == a && t[1] == b && t[2] == c && t[3] == d);
        }
    }
    r
}

fn is5(s: &[u8], a: u8, b: u8, c: u8, d: u8, e: u8) -> (r: bool)
    ensures
        r == (s@ == seq![a, b, c, d, e]),
{
    let r = s.len() == 5 && s[0] == a && s[1] == b && s[2] == c && s[3] == d && s[4] == e;
    proof {
        let lit = seq![a, b, c, d, e];
        if r {
            assert(s@ =~= lit);
        } else if s@ == lit {
            assert(s@.len() == 5);
            assert(s@[0] == a && s@[1] == b && s@[2] == c && s@[3] == d && s@[4] == e);
        }
    }
    r
}

fn sign_len_exec(s: &[u8]) -> (r: usize)
    ensures
        r == sign_len(s@),
        r <= s@.len(),
{
    if s.len() > 0 && (s[0] == 0x2b || s[0] == 0x2d) {
        1
    } else {
        0
    }
}

fn is_exp_exec(s: &[u8], at: usize) -> (r: bool)
    requires
        at <= s@.len(),
    ensures
        r == is_exp(s@, at as int),
{
    if at >= s.len() {
        return false;
    }
    if s[at] != 0x65 && s[at] != 0x45 {
        return false;
    }
    let k: usize = if at + 1 < s.len() && (s[at + 1] == 0x2b || s[at + 1] == 0x2d) {
        at + 2
    } else {
        at + 1
    };
    k < s.len() && scan(s, k, Class::Digit) == s.len()
}

/// What the text of a plain scalar is read as.
pub fn classify(s: &[u8]) -> (k: Kind)
    ensures
        k == kind_of(s@),
{
    assert(s@.skip(0) =~= s@);
    if s.len() == 0 || is1(s, 0, 0x7e) || is4(s, 0, 0x6e, 0x75, 0x6c, 0x6c) || is4(
        s,
        0,
        0x4e,
        0x75,
        0x6c,
        0x6c,
    ) || is4(s, 0, 0x4e, 0x55, 0x4c, 0x4c) {
        return Kind::Null;
    }
    if is4(s, 0, 0x74, 0x72, 0x75, 0x65) || is4(s, 0, 0x54, 0x72, 0x75, 0x65) || is4(
        s,
        0,
        0x54,
        0x52,
        0x55,
        0x45,
    ) {
        return Kind::Bool(true);
    }
    if is5(s, 0x66, 0x61, 0x6c, 0x73, 0x65) || is5(s, 0x46, 0x61, 0x6c, 0x73, 0x65) || is5(
        s,
        0x46,
        0x41,
        0x4c,
        0x53,
        0x45,
    ) {
        return Kind::Bool(false);
    }
    let from = sign_len_exec(s);
    let i = scan(s, from, Class::Digit);
    if from < s.len() && i == s.len() && (s.len() - from == 1 || s[from] != 0x30) {
        return Kind::Int;
    }
    if s.len() >= 3 && s[0] == 0x30 && s[1] == 0x6f && scan(s, 2, Class::Oct) == s.len() {
        return Kind::Int;
    }
    if s.len() >= 3 && s[0] == 0x30 && s[1] == 0x78 && scan(s, 2, Class::Hex) == s.len() {
        return Kind::Int;
    }
    let decimal = if i < s.len() && s[i] == 0x2e {
        let j = scan(s, i + 1, Class::Digit);
        (i > from || j > i + 1) && (j == s.len() || is_exp_exec(s, j))
    } else {
        i > from && is_exp_exec(s, i)
    };
    if decimal {
        return Kind::Float;
    }
    if is4(s, from, 0x2e, 0x69, 0x6e, 0x66) || is4(s, from, 0x2e, 0x49, 0x6e, 0x66) || is4(
        s,
        from,
        0x2e,
        0x49,
        0x4e,
        0x46,
    ) {
        return Kind::Float;
    }
    if is4(s, 0, 0x2e, 0x6e, 0x61, 0x6e) || is4(s, 0, 0x2e, 0x4e, 0x61, 0x4e) || is4(
        s,
        0,
        0x2e,
        0x4e,
        0x41,
        0x4e,
    ) {
        return Kind::Float;
    }
    Kind::Str
}

/// The value that a plain scalar with this text becomes.
pub open spec fn scalar_view(s: Seq<u8>) -> YamlView {
    match kind_of(s) {
        Kind::Null => YamlView::Null,
        Kind::Bool(b) => YamlView::Bool(b),
        Kind::Int => YamlView::Int(text_of(s)),
        Kind::Float => YamlView::Float(text_of(s)),
        Kind::Str => YamlView::Str(text_of(s)),
    }
}

/// The value that a plain scalar with this text becomes.
pub fn scalar_of(s: &[u8]) -> (y: Yaml)
    ensures
        y@ == scalar_view(s@),
        y.payload() == scalar_payload(s@),
        y.wf(),
{
    match classify(s) {
        Kind::Null => Yaml::Null,
        Kind::Bool(b) => Yaml::Bool(b),
        Kind::Int => Yaml::Int(to_text(s)),
        Kind::Float => Yaml::Float(to_text(s)),
        Kind::Str => Yaml::Str(to_text(s)),
    }
}

/// A plain scalar of ASCII text that is read as an integer, a float or a
/// string holds its text character for character: what is written `42` is
/// stored as `42`.
pub proof fn law_ascii_scalar_keeps_its_characters(s: Seq<u8>)
    requires
        is_ascii_bytes(s),
    ensures
        match scalar_view(s) {
            YamlView::Int(t) => is_int_text(s) && t == ascii_chars(s),
            YamlView::Float(t) => is_float_text(s) && t == ascii_chars(s),
            YamlView::Str(t) => t == ascii_chars(s),
            YamlView::Bool(b) => b == is_true_text(s),
            YamlView::Null => is_null_text(s),
            _ => false,
        },
{
    law_ascii_text(s);
}

/// The text of a plain scalar decides its value, and an integer, a float or
/// a string holds that text as it was written.
pub proof fn law_scalar_keeps_its_text(s: Seq<u8>)
    ensures
        match scalar_payload(s) {
            Payload::Int(t) => is_int_text(s) && t == text_of(s),
            Payload::Float(t) => is_float_text(s) && t == text_of(s),
            Payload::Str(t) => t == text_of(s),
            Payload::Bool(b) => b == is_true_text(s),
            Payload::Null => is_null_text(s),
            _ => false,
        },
{
}

} // verus!
