//! Directives, tag handles and node properties.
use crate::parser::base::{PError, Parser};
use crate::parser::grammar::{
    blank_end, blank_end_bounds, flow_end, is_flow_end, is_nl, is_ws, line_end, line_end_bounds,
    newline, nl_len, white, ws_end, ws_end_bounds, AMP, BANG, GT, LT, PERCENT, STAR,
};
use crate::parser::kind::{run_end, scan, Class};
use crate::parser::scalar::fatal;
use crate::tags::{table_get, table_insert, tag_entries};
use crate::text::{bytes_eq, text_of, to_text};
use ritelinked::LinkedHashMap;
use vstd::prelude::*;
use vstd::slice::slice_subrange;
use vstd::string::StringExecFns;

verus! {

/// What the grammar reads besides the cursor: the input, the number of
/// bytes before it, and the prefix of each tag handle.
pub ghost struct Cx {
    pub doc: Seq<u8>,
    pub base: int,
    pub tags: Map<Seq<char>, Seq<char>>,
    pub width: usize,
}

/// A version that this parser reads: `1.` before at least one digit.
pub open spec fn version_ok(s: Seq<u8>) -> bool {
    &&& s.len() >= 3
    &&& s[0] == 0x31
    &&& s[1] == 0x2e
    &&& run_end(s, 2, Class::Digit) == s.len()
}

/// Whether the text is a version that this parser reads.
pub fn version_check(s: &[u8]) -> (r: bool)
    ensures
        r == version_ok(s@),
{
    s.len() >= 3 && s[0] == 0x31 && s[1] == 0x2e && scan(s, 2, Class::Digit) == s.len()
}

/// The tag that a handle and a suffix stand for: the prefix of the handle
/// before the suffix, where the table holds the handle.
pub open spec fn resolved_tag(
    table: Map<Seq<char>, Seq<char>>,
    handle: Seq<char>,
    suffix: Seq<char>,
) -> Option<Seq<char>> {
    if table.contains_key(handle) {
        Some(table[handle] + suffix)
    } else {
        None
    }
}

/// The tag that a handle and a suffix stand for.
pub fn resolve(table: &LinkedHashMap<String, String>, handle: &str, suffix: &str) -> (r: Option<
    String,
>)
    ensures
        match r {
            Some(tag) => resolved_tag(tag_entries(*table), handle@, suffix@) == Some(tag@),
            None => resolved_tag(tag_entries(*table), handle@, suffix@) is None,
        },
{
    match table_get(table, handle) {
        Some(prefix) => Some(prefix.clone().concat(suffix)),
        None => None,
    }
}

/// The first place at or behind `at` that holds white space or a line break.
pub open spec fn word_end(doc: Seq<u8>, at: int) -> int
    decreases doc.len() - at,
{
    if 0 <= at < doc.len() && !is_ws(doc[at]) && !is_nl(doc[at]) {
        word_end(doc, at + 1)
    } else {
        at
    }
}

pub proof fn word_end_bounds(doc: Seq<u8>, at: int)
    requires
        0 <= at <= doc.len(),
    ensures
        at <= word_end(doc, at) <= doc.len(),
    decreases doc.len() - at,
{
    if at < doc.len() && !is_ws(doc[at]) && !is_nl(doc[at]) {
        word_end_bounds(doc, at + 1);
    }
}

/// The first place at or behind `at` that ends a name: white space, a line
/// break, the end and, in a flow collection, one of its indicators.
pub open spec fn name_end(doc: Seq<u8>, at: int, flow: bool) -> int
    decreases doc.len() - at,
{
    if 0 <= at < doc.len() && !is_ws(doc[at]) && !is_nl(doc[at]) && !(flow && is_flow_end(doc[at])) {
        name_end(doc, at + 1, flow)
    } else {
        at
    }
}

pub proof fn name_end_bounds(doc: Seq<u8>, at: int, flow: bool)
    requires
        0 <= at <= doc.len(),
    ensures
        at <= name_end(doc, at, flow) <= doc.len(),
    decreases doc.len() - at,
{
    if at < doc.len() && !is_ws(doc[at]) && !is_nl(doc[at]) && !(flow && is_flow_end(doc[at])) {
        name_end_bounds(doc, at + 1, flow);
    }
}

/// The first place at or behind `at` that holds `>` or a line break.
pub open spec fn verbatim_end(doc: Seq<u8>, at: int) -> int
    decreases doc.len() - at,
{
    if 0 <= at < doc.len() && doc[at] != GT && !is_nl(doc[at]) {
        verbatim_end(doc, at + 1)
    } else {
        at
    }
}

pub proof fn verbatim_end_bounds(doc: Seq<u8>, at: int)
    requires
        0 <= at <= doc.len(),
    ensures
        at <= verbatim_end(doc, at) <= doc.len(),
    decreases doc.len() - at,
{
    if at < doc.len() && doc[at] != GT && !is_nl(doc[at]) {
        verbatim_end_bounds(doc, at + 1);
    }
}

/// The place behind the last `!` among the first `n` bytes of the word, or
/// 0 where there is none.
pub open spec fn bang_cut(word: Seq<u8>, n: int) -> int
    decreases n,
{
    if n <= 0 || n > word.len() {
        0
    } else if word[n - 1] == BANG {
        n
    } else {
        bang_cut(word, n - 1)
    }
}

/// An anchor or an alias at `at`, led by the byte `mark`: the name and the
/// place behind it. A name without characters is fatal.
pub open spec fn anchor_spec(d: Seq<u8>, base: int, at: int, flow: bool, mark: u8) -> Result<
    (Seq<char>, int),
    PError,
> {
    if !(0 <= at < d.len() && d[at] == mark) {
        Err(PError::Mismatch)
    } else {
        let e = name_end(d, at + 1, flow);
        if e <= at + 1 {
            fatal(base, at, "empty anchor name")
        } else {
            Ok((text_of(d.subrange(at + 1, e)), e))
        }
    }
}

/// A tag at `at`: what it resolves to and the place behind it.
///
/// `!<text>` gives the text. Else the tag is a word behind `!`: what
/// stands up to its last `!` is the handle, `!` alone where there is none,
/// and the rest is the suffix. The tag is the prefix of the handle before
/// the suffix. A handle that the table does not hold is fatal.
pub open spec fn tag_spec(cx: Cx, at: int, flow: bool) -> Result<(Seq<char>, int), PError> {
    let d = cx.doc;
    if !(0 <= at < d.len() && d[at] == BANG) {
        Err(PError::Mismatch)
    } else if at + 1 < d.len() && d[at + 1] == LT {
        let e = verbatim_end(d, at + 2);
        if e < d.len() && d[e] == GT {
            Ok((text_of(d.subrange(at + 2, e)), e + 1))
        } else {
            fatal(cx.base, at, "unclosed tag")
        }
    } else {
        let e = name_end(d, at + 1, flow);
        let word = d.subrange(at + 1, e);
        let cut = bang_cut(word, word.len() as int);
        let handle = if cut == 0 {
            "!"@
        } else {
            "!"@ + text_of(word.subrange(0, cut))
        };
        let suffix = text_of(word.subrange(cut, word.len() as int));
        match resolved_tag(cx.tags, handle, suffix) {
            Some(tag) => Ok((tag, e)),
            None => fatal(cx.base, at, "unknown tag handle"),
        }
    }
}

/// The properties that stand before a node.
pub struct Props {
    /// The anchor name, empty where there is none.
    pub anchor: String,
    /// The resolved tag, empty where there is none.
    pub ty: String,
    /// Whether an anchor or a tag was there.
    pub any: bool,
}

/// The properties that stand before a node, as specifications see them.
pub ghost struct PropsView {
    pub anchor: Seq<char>,
    pub ty: Seq<char>,
    pub any: bool,
}

impl View for Props {
    type V = PropsView;

    open spec fn view(&self) -> PropsView {
        PropsView { anchor: self.anchor@, ty: self.ty@, any: self.any }
    }
}

/// No properties.
pub open spec fn no_props() -> PropsView {
    PropsView { anchor: Seq::<char>::empty(), ty: Seq::<char>::empty(), any: false }
}

/// Up to `left` properties from `at` on: an anchor where none was read, or
/// a tag where none was read, each with the white space behind it.
pub open spec fn props_step(
    cx: Cx,
    at: int,
    flow: bool,
    p: PropsView,
    anchored: bool,
    tagged: bool,
    left: int,
) -> Result<(PropsView, int), PError>
    decreases left,
{
    let d = cx.doc;
    if left <= 0 {
        Ok((p, at))
    } else if !anchored && 0 <= at < d.len() && d[at] == AMP {
        match anchor_spec(d, cx.base, at, flow, AMP) {
            Ok((name, e)) => props_step(
                cx,
                ws_end(d, e),
                flow,
                PropsView { anchor: name, any: true, ..p },
                true,
                tagged,
                left - 1,
            ),
            Err(e) => Err(e),
        }
    } else if !tagged && 0 <= at < d.len() && d[at] == BANG {
        match tag_spec(cx, at, flow) {
            Ok((ty, e)) => props_step(
                cx,
                ws_end(d, e),
                flow,
                PropsView { ty, any: true, ..p },
                anchored,
                true,
                left - 1,
            ),
            Err(e) => Err(e),
        }
    } else {
        props_step(cx, at, flow, p, anchored, tagged, left - 1)
    }
}

/// The properties of a node at `at`: an anchor, a tag or both, in either
/// order, and the place behind them and their white space.
pub open spec fn props_spec(cx: Cx, at: int, flow: bool) -> Result<(PropsView, int), PError> {
    props_step(cx, at, flow, no_props(), false, false, 2)
}

/// What a directive leaves: the tag handles, whether a version was seen,
/// and the place behind its line.
pub ghost struct Directed {
    pub tags: Map<Seq<char>, Seq<char>>,
    pub checked: bool,
    pub end: int,
}

/// `YAML`.
pub open spec fn word_yaml() -> Seq<u8> {
    seq![0x59u8, 0x41u8, 0x4du8, 0x4cu8]
}

/// `TAG`.
pub open spec fn word_tag() -> Seq<u8> {
    seq![0x54u8, 0x41u8, 0x47u8]
}

/// The end of a directive line whose words end at `e`: only white space
/// and a comment may follow on the line.
pub open spec fn directive_end(cx: Cx, at: int, e: int, tags: Map<Seq<char>, Seq<char>>, checked: bool) -> Result<
    Directed,
    PError,
> {
    let b = blank_end(cx.doc, e);
    if b < cx.doc.len() && !is_nl(cx.doc[b]) {
        fatal(cx.base, at, "invalid directive")
    } else {
        Ok(Directed { tags, checked, end: b + nl_len(cx.doc, b) })
    }
}

/// A directive line at `at`.
///
/// `%YAML` takes a version: a second one in a document is fatal, and so is
/// any version but `1.x`. `%TAG` takes a handle, which starts and ends
/// with `!`, and a prefix, and binds the one to the other. The line of any
/// other directive is passed over.
pub open spec fn directive_spec(cx: Cx, at: int, checked: bool) -> Result<Directed, PError> {
    let d = cx.doc;
    if !(0 <= at < d.len() && d[at] == PERCENT) {
        Err(PError::Mismatch)
    } else {
        let n = word_end(d, at + 1);
        let name = d.subrange(at + 1, n);
        if name == word_yaml() {
            let v = ws_end(d, n);
            let e = word_end(d, v);
            if checked {
                fatal(cx.base, at, "repeated version directive")
            } else if !version_ok(d.subrange(v, e)) {
                fatal(cx.base, at, "unsupported version")
            } else {
                directive_end(cx, at, e, cx.tags, true)
            }
        } else if name == word_tag() {
            let h = ws_end(d, n);
            let he = word_end(d, h);
            let p = ws_end(d, he);
            let pe = word_end(d, p);
            let handle = d.subrange(h, he);
            let prefix = d.subrange(p, pe);
            if handle.len() == 0 || handle[0] != BANG || handle.last() != BANG || prefix.len() == 0 {
                fatal(cx.base, at, "invalid tag directive")
            } else {
                directive_end(
                    cx,
                    at,
                    pe,
                    cx.tags.insert(text_of(handle), text_of(prefix)),
                    checked,
                )
            }
        } else {
            directive_end(cx, at, line_end(d, n), cx.tags, checked)
        }
    }
}

impl<'a> Parser<'a> {
    /// What the grammar reads besides the cursor.
    pub open spec fn cx(&self) -> Cx {
        Cx {
            doc: self.doc@,
            base: self.consumed as int,
            tags: tag_entries(self.tag),
            width: self.width,
        }
    }

    /// The fatal error with this message, at the place `at` of the window.
    pub fn err_at<Ret>(&self, at: usize, msg: &'static str) -> (r: Result<Ret, PError>)
        requires
            self.wf(),
            at <= self.doc@.len(),
        ensures
            r == fatal::<Ret>(self.consumed as int, at as int, msg),
    {
        Err(PError::Terminate(self.consumed + at as u64, msg))
    }

    /// Matches the bytes up to white space, a line break or the end, and
    /// gives them.
    pub fn word(&mut self) -> (r: &'a [u8])
        requires
            old(self).wf(),
        ensures
            final(self).wf(),
            *final(self) == old(self).moved(final(self).pos),
            final(self).pos == word_end(old(self).doc@, old(self).pos as int),
            final(self).pos >= old(self).pos,
            r@ == old(self).doc@.subrange(old(self).pos as int, final(self).pos as int),
    {
        let start = self.pos;
        proof {
            word_end_bounds(self.doc@, start as int);
        }
        while self.pos < self.doc.len() && !white(self.doc[self.pos]) && !newline(self.doc[self.pos])
            invariant
                self.wf(),
                start <= self.pos,
                *self == old(self).moved(self.pos),
                word_end(self.doc@, start as int) == word_end(self.doc@, self.pos as int),
            decreases self.doc@.len() - self.pos,
        {
            self.pos += 1;
        }
        slice_subrange(self.doc, start, self.pos)
    }

    /// Matches the bytes of a name: up to white space, a line break, the
    /// end and, in a flow collection, one of its indicators.
    pub fn name(&mut self, flow: bool) -> (r: &'a [u8])
        requires
            old(self).wf(),
        ensures
            final(self).wf(),
            *final(self) == old(self).moved(final(self).pos),
            final(self).pos == name_end(old(self).doc@, old(self).pos as int, flow),
            final(self).pos >= old(self).pos,
            r@ == old(self).doc@.subrange(old(self).pos as int, final(self).pos as int),
    {
        let start = self.pos;
        proof {
            name_end_bounds(self.doc@, start as int, flow);
        }
        while self.pos < self.doc.len() && !white(self.doc[self.pos]) && !newline(self.doc[self.pos])
            && !(flow && flow_end(self.doc[self.pos]))
            invariant
                self.wf(),
                start <= self.pos,
                *self == old(self).moved(self.pos),
                name_end(self.doc@, start as int, flow) == name_end(self.doc@, self.pos as int, flow),
            decreases self.doc@.len() - self.pos,
        {
            self.pos += 1;
        }
        slice_subrange(self.doc, start, self.pos)
    }

    /// Matches one directive line.
    pub fn directive(&mut self) -> (r: Result<(), PError>)
        requires
            old(self).wf(),
        ensures
            final(self).produced(old(self), r),
            final(self).indent == old(self).indent,
            final(self).anchors == old(self).anchors,
            match directive_spec(old(self).cx(), old(self).pos as int, old(self).version_checked) {
                Ok(got) => r is Ok && final(self).pos == got.end && tag_entries(final(self).tag)
                    == got.tags && final(self).version_checked == got.checked && final(self).pos
                    > old(self).pos,
                Err(e) => r == Err::<(), PError>(e) && (e is Mismatch ==> *final(self) == *old(
                    self,
                )),
            },
    {
        if self.peek() != Some(PERCENT) {
            return Err(PError::Mismatch);
        }
        let ghost d = self.doc@;
        let start = self.pos;
        self.pos += 1;
        let name = self.word();
        let yaml: [u8; 4] = [0x59, 0x41, 0x4d, 0x4c];
        let tag: [u8; 3] = [0x54, 0x41, 0x47];
        assert(yaml@ =~= word_yaml());
        assert(tag@ =~= word_tag());
        if bytes_eq(name, yaml.as_slice()) {
            self.ws();
            let version = self.word();
            if self.version_checked {
                return self.err_at(start, "repeated version directive");
            }
            if !version_check(version) {
                return self.err_at(start, "unsupported version");
            }
            self.version_checked = true;
        } else if bytes_eq(name, tag.as_slice()) {
            self.ws();
            let handle = self.word();
            self.ws();
            let prefix = self.word();
            let n = handle.len();
            if n == 0 || handle[0] != BANG || handle[n - 1] != BANG || prefix.len() == 0 {
                return self.err_at(start, "invalid tag directive");
            }
            table_insert(&mut self.tag, to_text(handle), to_text(prefix));
        } else {
            self.to_line_end();
        }
        proof {
            blank_end_bounds(d, self.pos as int);
        }
        self.blank();
        if !self.nl() && self.pos < self.doc.len() {
            return self.err_at(start, "invalid directive");
        }
        Ok(())
    }

    /// Matches a tag and gives what it resolves to.
    pub fn tag(&mut self, flow: bool) -> (r: Result<String, PError>)
        requires
            old(self).wf(),
        ensures
            final(self).produced(old(self), r),
            *final(self) == old(self).moved(final(self).pos),
            match tag_spec(old(self).cx(), old(self).pos as int, flow) {
                Ok((ty, e)) => r matches Ok(s) && s@ == ty && final(self).pos == e && e > old(
                    self,
                ).pos,
                Err(e) => r == Err::<String, PError>(e),
            },
    {
        if self.peek() != Some(BANG) {
            return Err(PError::Mismatch);
        }
        let ghost d = self.doc@;
        let start = self.pos;
        self.pos += 1;
        if self.peek() == Some(LT) {
            self.pos += 1;
            let from = self.pos;
            proof {
                verbatim_end_bounds(d, from as int);
            }
            while self.pos < self.doc.len() && self.doc[self.pos] != GT && !newline(self.doc[self.pos])
                invariant
                    self.wf(),
                    start < from <= self.pos,
                    *self == old(self).moved(self.pos),
                    verbatim_end(self.doc@, from as int) == verbatim_end(self.doc@, self.pos as int),
                decreases self.doc@.len() - self.pos,
            {
                self.pos += 1;
            }
            if self.peek() != Some(GT) {
                return self.err_at(start, "unclosed tag");
            }
            let text = to_text(slice_subrange(self.doc, from, self.pos));
            self.pos += 1;
            return Ok(text);
        }
        let word = self.name(flow);
        let mut cut: usize = 0;
        let mut i: usize = 0;
        while i < word.len()
            invariant
                i <= word@.len(),
                cut <= i,
                cut == bang_cut(word@, i as int),
            decreases word@.len() - i,
        {
            if word[i] == BANG {
                cut = i + 1;
            }
            i += 1;
        }
        let handle = if cut == 0 {
            "!".to_owned()
        } else {
            "!".to_owned().concat(to_text(slice_subrange(word, 0, cut)).as_str())
        };
        let suffix = to_text(slice_subrange(word, cut, word.len()));
        match resolve(&self.tag, handle.as_str(), suffix.as_str()) {
            Some(ty) => Ok(ty),
            None => self.err_at(start, "unknown tag handle"),
        }
    }

    /// Matches an anchor (`&name`) or, with `*` for `mark`, an alias, and
    /// gives the name.
    pub fn anchor_name(&mut self, flow: bool, mark: u8) -> (r: Result<String, PError>)
        requires
            old(self).wf(),
        ensures
            final(self).produced(old(self), r),
            *final(self) == old(self).moved(final(self).pos),
            match anchor_spec(
                old(self).doc@,
                old(self).consumed as int,
                old(self).pos as int,
                flow,
                mark,
            ) {
                Ok((name, e)) => r matches Ok(s) && s@ == name && final(self).pos == e && e > old(
                    self,
                ).pos + 1,
                Err(e) => r == Err::<String, PError>(e),
            },
    {
        if self.peek() != Some(mark) {
            return Err(PError::Mismatch);
        }
        let start = self.pos;
        self.pos += 1;
        let word = self.name(flow);
        if word.len() == 0 {
            return self.err_at(start, "empty anchor name");
        }
        Ok(to_text(word))
    }

    /// Matches the properties of a node: an anchor, a tag or both, in
    /// either order, and the white space behind them.
    pub fn properties(&mut self, flow: bool) -> (r: Result<Props, PError>)
        requires
            old(self).wf(),
        ensures
            final(self).produced(old(self), r),
            *final(self) == old(self).moved(final(self).pos),
            !(r matches Err(PError::Mismatch)),
            match props_spec(old(self).cx(), old(self).pos as int, flow) {
                Ok((p, e)) => r matches Ok(got) && got@ == p && final(self).pos == e,
                Err(e) => r == Err::<Props, PError>(e),
            },
            r matches Ok(p) ==> (p.any <==> (old(self).at(AMP) || old(self).at(BANG))) && (!p.any
                ==> final(self).pos == old(self).pos && p.anchor@.len() == 0 && p.ty@.len() == 0),
            r matches Ok(p) ==> (p.any ==> final(self).pos > old(self).pos),
    {
        let ghost cx = self.cx();
        let ghost goal = props_spec(cx, self.pos as int, flow);
        let mut props = Props { anchor: String::new(), ty: String::new(), any: false };
        let mut have_anchor = false;
        let mut have_tag = false;
        let mut k: usize = 0;
        assert(props@ == no_props());
        while k < 2
            invariant
                self.wf(),
                cx == self.cx(),
                *self == old(self).moved(self.pos),
                self.pos >= old(self).pos,
                k <= 2,
                props.any <==> (have_anchor || have_tag),
                !props.any ==> self.pos == old(self).pos && props.anchor@.len() == 0
                    && props.ty@.len() == 0,
                props.any ==> (old(self).at(AMP) || old(self).at(BANG)),
                props.any ==> self.pos > old(self).pos,
                (k >= 1 && !props.any) ==> !(old(self).at(AMP) || old(self).at(BANG)),
                goal == props_step(cx, self.pos as int, flow, props@, have_anchor, have_tag, 2 - k),
                goal == props_spec(old(self).cx(), old(self).pos as int, flow),
            decreases 2 - k,
        {
            if !have_anchor && self.peek() == Some(AMP) {
                match self.anchor_name(flow, AMP) {
                    Ok(name) => {
                        props.anchor = name;
                        props.any = true;
                        have_anchor = true;
                    },
                    Err(e) => {
                        return Err(e);
                    },
                }
                self.ws();
            } else if !have_tag && self.peek() == Some(BANG) {
                match self.tag(flow) {
                    Ok(ty) => {
                        props.ty = ty;
                        props.any = true;
                        have_tag = true;
                    },
                    Err(e) => {
                        return Err(e);
                    },
                }
                self.ws();
            }
            k += 1;
        }
        Ok(props)
    }
}

} // verus!
