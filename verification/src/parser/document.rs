//! Documents and the stream of them.
use crate::anchors::AnchorTable;
use crate::node::NodeBase;
use crate::parser::base::{PError, Parser};
use crate::parser::directive::{directive_spec, props_spec, Cx};
use crate::parser::grammar::{
    blank_end, blank_end_bounds, gap_end, gap_end_bounds, is_nl, line_start, nl_len, ws_end, DASH,
    DOT, PERCENT,
};
use crate::parser::scalar::{fatal, marker_at};
use crate::parser::block::block_value_spec;
use crate::tags::{default_table, default_tags, tag_entries};
use crate::yaml::{NodeView, YamlView};
use vstd::prelude::*;
use vstd::slice::slice_subrange;

verus! {

/// A document as specifications see it: its root and its anchors.
pub ghost struct Doc {
    pub root: NodeView,
    pub anchors: Map<Seq<char>, NodeView>,
}

/// What reading one document leaves.
pub ghost struct DocOut {
    /// The document.
    pub doc: Doc,
    /// The place behind it.
    pub pos: int,
    /// Whether `...` ended it.
    pub ended: bool,
    /// The tag handles behind its directives.
    pub tags: Map<Seq<char>, Seq<char>>,
    /// Whether it has a version directive.
    pub checked: bool,
    /// The indentation stack behind it.
    pub indent: Seq<usize>,
}

/// What the directives of a document leave.
pub ghost struct Directives {
    pub tags: Map<Seq<char>, Seq<char>>,
    pub checked: bool,
    pub seen: bool,
    pub pos: int,
}

/// The views of the documents.
pub open spec fn doc_views(docs: Seq<(NodeBase, AnchorTable)>) -> Seq<Doc> {
    Seq::new(docs.len(), |i: int| Doc { root: docs[i].0@, anchors: docs[i].1.deep() })
}

/// The length of a byte order mark at `at`.
pub open spec fn bom_len(doc: Seq<u8>, at: int) -> int {
    if 0 <= at && at + 2 < doc.len() && doc[at] == 0xef && doc[at + 1] == 0xbb && doc[at + 2] == 0xbf {
        3
    } else {
        0
    }
}

/// The input holds no document: behind the byte order mark there are only
/// blank lines and comments.
pub open spec fn is_blank(doc: Seq<u8>, at: int) -> bool {
    gap_end(doc, at + bom_len(doc, at)) >= doc.len()
}

/// The root of every document is well formed.
pub open spec fn roots_wf(docs: Seq<(NodeBase, AnchorTable)>) -> bool {
    forall|i: int| 0 <= i < docs.len() ==> (#[trigger] docs[i]).0.wf()
}

/// The directive lines from `at` on, each with the blank lines and
/// comments behind it.
pub open spec fn directives_spec(cx: Cx, at: int, checked: bool, seen: bool) -> Result<
    Directives,
    PError,
>
    decreases cx.doc.len() - at,
{
    match directive_spec(cx, at, checked) {
        Ok(got) => {
            let g = gap_end(cx.doc, got.end);
            if at < g <= cx.doc.len() {
                directives_spec(Cx { tags: got.tags, ..cx }, g, got.checked, true)
            } else {
                Ok(Directives { tags: got.tags, checked: got.checked, seen: true, pos: g })
            }
        },
        Err(PError::Mismatch) => Ok(Directives { tags: cx.tags, checked, seen, pos: at }),
        Err(e) => Err(e),
    }
}

/// One document at `at`.
///
/// It starts with the default tag handles and without anchors. Its
/// directives come first; behind them `---` must follow. The root is the
/// node behind that, and `Null` where there is none. `...` on a line of its
/// own may end the document.
pub open spec fn document_spec(doc: Seq<u8>, base: int, width: usize, at: int, depth: nat) -> Result<
    DocOut,
    PError,
> {
    let cx = Cx { doc, base, tags: default_tags(), width };
    match directives_spec(cx, at, false, false) {
        Err(e) => Err(e),
        Ok(ds) => {
            let marked = marker_at(doc, ds.pos, DASH);
            if !marked && ds.seen {
                fatal(base, ds.pos, "directives without a document")
            } else {
                let from = if marked {
                    ds.pos + 3
                } else {
                    ds.pos
                };
                match block_value_spec(
                    Cx { tags: ds.tags, ..cx },
                    from,
                    Map::<Seq<char>, NodeView>::empty(),
                    seq![0usize],
                    0,
                    0,
                    false,
                    depth,
                ) {
                    Err(e) => Err(e),
                    Ok(root) => {
                        let g = gap_end(doc, root.pos);
                        let out = DocOut {
                            doc: Doc { root: root.value, anchors: root.anchors },
                            pos: root.pos,
                            ended: false,
                            tags: ds.tags,
                            checked: ds.checked,
                            indent: root.indent,
                        };
                        if marker_at(doc, g, DOT) {
                            let b = blank_end(doc, g + 3);
                            if b < doc.len() && !is_nl(doc[b]) {
                                fatal(base, b, "invalid document end")
                            } else {
                                Ok(DocOut { pos: b + nl_len(doc, b), ended: true, ..out })
                            }
                        } else {
                            Ok(out)
                        }
                    },
                }
            }
        },
    }
}

/// The documents from `at` on, behind `docs`.
///
/// Behind a document and the blank lines and comments that follow it, the
/// input ends, or the next document starts at the start of a line: with
/// `---`, with a directive or, behind `...`, with anything. A document
/// that takes nothing of the input is fatal, and so is anything else
/// behind a document. The offsets of the next document count on from where
/// it starts.
pub open spec fn stream_spec(
    doc: Seq<u8>,
    base: int,
    width: usize,
    at: int,
    depth: nat,
    docs: Seq<Doc>,
) -> Result<Seq<Doc>, PError>
    decreases doc.len(),
{
    match document_spec(doc, base, width, at, depth) {
        Err(e) => Err(e),
        Ok(out) => if out.pos <= at {
            fatal(base, out.pos, "invalid document")
        } else {
            let all = docs.push(out.doc);
            let g = gap_end(doc, out.pos);
            if !(0 < g < doc.len()) {
                Ok(all)
            } else if !(line_start(doc, g) == g && (marker_at(doc, g, DASH) || doc[g] == PERCENT
                || out.ended)) {
                fatal(base, g, "invalid content")
            } else {
                stream_spec(doc.subrange(g, doc.len() as int), base + g, width, 0, depth, all)
            }
        },
    }
}

/// The documents of the input from `at` on: none where it holds only a
/// byte order mark, blank lines and comments.
pub open spec fn parse_spec(doc: Seq<u8>, base: int, width: usize, at: int, depth: nat) -> Result<
    Seq<Doc>,
    PError,
> {
    let g = gap_end(doc, at + bom_len(doc, at));
    if !(0 <= g < doc.len()) {
        Ok(Seq::<Doc>::empty())
    } else {
        stream_spec(doc, base, width, g, depth, Seq::<Doc>::empty())
    }
}

/// An input that holds only a byte order mark, blank lines and comments
/// has no document.
pub proof fn law_blank_input_has_no_document(doc: Seq<u8>, base: int, width: usize, at: int, depth: nat)
    requires
        is_blank(doc, at),
    ensures
        parse_spec(doc, base, width, at, depth) == Ok::<Seq<Doc>, PError>(Seq::<Doc>::empty()),
{
}

/// The three bytes `---`.
pub open spec fn lone_marker() -> Seq<u8> {
    seq![DASH, DASH, DASH]
}

/// An input that holds `---` and nothing else has one document, without
/// anchors, whose root is `Null` and stands behind the marker.
pub proof fn law_lone_marker_is_null(width: usize, depth: nat)
    ensures
        parse_spec(lone_marker(), 0, width, 0, depth) == Ok::<Seq<Doc>, PError>(
            seq![
                Doc {
                    root: NodeView {
                        yaml: YamlView::Null,
                        pos: 3,
                        ty: Seq::<char>::empty(),
                        anchor: Seq::<char>::empty(),
                    },
                    anchors: Map::<Seq<char>, NodeView>::empty(),
                },
            ],
        ),
{
    let d = lone_marker();
    let cx = Cx { doc: d, base: 0, tags: default_tags(), width };
    assert(d.len() == 3 && d[0] == DASH && d[1] == DASH && d[2] == DASH);
    assert(ws_end(d, 0) == 0 && ws_end(d, 3) == 3);
    assert(blank_end(d, 0) == 0 && blank_end(d, 3) == 3);
    assert(gap_end(d, 0) == 0 && gap_end(d, 3) == 3);
    assert(line_start(d, 0) == 0);
    assert(marker_at(d, 0, DASH));
    assert(line_start(d, 3) != 3) by {
        reveal_with_fuel(line_start, 5);
    }
    assert(!marker_at(d, 3, DOT));
    assert(directive_spec(cx, 0, false) == Err::<crate::parser::directive::Directed, PError>(
        PError::Mismatch,
    ));
    assert(directives_spec(cx, 0, false, false) == Ok::<Directives, PError>(
        Directives { tags: default_tags(), checked: false, seen: false, pos: 0 },
    ));
    let none = crate::parser::directive::no_props();
    assert(props_spec(cx, 3, false) == Ok::<(crate::parser::directive::PropsView, int), PError>(
        (none, 3),
    )) by {
        reveal_with_fuel(crate::parser::directive::props_step, 4);
    }
    let root = crate::parser::flow::committed(
        YamlView::Null,
        3u64,
        none,
        3,
        Map::<Seq<char>, NodeView>::empty(),
        seq![0usize],
    );
    assert(block_value_spec(
        cx,
        3,
        Map::<Seq<char>, NodeView>::empty(),
        seq![0usize],
        0,
        0,
        false,
        depth,
    ) == Ok::<crate::parser::flow::Got<NodeView>, PError>(root)) by {
        reveal(block_value_spec);
    }
    let doc = Doc { root: root.value, anchors: root.anchors };
    assert(document_spec(d, 0, width, 0, depth) == Ok::<DocOut, PError>(
        DocOut {
            doc,
            pos: 3,
            ended: false,
            tags: default_tags(),
            checked: false,
            indent: seq![0usize],
        },
    ));
    assert(Seq::<Doc>::empty().push(doc) =~= seq![doc]);
    assert(stream_spec(d, 0, width, 0, depth, Seq::<Doc>::empty()) == Ok::<Seq<Doc>, PError>(
        seq![doc],
    ));
    assert(bom_len(d, 0) == 0);
}

impl<'a> Parser<'a> {
    /// Puts the state that belongs to one document back to its defaults:
    /// the tag handles, the version flag, the anchors and the indentation.
    pub fn reset(&mut self)
        requires
            old(self).wf(),
        ensures
            final(self).kept(old(self)),
            final(self).pos == old(self).pos,
            tag_entries(final(self).tag) == default_tags(),
            !final(self).version_checked,
            final(self).anchors@ == Map::<Seq<char>, NodeBase>::empty(),
            final(self).indent@ == seq![0usize],
    {
        self.tag = default_table();
        self.version_checked = false;
        self.anchors = AnchorTable::new();
        let mut indent: Vec<usize> = Vec::new();
        indent.push(0);
        self.indent = indent;
    }

    /// Matches the directives of a document; says whether there was one.
    pub fn directives(&mut self) -> (r: Result<bool, PError>)
        requires
            old(self).wf(),
        ensures
            final(self).kept(old(self)),
            final(self).indent == old(self).indent,
            final(self).anchors == old(self).anchors,
            match directives_spec(old(self).cx(), old(self).pos as int, old(self).version_checked, false) {
                Ok(got) => r == Ok::<bool, PError>(got.seen) && final(self).pos == got.pos
                    && tag_entries(final(self).tag) == got.tags && final(self).version_checked
                    == got.checked && got.pos >= old(self).pos,
                Err(e) => r == Err::<bool, PError>(e) && !(e is Mismatch),
            },
    {
        let ghost goal = directives_spec(self.cx(), self.pos as int, self.version_checked, false);
        let mut seen = false;
        loop
            invariant
                self.kept(old(self)),
                self.indent == old(self).indent,
                self.anchors == old(self).anchors,
                self.pos >= old(self).pos,
                goal == directives_spec(self.cx(), self.pos as int, self.version_checked, seen),
                goal == directives_spec(
                    old(self).cx(),
                    old(self).pos as int,
                    old(self).version_checked,
                    false,
                ),
            decreases self.doc@.len() - self.pos,
        {
            match self.directive() {
                Ok(()) => {
                    seen = true;
                    proof {
                        gap_end_bounds(self.doc@, self.pos as int);
                    }
                    self.gap();
                },
                Err(PError::Mismatch) => {
                    return Ok(seen);
                },
                Err(e) => {
                    return Err(e);
                },
            }
        }
    }

    /// Matches one document: its directives, `---`, the root node and
    /// `...`; gives the root, the anchors of the document, and whether
    /// `...` ended it.
    ///
    /// A document without content has a `Null` root.
    pub fn document(&mut self) -> (r: Result<(NodeBase, AnchorTable, bool), PError>)
        requires
            old(self).wf(),
        ensures
            final(self).kept(old(self)),
            !(r matches Err(PError::Mismatch)),
            match document_spec(
                old(self).doc@,
                old(self).consumed as int,
                old(self).width,
                old(self).pos as int,
                old(self).depth as nat,
            ) {
                Ok(out) => r matches Ok(d) && d.0@ == out.doc.root && d.0.wf() && d.1.deep()
                    == out.doc.anchors && d.2 == out.ended && final(self).pos == out.pos
                    && out.pos >= old(self).pos && tag_entries(final(self).tag) == out.tags
                    && final(self).version_checked == out.checked && final(self).indent@
                    == out.indent && final(self).anchors@ == Map::<Seq<char>, NodeBase>::empty(),
                Err(e) => r == Err::<(NodeBase, AnchorTable, bool), PError>(e),
            },
    {
        self.reset();
        assert(self.anchors.deep() =~= Map::<Seq<char>, NodeView>::empty());
        let seen = match self.directives() {
            Ok(seen) => seen,
            Err(e) => {
                return Err(e);
            },
        };
        if self.marker(DASH) {
            self.pos += 3;
        } else if seen {
            return self.err("directives without a document");
        }
        let root = match self.block_value(0, 0, false, self.depth) {
            Ok(n) => n,
            Err(e) => {
                return Err(e);
            },
        };
        let save = self.pos;
        proof {
            gap_end_bounds(self.doc@, save as int);
        }
        self.gap();
        let mut ended = false;
        if self.marker(DOT) {
            self.pos += 3;
            proof {
                blank_end_bounds(self.doc@, self.pos as int);
            }
            self.blank();
            if !self.nl() && self.pos < self.doc.len() {
                return self.err("invalid document end");
            }
            ended = true;
        } else {
            self.pos = save;
        }
        let mut anchors = AnchorTable::new();
        core::mem::swap(&mut self.anchors, &mut anchors);
        Ok((root, anchors, ended))
    }

    /// Reads the rest of the input: every document with its anchors.
    ///
    /// Input that holds only blank lines and comments gives no document. A
    /// failure is always fatal and says where.
    pub fn parse(&mut self) -> (r: Result<Vec<(NodeBase, AnchorTable)>, PError>)
        requires
            old(self).wf(),
        ensures
            final(self).wf(),
            r is Ok ==> final(self).offset() >= old(self).offset(),
            final(self).consumed + final(self).doc@.len() == old(self).consumed + old(self).doc@.len(),
            !(r matches Err(PError::Mismatch)),
            match parse_spec(
                old(self).doc@,
                old(self).consumed as int,
                old(self).width,
                old(self).pos as int,
                old(self).depth as nat,
            ) {
                Ok(docs) => r matches Ok(v) && doc_views(v@) == docs,
                Err(e) => r == Err::<Vec<(NodeBase, AnchorTable)>, PError>(e),
            },
            r matches Ok(v) ==> roots_wf(v@),
            r matches Ok(v) ==> (v@.len() == 0 <==> is_blank(old(self).doc@, old(self).pos as int)),
            is_blank(old(self).doc@, old(self).pos as int) ==> r is Ok,
    {
        let mut docs: Vec<(NodeBase, AnchorTable)> = Vec::new();
        let ghost end = self.consumed + self.doc@.len();
        let ghost goal = parse_spec(
            self.doc@,
            self.consumed as int,
            self.width,
            self.pos as int,
            self.depth as nat,
        );
        if self.peek() == Some(0xef) && self.peek_at(1) == Some(0xbb) && self.peek_at(2) == Some(0xbf) {
            self.pos += 3;
        }
        proof {
            gap_end_bounds(self.doc@, self.pos as int);
        }
        self.gap();
        assert(doc_views(docs@) =~= Seq::<Doc>::empty());
        if self.pos >= self.doc.len() {
            return Ok(docs);
        }
        loop
            invariant
                self.wf(),
                self.pos < self.doc@.len(),
                self.offset() >= old(self).offset(),
                self.consumed + self.doc@.len() == end,
                end == old(self).consumed + old(self).doc@.len(),
                self.width == old(self).width,
                self.depth == old(self).depth,
                roots_wf(docs@),
                !is_blank(old(self).doc@, old(self).pos as int),
                goal == stream_spec(
                    self.doc@,
                    self.consumed as int,
                    self.width,
                    self.pos as int,
                    self.depth as nat,
                    doc_views(docs@),
                ),
                goal == parse_spec(
                    old(self).doc@,
                    old(self).consumed as int,
                    old(self).width,
                    old(self).pos as int,
                    old(self).depth as nat,
                ),
            decreases self.doc@.len() - self.pos,
        {
            let before = self.pos;
            let ghost views = doc_views(docs@);
            let ended = match self.document() {
                Ok(d) => {
                    let ended = d.2;
                    docs.push((d.0, d.1));
                    assert(doc_views(docs@) =~= views.push(
                        Doc { root: d.0@, anchors: d.1.deep() },
                    ));
                    ended
                },
                Err(e) => {
                    return Err(e);
                },
            };
            if self.pos == before {
                return self.err("invalid document");
            }
            proof {
                gap_end_bounds(self.doc@, self.pos as int);
            }
            self.gap();
            if self.pos >= self.doc.len() {
                return Ok(docs);
            }
            if !(self.column() == 0 && (self.marker(DASH) || self.peek() == Some(PERCENT) || ended)) {
                return self.err("invalid content");
            }
            let cut = self.pos;
            self.consume();
            self.doc = slice_subrange(self.doc, cut, self.doc.len());
        }
    }
}

/// Reads the documents of `doc`, each with its anchors.
pub fn parse(doc: &[u8]) -> (r: Result<Vec<(NodeBase, AnchorTable)>, PError>)
    ensures
        !(r matches Err(PError::Mismatch)),
        match parse_spec(doc@, 0, 2, 0, 128) {
            Ok(docs) => r matches Ok(v) && doc_views(v@) == docs,
            Err(e) => r == Err::<Vec<(NodeBase, AnchorTable)>, PError>(e),
        },
        r matches Ok(v) ==> roots_wf(v@),
        r matches Ok(v) ==> (v@.len() == 0 <==> is_blank(doc@, 0)),
        is_blank(doc@, 0) ==> r is Ok,
{
    let mut parser = Parser::new(doc);
    parser.parse()
}

} // verus!
