//! Flow collections and the nodes that they hold.
use crate::node::NodeBase;
use crate::parser::base::{PError, Parser};
use crate::parser::directive::{anchor_spec, props_spec, Cx, Props, PropsView};
use crate::parser::grammar::{
    blank_end, blank_end_bounds, is_nl, is_ws, nl_len, COLON, COMMA, DQ, LBRACE, LBRACKET,
    QUESTION, RBRACE, RBRACKET, SQ, STAR,
};
use crate::parser::kind::{scalar_of, scalar_view};
use crate::parser::scalar::{double_text, fatal, plain_text, single_text};
use crate::text::text_of;
use crate::yaml::{
    keys_unique, pair_views, payload_of_view, view_of_entries, view_of_items, views, NodeView, Yaml,
    YamlView,
};
use vstd::prelude::*;

verus! {

fn find_key(entries: &Vec<(NodeBase, NodeBase)>, key: &NodeBase) -> (r: bool)
    ensures
        r == exists|i: int| 0 <= i < entries@.len() && entries@[i].0.payload() == key.payload(),
{
    let mut i: usize = 0;
    while i < entries.len()
        invariant
            i <= entries@.len(),
            forall|k: int| 0 <= k < i ==> entries@[k].0.payload() != key.payload(),
        decreases entries@.len() - i,
    {
        if entries[i].0.yaml().same(key.yaml()) {
            return true;
        }
        i += 1;
    }
    false
}

/// Whether one of the entries has a key equal to `key`.
pub fn has_key(entries: &Vec<(NodeBase, NodeBase)>, key: &NodeBase) -> (r: bool)
    ensures
        r == exists|i: int| 0 <= i < entries@.len() && entries@[i].0.payload() == key.payload(),
        r == holds_key(pair_views(entries@), key@),
{
    let r = find_key(entries, key);
    proof {
        let pairs = pair_views(entries@);
        payload_of_view(&key.0.yaml);
        assert forall|i: int| 0 <= i < entries@.len() implies (#[trigger] pairs[i]).0.yaml.payload()
            == entries@[i].0.payload() by {
            payload_of_view(&entries@[i].0.0.yaml);
        }
        if holds_key(pairs, key@) {
            let i = choose|i: int| 0 <= i < pairs.len() && (#[trigger] pairs[i]).0.yaml.payload()
                == key@.yaml.payload();
            assert(entries@[i].0.payload() == key.payload());
        }
        if r {
            let i = choose|i: int| 0 <= i < entries@.len() && entries@[i].0.payload() == key.payload();
            assert(pairs[i].0.yaml.payload() == key@.yaml.payload());
        }
    }
    r
}

/// Every node of the entries is well formed and no key occurs twice.
pub open spec fn entries_wf(entries: Seq<(NodeBase, NodeBase)>) -> bool {
    &&& forall|i: int| 0 <= i < entries.len() ==> (#[trigger] entries[i]).0.wf() && entries[i].1.wf()
    &&& keys_unique(entries)
}

/// Every node of the items is well formed.
pub open spec fn items_wf(items: Seq<NodeBase>) -> bool {
    forall|i: int| 0 <= i < items.len() ==> (#[trigger] items[i]).wf()
}

/// What a production gives: the value, the place behind it, and the
/// anchors and the indentation stack as it leaves them.
pub ghost struct Got<T> {
    pub value: T,
    pub pos: int,
    pub anchors: Map<Seq<char>, NodeView>,
    pub indent: Seq<usize>,
}

/// The absolute offset of the place `at`.
pub open spec fn offset(cx: Cx, at: int) -> u64 {
    (cx.base + at) as u64
}

/// A `Null` node at the place `at`.
pub open spec fn null_at(cx: Cx, at: int) -> NodeView {
    NodeView {
        yaml: YamlView::Null,
        pos: offset(cx, at),
        ty: Seq::<char>::empty(),
        anchor: Seq::<char>::empty(),
    }
}

/// The node with this value and these properties, and the anchors once
/// its anchor, where it has one, is bound to it.
pub open spec fn committed(
    yaml: YamlView,
    at: u64,
    p: PropsView,
    pos: int,
    anchors: Map<Seq<char>, NodeView>,
    indent: Seq<usize>,
) -> Got<NodeView> {
    let n = NodeView { yaml, pos: at, ty: p.ty, anchor: p.anchor };
    Got {
        value: n,
        pos,
        anchors: if p.anchor.len() > 0 {
            anchors.insert(p.anchor, n)
        } else {
            anchors
        },
        indent,
    }
}

/// The place behind white space, comments and line breaks.
pub open spec fn flow_gap_end(d: Seq<u8>, at: int) -> int
    decreases d.len() - at,
{
    let b = blank_end(d, at);
    if 0 <= at <= b < d.len() && is_nl(d[b]) {
        flow_gap_end(d, b + nl_len(d, b))
    } else {
        b
    }
}

pub proof fn flow_gap_end_bounds(d: Seq<u8>, at: int)
    requires
        0 <= at <= d.len(),
    ensures
        at <= flow_gap_end(d, at) <= d.len(),
    decreases d.len() - at,
{
    blank_end_bounds(d, at);
    let b = blank_end(d, at);
    if b < d.len() && is_nl(d[b]) {
        flow_gap_end_bounds(d, b + nl_len(d, b));
    }
}

/// A text as a string value.
pub open spec fn as_str_value(
    text: Result<(Seq<u8>, int), PError>,
    anchors: Map<Seq<char>, NodeView>,
    indent: Seq<usize>,
) -> Result<Got<YamlView>, PError> {
    match text {
        Ok((bytes, end)) => Ok(Got { value: YamlView::Str(text_of(bytes)), pos: end, anchors, indent }),
        Err(e) => Err(e),
    }
}

/// An alias at `at`.
pub open spec fn alias_spec(
    cx: Cx,
    at: int,
    flow: bool,
    anchors: Map<Seq<char>, NodeView>,
    indent: Seq<usize>,
) -> Result<Got<YamlView>, PError> {
    match anchor_spec(cx.doc, cx.base, at, flow, STAR) {
        Ok((name, end)) => Ok(Got { value: YamlView::Anchor(name), pos: end, anchors, indent }),
        Err(e) => Err(e),
    }
}

/// A plain scalar at `at`, as the value that its text is read as.
pub open spec fn plain_value(
    cx: Cx,
    at: int,
    flow: bool,
    min_col: int,
    single: bool,
    anchors: Map<Seq<char>, NodeView>,
    indent: Seq<usize>,
) -> Result<Got<YamlView>, PError> {
    match plain_text(cx.doc, at, flow, min_col, single) {
        Some((bytes, multi, end)) => Ok(Got { value: scalar_view(bytes), pos: end, anchors, indent }),
        None => Err(PError::Mismatch),
    }
}

/// Whether one of the entries has a key with the payload of `key`.
pub open spec fn holds_key(entries: Seq<(NodeView, NodeView)>, key: NodeView) -> bool {
    exists|i: int| 0 <= i < entries.len() && (#[trigger] entries[i]).0.yaml.payload() == key.yaml.payload()
}

/// A node inside a flow collection, at `at`: its properties, and behind
/// them and what separates them from it a sequence, a mapping, a quoted
/// scalar, an alias or a plain scalar. Properties alone are a `Null` node.
#[verifier::opaque]
pub open spec fn flow_node_spec(cx: Cx, at: int, anchors: Map<Seq<char>, NodeView>, indent: Seq<usize>, fuel: nat) -> Result<
    Got<NodeView>,
    PError,
>
    decreases fuel, 4int, 0int,
{
    let d = cx.doc;
    match props_spec(cx, at, true) {
        Err(e) => Err(e),
        Ok((p, behind)) => {
            let e = if p.any {
                flow_gap_end(d, behind)
            } else {
                behind
            };
            let content = if !(0 <= e < d.len()) {
                Err(PError::Mismatch)
            } else if d[e] == LBRACKET {
                flow_seq_spec(cx, e, anchors, indent, fuel)
            } else if d[e] == LBRACE {
                flow_map_spec(cx, e, anchors, indent, fuel)
            } else if d[e] == DQ {
                as_str_value(double_text(d, cx.base, e), anchors, indent)
            } else if d[e] == SQ {
                as_str_value(single_text(d, cx.base, e), anchors, indent)
            } else if d[e] == STAR {
                alias_spec(cx, e, true, anchors, indent)
            } else {
                plain_value(cx, e, true, 0, false, anchors, indent)
            };
            match content {
                Ok(g) => Ok(committed(g.value, offset(cx, at), p, g.pos, g.anchors, indent)),
                Err(PError::Mismatch) => if p.any {
                    Ok(committed(YamlView::Null, offset(cx, at), p, e, anchors, indent))
                } else {
                    Err(PError::Mismatch)
                },
                Err(x) => Err(x),
            }
        },
    }
}

/// A flow sequence at `at`: `[`, items between commas, `]`.
pub open spec fn flow_seq_spec(cx: Cx, at: int, anchors: Map<Seq<char>, NodeView>, indent: Seq<usize>, fuel: nat) -> Result<
    Got<YamlView>,
    PError,
>
    decreases fuel, 3int, 0int,
{
    if !(0 <= at < cx.doc.len() && cx.doc[at] == LBRACKET) {
        Err(PError::Mismatch)
    } else if fuel == 0 {
        fatal(cx.base, at, "nesting too deep")
    } else {
        flow_seq_rest(cx, at + 1, anchors, indent, Seq::<NodeView>::empty(), fuel)
    }
}

/// The rest of a flow sequence from `at` on, behind `items`.
///
/// Behind what separates: `]` ends the sequence; a comma stands for a
/// `Null` item; else a node follows, and behind it a comma or `]`.
#[verifier::opaque]
pub open spec fn flow_seq_rest(
    cx: Cx,
    at: int,
    anchors: Map<Seq<char>, NodeView>,
    indent: Seq<usize>,
    items: Seq<NodeView>,
    fuel: nat,
) -> Result<Got<YamlView>, PError>
    decreases fuel, 2int, cx.doc.len() - at,
{
    let d = cx.doc;
    let g = flow_gap_end(d, at);
    if fuel == 0 || !(0 <= at <= g < d.len()) {
        fatal(cx.base, g, "unclosed sequence")
    } else if d[g] == RBRACKET {
        Ok(Got { value: YamlView::Array(items), pos: g + 1, anchors, indent })
    } else if d[g] == COMMA {
        flow_seq_rest(cx, g + 1, anchors, indent, items.push(null_at(cx, g)), fuel)
    } else {
        match flow_node_spec(cx, g, anchors, indent, (fuel - 1) as nat) {
            Err(PError::Mismatch) => fatal(cx.base, g, "invalid flow sequence"),
            Err(x) => Err(x),
            Ok(n) => {
                let h = flow_gap_end(d, n.pos);
                if !(g <= h < d.len()) {
                    fatal(cx.base, h, "unclosed sequence")
                } else if d[h] == COMMA {
                    flow_seq_rest(cx, h + 1, n.anchors, indent, items.push(n.value), fuel)
                } else if d[h] == RBRACKET {
                    Ok(
                        Got {
                            value: YamlView::Array(items.push(n.value)),
                            pos: h + 1,
                            anchors: n.anchors,
                            indent,
                        },
                    )
                } else {
                    fatal(cx.base, h, "invalid flow sequence")
                }
            },
        }
    }
}

/// A flow mapping at `at`: `{`, pairs between commas, `}`.
pub open spec fn flow_map_spec(cx: Cx, at: int, anchors: Map<Seq<char>, NodeView>, indent: Seq<usize>, fuel: nat) -> Result<
    Got<YamlView>,
    PError,
>
    decreases fuel, 3int, 0int,
{
    if !(0 <= at < cx.doc.len() && cx.doc[at] == LBRACE) {
        Err(PError::Mismatch)
    } else if fuel == 0 {
        fatal(cx.base, at, "nesting too deep")
    } else {
        flow_map_rest(cx, at + 1, anchors, indent, Seq::<(NodeView, NodeView)>::empty(), fuel)
    }
}

/// Whether white space, a line break or the end stands at `at`.
pub open spec fn sep(d: Seq<u8>, at: int) -> bool {
    at >= d.len() || (0 <= at && (is_ws(d[at]) || is_nl(d[at])))
}

/// The rest of a flow mapping from `at` on, behind `entries`.
///
/// Behind what separates: `}` ends the mapping; else a pair follows. `?`
/// before a separator may lead it. Its key is a node, or `Null` where a
/// colon stands there. Its value is a node behind a colon, or `Null` where
/// there is no colon or a comma or `}` follows the colon. A key that
/// occurs twice is fatal. Behind the pair stands a comma or `}`.
#[verifier::opaque]
pub open spec fn flow_map_rest(
    cx: Cx,
    at: int,
    anchors: Map<Seq<char>, NodeView>,
    indent: Seq<usize>,
    entries: Seq<(NodeView, NodeView)>,
    fuel: nat,
) -> Result<Got<YamlView>, PError>
    decreases fuel, 2int, cx.doc.len() - at,
{
    let d = cx.doc;
    let g = flow_gap_end(d, at);
    if fuel == 0 || !(0 <= at <= g < d.len()) {
        fatal(cx.base, g, "unclosed mapping")
    } else if d[g] == RBRACE {
        Ok(Got { value: YamlView::Mapping(entries), pos: g + 1, anchors, indent })
    } else {
        let k = if d[g] == QUESTION && sep(d, g + 1) {
            flow_gap_end(d, g + 1)
        } else {
            g
        };
        let key = match flow_node_spec(cx, k, anchors, indent, (fuel - 1) as nat) {
            Err(PError::Mismatch) => if 0 <= k < d.len() && d[k] == COLON {
                Ok(Got { value: null_at(cx, k), pos: k, anchors, indent })
            } else {
                fatal(cx.base, k, "invalid flow mapping")
            },
            other => other,
        };
        match key {
            Err(x) => Err(x),
            Ok(kn) => {
                let c = flow_gap_end(d, kn.pos);
                let value = if 0 <= c < d.len() && d[c] == COLON {
                    let v = flow_gap_end(d, c + 1);
                    match flow_node_spec(cx, v, kn.anchors, indent, (fuel - 1) as nat) {
                        Err(PError::Mismatch) => if 0 <= v < d.len() && (d[v] == COMMA || d[v]
                            == RBRACE) {
                            Ok(Got { value: null_at(cx, v), pos: v, anchors: kn.anchors, indent })
                        } else {
                            fatal(cx.base, v, "invalid flow mapping")
                        },
                        other => other,
                    }
                } else {
                    Ok(Got { value: null_at(cx, c), pos: c, anchors: kn.anchors, indent })
                };
                match value {
                    Err(x) => Err(x),
                    Ok(vn) => if holds_key(entries, kn.value) {
                        Err(PError::Terminate(kn.value.pos, "duplicate key"))
                    } else {
                        let h = flow_gap_end(d, vn.pos);
                        let all = entries.push((kn.value, vn.value));
                        if !(g <= h < d.len()) {
                            fatal(cx.base, h, "unclosed mapping")
                        } else if d[h] == COMMA {
                            flow_map_rest(cx, h + 1, vn.anchors, indent, all, fuel)
                        } else if d[h] == RBRACE {
                            Ok(
                                Got {
                                    value: YamlView::Mapping(all),
                                    pos: h + 1,
                                    anchors: vn.anchors,
                                    indent,
                                },
                            )
                        } else {
                            fatal(cx.base, h, "invalid flow mapping")
                        }
                    },
                }
            },
        }
    }
}

impl<'a> Parser<'a> {
    /// How a production that gives a node leaves the parser, given what
    /// the grammar says of the input: with that node, the cursor behind it,
    /// and those anchors and that indentation stack; or with that error,
    /// and then as it was where the error is a mismatch.
    pub open spec fn gave(
        &self,
        before: &Self,
        r: Result<NodeBase, PError>,
        want: Result<Got<NodeView>, PError>,
    ) -> bool {
        &&& self.kept(before)
        &&& self.tag == before.tag
        &&& self.version_checked == before.version_checked
        &&& match want {
            Ok(got) => r matches Ok(n) && n@ == got.value && n.wf() && self.pos == got.pos
                && self.anchors.deep() == got.anchors && self.indent@ == got.indent && got.pos
                >= before.pos,
            Err(e) => r == Err::<NodeBase, PError>(e) && (e is Mismatch ==> self.pos == before.pos
                && self.anchors == before.anchors && self.indent == before.indent),
        }
    }

    /// As [`Parser::gave`], for a production that gives a value.
    pub open spec fn gave_value(
        &self,
        before: &Self,
        r: Result<Yaml, PError>,
        want: Result<Got<YamlView>, PError>,
    ) -> bool {
        &&& self.kept(before)
        &&& self.tag == before.tag
        &&& self.version_checked == before.version_checked
        &&& match want {
            Ok(got) => r matches Ok(y) && y@ == got.value && y.wf() && self.pos == got.pos
                && self.anchors.deep() == got.anchors && self.indent@ == got.indent && got.pos
                > before.pos,
            Err(e) => r == Err::<Yaml, PError>(e) && (e is Mismatch ==> self.pos == before.pos
                && self.anchors == before.anchors && self.indent == before.indent),
        }
    }

    /// Makes the node, and binds its anchor where it has one.
    pub fn commit(&mut self, yaml: Yaml, at: u64, props: Props) -> (n: NodeBase)
        requires
            old(self).wf(),
            yaml.wf(),
        ensures
            final(self).kept(old(self)),
            final(self).pos == old(self).pos,
            final(self).indent == old(self).indent,
            final(self).tag == old(self).tag,
            final(self).version_checked == old(self).version_checked,
            n.0.yaml == yaml,
            n.0.deco.pos == at,
            n.0.deco.ty@ == props.ty@,
            n.0.deco.anchor@ == props.anchor@,
            n.wf(),
            final(self).anchors@ == (if props.anchor@.len() > 0 {
                old(self).anchors@.insert(props.anchor@, n)
            } else {
                old(self).anchors@
            }),
            !props.any && props.anchor@.len() == 0 ==> final(self).anchors == old(self).anchors,
            committed(
                yaml@,
                at,
                props@,
                final(self).pos as int,
                old(self).anchors.deep(),
                final(self).indent@,
            ) == (Got {
                value: n@,
                pos: final(self).pos as int,
                anchors: final(self).anchors.deep(),
                indent: final(self).indent@,
            }),
    {
        let n = NodeBase::new(yaml, at, props.ty.as_str(), props.anchor.as_str());
        if !props.anchor.as_str().is_empty() {
            let ghost name = props.anchor@;
            self.anchors.insert(props.anchor, n.clone());
            assert(self.anchors.deep() =~= old(self).anchors.deep().insert(name, n@));
        }
        n
    }

    /// A `Null` node at the cursor.
    pub fn null_here(&self) -> (n: NodeBase)
        requires
            self.wf(),
        ensures
            n.0.yaml == Yaml::Null,
            n.0.deco.pos == self.offset(),
            n.wf(),
            n@ == null_at(self.cx(), self.pos as int),
    {
        proof {
            reveal_strlit("");
        }
        assert(""@ =~= Seq::<char>::empty());
        NodeBase::new(Yaml::Null, self.indicator(), "", "")
    }

    /// Skips white space, comments and line breaks.
    pub fn flow_gap(&mut self)
        requires
            old(self).wf(),
        ensures
            final(self).wf(),
            *final(self) == old(self).moved(final(self).pos),
            final(self).pos >= old(self).pos,
            final(self).pos == flow_gap_end(old(self).doc@, old(self).pos as int),
    {
        loop
            invariant
                self.wf(),
                *self == old(self).moved(self.pos),
                self.pos >= old(self).pos,
                flow_gap_end(self.doc@, self.pos as int) == flow_gap_end(
                    old(self).doc@,
                    old(self).pos as int,
                ),
            decreases self.doc@.len() - self.pos,
        {
            proof {
                blank_end_bounds(self.doc@, self.pos as int);
            }
            self.blank();
            if !self.nl() {
                return ;
            }
        }
    }

    /// Matches an alias (`*name`).
    pub fn alias(&mut self, flow: bool) -> (r: Result<Yaml, PError>)
        requires
            old(self).wf(),
        ensures
            *final(self) == old(self).moved(final(self).pos),
            final(self).gave_value(
                old(self),
                r,
                alias_spec(
                    old(self).cx(),
                    old(self).pos as int,
                    flow,
                    old(self).anchors.deep(),
                    old(self).indent@,
                ),
            ),
            r matches Err(PError::Mismatch) <==> !old(self).at(STAR),
            r matches Ok(y) ==> y is Anchor && final(self).pos > old(self).pos,
    {
        match self.anchor_name(flow, STAR) {
            Ok(name) => Ok(Yaml::Anchor(name)),
            Err(e) => Err(e),
        }
    }

    /// Matches a node inside a flow collection.
    pub fn flow_node(&mut self, fuel: usize) -> (r: Result<NodeBase, PError>)
        requires
            old(self).wf(),
        ensures
            final(self).gave(
                old(self),
                r,
                flow_node_spec(
                    old(self).cx(),
                    old(self).pos as int,
                    old(self).anchors.deep(),
                    old(self).indent@,
                    fuel as nat,
                ),
            ),
            final(self).indent == old(self).indent,
            r is Ok ==> final(self).pos > old(self).pos,
        decreases fuel, 4int,
    {
        proof {
            reveal(flow_node_spec);
        }
        let at = self.indicator();
        let ghost start = self.pos;
        let ghost cx = self.cx();
        let props = match self.properties(true) {
            Ok(p) => p,
            Err(e) => {
                return Err(e);
            },
        };
        if props.any {
            self.flow_gap();
        }
        let any = props.any;
        let ghost e = self.pos as int;
        let yaml = match self.peek() {
            Some(c) => {
                if c == LBRACKET {
                    self.flow_seq(fuel)
                } else if c == LBRACE {
                    self.flow_map(fuel)
                } else if c == DQ {
                    match self.double_quoted() {
                        Ok(s) => Ok(Yaml::Str(s)),
                        Err(e) => Err(e),
                    }
                } else if c == SQ {
                    match self.single_quoted() {
                        Ok(s) => Ok(Yaml::Str(s)),
                        Err(e) => Err(e),
                    }
                } else if c == STAR {
                    self.alias(true)
                } else {
                    match self.plain(true, 0, false) {
                        Ok((buf, _)) => Ok(scalar_of(buf.as_slice())),
                        Err(e) => Err(e),
                    }
                }
            },
            None => Err(PError::Mismatch),
        };
        match yaml {
            Ok(y) => Ok(self.commit(y, at, props)),
            Err(PError::Mismatch) => {
                if any {
                    Ok(self.commit(Yaml::Null, at, props))
                } else {
                    Err(PError::Mismatch)
                }
            },
            Err(e) => Err(e),
        }
    }

    /// Matches a flow sequence: `[`, items between commas, `]`. Nothing
    /// between two commas is a `Null` item; a comma before `]` adds none.
    pub fn flow_seq(&mut self, fuel: usize) -> (r: Result<Yaml, PError>)
        requires
            old(self).wf(),
        ensures
            final(self).gave_value(
                old(self),
                r,
                flow_seq_spec(
                    old(self).cx(),
                    old(self).pos as int,
                    old(self).anchors.deep(),
                    old(self).indent@,
                    fuel as nat,
                ),
            ),
            final(self).indent == old(self).indent,
            r matches Err(PError::Mismatch) <==> !old(self).at(LBRACKET),
            r matches Ok(y) ==> y is Array && final(self).pos > old(self).pos,
        decreases fuel, 3int,
    {
        proof {
            reveal(flow_seq_rest);
        }
        if self.peek() != Some(LBRACKET) {
            return Err(PError::Mismatch);
        }
        if fuel == 0 {
            return self.err("nesting too deep");
        }
        let ghost start = self.pos;
        let ghost cx = self.cx();
        let ghost goal = flow_seq_spec(
            cx,
            start as int,
            self.anchors.deep(),
            self.indent@,
            fuel as nat,
        );
        self.pos += 1;
        let mut items: Vec<NodeBase> = Vec::new();
        assert(views(items@) =~= Seq::<NodeView>::empty());
        loop
            invariant
                self.kept(old(self)),
                self.tag == old(self).tag,
                self.version_checked == old(self).version_checked,
                self.indent == old(self).indent,
                cx == self.cx(),
                self.pos > start,
                start == old(self).pos,
                old(self).at(LBRACKET),
                items_wf(items@),
                fuel > 0,
                goal == flow_seq_rest(
                    cx,
                    self.pos as int,
                    self.anchors.deep(),
                    self.indent@,
                    views(items@),
                    fuel as nat,
                ),
                goal == flow_seq_spec(
                    old(self).cx(),
                    old(self).pos as int,
                    old(self).anchors.deep(),
                    old(self).indent@,
                    fuel as nat,
                ),
            decreases self.doc@.len() - self.pos,
        {
            proof {
                reveal(flow_seq_rest);
                reveal(flow_node_spec);
                flow_gap_end_bounds(self.doc@, self.pos as int);
            }
            self.flow_gap();
            let c = match self.peek() {
                Some(c) => c,
                None => {
                    return self.err("unclosed sequence");
                },
            };
            if c == RBRACKET {
                self.pos += 1;
                proof {
                    view_of_items(&items);
                }
                return Ok(Yaml::Array(items));
            } else if c == COMMA {
                let ghost before = views(items@);
                let n = self.null_here();
                items.push(n);
                assert(views(items@) =~= before.push(n@));
                self.pos += 1;
            } else {
                let ghost before = views(items@);
                match self.flow_node(fuel - 1) {
                    Ok(n) => {
                        items.push(n);
                        assert(views(items@) =~= before.push(n@));
                    },
                    Err(PError::Mismatch) => {
                        return self.err("invalid flow sequence");
                    },
                    Err(e) => {
                        return Err(e);
                    },
                }
                proof {
                    flow_gap_end_bounds(self.doc@, self.pos as int);
                }
                self.flow_gap();
                match self.peek() {
                    Some(d) => {
                        if d == COMMA {
                            self.pos += 1;
                        } else if d == RBRACKET {
                            self.pos += 1;
                            proof {
                                view_of_items(&items);
                            }
                            return Ok(Yaml::Array(items));
                        } else {
                            return self.err("invalid flow sequence");
                        }
                    },
                    None => {
                        return self.err("unclosed sequence");
                    },
                }
            }
        }
    }

    /// Matches a flow mapping: `{`, pairs between commas, `}`. A pair is
    /// a key with a value behind a colon, a key alone, or a colon with a
    /// value alone; `?` may stand before the key. A key that occurs twice is
    /// fatal.
    #[verifier::rlimit(100)]
    #[verifier::spinoff_prover]
    pub fn flow_map(&mut self, fuel: usize) -> (r: Result<Yaml, PError>)
        requires
            old(self).wf(),
        ensures
            final(self).gave_value(
                old(self),
                r,
                flow_map_spec(
                    old(self).cx(),
                    old(self).pos as int,
                    old(self).anchors.deep(),
                    old(self).indent@,
                    fuel as nat,
                ),
            ),
            final(self).indent == old(self).indent,
            r matches Err(PError::Mismatch) <==> !old(self).at(LBRACE),
            r matches Ok(y) ==> y is Mapping && final(self).pos > old(self).pos,
        decreases fuel, 3int,
    {
        proof {
            reveal(flow_map_rest);
        }
        if self.peek() != Some(LBRACE) {
            return Err(PError::Mismatch);
        }
        if fuel == 0 {
            return self.err("nesting too deep");
        }
        let ghost start = self.pos;
        let ghost cx = self.cx();
        let ghost goal = flow_map_spec(
            cx,
            start as int,
            self.anchors.deep(),
            self.indent@,
            fuel as nat,
        );
        self.pos += 1;
        let mut entries: Vec<(NodeBase, NodeBase)> = Vec::new();
        assert(pair_views(entries@) =~= Seq::<(NodeView, NodeView)>::empty());
        loop
            invariant
                self.kept(old(self)),
                self.tag == old(self).tag,
                self.version_checked == old(self).version_checked,
                self.indent == old(self).indent,
                cx == self.cx(),
                self.pos > start,
                start == old(self).pos,
                old(self).at(LBRACE),
                entries_wf(entries@),
                fuel > 0,
                goal == flow_map_rest(
                    cx,
                    self.pos as int,
                    self.anchors.deep(),
                    self.indent@,
                    pair_views(entries@),
                    fuel as nat,
                ),
                goal == flow_map_spec(
                    old(self).cx(),
                    old(self).pos as int,
                    old(self).anchors.deep(),
                    old(self).indent@,
                    fuel as nat,
                ),
            decreases self.doc@.len() - self.pos,
        {
            proof {
                reveal(flow_map_rest);
                reveal(flow_node_spec);
                flow_gap_end_bounds(self.doc@, self.pos as int);
            }
            self.flow_gap();
            let c = match self.peek() {
                Some(c) => c,
                None => {
                    return self.err("unclosed mapping");
                },
            };
            if c == RBRACE {
                self.pos += 1;
                proof {
                    view_of_entries(&entries);
                }
                return Ok(Yaml::Mapping(entries));
            }
            if c == QUESTION && self.sep_at(1) {
                self.pos += 1;
                proof {
                    flow_gap_end_bounds(self.doc@, self.pos as int);
                }
                self.flow_gap();
            }
            let key = match self.flow_node(fuel - 1) {
                Ok(n) => n,
                Err(PError::Mismatch) => {
                    if self.peek() == Some(COLON) {
                        self.null_here()
                    } else {
                        return self.err("invalid flow mapping");
                    }
                },
                Err(e) => {
                    return Err(e);
                },
            };
            proof {
                flow_gap_end_bounds(self.doc@, self.pos as int);
            }
            self.flow_gap();
            let value = if self.peek() == Some(COLON) {
                self.pos += 1;
                proof {
                    flow_gap_end_bounds(self.doc@, self.pos as int);
                }
                self.flow_gap();
                match self.flow_node(fuel - 1) {
                    Ok(n) => n,
                    Err(PError::Mismatch) => {
                        if self.peek() == Some(COMMA) || self.peek() == Some(RBRACE) {
                            self.null_here()
                        } else {
                            return self.err("invalid flow mapping");
                        }
                    },
                    Err(e) => {
                        return Err(e);
                    },
                }
            } else {
                self.null_here()
            };
            if has_key(&entries, &key) {
                return Err(PError::Terminate(key.pos(), "duplicate key"));
            }
            let ghost before = pair_views(entries@);
            entries.push((key, value));
            assert(pair_views(entries@) =~= before.push((key@, value@)));
            proof {
                flow_gap_end_bounds(self.doc@, self.pos as int);
            }
            self.flow_gap();
            match self.peek() {
                Some(d) => {
                    if d == COMMA {
                        self.pos += 1;
                    } else if d == RBRACE {
                        self.pos += 1;
                        proof {
                            view_of_entries(&entries);
                        }
                        return Ok(Yaml::Mapping(entries));
                    } else {
                        return self.err("invalid flow mapping");
                    }
                },
                None => {
                    return self.err("unclosed mapping");
                },
            }
        }
    }
}

} // verus!
