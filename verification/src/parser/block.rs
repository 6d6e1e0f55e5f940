//! Block sequences and mappings, and the nodes that they hold.
use crate::node::NodeBase;
use crate::parser::base::{spaces_at, stack_for, total, total_prefix, PError, Parser};
use crate::parser::directive::{no_props, props_spec, Cx, Props, PropsView};
use crate::parser::flow::{
    alias_spec, as_str_value, committed, entries_wf, flow_map_spec, flow_seq_spec, has_key,
    holds_key, items_wf, null_at, offset, sep, Got,
};
use crate::parser::grammar::{
    blank_end, blank_end_bounds, gap_end, gap_end_bounds, is_nl, line_start, sp_end, ws_end,
    ws_end_bounds, COLON, CR, DASH, DOT, DQ, GT, LBRACE, LBRACKET, LF, PIPE, QUESTION, SP, SQ,
    STAR,
};
use crate::parser::kind::{scalar_of, scalar_view};
use crate::parser::scalar::{block_text, double_text, fatal, marker_at, plain_text, single_text};
use crate::text::text_of;
use crate::yaml::{pair_views, view_of_entries, view_of_items, views, NodeView, Yaml, YamlView};
use vstd::prelude::*;

verus! {

/// The number, or the largest one that fits where it is larger.
pub open spec fn capped(n: int) -> usize {
    if n > usize::MAX {
        usize::MAX
    } else if n < 0 {
        0usize
    } else {
        n as usize
    }
}

/// The indentation stack once block level `level` is committed to the
/// column `col`: it is cut to the levels before that one, filled up with 0
/// where it is shorter, and gets the width that leads from their sum to
/// `col`.
pub open spec fn level_set(stack: Seq<usize>, level: int, col: int) -> Seq<usize> {
    let before = if level <= stack.len() {
        stack.subrange(0, level)
    } else {
        stack + Seq::new((level - stack.len()) as nat, |i: int| 0usize)
    };
    let base = capped(total(before));
    before.push(
        if col >= base {
            (col - base) as usize
        } else {
            0usize
        },
    )
}

/// Where the search for the next entry of a block collection ends.
pub ghost struct Step {
    /// Whether a line with the indentation of the level was found.
    pub hit: bool,
    /// The place behind the indentation, or the place where the search began.
    pub pos: int,
    /// The indentation stack behind the search.
    pub indent: Seq<usize>,
}

/// The search for the next entry of a block collection at level `level`,
/// from `at` on: behind blank lines and comments a line starts, and it
/// starts with the indentation of the level.
pub open spec fn next_entry(cx: Cx, at: int, stack: Seq<usize>, level: int) -> Step {
    let d = cx.doc;
    let g = gap_end(d, at);
    if 0 <= g < d.len() && line_start(d, g) == g {
        let st = stack_for(stack, level, cx.width);
        if spaces_at(d, g, total(st)) {
            Step { hit: true, pos: g + total(st), indent: st }
        } else {
            Step { hit: false, pos: at, indent: st }
        }
    } else {
        Step { hit: false, pos: at, indent: stack }
    }
}

/// Nothing but white space and a comment stands between `at` and the end
/// of the line.
pub open spec fn line_done_at(d: Seq<u8>, at: int) -> bool {
    let b = blank_end(d, at);
    !(0 <= b < d.len()) || is_nl(d[b])
}

/// The next line that holds content and belongs to a node behind `at`: its
/// indentation and the place of its content.
///
/// It belongs where it is indented by `min_col` spaces or more or, with
/// `same`, starts an entry of a sequence one column before that, and is no
/// document marker.
pub open spec fn next_line_at(d: Seq<u8>, at: int, min_col: int, same: bool) -> Option<(int, int)> {
    let g = gap_end(d, at);
    if !(0 <= g < d.len()) {
        None
    } else {
        let n = sp_end(d, g) - g;
        let entry = g + n < d.len() && d[g + n] == DASH && sep(d, g + n + 1);
        let deep = n >= min_col || (same && entry && n + 1 == min_col);
        if !deep || (n == 0 && (marker_at(d, g, DASH) || marker_at(d, g, DOT))) {
            None
        } else {
            Some((n, g + n))
        }
    }
}

/// The smaller of the two.
pub open spec fn floor_of(col: int, min_col: int) -> int {
    if col < min_col {
        col
    } else {
        min_col
    }
}

/// The column behind `col`.
pub open spec fn next_col(col: int) -> int {
    if col < usize::MAX {
        col + 1
    } else {
        col
    }
}

/// The error as it leaves a committed production: a mismatch there is
/// invalid input.
pub open spec fn surfaced<T>(cx: Cx, at: int, e: PError) -> Result<T, PError> {
    match e {
        PError::Mismatch => fatal(cx.base, at, "invalid node"),
        PError::Terminate(off, msg) => Err(PError::Terminate(off, msg)),
    }
}

/// The node that holds the value of a production, or its error as it
/// leaves a committed production.
pub open spec fn wrapped(r: Result<Got<YamlView>, PError>, cx: Cx, at: int, node_pos: u64, p: PropsView) -> Result<
    Got<NodeView>,
    PError,
> {
    match r {
        Ok(g) => Ok(committed(g.value, node_pos, p, g.pos, g.anchors, g.indent)),
        Err(e) => surfaced(cx, at, e),
    }
}

/// The node behind an indicator of a block collection, from `at` on.
///
/// Properties may lead it. Its content stands on the same line, or on the
/// next line that belongs to it; where the properties stood alone on such a
/// line, on the one after. Where there is no content, the node is `Null`.
#[verifier::opaque]
pub open spec fn block_value_spec(
    cx: Cx,
    at: int,
    anchors: Map<Seq<char>, NodeView>,
    indent: Seq<usize>,
    level: int,
    min_col: int,
    same: bool,
    fuel: nat,
) -> Result<Got<NodeView>, PError>
    decreases fuel, 6int, 0int,
{
    let d = cx.doc;
    let a0 = ws_end(d, at);
    let col0 = a0 - line_start(d, a0);
    match props_spec(cx, a0, false) {
        Err(e) => Err(e),
        Ok((p, e)) => if !line_done_at(d, e) {
            node_at_spec(
                cx,
                blank_end(d, e),
                anchors,
                indent,
                level,
                col0,
                floor_of(col0, min_col),
                offset(cx, a0),
                p,
                p.any,
                fuel,
            )
        } else {
            match next_line_at(d, e, min_col, same) {
                None => Ok(committed(YamlView::Null, offset(cx, a0), p, e, anchors, indent)),
                Some((n, c)) => if p.any {
                    node_at_spec(
                        cx,
                        c,
                        anchors,
                        indent,
                        level,
                        n,
                        floor_of(n, min_col),
                        offset(cx, a0),
                        p,
                        false,
                        fuel,
                    )
                } else {
                    match props_spec(cx, c, false) {
                        Err(x) => Err(x),
                        Ok((q, qe)) => if q.any && line_done_at(d, qe) {
                            match next_line_at(d, qe, min_col, same) {
                                None => Ok(
                                    committed(YamlView::Null, offset(cx, c), q, qe, anchors, indent),
                                ),
                                Some((m, mc)) => node_at_spec(
                                    cx,
                                    mc,
                                    anchors,
                                    indent,
                                    level,
                                    m,
                                    floor_of(m, min_col),
                                    offset(cx, c),
                                    q,
                                    false,
                                    fuel,
                                ),
                            }
                        } else {
                            node_at_spec(
                                cx,
                                if q.any {
                                    blank_end(d, qe)
                                } else {
                                    qe
                                },
                                anchors,
                                indent,
                                level,
                                n,
                                floor_of(n, min_col),
                                offset(cx, c),
                                q,
                                q.any,
                                fuel,
                            )
                        },
                    }
                },
            }
        },
    }
}

/// A scalar that may be the key of a block mapping: its value, whether it
/// spans lines, and the place behind it.
pub open spec fn key_scalar(cx: Cx, at: int, min_col: int, single: bool) -> Result<
    (YamlView, bool, int),
    PError,
> {
    let d = cx.doc;
    if !(0 <= at < d.len()) {
        Err(PError::Mismatch)
    } else if d[at] == DQ {
        match double_text(d, cx.base, at) {
            Ok((bytes, end)) => Ok((YamlView::Str(text_of(bytes)), false, end)),
            Err(e) => Err(e),
        }
    } else if d[at] == SQ {
        match single_text(d, cx.base, at) {
            Ok((bytes, end)) => Ok((YamlView::Str(text_of(bytes)), false, end)),
            Err(e) => Err(e),
        }
    } else {
        match plain_text(d, at, false, min_col, single) {
            Some((bytes, multi, end)) => Ok((scalar_view(bytes), multi, end)),
            None => Err(PError::Mismatch),
        }
    }
}

/// A colon before a separator stands at `at`.
pub open spec fn colon_at(d: Seq<u8>, at: int) -> bool {
    0 <= at < d.len() && d[at] == COLON && sep(d, at + 1)
}

/// The content of a node in a block, at `at` in the column `col`, with the
/// properties `p` before it: a flow collection, an alias, a block scalar,
/// a block sequence, a block mapping, or a scalar.
///
/// A scalar before a colon is the first key of a block mapping; with
/// `inline` the properties are those of the key, else those of the mapping.
#[verifier::opaque]
pub open spec fn node_at_spec(
    cx: Cx,
    at: int,
    anchors: Map<Seq<char>, NodeView>,
    indent: Seq<usize>,
    level: int,
    col: int,
    min_col: int,
    node_pos: u64,
    p: PropsView,
    inline: bool,
    fuel: nat,
) -> Result<Got<NodeView>, PError>
    decreases fuel, 5int, 0int,
{
    let d = cx.doc;
    if !(0 <= at < d.len()) {
        Ok(committed(YamlView::Null, node_pos, p, at, anchors, indent))
    } else if d[at] == LBRACKET {
        wrapped(flow_seq_spec(cx, at, anchors, indent, fuel), cx, at, node_pos, p)
    } else if d[at] == LBRACE {
        wrapped(flow_map_spec(cx, at, anchors, indent, fuel), cx, at, node_pos, p)
    } else if d[at] == STAR {
        wrapped(alias_spec(cx, at, false, anchors, indent), cx, at, node_pos, p)
    } else if d[at] == PIPE || d[at] == GT {
        wrapped(
            as_str_value(block_text(d, cx.base, at, min_col), anchors, indent),
            cx,
            at,
            node_pos,
            p,
        )
    } else if d[at] == DASH && sep(d, at + 1) {
        wrapped(
            block_seq_spec(cx, at, anchors, level_set(indent, level, col), level, next_col(col), fuel),
            cx,
            at,
            node_pos,
            p,
        )
    } else if d[at] == QUESTION && sep(d, at + 1) {
        match entry_key_spec(
            cx,
            at,
            anchors,
            level_set(indent, level, col),
            level,
            next_col(col),
            fuel,
        ) {
            Err(e) => surfaced(cx, at, e),
            Ok(k) => wrapped(
                block_map_spec(
                    cx,
                    k.pos,
                    k.anchors,
                    k.indent,
                    level,
                    next_col(col),
                    k.value.0,
                    k.value.1,
                    fuel,
                ),
                cx,
                k.pos,
                node_pos,
                p,
            ),
        }
    } else {
        match key_scalar(cx, at, min_col, false) {
            Err(PError::Mismatch) => fatal(cx.base, at, "invalid node"),
            Err(e) => Err(e),
            Ok((yaml, multi, behind)) => {
                let w = ws_end(d, behind);
                if colon_at(d, w) {
                    if multi {
                        fatal(cx.base, w, "a key may not span lines")
                    } else {
                        let st = level_set(indent, level, col);
                        let key = committed(
                            yaml,
                            offset(cx, at),
                            if inline {
                                p
                            } else {
                                no_props()
                            },
                            w,
                            anchors,
                            st,
                        );
                        wrapped(
                            block_map_spec(
                                cx,
                                w,
                                key.anchors,
                                st,
                                level,
                                next_col(col),
                                key.value,
                                true,
                                fuel,
                            ),
                            cx,
                            w,
                            node_pos,
                            if inline {
                                no_props()
                            } else {
                                p
                            },
                        )
                    }
                } else {
                    Ok(committed(yaml, node_pos, p, behind, anchors, indent))
                }
            },
        }
    }
}

/// A block sequence whose first `-` stands at `at`.
pub open spec fn block_seq_spec(
    cx: Cx,
    at: int,
    anchors: Map<Seq<char>, NodeView>,
    indent: Seq<usize>,
    level: int,
    min_col: int,
    fuel: nat,
) -> Result<Got<YamlView>, PError>
    decreases fuel, 4int, 0int,
{
    if !(0 <= at < cx.doc.len() && cx.doc[at] == DASH) {
        Err(PError::Mismatch)
    } else if fuel == 0 || level >= usize::MAX {
        fatal(cx.base, at, "nesting too deep")
    } else {
        block_seq_rest(cx, at, anchors, indent, level, min_col, Seq::<NodeView>::empty(), fuel)
    }
}

/// The rest of a block sequence from the `-` at `at` on, behind `items`:
/// the node behind the `-`, and then the next entry, where a line with the
/// indentation of the level starts with `-` before a separator.
#[verifier::opaque]
pub open spec fn block_seq_rest(
    cx: Cx,
    at: int,
    anchors: Map<Seq<char>, NodeView>,
    indent: Seq<usize>,
    level: int,
    min_col: int,
    items: Seq<NodeView>,
    fuel: nat,
) -> Result<Got<YamlView>, PError>
    decreases fuel, 3int, cx.doc.len() - at,
{
    let d = cx.doc;
    if fuel == 0 {
        fatal(cx.base, at, "nesting too deep")
    } else {
        match block_value_spec(cx, at + 1, anchors, indent, level + 1, min_col, false, (fuel - 1) as nat) {
            Err(e) => Err(e),
            Ok(v) => {
                let all = items.push(v.value);
                let s = next_entry(cx, v.pos, v.indent, level);
                if s.hit && at < s.pos < d.len() && d[s.pos] == DASH && sep(d, s.pos + 1) {
                    block_seq_rest(cx, s.pos, v.anchors, s.indent, level, min_col, all, fuel)
                } else {
                    Ok(
                        Got {
                            value: YamlView::Array(all),
                            pos: v.pos,
                            anchors: v.anchors,
                            indent: s.indent,
                        },
                    )
                }
            },
        }
    }
}

/// The key of an entry of a block mapping at `at`, and whether the colon
/// of the entry stands behind it.
///
/// `?` before a separator leads any node as the key; its colon stands at
/// the start of a later line with the indentation of the level, or is
/// missing. Else the key is a plain or quoted scalar on one line, with its
/// properties, before a colon; anything else is a mismatch.
#[verifier::opaque]
pub open spec fn entry_key_spec(
    cx: Cx,
    at: int,
    anchors: Map<Seq<char>, NodeView>,
    indent: Seq<usize>,
    level: int,
    min_col: int,
    fuel: nat,
) -> Result<Got<(NodeView, bool)>, PError>
    decreases fuel, 2int, 0int,
{
    let d = cx.doc;
    if !(0 <= at < d.len()) {
        Err(PError::Mismatch)
    } else if d[at] == QUESTION && sep(d, at + 1) {
        if fuel == 0 || level >= usize::MAX {
            fatal(cx.base, at, "nesting too deep")
        } else {
            match block_value_spec(
                cx,
                at + 1,
                anchors,
                indent,
                level + 1,
                min_col,
                false,
                (fuel - 1) as nat,
            ) {
                Err(e) => Err(e),
                Ok(k) => {
                    let s = next_entry(cx, k.pos, k.indent, level);
                    if s.hit && colon_at(d, s.pos) {
                        Ok(
                            Got {
                                value: (k.value, true),
                                pos: s.pos,
                                anchors: k.anchors,
                                indent: s.indent,
                            },
                        )
                    } else {
                        Ok(
                            Got {
                                value: (k.value, false),
                                pos: k.pos,
                                anchors: k.anchors,
                                indent: s.indent,
                            },
                        )
                    }
                },
            }
        }
    } else {
        match props_spec(cx, at, false) {
            Err(e) => Err(e),
            Ok((p, e)) => match key_scalar(cx, e, 0, true) {
                Err(x) => Err(x),
                Ok((yaml, multi, behind)) => {
                    let w = ws_end(d, behind);
                    if colon_at(d, w) {
                        let k = committed(yaml, offset(cx, at), p, w, anchors, indent);
                        Ok(Got { value: (k.value, true), pos: w, anchors: k.anchors, indent })
                    } else {
                        Err(PError::Mismatch)
                    }
                },
            },
        }
    }
}

/// A block mapping whose first key has been read up to `at`.
pub open spec fn block_map_spec(
    cx: Cx,
    at: int,
    anchors: Map<Seq<char>, NodeView>,
    indent: Seq<usize>,
    level: int,
    min_col: int,
    first: NodeView,
    colon: bool,
    fuel: nat,
) -> Result<Got<YamlView>, PError>
    decreases fuel, 4int, 0int,
{
    if fuel == 0 || level >= usize::MAX {
        fatal(cx.base, at, "nesting too deep")
    } else {
        block_map_rest(
            cx,
            at,
            anchors,
            indent,
            level,
            min_col,
            Seq::<(NodeView, NodeView)>::empty(),
            first,
            colon,
            fuel,
        )
    }
}

/// The rest of a block mapping behind `entries`, with the key `key` read
/// up to `at`: its value, which is the node behind the colon where `colon`
/// says that one stands at `at`, and else `Null`; and then the next entry,
/// where a line has the indentation of the level and no more, and starts
/// with a key. A key that occurs twice is fatal.
#[verifier::opaque]
pub open spec fn block_map_rest(
    cx: Cx,
    at: int,
    anchors: Map<Seq<char>, NodeView>,
    indent: Seq<usize>,
    level: int,
    min_col: int,
    entries: Seq<(NodeView, NodeView)>,
    key: NodeView,
    colon: bool,
    fuel: nat,
) -> Result<Got<YamlView>, PError>
    decreases fuel, 3int, cx.doc.len() - at,
{
    let d = cx.doc;
    let value = if fuel == 0 {
        fatal(cx.base, at, "nesting too deep")
    } else if colon {
        block_value_spec(cx, at + 1, anchors, indent, level + 1, min_col, true, (fuel - 1) as nat)
    } else {
        Ok(Got { value: null_at(cx, at), pos: at, anchors, indent })
    };
    match value {
        Err(e) => Err(e),
        Ok(v) => if holds_key(entries, key) {
            Err(PError::Terminate(key.pos, "duplicate key"))
        } else {
            let all = entries.push((key, v.value));
            let s = next_entry(cx, v.pos, v.indent, level);
            let end = Ok(
                Got { value: YamlView::Mapping(all), pos: v.pos, anchors: v.anchors, indent: s.indent },
            );
            if !s.hit || (0 <= s.pos < d.len() && d[s.pos] == SP) {
                end
            } else {
                match entry_key_spec(cx, s.pos, v.anchors, s.indent, level, min_col, fuel) {
                    Ok(k) => if at < k.pos <= d.len() {
                        block_map_rest(
                            cx,
                            k.pos,
                            k.anchors,
                            k.indent,
                            level,
                            min_col,
                            all,
                            k.value.0,
                            k.value.1,
                            fuel,
                        )
                    } else {
                        end
                    },
                    Err(PError::Mismatch) => end,
                    Err(e) => Err(e),
                }
            }
        },
    }
}

impl<'a> Parser<'a> {
    /// The sum of the committed indentation widths, or the largest number
    /// where the sum is larger.
    pub fn cum(&self) -> (r: usize)
        ensures
            r == capped(total(self.indent@)),
    {
        let mut sum: usize = 0;
        let mut i: usize = 0;
        assert(self.indent@.subrange(0, 0) =~= Seq::<usize>::empty());
        while i < self.indent.len()
            invariant
                i <= self.indent@.len(),
                sum == capped(total(self.indent@.subrange(0, i as int))),
            decreases self.indent@.len() - i,
        {
            let w = self.indent[i];
            proof {
                assert(self.indent@.subrange(0, i + 1).drop_last() =~= self.indent@.subrange(
                    0,
                    i as int,
                ));
                total_prefix(self.indent@, i as int);
            }
            sum = if sum > usize::MAX - w {
                usize::MAX
            } else {
                sum + w
            };
            i += 1;
        }
        assert(self.indent@.subrange(0, i as int) =~= self.indent@);
        sum
    }

    /// Commits the indentation of block level `level` to the column `col`.
    pub fn set_level(&mut self, level: usize, col: usize)
        requires
            old(self).wf(),
        ensures
            final(self).kept(old(self)),
            *final(self) == (Parser { indent: final(self).indent, ..*old(self) }),
            final(self).indent@ == level_set(old(self).indent@, level as int, col as int),
    {
        if level <= self.indent.len() {
            self.indent.truncate(level);
        } else {
            assert(self.indent@ =~= old(self).indent@ + Seq::new(0nat, |i: int| 0usize));
            while self.indent.len() < level
                invariant
                    old(self).indent@.len() <= self.indent@.len() <= level,
                    *self == (Parser { indent: self.indent, ..*old(self) }),
                    self.indent@ == old(self).indent@ + Seq::new(
                        (self.indent@.len() - old(self).indent@.len()) as nat,
                        |i: int| 0usize,
                    ),
                decreases level - self.indent@.len(),
            {
                self.indent.push(0);
                assert(self.indent@ =~= old(self).indent@ + Seq::new(
                    (self.indent@.len() - old(self).indent@.len()) as nat,
                    |i: int| 0usize,
                ));
            }
        }
        let base = self.cum();
        self.indent.push(if col >= base {
            col - base
        } else {
            0
        });
    }

    /// Looks for the next entry of a block collection at level `level`:
    /// passes blank lines and comments and, at the start of a line, the
    /// indentation of the level. Where there is no such line, the cursor
    /// stays where it was.
    pub fn entry_here(&mut self, level: usize) -> (r: bool)
        requires
            old(self).wf(),
        ensures
            final(self).kept(old(self)),
            *final(self) == (Parser { indent: final(self).indent, pos: final(self).pos, ..*old(self) }),
            final(self).pos >= old(self).pos,
            next_entry(old(self).cx(), old(self).pos as int, old(self).indent@, level as int) == (Step {
                hit: r,
                pos: final(self).pos as int,
                indent: final(self).indent@,
            }),
    {
        let save = self.pos;
        proof {
            gap_end_bounds(self.doc@, save as int);
        }
        self.gap();
        if self.pos < self.doc.len() && self.column() == 0 {
            let eaten = self.eaten;
            self.forward();
            let r = self.ind(level);
            self.eaten = eaten;
            proof {
                total_prefix(self.indent@, 0);
            }
            if r.is_ok() {
                return true;
            }
        }
        self.pos = save;
        false
    }

    /// Whether nothing but white space and a comment stands between the
    /// cursor and the end of the line; where something does, the cursor
    /// moves to it.
    pub fn line_done(&mut self) -> (r: bool)
        requires
            old(self).wf(),
        ensures
            final(self).wf(),
            *final(self) == old(self).moved(final(self).pos),
            final(self).pos >= old(self).pos,
            r == line_done_at(old(self).doc@, old(self).pos as int),
            final(self).pos == (if r {
                old(self).pos as int
            } else {
                blank_end(old(self).doc@, old(self).pos as int)
            }),
            !r ==> final(self).pos < final(self).doc@.len(),
    {
        let save = self.pos;
        proof {
            blank_end_bounds(self.doc@, save as int);
        }
        self.blank();
        let done = match self.peek() {
            Some(c) => c == LF || c == CR,
            None => true,
        };
        if done {
            self.pos = save;
        }
        done
    }

    /// Moves to the content of the next line that holds any, where that
    /// line belongs to the node. Gives the indentation of the line, or
    /// nothing, with the cursor where it was.
    pub fn next_line(&mut self, min_col: usize, same: bool) -> (r: Option<usize>)
        requires
            old(self).wf(),
        ensures
            final(self).wf(),
            *final(self) == old(self).moved(final(self).pos),
            final(self).pos >= old(self).pos,
            match next_line_at(old(self).doc@, old(self).pos as int, min_col as int, same) {
                Some((n, c)) => r == Some(n as usize) && 0 <= n <= usize::MAX && final(self).pos == c,
                None => r is None && final(self).pos == old(self).pos,
            },
    {
        let save = self.pos;
        proof {
            gap_end_bounds(self.doc@, save as int);
        }
        self.gap();
        if self.pos >= self.doc.len() {
            self.pos = save;
            return None;
        }
        let n = self.spaces();
        let entry = self.peek_at(n) == Some(DASH) && n < usize::MAX && self.sep_at(n + 1);
        let deep = n >= min_col || (same && entry && n < usize::MAX && n + 1 == min_col);
        if !deep || (n == 0 && (self.marker(DASH) || self.marker(DOT))) {
            self.pos = save;
            return None;
        }
        self.pos += n;
        Some(n)
    }

    /// Matches the node behind an indicator of a block collection: on the
    /// same line, or on the lines that follow where they are indented by
    /// `min_col` spaces or more. With `same`, a sequence may also start one
    /// column before that. Nothing there is a `Null` node.
    #[verifier::rlimit(100)]
    #[verifier::spinoff_prover]
    pub fn block_value(&mut self, level: usize, min_col: usize, same: bool, fuel: usize) -> (r:
        Result<NodeBase, PError>)
        requires
            old(self).wf(),
        ensures
            final(self).gave(
                old(self),
                r,
                block_value_spec(
                    old(self).cx(),
                    old(self).pos as int,
                    old(self).anchors.deep(),
                    old(self).indent@,
                    level as int,
                    min_col as int,
                    same,
                    fuel as nat,
                ),
            ),
            !(r matches Err(PError::Mismatch)),
        decreases fuel, 6int,
    {
        let ghost cx = self.cx();
        let ghost d = self.doc@;
        let ghost start = self.pos as int;
        let ghost anchors0 = self.anchors.deep();
        let ghost indent0 = self.indent@;
        let ghost goal = block_value_spec(
            cx,
            start,
            anchors0,
            indent0,
            level as int,
            min_col as int,
            same,
            fuel as nat,
        );
        proof {
            ws_end_bounds(d, start);
        }
        self.ws();
        let ghost a0 = self.pos as int;
        let mut at = self.indicator();
        let mut col = self.column();
        let ghost col0 = col as int;
        let mut props = match self.properties(false) {
            Ok(p) => p,
            Err(e) => {
                assert(goal == Err::<Got<NodeView>, PError>(e)) by {
                    reveal(block_value_spec);
                }
                return Err(e);
            },
        };
        let ghost p = props@;
        let ghost e = self.pos as int;
        let mut inline = props.any;
        if self.line_done() {
            match self.next_line(min_col, same) {
                Some(n) => {
                    col = n;
                    inline = false;
                },
                None => {
                    assert(goal == Ok::<Got<NodeView>, PError>(
                        committed(YamlView::Null, at, p, e, anchors0, indent0),
                    )) by {
                        reveal(block_value_spec);
                    }
                    return Ok(self.commit(Yaml::Null, at, props));
                },
            }
            let ghost n = col as int;
            let ghost c = self.pos as int;
            assert(props_spec(cx, a0, false) == Ok::<(PropsView, int), PError>((p, e)));
            assert(line_done_at(d, e));
            assert(next_line_at(d, e, min_col as int, same) == Some((n, c)));
            if !props.any {
                at = self.indicator();
                props = match self.properties(false) {
                    Ok(p) => p,
                    Err(x) => {
                        assert(goal == Err::<Got<NodeView>, PError>(x)) by {
                            reveal(block_value_spec);
                        }
                        return Err(x);
                    },
                };
                let ghost q = props@;
                let ghost qe = self.pos as int;
                assert(props_spec(cx, c, false) == Ok::<(PropsView, int), PError>((q, qe)));
                assert(at == offset(cx, c));
                if props.any && self.line_done() {
                    match self.next_line(min_col, same) {
                        Some(m) => {
                            col = m;
                            assert(goal == node_at_spec(
                                cx,
                                self.pos as int,
                                anchors0,
                                indent0,
                                level as int,
                                m as int,
                                floor_of(m as int, min_col as int),
                                at,
                                q,
                                false,
                                fuel as nat,
                            )) by {
                                reveal(block_value_spec);
                                reveal(node_at_spec);
                            }
                        },
                        None => {
                            assert(goal == Ok::<Got<NodeView>, PError>(
                                committed(YamlView::Null, at, q, qe, anchors0, indent0),
                            )) by {
                                reveal(block_value_spec);
                            }
                            return Ok(self.commit(Yaml::Null, at, props));
                        },
                    }
                } else {
                    inline = props.any;
                    assert(goal == node_at_spec(
                        cx,
                        self.pos as int,
                        anchors0,
                        indent0,
                        level as int,
                        n,
                        floor_of(n, min_col as int),
                        at,
                        q,
                        q.any,
                        fuel as nat,
                    )) by {
                        reveal(block_value_spec);
                        reveal(node_at_spec);
                    }
                }
            } else {
                assert(goal == node_at_spec(
                    cx,
                    c,
                    anchors0,
                    indent0,
                    level as int,
                    n,
                    floor_of(n, min_col as int),
                    at,
                    p,
                    false,
                    fuel as nat,
                )) by {
                    reveal(block_value_spec);
                    reveal(node_at_spec);
                }
            }
        } else {
            assert(goal == node_at_spec(
                cx,
                self.pos as int,
                anchors0,
                indent0,
                level as int,
                col0,
                floor_of(col0, min_col as int),
                at,
                p,
                p.any,
                fuel as nat,
            )) by {
                reveal(block_value_spec);
                reveal(node_at_spec);
            }
        }
        let floor: usize = if col < min_col {
            col
        } else {
            min_col
        };
        self.node_at(level, col, floor, at, props, inline, fuel)
    }

    /// Matches a scalar that may be the key of a block mapping.
    pub fn key_or_scalar(&mut self, min_col: usize, single: bool) -> (r: Result<(Yaml, bool), PError>)
        requires
            old(self).wf(),
        ensures
            final(self).wf(),
            *final(self) == old(self).moved(final(self).pos),
            match key_scalar(old(self).cx(), old(self).pos as int, min_col as int, single) {
                Ok((yaml, multi, end)) => r matches Ok(got) && got.0@ == yaml && got.0.wf() && got.1
                    == multi && final(self).pos == end && end > old(self).pos,
                Err(e) => r == Err::<(Yaml, bool), PError>(e) && (e is Mismatch ==> final(self).pos
                    == old(self).pos),
            },
    {
        match self.peek() {
            Some(c) => {
                if c == DQ {
                    match self.double_quoted() {
                        Ok(s) => Ok((Yaml::Str(s), false)),
                        Err(e) => Err(e),
                    }
                } else if c == SQ {
                    match self.single_quoted() {
                        Ok(s) => Ok((Yaml::Str(s), false)),
                        Err(e) => Err(e),
                    }
                } else {
                    match self.plain(false, min_col, single) {
                        Ok((buf, multi)) => Ok((scalar_of(buf.as_slice()), multi)),
                        Err(e) => Err(e),
                    }
                }
            },
            None => Err(PError::Mismatch),
        }
    }

    /// Matches the content of a node in a block at the column `col`.
    ///
    /// `props` are the properties that stood before it; with `inline`, on
    /// the same line, so that they belong to the first key where the content
    /// turns out to be a mapping.
    #[verifier::rlimit(100)]
    #[verifier::spinoff_prover]
    pub fn node_at(
        &mut self,
        level: usize,
        col: usize,
        min_col: usize,
        at: u64,
        props: Props,
        inline: bool,
        fuel: usize,
    ) -> (r: Result<NodeBase, PError>)
        requires
            old(self).wf(),
        ensures
            final(self).kept(old(self)),
            final(self).tag == old(self).tag,
            final(self).version_checked == old(self).version_checked,
            !(r matches Err(PError::Mismatch)),
            match node_at_spec(
                old(self).cx(),
                old(self).pos as int,
                old(self).anchors.deep(),
                old(self).indent@,
                level as int,
                col as int,
                min_col as int,
                at,
                props@,
                inline,
                fuel as nat,
            ) {
                Ok(got) => r matches Ok(n) && n@ == got.value && n.wf() && final(self).pos == got.pos
                    && final(self).anchors.deep() == got.anchors && final(self).indent@
                    == got.indent && got.pos >= old(self).pos,
                Err(e) => r == Err::<NodeBase, PError>(e),
            },
        decreases fuel, 5int,
    {
        proof {
            reveal(node_at_spec);
            reveal(entry_key_spec);
        }
        let c = match self.peek() {
            Some(c) => c,
            None => {
                return Ok(self.commit(Yaml::Null, at, props));
            },
        };
        let here = self.indicator();
        let next: usize = if col < usize::MAX {
            col + 1
        } else {
            col
        };
        if c == LBRACKET {
            match self.flow_seq(fuel) {
                Ok(y) => Ok(self.commit(y, at, props)),
                Err(e) => self.surface(e),
            }
        } else if c == LBRACE {
            match self.flow_map(fuel) {
                Ok(y) => Ok(self.commit(y, at, props)),
                Err(e) => self.surface(e),
            }
        } else if c == STAR {
            match self.alias(false) {
                Ok(y) => Ok(self.commit(y, at, props)),
                Err(e) => self.surface(e),
            }
        } else if c == PIPE || c == GT {
            match self.block_scalar(min_col) {
                Ok(s) => Ok(self.commit(Yaml::Str(s), at, props)),
                Err(e) => self.surface(e),
            }
        } else if c == DASH && self.sep_at(1) {
            self.set_level(level, col);
            match self.block_seq(level, next, fuel) {
                Ok(y) => Ok(self.commit(y, at, props)),
                Err(e) => self.surface(e),
            }
        } else if c == QUESTION && self.sep_at(1) {
            self.set_level(level, col);
            let first = match self.entry_key(level, next, fuel) {
                Ok(k) => k,
                Err(e) => {
                    return self.surface(e);
                },
            };
            match self.block_map(level, next, first.0, first.1, fuel) {
                Ok(y) => Ok(self.commit(y, at, props)),
                Err(e) => self.surface(e),
            }
        } else {
            let (yaml, multi) = match self.key_or_scalar(min_col, false) {
                Ok(found) => found,
                Err(PError::Mismatch) => {
                    return self.err("invalid node");
                },
                Err(e) => {
                    return Err(e);
                },
            };
            let behind = self.pos;
            proof {
                ws_end_bounds(self.doc@, behind as int);
            }
            self.ws();
            if self.peek() == Some(COLON) && self.sep_at(1) {
                if multi {
                    return self.err("a key may not span lines");
                }
                self.set_level(level, col);
                let none = Props { anchor: String::new(), ty: String::new(), any: false };
                assert(none@ == no_props());
                let (key_props, map_props) = if inline {
                    (props, none)
                } else {
                    (none, props)
                };
                let key = self.commit(yaml, here, key_props);
                match self.block_map(level, next, key, true, fuel) {
                    Ok(y) => Ok(self.commit(y, at, map_props)),
                    Err(e) => self.surface(e),
                }
            } else {
                self.pos = behind;
                Ok(self.commit(yaml, at, props))
            }
        }
    }

    /// The error as it leaves a committed production: a mismatch there is
    /// invalid input.
    pub fn surface<Ret>(&self, e: PError) -> (r: Result<Ret, PError>)
        requires
            self.wf(),
        ensures
            r == surfaced::<Ret>(self.cx(), self.pos as int, e),
            r is Err,
            !(r matches Err(PError::Mismatch)),
            e is Terminate ==> r == Err::<Ret, PError>(e),
    {
        match e {
            PError::Mismatch => self.err("invalid node"),
            PError::Terminate(at, msg) => Err(PError::Terminate(at, msg)),
        }
    }

    /// Matches a block sequence whose first `-` stands at the cursor, with
    /// the following entries at the indentation of `level`.
    #[verifier::rlimit(100)]
    #[verifier::spinoff_prover]
    pub fn block_seq(&mut self, level: usize, min_col: usize, fuel: usize) -> (r: Result<
        Yaml,
        PError,
    >)
        requires
            old(self).wf(),
        ensures
            final(self).gave_value(
                old(self),
                r,
                block_seq_spec(
                    old(self).cx(),
                    old(self).pos as int,
                    old(self).anchors.deep(),
                    old(self).indent@,
                    level as int,
                    min_col as int,
                    fuel as nat,
                ),
            ),
            r matches Err(PError::Mismatch) <==> !old(self).at(DASH),
        decreases fuel, 3int,
    {
        proof {
            reveal(block_seq_rest);
        }
        if self.peek() != Some(DASH) {
            return Err(PError::Mismatch);
        }
        if fuel == 0 || level == usize::MAX {
            return self.err("nesting too deep");
        }
        let ghost start = self.pos;
        let ghost cx = self.cx();
        let ghost goal = block_seq_spec(
            cx,
            start as int,
            self.anchors.deep(),
            self.indent@,
            level as int,
            min_col as int,
            fuel as nat,
        );
        let mut items: Vec<NodeBase> = Vec::new();
        assert(views(items@) =~= Seq::<NodeView>::empty());
        loop
            invariant
                self.kept(old(self)),
                self.tag == old(self).tag,
                self.version_checked == old(self).version_checked,
                cx == self.cx(),
                self.pos >= start,
                start == old(self).pos,
                old(self).at(DASH),
                self.at(DASH),
                items_wf(items@),
                fuel > 0,
                level < usize::MAX,
                goal == block_seq_rest(
                    cx,
                    self.pos as int,
                    self.anchors.deep(),
                    self.indent@,
                    level as int,
                    min_col as int,
                    views(items@),
                    fuel as nat,
                ),
                goal == block_seq_spec(
                    old(self).cx(),
                    old(self).pos as int,
                    old(self).anchors.deep(),
                    old(self).indent@,
                    level as int,
                    min_col as int,
                    fuel as nat,
                ),
            decreases self.doc@.len() - self.pos,
        {
            let ghost at = self.pos;
            let ghost before = views(items@);
            proof {
                reveal(block_seq_rest);
                reveal(block_value_spec);
            }
            self.pos += 1;
            match self.block_value(level + 1, min_col, false, fuel - 1) {
                Ok(n) => {
                    items.push(n);
                    assert(views(items@) =~= before.push(n@));
                },
                Err(e) => {
                    return Err(e);
                },
            }
            let save = self.pos;
            if self.entry_here(level) && self.peek() == Some(DASH) && self.sep_at(1) {
            } else {
                self.pos = save;
                proof {
                    view_of_items(&items);
                }
                return Ok(Yaml::Array(items));
            }
        }
    }

    /// Matches the key of an entry of a block mapping: `?` before any node,
    /// or a plain or quoted scalar on one line before `:`. Says whether the
    /// cursor stands at the colon of the entry.
    #[verifier::rlimit(100)]
    #[verifier::spinoff_prover]
    pub fn entry_key(&mut self, level: usize, min_col: usize, fuel: usize) -> (r: Result<
        (NodeBase, bool),
        PError,
    >)
        requires
            old(self).wf(),
        ensures
            final(self).kept(old(self)),
            final(self).tag == old(self).tag,
            final(self).version_checked == old(self).version_checked,
            match entry_key_spec(
                old(self).cx(),
                old(self).pos as int,
                old(self).anchors.deep(),
                old(self).indent@,
                level as int,
                min_col as int,
                fuel as nat,
            ) {
                Ok(got) => r matches Ok(k) && k.0@ == got.value.0 && k.1 == got.value.1 && k.0.wf()
                    && final(self).pos == got.pos && final(self).anchors.deep() == got.anchors
                    && final(self).indent@ == got.indent && got.pos > old(self).pos && (k.1
                    ==> final(self).at(COLON)),
                Err(e) => r == Err::<(NodeBase, bool), PError>(e) && (e is Mismatch ==> *final(self)
                    == *old(self)),
            },
        decreases fuel, 2int,
    {
        proof {
            reveal(entry_key_spec);
            reveal(block_value_spec);
        }
        let start = self.pos;
        let c = match self.peek() {
            Some(c) => c,
            None => {
                return Err(PError::Mismatch);
            },
        };
        if c == QUESTION && self.sep_at(1) {
            if fuel == 0 || level == usize::MAX {
                return self.err("nesting too deep");
            }
            self.pos += 1;
            let key = match self.block_value(level + 1, min_col, false, fuel - 1) {
                Ok(n) => n,
                Err(e) => {
                    return Err(e);
                },
            };
            let save = self.pos;
            if self.entry_here(level) && self.peek() == Some(COLON) && self.sep_at(1) {
                return Ok((key, true));
            }
            self.pos = save;
            return Ok((key, false));
        }
        let at = self.indicator();
        let props = match self.properties(false) {
            Ok(p) => p,
            Err(e) => {
                return Err(e);
            },
        };
        let yaml = match self.key_or_scalar(0, true) {
            Ok(found) => found.0,
            Err(PError::Mismatch) => {
                self.pos = start;
                return Err(PError::Mismatch);
            },
            Err(e) => {
                return Err(e);
            },
        };
        proof {
            ws_end_bounds(self.doc@, self.pos as int);
        }
        self.ws();
        if self.peek() == Some(COLON) && self.sep_at(1) {
            let key = self.commit(yaml, at, props);
            Ok((key, true))
        } else {
            self.pos = start;
            Err(PError::Mismatch)
        }
    }

    /// Matches a block mapping whose first key has been read, with the
    /// following entries at the indentation of `level`. A key that occurs
    /// twice is fatal.
    #[verifier::rlimit(100)]
    #[verifier::spinoff_prover]
    pub fn block_map(
        &mut self,
        level: usize,
        min_col: usize,
        first: NodeBase,
        colon: bool,
        fuel: usize,
    ) -> (r: Result<Yaml, PError>)
        requires
            old(self).wf(),
            first.wf(),
            colon ==> old(self).at(COLON),
        ensures
            final(self).kept(old(self)),
            final(self).tag == old(self).tag,
            final(self).version_checked == old(self).version_checked,
            !(r matches Err(PError::Mismatch)),
            match block_map_spec(
                old(self).cx(),
                old(self).pos as int,
                old(self).anchors.deep(),
                old(self).indent@,
                level as int,
                min_col as int,
                first@,
                colon,
                fuel as nat,
            ) {
                Ok(got) => r matches Ok(y) && y@ == got.value && y.wf() && final(self).pos == got.pos
                    && final(self).anchors.deep() == got.anchors && final(self).indent@
                    == got.indent && got.pos >= old(self).pos,
                Err(e) => r == Err::<Yaml, PError>(e),
            },
        decreases fuel, 3int,
    {
        if fuel == 0 || level == usize::MAX {
            return self.err("nesting too deep");
        }
        let ghost start = self.pos;
        let ghost cx = self.cx();
        let ghost goal = block_map_spec(
            cx,
            start as int,
            self.anchors.deep(),
            self.indent@,
            level as int,
            min_col as int,
            first@,
            colon,
            fuel as nat,
        );
        let mut entries: Vec<(NodeBase, NodeBase)> = Vec::new();
        let mut key = first;
        let mut at_colon = colon;
        assert(pair_views(entries@) =~= Seq::<(NodeView, NodeView)>::empty());
        assert(goal == block_map_rest(
            cx,
            self.pos as int,
            self.anchors.deep(),
            self.indent@,
            level as int,
            min_col as int,
            pair_views(entries@),
            key@,
            at_colon,
            fuel as nat,
        )) by {
            reveal(block_map_rest);
        }
        loop
            invariant
                self.kept(old(self)),
                self.tag == old(self).tag,
                self.version_checked == old(self).version_checked,
                cx == self.cx(),
                self.pos >= start,
                start == old(self).pos,
                goal == block_map_spec(
                    old(self).cx(),
                    old(self).pos as int,
                    old(self).anchors.deep(),
                    old(self).indent@,
                    level as int,
                    min_col as int,
                    first@,
                    colon,
                    fuel as nat,
                ),
                entries_wf(entries@),
                key.wf(),
                at_colon ==> self.at(COLON),
                fuel > 0,
                level < usize::MAX,
                goal == block_map_rest(
                    cx,
                    self.pos as int,
                    self.anchors.deep(),
                    self.indent@,
                    level as int,
                    min_col as int,
                    pair_views(entries@),
                    key@,
                    at_colon,
                    fuel as nat,
                ),
            decreases self.doc@.len() - self.pos,
        {
            let ghost d = cx.doc;
            let ghost head = self.pos as int;
            let ghost anchors0 = self.anchors.deep();
            let ghost indent0 = self.indent@;
            let ghost before = pair_views(entries@);
            let ghost kv = key@;
            let ghost colon0 = at_colon;
            let value = if at_colon {
                self.pos += 1;
                match self.block_value(level + 1, min_col, true, fuel - 1) {
                    Ok(n) => n,
                    Err(e) => {
                        assert(goal == Err::<Got<YamlView>, PError>(e)) by {
                            reveal(block_map_rest);
                            reveal(block_value_spec);
                        }
                        return Err(e);
                    },
                }
            } else {
                self.null_here()
            };
            let ghost v = Got {
                value: value@,
                pos: self.pos as int,
                anchors: self.anchors.deep(),
                indent: self.indent@,
            };
            let ghost all = before.push((kv, v.value));
            let ghost s = next_entry(cx, v.pos, v.indent, level as int);
            let ghost end = Ok::<Got<YamlView>, PError>(
                Got { value: YamlView::Mapping(all), pos: v.pos, anchors: v.anchors, indent: s.indent },
            );
            let ghost dup = holds_key(before, kv);
            assert(goal == (if dup {
                Err::<Got<YamlView>, PError>(PError::Terminate(kv.pos, "duplicate key"))
            } else if !s.hit || (0 <= s.pos < d.len() && d[s.pos] == SP) {
                end
            } else {
                match entry_key_spec(
                    cx,
                    s.pos,
                    v.anchors,
                    s.indent,
                    level as int,
                    min_col as int,
                    fuel as nat,
                ) {
                    Ok(k) => if head < k.pos <= d.len() {
                        block_map_rest(
                            cx,
                            k.pos,
                            k.anchors,
                            k.indent,
                            level as int,
                            min_col as int,
                            all,
                            k.value.0,
                            k.value.1,
                            fuel as nat,
                        )
                    } else {
                        end
                    },
                    Err(PError::Mismatch) => end,
                    Err(e) => Err(e),
                }
            })) by {
                reveal(block_map_rest);
                reveal(block_value_spec);
                reveal(entry_key_spec);
            }
            if has_key(&entries, &key) {
                return Err(PError::Terminate(key.pos(), "duplicate key"));
            }
            entries.push((key, value));
            assert(pair_views(entries@) =~= all);
            let save = self.pos;
            if !self.entry_here(level) || self.peek() == Some(SP) {
                self.pos = save;
                proof {
                    view_of_entries(&entries);
                }
                return Ok(Yaml::Mapping(entries));
            }
            match self.entry_key(level, min_col, fuel) {
                Ok(k) => {
                    key = k.0;
                    at_colon = k.1;
                },
                Err(PError::Mismatch) => {
                    self.pos = save;
                    proof {
                        view_of_entries(&entries);
                    }
                    return Ok(Yaml::Mapping(entries));
                },
                Err(e) => {
                    return Err(e);
                },
            }
        }
    }
}

} // verus!
