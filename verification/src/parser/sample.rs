//! The grammar at work on one small input: a mapping with an anchored flow
//! sequence and an alias to it.
use crate::parser::base::{spaces_at, stack_for, total, PError};
use crate::parser::block::{
    block_map_rest, block_map_spec, block_value_spec, colon_at, entry_key_spec, key_scalar,
    level_set, line_done_at, next_entry, node_at_spec, Step,
};
use crate::parser::directive::{
    anchor_spec, directive_spec, name_end, no_props, props_spec, props_step, Cx, Directed,
    PropsView,
};
use crate::parser::document::{
    bom_len, directives_spec, document_spec, parse_spec, stream_spec, Directives, Doc, DocOut,
};
use crate::parser::flow::{
    flow_gap_end, flow_node_spec, flow_seq_rest, flow_seq_spec, holds_key, Got,
};
use crate::parser::grammar::{blank_end, gap_end, line_start, ws_end, AMP, DASH, DOT, STAR};
use crate::parser::kind::{kind_of, run_end, scalar_view, Kind};
use crate::parser::scalar::{chunk_end, marker_at, plain_end, plain_start, plain_text, trimmed};
use crate::tags::default_tags;
use crate::text::{ascii_chars, law_ascii_text, text_of};
use crate::yaml::{NodeView, YamlView};
use vstd::prelude::*;

verus! {

/// The input: `a: &id [1, 2]`, a line break, `b: *id`, a line break.
pub open spec fn sample() -> Seq<u8> {
    seq![
        0x61u8, 0x3au8, 0x20u8, 0x26u8, 0x69u8, 0x64u8, 0x20u8, 0x5bu8, 0x31u8, 0x2cu8, 0x20u8,
        0x32u8, 0x5du8, 0x0au8, 0x62u8, 0x3au8, 0x20u8, 0x2au8, 0x69u8, 0x64u8, 0x0au8,
    ]
}

/// What the grammar reads of the input besides the cursor.
pub open spec fn sample_cx(width: usize) -> Cx {
    Cx { doc: sample(), base: 0, tags: default_tags(), width }
}

/// A node without tag or anchor.
pub open spec fn plain_node(yaml: YamlView, pos: u64) -> NodeView {
    NodeView { yaml, pos, ty: Seq::<char>::empty(), anchor: Seq::<char>::empty() }
}

/// The sequence `[1, 2]` with its anchor `id`.
pub open spec fn sample_items() -> NodeView {
    NodeView {
        yaml: YamlView::Array(
            seq![
                plain_node(YamlView::Int(seq!['1']), 8),
                plain_node(YamlView::Int(seq!['2']), 11),
            ],
        ),
        pos: 3,
        ty: Seq::<char>::empty(),
        anchor: seq!['i', 'd'],
    }
}

/// The anchors of the document: `id` stands for the sequence.
pub open spec fn sample_anchors() -> Map<Seq<char>, NodeView> {
    Map::<Seq<char>, NodeView>::empty().insert(seq!['i', 'd'], sample_items())
}

/// The texts of the input.
pub proof fn sample_texts()
    ensures
        text_of(seq![0x61u8]) == seq!['a'],
        text_of(seq![0x62u8]) == seq!['b'],
        text_of(seq![0x31u8]) == seq!['1'],
        text_of(seq![0x32u8]) == seq!['2'],
        text_of(seq![0x69u8, 0x64u8]) == seq!['i', 'd'],
        scalar_view(seq![0x61u8]) == YamlView::Str(seq!['a']),
        scalar_view(seq![0x62u8]) == YamlView::Str(seq!['b']),
        scalar_view(seq![0x31u8]) == YamlView::Int(seq!['1']),
        scalar_view(seq![0x32u8]) == YamlView::Int(seq!['2']),
{
    law_ascii_text(seq![0x61u8]);
    law_ascii_text(seq![0x62u8]);
    law_ascii_text(seq![0x31u8]);
    law_ascii_text(seq![0x32u8]);
    law_ascii_text(seq![0x69u8, 0x64u8]);
    assert(ascii_chars(seq![0x61u8]) =~= seq!['a']);
    assert(ascii_chars(seq![0x62u8]) =~= seq!['b']);
    assert(ascii_chars(seq![0x31u8]) =~= seq!['1']);
    assert(ascii_chars(seq![0x32u8]) =~= seq!['2']);
    assert(ascii_chars(seq![0x69u8, 0x64u8]) =~= seq!['i', 'd']);
    reveal_with_fuel(run_end, 3);
    assert(kind_of(seq![0x61u8]) == Kind::Str) by {
        let s = seq![0x61u8];
        assert(s.len() == 1 && s[0] == 0x61);
        assert(s.skip(0) =~= s);
        reveal_with_fuel(run_end, 3);
    }
    assert(kind_of(seq![0x62u8]) == Kind::Str) by {
        let s = seq![0x62u8];
        assert(s.len() == 1 && s[0] == 0x62);
        assert(s.skip(0) =~= s);
        reveal_with_fuel(run_end, 3);
    }
    assert(kind_of(seq![0x31u8]) == Kind::Int) by {
        let s = seq![0x31u8];
        assert(s.len() == 1 && s[0] == 0x31);
        reveal_with_fuel(run_end, 3);
    }
    assert(kind_of(seq![0x32u8]) == Kind::Int) by {
        let s = seq![0x32u8];
        assert(s.len() == 1 && s[0] == 0x32);
        reveal_with_fuel(run_end, 3);
    }
}

/// The plain scalars of the input.
pub proof fn sample_plains()
    ensures
        plain_text(sample(), 0, false, 0, false) == Some((seq![0x61u8], false, 1int)),
        plain_text(sample(), 14, false, 0, true) == Some((seq![0x62u8], false, 15int)),
        plain_text(sample(), 8, true, 0, false) == Some((seq![0x31u8], false, 9int)),
        plain_text(sample(), 11, true, 0, false) == Some((seq![0x32u8], false, 12int)),
{
    let d = sample();
    reveal_with_fuel(chunk_end, 2);
    reveal_with_fuel(trimmed, 2);
    assert(d.len() == 21);
    assert(seq![d[0]] + d.subrange(1, 1) =~= seq![0x61u8]);
    assert(seq![d[14]] + d.subrange(15, 15) =~= seq![0x62u8]);
    assert(seq![d[8]] + d.subrange(9, 9) =~= seq![0x31u8]);
    assert(seq![d[11]] + d.subrange(12, 12) =~= seq![0x32u8]);
    assert(plain_start(d, 0, false));
    assert(plain_end(d, 1, false, false));
    assert(plain_start(d, 14, false));
    assert(plain_end(d, 15, false, false));
    assert(plain_start(d, 8, true));
    assert(plain_end(d, 9, true, false));
    assert(plain_start(d, 11, true));
    assert(plain_end(d, 12, true, false));
}

/// The flow sequence of the input.
pub proof fn sample_flow(width: usize, fuel: nat)
    requires
        fuel >= 1,
    ensures
        flow_seq_spec(sample_cx(width), 7, Map::<Seq<char>, NodeView>::empty(), seq![0usize], fuel)
            == Ok::<Got<YamlView>, PError>(
            Got {
                value: sample_items().yaml,
                pos: 13,
                anchors: Map::<Seq<char>, NodeView>::empty(),
                indent: seq![0usize],
            },
        ),
{
    let d = sample();
    let cx = sample_cx(width);
    let none = Map::<Seq<char>, NodeView>::empty();
    let ind = seq![0usize];
    sample_texts();
    sample_plains();
    assert(d.len() == 21);
    reveal_with_fuel(ws_end, 3);
    reveal_with_fuel(flow_gap_end, 2);
    assert(blank_end(d, 8) == 8 && blank_end(d, 9) == 9 && blank_end(d, 10) == 11 && blank_end(
        d,
        12,
    ) == 12);
    assert(flow_gap_end(d, 8) == 8 && flow_gap_end(d, 9) == 9 && flow_gap_end(d, 10) == 11
        && flow_gap_end(d, 12) == 12);
    let one = plain_node(YamlView::Int(seq!['1']), 8);
    let two = plain_node(YamlView::Int(seq!['2']), 11);
    assert(props_spec(cx, 8, true) == Ok::<(PropsView, int), PError>((no_props(), 8))) by {
        reveal_with_fuel(props_step, 4);
    }
    assert(props_spec(cx, 11, true) == Ok::<(PropsView, int), PError>((no_props(), 11))) by {
        reveal_with_fuel(props_step, 4);
    }
    assert(flow_node_spec(cx, 8, none, ind, (fuel - 1) as nat) == Ok::<Got<NodeView>, PError>(
        Got { value: one, pos: 9, anchors: none, indent: ind },
    )) by {
        reveal(flow_node_spec);
    }
    assert(flow_node_spec(cx, 11, none, ind, (fuel - 1) as nat) == Ok::<Got<NodeView>, PError>(
        Got { value: two, pos: 12, anchors: none, indent: ind },
    )) by {
        reveal(flow_node_spec);
    }
    let first = Seq::<NodeView>::empty().push(one);
    assert(first.push(two) =~= seq![one, two]);
    assert(flow_seq_rest(cx, 10, none, ind, first, fuel) == Ok::<Got<YamlView>, PError>(
        Got { value: YamlView::Array(seq![one, two]), pos: 13, anchors: none, indent: ind },
    )) by {
        reveal(flow_seq_rest);
        reveal(flow_node_spec);
    }
    assert(flow_seq_rest(cx, 8, none, ind, Seq::<NodeView>::empty(), fuel) == Ok::<
        Got<YamlView>,
        PError,
    >(Got { value: YamlView::Array(seq![one, two]), pos: 13, anchors: none, indent: ind })) by {
        reveal(flow_seq_rest);
        reveal(flow_node_spec);
    }
    assert(flow_seq_spec(cx, 7, none, ind, fuel) == flow_seq_rest(
        cx,
        8,
        none,
        ind,
        Seq::<NodeView>::empty(),
        fuel,
    )) by {
        reveal(flow_seq_rest);
    }
    assert(sample_items().yaml == YamlView::Array(seq![one, two]));
}

/// The value behind the first colon: the anchored sequence.
pub proof fn sample_first_value(width: usize, fuel: nat)
    requires
        fuel >= 1,
    ensures
        block_value_spec(
            sample_cx(width),
            2,
            Map::<Seq<char>, NodeView>::empty(),
            seq![0usize],
            1,
            1,
            true,
            fuel,
        ) == Ok::<Got<NodeView>, PError>(
            Got { value: sample_items(), pos: 13, anchors: sample_anchors(), indent: seq![0usize] },
        ),
{
    let d = sample();
    let cx = sample_cx(width);
    let none = Map::<Seq<char>, NodeView>::empty();
    let ind = seq![0usize];
    sample_texts();
    sample_flow(width, fuel);
    assert(d.len() == 21);
    reveal_with_fuel(ws_end, 3);
    reveal_with_fuel(line_start, 5);
    reveal_with_fuel(name_end, 4);
    assert(ws_end(d, 2) == 3 && ws_end(d, 6) == 7);
    assert(line_start(d, 3) == 0);
    assert(name_end(d, 4, false) == 6);
    assert(d.subrange(4, 6) =~= seq![0x69u8, 0x64u8]);
    let p = PropsView { anchor: seq!['i', 'd'], ty: Seq::<char>::empty(), any: true };
    assert(anchor_spec(d, 0, 3, false, AMP) == Ok::<(Seq<char>, int), PError>(
        (seq!['i', 'd'], 6),
    ));
    assert(props_spec(cx, 3, false) == Ok::<(PropsView, int), PError>((p, 7))) by {
        reveal_with_fuel(props_step, 4);
    }
    assert(blank_end(d, 7) == 7);
    assert(!line_done_at(d, 7));
    assert(node_at_spec(cx, 7, none, ind, 1, 3, 1, 3u64, p, true, fuel) == Ok::<
        Got<NodeView>,
        PError,
    >(Got { value: sample_items(), pos: 13, anchors: sample_anchors(), indent: ind })) by {
        reveal(node_at_spec);
    }
    assert(block_value_spec(cx, 2, none, ind, 1, 1, true, fuel) == node_at_spec(
        cx,
        7,
        none,
        ind,
        1,
        3,
        1,
        3u64,
        p,
        true,
        fuel,
    )) by {
        reveal(block_value_spec);
        reveal(node_at_spec);
    }
}

/// The alias of the input, as a node.
pub open spec fn sample_alias() -> NodeView {
    plain_node(YamlView::Anchor(seq!['i', 'd']), 17)
}

/// The value behind the second colon: the alias, as it stands.
pub proof fn sample_second_value(width: usize, fuel: nat)
    ensures
        block_value_spec(sample_cx(width), 16, sample_anchors(), seq![0usize], 1, 1, true, fuel)
            == Ok::<Got<NodeView>, PError>(
            Got { value: sample_alias(), pos: 20, anchors: sample_anchors(), indent: seq![0usize] },
        ),
{
    let d = sample();
    let cx = sample_cx(width);
    let anchors = sample_anchors();
    let ind = seq![0usize];
    sample_texts();
    assert(d.len() == 21);
    reveal_with_fuel(ws_end, 3);
    reveal_with_fuel(line_start, 5);
    reveal_with_fuel(name_end, 4);
    assert(ws_end(d, 16) == 17);
    assert(line_start(d, 17) == 14);
    assert(name_end(d, 18, false) == 20);
    assert(d.subrange(18, 20) =~= seq![0x69u8, 0x64u8]);
    assert(anchor_spec(d, 0, 17, false, STAR) == Ok::<(Seq<char>, int), PError>(
        (seq!['i', 'd'], 20),
    ));
    assert(props_spec(cx, 17, false) == Ok::<(PropsView, int), PError>((no_props(), 17))) by {
        reveal_with_fuel(props_step, 4);
    }
    assert(blank_end(d, 17) == 17);
    assert(!line_done_at(d, 17));
    assert(node_at_spec(cx, 17, anchors, ind, 1, 3, 1, 17u64, no_props(), false, fuel) == Ok::<
        Got<NodeView>,
        PError,
    >(Got { value: sample_alias(), pos: 20, anchors, indent: ind })) by {
        reveal(node_at_spec);
    }
    assert(block_value_spec(cx, 16, anchors, ind, 1, 1, true, fuel) == node_at_spec(
        cx,
        17,
        anchors,
        ind,
        1,
        3,
        1,
        17u64,
        no_props(),
        false,
        fuel,
    )) by {
        reveal(block_value_spec);
        reveal(node_at_spec);
    }
}

/// The key `a`.
pub open spec fn sample_key_a() -> NodeView {
    plain_node(YamlView::Str(seq!['a']), 0)
}

/// The key `b`.
pub open spec fn sample_key_b() -> NodeView {
    plain_node(YamlView::Str(seq!['b']), 14)
}

/// The root of the document: `a` maps to the sequence, `b` to the alias.
pub open spec fn sample_root() -> NodeView {
    plain_node(
        YamlView::Mapping(
            seq![(sample_key_a(), sample_items()), (sample_key_b(), sample_alias())],
        ),
        0,
    )
}

/// The second key of the input.
pub proof fn sample_second_key(width: usize, fuel: nat)
    ensures
        entry_key_spec(sample_cx(width), 14, sample_anchors(), seq![0usize], 0, 1, fuel) == Ok::<
            Got<(NodeView, bool)>,
            PError,
        >(
            Got {
                value: (sample_key_b(), true),
                pos: 15,
                anchors: sample_anchors(),
                indent: seq![0usize],
            },
        ),
{
    let d = sample();
    let cx = sample_cx(width);
    sample_texts();
    sample_plains();
    assert(d.len() == 21);
    reveal_with_fuel(ws_end, 3);
    assert(ws_end(d, 15) == 15);
    assert(colon_at(d, 15));
    assert(props_spec(cx, 14, false) == Ok::<(PropsView, int), PError>((no_props(), 14))) by {
        reveal_with_fuel(props_step, 4);
    }
    assert(key_scalar(cx, 14, 0, true) == Ok::<(YamlView, bool, int), PError>(
        (YamlView::Str(seq!['b']), false, 15),
    ));
    reveal(entry_key_spec);
}

/// The mapping of the input, from its first colon on.
pub proof fn sample_mapping(width: usize, fuel: nat)
    requires
        fuel >= 2,
    ensures
        block_map_spec(
            sample_cx(width),
            1,
            Map::<Seq<char>, NodeView>::empty(),
            seq![0usize],
            0,
            1,
            sample_key_a(),
            true,
            fuel,
        ) == Ok::<Got<YamlView>, PError>(
            Got {
                value: sample_root().yaml,
                pos: 20,
                anchors: sample_anchors(),
                indent: seq![0usize],
            },
        ),
{
    let d = sample();
    let cx = sample_cx(width);
    let none = Map::<Seq<char>, NodeView>::empty();
    let anchors = sample_anchors();
    let ind = seq![0usize];
    let first = Seq::<(NodeView, NodeView)>::empty().push((sample_key_a(), sample_items()));
    let both = first.push((sample_key_b(), sample_alias()));
    sample_first_value(width, (fuel - 1) as nat);
    sample_second_value(width, (fuel - 1) as nat);
    sample_second_key(width, fuel);
    assert(d.len() == 21);
    reveal_with_fuel(ws_end, 3);
    reveal_with_fuel(gap_end, 3);
    reveal_with_fuel(line_start, 2);
    reveal_with_fuel(total, 3);
    assert(blank_end(d, 13) == 13 && blank_end(d, 14) == 14 && blank_end(d, 20) == 20 && blank_end(
        d,
        21,
    ) == 21);
    assert(gap_end(d, 13) == 14);
    assert(gap_end(d, 20) == 21);
    assert(line_start(d, 14) == 14);
    assert(stack_for(ind, 0, width) =~= ind);
    assert(ind.drop_last() =~= Seq::<usize>::empty());
    assert(total(ind) == 0);
    assert(spaces_at(d, 14, 0));
    assert(next_entry(cx, 13, ind, 0) == Step { hit: true, pos: 14, indent: ind });
    assert(next_entry(cx, 20, ind, 0) == Step { hit: false, pos: 20, indent: ind });
    assert(!holds_key(Seq::<(NodeView, NodeView)>::empty(), sample_key_a()));
    assert(!holds_key(first, sample_key_b())) by {
        assert(first.len() == 1);
        assert(first[0].0.yaml.payload() != sample_key_b().yaml.payload()) by {
            assert(seq!['a'][0] != seq!['b'][0]);
        }
    }
    assert(both =~= seq![(sample_key_a(), sample_items()), (sample_key_b(), sample_alias())]);
    assert(block_map_rest(cx, 15, anchors, ind, 0, 1, first, sample_key_b(), true, fuel) == Ok::<
        Got<YamlView>,
        PError,
    >(Got { value: YamlView::Mapping(both), pos: 20, anchors, indent: ind })) by {
        reveal(block_map_rest);
        reveal(block_value_spec);
        reveal(entry_key_spec);
    }
    assert(block_map_rest(
        cx,
        1,
        none,
        ind,
        0,
        1,
        Seq::<(NodeView, NodeView)>::empty(),
        sample_key_a(),
        true,
        fuel,
    ) == Ok::<Got<YamlView>, PError>(
        Got { value: YamlView::Mapping(both), pos: 20, anchors, indent: ind },
    )) by {
        reveal(block_map_rest);
        reveal(block_value_spec);
        reveal(entry_key_spec);
    }
    assert(block_map_spec(cx, 1, none, ind, 0, 1, sample_key_a(), true, fuel) == block_map_rest(
        cx,
        1,
        none,
        ind,
        0,
        1,
        Seq::<(NodeView, NodeView)>::empty(),
        sample_key_a(),
        true,
        fuel,
    )) by {
        reveal(block_map_rest);
    }
}

/// The input holds one document. Its root maps `a` to the sequence and `b`
/// to the alias, which stands as it was written: the parser puts no node in
/// its place. The anchors of the document bind the name of the alias to
/// the sequence that `a` maps to.
pub proof fn law_alias_is_kept_and_bound(width: usize, depth: nat)
    requires
        depth >= 2,
    ensures
        parse_spec(sample(), 0, width, 0, depth) == Ok::<Seq<Doc>, PError>(
            seq![Doc { root: sample_root(), anchors: sample_anchors() }],
        ),
        sample_root().yaml->Mapping_0[1].1.yaml == YamlView::Anchor(seq!['i', 'd']),
        sample_anchors()[seq!['i', 'd']] == sample_root().yaml->Mapping_0[0].1,
{
    let d = sample();
    let cx = sample_cx(width);
    let none = Map::<Seq<char>, NodeView>::empty();
    let anchors = sample_anchors();
    let ind = seq![0usize];
    sample_texts();
    sample_plains();
    sample_mapping(width, depth);
    assert(d.len() == 21);
    reveal_with_fuel(ws_end, 3);
    reveal_with_fuel(gap_end, 3);
    reveal_with_fuel(line_start, 2);
    reveal_with_fuel(total, 3);
    assert(ws_end(d, 0) == 0 && ws_end(d, 1) == 1);
    assert(blank_end(d, 0) == 0 && blank_end(d, 20) == 20 && blank_end(d, 21) == 21);
    assert(gap_end(d, 0) == 0);
    assert(gap_end(d, 20) == 21);
    assert(line_start(d, 0) == 0);
    assert(!marker_at(d, 0, DASH));
    assert(!marker_at(d, 21, DOT));
    assert(colon_at(d, 1));
    assert(props_spec(cx, 0, false) == Ok::<(PropsView, int), PError>((no_props(), 0))) by {
        reveal_with_fuel(props_step, 4);
    }
    assert(key_scalar(cx, 0, 0, false) == Ok::<(YamlView, bool, int), PError>(
        (YamlView::Str(seq!['a']), false, 1),
    ));
    assert(level_set(ind, 0, 0) =~= ind) by {
        assert(ind.subrange(0, 0) =~= Seq::<usize>::empty());
        assert(Seq::<usize>::empty().push(0usize) =~= ind);
    }
    let root = Got { value: sample_root(), pos: 20, anchors, indent: ind };
    assert(node_at_spec(cx, 0, none, ind, 0, 0, 0, 0u64, no_props(), false, depth) == Ok::<
        Got<NodeView>,
        PError,
    >(root)) by {
        reveal(node_at_spec);
    }
    assert(block_value_spec(cx, 0, none, ind, 0, 0, false, depth) == Ok::<Got<NodeView>, PError>(
        root,
    )) by {
        reveal(block_value_spec);
        reveal(node_at_spec);
    }
    assert(directive_spec(cx, 0, false) == Err::<Directed, PError>(PError::Mismatch));
    assert(directives_spec(cx, 0, false, false) == Ok::<Directives, PError>(
        Directives { tags: default_tags(), checked: false, seen: false, pos: 0 },
    ));
    let doc = Doc { root: sample_root(), anchors };
    assert(document_spec(d, 0, width, 0, depth) == Ok::<DocOut, PError>(
        DocOut { doc, pos: 20, ended: false, tags: default_tags(), checked: false, indent: ind },
    ));
    assert(Seq::<Doc>::empty().push(doc) =~= seq![doc]);
    assert(stream_spec(d, 0, width, 0, depth, Seq::<Doc>::empty()) == Ok::<Seq<Doc>, PError>(
        seq![doc],
    ));
    assert(bom_len(d, 0) == 0);
}

} // verus!
