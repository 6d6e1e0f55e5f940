//! The tagged value that a node carries.
use crate::node::NodeBase;
use vstd::prelude::*;
use vstd::std_specs::convert::FromSpecImpl;

verus! {

/// A YAML value.
///
/// Integers and floats keep the text they were written with, so that radix,
/// precision and leading zeros survive; the accessors of [`NodeBase`] convert
/// on demand. A mapping keeps its entries in insertion order.
#[derive(Debug, Hash)]
pub enum Yaml {
    /// The absent value.
    Null,
    /// A boolean.
    Bool(bool),
    /// An integer, as written.
    Int(String),
    /// A floating point number, as written.
    Float(String),
    /// A decoded string.
    Str(String),
    /// A sequence of nodes.
    Array(Vec<NodeBase>),
    /// Key and value pairs, in insertion order.
    Mapping(Vec<(NodeBase, NodeBase)>),
    /// A reference to an anchor that has not been looked up.
    Anchor(String),
}

/// The shape and content of a value, without positions, tags or anchor names.
///
/// Two nodes are equal exactly when their payloads are.
pub ghost enum Payload {
    Null,
    Bool(bool),
    Int(Seq<char>),
    Float(Seq<char>),
    Str(Seq<char>),
    Array(Seq<Payload>),
    Mapping(Seq<(Payload, Payload)>),
    Anchor(Seq<char>),
}

/// A value as specifications see it: with its text as characters and its
/// children as views.
pub ghost enum YamlView {
    Null,
    Bool(bool),
    Int(Seq<char>),
    Float(Seq<char>),
    Str(Seq<char>),
    Array(Seq<NodeView>),
    Mapping(Seq<(NodeView, NodeView)>),
    Anchor(Seq<char>),
}

/// A node as specifications see it.
pub ghost struct NodeView {
    pub yaml: YamlView,
    pub pos: u64,
    pub ty: Seq<char>,
    pub anchor: Seq<char>,
}

impl YamlView {
    /// The value with every decoration removed, at every depth.
    pub open spec fn payload(self) -> Payload
        decreases self,
    {
        match self {
            YamlView::Null => Payload::Null,
            YamlView::Bool(b) => Payload::Bool(b),
            YamlView::Int(s) => Payload::Int(s),
            YamlView::Float(s) => Payload::Float(s),
            YamlView::Str(s) => Payload::Str(s),
            YamlView::Array(v) => Payload::Array(
                Seq::new(
                    v.len(),
                    |i: int|
                        if 0 <= i < v.len() {
                            v[i].yaml.payload()
                        } else {
                            Payload::Null
                        },
                ),
            ),
            YamlView::Mapping(v) => Payload::Mapping(
                Seq::new(
                    v.len(),
                    |i: int|
                        if 0 <= i < v.len() {
                            (v[i].0.yaml.payload(), v[i].1.yaml.payload())
                        } else {
                            (Payload::Null, Payload::Null)
                        },
                ),
            ),
            YamlView::Anchor(s) => Payload::Anchor(s),
        }
    }
}

/// The views of the nodes.
pub open spec fn views(items: Seq<NodeBase>) -> Seq<NodeView> {
    Seq::new(items.len(), |i: int| items[i]@)
}

/// The views of the entries.
pub open spec fn pair_views(entries: Seq<(NodeBase, NodeBase)>) -> Seq<(NodeView, NodeView)> {
    Seq::new(entries.len(), |i: int| (entries[i].0@, entries[i].1@))
}

/// A value and its view have the same payload.
pub proof fn payload_of_view(y: &Yaml)
    ensures
        y@.payload() == y.payload(),
    decreases y,
{
    match *y {
        Yaml::Array(v) => {
            assert forall|i: int| 0 <= i < v@.len() implies (#[trigger] v@[i]).0.yaml@.payload()
                == v@[i].0.yaml.payload() by {
                payload_of_view(&v@[i].0.yaml);
            }
            assert(y@.payload()->Array_0 =~= y.payload()->Array_0);
        },
        Yaml::Mapping(v) => {
            assert forall|i: int| 0 <= i < v@.len() implies (#[trigger] v@[i]).0.0.yaml@.payload()
                == v@[i].0.0.yaml.payload() && v@[i].1.0.yaml@.payload()
                == v@[i].1.0.yaml.payload() by {
                payload_of_view(&v@[i].0.0.yaml);
                payload_of_view(&v@[i].1.0.yaml);
            }
            assert(y@.payload()->Mapping_0 =~= y.payload()->Mapping_0);
        },
        _ => {},
    }
}

impl View for Yaml {
    type V = YamlView;

    open spec fn view(&self) -> YamlView
        decreases self,
    {
        match self {
            Yaml::Null => YamlView::Null,
            Yaml::Bool(b) => YamlView::Bool(*b),
            Yaml::Int(s) => YamlView::Int(s@),
            Yaml::Float(s) => YamlView::Float(s@),
            Yaml::Str(s) => YamlView::Str(s@),
            Yaml::Array(v) => YamlView::Array(
                Seq::new(
                    v@.len(),
                    |i: int|
                        if 0 <= i < v@.len() {
                            NodeView {
                                yaml: v@[i].0.yaml.view(),
                                pos: v@[i].0.deco.pos,
                                ty: v@[i].0.deco.ty@,
                                anchor: v@[i].0.deco.anchor@,
                            }
                        } else {
                            arbitrary()
                        },
                ),
            ),
            Yaml::Mapping(v) => YamlView::Mapping(
                Seq::new(
                    v@.len(),
                    |i: int|
                        if 0 <= i < v@.len() {
                            (
                                NodeView {
                                    yaml: v@[i].0.0.yaml.view(),
                                    pos: v@[i].0.0.deco.pos,
                                    ty: v@[i].0.0.deco.ty@,
                                    anchor: v@[i].0.0.deco.anchor@,
                                },
                                NodeView {
                                    yaml: v@[i].1.0.yaml.view(),
                                    pos: v@[i].1.0.deco.pos,
                                    ty: v@[i].1.0.deco.ty@,
                                    anchor: v@[i].1.0.deco.anchor@,
                                },
                            )
                        } else {
                            arbitrary()
                        },
                ),
            ),
            Yaml::Anchor(s) => YamlView::Anchor(s@),
        }
    }
}

/// The view of a sequence holds the views of its items.
pub proof fn view_of_items(v: &Vec<NodeBase>)
    ensures
        Yaml::Array(*v)@ == YamlView::Array(views(v@)),
{
    assert(Yaml::Array(*v)@->Array_0 =~= views(v@));
}

/// The view of a mapping holds the views of its entries.
pub proof fn view_of_entries(v: &Vec<(NodeBase, NodeBase)>)
    ensures
        Yaml::Mapping(*v)@ == YamlView::Mapping(pair_views(v@)),
{
    assert(Yaml::Mapping(*v)@->Mapping_0 =~= pair_views(v@));
}

/// No two entries have keys with the same payload.
pub open spec fn keys_unique(entries: Seq<(NodeBase, NodeBase)>) -> bool {
    forall|i: int, j: int|
        0 <= i < j < entries.len() ==> entries[i].0.payload() != entries[j].0.payload()
}

/// `i` is the place of the first entry whose key has the payload `key`.
pub open spec fn first_match(entries: Seq<(NodeBase, NodeBase)>, key: Payload, i: int) -> bool {
    &&& 0 <= i < entries.len()
    &&& entries[i].0.payload() == key
    &&& forall|k: int| 0 <= k < i ==> entries[k].0.payload() != key
}

/// The entries once `key` maps to `value`: where an entry has an equal key,
/// it moves to the end, keeps its key and gets the value; else a new entry
/// stands last.
pub open spec fn put(entries: Seq<(NodeBase, NodeBase)>, key: NodeBase, value: NodeBase) -> Seq<
    (NodeBase, NodeBase),
> {
    if exists|i: int| first_match(entries, key.payload(), i) {
        let i = choose|i: int| first_match(entries, key.payload(), i);
        entries.remove(i).push((entries[i].0, value))
    } else {
        entries.push((key, value))
    }
}

/// Lets `key` map to `value` in the entries of a mapping.
///
/// An entry with an equal key keeps its key, gets the value and moves to
/// the end; else a new entry stands last. Entries with unique keys keep
/// unique keys.
pub fn insert_entry(entries: &mut Vec<(NodeBase, NodeBase)>, key: NodeBase, value: NodeBase)
    ensures
        final(entries)@ == put(old(entries)@, key, value),
        keys_unique(old(entries)@) ==> keys_unique(final(entries)@),
{
    let ghost before = entries@;
    let ghost want = key.payload();
    let mut i: usize = 0;
    let mut found: Option<usize> = None;
    while i < entries.len() && found.is_none()
        invariant
            i <= entries@.len(),
            entries@ == before,
            want == key.payload(),
            match found {
                Some(j) => first_match(before, want, j as int),
                None => forall|k: int| 0 <= k < i ==> before[k].0.payload() != want,
            },
        decreases entries@.len() - i + (if found is None { 1int } else { 0int }),
    {
        if entries[i].0.yaml().same(key.yaml()) {
            found = Some(i);
        } else {
            i += 1;
        }
    }
    match found {
        Some(j) => {
            proof {
                let c = choose|c: int| first_match(before, want, c);
                assert(c == j);
            }
            let held = entries.remove(j);
            entries.push((held.0, value));
            proof {
                let after = entries@;
                if keys_unique(before) {
                    assert forall|a: int, b: int| 0 <= a < b < after.len() implies after[a].0.payload()
                        != after[b].0.payload() by {
                        let a0 = if a < j { a } else { a + 1 };
                        if b < after.len() - 1 {
                            let b0 = if b < j { b } else { b + 1 };
                            assert(after[a] == before[a0] && after[b] == before[b0]);
                        } else {
                            assert(after[a] == before[a0]);
                            assert(a0 != j);
                            if a0 < j {
                                assert(before[a0].0.payload() != before[j as int].0.payload());
                            } else {
                                assert(before[j as int].0.payload() != before[a0].0.payload());
                            }
                        }
                    }
                }
            }
        },
        None => {
            entries.push((key, value));
        },
    }
}

impl Yaml {
    /// The value with every decoration removed, at every depth.
    pub open spec fn payload(self) -> Payload
        decreases self,
    {
        match self {
            Yaml::Null => Payload::Null,
            Yaml::Bool(b) => Payload::Bool(b),
            Yaml::Int(s) => Payload::Int(s@),
            Yaml::Float(s) => Payload::Float(s@),
            Yaml::Str(s) => Payload::Str(s@),
            Yaml::Array(v) => Payload::Array(
                Seq::new(
                    v@.len(),
                    |i: int|
                        if 0 <= i < v@.len() {
                            v@[i].0.yaml.payload()
                        } else {
                            Payload::Null
                        },
                ),
            ),
            Yaml::Mapping(v) => Payload::Mapping(
                Seq::new(
                    v@.len(),
                    |i: int|
                        if 0 <= i < v@.len() {
                            (v@[i].0.0.yaml.payload(), v@[i].1.0.yaml.payload())
                        } else {
                            (Payload::Null, Payload::Null)
                        },
                ),
            ),
            Yaml::Anchor(s) => Payload::Anchor(s@),
        }
    }

    /// Every mapping in the value, at every depth, has unique keys.
    pub open spec fn wf(self) -> bool
        decreases self,
    {
        match self {
            Yaml::Array(v) => forall|i: int| 0 <= i < v@.len() ==> (#[trigger] v@[i]).0.yaml.wf(),
            Yaml::Mapping(v) => {
                &&& forall|i: int|
                    0 <= i < v@.len() ==> (#[trigger] v@[i]).0.0.yaml.wf() && v@[i].1.0.yaml.wf()
                &&& keys_unique(v@)
            },
            _ => true,
        }
    }

    /// The same value, with the same children.
    pub open spec fn alike(self, other: Yaml) -> bool {
        match (self, other) {
            (Yaml::Null, Yaml::Null) => true,
            (Yaml::Bool(a), Yaml::Bool(b)) => a == b,
            (Yaml::Int(a), Yaml::Int(b)) => a@ == b@,
            (Yaml::Float(a), Yaml::Float(b)) => a@ == b@,
            (Yaml::Str(a), Yaml::Str(b)) => a@ == b@,
            (Yaml::Array(a), Yaml::Array(b)) => a@ == b@,
            (Yaml::Mapping(a), Yaml::Mapping(b)) => a@ == b@,
            (Yaml::Anchor(a), Yaml::Anchor(b)) => a@ == b@,
            _ => false,
        }
    }

    /// A second value of the same content; the children are shared, not rebuilt.
    pub fn copy(&self) -> (r: Yaml)
        ensures
            r.alike(*self),
    {
        match self {
            Yaml::Null => Yaml::Null,
            Yaml::Bool(b) => Yaml::Bool(*b),
            Yaml::Int(s) => Yaml::Int(s.clone()),
            Yaml::Float(s) => Yaml::Float(s.clone()),
            Yaml::Str(s) => Yaml::Str(s.clone()),
            Yaml::Anchor(s) => Yaml::Anchor(s.clone()),
            Yaml::Array(v) => {
                let mut out: Vec<NodeBase> = Vec::new();
                let mut i: usize = 0;
                while i < v.len()
                    invariant
                        i <= v@.len(),
                        out@ == v@.subrange(0, i as int),
                    decreases v@.len() - i,
                {
                    out.push(v[i].clone());
                    assert(out@ =~= v@.subrange(0, i + 1));
                    i += 1;
                }
                assert(v@.subrange(0, i as int) =~= v@);
                Yaml::Array(out)
            },
            Yaml::Mapping(v) => {
                let mut out: Vec<(NodeBase, NodeBase)> = Vec::new();
                let mut i: usize = 0;
                while i < v.len()
                    invariant
                        i <= v@.len(),
                        out@ == v@.subrange(0, i as int),
                    decreases v@.len() - i,
                {
                    out.push((v[i].0.clone(), v[i].1.clone()));
                    assert(out@ =~= v@.subrange(0, i + 1));
                    i += 1;
                }
                assert(v@.subrange(0, i as int) =~= v@);
                Yaml::Mapping(out)
            },
        }
    }

    /// Compares two values by payload.
    pub fn same(&self, other: &Yaml) -> (r: bool)
        ensures
            r == (self.payload() == other.payload()),
        decreases *self,
    {
        match (self, other) {
            (Yaml::Null, Yaml::Null) => true,
            (Yaml::Bool(a), Yaml::Bool(b)) => *a == *b,
            (Yaml::Int(a), Yaml::Int(b)) => *a == *b,
            (Yaml::Float(a), Yaml::Float(b)) => *a == *b,
            (Yaml::Str(a), Yaml::Str(b)) => *a == *b,
            (Yaml::Anchor(a), Yaml::Anchor(b)) => *a == *b,
            (Yaml::Array(a), Yaml::Array(b)) => {
                let ghost pa = self.payload()->Array_0;
                let ghost pb = other.payload()->Array_0;
                if a.len() != b.len() {
                    assert(pa.len() != pb.len());
                    return false;
                }
                let mut i: usize = 0;
                while i < a.len()
                    invariant
                        i <= a.len() == b.len(),
                        *self == Yaml::Array(*a),
                        *other == Yaml::Array(*b),
                        pa == self.payload()->Array_0,
                        pb == other.payload()->Array_0,
                        forall|k: int| 0 <= k < i ==> pa[k] == pb[k],
                    decreases a.len() - i,
                {
                    if !a[i].yaml().same(b[i].yaml()) {
                        assert(pa[i as int] != pb[i as int]);
                        return false;
                    }
                    i += 1;
                }
                assert(pa =~= pb);
                true
            },
            (Yaml::Mapping(a), Yaml::Mapping(b)) => {
                let ghost pa = self.payload()->Mapping_0;
                let ghost pb = other.payload()->Mapping_0;
                if a.len() != b.len() {
                    assert(pa.len() != pb.len());
                    return false;
                }
                let mut i: usize = 0;
                while i < a.len()
                    invariant
                        i <= a.len() == b.len(),
                        *self == Yaml::Mapping(*a),
                        *other == Yaml::Mapping(*b),
                        pa == self.payload()->Mapping_0,
                        pb == other.payload()->Mapping_0,
                        forall|k: int| 0 <= k < i ==> pa[k] == pb[k],
                    decreases a.len() - i,
                {
                    if !a[i].0.yaml().same(b[i].0.yaml()) {
                        assert(pa[i as int] != pb[i as int]);
                        return false;
                    }
                    if !a[i].1.yaml().same(b[i].1.yaml()) {
                        assert(pa[i as int] != pb[i as int]);
                        return false;
                    }
                    i += 1;
                }
                assert(pa =~= pb);
                true
            },
            _ => false,
        }
    }
}

/// A value that can serve as a key when walking through mappings.
pub trait ToYaml: Copy {
    /// The payload of the value that the key becomes.
    spec fn key_payload(self) -> Payload;

    /// The key as a value.
    fn to_yaml(self) -> (r: Yaml)
        ensures
            r.payload() == self.key_payload(),
    ;
}

impl ToYaml for &str {
    open spec fn key_payload(self) -> Payload {
        Payload::Str(self@)
    }

    fn to_yaml(self) -> (r: Yaml) {
        Yaml::Str(self.to_owned())
    }
}

impl ToYaml for bool {
    open spec fn key_payload(self) -> Payload {
        Payload::Bool(self)
    }

    fn to_yaml(self) -> (r: Yaml) {
        Yaml::Bool(self)
    }
}

impl From<&str> for Yaml {
    /// A string value.
    fn from(s: &str) -> (r: Yaml)
        ensures
            r matches Yaml::Str(t) && t@ == s@,
    {
        Yaml::Str(s.to_owned())
    }
}

impl FromSpecImpl<&str> for Yaml {
    open spec fn obeys_from_spec() -> bool {
        false
    }

    open spec fn from_spec(s: &str) -> Yaml {
        Yaml::Null
    }
}

impl From<String> for Yaml {
    /// A string value.
    fn from(s: String) -> (r: Yaml)
        ensures
            r == Yaml::Str(s),
    {
        Yaml::Str(s)
    }
}

impl FromSpecImpl<String> for Yaml {
    open spec fn obeys_from_spec() -> bool {
        true
    }

    open spec fn from_spec(s: String) -> Yaml {
        Yaml::Str(s)
    }
}

impl From<bool> for Yaml {
    /// A boolean value.
    fn from(b: bool) -> (r: Yaml)
        ensures
            r == Yaml::Bool(b),
    {
        Yaml::Bool(b)
    }
}

impl FromSpecImpl<bool> for Yaml {
    open spec fn obeys_from_spec() -> bool {
        true
    }

    open spec fn from_spec(b: bool) -> Yaml {
        Yaml::Bool(b)
    }
}

impl From<Vec<NodeBase>> for Yaml {
    /// A sequence.
    fn from(items: Vec<NodeBase>) -> (r: Yaml)
        ensures
            r == Yaml::Array(items),
    {
        Yaml::Array(items)
    }
}

impl FromSpecImpl<Vec<NodeBase>> for Yaml {
    open spec fn obeys_from_spec() -> bool {
        true
    }

    open spec fn from_spec(items: Vec<NodeBase>) -> Yaml {
        Yaml::Array(items)
    }
}

} // verus!
