//! A value together with where it stood, its tag and its anchor.
use crate::anchors::AnchorTable;
use crate::text::{decimal, decimal_text};
use crate::yaml::{first_match, NodeView, Payload, ToYaml, Yaml};
use std::rc::Rc;
use vstd::prelude::*;
use vstd::std_specs::cmp::PartialEqSpec;
use vstd::std_specs::convert::FromSpecImpl;

verus! {

/// The decorations of a node: where it stood, its tag and its anchor.
#[derive(Debug)]
pub struct Deco {
    /// The byte offset of the first character that produced the node.
    pub pos: u64,
    /// The resolved tag, or the empty string.
    pub ty: String,
    /// The anchor name, or the empty string.
    pub anchor: String,
}

impl core::hash::Hash for Deco {
    /// Decorations add nothing to a hash, so that nodes that are equal hash
    /// alike.
    fn hash<H: core::hash::Hasher>(&self, state: &mut H) {
    }
}

/// What a node holds: the value and its decorations.
#[derive(Debug, Hash)]
pub struct Inner {
    /// The value.
    pub yaml: Yaml,
    /// The decorations.
    pub deco: Deco,
}

/// A read-only node: a value, its position, its tag and its anchor.
///
/// Cloning a node shares the value. Equality looks at the payload alone:
/// position, tag and anchor do not take part.
#[derive(Debug, Hash)]
pub struct NodeBase(pub Rc<Inner>);

/// The usual name of a node.
pub type Node = NodeBase;

/// `Rc::clone`: the new pointer shares the allocation, so it holds the same
/// value as the one it was made from.
#[verifier::external_body]
fn share(inner: &Rc<Inner>) -> (r: Rc<Inner>)
    ensures
        r == *inner,
{
    Rc::clone(inner)
}

/// `str::parse`: the text read as a value of `N`, or `None` where `N` does not
/// accept it. What `N` accepts is for `N` to say; nothing is claimed of it here.
#[verifier::external_body]
fn parse_text<N: core::str::FromStr>(s: &str) -> (r: Option<N>) {
    s.parse::<N>().ok()
}

/// The result of a numeric accessor, from what reading the text gave.
pub fn number_or<N>(parsed: Option<N>, pos: u64) -> (r: Result<N, u64>)
    ensures
        r == (match parsed {
            Some(v) => Ok::<N, u64>(v),
            None => Err(pos),
        }),
{
    match parsed {
        Some(v) => Ok(v),
        None => Err(pos),
    }
}

/// Where a search through nested mappings ended.
pub ghost enum Located {
    /// At this node.
    Found(NodeBase),
    /// At a mapping, at this position, that lacks the key.
    Missing(u64),
    /// At a node, at this position, that is no mapping.
    NotMapping(u64),
}

/// The value of the first entry whose key has the payload `key`.
pub open spec fn lookup(entries: Seq<(NodeBase, NodeBase)>, key: Payload) -> Option<NodeBase> {
    if exists|i: int| first_match(entries, key, i) {
        Some(entries[choose|i: int| first_match(entries, key, i)].1)
    } else {
        None
    }
}

impl NodeBase {
    /// The payload of the node's value.
    pub open spec fn payload(&self) -> Payload {
        self.0.yaml.payload()
    }

    /// Every mapping below the node has unique keys.
    pub open spec fn wf(&self) -> bool {
        self.0.yaml.wf()
    }

    /// One step into a mapping, by exact match of the key.
    pub open spec fn step(&self, key: Payload) -> Located {
        match self.0.yaml {
            Yaml::Mapping(m) => match lookup(m@, key) {
                Some(n) => Located::Found(n),
                None => Located::Missing(self.0.deco.pos),
            },
            _ => Located::NotMapping(self.0.deco.pos),
        }
    }

    /// A walk along `path` through nested mappings, one exact match per key.
    pub open spec fn locate(&self, path: Seq<Payload>) -> Located
        decreases path.len(),
    {
        if path.len() == 0 {
            Located::Found(*self)
        } else {
            match self.step(path[0]) {
                Located::Found(n) => n.locate(path.skip(1)),
                other => other,
            }
        }
    }

    /// One step of navigation that cannot fail: into a mapping by key, and
    /// back to the node itself where the key is missing or the node is no mapping.
    pub open spec fn hop(&self, key: Payload) -> NodeBase {
        match self.step(key) {
            Located::Found(n) => n,
            _ => *self,
        }
    }

    /// Navigation that cannot fail, one key after the other.
    pub open spec fn walk(&self, path: Seq<Payload>) -> NodeBase
        decreases path.len(),
    {
        if path.len() == 0 {
            *self
        } else {
            self.hop(path[0]).walk(path.skip(1))
        }
    }

    /// Creates a node.
    pub fn new(yaml: Yaml, pos: u64, ty: &str, anchor: &str) -> (r: Self)
        ensures
            r.0.yaml == yaml,
            r.0.deco.pos == pos,
            r.0.deco.ty@ == ty@,
            r.0.deco.anchor@ == anchor@,
    {
        NodeBase(
            Rc::new(Inner { yaml, deco: Deco { pos, ty: ty.to_owned(), anchor: anchor.to_owned() } }),
        )
    }

    /// The byte offset of the first character that produced the node.
    pub fn pos(&self) -> (r: u64)
        ensures
            r == self.0.deco.pos,
    {
        self.0.deco.pos
    }

    /// The resolved tag, empty when there is none.
    pub fn ty(&self) -> (r: &str)
        ensures
            r@ == self.0.deco.ty@,
    {
        self.0.deco.ty.as_str()
    }

    /// The anchor name, empty when there is none.
    pub fn anchor(&self) -> (r: &str)
        ensures
            r@ == self.0.deco.anchor@,
    {
        self.0.deco.anchor.as_str()
    }

    /// The value.
    pub fn yaml(&self) -> (r: &Yaml)
        ensures
            *r == self.0.yaml,
    {
        &self.0.yaml
    }

    /// Whether the value is `Null`.
    pub fn is_null(&self) -> (r: bool)
        ensures
            r == (self.0.yaml is Null),
    {
        match self.yaml() {
            Yaml::Null => true,
            _ => false,
        }
    }

    /// The boolean, or the node's position where the value is no boolean.
    pub fn as_bool(&self) -> (r: Result<bool, u64>)
        ensures
            r == (match self.0.yaml {
                Yaml::Bool(b) => Ok::<bool, u64>(b),
                _ => Err(self.0.deco.pos),
            }),
    {
        match self.yaml() {
            Yaml::Bool(b) => Ok(*b),
            _ => Err(self.pos()),
        }
    }

    /// The integer read as a number of type `N`.
    ///
    /// Gives the node's position where the value is no integer, or where `N`
    /// does not accept its text.
    pub fn as_int<N: core::str::FromStr>(&self) -> (r: Result<N, u64>)
        ensures
            r is Ok ==> self.0.yaml is Int,
            r is Err ==> r == Err::<N, u64>(self.0.deco.pos),
    {
        match self.yaml() {
            Yaml::Int(s) => number_or(parse_text::<N>(s.as_str()), self.pos()),
            _ => Err(self.pos()),
        }
    }

    /// The float read as a number of type `N`.
    ///
    /// Gives the node's position where the value is no float, or where `N`
    /// does not accept its text.
    pub fn as_float<N: core::str::FromStr>(&self) -> (r: Result<N, u64>)
        ensures
            r is Ok ==> self.0.yaml is Float,
            r is Err ==> r == Err::<N, u64>(self.0.deco.pos),
    {
        match self.yaml() {
            Yaml::Float(s) => number_or(parse_text::<N>(s.as_str()), self.pos()),
            _ => Err(self.pos()),
        }
    }

    /// The integer or float read as a number of type `N`.
    ///
    /// Gives the node's position where the value is neither, or where `N`
    /// does not accept its text.
    pub fn as_number<N: core::str::FromStr>(&self) -> (r: Result<N, u64>)
        ensures
            r is Ok ==> self.0.yaml is Int || self.0.yaml is Float,
            r is Err ==> r == Err::<N, u64>(self.0.deco.pos),
    {
        match self.yaml() {
            Yaml::Int(s) => number_or(parse_text::<N>(s.as_str()), self.pos()),
            Yaml::Float(s) => number_or(parse_text::<N>(s.as_str()), self.pos()),
            _ => Err(self.pos()),
        }
    }

    /// The value, when the node is given up.
    ///
    /// The value of a node that is still shared is rebuilt; its children stay shared.
    pub fn into_yaml(self) -> (r: Yaml)
        ensures
            r.alike(self.0.yaml),
    {
        self.yaml().copy()
    }

    /// The text of a scalar: of a string, an integer or a float the stored text,
    /// of a boolean `true` or `false`, of `Null` the empty text.
    pub open spec fn value_text(&self) -> Option<Seq<char>> {
        match self.0.yaml {
            Yaml::Str(s) | Yaml::Int(s) | Yaml::Float(s) => Some(s@),
            Yaml::Bool(true) => Some("true"@),
            Yaml::Bool(false) => Some("false"@),
            Yaml::Null => Some(Seq::<char>::empty()),
            _ => None,
        }
    }

    /// The string, the empty string for `Null`, or the node's position where the
    /// value is neither.
    pub fn as_str(&self) -> (r: Result<&str, u64>)
        ensures
            match r {
                Ok(s) => match self.0.yaml {
                    Yaml::Str(t) => s@ == t@,
                    Yaml::Null => s@ == Seq::<char>::empty(),
                    _ => false,
                },
                Err(p) => p == self.0.deco.pos && !(self.0.yaml is Str) && !(self.0.yaml is Null),
            },
    {
        match self.yaml() {
            Yaml::Str(s) => Ok(s.as_str()),
            Yaml::Null => {
                proof {
                    reveal_strlit("");
                }
                assert(""@ =~= Seq::<char>::empty());
                Ok("")
            },
            _ => Err(self.pos()),
        }
    }

    /// The text of a scalar, or the node's position where the value is a
    /// sequence, a mapping or an alias.
    pub fn as_value(&self) -> (r: Result<&str, u64>)
        ensures
            match r {
                Ok(s) => self.value_text() == Some(s@),
                Err(p) => self.value_text() is None && p == self.0.deco.pos,
            },
    {
        match self.yaml() {
            Yaml::Str(s) => Ok(s.as_str()),
            Yaml::Int(s) => Ok(s.as_str()),
            Yaml::Float(s) => Ok(s.as_str()),
            Yaml::Bool(true) => Ok("true"),
            Yaml::Bool(false) => Ok("false"),
            Yaml::Null => {
                proof {
                    reveal_strlit("");
                }
                assert(""@ =~= Seq::<char>::empty());
                Ok("")
            },
            _ => Err(self.pos()),
        }
    }

    /// The items of a sequence, or the node's position where the value is none.
    pub fn as_array(&self) -> (r: Result<&Vec<NodeBase>, u64>)
        ensures
            match r {
                Ok(v) => self.0.yaml == Yaml::Array(*v),
                Err(p) => p == self.0.deco.pos && !(self.0.yaml is Array),
            },
    {
        match self.yaml() {
            Yaml::Array(v) => Ok(v),
            _ => Err(self.pos()),
        }
    }

    /// The entries of a mapping, or the node's position where the value is none.
    pub fn as_map(&self) -> (r: Result<&Vec<(NodeBase, NodeBase)>, u64>)
        ensures
            match r {
                Ok(v) => self.0.yaml == Yaml::Mapping(*v),
                Err(p) => p == self.0.deco.pos && !(self.0.yaml is Mapping),
            },
    {
        match self.yaml() {
            Yaml::Mapping(v) => Ok(v),
            _ => Err(self.pos()),
        }
    }

    /// The node that an alias stands for.
    ///
    /// An alias whose name is bound in `anchors` gives the bound node; any
    /// other node gives itself.
    pub fn as_anchor(&self, anchors: &AnchorTable) -> (r: Self)
        ensures
            r == self.resolved(anchors@),
    {
        match self.yaml() {
            Yaml::Anchor(s) => match anchors.get(s.as_str()) {
                Some(n) => n.clone(),
                None => self.clone(),
            },
            _ => self.clone(),
        }
    }

    /// What [`NodeBase::as_anchor`] returns.
    pub open spec fn resolved(&self, anchors: Map<Seq<char>, NodeBase>) -> NodeBase {
        match self.0.yaml {
            Yaml::Anchor(s) if anchors.contains_key(s@) => anchors[s@],
            _ => *self,
        }
    }

    /// The value of the first entry of `entries` whose key equals `key`.
    pub fn find<'a>(entries: &'a Vec<(NodeBase, NodeBase)>, key: &Yaml) -> (r: Option<&'a NodeBase>)
        ensures
            match r {
                Some(n) => lookup(entries@, key.payload()) == Some(*n),
                None => lookup(entries@, key.payload()) is None,
            },
    {
        let mut i: usize = 0;
        while i < entries.len()
            invariant
                i <= entries@.len(),
                forall|k: int| 0 <= k < i ==> entries@[k].0.payload() != key.payload(),
            decreases entries@.len() - i,
        {
            if entries[i].0.yaml().same(key) {
                proof {
                    assert(first_match(entries@, key.payload(), i as int));
                    let j = choose|j: int| first_match(entries@, key.payload(), j);
                    assert(j == i);
                }
                return Some(&entries[i].1);
            }
            i += 1;
        }
        None
    }

    /// The path that a list of keys describes.
    pub open spec fn path_of<Y: ToYaml>(keys: Seq<Y>) -> Seq<Payload> {
        Seq::new(keys.len(), |i: int| keys[i].key_payload())
    }

    /// Walks through nested mappings, one key of `keys` at a time.
    ///
    /// Gives the node at the end of the walk, or the position of the node at
    /// which the walk stopped: a mapping that lacks the key, or a node that is
    /// no mapping.
    pub fn get<Y: ToYaml>(&self, keys: &[Y]) -> (r: Result<Self, u64>)
        requires
            keys@.len() > 0,
        ensures
            r == (match self.locate(Self::path_of(keys@)) {
                Located::Found(n) => Ok::<Self, u64>(n),
                Located::Missing(p) => Err(p),
                Located::NotMapping(p) => Err(p),
            }),
    {
        let ghost path = Self::path_of(keys@);
        let mut cur: &NodeBase = self;
        let mut i: usize = 0;
        assert(path.skip(0) =~= path);
        while i < keys.len()
            invariant
                i <= keys@.len(),
                path == Self::path_of(keys@),
                    self.locate(path) == cur.locate(path.skip(i as int)),
            decreases keys@.len() - i,
        {
            let key: Yaml = keys[i].to_yaml();
            proof {
                assert(path.skip(i as int)[0] == key.payload());
                assert(path.skip(i as int).skip(1) =~= path.skip(i + 1));
            }
            match cur.yaml() {
                Yaml::Mapping(m) => match Self::find(m, &key) {
                    Some(n) => {
                        cur = n;
                    },
                    None => {
                        return Err(cur.pos());
                    },
                },
                _ => {
                    return Err(cur.pos());
                },
            }
            i += 1;
        }
        Ok(cur.clone())
    }

    /// As [`NodeBase::get`], with a fallback for a missing key.
    ///
    /// Where the walk ends at a node, `factory` decides the result from that
    /// node. Where a mapping on the way lacks its key, the result is
    /// `default`. Where a node on the way is no mapping, the result is its
    /// position.
    pub fn get_default<'a, Y, Ret, F>(&'a self, keys: &[Y], default: Ret, factory: F) -> (r: Result<
        Ret,
        u64,
    >) where Y: ToYaml, F: Fn(&'a Self) -> Result<Ret, u64>
        requires
            keys@.len() > 0,
            forall|n: &'a Self| factory.requires((n,)),
        ensures
            match self.locate(Self::path_of(keys@)) {
                Located::Found(n) => factory.ensures((&n,), r),
                Located::Missing(_) => r == Ok::<Ret, u64>(default),
                Located::NotMapping(p) => r == Err::<Ret, u64>(p),
            },
    {
        let ghost path = Self::path_of(keys@);
        let mut cur: &'a NodeBase = self;
        let mut i: usize = 0;
        assert(path.skip(0) =~= path);
        while i < keys.len()
            invariant
                i <= keys@.len(),
                path == Self::path_of(keys@),
                    self.locate(path) == cur.locate(path.skip(i as int)),
            decreases keys@.len() - i,
        {
            let key: Yaml = keys[i].to_yaml();
            proof {
                assert(path.skip(i as int)[0] == key.payload());
                assert(path.skip(i as int).skip(1) =~= path.skip(i + 1));
            }
            match cur.yaml() {
                Yaml::Mapping(m) => match Self::find(m, &key) {
                    Some(n) => {
                        cur = n;
                    },
                    None => {
                        return Ok(default);
                    },
                },
                _ => {
                    return Err(cur.pos());
                },
            }
            i += 1;
        }
        factory(cur)
    }
}

impl View for NodeBase {
    type V = NodeView;

    open spec fn view(&self) -> NodeView {
        NodeView { yaml: self.0.yaml@, pos: self.0.deco.pos, ty: self.0.deco.ty@, anchor: self.0.deco.anchor@ }
    }
}

impl Clone for NodeBase {
    /// Another handle on the same node.
    fn clone(&self) -> (r: Self)
        ensures
            r == *self,
    {
        NodeBase(share(&self.0))
    }
}

impl vstd::std_specs::core::IndexSpecImpl<usize> for NodeBase {
    /// Every node can be indexed by every number.
    open spec fn index_req(&self, index: &usize) -> bool {
        true
    }
}

impl vstd::std_specs::core::IndexSpecImpl<&str> for NodeBase {
    /// Every node can be indexed by every string.
    open spec fn index_req(&self, index: &&str) -> bool {
        true
    }
}

impl core::ops::Index<usize> for NodeBase {
    type Output = NodeBase;

    /// The item at `index` of a sequence, or the value that a mapping holds
    /// under the integer `index` written in decimal; the node itself where
    /// there is none or the node is neither.
    fn index(&self, index: usize) -> (r: &NodeBase)
        ensures
            match self.0.yaml {
                Yaml::Array(a) => *r == if index < a@.len() {
                    a@[index as int]
                } else {
                    *self
                },
                Yaml::Mapping(_) => *r == self.hop(Payload::Int(decimal(index as nat))),
                _ => *r == *self,
            },
    {
        match self.yaml() {
            Yaml::Array(a) => if index < a.len() {
                &a[index]
            } else {
                self
            },
            Yaml::Mapping(m) => {
                let key = Yaml::Int(decimal_text(index));
                match NodeBase::find(m, &key) {
                    Some(n) => n,
                    None => self,
                }
            },
            _ => self,
        }
    }
}

impl core::ops::Index<&str> for NodeBase {
    type Output = NodeBase;

    /// The value that a mapping holds under the string `index`; the node
    /// itself where there is none or the node is no mapping.
    fn index(&self, index: &str) -> (r: &NodeBase)
        ensures
            *r == self.hop(Payload::Str(index@)),
    {
        match self.yaml() {
            Yaml::Mapping(m) => {
                let key = Yaml::Str(index.to_owned());
                match NodeBase::find(m, &key) {
                    Some(n) => n,
                    None => self,
                }
            },
            _ => self,
        }
    }
}

/// Equality of nodes does not look at position, tag or anchor: nodes whose
/// values have the same payload are equal, whatever their decorations are.
pub proof fn law_equality_ignores_decorations(a: NodeBase, b: NodeBase)
    requires
        a.0.yaml.payload() == b.0.yaml.payload(),
    ensures
        a.eq_spec(&b),
{
}

/// A walk along a path that is one key longer is the walk along the path,
/// followed by one step with the last key.
pub proof fn law_locate_push(n: NodeBase, path: Seq<Payload>, key: Payload)
    ensures
        n.locate(path.push(key)) == (match n.locate(path) {
            Located::Found(m) => m.step(key),
            other => other,
        }),
    decreases path.len(),
{
    let longer = path.push(key);
    if path.len() == 0 {
        assert(longer.skip(1) =~= Seq::<Payload>::empty());
        assert(longer[0] == key);
        match n.step(key) {
            Located::Found(m) => {
                assert(m.locate(longer.skip(1)) == Located::Found(m));
            },
            _ => {},
        }
    } else {
        assert(longer[0] == path[0]);
        assert(longer.skip(1) =~= path.skip(1).push(key));
        match n.step(path[0]) {
            Located::Found(m) => {
                law_locate_push(m, path.skip(1), key);
            },
            _ => {},
        }
    }
}

/// Where a walk through mappings finds a node, it is the node that navigation
/// which cannot fail reaches with the same keys, one exact match at a time.
pub proof fn law_get_is_repeated_indexing(n: NodeBase, path: Seq<Payload>)
    requires
        n.locate(path) is Found,
    ensures
        n.locate(path) == Located::Found(n.walk(path)),
    decreases path.len(),
{
    if path.len() > 0 {
        match n.step(path[0]) {
            Located::Found(m) => {
                law_get_is_repeated_indexing(m, path.skip(1));
            },
            _ => {},
        }
    }
}

/// Where all keys but the last lead to a mapping that lacks the last key, the
/// walk ends as missing, which is the case in which `get_default` gives its
/// default.
pub proof fn law_last_key_missing(n: NodeBase, path: Seq<Payload>, key: Payload)
    requires
        n.locate(path) matches Located::Found(m) && m.step(key) is Missing,
    ensures
        n.locate(path.push(key)) is Missing,
{
    law_locate_push(n, path, key);
}

/// An alias whose name is bound resolves to a node equal to the bound node.
pub proof fn law_alias_resolves_to_bound(n: NodeBase, anchors: Map<Seq<char>, NodeBase>)
    requires
        n.0.yaml matches Yaml::Anchor(s) && anchors.contains_key(s@),
    ensures
        n.0.yaml matches Yaml::Anchor(s) && n.resolved(anchors).eq_spec(&anchors[s@]),
{
}

impl PartialEq for NodeBase {
    /// Whether the two nodes have the same payload.
    fn eq(&self, other: &Self) -> (r: bool) {
        self.yaml().same(other.yaml())
    }
}

impl vstd::std_specs::cmp::PartialEqSpecImpl for NodeBase {
    open spec fn obeys_eq_spec() -> bool {
        true
    }

    open spec fn eq_spec(&self, other: &Self) -> bool {
        self.payload() == other.payload()
    }
}

impl Eq for NodeBase {

}

impl From<Yaml> for NodeBase {
    /// A node at position 0 without tag or anchor.
    fn from(yaml: Yaml) -> (r: Self)
        ensures
            r.0.yaml == yaml,
            r.0.deco.pos == 0,
            r.0.deco.ty@ == Seq::<char>::empty(),
            r.0.deco.anchor@ == Seq::<char>::empty(),
    {
        proof {
            reveal_strlit("");
        }
        assert(""@ =~= Seq::<char>::empty());
        NodeBase::new(yaml, 0, "", "")
    }
}

impl FromSpecImpl<Yaml> for NodeBase {
    open spec fn obeys_from_spec() -> bool {
        false
    }

    open spec fn from_spec(yaml: Yaml) -> NodeBase {
        arbitrary()
    }
}

} // verus!
