//! A path-addressable configuration tree.
//!
//! A tree is built once from composite nodes, each an ordered list of named
//! children, and leaf nodes, each holding one typed value. A dotted path,
//! given as its segments, addresses one leaf; a payload string is parsed by
//! the leaf codec and, on success, replaces the leaf's value. Checking a
//! mutation (`validate`) is separate from performing it (`apply`): `validate`
//! borrows the tree shared and can change nothing.
use crate::codec;
use vstd::prelude::*;

verus! {

broadcast use vstd::seq::group_seq_axioms, vstd::seq_lib::group_seq_lib_default;

/// The type tag of a leaf, carried by a parse failure.
#[derive(Clone, Copy, Debug, PartialEq, Eq, Structural)]
pub enum LeafKind {
    Bool,
    Int,
    Num,
    Str,
    Pair,
}

/// A leaf value. A number is held as the bit pattern of the double-precision
/// value the codec produced.
#[derive(Debug)]
pub enum Leaf {
    Bool(bool),
    Int(i64),
    Num(u64),
    Str(String),
    Pair(i64, i64),
}

/// One named child of a composite node.
#[derive(Debug)]
pub struct Field {
    pub name: String,
    pub child: Node,
}

/// A node of the configuration tree: either a composite with an ordered list
/// of named children, fixed at definition time, or a leaf.
#[derive(Debug)]
pub enum Node {
    Composite(Vec<Field>),
    Leaf(Leaf),
}

/// Why a `validate` or `apply` call failed.
#[derive(Clone, Debug, PartialEq, Eq)]
pub enum ConfigError {
    /// The path ran out while still at a composite node.
    PathTooShort,
    /// Path segments remained when a leaf was reached.
    PathTooLong,
    /// A segment matched no child name of the composite at hand.
    PathNotFound,
    /// The codec rejected the payload for the target leaf's type.
    ValueParseError { kind: LeafKind, payload: String },
}

/// The mathematical model of a leaf value.
pub enum LeafV {
    Bool(bool),
    Int(i64),
    Num(u64),
    Str(Seq<char>),
    Pair(i64, i64),
}

/// The mathematical model of a node.
pub enum NodeV {
    Composite(Seq<(Seq<char>, NodeV)>),
    Leaf(LeafV),
}

/// The mathematical model of an error.
pub enum ErrorV {
    PathTooShort,
    PathTooLong,
    PathNotFound,
    ValueParseError { kind: LeafKind, payload: Seq<char> },
}

impl View for Leaf {
    type V = LeafV;

    open spec fn view(&self) -> LeafV {
        match *self {
            Leaf::Bool(b) => LeafV::Bool(b),
            Leaf::Int(i) => LeafV::Int(i),
            Leaf::Num(bits) => LeafV::Num(bits),
            Leaf::Str(s) => LeafV::Str(s@),
            Leaf::Pair(a, b) => LeafV::Pair(a, b),
        }
    }
}

pub open spec fn fields_view(fields: Seq<Field>) -> Seq<(Seq<char>, NodeV)>
    decreases fields,
{
    if fields.len() == 0 {
        Seq::empty()
    } else {
        seq![(fields[0].name@, fields[0].child@)] + fields_view(fields.drop_first())
    }
}

impl View for Node {
    type V = NodeV;

    open spec fn view(&self) -> NodeV
        decreases *self,
    {
        match *self {
            Node::Composite(fields) => NodeV::Composite(fields_view(fields@)),
            Node::Leaf(l) => NodeV::Leaf(l@),
        }
    }
}

impl View for ConfigError {
    type V = ErrorV;

    open spec fn view(&self) -> ErrorV {
        match *self {
            ConfigError::PathTooShort => ErrorV::PathTooShort,
            ConfigError::PathTooLong => ErrorV::PathTooLong,
            ConfigError::PathNotFound => ErrorV::PathNotFound,
            ConfigError::ValueParseError { kind, payload } => ErrorV::ValueParseError {
                kind,
                payload: payload@,
            },
        }
    }
}

/// The view of a path: each segment as its character sequence.
pub open spec fn path_view(path: Seq<String>) -> Seq<Seq<char>> {
    path.map_values(|s: String| s@)
}

/// The index of the first child whose name matches, if any.
pub open spec fn seg_find(fields: Seq<(Seq<char>, NodeV)>, name: Seq<char>) -> Option<int>
    decreases fields,
{
    if fields.len() == 0 {
        None
    } else if fields[0].0 == name {
        Some(0int)
    } else {
        match seg_find(fields.drop_first(), name) {
            Some(i) => Some(i + 1),
            None => None,
        }
    }
}

/// Whether the codec accepts the payload for the leaf's type. A string leaf
/// accepts every payload.
pub open spec fn leaf_check(l: LeafV, v: Seq<char>) -> bool {
    match l {
        LeafV::Bool(_) => codec::ron_bool(v) is Some,
        LeafV::Int(_) => codec::ron_i64(v) is Some,
        LeafV::Num(_) => codec::ron_num_bits(v) is Some,
        LeafV::Str(_) => true,
        LeafV::Pair(_, _) => codec::ron_pair_i64(v) is Some,
    }
}

/// The type tag of a leaf.
pub open spec fn leaf_kind(l: LeafV) -> LeafKind {
    match l {
        LeafV::Bool(_) => LeafKind::Bool,
        LeafV::Int(_) => LeafKind::Int,
        LeafV::Num(_) => LeafKind::Num,
        LeafV::Str(_) => LeafKind::Str,
        LeafV::Pair(_, _) => LeafKind::Pair,
    }
}

/// The leaf after a successful mutation: the codec's parse result for the
/// leaf's type. Meaningful only when `leaf_check` holds; a string leaf takes
/// the payload itself.
pub open spec fn leaf_parsed(l: LeafV, v: Seq<char>) -> LeafV {
    match l {
        LeafV::Bool(b0) => match codec::ron_bool(v) {
            Some(b) => LeafV::Bool(b),
            None => LeafV::Bool(b0),
        },
        LeafV::Int(i0) => match codec::ron_i64(v) {
            Some(i) => LeafV::Int(i),
            None => LeafV::Int(i0),
        },
        LeafV::Num(n0) => match codec::ron_num_bits(v) {
            Some(n) => LeafV::Num(n),
            None => LeafV::Num(n0),
        },
        LeafV::Str(_) => LeafV::Str(v),
        LeafV::Pair(a0, b0) => match codec::ron_pair_i64(v) {
            Some(p) => LeafV::Pair(p.0, p.1),
            None => LeafV::Pair(a0, b0),
        },
    }
}

/// The outcome of resolving `path` against `n` with payload `v`: the error,
/// or None when a mutation with these arguments succeeds. This one spec
/// function governs `validate` and `apply` alike.
pub open spec fn node_check(n: NodeV, path: Seq<Seq<char>>, v: Seq<char>) -> Option<ErrorV>
    decreases path.len(),
{
    match n {
        NodeV::Composite(fields) => {
            if path.len() == 0 {
                Some(ErrorV::PathTooShort)
            } else {
                match seg_find(fields, path[0]) {
                    None => Some(ErrorV::PathNotFound),
                    Some(i) => node_check(fields[i].1, path.drop_first(), v),
                }
            }
        },
        NodeV::Leaf(l) => {
            if path.len() > 0 {
                Some(ErrorV::PathTooLong)
            } else if leaf_check(l, v) {
                None
            } else {
                Some(ErrorV::ValueParseError { kind: leaf_kind(l), payload: v })
            }
        },
    }
}

/// The tree after `apply`: the addressed leaf replaced by the codec's parse
/// result when `node_check` passes, the tree unchanged otherwise.
pub open spec fn node_apply(n: NodeV, path: Seq<Seq<char>>, v: Seq<char>) -> NodeV
    decreases path.len(),
{
    if node_check(n, path, v) is Some {
        n
    } else {
        match n {
            NodeV::Composite(fields) => {
                match seg_find(fields, path[0]) {
                    Some(i) => NodeV::Composite(
                        fields.update(i, (fields[i].0, node_apply(fields[i].1, path.drop_first(), v))),
                    ),
                    None => n,
                }
            },
            NodeV::Leaf(l) => NodeV::Leaf(leaf_parsed(l, v)),
        }
    }
}

/// The immediate child names of a node: declaration order for a composite,
/// empty for a leaf.
pub open spec fn child_names(n: NodeV) -> Seq<Seq<char>> {
    match n {
        NodeV::Composite(fields) => fields.map_values(|f: (Seq<char>, NodeV)| f.0),
        NodeV::Leaf(_) => Seq::empty(),
    }
}

pub proof fn lemma_fields_view(fields: Seq<Field>)
    ensures
        fields_view(fields).len() == fields.len(),
        forall|i: int|
            0 <= i < fields.len() ==> fields_view(fields)[i] == (fields[i].name@, fields[i].child@),
    decreases fields,
{
    if fields.len() > 0 {
        lemma_fields_view(fields.drop_first());
        let head = seq![(fields[0].name@, fields[0].child@)];
        let rest = fields_view(fields.drop_first());
        assert(fields_view(fields) == head + rest);
        assert forall|i: int| 0 <= i < fields.len() implies fields_view(fields)[i] == (
            fields[i].name@,
            fields[i].child@,
        ) by {
            if i > 0 {
                assert((head + rest)[i] == rest[i - 1]);
                assert(fields.drop_first()[i - 1] == fields[i]);
            } else {
                assert((head + rest)[0] == head[0]);
            }
        }
    }
}

proof fn lemma_seg_find_none(fields: Seq<(Seq<char>, NodeV)>, name: Seq<char>)
    requires
        forall|j: int| 0 <= j < fields.len() ==> fields[j].0 != name,
    ensures
        seg_find(fields, name) is None,
    decreases fields,
{
    if fields.len() > 0 {
        lemma_seg_find_none(fields.drop_first(), name);
    }
}

proof fn lemma_seg_find_first(fields: Seq<(Seq<char>, NodeV)>, name: Seq<char>, i: int)
    requires
        0 <= i < fields.len(),
        fields[i].0 == name,
        forall|j: int| 0 <= j < i ==> fields[j].0 != name,
    ensures
        seg_find(fields, name) == Some(i),
    decreases fields,
{
    if i > 0 {
        lemma_seg_find_first(fields.drop_first(), name, i - 1);
    }
}

/// The index of the first child of `fields` named `name`, if any.
fn find_field(fields: &Vec<Field>, name: &String) -> (r: Option<usize>)
    ensures
        match r {
            Some(i) => i < fields@.len() && seg_find(fields_view(fields@), name@) == Some(i as int),
            None => seg_find(fields_view(fields@), name@) is None,
        },
{
    proof {
        lemma_fields_view(fields@);
    }
    let mut i: usize = 0;
    while i < fields.len()
        invariant
            i <= fields@.len(),
            fields_view(fields@).len() == fields@.len(),
            forall|j: int|
                0 <= j < fields@.len() ==> fields_view(fields@)[j] == (
                    fields@[j].name@,
                    fields@[j].child@,
                ),
            forall|j: int| 0 <= j < i ==> fields@[j].name@ != name@,
        decreases fields@.len() - i,
    {
        if fields[i].name == *name {
            proof {
                lemma_seg_find_first(fields_view(fields@), name@, i as int);
            }
            return Some(i);
        }
        i += 1;
    }
    proof {
        lemma_seg_find_none(fields_view(fields@), name@);
    }
    None
}

/// The type tag of a leaf value.
fn kind_of(l: &Leaf) -> (r: LeafKind)
    ensures
        r == leaf_kind(l@),
{
    match l {
        Leaf::Bool(_) => LeafKind::Bool,
        Leaf::Int(_) => LeafKind::Int,
        Leaf::Num(_) => LeafKind::Num,
        Leaf::Str(_) => LeafKind::Str,
        Leaf::Pair(_, _) => LeafKind::Pair,
    }
}

/// Check a payload against a leaf's type without touching the leaf.
fn leaf_validate(l: &Leaf, value: &str) -> (r: Result<(), ConfigError>)
    ensures
        r is Ok <==> leaf_check(l@, value@),
        r matches Err(e) ==> e@ == (ErrorV::ValueParseError {
            kind: leaf_kind(l@),
            payload: value@,
        }),
{
    let ok = match l {
        Leaf::Bool(_) => codec::parse_bool(value).is_some(),
        Leaf::Int(_) => codec::parse_i64(value).is_some(),
        Leaf::Num(_) => codec::parse_num_bits(value).is_some(),
        Leaf::Str(_) => true,
        Leaf::Pair(_, _) => codec::parse_pair_i64(value).is_some(),
    };
    if ok {
        Ok(())
    } else {
        Err(ConfigError::ValueParseError { kind: kind_of(l), payload: value.to_owned() })
    }
}

/// Parse a payload for a leaf's type and, on success, replace the leaf's
/// value. A failed parse leaves the leaf untouched.
fn leaf_apply(l: &mut Leaf, value: &str) -> (r: Result<(), ConfigError>)
    ensures
        r is Ok <==> leaf_check(old(l)@, value@),
        leaf_check(old(l)@, value@) ==> final(l)@ == leaf_parsed(old(l)@, value@),
        !leaf_check(old(l)@, value@) ==> final(l)@ == old(l)@,
        r matches Err(e) ==> e@ == (ErrorV::ValueParseError {
            kind: leaf_kind(old(l)@),
            payload: value@,
        }),
{
    match l {
        Leaf::Bool(b) => match codec::parse_bool(value) {
            Some(nb) => {
                *b = nb;
                Ok(())
            },
            None => Err(
                ConfigError::ValueParseError { kind: LeafKind::Bool, payload: value.to_owned() },
            ),
        },
        Leaf::Int(iv) => match codec::parse_i64(value) {
            Some(ni) => {
                *iv = ni;
                Ok(())
            },
            None => Err(
                ConfigError::ValueParseError { kind: LeafKind::Int, payload: value.to_owned() },
            ),
        },
        Leaf::Num(nv) => match codec::parse_num_bits(value) {
            Some(nn) => {
                *nv = nn;
                Ok(())
            },
            None => Err(
                ConfigError::ValueParseError { kind: LeafKind::Num, payload: value.to_owned() },
            ),
        },
        Leaf::Str(s) => {
            *s = value.to_owned();
            Ok(())
        },
        Leaf::Pair(a, b) => match codec::parse_pair_i64(value) {
            Some(p) => {
                *a = p.0;
                *b = p.1;
                Ok(())
            },
            None => Err(
                ConfigError::ValueParseError { kind: LeafKind::Pair, payload: value.to_owned() },
            ),
        },
    }
}

impl Node {
    /// Check whether `apply` with the same path and payload would succeed,
    /// without mutating any state: the tree is only borrowed shared.
    pub fn validate(&self, path: &[String], value: &str) -> (r: Result<(), ConfigError>)
        ensures
            r is Ok <==> node_check(self@, path_view(path@), value@) is None,
            r matches Err(e) ==> node_check(self@, path_view(path@), value@) == Some(e@),
    {
        let r = self.validate_at(path, 0, value);
        proof {
            assert(path_view(path@).skip(0) =~= path_view(path@));
        }
        r
    }

    fn validate_at(&self, path: &[String], from: usize, value: &str) -> (r: Result<
        (),
        ConfigError,
    >)
        requires
            from <= path@.len(),
        ensures
            r is Ok <==> node_check(self@, path_view(path@).skip(from as int), value@) is None,
            r matches Err(e) ==> node_check(self@, path_view(path@).skip(from as int), value@)
                == Some(e@),
        decreases path@.len() - from,
    {
        let ghost pv = path_view(path@).skip(from as int);
        match self {
            Node::Leaf(l) => {
                if from < path.len() {
                    Err(ConfigError::PathTooLong)
                } else {
                    leaf_validate(l, value)
                }
            },
            Node::Composite(fields) => {
                if from >= path.len() {
                    Err(ConfigError::PathTooShort)
                } else {
                    proof {
                        assert(pv[0] == path@[from as int]@);
                    }
                    match find_field(fields, &path[from]) {
                        None => Err(ConfigError::PathNotFound),
                        Some(i) => {
                            proof {
                                lemma_fields_view(fields@);
                                assert(pv.drop_first() =~= path_view(path@).skip(from + 1));
                            }
                            fields[i].child.validate_at(path, from + 1, value)
                        },
                    }
                }
            },
        }
    }

    /// Resolve `path` and replace the addressed leaf's value with the codec's
    /// parse of `value`. On any failure the tree is left exactly as it was:
    /// no partial mutation occurs.
    pub fn apply(&mut self, path: &[String], value: &str) -> (r: Result<(), ConfigError>)
        ensures
            r is Ok <==> node_check(old(self)@, path_view(path@), value@) is None,
            final(self)@ == node_apply(old(self)@, path_view(path@), value@),
            r is Err ==> final(self)@ == old(self)@,
            r matches Err(e) ==> node_check(old(self)@, path_view(path@), value@) == Some(e@),
    {
        let r = self.apply_at(path, 0, value);
        proof {
            assert(path_view(path@).skip(0) =~= path_view(path@));
        }
        r
    }

    fn apply_at(&mut self, path: &[String], from: usize, value: &str) -> (r: Result<
        (),
        ConfigError,
    >)
        requires
            from <= path@.len(),
        ensures
            r is Ok <==> node_check(old(self)@, path_view(path@).skip(from as int), value@)
                is None,
            final(self)@ == node_apply(old(self)@, path_view(path@).skip(from as int), value@),
            r matches Err(e) ==> node_check(old(self)@, path_view(path@).skip(from as int), value@)
                == Some(e@),
        decreases path@.len() - from,
    {
        let ghost pv = path_view(path@).skip(from as int);
        match self {
            Node::Leaf(l) => {
                if from < path.len() {
                    Err(ConfigError::PathTooLong)
                } else {
                    leaf_apply(l, value)
                }
            },
            Node::Composite(fields) => {
                if from >= path.len() {
                    Err(ConfigError::PathTooShort)
                } else {
                    proof {
                        assert(pv[0] == path@[from as int]@);
                    }
                    match find_field(fields, &path[from]) {
                        None => Err(ConfigError::PathNotFound),
                        Some(i) => {
                            let ghost fs0 = fields@;
                            let ghost childv0 = fields@[i as int].child@;
                            proof {
                                lemma_fields_view(fs0);
                                assert(pv.drop_first() =~= path_view(path@).skip(from + 1));
                            }
                            let child = &mut fields[i].child;
                            let r = child.apply_at(path, from + 1, value);
                            proof {
                                let fs1 = fields@;
                                let cv1 = node_apply(childv0, pv.drop_first(), value@);
                                lemma_fields_view(fs1);
                                assert(fields_view(fs1) =~= fields_view(fs0).update(
                                    i as int,
                                    (fs0[i as int].name@, cv1),
                                ));
                                if node_check(childv0, pv.drop_first(), value@) is Some {
                                    assert(fields_view(fs1) =~= fields_view(fs0));
                                }
                            }
                            r
                        },
                    }
                }
            },
        }
    }

    /// The immediate child names of this node, in declaration order for a
    /// composite and empty for a leaf. Enumeration is shallow by design: it
    /// never descends into grandchildren.
    pub fn list_children(&self) -> (r: Vec<String>)
        ensures
            r@.map_values(|s: String| s@) == child_names(self@),
    {
        match self {
            Node::Leaf(_) => {
                let r: Vec<String> = Vec::new();
                proof {
                    assert(r@.map_values(|s: String| s@) =~= child_names(self@));
                }
                r
            },
            Node::Composite(fields) => {
                proof {
                    lemma_fields_view(fields@);
                }
                let mut out: Vec<String> = Vec::new();
                let mut i: usize = 0;
                while i < fields.len()
                    invariant
                        i <= fields@.len(),
                        out@.len() == i,
                        forall|j: int| 0 <= j < i ==> out@[j]@ == fields@[j].name@,
                    decreases fields@.len() - i,
                {
                    out.push(fields[i].name.clone());
                    i += 1;
                }
                proof {
                    lemma_fields_view(fields@);
                    assert(out@.map_values(|s: String| s@) =~= child_names(self@));
                }
                out
            },
        }
    }
}

/// The node addressed by `path` under `n`, if the descent resolves.
pub open spec fn node_at(n: NodeV, path: Seq<Seq<char>>) -> Option<NodeV>
    decreases path.len(),
{
    if path.len() == 0 {
        Some(n)
    } else {
        match n {
            NodeV::Composite(fields) => match seg_find(fields, path[0]) {
                Some(i) => node_at(fields[i].1, path.drop_first()),
                None => None,
            },
            NodeV::Leaf(_) => None,
        }
    }
}

proof fn lemma_seg_find_same_names(
    fields1: Seq<(Seq<char>, NodeV)>,
    fields2: Seq<(Seq<char>, NodeV)>,
    name: Seq<char>,
)
    requires
        fields1.len() == fields2.len(),
        forall|j: int| 0 <= j < fields1.len() ==> fields1[j].0 == fields2[j].0,
    ensures
        seg_find(fields1, name) == seg_find(fields2, name),
    decreases fields1,
{
    if fields1.len() > 0 {
        assert(forall|j: int|
            0 <= j < fields1.len() - 1 ==> fields1.drop_first()[j].0 == fields2.drop_first()[j].0);
        lemma_seg_find_same_names(fields1.drop_first(), fields2.drop_first(), name);
    }
}

/// Law: when `validate` succeeds for a path and payload, `apply` with the
/// same arguments succeeds as well, and afterwards the addressed leaf holds
/// exactly the codec's parse result for that payload.
pub proof fn lemma_validate_then_apply(n: NodeV, path: Seq<Seq<char>>, v: Seq<char>)
    requires
        node_check(n, path, v) is None,
    ensures
        node_at(n, path) matches Some(NodeV::Leaf(l)) && leaf_check(l, v) && node_at(
            node_apply(n, path, v),
            path,
        ) == Some(NodeV::Leaf(leaf_parsed(l, v))),
    decreases path.len(),
{
    if path.len() == 0 {
        match n {
            NodeV::Leaf(_) => {},
            NodeV::Composite(_) => {},
        }
    } else {
        match n {
            NodeV::Composite(fields) => {
                match seg_find(fields, path[0]) {
                    Some(i) => {
                        lemma_seg_find_bounds(fields, path[0]);
                        lemma_validate_then_apply(fields[i].1, path.drop_first(), v);
                        let fields2 = fields.update(
                            i,
                            (fields[i].0, node_apply(fields[i].1, path.drop_first(), v)),
                        );
                        lemma_seg_find_same_names(fields2, fields, path[0]);
                    },
                    None => {},
                }
            },
            NodeV::Leaf(_) => {},
        }
    }
}

proof fn lemma_seg_find_bounds(fields: Seq<(Seq<char>, NodeV)>, name: Seq<char>)
    ensures
        seg_find(fields, name) matches Some(i) ==> 0 <= i < fields.len() && fields[i].0 == name,
    decreases fields,
{
    if fields.len() > 0 && fields[0].0 != name {
        lemma_seg_find_bounds(fields.drop_first(), name);
    }
}

/// Law: at a composite node, a path whose first segment matches no child
/// name makes both `validate` and `apply` fail with `PathNotFound`, and the
/// tree that `apply` leaves behind is unchanged.
pub proof fn lemma_first_segment_absent(
    fields: Seq<(Seq<char>, NodeV)>,
    path: Seq<Seq<char>>,
    v: Seq<char>,
)
    requires
        path.len() > 0,
        forall|j: int| 0 <= j < fields.len() ==> fields[j].0 != path[0],
    ensures
        node_check(NodeV::Composite(fields), path, v) == Some(ErrorV::PathNotFound),
        node_apply(NodeV::Composite(fields), path, v) == NodeV::Composite(fields),
{
    lemma_seg_find_none(fields, path[0]);
}

/// Law: a leaf reached with path segments still remaining makes both
/// `validate` and `apply` fail with `PathTooLong`, and the tree that `apply`
/// leaves behind is unchanged.
pub proof fn lemma_leaf_path_too_long(l: LeafV, path: Seq<Seq<char>>, v: Seq<char>)
    requires
        path.len() > 0,
    ensures
        node_check(NodeV::Leaf(l), path, v) == Some(ErrorV::PathTooLong),
        node_apply(NodeV::Leaf(l), path, v) == NodeV::Leaf(l),
{
}

} // verus!

