use vstd::prelude::*;

verus! {

/// The kind of a decoded value, as reported to the spec walker.
#[derive(Debug, Copy, Clone, PartialEq, Eq, Structural)]
pub enum ValueType {
    Object,
    Array,
    String,
    Number,
    Boolean,
    Null,
}

/// Index of a node in the spec arena.
#[derive(Debug, Copy, Clone, PartialEq, Eq, Structural)]
pub struct NodeId(pub usize);

impl NodeId {
    pub open spec fn idx(self) -> int {
        self.0 as int
    }
}

/// The shape a node expects.
#[derive(Debug, Clone)]
pub enum NodeVariant {
    /// The reserved node 0, whose only child is the real root.
    Sentinel,
    /// Any value, not constrained further.
    Any,
    /// An array whose elements all follow `child`.
    Array { child: NodeId },
    /// An object whose values all follow `child`.
    MapOf { child: NodeId },
    /// An object with a fixed set of named children.
    MapKeys { children: Vec<(Vec<u8>, NodeId)> },
}

/// Lookup of a name in a list of named children: the first entry with that name.
pub open spec fn lookup_child(children: Seq<(Vec<u8>, NodeId)>, key: Seq<u8>) -> Option<NodeId>
    decreases children.len(),
{
    if children.len() == 0 {
        None
    } else if children[0].0@ == key {
        Some(children[0].1)
    } else {
        lookup_child(children.drop_first(), key)
    }
}

/// Byte-wise equality of two slices.
pub fn bytes_eq(a: &[u8], b: &[u8]) -> (r: bool)
    ensures
        r == (a@ == b@),
{
    if a.len() != b.len() {
        return false;
    }
    let mut i: usize = 0;
    while i < a.len()
        invariant
            a@.len() == b@.len(),
            i <= a@.len(),
            forall|j: int| 0 <= j < i ==> a@[j] == b@[j],
        decreases a@.len() - i,
    {
        if a[i] != b[i] {
            return false;
        }
        i = i + 1;
    }
    assert(a@ =~= b@);
    true
}

impl NodeVariant {
    /// Whether a value of kind `value` is accepted where this node applies.
    pub open spec fn accepts(&self, value: ValueType) -> bool {
        match *self {
            NodeVariant::Sentinel => false,
            NodeVariant::Any => true,
            NodeVariant::MapOf { .. } => value == ValueType::Object,
            NodeVariant::MapKeys { .. } => value == ValueType::Object,
            NodeVariant::Array { .. } => value == ValueType::Array,
        }
    }

    /// The child node that applies to the value under `key` of an object.
    pub open spec fn key_child(&self, key: Seq<u8>) -> Option<NodeId> {
        match *self {
            NodeVariant::MapOf { child } => Some(child),
            NodeVariant::MapKeys { children } => lookup_child(children@, key),
            _ => None,
        }
    }

    /// The child node that applies to every element of an array.
    pub open spec fn index_child(&self) -> Option<NodeId> {
        match *self {
            NodeVariant::Array { child } => Some(child),
            _ => None,
        }
    }

    pub fn matches(&self, value: ValueType) -> (r: bool)
        requires
            !(self is Sentinel),
        ensures
            r == self.accepts(value),
    {
        match self {
            NodeVariant::Sentinel => false,
            NodeVariant::Any => true,
            NodeVariant::MapOf { .. } => value == ValueType::Object,
            NodeVariant::MapKeys { .. } => value == ValueType::Object,
            NodeVariant::Array { .. } => value == ValueType::Array,
        }
    }

    pub fn child_root(&self) -> (r: Option<NodeId>)
        requires
            self is Sentinel,
        ensures
            r == Some(NodeId(1)),
    {
        Some(NodeId(1))
    }

    pub fn child_key(&self, key: &[u8]) -> (r: Option<NodeId>)
        requires
            !(self is Sentinel),
        ensures
            r == self.key_child(key@),
    {
        match self {
            NodeVariant::MapOf { child } => Some(*child),
            NodeVariant::MapKeys { children } => {
                let mut i: usize = 0;
                assert(children@.subrange(0, children@.len() as int) =~= children@);
                while i < children.len()
                    invariant
                        i <= children@.len(),
                        self.key_child(key@) == lookup_child(children@, key@),
                        lookup_child(children@, key@) == lookup_child(
                            children@.subrange(i as int, children@.len() as int),
                            key@,
                        ),
                    decreases children@.len() - i,
                {
                    proof {
                        let rest = children@.subrange(i as int, children@.len() as int);
                        assert(rest.drop_first() =~= children@.subrange(
                            i + 1,
                            children@.len() as int,
                        ));
                        assert(rest[0] == children@[i as int]);
                    }
                    if bytes_eq(children[i].0.as_slice(), key) {
                        assert(lookup_child(
                            children@.subrange(i as int, children@.len() as int),
                            key@,
                        ) == Some(children@[i as int].1));
                        return Some(children[i].1);
                    }
                    i = i + 1;
                }
                None
            },
            _ => None,
        }
    }

    pub fn child_index(&self, _index: usize) -> (r: Option<NodeId>)
        requires
            !(self is Sentinel),
        ensures
            r == self.index_child(),
    {
        match self {
            NodeVariant::Array { child } => Some(*child),
            _ => None,
        }
    }
}

/// Per-node processing options.
#[derive(Debug, Clone)]
pub struct NodeOptions {
    /// Emit the value of this node as a yield once it completes.
    pub stream: bool,
    /// This node's `stream`, or'ed with the parent's `stream_collect`.
    pub stream_collect: bool,
    /// An optional name given to values of this node.
    pub label: Option<Vec<u8>>,
    /// Presentation names for object keys: `(key, shown_as)` pairs.
    pub key_rename_table: Option<Vec<(Vec<u8>, Vec<u8>)>>,
    /// Skip object keys that a `MapKeys` node does not name instead of failing.
    pub ignore_unmatched_keys: bool,
}

impl Default for NodeOptions {
    fn default() -> (r: NodeOptions)
        ensures
            !r.stream,
            !r.stream_collect,
            r.label is None,
            r.key_rename_table is None,
            !r.ignore_unmatched_keys,
    {
        NodeOptions {
            stream: false,
            stream_collect: false,
            label: None,
            key_rename_table: None,
            ignore_unmatched_keys: false,
        }
    }
}

/// One entry of the spec arena.
#[derive(Debug, Clone)]
pub struct Node {
    pub variant: NodeVariant,
    pub options: NodeOptions,
    pub parent: Option<NodeId>,
}

/// Options as written in a spec description.
#[derive(Debug, Clone)]
pub struct OptionsDesc {
    pub stream: bool,
    pub label: Option<Vec<u8>>,
    pub key_rename_table: Option<Vec<(Vec<u8>, Vec<u8>)>>,
    pub ignore_unmatched_keys: bool,
}

/// A declarative description of the expected shape of a document.
#[derive(Debug)]
pub enum SpecDesc {
    Any(OptionsDesc),
    ArrayOf(OptionsDesc, Box<SpecDesc>),
    MapOf(OptionsDesc, Box<SpecDesc>),
    MapKeys(OptionsDesc, Vec<(Vec<u8>, SpecDesc)>),
}

/// Why a spec description was refused.
#[derive(Debug, Copy, Clone, PartialEq, Eq, Structural)]
pub enum ConfigurationError {
    /// A `MapKeys` description names the same key twice.
    DuplicateKey,
}

/// The names of a list of named children.
pub open spec fn child_names<T>(children: Seq<(Vec<u8>, T)>) -> Seq<Seq<u8>> {
    children.map_values(|c: (Vec<u8>, T)| c.0@)
}

/// Whether a description is free of duplicate names in every `MapKeys` node.
pub open spec fn desc_ok(d: SpecDesc) -> bool
    decreases d,
{
    match d {
        SpecDesc::Any(_) => true,
        SpecDesc::ArrayOf(_, c) => desc_ok(*c),
        SpecDesc::MapOf(_, c) => desc_ok(*c),
        SpecDesc::MapKeys(_, cs) => child_names(cs@).no_duplicates() && forall|i: int|
            0 <= i < cs@.len() ==> desc_ok(#[trigger] cs@[i].1),
    }
}

pub open spec fn desc_options(d: SpecDesc) -> OptionsDesc {
    match d {
        SpecDesc::Any(o) => o,
        SpecDesc::ArrayOf(o, _) => o,
        SpecDesc::MapOf(o, _) => o,
        SpecDesc::MapKeys(o, _) => o,
    }
}

/// Whether arena node `n` carries what description `d` states of its own node.
pub open spec fn node_from_desc(n: Node, d: SpecDesc) -> bool {
    &&& n.options.stream == desc_options(d).stream
    &&& n.options.label == desc_options(d).label
    &&& n.options.key_rename_table == desc_options(d).key_rename_table
    &&& n.options.ignore_unmatched_keys == desc_options(d).ignore_unmatched_keys
    &&& match d {
        SpecDesc::Any(_) => n.variant is Any,
        SpecDesc::ArrayOf(_, _) => n.variant is Array,
        SpecDesc::MapOf(_, _) => n.variant is MapOf,
        SpecDesc::MapKeys(_, cs) => n.variant is MapKeys && child_names(
            n.variant->children@,
        ) == child_names(cs@),
    }
}

/// How many arena nodes a description compiles to.
pub open spec fn desc_size(d: SpecDesc) -> nat
    decreases d, 1nat,
{
    match d {
        SpecDesc::Any(_) => 1,
        SpecDesc::ArrayOf(_, c) => 1 + desc_size(*c),
        SpecDesc::MapOf(_, c) => 1 + desc_size(*c),
        SpecDesc::MapKeys(_, cs) => 1 + children_size(d, cs@.len() as int),
    }
}

/// How many arena nodes the first `k` named children of a `MapKeys` description compile to.
pub open spec fn children_size(d: SpecDesc, k: int) -> nat
    decreases d, 0nat, k,
{
    match d {
        SpecDesc::MapKeys(_, cs) => if 0 < k <= cs@.len() {
            children_size(d, k - 1) + desc_size(cs@[k - 1].1)
        } else {
            0
        },
        _ => 0,
    }
}

/// The one child id of an array or homogeneous map node.
pub open spec fn single_child(v: NodeVariant) -> int {
    match v {
        NodeVariant::Array { child } => child.idx(),
        NodeVariant::MapOf { child } => child.idx(),
        _ => -1,
    }
}

/// The subtree of `nodes` at `id` is what description `d` states, node for node,
/// with every child placed after its parent.
pub open spec fn describes(nodes: Seq<Node>, id: int, d: SpecDesc) -> bool
    decreases d,
{
    &&& 0 <= id < nodes.len()
    &&& node_from_desc(nodes[id], d)
    &&& match d {
        SpecDesc::Any(_) => true,
        SpecDesc::ArrayOf(_, c) => single_child(nodes[id].variant) > id && describes(
            nodes,
            single_child(nodes[id].variant),
            *c,
        ),
        SpecDesc::MapOf(_, c) => single_child(nodes[id].variant) > id && describes(
            nodes,
            single_child(nodes[id].variant),
            *c,
        ),
        SpecDesc::MapKeys(_, cs) => match nodes[id].variant {
            NodeVariant::MapKeys { children } => children@.len() == cs@.len() && forall|j: int|
                0 <= j < cs@.len() ==> children@[j].1.idx() > id && describes(
                    nodes,
                    children@[j].1.idx(),
                    #[trigger] cs@[j].1,
                ),
            _ => false,
        },
    }
}

/// A subtree keeps its description while the nodes from `lo` on stay as they are.
proof fn lemma_describes_stable(n: Seq<Node>, n2: Seq<Node>, id: int, d: SpecDesc, lo: int)
    requires
        describes(n, id, d),
        lo <= id,
        n2.len() >= n.len(),
        forall|k: int| lo <= k < n.len() ==> n2[k] == n[k],
    ensures
        describes(n2, id, d),
    decreases d,
{
    assert(n2[id] == n[id]);
    match d {
        SpecDesc::Any(_) => {},
        SpecDesc::ArrayOf(_, c) => {
            lemma_describes_stable(n, n2, single_child(n[id].variant), *c, lo);
        },
        SpecDesc::MapOf(_, c) => {
            lemma_describes_stable(n, n2, single_child(n[id].variant), *c, lo);
        },
        SpecDesc::MapKeys(_, cs) => {
            if let NodeVariant::MapKeys { children } = n[id].variant {
                assert forall|j: int|
                    #![trigger cs@[j]]
                    #![trigger children@[j]]
                    0 <= j < cs@.len() implies children@[j].1.idx() > id && describes(
                        n2,
                        children@[j].1.idx(),
                        cs@[j].1,
                    ) by {
                    assert(children@[j].1.idx() > id && describes(n, children@[j].1.idx(), cs@[j].1));
                    lemma_describes_stable(n, n2, children@[j].1.idx(), cs@[j].1, lo);
                }
                assert(n2[id].variant == NodeVariant::MapKeys { children });
                assert(describes(n2, id, d));
            }
        },
    }
}

/// The ids that a variant refers to.
pub open spec fn refers_to(v: NodeVariant, c: int) -> bool {
    match v {
        NodeVariant::Array { child } => child.idx() == c,
        NodeVariant::MapOf { child } => child.idx() == c,
        NodeVariant::MapKeys { children } => exists|j: int|
            0 <= j < children@.len() && (#[trigger] children@[j]).1.idx() == c,
        _ => false,
    }
}

/// Arena entry `i` (at least 1) is linked correctly within `nodes`.
pub open spec fn node_ok(nodes: Seq<Node>, i: int) -> bool {
    &&& 1 <= i < nodes.len()
    &&& !(nodes[i].variant is Sentinel)
    &&& nodes[i].parent matches Some(p) && p.idx() < i
    &&& nodes[i].options.stream_collect == (nodes[i].options.stream
        || nodes[nodes[i].parent->0.idx()].options.stream_collect)
    &&& forall|c: int| #[trigger]
        refers_to(nodes[i].variant, c) ==> i < c < nodes.len() && nodes[c].parent == Some(
            NodeId(i as usize),
        )
}

/// A compiled spec: a flat arena of nodes under the sentinel.
#[derive(Debug, Clone)]
pub struct Spec {
    nodes: Vec<Node>,
    root: NodeId,
}

impl Spec {
    pub closed spec fn nodes(&self) -> Seq<Node> {
        self.nodes@
    }

    /// The arena is linked: node 0 is the sentinel, every other node is in order.
    pub open spec fn wf(&self) -> bool {
        &&& self.nodes().len() >= 2
        &&& self.nodes()[0].variant is Sentinel
        &&& self.nodes()[0].parent is None
        &&& !self.nodes()[0].options.stream_collect
        &&& forall|i: int| 1 <= i < self.nodes().len() ==> #[trigger] node_ok(self.nodes(), i)
    }

    pub closed spec fn root_spec(&self) -> NodeId {
        self.root
    }

    pub fn get(&self, id: NodeId) -> (r: &Node)
        requires
            id.0 < self.nodes().len(),
        ensures
            *r == self.nodes()[id.0 as int],
    {
        &self.nodes[id.0]
    }

    /// The sentinel's id: the entry point of every walk.
    pub fn root_id(&self) -> (r: NodeId)
        ensures
            r == self.root_spec(),
    {
        self.root
    }

    pub fn len(&self) -> (r: usize)
        ensures
            r == self.nodes().len(),
    {
        self.nodes.len()
    }
}

fn read_opts(desc: OptionsDesc, stream_collect: bool) -> (r: NodeOptions)
    ensures
        r.stream == desc.stream,
        r.stream_collect == (desc.stream || stream_collect),
        r.label == desc.label,
        r.key_rename_table == desc.key_rename_table,
        r.ignore_unmatched_keys == desc.ignore_unmatched_keys,
{
    let OptionsDesc { stream, label, key_rename_table, ignore_unmatched_keys } = desc;
    NodeOptions {
        stream,
        stream_collect: stream || stream_collect,
        label,
        key_rename_table,
        ignore_unmatched_keys,
    }
}

/// Whether a list of named children already holds `key`.
fn has_name(children: &Vec<(Vec<u8>, NodeId)>, key: &Vec<u8>) -> (r: bool)
    ensures
        r == child_names(children@).contains(key@),
{
    let mut i: usize = 0;
    while i < children.len()
        invariant
            i <= children@.len(),
            forall|j: int| 0 <= j < i ==> children@[j].0@ != key@,
        decreases children@.len() - i,
    {
        if bytes_eq(children[i].0.as_slice(), key.as_slice()) {
            assert(child_names(children@)[i as int] == key@);
            return true;
        }
        i = i + 1;
    }
    assert(!child_names(children@).contains(key@));
    false
}

proof fn lemma_prefix_index(n: Seq<Node>, p: Seq<Node>, k: int)
    requires
        0 <= k < p.len() <= n.len(),
        n.subrange(0, p.len() as int) == p,
    ensures
        n[k] == p[k],
{
    assert(n.subrange(0, p.len() as int)[k] == n[k]);
}

/// Appending nodes keeps the earlier ones linked.
proof fn lemma_extend(m: Seq<Node>, n: Seq<Node>, lo: int)
    requires
        m.len() <= n.len(),
        n.subrange(0, m.len() as int) == m,
        forall|i: int| lo < i < m.len() ==> #[trigger] node_ok(m, i),
    ensures
        forall|i: int| lo < i < m.len() ==> #[trigger] node_ok(n, i),
        forall|j: int| 0 <= j < m.len() ==> n[j] == #[trigger] m[j],
{
    assert forall|j: int| 0 <= j < m.len() implies n[j] == #[trigger] m[j] by {
        assert(n.subrange(0, m.len() as int)[j] == n[j]);
    }
    assert forall|i: int| lo < i < m.len() implies #[trigger] node_ok(n, i) by {
        assert(node_ok(m, i));
        assert(n[i] == m[i]);
        let p = m[i].parent->0.idx();
        assert(n[p] == m[p]);
        assert forall|c: int| #[trigger] refers_to(n[i].variant, c) implies i < c < n.len()
            && n[c].parent == Some(NodeId(i as usize)) by {
            assert(refers_to(m[i].variant, c));
            assert(n[c] == m[c]);
        }
    }
}

/// Changing the variant of node `k` keeps every later node linked.
proof fn lemma_set_variant(mid: Seq<Node>, n: Seq<Node>, k: int, prefix: Seq<Node>)
    requires
        0 <= k < mid.len(),
        prefix.len() == k,
        mid.subrange(0, k) == prefix,
        n.len() == mid.len(),
        forall|j: int| 0 <= j < n.len() && j != k ==> n[j] == mid[j],
        n[k].options == mid[k].options,
        n[k].parent == mid[k].parent,
        forall|i: int| k < i < mid.len() ==> #[trigger] node_ok(mid, i),
    ensures
        n.subrange(0, k) == prefix,
        forall|i: int| k < i < n.len() ==> #[trigger] node_ok(n, i),
{
    assert(n.subrange(0, k) =~= mid.subrange(0, k));
    assert forall|i: int| k < i < n.len() implies #[trigger] node_ok(n, i) by {
        assert(node_ok(mid, i));
        assert(n[i] == mid[i]);
        let p = mid[i].parent->0.idx();
        assert(n[p].options == mid[p].options);
        assert forall|c: int| #[trigger] refers_to(n[i].variant, c) implies i < c < n.len()
            && n[c].parent == Some(NodeId(i as usize)) by {
            assert(refers_to(mid[i].variant, c));
            assert(n[c] == mid[c]);
        }
    }
}

/// Appends the nodes for `desc`, in pre-order, under `parent`.
fn read_node(desc: SpecDesc, nodes: &mut Vec<Node>, parent: NodeId, stream_collect: bool) -> (r:
    Result<NodeId, ConfigurationError>)
    requires
        parent.idx() < old(nodes)@.len(),
        old(nodes)@[parent.idx()].options.stream_collect == stream_collect,
    ensures
        r is Ok <==> desc_ok(desc),
        r is Ok ==> {
            let n = final(nodes)@;
            let start = old(nodes)@.len() as int;
            &&& r->Ok_0.idx() == start
            &&& n.len() > start
            &&& n.subrange(0, start) == old(nodes)@
            &&& n[start].parent == Some(parent)
            &&& node_from_desc(n[start], desc)
            &&& describes(n, start, desc)
            &&& n.len() == start + desc_size(desc)
            &&& forall|i: int| start <= i < n.len() ==> #[trigger] node_ok(n, i)
            &&& forall|i: int| start < i < n.len() ==> (#[trigger] n[i]).parent->0.idx() >= start
        },
    decreases desc,
{
    let current = NodeId(nodes.len());
    let ghost start = old(nodes)@.len() as int;
    match desc {
        SpecDesc::Any(o) => {
            let opts = read_opts(o, stream_collect);
            nodes.push(Node { variant: NodeVariant::Any, options: opts, parent: Some(parent) });
            assert(nodes@.subrange(0, start) =~= old(nodes)@);
            assert(node_ok(nodes@, start));
            Ok(current)
        },
        SpecDesc::ArrayOf(o, child_desc) => {
            let opts = read_opts(o, stream_collect);
            let child_stream_collect = opts.stream_collect;
            nodes.push(Node { variant: NodeVariant::Sentinel, options: opts, parent: Some(parent) });
            let ghost pushed = nodes@;
            let child = read_node(*child_desc, nodes, current, child_stream_collect)?;
            let ghost mid = nodes@;
            proof {
                lemma_prefix_index(mid, pushed, start);
                assert(pushed.subrange(0, start) =~= old(nodes)@);
                assert(mid.subrange(0, start) =~= mid.subrange(0, start + 1).subrange(0, start));
            }
            nodes[current.0].variant = NodeVariant::Array { child };
            proof {
                lemma_set_variant(mid, nodes@, start, old(nodes)@);
                lemma_describes_stable(mid, nodes@, start + 1, *child_desc, start + 1);
            }
            Ok(current)
        },
        SpecDesc::MapOf(o, child_desc) => {
            let opts = read_opts(o, stream_collect);
            let child_stream_collect = opts.stream_collect;
            nodes.push(Node { variant: NodeVariant::Sentinel, options: opts, parent: Some(parent) });
            let ghost pushed = nodes@;
            let child = read_node(*child_desc, nodes, current, child_stream_collect)?;
            let ghost mid = nodes@;
            proof {
                lemma_prefix_index(mid, pushed, start);
                assert(pushed.subrange(0, start) =~= old(nodes)@);
                assert(mid.subrange(0, start) =~= mid.subrange(0, start + 1).subrange(0, start));
            }
            nodes[current.0].variant = NodeVariant::MapOf { child };
            proof {
                lemma_set_variant(mid, nodes@, start, old(nodes)@);
                lemma_describes_stable(mid, nodes@, start + 1, *child_desc, start + 1);
            }
            Ok(current)
        },
        SpecDesc::MapKeys(o, cs) => {
            let ghost cs0 = cs@;
            let opts = read_opts(o, stream_collect);
            let child_stream_collect = opts.stream_collect;
            nodes.push(Node { variant: NodeVariant::Sentinel, options: opts, parent: Some(parent) });
            let ghost pushed = nodes@;
            proof {
                assert(pushed.subrange(0, start) =~= old(nodes)@);
                assert(pushed.subrange(0, start + 1) =~= pushed);
            }
            let mut cs = cs;
            let n_children = cs.len();
            let mut children: Vec<(Vec<u8>, NodeId)> = Vec::new();
            let mut k: usize = 0;
            while cs.len() > 0
                invariant
                    k + cs@.len() == cs0.len(),
                    cs0.len() == n_children,
                    cs@ == cs0.subrange(k as int, cs0.len() as int),
                    desc is MapKeys && desc->MapKeys_1@ == cs0,
                    nodes@.len() > start,
                    nodes@.subrange(0, start + 1) == pushed,
                    pushed.len() == start + 1,
                    pushed[start].options.stream_collect == child_stream_collect,
                    current.idx() == start,
                    forall|i: int| start < i < nodes@.len() ==> #[trigger] node_ok(nodes@, i),
                    children@.len() == k,
                    child_names(children@) == child_names(cs0.subrange(0, k as int)),
                    child_names(children@).no_duplicates(),
                    forall|j: int| 0 <= j < k ==> desc_ok(#[trigger] cs0[j].1),
                    forall|j: int|
                        0 <= j < k ==> start < (#[trigger] children@[j]).1.idx() < nodes@.len()
                            && nodes@[children@[j].1.idx()].parent == Some(current),
                    forall|j: int|
                        0 <= j < k ==> describes(nodes@, (#[trigger] children@[j]).1.idx(), cs0[j].1),
                    forall|i: int| start < i < nodes@.len() ==> (#[trigger] nodes@[i]).parent->0.idx() >= start,
                    nodes@.len() == start + 1 + children_size(desc, k as int),
                decreases cs@.len(),
            {
                let (key, child_desc) = cs.remove(0);
                proof {
                    assert(cs0[k as int] == (key, child_desc));
                    assert(decreases_to!(desc => child_desc));
                    lemma_prefix_index(nodes@, pushed, start);
                }
                let ghost before = nodes@;
                let child = read_node(child_desc, nodes, current, child_stream_collect);
                match child {
                    Ok(child) => {
                        proof {
                            lemma_extend(before, nodes@, start);
                            assert forall|i: int| start < i < nodes@.len() implies (
                            #[trigger] nodes@[i]).parent->0.idx() >= start by {
                                if i < before.len() {
                                    assert(nodes@[i] == before[i]);
                                }
                            }
                            assert(nodes@.subrange(0, start + 1) =~= nodes@.subrange(
                                0,
                                before.len() as int,
                            ).subrange(0, start + 1));
                        }
                        if has_name(&children, &key) {
                            proof {
                                let names = child_names(cs0);
                                let j = choose|j: int|
                                    0 <= j < children@.len() && child_names(children@)[j]
                                        == key@;
                                assert(child_names(cs0.subrange(0, k as int))[j] == names[j]);
                                assert(names[k as int] == key@);
                                assert(!names.no_duplicates());
                            }
                            return Err(ConfigurationError::DuplicateKey);
                        }
                        let ghost old_children = children@;
                        children.push((key, child));
                        proof {
                            assert(children_size(desc, k + 1) == children_size(desc, k as int)
                                + desc_size(cs0[k as int].1));
                            assert(child_names(children@) =~= child_names(old_children).push(
                                key@,
                            ));
                            assert(cs0.subrange(0, k + 1) =~= cs0.subrange(0, k as int).push(
                                cs0[k as int],
                            ));
                            assert(child_names(cs0.subrange(0, k + 1)) =~= child_names(
                                cs0.subrange(0, k as int),
                            ).push(key@));
                            assert forall|j: int| 0 <= j < k + 1 implies start < (
                            #[trigger] children@[j]).1.idx() < nodes@.len() && nodes@[children@[
                            j].1.idx()].parent == Some(current) by {
                                if j < k {
                                    assert(children@[j] == old_children[j]);
                                }
                            }
                            assert forall|j: int| 0 <= j < k + 1 implies describes(
                                nodes@,
                                (#[trigger] children@[j]).1.idx(),
                                cs0[j].1,
                            ) by {
                                if j < k {
                                    assert(children@[j] == old_children[j]);
                                    lemma_describes_stable(
                                        before,
                                        nodes@,
                                        old_children[j].1.idx(),
                                        cs0[j].1,
                                        start + 1,
                                    );
                                }
                            }
                        }
                        k = k + 1;
                    },
                    Err(e) => {
                        proof {
                            assert(!desc_ok(cs0[k as int].1));
                        }
                        return Err(e);
                    },
                }
            }
            let ghost mid = nodes@;
            proof {
                lemma_prefix_index(mid, pushed, start);
                assert(mid.subrange(0, start) =~= mid.subrange(0, start + 1).subrange(0, start));
                assert(cs0.subrange(0, k as int) =~= cs0);
            }
            let ghost kids = children@;
            nodes[current.0].variant = NodeVariant::MapKeys { children };
            proof {
                lemma_set_variant(mid, nodes@, start, old(nodes)@);
                let n = nodes@;
                assert forall|j: int| 0 <= j < cs0.len() implies kids[j].1.idx() > start && describes(
                    n,
                    kids[j].1.idx(),
                    #[trigger] cs0[j].1,
                ) by {
                    assert(describes(mid, kids[j].1.idx(), cs0[j].1));
                    lemma_describes_stable(mid, n, kids[j].1.idx(), cs0[j].1, start + 1);
                }
                assert forall|c: int| #[trigger] refers_to(n[start].variant, c) implies start < c
                    < n.len() && n[c].parent == Some(NodeId(start as usize)) by {
                    let j = choose|j: int| 0 <= j < kids.len() && (#[trigger] kids[j]).1.idx() == c;
                    assert(n[c] == mid[c]);
                }
                assert(node_ok(n, start));
            }
            Ok(current)
        },
    }
}

/// Compiles a spec description into an arena under the sentinel node 0.
pub fn spec_from_term(desc: SpecDesc) -> (r: Result<Spec, ConfigurationError>)
    ensures
        r is Ok <==> desc_ok(desc),
        r is Ok ==> {
            let spec = r->Ok_0;
            &&& spec.wf()
            &&& spec.root_spec() == NodeId(0)
            &&& !spec.nodes()[0].options.stream
            &&& spec.nodes()[0].options.label is None
            &&& spec.nodes()[0].options.key_rename_table is None
            &&& !spec.nodes()[0].options.ignore_unmatched_keys
            &&& describes(spec.nodes(), 1, desc)
            &&& spec.nodes().len() == 1 + desc_size(desc)
        },
{
    let mut nodes: Vec<Node> = Vec::new();
    let sentinel = Node { variant: NodeVariant::Sentinel, options: NodeOptions::default(), parent: None };
    nodes.push(sentinel);
    let sentinel_id = NodeId(0);
    let ghost first = nodes@;
    let root = read_node(desc, &mut nodes, sentinel_id, false)?;
    proof {
        lemma_prefix_index(nodes@, first, 0);
    }
    Ok(Spec { nodes, root: sentinel_id })
}

/// Reports whether a spec description compiles.
pub fn validate_spec(desc: SpecDesc) -> (r: Result<(), ConfigurationError>)
    ensures
        r is Ok <==> desc_ok(desc),
{
    match spec_from_term(desc) {
        Ok(_) => Ok(()),
        Err(e) => Err(e),
    }
}

} // verus!
