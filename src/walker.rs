use vstd::prelude::*;
use crate::tree_spec::{bytes_eq, lookup_child, refers_to, Node, NodeId, NodeVariant, Spec, ValueType};

verus! {

/// Why a running parse stopped for good.
#[derive(Debug, Copy, Clone, PartialEq, Eq, Structural)]
pub enum FailureKind {
    /// The kind of a value disagrees with the spec node at its path.
    StructuralMismatch,
    /// The grammar engine met a syntax violation.
    UnexpectedToken,
    /// An object key that a `MapKeys` node does not name.
    UnmatchedKey,
}

/// A terminal failure, with the global byte position where it arose.
#[derive(Debug, Copy, Clone, PartialEq, Eq, Structural)]
pub struct ParseFailure {
    pub position: usize,
    pub kind: FailureKind,
}

/// One step of a path from the document root.
#[derive(Debug, Clone)]
pub enum PathEntry {
    MapKey(Vec<u8>),
    ArrayIndex(usize),
}

/// An open container: the node it matched, and where inside it the walk stands.
#[derive(Debug, Clone)]
pub struct Frame {
    pub node: Option<NodeId>,
    pub entry: PathEntry,
    pub key_skipped: bool,
}

/// The live match state of a walk over a document against a spec.
#[derive(Debug, Clone)]
pub struct PathTracker {
    spec: Spec,
    frames: Vec<Frame>,
    current: Option<NodeId>,
}

/// An id that names a real (non-sentinel) node of `spec`.
pub open spec fn valid_id(spec: Spec, id: Option<NodeId>) -> bool {
    id matches Some(n) ==> 1 <= n.idx() < spec.nodes().len()
}

/// The variant of the node that `id` names.
pub open spec fn variant_of(spec: Spec, id: NodeId) -> NodeVariant {
    spec.nodes()[id.idx()].variant
}

/// Whether a value of kind `kind` is accepted where `id` applies (none: anything).
pub open spec fn accepted(spec: Spec, id: Option<NodeId>, kind: ValueType) -> bool {
    match id {
        None => true,
        Some(n) => variant_of(spec, n).accepts(kind),
    }
}

/// The name under which an object key is shown in paths.
pub open spec fn shown_key(node: Node, key: Seq<u8>) -> Seq<u8> {
    match node.options.key_rename_table {
        Some(t) => match rename_lookup(t@, key) {
            Some(v) => v,
            None => key,
        },
        None => key,
    }
}

pub open spec fn rename_lookup(t: Seq<(Vec<u8>, Vec<u8>)>, key: Seq<u8>) -> Option<Seq<u8>>
    decreases t.len(),
{
    if t.len() == 0 {
        None
    } else if t[0].0@ == key {
        Some(t[0].1@)
    } else {
        rename_lookup(t.drop_first(), key)
    }
}

impl PathTracker {
    pub closed spec fn spec_of(&self) -> Spec {
        self.spec
    }

    pub closed spec fn frames(&self) -> Seq<Frame> {
        self.frames@
    }

    pub closed spec fn current_spec(&self) -> Option<NodeId> {
        self.current
    }

    pub open spec fn wf(&self) -> bool {
        &&& self.spec_of().wf()
        &&& valid_id(self.spec_of(), self.current_spec())
        &&& forall|i: int|
            0 <= i < self.frames().len() ==> valid_id(self.spec_of(), #[trigger] self.frames()[i].node)
    }

    /// Whether the innermost open container is an object.
    pub open spec fn in_map(&self) -> bool {
        self.frames().len() > 0 && self.frames().last().entry is MapKey
    }

    /// Whether the innermost open container is an array.
    pub open spec fn in_array(&self) -> bool {
        self.frames().len() > 0 && self.frames().last().entry is ArrayIndex
    }

    /// A tracker at the document root of `spec`.
    pub fn new(spec: Spec) -> (r: PathTracker)
        requires
            spec.wf(),
        ensures
            r.wf(),
            r.spec_of() == spec,
            r.frames().len() == 0,
            r.current_spec() == Some(NodeId(1)),
    {
        PathTracker { spec, frames: Vec::new(), current: Some(NodeId(1)) }
    }

    /// The node that applies to the value that comes next (none: unconstrained).
    pub fn current(&self) -> (r: Option<NodeId>)
        ensures
            r == self.current_spec(),
    {
        self.current
    }

    pub fn spec(&self) -> (r: &Spec)
        ensures
            *r == self.spec_of(),
    {
        &self.spec
    }

    pub fn depth(&self) -> (r: usize)
        ensures
            r == self.frames().len(),
    {
        self.frames.len()
    }

    /// The path to the value that comes next, as shown keys and indices.
    pub fn path(&self) -> (r: Vec<PathEntry>)
        ensures
            r@.len() == self.frames().len(),
            forall|i: int|
                0 <= i < r@.len() ==> path_entry_eq(#[trigger] r@[i], self.frames()[i].entry),
    {
        let mut out: Vec<PathEntry> = Vec::new();
        let mut i: usize = 0;
        while i < self.frames.len()
            invariant
                i <= self.frames@.len(),
                out@.len() == i,
                forall|j: int| 0 <= j < i ==> path_entry_eq(#[trigger] out@[j], self.frames@[j].entry),
            decreases self.frames@.len() - i,
        {
            let e = match &self.frames[i].entry {
                PathEntry::MapKey(k) => PathEntry::MapKey(copy_bytes(k)),
                PathEntry::ArrayIndex(n) => PathEntry::ArrayIndex(*n),
            };
            out.push(e);
            i = i + 1;
        }
        out
    }

    fn check(&self, pos: usize, kind: ValueType) -> (r: Result<(), ParseFailure>)
        requires
            self.wf(),
        ensures
            r is Ok <==> accepted(self.spec_of(), self.current_spec(), kind),
            r matches Err(e) ==> e == (ParseFailure { position: pos, kind: FailureKind::StructuralMismatch }),
    {
        match self.current {
            None => Ok(()),
            Some(n) => {
                proof {
                    assert(node_ok_at(self.spec, n));
                }
                if self.spec.get(n).variant.matches(kind) {
                    Ok(())
                } else {
                    Err(ParseFailure { position: pos, kind: FailureKind::StructuralMismatch })
                }
            },
        }
    }

    /// Opens an object at `pos`.
    pub fn enter_map(&mut self, pos: usize) -> (r: Result<(), ParseFailure>)
        requires
            old(self).wf(),
        ensures
            final(self).wf(),
            r is Ok <==> accepted(old(self).spec_of(), old(self).current_spec(), ValueType::Object),
            r matches Err(e) ==> e == (ParseFailure { position: pos, kind: FailureKind::StructuralMismatch }),
            r is Err ==> *final(self) == *old(self),
            r is Ok ==> {
                &&& final(self).spec_of() == old(self).spec_of()
                &&& pushed_frame(old(self).frames(), final(self).frames(), old(self).current_spec())
                &&& final(self).frames().last().entry matches PathEntry::MapKey(k) && k@ == Seq::<u8>::empty()
                &&& final(self).current_spec() == old(self).current_spec()
            },
    {
        self.check(pos, ValueType::Object)?;
        self.frames.push(Frame { node: self.current, entry: PathEntry::MapKey(Vec::new()), key_skipped: false });
        assert(self.frames@.drop_last() =~= old(self).frames@);
        Ok(())
    }

    /// Opens an array at `pos`; its elements follow the array node's child.
    pub fn enter_array(&mut self, pos: usize) -> (r: Result<(), ParseFailure>)
        requires
            old(self).wf(),
        ensures
            final(self).wf(),
            r is Ok <==> accepted(old(self).spec_of(), old(self).current_spec(), ValueType::Array),
            r matches Err(e) ==> e == (ParseFailure { position: pos, kind: FailureKind::StructuralMismatch }),
            r is Err ==> *final(self) == *old(self),
            r is Ok ==> {
                &&& final(self).spec_of() == old(self).spec_of()
                &&& pushed_frame(old(self).frames(), final(self).frames(), old(self).current_spec())
                &&& final(self).frames().last().entry == PathEntry::ArrayIndex(0)
                &&& final(self).current_spec() == match old(self).current_spec() {
                    Some(n) => variant_of(old(self).spec_of(), n).index_child(),
                    None => None,
                }
            },
    {
        self.check(pos, ValueType::Array)?;
        self.frames.push(Frame { node: self.current, entry: PathEntry::ArrayIndex(0), key_skipped: false });
        assert(self.frames@.drop_last() =~= old(self).frames@);
        self.current = match self.current {
            Some(n) => {
                let ghost s = self.spec;
                proof {
                    lemma_children_valid(s, n);
                }
                self.spec.get(n).variant.child_index(0)
            },
            None => None,
        };
        Ok(())
    }

    /// Resolves the object key `key`, which starts at `pos`, inside the innermost object.
    pub fn enter_key(&mut self, key: &[u8], pos: usize) -> (r: Result<(), ParseFailure>)
        requires
            old(self).wf(),
            old(self).in_map(),
        ensures
            final(self).wf(),
            r is Err <==> key_refused(old(self).spec_of(), old(self).frames().last().node, key@),
            r matches Err(e) ==> e == (ParseFailure { position: pos, kind: FailureKind::UnmatchedKey }),
            r is Err ==> *final(self) == *old(self),
            r is Ok ==> {
                let f = old(self).frames().last();
                let g = final(self).frames().last();
                &&& final(self).spec_of() == old(self).spec_of()
                &&& final(self).frames().len() == old(self).frames().len()
                &&& final(self).frames().drop_last() == old(self).frames().drop_last()
                &&& g.node == f.node
                &&& g.entry matches PathEntry::MapKey(k) && k@ == shown_under(old(self).spec_of(), f.node, key@)
                &&& g.key_skipped == key_unmatched(old(self).spec_of(), f.node, key@)
                &&& final(self).current_spec() == key_target(old(self).spec_of(), f.node, key@)
            },
    {
        let last = self.frames.len() - 1;
        let node = self.frames[last].node;
        let (child, unmatched, shown) = match node {
            None => (None, false, copy_slice(key)),
            Some(n) => {
                proof {
                    lemma_children_valid(self.spec, n);
                }
                let nd = self.spec.get(n);
                let child = nd.variant.child_key(key);
                let unmatched = match nd.variant {
                    NodeVariant::MapKeys { .. } => child.is_none(),
                    _ => false,
                };
                if unmatched && !nd.options.ignore_unmatched_keys {
                    return Err(ParseFailure { position: pos, kind: FailureKind::UnmatchedKey });
                }
                (child, unmatched, rename_key(nd, key))
            },
        };
        let ghost before = self.frames@;
        self.frames.set(last, Frame { node, entry: PathEntry::MapKey(shown), key_skipped: unmatched });
        assert(self.frames@.drop_last() =~= before.drop_last());
        self.current = child;
        Ok(())
    }

    /// Closes the innermost object; returns the node its value matched.
    pub fn exit_map(&mut self) -> (r: Option<NodeId>)
        requires
            old(self).wf(),
            old(self).in_map(),
        ensures
            final(self).wf(),
            r == old(self).frames().last().node,
            final(self).spec_of() == old(self).spec_of(),
            final(self).frames() == old(self).frames().drop_last(),
            final(self).current_spec() == r,
    {
        self.pop_frame()
    }

    /// Closes the innermost array; returns the node its value matched.
    pub fn exit_array(&mut self) -> (r: Option<NodeId>)
        requires
            old(self).wf(),
            old(self).in_array(),
        ensures
            final(self).wf(),
            r == old(self).frames().last().node,
            final(self).spec_of() == old(self).spec_of(),
            final(self).frames() == old(self).frames().drop_last(),
            final(self).current_spec() == r,
    {
        self.pop_frame()
    }

    fn pop_frame(&mut self) -> (r: Option<NodeId>)
        requires
            old(self).wf(),
            old(self).frames().len() > 0,
        ensures
            final(self).wf(),
            r == old(self).frames().last().node,
            final(self).spec_of() == old(self).spec_of(),
            final(self).frames() == old(self).frames().drop_last(),
            final(self).current_spec() == r,
    {
        let f = self.frames.pop();
        let ghost len = old(self).frames@.len();
        match f {
            Some(f) => {
                assert(self.frames@ =~= old(self).frames@.drop_last());
                assert(valid_id(self.spec, old(self).frames@[len - 1].node));
                self.current = f.node;
                f.node
            },
            None => None,
        }
    }

    /// Moves past one element of the innermost array.
    pub fn next_index(&mut self)
        requires
            old(self).wf(),
            old(self).in_array(),
            old(self).frames().last().entry->ArrayIndex_0 < usize::MAX,
        ensures
            final(self).wf(),
            final(self).spec_of() == old(self).spec_of(),
            final(self).current_spec() == old(self).current_spec(),
            final(self).frames().len() == old(self).frames().len(),
            final(self).frames().drop_last() == old(self).frames().drop_last(),
            final(self).frames().last().node == old(self).frames().last().node,
            !final(self).frames().last().key_skipped,
            final(self).frames().last().entry == PathEntry::ArrayIndex(
                (old(self).frames().last().entry->ArrayIndex_0 + 1) as usize,
            ),
    {
        let last = self.frames.len() - 1;
        let node = self.frames[last].node;
        let idx = match self.frames[last].entry {
            PathEntry::ArrayIndex(i) => i,
            PathEntry::MapKey(_) => 0,
        };
        let ghost before = self.frames@;
        self.frames.set(last, Frame { node, entry: PathEntry::ArrayIndex(idx + 1), key_skipped: false });
        assert(self.frames@.drop_last() =~= before.drop_last());
    }

    /// Checks a scalar of kind `kind` at `pos`; returns the node it matched.
    pub fn visit_terminal(&self, pos: usize, kind: ValueType) -> (r: Result<Option<NodeId>, ParseFailure>)
        requires
            self.wf(),
        ensures
            r is Ok <==> accepted(self.spec_of(), self.current_spec(), kind),
            r is Ok ==> r == Ok::<Option<NodeId>, ParseFailure>(self.current_spec()),
            r matches Err(e) ==> e == (ParseFailure { position: pos, kind: FailureKind::StructuralMismatch }),
    {
        self.check(pos, kind)?;
        Ok(self.current)
    }

    /// Whether the innermost open container is an object.
    pub fn is_in_map(&self) -> (r: bool)
        ensures
            r == self.in_map(),
    {
        self.frames.len() > 0 && match self.frames[self.frames.len() - 1].entry {
            PathEntry::MapKey(_) => true,
            PathEntry::ArrayIndex(_) => false,
        }
    }

    /// The element index of the innermost open container, if it is an array.
    pub fn array_index(&self) -> (r: Option<usize>)
        ensures
            r is Some <==> self.in_array(),
            r matches Some(i) ==> self.frames().last().entry == PathEntry::ArrayIndex(i),
    {
        if self.frames.len() == 0 {
            return None;
        }
        match self.frames[self.frames.len() - 1].entry {
            PathEntry::ArrayIndex(i) => Some(i),
            PathEntry::MapKey(_) => None,
        }
    }

    /// Whether the value under the current key of the innermost object is to be dropped.
    pub fn key_skipped(&self) -> (r: bool)
        requires
            self.in_map(),
        ensures
            r == self.frames().last().key_skipped,
    {
        self.frames[self.frames.len() - 1].key_skipped
    }
}

/// The node that the value under `key` follows, inside an object matched by `node`.
pub open spec fn key_target(s: Spec, node: Option<NodeId>, key: Seq<u8>) -> Option<NodeId> {
    match node {
        Some(n) => variant_of(s, n).key_child(key),
        None => None,
    }
}

/// A `MapKeys` node that does not name `key`.
pub open spec fn key_unmatched(s: Spec, node: Option<NodeId>, key: Seq<u8>) -> bool {
    node matches Some(n) && variant_of(s, n) is MapKeys && variant_of(s, n).key_child(key) is None
}

/// An unmatched key where the node does not allow skipping.
pub open spec fn key_refused(s: Spec, node: Option<NodeId>, key: Seq<u8>) -> bool {
    key_unmatched(s, node, key) && !s.nodes()[node->0.idx()].options.ignore_unmatched_keys
}

/// How `key` is shown in paths, inside an object matched by `node`.
pub open spec fn shown_under(s: Spec, node: Option<NodeId>, key: Seq<u8>) -> Seq<u8> {
    match node {
        Some(n) => shown_key(s.nodes()[n.idx()], key),
        None => key,
    }
}

fn rename_key(nd: &Node, key: &[u8]) -> (r: Vec<u8>)
    ensures
        r@ == shown_key(*nd, key@),
{
    match &nd.options.key_rename_table {
        None => copy_slice(key),
        Some(t) => {
            let mut i: usize = 0;
            assert(t@.subrange(0, t@.len() as int) =~= t@);
            while i < t.len()
                invariant
                    i <= t@.len(),
                    nd.options.key_rename_table == Some(*t),
                    rename_lookup(t@, key@) == rename_lookup(t@.subrange(i as int, t@.len() as int), key@),
                decreases t@.len() - i,
            {
                proof {
                    let rest = t@.subrange(i as int, t@.len() as int);
                    assert(rest.drop_first() =~= t@.subrange(i + 1, t@.len() as int));
                    assert(rest[0] == t@[i as int]);
                }
                if bytes_eq(t[i].0.as_slice(), key) {
                    return copy_bytes(&t[i].1);
                }
                i = i + 1;
            }
            copy_slice(key)
        },
    }
}

fn copy_slice(b: &[u8]) -> (r: Vec<u8>)
    ensures
        r@ == b@,
{
    let mut r: Vec<u8> = Vec::new();
    let mut i: usize = 0;
    while i < b.len()
        invariant
            i <= b@.len(),
            r@ == b@.subrange(0, i as int),
        decreases b@.len() - i,
    {
        r.push(b[i]);
        i = i + 1;
    }
    assert(r@ =~= b@);
    r
}


/// `after` is `before` with one more frame that matched `node` and skips no key.
pub open spec fn pushed_frame(before: Seq<Frame>, after: Seq<Frame>, node: Option<NodeId>) -> bool {
    &&& after.len() == before.len() + 1
    &&& after.drop_last() == before
    &&& after.last().node == node
    &&& !after.last().key_skipped
}

/// Entry-wise equality of path steps.
pub open spec fn path_entry_eq(a: PathEntry, b: PathEntry) -> bool {
    match (a, b) {
        (PathEntry::MapKey(x), PathEntry::MapKey(y)) => x@ == y@,
        (PathEntry::ArrayIndex(x), PathEntry::ArrayIndex(y)) => x == y,
        _ => false,
    }
}

pub open spec fn node_ok_at(s: Spec, n: NodeId) -> bool {
    crate::tree_spec::node_ok(s.nodes(), n.idx())
}

proof fn lemma_lookup_in(children: Seq<(Vec<u8>, NodeId)>, key: Seq<u8>)
    ensures
        lookup_child(children, key) matches Some(id) ==> exists|j: int|
            0 <= j < children.len() && (#[trigger] children[j]).1 == id,
    decreases children.len(),
{
    if children.len() > 0 && children[0].0@ != key {
        lemma_lookup_in(children.drop_first(), key);
        if let Some(id) = lookup_child(children, key) {
            let j = choose|j: int|
                0 <= j < children.drop_first().len() && (#[trigger] children.drop_first()[j]).1 == id;
            assert(children[j + 1] == children.drop_first()[j]);
        }
    }
}

/// The children of a real node are real nodes.
pub proof fn lemma_children_valid(s: Spec, n: NodeId)
    requires
        s.wf(),
        1 <= n.idx() < s.nodes().len(),
    ensures
        valid_id(s, variant_of(s, n).index_child()),
        forall|k: Seq<u8>| valid_id(s, #[trigger] variant_of(s, n).key_child(k)),
        !(variant_of(s, n) is Sentinel),
{
    assert(node_ok_at(s, n));
    let v = variant_of(s, n);
    if let Some(c) = v.index_child() {
        assert(refers_to(v, c.idx()));
    }
    assert forall|k: Seq<u8>| valid_id(s, #[trigger] variant_of(s, n).key_child(k)) by {
        if let Some(c) = v.key_child(k) {
            if let NodeVariant::MapKeys { children } = v {
                lemma_lookup_in(children@, k);
                let j = choose|j: int| 0 <= j < children@.len() && (#[trigger] children@[j]).1 == c;
                assert(refers_to(v, c.idx()));
            } else {
                assert(refers_to(v, c.idx()));
            }
        }
    }
}

fn copy_bytes(b: &Vec<u8>) -> (r: Vec<u8>)
    ensures
        r@ == b@,
{
    copy_slice(b.as_slice())
}

} // verus!
