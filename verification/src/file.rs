//! Selectors and paths, nodes, and the file that holds the nodes by reference.

use std::collections::VecDeque;
use vstd::prelude::*;

use crate::strmap::StrMap;
use crate::text::{invalid_ref, is_hyphenated_uuid, new_ref, Ref};

verus! {

/// The view of a selector: a child field's name and a position in that field.
#[verifier::ext_equal]
pub struct SelectorView {
    pub field: Seq<char>,
    pub index: usize,
}

/// One step of a path: the `index`-th child in the node's field `field`.
#[derive(Debug, PartialEq, Eq, Clone)]
pub struct Selector {
    pub field: String,
    pub index: usize,
}

impl View for Selector {
    type V = SelectorView;

    open spec fn view(&self) -> SelectorView {
        SelectorView { field: self.field@, index: self.index }
    }
}

impl DeepView for Selector {
    type V = SelectorView;

    open spec fn deep_view(&self) -> SelectorView {
        self@
    }
}

impl Selector {
    /// A copy of this selector.
    pub fn duplicate(&self) -> (r: Selector)
        ensures
            r@ == self@,
    {
        Selector { field: self.field.clone(), index: self.index }
    }
}

/// A walk from a node down through its descendants, one selector per step.
pub type Path = VecDeque<Selector>;

/// The view of a path: the views of its selectors, in order.
pub open spec fn path_view(p: &Path) -> Seq<SelectorView> {
    p.deep_view()
}

/// A copy of a path.
pub fn clone_path(p: &Path) -> (r: Path)
    ensures
        path_view(&r) == path_view(p),
{
    let mut r: Path = VecDeque::new();
    let mut i: usize = 0;
    while i < p.len()
        invariant
            i <= p@.len(),
            r@.len() == i,
            path_view(&r) == path_view(p).take(i as int),
        decreases p@.len() - i,
    {
        let s = p[i].duplicate();
        let ghost before = r@;
        let ghost before_view = path_view(&r);
        r.push_back(s);
        proof {
            assert(r@ == before.push(s));
            assert(path_view(&r) =~= path_view(p).take(i + 1)) by {
                assert(path_view(&r).len() == i + 1);
                assert forall|j: int| 0 <= j <= i implies #[trigger] path_view(&r)[j] == path_view(
                    p,
                )[j] by {
                    if j < i {
                        assert(r@[j] == before[j]);
                        assert(before_view[j] == path_view(p).take(i as int)[j]);
                    }
                }
            }
        }
        i = i + 1;
    }
    proof {
        assert(path_view(p).take(p@.len() as int) =~= path_view(p));
    }
    r
}

/// Whether two paths have the same selectors in the same order.
pub fn paths_equal(a: &Path, b: &Path) -> (r: bool)
    ensures
        r == (path_view(a) == path_view(b)),
{
    if a.len() != b.len() {
        proof {
            assert(path_view(a).len() != path_view(b).len());
        }
        return false;
    }
    let mut i: usize = 0;
    while i < a.len()
        invariant
            a@.len() == b@.len(),
            i <= a@.len(),
            forall|j: int| 0 <= j < i ==> path_view(a)[j] == path_view(b)[j],
        decreases a@.len() - i,
    {
        if a[i].index != b[i].index || a[i].field != b[i].field {
            proof {
                assert(path_view(a)[i as int] != path_view(b)[i as int]);
            }
            return false;
        }
        proof {
            assert(path_view(a)[i as int] =~= path_view(b)[i as int]);
        }
        i = i + 1;
    }
    proof {
        assert(path_view(a) =~= path_view(b));
    }
    true
}

/// The path that goes one selector further than `path`.
pub fn append(path: &Path, selector: Selector) -> (r: Path)
    ensures
        path_view(&r) == path_view(path).push(selector@),
{
    let mut new_path = clone_path(path);
    new_path.push_back(selector);
    proof {
        assert(path_view(&new_path) =~= path_view(path).push(selector@));
    }
    new_path
}

/// The view of a node: its kind, its value, and its child references by field.
#[verifier::ext_equal]
pub struct NodeView {
    pub kind: Seq<char>,
    pub value: Seq<char>,
    pub children: Map<Seq<char>, Seq<Seq<char>>>,
}

/// A node of the document: a kind, a textual value and named lists of children.
#[derive(Debug)]
pub struct Node {
    pub kind: String,
    pub value: String,
    pub children: StrMap<Vec<Ref>>,
}

impl DeepView for Node {
    type V = NodeView;

    open spec fn deep_view(&self) -> NodeView {
        NodeView { kind: self.kind@, value: self.value@, children: self.children@ }
    }
}

impl View for Node {
    type V = NodeView;

    open spec fn view(&self) -> NodeView {
        self.deep_view()
    }
}

/// A copy of a list of references.
pub fn clone_refs(v: &Vec<Ref>) -> (r: Vec<Ref>)
    ensures
        r.deep_view() == v.deep_view(),
{
    let mut r: Vec<Ref> = Vec::new();
    let mut i: usize = 0;
    while i < v.len()
        invariant
            i <= v@.len(),
            r@.len() == i,
            r.deep_view() == v.deep_view().take(i as int),
        decreases v@.len() - i,
    {
        let ghost before = r@;
        let ghost before_view = r.deep_view();
        let c = v[i].clone();
        r.push(c);
        proof {
            assert(r@ == before.push(c));
            assert(r.deep_view() =~= v.deep_view().take(i + 1)) by {
                assert(r.deep_view().len() == i + 1);
                assert forall|j: int| 0 <= j <= i implies #[trigger] r.deep_view()[j]
                    == v.deep_view()[j] by {
                    if j < i {
                        assert(r@[j] == before[j]);
                        assert(before_view[j] == v.deep_view().take(i as int)[j]);
                    }
                }
            }
        }
        i = i + 1;
    }
    proof {
        assert(v.deep_view().take(v@.len() as int) =~= v.deep_view());
    }
    r
}

/// A copy of a table of child references.
pub fn clone_children(m: &StrMap<Vec<Ref>>) -> (r: StrMap<Vec<Ref>>)
    ensures
        r@ == m@,
{
    let entries = m.entries();
    let mut r: StrMap<Vec<Ref>> = StrMap::new();
    let mut i: usize = 0;
    while i < entries.len()
        invariant
            entries@ == m.spec_entries(),
            crate::strmap::keys_distinct(entries@),
            crate::strmap::assoc_view(entries@) == m@,
            i <= entries@.len(),
            r@ == crate::strmap::assoc_view(entries@.take(i as int)),
        decreases entries@.len() - i,
    {
        let k = entries[i].0.clone();
        let v = clone_refs(&entries[i].1);
        r.insert(k, v);
        proof {
            assert(entries@.take(i + 1).drop_last() =~= entries@.take(i as int));
        }
        i = i + 1;
    }
    proof {
        assert(entries@.take(entries@.len() as int) =~= entries@);
    }
    r
}

impl Node {
    /// A copy of this node.
    pub fn duplicate(&self) -> (r: Node)
        ensures
            r.deep_view() == self.deep_view(),
    {
        Node {
            kind: self.kind.clone(),
            value: self.value.clone(),
            children: clone_children(&self.children),
        }
    }
}

/// The child reference that selector `sel` picks in `node`: the `sel.index`-th
/// reference of field `sel.field`, or the empty-slot marker where there is none.
pub open spec fn child_at(node: NodeView, sel: SelectorView) -> Seq<char> {
    if node.children.contains_key(sel.field) && sel.index < node.children[sel.field].len() {
        node.children[sel.field][sel.index as int]
    } else {
        invalid_ref()
    }
}

/// `s` with `x` at position `i`, or with `x` appended where `s` is shorter.
pub open spec fn set_or_push<A>(s: Seq<A>, i: int, x: A) -> Seq<A> {
    if i < s.len() {
        s.update(i, x)
    } else {
        s.push(x)
    }
}

/// The view of a file: nodes by reference, the root's reference, and the log of
/// every write, oldest first.
#[verifier::ext_equal]
pub struct FileView {
    pub nodes: Map<Seq<char>, NodeView>,
    pub root: Seq<char>,
    pub log: Seq<(Seq<char>, NodeView)>,
}

impl FileView {
    /// The node stored under `r`, if any.
    pub open spec fn lookup(self, r: Seq<char>) -> Option<NodeView> {
        if self.nodes.contains_key(r) {
            Some(self.nodes[r])
        } else {
            None
        }
    }

    /// The file after writing `n` under `r`: the node table maps `r` to `n` and the
    /// write is appended to the log.
    pub open spec fn replaced(self, r: Seq<char>, n: NodeView) -> FileView {
        FileView { nodes: self.nodes.insert(r, n), root: self.root, log: self.log.push((r, n)) }
    }

    /// Whether walking `path` from `r` never needs a node that the file lacks:
    /// every reference reached before the last step names a node.
    pub open spec fn resolves(self, r: Seq<char>, path: Seq<SelectorView>) -> bool
        decreases path.len(),
    {
        path.len() == 0 || (self.nodes.contains_key(r) && self.resolves(
            child_at(self.nodes[r], path[0]),
            path.drop_first(),
        ))
    }

    /// The reference reached by walking `path` from `r`.
    pub open spec fn resolve(self, r: Seq<char>, path: Seq<SelectorView>) -> Seq<char>
        decreases path.len(),
    {
        if path.len() == 0 || !self.nodes.contains_key(r) {
            r
        } else {
            self.resolve(child_at(self.nodes[r], path[0]), path.drop_first())
        }
    }
}

impl FileView {
    /// Whether `k` is one of the references looked up while walking `path` from
    /// `r` (every reference reached before a step, the start included).
    pub open spec fn visits(self, r: Seq<char>, path: Seq<SelectorView>, k: Seq<char>) -> bool
        decreases path.len(),
    {
        path.len() > 0 && (r == k || (self.nodes.contains_key(r) && self.visits(
            child_at(self.nodes[r], path[0]),
            path.drop_first(),
            k,
        )))
    }
}

/// Walking one selector further goes one step from where the shorter walk ends.
pub proof fn lemma_resolve_push(f: FileView, r: Seq<char>, p: Seq<SelectorView>, s: SelectorView)
    requires
        f.resolves(r, p),
    ensures
        f.resolves(r, p.push(s)) == f.nodes.contains_key(f.resolve(r, p)),
        f.nodes.contains_key(f.resolve(r, p)) ==> f.resolve(r, p.push(s)) == child_at(
            f.nodes[f.resolve(r, p)],
            s,
        ),
        f.visits(r, p.push(s), f.resolve(r, p)),
    decreases p.len(),
{
    let q = p.push(s);
    if p.len() > 0 {
        assert(q.drop_first() =~= p.drop_first().push(s));
        assert(q[0] == p[0]);
        lemma_resolve_push(f, child_at(f.nodes[r], p[0]), p.drop_first(), s);
    } else {
        assert(q.drop_first() =~= Seq::<SelectorView>::empty());
        assert(q[0] == s);
        let c = child_at(f.nodes[r], s);
        assert(f.resolve(c, q.drop_first()) == c);
        assert(f.resolves(c, q.drop_first()));
    }
}

/// A walk that resolves also resolves without its last step.
pub proof fn lemma_resolves_prefix(f: FileView, r: Seq<char>, p: Seq<SelectorView>, s: SelectorView)
    requires
        f.resolves(r, p.push(s)),
    ensures
        f.resolves(r, p),
    decreases p.len(),
{
    let q = p.push(s);
    if p.len() > 0 {
        assert(q.drop_first() =~= p.drop_first().push(s));
        assert(q[0] == p[0]);
        lemma_resolves_prefix(f, child_at(f.nodes[r], p[0]), p.drop_first(), s);
    }
}

/// A nonempty walk that resolves ends one step below the node that its prefix
/// reaches, and that node exists.
pub proof fn lemma_resolve_last(f: FileView, r: Seq<char>, p: Seq<SelectorView>)
    requires
        f.resolves(r, p),
        p.len() > 0,
    ensures
        f.resolves(r, p.drop_last()),
        f.nodes.contains_key(f.resolve(r, p.drop_last())),
        f.resolve(r, p) == child_at(f.nodes[f.resolve(r, p.drop_last())], p.last()),
        f.visits(r, p, f.resolve(r, p.drop_last())),
{
    assert(p.drop_last().push(p.last()) =~= p);
    lemma_resolves_prefix(f, r, p.drop_last(), p.last());
    lemma_resolve_push(f, r, p.drop_last(), p.last());
}

/// A walk that resolves only looks up references that name nodes.
pub proof fn lemma_visits_are_keys(f: FileView, r: Seq<char>, p: Seq<SelectorView>, k: Seq<char>)
    requires
        f.resolves(r, p),
        f.visits(r, p, k),
    ensures
        f.nodes.contains_key(k),
    decreases p.len(),
{
    if r != k {
        lemma_visits_are_keys(f, child_at(f.nodes[r], p[0]), p.drop_first(), k);
    }
}

/// Changing the node under a reference that a walk does not look up leaves the
/// walk's outcome alone.
pub proof fn lemma_resolve_unvisited(
    f: FileView,
    g: FileView,
    r: Seq<char>,
    p: Seq<SelectorView>,
    k: Seq<char>,
)
    requires
        !f.visits(r, p, k),
        forall|x: Seq<char>| x != k ==> (#[trigger] f.nodes.contains_key(x) == g.nodes.contains_key(x)),
        forall|x: Seq<char>| x != k && #[trigger] f.nodes.contains_key(x) ==> f.nodes[x] == g.nodes[x],
    ensures
        g.resolves(r, p) == f.resolves(r, p),
        g.resolve(r, p) == f.resolve(r, p),
        forall|x: Seq<char>| #[trigger] g.visits(r, p, x) == f.visits(r, p, x),
    decreases p.len(),
{
    if p.len() > 0 {
        assert(r != k);
        if f.nodes.contains_key(r) {
            let c = child_at(f.nodes[r], p[0]);
            lemma_resolve_unvisited(f, g, c, p.drop_first(), k);
            assert(g.nodes[r] == f.nodes[r]);
            assert forall|x: Seq<char>| #[trigger] g.visits(r, p, x) == f.visits(r, p, x) by {
                assert(g.visits(c, p.drop_first(), x) == f.visits(c, p.drop_first(), x));
            }
        } else {
            assert(!g.nodes.contains_key(r));
            assert forall|x: Seq<char>| #[trigger] g.visits(r, p, x) == f.visits(r, p, x) by {}
        }
    }
}

/// A document: nodes by reference, the root reference, and the log of writes.
pub struct File {
    pub nodes: StrMap<Node>,
    pub root: Ref,
    pub log: Vec<(Ref, Node)>,
}

impl View for File {
    type V = FileView;

    open spec fn view(&self) -> FileView {
        FileView { nodes: self.nodes@, root: self.root@, log: self.log.deep_view() }
    }
}

impl File {
    /// The node stored under `reference`, if any.
    pub fn lookup(&self, reference: &Ref) -> (r: Option<&Node>)
        ensures
            match r {
                Some(n) => self@.lookup(reference@) == Some(n.deep_view()),
                None => self@.lookup(reference@) is None,
            },
    {
        self.nodes.get(reference)
    }

    /// Stores `node` under a fresh reference, logs the write, and returns the
    /// reference.
    pub fn add_node(&mut self, node: Node) -> (r: Ref)
        ensures
            is_hyphenated_uuid(r@),
            final(self)@ == old(self)@.replaced(r@, node.deep_view()),
    {
        let reference = new_ref();
        self.replace_node(&reference, node);
        reference
    }

    /// Stores `node` under `reference` and appends the write to the log.
    pub fn replace_node(&mut self, reference: &Ref, node: Node)
        ensures
            final(self)@ == old(self)@.replaced(reference@, node.deep_view()),
    {
        let logged = node.duplicate();
        self.log.push((reference.clone(), logged));
        self.nodes.insert(reference.clone(), node);
        proof {
            assert(self@.log =~= old(self)@.log.push((reference@, node.deep_view())));
        }
    }
}

} // verus!
