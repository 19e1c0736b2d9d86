//! The editor state: a file, a cursor path into it, and the completion command
//! line; with the navigation and rewriting steps the editor performs.

use std::collections::VecDeque;
use vstd::prelude::*;
use vstd::string::StrSliceExecFns;

use crate::file::{
    child_at, clone_path, clone_refs, path_view, paths_equal, set_or_push, File,
    FileView, Node, NodeView, Path, Selector, SelectorView,
};
use crate::strmap::StrMap;
use crate::text::{
    invalid_ref, invalid_ref_string, is_hyphenated_uuid, is_invalid_ref, new_ref, opt_text, starts_with,
    text_after, text_eq, Ref,
};

verus! {

/// Whether the command line takes input.
#[derive(Debug, PartialEq, Eq, Structural, Clone, Copy)]
pub enum Mode {
    Normal,
    Edit,
}

/// The view of a parsed completion candidate.
#[verifier::ext_equal]
pub struct ParsedValueView {
    pub value: Option<Seq<char>>,
    pub kind_hierarchy: Seq<Seq<char>>,
    pub node: Option<NodeView>,
}

/// A completion candidate as the schema parsed it from the command line: the
/// text it completes to (`None` where the text did not parse), the chain of
/// kinds it belongs to (most general first), and the node it stands for, if any.
#[derive(Debug)]
pub struct ParsedValue {
    pub value: Option<String>,
    pub kind_hierarchy: Vec<String>,
    pub node: Option<Node>,
}

impl DeepView for ParsedValue {
    type V = ParsedValueView;

    open spec fn deep_view(&self) -> ParsedValueView {
        ParsedValueView {
            value: match &self.value {
                Some(v) => Some(v@),
                None => None,
            },
            kind_hierarchy: self.kind_hierarchy.deep_view(),
            node: match &self.node {
                Some(n) => Some(n.deep_view()),
                None => None,
            },
        }
    }
}

/// The view of the editor state.
#[verifier::ext_equal]
pub struct ModelView {
    pub file: FileView,
    pub cursor: Seq<SelectorView>,
    pub hover: Seq<SelectorView>,
    pub mode: Mode,
    pub raw_command: Seq<char>,
    pub parsed_commands: Seq<ParsedValueView>,
    pub selected_command_index: usize,
}

/// The editor state.
pub struct Model {
    pub file: File,
    pub cursor: Path,
    pub hover: Path,
    pub mode: Mode,
    pub raw_command: String,
    pub parsed_commands: Vec<ParsedValue>,
    pub selected_command_index: usize,
}

impl View for Model {
    type V = ModelView;

    open spec fn view(&self) -> ModelView {
        ModelView {
            file: self.file@,
            cursor: path_view(&self.cursor),
            hover: path_view(&self.hover),
            mode: self.mode,
            raw_command: self.raw_command@,
            parsed_commands: self.parsed_commands.deep_view(),
            selected_command_index: self.selected_command_index,
        }
    }
}

impl ModelView {
    /// Walking the cursor from the root never needs a missing node.
    pub open spec fn cursor_resolves(self) -> bool {
        self.file.resolves(self.file.root, self.cursor)
    }

    /// The reference under the cursor.
    pub open spec fn current(self) -> Seq<char> {
        self.file.resolve(self.file.root, self.cursor)
    }

    /// The cursor without its last selector.
    pub open spec fn parent_cursor(self) -> Seq<SelectorView> {
        self.cursor.drop_last()
    }

    /// The reference of the node that holds the cursor's slot.
    pub open spec fn parent(self) -> Seq<char> {
        self.file.resolve(self.file.root, self.parent_cursor())
    }

    /// The node under the cursor, if the reference there names one.
    pub open spec fn current_node(self) -> Option<NodeView> {
        self.file.lookup(self.current())
    }
}

/// The references in field `field` of node `n`; none where the field is missing.
pub open spec fn field_refs(n: NodeView, field: Seq<char>) -> Seq<Seq<char>> {
    if n.children.contains_key(field) {
        n.children[field]
    } else {
        Seq::empty()
    }
}

/// Node `n` with field `field` set to `refs`.
pub open spec fn with_field(n: NodeView, field: Seq<char>, refs: Seq<Seq<char>>) -> NodeView {
    NodeView { kind: n.kind, value: n.value, children: n.children.insert(field, refs) }
}

/// The text `invalid`, which names the kind and the value of a placeholder node.
pub open spec fn placeholder_text() -> Seq<char> {
    seq!['i', 'n', 'v', 'a', 'l', 'i', 'd']
}

/// A new item's node before anything is entered: kind and value `invalid`, no children.
pub open spec fn placeholder_node() -> NodeView {
    NodeView {
        kind: placeholder_text(),
        value: placeholder_text(),
        children: Map::empty(),
    }
}

impl ModelView {
    /// This state with file `file`.
    pub open spec fn with_file(self, file: FileView) -> ModelView {
        ModelView { file, ..self }
    }

    /// The cursor's last selector: the slot that the cursor points at.
    pub open spec fn slot(self) -> SelectorView {
        self.cursor.last()
    }

    /// The references of the cursor's field in the parent node.
    pub open spec fn slot_refs(self) -> Seq<Seq<char>> {
        field_refs(self.file.nodes[self.parent()], self.slot().field)
    }

    /// The cursor points at a slot below a node and resolves.
    pub open spec fn slot_resolves(self) -> bool {
        self.cursor.len() > 0 && self.cursor_resolves()
    }

    /// The state after storing `node` under `r` and putting `r` into the
    /// cursor's slot of the node that the cursor's parent path reaches once `node`
    /// is stored: at the slot's position where the field is that long, otherwise
    /// at the field's end. Where, once `node` is stored, that walk needs a missing
    /// node (only a reference on the walk itself can bring this about), the first
    /// write is all that happens.
    pub open spec fn placed(self, r: Seq<char>, node: NodeView) -> ModelView {
        let f1 = self.file.replaced(r, node);
        let pc = self.parent_cursor();
        let p = f1.resolve(f1.root, pc);
        if f1.resolves(f1.root, pc) && f1.nodes.contains_key(p) {
            let pn = f1.nodes[p];
            let sel = self.slot();
            self.with_file(
                f1.replaced(
                    p,
                    with_field(pn, sel.field, set_or_push(field_refs(pn, sel.field), sel.index as int, r)),
                ),
            )
        } else {
            self.with_file(f1)
        }
    }

    /// The state after writing `node` under the reference at the cursor.
    pub open spec fn with_current_written(self, node: NodeView) -> ModelView {
        self.with_file(self.file.replaced(self.current(), node))
    }

    /// Replacing the node under the cursor can run: the cursor resolves, and an
    /// empty slot lies below some node.
    pub open spec fn can_replace_current(self) -> bool {
        &&& self.cursor_resolves()
        &&& self.current() == invalid_ref() ==> self.cursor.len() > 0
    }

    /// `node` with field `inner` holding the reference at the cursor, where the
    /// kind has an inner field and the cursor is not on an empty slot.
    pub open spec fn wrapping(self, node: NodeView, inner: Option<Seq<char>>) -> NodeView {
        match inner {
            Some(f) => if self.current() != invalid_ref() {
                with_field(node, f, seq![self.current()])
            } else {
                node
            },
            None => node,
        }
    }

    /// The state after storing the placeholder node under `r`, inserting `r`
    /// just after the cursor's slot in the parent node as it then stands, and
    /// moving the cursor onto it. Where the parent's field is then too short for
    /// that position (only `r` naming the parent itself can bring this about),
    /// the first write is all that happens.
    pub open spec fn added_item(self, r: Seq<char>) -> ModelView {
        let p = self.parent();
        let f1 = self.file.replaced(r, placeholder_node());
        let pn = f1.nodes[p];
        let sel = self.slot();
        let refs = field_refs(pn, sel.field);
        let next = SelectorView { field: sel.field, index: (sel.index + 1) as usize };
        if sel.index + 1 <= refs.len() {
            ModelView {
                file: f1.replaced(p, with_field(pn, sel.field, refs.insert(sel.index + 1, r))),
                cursor: self.cursor.update(self.cursor.len() - 1, next),
                ..self
            }
        } else {
            self.with_file(f1)
        }
    }

    /// Adding an item can run: the slot resolves, its position can grow by one,
    /// and the field holds the slot.
    pub open spec fn can_add_item(self) -> bool {
        &&& self.slot_resolves()
        &&& self.slot().index < usize::MAX
        &&& self.slot().index < self.slot_refs().len()
    }

    /// The state after removing the cursor's slot from its field.
    pub open spec fn deleted_item(self) -> ModelView {
        let p = self.parent();
        let pn = self.file.nodes[p];
        let sel = self.slot();
        self.with_file(
            self.file.replaced(p, with_field(pn, sel.field, field_refs(pn, sel.field).remove(sel.index as int))),
        )
    }

    /// Deleting an item can run: the slot resolves and lies within its field.
    pub open spec fn can_delete_item(self) -> bool {
        &&& self.slot_resolves()
        &&& self.slot().index < self.slot_refs().len()
    }
}

/// The references of field `field` of `node`, as an owned list; empty where the
/// field is missing.
fn field_refs_of(node: &Node, field: &String) -> (r: Vec<Ref>)
    ensures
        r.deep_view() == field_refs(node.deep_view(), field@),
{
    match node.children.get(field) {
        Some(c) => clone_refs(c),
        None => {
            let v: Vec<Ref> = Vec::new();
            assert(v.deep_view() =~= Seq::<Seq<char>>::empty());
            v
        },
    }
}

/// A fresh placeholder node.
fn placeholder() -> (n: Node)
    ensures
        n.deep_view() == placeholder_node(),
{
    let kind = "invalid".to_string();
    let value = "invalid".to_string();
    proof {
        reveal_strlit("invalid");
        assert(kind@ =~= placeholder_text());
        assert(value@ =~= placeholder_text());
    }
    let n = Node { kind, value, children: StrMap::new() };
    assert(n.deep_view() =~= placeholder_node());
    n
}

impl Model {
    /// The node stored under `reference`, if any.
    pub fn lookup(&self, reference: &Ref) -> (r: Option<&Node>)
        ensures
            match r {
                Some(n) => self@.file.lookup(reference@) == Some(n.deep_view()),
                None => self@.file.lookup(reference@) is None,
            },
    {
        self.file.lookup(reference)
    }

    /// The reference reached by walking `relative_path` from `reference`; each step
    /// takes the selected child, or the empty-slot marker where the field is
    /// missing or too short. Every reference met before the last step must name a
    /// node.
    pub fn lookup_path(&self, reference: &Ref, relative_path: Path) -> (r: Option<Ref>)
        requires
            self@.file.resolves(reference@, path_view(&relative_path)),
        ensures
            r is Some && r->0@ == self@.file.resolve(reference@, path_view(&relative_path)),
    {
        let ghost target = self@.file.resolve(reference@, path_view(&relative_path));
        let mut path = relative_path;
        let mut current = reference.clone();
        loop
            invariant
                self@.file.resolves(current@, path_view(&path)),
                self@.file.resolve(current@, path_view(&path)) == target,
                target == self@.file.resolve(reference@, path_view(&relative_path)),
            decreases path@.len(),
        {
            let ghost before = path_view(&path);
            match path.pop_front() {
                Some(head) => {
                    proof {
                        assert(path_view(&path) =~= before.drop_first());
                        assert(head@ == before[0]);
                    }
                    let base = self.lookup(&current).unwrap();
                    let next = match base.children.get(&head.field) {
                        Some(children) => {
                            if head.index < children.len() {
                                children[head.index].clone()
                            } else {
                                invalid_ref_string()
                            }
                        },
                        None => invalid_ref_string(),
                    };
                    proof {
                        assert(next@ == child_at(self@.file.nodes[current@], head@));
                    }
                    current = next;
                },
                None => {
                    proof {
                        assert(before.len() == 0);
                        assert(self@.file.resolve(current@, before) == current@);
                        assert(current@ == target);
                    }
                    return Some(current);
                },
            }
        }
    }

    /// The reference of the node that holds the cursor's slot.
    pub fn parent_ref(&self) -> (r: Option<Ref>)
        requires
            self@.cursor.len() > 0,
            self@.file.resolves(self@.file.root, self@.parent_cursor()),
        ensures
            r is Some && r->0@ == self@.parent(),
    {
        let mut parent_cursor = clone_path(&self.cursor);
        let ghost before = path_view(&parent_cursor);
        parent_cursor.pop_back().unwrap();
        proof {
            assert(path_view(&parent_cursor) =~= before.drop_last());
        }
        self.lookup_path(&self.file.root, parent_cursor)
    }

    /// The reference under the cursor.
    pub fn current_ref(&self) -> (r: Option<Ref>)
        requires
            self@.cursor_resolves(),
        ensures
            r is Some && r->0@ == self@.current(),
    {
        self.lookup_path(&self.file.root, clone_path(&self.cursor))
    }
}

impl Model {
    /// The copy of the cursor's last selector.
    fn slot_selector(&self) -> (r: Selector)
        requires
            self@.cursor.len() > 0,
        ensures
            r@ == self@.slot(),
    {
        let n = self.cursor.len();
        self.cursor[n - 1].duplicate()
    }

    /// Stores `node` under `reference` and puts `reference` into the cursor's slot
    /// of the node that the cursor's parent path then reaches: at the slot's
    /// position where the field is that long, otherwise at the field's end. Where
    /// that walk then needs a missing node, it stops after the first write.
    pub fn place_node(&mut self, reference: Ref, node: Node)
        requires
            old(self)@.cursor.len() > 0,
        ensures
            final(self)@ == old(self)@.placed(reference@, node.deep_view()),
    {
        let ghost m = self@;
        self.file.replace_node(&reference, node);
        let selector = self.slot_selector();
        let mut parent_cursor = clone_path(&self.cursor);
        let ghost full = path_view(&parent_cursor);
        parent_cursor.pop_back();
        proof {
            assert(path_view(&parent_cursor) =~= full.drop_last());
        }
        if !self.path_resolves(&self.file.root, &parent_cursor) {
            proof {
                assert(self@ =~= m.placed(reference@, node.deep_view()));
            }
            return;
        }
        let parent_ref = self.lookup_path(&self.file.root, parent_cursor).unwrap();
        let mut parent = match self.file.lookup(&parent_ref) {
            Some(found) => found.duplicate(),
            None => {
                proof {
                    assert(self@ =~= m.placed(reference@, node.deep_view()));
                }
                return;
            },
        };
        let mut children = field_refs_of(&parent, &selector.field);
        let ghost before = children.deep_view();
        if selector.index < children.len() {
            children.set(selector.index, reference);
        } else {
            children.push(reference);
        }
        proof {
            assert(children.deep_view() =~= set_or_push(before, selector.index as int, reference@));
        }
        parent.children.insert(selector.field, children);
        self.file.replace_node(&parent_ref, parent);
        proof {
            assert(self@ =~= m.placed(reference@, node.deep_view()));
        }
    }
}

impl Model {
    /// Writes `node` in place of the node under the cursor. Where the cursor is on
    /// an empty slot, the node goes under a fresh reference that is put into the
    /// slot instead.
    pub fn replace_node(&mut self, node: Node)
        requires
            old(self)@.can_replace_current(),
        ensures
            old(self)@.current() != invalid_ref() ==> final(self)@ == old(self)@.with_current_written(
                node.deep_view(),
            ),
            old(self)@.current() == invalid_ref() ==> exists|r: Seq<char>|
                is_hyphenated_uuid(r) && #[trigger] old(self)@.placed(r, node.deep_view())
                    == final(self)@,
    {
        let current_ref = self.current_ref();
        if let Some(current_ref) = current_ref {
            if !is_invalid_ref(&current_ref) {
                self.file.replace_node(&current_ref, node);
                proof {
                    assert(self@ =~= old(self)@.with_current_written(node.deep_view()));
                }
            } else {
                let r = new_ref();
                self.place_node(r, node);
                proof {
                    assert(old(self)@.placed(r@, node.deep_view()) == self@);
                }
            }
        }
    }

    /// Puts `node` into the cursor's slot under a fresh reference. Where the
    /// node's kind has an inner field (`inner_field`, as the schema tells it) and
    /// the cursor is not on an empty slot, the node first takes the current
    /// reference into that field, so that it wraps the node it displaces.
    pub fn set_node(&mut self, node: Node, inner_field: Option<String>)
        requires
            old(self)@.slot_resolves(),
        ensures
            exists|r: Seq<char>|
                is_hyphenated_uuid(r) && #[trigger] old(self)@.placed(
                    r,
                    old(self)@.wrapping(node.deep_view(), opt_text(&inner_field)),
                ) == final(self)@,
    {
        let ghost inner = opt_text(&inner_field);
        let mut node = node;
        let ghost given = node.deep_view();
        let current_ref = self.current_ref();
        if let (Some(current_ref), Some(inner_field)) = (current_ref, inner_field) {
            if !is_invalid_ref(&current_ref) {
                let mut refs: Vec<Ref> = Vec::new();
                refs.push(current_ref);
                proof {
                    assert(refs.deep_view() =~= seq![old(self)@.current()]);
                }
                node.children.insert(inner_field, refs);
            }
        }
        proof {
            assert(node.deep_view() =~= old(self)@.wrapping(given, inner));
        }
        let r = new_ref();
        self.place_node(r, node);
        proof {
            assert(old(self)@.placed(r@, old(self)@.wrapping(given, inner)) == self@);
        }
    }

    /// Stores a placeholder node under `reference`, inserts `reference` just after
    /// the cursor's slot in the parent node, and moves the cursor onto it. Where
    /// the parent's field is then too short for that position (`reference` names
    /// the parent itself), it stops after the first write.
    pub fn add_item(&mut self, reference: Ref)
        requires
            old(self)@.can_add_item(),
        ensures
            final(self)@ == old(self)@.added_item(reference@),
    {
        let ghost m = self@;
        proof {
            crate::file::lemma_resolve_last(m.file, m.file.root, m.cursor);
        }
        let selector = self.slot_selector();
        let parent_ref = self.parent_ref().unwrap();
        self.file.replace_node(&reference, placeholder());
        let mut parent = self.file.lookup(&parent_ref).unwrap().duplicate();
        let mut children = field_refs_of(&parent, &selector.field);
        let ghost before = children.deep_view();
        let new_index = selector.index + 1;
        if new_index > children.len() {
            proof {
                assert(self@ =~= m.added_item(reference@));
            }
            return;
        }
        children.insert(new_index, reference);
        proof {
            assert(children.deep_view() =~= before.insert(new_index as int, reference@));
        }
        parent.children.insert(selector.field.clone(), children);
        self.file.replace_node(&parent_ref, parent);
        let mut last = self.cursor.pop_back().unwrap();
        last.index = new_index;
        self.cursor.push_back(last);
        proof {
            assert(path_view(&self.cursor) =~= m.cursor.update(
                m.cursor.len() - 1,
                SelectorView { field: m.slot().field, index: new_index },
            ));
            assert(self@ =~= m.added_item(reference@));
        }
    }

    /// Removes the cursor's slot from its field in the parent node.
    pub fn delete_item(&mut self)
        requires
            old(self)@.can_delete_item(),
        ensures
            final(self)@ == old(self)@.deleted_item(),
    {
        let ghost m = self@;
        proof {
            crate::file::lemma_resolve_last(m.file, m.file.root, m.cursor);
        }
        let selector = self.slot_selector();
        let parent_ref = self.parent_ref().unwrap();
        let mut parent = self.file.lookup(&parent_ref).unwrap().duplicate();
        let mut children = field_refs_of(&parent, &selector.field);
        let ghost before = children.deep_view();
        children.remove(selector.index);
        proof {
            assert(children.deep_view() =~= before.remove(selector.index as int));
        }
        parent.children.insert(selector.field, children);
        self.file.replace_node(&parent_ref, parent);
        proof {
            assert(self@ =~= m.deleted_item());
        }
    }
}

/// `i` is the first position of `x` in `s`.
pub open spec fn is_first_match<A>(s: Seq<A>, x: A, i: int) -> bool {
    &&& 0 <= i < s.len()
    &&& s[i] == x
    &&& forall|j: int| 0 <= j < i ==> s[j] != x
}

/// The first position of `x` in `s`, if `x` occurs.
pub open spec fn first_match<A>(s: Seq<A>, x: A) -> Option<int> {
    if exists|i: int| is_first_match(s, x, i) {
        Some(choose|i: int| is_first_match(s, x, i))
    } else {
        None
    }
}

/// A first position is unique.
pub proof fn lemma_first_match<A>(s: Seq<A>, x: A, i: int)
    requires
        is_first_match(s, x, i),
    ensures
        first_match(s, x) == Some(i),
{
    let k = choose|k: int| is_first_match(s, x, k);
    assert(is_first_match(s, x, k));
    if k < i {
        assert(s[k] != x);
    }
    if i < k {
        assert(s[i] != x);
    }
}

/// The views of a list of paths.
pub open spec fn paths_view(paths: &Vec<Path>) -> Seq<Seq<SelectorView>> {
    paths.deep_view()
}

/// A candidate stays in the completion list under command text `raw`: its text
/// begins with `raw`, or it has no text.
pub open spec fn kept(raw: Seq<char>, pv: ParsedValueView) -> bool {
    match pv.value {
        Some(v) => raw.is_prefix_of(v),
        None => true,
    }
}

/// The filter of candidates under command text `raw`.
pub open spec fn keeps(raw: Seq<char>) -> spec_fn(ParsedValueView) -> bool {
    |pv: ParsedValueView| kept(raw, pv)
}

/// The most specific kind of a candidate, if it has any.
pub open spec fn last_kind(pv: ParsedValueView) -> Option<Seq<char>> {
    if pv.kind_hierarchy.len() > 0 {
        Some(pv.kind_hierarchy.last())
    } else {
        None
    }
}

/// The most specific kinds of a list of completions, in order.
pub open spec fn kinds_of(parsed: Seq<ParsedValueView>) -> Seq<Option<Seq<char>>> {
    parsed.map_values(|pv: ParsedValueView| last_kind(pv))
}

/// How the selected completion is chosen once the candidates are known.
#[derive(Debug, PartialEq, Eq, Structural, Clone, Copy)]
pub enum Pick {
    /// The first completion.
    First,
    /// The first completion of the current node's kind, else the first one.
    Current,
}

impl ModelView {
    /// The state with the cursor at `cursor`.
    pub open spec fn with_cursor(self, cursor: Seq<SelectorView>) -> ModelView {
        ModelView { cursor, ..self }
    }

    /// The state after moving to the path before the cursor in `paths`; where the
    /// cursor is first or not in `paths`, the state as it was.
    pub open spec fn moved_back(self, paths: Seq<Seq<SelectorView>>) -> ModelView {
        match first_match(paths, self.cursor) {
            Some(i) => if i > 0 {
                self.with_cursor(paths[i - 1])
            } else {
                self
            },
            None => self,
        }
    }

    /// The state after moving to the path after the cursor in `paths`; where the
    /// cursor is not in `paths`, to the first path; where there is none, the state
    /// as it was.
    pub open spec fn moved_forward(self, paths: Seq<Seq<SelectorView>>) -> ModelView {
        match first_match(paths, self.cursor) {
            Some(i) => if i + 1 < paths.len() {
                self.with_cursor(paths[i + 1])
            } else {
                self
            },
            None => if paths.len() > 0 {
                self.with_cursor(paths[0])
            } else {
                self
            },
        }
    }

    /// The kind of the node under the cursor, if there is a node.
    pub open spec fn current_kind(self) -> Option<Seq<char>> {
        match self.current_node() {
            Some(n) => Some(n.kind),
            None => None,
        }
    }

    /// The state with the command text taken from the node under the cursor
    /// (empty where there is no node).
    pub open spec fn selection_taken(self) -> ModelView {
        ModelView {
            raw_command: match self.current_node() {
                Some(n) => n.value,
                None => Seq::empty(),
            },
            ..self
        }
    }

    /// The state after receiving `candidates`: the completion list holds those
    /// that the command text keeps, in order, and the selected completion is
    /// chosen as `pick` says.
    pub open spec fn with_commands(self, candidates: Seq<ParsedValueView>, pick: Pick) -> ModelView {
        let parsed = candidates.filter(keeps(self.raw_command));
        let index = match pick {
            Pick::First => 0usize,
            Pick::Current => match first_match(
                kinds_of(parsed),
                self.current_kind(),
            ) {
                Some(i) => i as usize,
                None => 0usize,
            },
        };
        ModelView { parsed_commands: parsed, selected_command_index: index, ..self }
    }
}

/// The first position of `path` in `paths`, if it occurs.
fn position_of(paths: &Vec<Path>, path: &Path) -> (r: Option<usize>)
    ensures
        match r {
            Some(i) => i < paths@.len() && first_match(paths_view(paths), path_view(path)) == Some(
                i as int,
            ),
            None => first_match(paths_view(paths), path_view(path)) is None,
        },
{
    let ghost ps = paths_view(paths);
    let mut i: usize = 0;
    while i < paths.len()
        invariant
            ps == paths_view(paths),
            i <= paths@.len(),
            forall|j: int| 0 <= j < i ==> ps[j] != path_view(path),
        decreases paths@.len() - i,
    {
        if paths_equal(&paths[i], path) {
            proof {
                assert(ps[i as int] == path_view(&paths@[i as int]));
                lemma_first_match(ps, path_view(path), i as int);
            }
            return Some(i);
        }
        proof {
            assert(ps[i as int] == path_view(&paths@[i as int]));
        }
        i = i + 1;
    }
    proof {
        if exists|k: int| is_first_match(ps, path_view(path), k) {
            let k = choose|k: int| is_first_match(ps, path_view(path), k);
            assert(ps[k] != path_view(path));
        }
    }
    None
}

/// Whether the candidate stays in the completion list under command text `raw`.
fn keeps_candidate(pv: &ParsedValue, raw: &String) -> (r: bool)
    ensures
        r == kept(raw@, pv.deep_view()),
{
    match &pv.value {
        Some(v) => starts_with(v, raw),
        None => true,
    }
}

/// Whether the candidate's most specific kind is `kind`.
fn has_last_kind(pv: &ParsedValue, kind: &Option<String>) -> (r: bool)
    ensures
        r == (last_kind(pv.deep_view()) == opt_text(kind)),
{
    let n = pv.kind_hierarchy.len();
    proof {
        assert(pv.deep_view().kind_hierarchy.len() == n);
    }
    if n == 0 {
        kind.is_none()
    } else {
        match kind {
            Some(k) => {
                let b = pv.kind_hierarchy[n - 1] == *k;
                proof {
                    assert(pv.deep_view().kind_hierarchy.last() == pv.kind_hierarchy@[n - 1]@);
                }
                b
            },
            None => false,
        }
    }
}

impl Model {
    /// Moves the cursor to the path before it in `flattened_paths`, the file's
    /// paths in walking order; stays where the cursor is first or absent.
    pub fn prev(&mut self, flattened_paths: &Vec<Path>)
        ensures
            final(self)@ == old(self)@.moved_back(paths_view(flattened_paths)),
    {
        let current_path_index = position_of(flattened_paths, &self.cursor);
        if let Some(current_path_index) = current_path_index {
            if current_path_index > 0 {
                self.cursor = clone_path(&flattened_paths[current_path_index - 1]);
                proof {
                    assert(path_view(&flattened_paths@[current_path_index - 1]) == paths_view(
                        flattened_paths,
                    )[current_path_index - 1]);
                    assert(self@ =~= old(self)@.moved_back(paths_view(flattened_paths)));
                }
            }
        }
    }

    /// Moves the cursor to the path after it in `flattened_paths`, the file's
    /// paths in walking order; to the first path where the cursor is absent; stays
    /// where the cursor is last or the list is empty.
    pub fn next(&mut self, flattened_paths: &Vec<Path>)
        ensures
            final(self)@ == old(self)@.moved_forward(paths_view(flattened_paths)),
    {
        let current_path_index = position_of(flattened_paths, &self.cursor);
        if let Some(current_path_index) = current_path_index {
            let n = flattened_paths.len();
            if current_path_index + 1 < n {
                self.cursor = clone_path(&flattened_paths[current_path_index + 1]);
                proof {
                    assert(path_view(&flattened_paths@[current_path_index + 1]) == paths_view(
                        flattened_paths,
                    )[current_path_index + 1]);
                    assert(self@ =~= old(self)@.moved_forward(paths_view(flattened_paths)));
                }
            }
        } else {
            if flattened_paths.len() > 0 {
                self.cursor = clone_path(&flattened_paths[0]);
                proof {
                    assert(path_view(&flattened_paths@[0]) == paths_view(flattened_paths)[0]);
                    assert(self@ =~= old(self)@.moved_forward(paths_view(flattened_paths)));
                }
            }
        }
    }

    /// The candidates that the command text keeps, in order: those whose text
    /// begins with the command text, and those without text.
    pub fn parse_commands(&self, candidates: Vec<ParsedValue>) -> (r: Vec<ParsedValue>)
        ensures
            r.deep_view() == candidates.deep_view().filter(keeps(self@.raw_command)),
    {
        let ghost all = candidates.deep_view();
        let ghost f = keeps(self@.raw_command);
        let mut rest = candidates;
        let mut kept_values: Vec<ParsedValue> = Vec::new();
        let ghost mut k: int = 0;
        while rest.len() > 0
            invariant
                0 <= k <= all.len(),
                rest@.len() == all.len() - k,
                rest.deep_view() == all.skip(k),
                kept_values.deep_view() == all.take(k).filter(f),
                f == keeps(self@.raw_command),
            decreases rest@.len(),
        {
            let ghost before = kept_values@;
            let ghost rv = rest.deep_view();
            let ghost rs = rest@;
            let pv = rest.remove(0);
            proof {
                assert(rv[0] == rs[0].deep_view());
                assert(rv[0] == all.skip(k)[0]);
                assert(pv.deep_view() == all[k]);
                assert(rest.deep_view() =~= rv.drop_first());
                assert(all.take(k + 1) =~= all.take(k).push(all[k]));
                all.take(k).lemma_filter_push(all[k], f);
            }
            if keeps_candidate(&pv, &self.raw_command) {
                kept_values.push(pv);
                proof {
                    assert(kept_values@ == before.push(pv));
                    assert(kept_values.deep_view() =~= all.take(k).filter(f).push(all[k]));
                }
            }
            proof {
                k = k + 1;
                assert(rv.drop_first() =~= all.skip(k));
            }
        }
        proof {
            assert(all.take(k) =~= all);
        }
        kept_values
    }

    /// The first position among the completions whose most specific kind is `kind`.
    fn position_of_kind(&self, kind: &Option<String>) -> (r: Option<usize>)
        ensures
            match r {
                Some(i) => first_match(
                    kinds_of(self@.parsed_commands),
                    opt_text(kind),
                ) == Some(i as int),
                None => first_match(
                    kinds_of(self@.parsed_commands),
                    opt_text(kind),
                ) is None,
            },
    {
        let ghost ks = kinds_of(self@.parsed_commands);
        let mut i: usize = 0;
        while i < self.parsed_commands.len()
            invariant
                ks == kinds_of(self@.parsed_commands),
                ks.len() == self.parsed_commands@.len(),
                i <= self.parsed_commands@.len(),
                forall|j: int| 0 <= j < i ==> ks[j] != opt_text(kind),
            decreases self.parsed_commands@.len() - i,
        {
            let b = has_last_kind(&self.parsed_commands[i], kind);
            proof {
                assert(ks[i as int] == last_kind(self.parsed_commands@[i as int].deep_view()));
            }
            if b {
                proof {
                    lemma_first_match(ks, opt_text(kind), i as int);
                }
                return Some(i);
            }
            i = i + 1;
        }
        proof {
            if exists|k: int| is_first_match(ks, opt_text(kind), k) {
                let k = choose|k: int| is_first_match(ks, opt_text(kind), k);
                assert(ks[k] != opt_text(kind));
            }
        }
        None
    }

    /// The kind of the node under the cursor, if there is a node.
    fn current_kind(&self) -> (r: Option<String>)
        requires
            self@.cursor_resolves(),
        ensures
            opt_text(&r) == self@.current_kind(),
    {
        let current = self.current_ref().unwrap();
        match self.lookup(&current) {
            Some(n) => Some(n.kind.clone()),
            None => None,
        }
    }

    /// Takes the command text from the node under the cursor; empty where there is
    /// no node.
    fn take_selection(&mut self)
        requires
            old(self)@.cursor_resolves(),
        ensures
            final(self)@ == old(self)@.selection_taken(),
    {
        let current = self.current_ref().unwrap();
        let text = match self.lookup(&current) {
            Some(n) => n.value.clone(),
            None => String::new(),
        };
        self.raw_command = text;
        proof {
            assert(self@ =~= old(self)@.selection_taken());
        }
    }

    /// Receives the schema's completion candidates for the current field and
    /// command text: keeps those that the command text keeps, and selects the
    /// completion as `pick` says.
    pub fn receive_commands(&mut self, pick: Pick, candidates: Vec<ParsedValue>)
        requires
            pick == Pick::Current ==> old(self)@.cursor_resolves(),
        ensures
            final(self)@ == old(self)@.with_commands(candidates.deep_view(), pick),
    {
        let parsed = self.parse_commands(candidates);
        let kind = if pick == Pick::Current {
            Some(self.current_kind())
        } else {
            None
        };
        self.parsed_commands = parsed;
        let index = match kind {
            Some(kind) => match self.position_of_kind(&kind) {
                Some(i) => i,
                None => 0,
            },
            None => 0,
        };
        self.selected_command_index = index;
        proof {
            assert(self@ =~= old(self)@.with_commands(candidates.deep_view(), pick));
        }
    }
}

/// What the editor receives: the user's and the view's messages.
#[derive(Debug)]
pub enum Msg {
    Noop,
    Select(Path),
    Hover(Path),
    Store,
    Load,
    Prev,
    Next,
    Parent,
    AddItem,
    DeleteItem,
    SetMode(Mode),
    SetCommand(String),
    NextCommand,
    PrevCommand,
    EnterCommand,
    EscapeCommand,
    ReplaceCurrentNode(Node),
    /// A key pressed on the command line, by its key name: Enter, Escape and the
    /// up and down arrows act on the completions; while the command line is
    /// empty, the right and left arrows move between existing nodes.
    CommandKey(String),
}

/// What to do with the file's paths in walking order once they are known.
#[derive(Debug, PartialEq, Eq, Structural, Clone, Copy)]
pub enum Move {
    /// Move the cursor back one path, then take the selection.
    Back,
    /// Move the cursor forward one path, then take the selection.
    Forward,
    /// Move the cursor forward one path after entering a command.
    AfterEnter,
}

/// What the editor asks of its surroundings after a step.
#[derive(Debug)]
pub enum Effect {
    /// Nothing more.
    Done,
    /// Deliver this message next.
    Send(Msg),
    /// Save the file to storage.
    Store,
    /// Read the file back from storage, where it was saved.
    Load,
    /// Hand the file's paths in walking order to `receive_paths` with this move.
    NeedPaths(Move),
    /// Hand the schema's candidates for the current field and command text to
    /// `receive_commands` with this pick.
    NeedCommands(Pick),
}

/// The action that a command-line key stands for.
pub open spec fn key_message(key: Seq<char>) -> Option<Msg> {
    if key == seq!['E', 'n', 't', 'e', 'r'] {
        Some(Msg::EnterCommand)
    } else if key == seq!['E', 's', 'c', 'a', 'p', 'e'] {
        Some(Msg::EscapeCommand)
    } else if key == seq!['A', 'r', 'r', 'o', 'w', 'U', 'p'] {
        Some(Msg::PrevCommand)
    } else if key == seq!['A', 'r', 'r', 'o', 'w', 'D', 'o', 'w', 'n'] {
        Some(Msg::NextCommand)
    } else {
        None
    }
}

/// The move between existing nodes that a command-line key stands for while the
/// command line is empty: the right arrow moves forward, the left arrow back.
pub open spec fn arrow_move(key: Seq<char>) -> Option<Move> {
    if key == seq!['A', 'r', 'r', 'o', 'w', 'R', 'i', 'g', 'h', 't'] {
        Some(Move::Forward)
    } else if key == seq!['A', 'r', 'r', 'o', 'w', 'L', 'e', 'f', 't'] {
        Some(Move::Back)
    } else {
        None
    }
}

/// The move between existing nodes that a command-line key stands for while the
/// command line is empty: the right arrow moves to the next node in walking
/// order, the left arrow to the previous one; other keys stand for none.
pub fn key_move(key: &str) -> (r: Option<Move>)
    ensures
        r == arrow_move(key@),
{
    proof {
        reveal_strlit("ArrowRight");
        reveal_strlit("ArrowLeft");
        assert("ArrowRight"@ =~= seq!['A', 'r', 'r', 'o', 'w', 'R', 'i', 'g', 'h', 't']);
        assert("ArrowLeft"@ =~= seq!['A', 'r', 'r', 'o', 'w', 'L', 'e', 'f', 't']);
    }
    if text_eq(key, "ArrowRight") {
        Some(Move::Forward)
    } else if text_eq(key, "ArrowLeft") {
        Some(Move::Back)
    } else {
        None
    }
}

/// The message that a command-line key stands for: Enter enters the selected
/// completion, Escape leaves the command line, the up and down arrows move
/// through the completions; other keys stand for nothing.
pub fn key_command(key: &str) -> (r: Option<Msg>)
    ensures
        r == key_message(key@),
{
    proof {
        reveal_strlit("Enter");
        reveal_strlit("Escape");
        reveal_strlit("ArrowUp");
        reveal_strlit("ArrowDown");
        assert("Enter"@ =~= seq!['E', 'n', 't', 'e', 'r']);
        assert("Escape"@ =~= seq!['E', 's', 'c', 'a', 'p', 'e']);
        assert("ArrowUp"@ =~= seq!['A', 'r', 'r', 'o', 'w', 'U', 'p']);
        assert("ArrowDown"@ =~= seq!['A', 'r', 'r', 'o', 'w', 'D', 'o', 'w', 'n']);
    }
    if text_eq(key, "Enter") {
        Some(Msg::EnterCommand)
    } else if text_eq(key, "Escape") {
        Some(Msg::EscapeCommand)
    } else if text_eq(key, "ArrowUp") {
        Some(Msg::PrevCommand)
    } else if text_eq(key, "ArrowDown") {
        Some(Msg::NextCommand)
    } else {
        None
    }
}

/// The text `items`, the root's field that the cursor starts in.
pub open spec fn items_text() -> Seq<char> {
    seq!['i', 't', 'e', 'm', 's']
}

impl ModelView {
    /// The state with the cursor one level up; as it was at the root.
    pub open spec fn popped(self) -> ModelView {
        if self.cursor.len() > 0 {
            self.with_cursor(self.cursor.drop_last())
        } else {
            self
        }
    }

    /// The selected completion stands for a node.
    pub open spec fn entering(self) -> bool {
        &&& self.selected_command_index < self.parsed_commands.len()
        &&& self.parsed_commands[self.selected_command_index as int].node is Some
    }

    /// The node that the selected completion stands for.
    pub open spec fn entered_node(self) -> NodeView {
        self.parsed_commands[self.selected_command_index as int].node->0
    }

    /// The step for `msg` can run without failing.
    pub open spec fn accepts(self, msg: Msg) -> bool {
        match msg {
            Msg::Select(p) => self.file.resolves(self.file.root, path_view(&p)),
            Msg::Parent => self.popped().cursor_resolves(),
            Msg::AddItem => self.can_add_item(),
            Msg::DeleteItem => self.can_delete_item(),
            Msg::NextCommand => self.parsed_commands.len() > 0,
            Msg::EnterCommand => self.entering() ==> self.can_replace_current(),
            Msg::ReplaceCurrentNode(_) => self.cursor_resolves(),
            _ => true,
        }
    }

    /// The state after the step for `msg`, for every message but `AddItem` and
    /// `EnterCommand`, whose outcome rests on a fresh reference.
    pub open spec fn stepped(self, msg: Msg) -> ModelView {
        match msg {
            Msg::Select(p) => self.with_cursor(path_view(&p)).selection_taken(),
            Msg::Hover(p) => ModelView { hover: path_view(&p), ..self },
            Msg::Parent => self.popped().selection_taken(),
            Msg::DeleteItem => self.deleted_item(),
            Msg::SetMode(m) => ModelView { mode: m, ..self },
            Msg::SetCommand(v) => ModelView { raw_command: v@, ..self },
            Msg::NextCommand => if self.selected_command_index + 1 < self.parsed_commands.len() {
                ModelView { selected_command_index: (self.selected_command_index + 1) as usize, ..self }
            } else {
                self
            },
            Msg::PrevCommand => if self.selected_command_index > 0 {
                ModelView { selected_command_index: (self.selected_command_index - 1) as usize, ..self }
            } else {
                self
            },
            Msg::EscapeCommand => ModelView { raw_command: Seq::empty(), mode: Mode::Normal, ..self },
            Msg::ReplaceCurrentNode(n) => self.with_current_written(n.deep_view()),
            _ => self,
        }
    }

    /// What the step for `msg` asks for, for every message but `AddItem` and
    /// `EnterCommand`.
    pub open spec fn effect_of(self, msg: Msg) -> Effect {
        match msg {
            Msg::Select(_) => Effect::NeedCommands(Pick::Current),
            Msg::Parent => Effect::NeedCommands(Pick::Current),
            Msg::Store => Effect::Store,
            Msg::Load => Effect::Load,
            Msg::Prev => Effect::NeedPaths(Move::Back),
            Msg::Next => Effect::NeedPaths(Move::Forward),
            Msg::SetCommand(_) => Effect::NeedCommands(Pick::First),
            Msg::EscapeCommand => Effect::NeedCommands(Pick::First),
            Msg::ReplaceCurrentNode(_) => Effect::NeedCommands(Pick::First),
            Msg::CommandKey(k) => match key_message(k@) {
                Some(m) => Effect::Send(m),
                None => match arrow_move(k@) {
                    Some(mv) => if self.raw_command.len() == 0 {
                        Effect::NeedPaths(mv)
                    } else {
                        Effect::Done
                    },
                    None => Effect::Done,
                },
            },
            _ => Effect::Done,
        }
    }

    /// The state after receiving the file's paths for move `mv`.
    pub open spec fn after_paths(self, mv: Move, paths: Seq<Seq<SelectorView>>) -> ModelView {
        match mv {
            Move::Back => self.moved_back(paths).selection_taken(),
            Move::Forward => self.moved_forward(paths).selection_taken(),
            Move::AfterEnter => ModelView { raw_command: Seq::empty(), ..self.moved_forward(paths) },
        }
    }

    /// Receiving the paths for move `mv` can run without failing.
    pub open spec fn accepts_paths(self, mv: Move, paths: Seq<Seq<SelectorView>>) -> bool {
        match mv {
            Move::Back => self.moved_back(paths).cursor_resolves(),
            Move::Forward => self.moved_forward(paths).cursor_resolves(),
            Move::AfterEnter => true,
        }
    }
}

/// What receiving the paths for move `mv` asks for next.
pub open spec fn paths_effect(mv: Move) -> Effect {
    match mv {
        Move::AfterEnter => Effect::NeedCommands(Pick::First),
        _ => Effect::NeedCommands(Pick::Current),
    }
}

impl Model {
    /// The starting state for `file`: the cursor on the first slot of the root's
    /// `items` field, the command line empty and in normal mode.
    pub fn create(file: File) -> (m: Model)
        ensures
            m@.file == file@,
            m@.cursor == seq![SelectorView { field: items_text(), index: 0 }],
            m@.hover == Seq::<SelectorView>::empty(),
            m@.mode == Mode::Normal,
            m@.raw_command == Seq::<char>::empty(),
            m@.parsed_commands == Seq::<ParsedValueView>::empty(),
            m@.selected_command_index == 0,
    {
        let field = "items".to_string();
        proof {
            reveal_strlit("items");
            assert(field@ =~= items_text());
        }
        let mut cursor: Path = VecDeque::new();
        cursor.push_back(Selector { field, index: 0 });
        let hover: Path = VecDeque::new();
        let m = Model {
            file,
            cursor,
            hover,
            mode: Mode::Normal,
            raw_command: String::new(),
            parsed_commands: Vec::new(),
            selected_command_index: 0,
        };
        proof {
            assert(m@.cursor =~= seq![SelectorView { field: items_text(), index: 0 }]);
            assert(m@.hover =~= Seq::<SelectorView>::empty());
            assert(m@.parsed_commands =~= Seq::<ParsedValueView>::empty());
        }
        m
    }

    /// Handles one message. Steps that need the file's paths in walking order or
    /// the schema's completion candidates ask for them in the returned effect and
    /// go on in `receive_paths` or `receive_commands`.
    pub fn update(&mut self, msg: Msg) -> (e: Effect)
        requires
            old(self)@.accepts(msg),
        ensures
            match msg {
                Msg::AddItem => e == Effect::Done && exists|r: Seq<char>|
                    is_hyphenated_uuid(r) && #[trigger] old(self)@.added_item(r) == final(self)@,
                Msg::EnterCommand => if old(self)@.entering() {
                    &&& e == Effect::NeedPaths(Move::AfterEnter)
                    &&& old(self)@.current() != invalid_ref() ==> final(self)@
                        == old(self)@.with_current_written(old(self)@.entered_node())
                    &&& old(self)@.current() == invalid_ref() ==> exists|r: Seq<char>|
                        is_hyphenated_uuid(r) && #[trigger] old(self)@.placed(
                            r,
                            old(self)@.entered_node(),
                        ) == final(self)@
                } else {
                    e == Effect::Done && final(self)@ == old(self)@
                },
                _ => final(self)@ == old(self)@.stepped(msg) && e == old(self)@.effect_of(msg),
            },
    {
        let ghost m = self@;
        match msg {
            Msg::Noop => Effect::Done,
            Msg::Select(path) => {
                self.cursor = path;
                self.take_selection();
                Effect::NeedCommands(Pick::Current)
            },
            Msg::Hover(path) => {
                self.hover = path;
                Effect::Done
            },
            Msg::Store => Effect::Store,
            Msg::Load => Effect::Load,
            Msg::Prev => Effect::NeedPaths(Move::Back),
            Msg::Next => Effect::NeedPaths(Move::Forward),
            Msg::Parent => {
                let ghost before = path_view(&self.cursor);
                self.cursor.pop_back();
                proof {
                    if before.len() > 0 {
                        assert(path_view(&self.cursor) =~= before.drop_last());
                    }
                    assert(self@ =~= m.popped());
                }
                self.take_selection();
                Effect::NeedCommands(Pick::Current)
            },
            Msg::AddItem => {
                let r = new_ref();
                self.add_item(r);
                Effect::Done
            },
            Msg::DeleteItem => {
                self.delete_item();
                Effect::Done
            },
            Msg::SetMode(mode) => {
                self.mode = mode;
                Effect::Done
            },
            Msg::SetCommand(v) => {
                self.raw_command = v;
                Effect::NeedCommands(Pick::First)
            },
            Msg::NextCommand => {
                if self.selected_command_index < self.parsed_commands.len() - 1 {
                    self.selected_command_index = self.selected_command_index + 1;
                }
                Effect::Done
            },
            Msg::PrevCommand => {
                if self.selected_command_index > 0 {
                    self.selected_command_index = self.selected_command_index - 1;
                }
                Effect::Done
            },
            Msg::EnterCommand => {
                let index = self.selected_command_index;
                if index < self.parsed_commands.len() {
                    match &self.parsed_commands[index].node {
                        Some(node) => {
                            let node = node.duplicate();
                            proof {
                                assert(node.deep_view() == m.entered_node());
                            }
                            self.replace_node(node);
                            Effect::NeedPaths(Move::AfterEnter)
                        },
                        None => Effect::Done,
                    }
                } else {
                    Effect::Done
                }
            },
            Msg::EscapeCommand => {
                self.raw_command = String::new();
                self.mode = Mode::Normal;
                Effect::NeedCommands(Pick::First)
            },
            Msg::ReplaceCurrentNode(n) => {
                let current = self.current_ref().unwrap();
                self.file.replace_node(&current, n);
                Effect::NeedCommands(Pick::First)
            },
            Msg::CommandKey(key) => match key_command(&key) {
                Some(next) => Effect::Send(next),
                None => match key_move(&key) {
                    Some(mv) => if self.raw_command.unicode_len() == 0 {
                        Effect::NeedPaths(mv)
                    } else {
                        Effect::Done
                    },
                    None => Effect::Done,
                },
            },
        }
    }

    /// Goes on with a step that asked for the file's paths in walking order.
    pub fn receive_paths(&mut self, mv: Move, flattened_paths: &Vec<Path>) -> (e: Effect)
        requires
            old(self)@.accepts_paths(mv, paths_view(flattened_paths)),
        ensures
            final(self)@ == old(self)@.after_paths(mv, paths_view(flattened_paths)),
            e == paths_effect(mv),
    {
        match mv {
            Move::Back => {
                self.prev(flattened_paths);
                self.take_selection();
                Effect::NeedCommands(Pick::Current)
            },
            Move::Forward => {
                self.next(flattened_paths);
                self.take_selection();
                Effect::NeedCommands(Pick::Current)
            },
            Move::AfterEnter => {
                self.next(flattened_paths);
                self.raw_command = String::new();
                Effect::NeedCommands(Pick::First)
            },
        }
    }
}

impl Model {
    /// Whether walking `path` from `reference` never needs a missing node.
    pub fn path_resolves(&self, reference: &Ref, path: &Path) -> (b: bool)
        ensures
            b == self@.file.resolves(reference@, path_view(path)),
    {
        let ghost pv = path_view(path);
        let mut current = reference.clone();
        let mut i: usize = 0;
        assert(pv.skip(0) =~= pv);
        while i < path.len()
            invariant
                pv == path_view(path),
                i <= pv.len(),
                self@.file.resolves(reference@, pv) == self@.file.resolves(current@, pv.skip(i as int)),
            decreases pv.len() - i,
        {
            proof {
                assert(pv.skip(i as int)[0] == pv[i as int]);
                assert(pv.skip(i as int).drop_first() =~= pv.skip(i + 1));
            }
            match self.lookup(&current) {
                Some(base) => {
                    let head = &path[i];
                    let next = match base.children.get(&head.field) {
                        Some(children) => {
                            if head.index < children.len() {
                                children[head.index].clone()
                            } else {
                                invalid_ref_string()
                            }
                        },
                        None => invalid_ref_string(),
                    };
                    proof {
                        assert(next@ == child_at(self@.file.nodes[current@], pv[i as int]));
                    }
                    current = next;
                },
                None => {
                    return false;
                },
            }
            i = i + 1;
        }
        proof {
            assert(pv.skip(i as int).len() == 0);
        }
        true
    }

    /// Whether the cursor resolves, as receiving candidates with `Pick::Current`
    /// requires.
    pub fn cursor_resolves(&self) -> (b: bool)
        ensures
            b == self@.cursor_resolves(),
    {
        self.path_resolves(&self.file.root, &self.cursor)
    }

    /// The references in the cursor's field of the parent node.
    fn slot_refs_len(&self) -> (n: usize)
        requires
            self@.slot_resolves(),
        ensures
            n == self@.slot_refs().len(),
    {
        proof {
            crate::file::lemma_resolve_last(self@.file, self@.file.root, self@.cursor);
        }
        let selector = self.slot_selector();
        let parent_ref = self.parent_ref().unwrap();
        let parent = self.file.lookup(&parent_ref).unwrap();
        let refs = field_refs_of(parent, &selector.field);
        refs.len()
    }

    /// Whether the step for `msg` can run without failing.
    pub fn accepts(&self, msg: &Msg) -> (b: bool)
        ensures
            b == self@.accepts(*msg),
    {
        match msg {
            Msg::Select(p) => self.path_resolves(&self.file.root, p),
            Msg::Parent => {
                let mut popped = clone_path(&self.cursor);
                let ghost before = path_view(&popped);
                popped.pop_back();
                proof {
                    if before.len() > 0 {
                        assert(path_view(&popped) =~= before.drop_last());
                    }
                }
                self.path_resolves(&self.file.root, &popped)
            },
            Msg::AddItem => {
                if self.cursor.len() == 0 || !self.cursor_resolves() {
                    false
                } else {
                    let n = self.cursor.len();
                    let index = self.cursor[n - 1].index;
                    index < usize::MAX && index < self.slot_refs_len()
                }
            },
            Msg::DeleteItem => {
                if self.cursor.len() == 0 || !self.cursor_resolves() {
                    false
                } else {
                    let n = self.cursor.len();
                    self.cursor[n - 1].index < self.slot_refs_len()
                }
            },
            Msg::NextCommand => self.parsed_commands.len() > 0,
            Msg::EnterCommand => {
                let index = self.selected_command_index;
                let entering = index < self.parsed_commands.len()
                    && self.parsed_commands[index].node.is_some();
                if !entering {
                    true
                } else if !self.cursor_resolves() {
                    false
                } else {
                    let current = self.current_ref().unwrap();
                    !is_invalid_ref(&current) || self.cursor.len() > 0
                }
            },
            Msg::ReplaceCurrentNode(_) => self.cursor_resolves(),
            _ => true,
        }
    }

    /// Whether receiving `flattened_paths` for move `mv` can run without failing.
    pub fn accepts_paths(&self, mv: Move, flattened_paths: &Vec<Path>) -> (b: bool)
        ensures
            b == self@.accepts_paths(mv, paths_view(flattened_paths)),
    {
        let ghost ps = paths_view(flattened_paths);
        if mv == Move::AfterEnter {
            return true;
        }
        let position = position_of(flattened_paths, &self.cursor);
        let n = flattened_paths.len();
        let target: Option<usize> = match position {
            Some(i) => if mv == Move::Back {
                if i > 0 {
                    Some(i - 1)
                } else {
                    None
                }
            } else {
                if i + 1 < n {
                    Some(i + 1)
                } else {
                    None
                }
            },
            None => if mv == Move::Forward && n > 0 {
                Some(0)
            } else {
                None
            },
        };
        match target {
            Some(t) => {
                proof {
                    assert(path_view(&flattened_paths@[t as int]) == ps[t as int]);
                }
                self.path_resolves(&self.file.root, &flattened_paths[t])
            },
            None => self.cursor_resolves(),
        }
    }
}

impl ParsedValue {
    /// The candidate's text split for display: the part that the command text
    /// matches and the rest; where the text does not begin with the command text,
    /// nothing matched and the rest is the whole text. A candidate without text
    /// shows as empty.
    pub fn highlight(&self, raw_command: &String) -> (r: (String, String))
        ensures
            ({
                let v = match self.deep_view().value {
                    Some(v) => v,
                    None => Seq::<char>::empty(),
                };
                if raw_command@.is_prefix_of(v) {
                    r.0@ == raw_command@ && r.1@ == v.skip(raw_command@.len() as int)
                } else {
                    r.0@ == Seq::<char>::empty() && r.1@ == v
                }
            }),
    {
        let value = match &self.value {
            Some(v) => v.clone(),
            None => String::new(),
        };
        if starts_with(&value, raw_command) {
            let n = raw_command.unicode_len();
            (raw_command.clone(), text_after(&value, n))
        } else {
            (String::new(), value)
        }
    }
}

/// An entry of the editor's action list: an optional icon, a label, and the
/// message it sends.
pub struct Action {
    pub image: Option<String>,
    pub text: String,
    pub msg: Msg,
}

} // verus!
