//! Properties of the library as a whole: what a read gives back of a write,
//! what the log records, how paths compose, and which steps undo which.

use vstd::prelude::*;

use crate::file::{
    child_at, lemma_resolve_last, lemma_resolve_push, lemma_resolve_unvisited,
    lemma_visits_are_keys, set_or_push, FileView, NodeView, SelectorView,
};
use crate::model::{
    field_refs, first_match, is_first_match, keeps, kept, lemma_first_match, placeholder_node,
    with_field, ModelView, Move, Msg, ParsedValueView, Pick,
};
use crate::text::invalid_ref;

verus! {

/// The node table that results from applying `writes` in order to `nodes`.
pub open spec fn replay(
    nodes: Map<Seq<char>, NodeView>,
    writes: Seq<(Seq<char>, NodeView)>,
) -> Map<Seq<char>, NodeView>
    decreases writes.len(),
{
    if writes.len() == 0 {
        nodes
    } else {
        replay(nodes, writes.drop_last()).insert(writes.last().0, writes.last().1)
    }
}

/// `new` comes from `old` by writes that its log records: same root, the old
/// log as a prefix, and the node table equal to the old one with the new log
/// entries applied in order.
pub open spec fn records(old: FileView, new: FileView) -> bool {
    &&& new.root == old.root
    &&& old.log.is_prefix_of(new.log)
    &&& new.nodes == replay(old.nodes, new.log.skip(old.log.len() as int))
}

proof fn lemma_records_refl(f: FileView)
    ensures
        records(f, f),
{
    assert(f.log.skip(f.log.len() as int) =~= Seq::<(Seq<char>, NodeView)>::empty());
    assert(f.log.is_prefix_of(f.log)) by {
        assert(f.log =~= f.log.subrange(0, f.log.len() as int));
    }
}

proof fn lemma_records_write(f: FileView, g: FileView, r: Seq<char>, n: NodeView)
    requires
        records(f, g),
    ensures
        records(f, g.replaced(r, n)),
{
    let h = g.replaced(r, n);
    let k = f.log.len() as int;
    assert(h.log.skip(k) =~= g.log.skip(k).push((r, n)));
    assert(h.log.skip(k).drop_last() =~= g.log.skip(k));
    assert(f.log =~= h.log.subrange(0, k)) by {
        assert(f.log =~= g.log.subrange(0, k));
    }
}

/// A read gives back what the last write under the same reference wrote, and
/// a write under one reference leaves reads under every other alone. The write
/// is appended to the log and the root stays.
pub proof fn law_lookup_after_replace(f: FileView, r: Seq<char>, n: NodeView, other: Seq<char>)
    ensures
        f.replaced(r, n).lookup(r) == Some(n),
        other != r ==> f.replaced(r, n).lookup(other) == f.lookup(other),
        f.replaced(r, n).log == f.log.push((r, n)),
        f.replaced(r, n).root == f.root,
{
}

/// Every step of the editor changes the file only by writes that its log
/// records, in order: the old log stays a prefix, the root stays, and the node
/// table is the old one with the new log entries applied.
pub proof fn law_steps_log_their_writes(m: ModelView, msg: Msg)
    requires
        m.accepts(msg),
    ensures
        records(m.file, m.stepped(msg).file),
{
    lemma_records_refl(m.file);
    match msg {
        Msg::DeleteItem => {
            let p = m.parent();
            let pn = m.file.nodes[p];
            let sel = m.slot();
            lemma_records_write(
                m.file,
                m.file,
                p,
                with_field(pn, sel.field, field_refs(pn, sel.field).remove(sel.index as int)),
            );
        },
        Msg::ReplaceCurrentNode(n) => {
            lemma_records_write(m.file, m.file, m.current(), n.deep_view());
        },
        _ => {},
    }
}

/// Adding an item, placing a node in the cursor's slot and writing over the
/// current node change the file only by writes that the log records, and the
/// first of them is always the write under the drawn reference.
pub proof fn law_fresh_steps_log_their_writes(m: ModelView, r: Seq<char>, n: NodeView)
    ensures
        records(m.file, m.added_item(r).file),
        records(m.file, m.placed(r, n).file),
        records(m.file, m.with_current_written(n).file),
        m.added_item(r).file.log.len() > m.file.log.len(),
        m.added_item(r).file.log[m.file.log.len() as int] == (r, placeholder_node()),
        m.placed(r, n).file.log.len() > m.file.log.len(),
        m.placed(r, n).file.log[m.file.log.len() as int] == (r, n),
{
    lemma_records_refl(m.file);
    let sel = m.slot();
    let fa = m.file.replaced(r, placeholder_node());
    lemma_records_write(m.file, m.file, r, placeholder_node());
    let pa = m.parent();
    let pna = fa.nodes[pa];
    lemma_records_write(
        m.file,
        fa,
        pa,
        with_field(pna, sel.field, field_refs(pna, sel.field).insert(sel.index + 1, r)),
    );
    let fp = m.file.replaced(r, n);
    lemma_records_write(m.file, m.file, r, n);
    let pp = fp.resolve(fp.root, m.parent_cursor());
    let pnp = fp.nodes[pp];
    lemma_records_write(
        m.file,
        fp,
        pp,
        with_field(pnp, sel.field, set_or_push(field_refs(pnp, sel.field), sel.index as int, r)),
    );
    lemma_records_write(m.file, m.file, m.current(), n);
}

/// Receiving paths or completion candidates never touches the file.
pub proof fn law_receiving_keeps_file(
    m: ModelView,
    mv: Move,
    paths: Seq<Seq<SelectorView>>,
    candidates: Seq<ParsedValueView>,
    pick: Pick,
)
    ensures
        m.after_paths(mv, paths).file == m.file,
        m.with_commands(candidates, pick).file == m.file,
{
}

/// An empty walk stays where it starts; one step from a node takes the
/// reference at the selected position of the selected field, or the empty-slot
/// marker where the field is missing or not that long.
pub proof fn law_lookup_path_one_step(f: FileView, r: Seq<char>, s: SelectorView)
    ensures
        f.resolves(r, Seq::<SelectorView>::empty()),
        f.resolve(r, Seq::<SelectorView>::empty()) == r,
        f.nodes.contains_key(r) ==> f.resolves(r, seq![s]),
        f.nodes.contains_key(r) && f.nodes[r].children.contains_key(s.field) && s.index
            < f.nodes[r].children[s.field].len() ==> f.resolve(r, seq![s])
            == f.nodes[r].children[s.field][s.index as int],
        f.nodes.contains_key(r) && !(f.nodes[r].children.contains_key(s.field) && s.index
            < f.nodes[r].children[s.field].len()) ==> f.resolve(r, seq![s]) == seq!['-'],
{
    let p = seq![s];
    assert(p.drop_first() =~= Seq::<SelectorView>::empty());
    assert(p[0] == s);
    if f.nodes.contains_key(r) {
        let c = child_at(f.nodes[r], s);
        assert(f.resolves(c, p.drop_first()));
        assert(f.resolve(c, p.drop_first()) == c);
    }
}

/// Walking one selector further from where a path ends takes the selected child
/// of the node there.
pub proof fn law_lookup_path_append(f: FileView, r: Seq<char>, p: Seq<SelectorView>, s: SelectorView)
    requires
        f.resolves(r, p),
        f.nodes.contains_key(f.resolve(r, p)),
    ensures
        f.resolves(r, p.push(s)),
        f.resolve(r, p.push(s)) == child_at(f.nodes[f.resolve(r, p)], s),
{
    lemma_resolve_push(f, r, p, s);
}

/// In a path list without repeats, going forward and then back returns the
/// cursor to where it was, wherever there is a path after it.
pub proof fn law_prev_undoes_next(m: ModelView, paths: Seq<Seq<SelectorView>>, i: int)
    requires
        paths.no_duplicates(),
        0 <= i,
        i + 1 < paths.len(),
        paths[i] == m.cursor,
    ensures
        m.moved_forward(paths).moved_back(paths).cursor == m.cursor,
{
    lemma_first_in_distinct(paths, i);
    lemma_first_in_distinct(paths, i + 1);
}

/// In a path list without repeats, going back and then forward returns the
/// cursor to where it was, wherever there is a path before it.
pub proof fn law_next_undoes_prev(m: ModelView, paths: Seq<Seq<SelectorView>>, i: int)
    requires
        paths.no_duplicates(),
        0 < i < paths.len(),
        paths[i] == m.cursor,
    ensures
        m.moved_back(paths).moved_forward(paths).cursor == m.cursor,
{
    lemma_first_in_distinct(paths, i);
    lemma_first_in_distinct(paths, i - 1);
}

proof fn lemma_first_in_distinct<A>(s: Seq<A>, i: int)
    requires
        s.no_duplicates(),
        0 <= i < s.len(),
    ensures
        first_match(s, s[i]) == Some(i),
{
    assert(is_first_match(s, s[i], i));
    lemma_first_match(s, s[i], i);
}

/// Moving through the completions keeps the selection on one of them, and
/// going down then up returns to the same one where there is one below.
pub proof fn law_completion_moves(m: ModelView)
    requires
        m.selected_command_index < m.parsed_commands.len(),
        m.parsed_commands.len() <= usize::MAX,
    ensures
        m.stepped(Msg::NextCommand).selected_command_index < m.parsed_commands.len(),
        m.stepped(Msg::PrevCommand).selected_command_index < m.parsed_commands.len(),
        m.selected_command_index + 1 < m.parsed_commands.len() ==> m.stepped(
            Msg::NextCommand,
        ).stepped(Msg::PrevCommand).selected_command_index == m.selected_command_index,
{
}

/// After new candidates arrive, every completion kept begins with the command
/// text (or has no text), each came from the candidates, and the selection is
/// on a completion whenever there is one.
pub proof fn law_completions_match_command(
    m: ModelView,
    candidates: Seq<ParsedValueView>,
    pick: Pick,
)
    ensures
        forall|i: int|
            0 <= i < m.with_commands(candidates, pick).parsed_commands.len() ==> kept(
                m.raw_command,
                #[trigger] m.with_commands(candidates, pick).parsed_commands[i],
            ),
        forall|i: int|
            0 <= i < m.with_commands(candidates, pick).parsed_commands.len() ==> candidates.contains(
                #[trigger] m.with_commands(candidates, pick).parsed_commands[i],
            ),
        m.with_commands(candidates, pick).parsed_commands.len() > 0 ==> m.with_commands(
            candidates,
            pick,
        ).selected_command_index < m.with_commands(candidates, pick).parsed_commands.len(),
{
    let f = keeps(m.raw_command);
    let parsed = candidates.filter(f);
    assert forall|i: int| 0 <= i < parsed.len() implies kept(m.raw_command, #[trigger] parsed[i])
        && candidates.contains(parsed[i]) by {
        candidates.lemma_filter_pred(f, i);
        assert(parsed.contains(parsed[i]));
        candidates.lemma_filter_contains_rev(f, parsed[i]);
    }
}

/// A write under a reference off the walk to the parent, followed by a write
/// under the parent, leaves that walk alone, when the walk does not pass through
/// the parent before reaching it.
proof fn lemma_parent_stays(m: ModelView, r: Seq<char>, n1: NodeView, n2: NodeView)
    requires
        m.slot_resolves(),
        !m.file.visits(m.file.root, m.parent_cursor(), r),
        r != m.parent(),
        !m.file.visits(m.file.root, m.parent_cursor(), m.parent()),
    ensures
        m.file.replaced(r, n1).resolves(m.file.root, m.parent_cursor()),
        m.file.replaced(r, n1).resolve(m.file.root, m.parent_cursor()) == m.parent(),
        m.file.replaced(r, n1).nodes.contains_key(m.parent()),
        m.file.replaced(r, n1).nodes[m.parent()] == m.file.nodes[m.parent()],
        m.file.replaced(r, n1).replaced(m.parent(), n2).resolves(m.file.root, m.parent_cursor()),
        m.file.replaced(r, n1).replaced(m.parent(), n2).resolve(m.file.root, m.parent_cursor())
            == m.parent(),
        m.file.nodes.contains_key(m.parent()),
{
    let f = m.file;
    let pc = m.parent_cursor();
    let p = m.parent();
    lemma_resolve_last(f, f.root, m.cursor);
    let f1 = f.replaced(r, n1);
    lemma_resolve_unvisited(f, f1, f.root, pc, r);
    assert(!f1.visits(f.root, pc, p));
    let f2 = f1.replaced(p, n2);
    lemma_resolve_unvisited(f1, f2, f.root, pc, p);
}

/// A reference that names no node is never on a walk that resolves.
pub proof fn law_fresh_reference_is_off_the_walk(m: ModelView, r: Seq<char>)
    requires
        m.slot_resolves(),
        !m.file.nodes.contains_key(r),
    ensures
        !m.file.visits(m.file.root, m.parent_cursor(), r),
        r != m.parent(),
{
    lemma_resolve_last(m.file, m.file.root, m.cursor);
    if m.file.visits(m.file.root, m.parent_cursor(), r) {
        lemma_visits_are_keys(m.file, m.file.root, m.parent_cursor(), r);
    }
}

/// Writing over the node under the cursor, then reading under the cursor,
/// gives back the node written, where the walk to it does not pass through it.
pub proof fn law_write_then_read_current(m: ModelView, n: NodeView)
    requires
        m.cursor_resolves(),
        !m.file.visits(m.file.root, m.cursor, m.current()),
    ensures
        m.with_current_written(n).cursor_resolves(),
        m.with_current_written(n).current() == m.current(),
        m.with_current_written(n).current_node() == Some(n),
{
    lemma_resolve_unvisited(m.file, m.file.replaced(m.current(), n), m.file.root, m.cursor, m.current());
}

/// Placing a node under `r` in the cursor's slot, then reading under the
/// cursor, gives back the node: the parent's field holds `r` at the slot and the
/// rest of the parent is kept. Left out: a slot position past the field's end
/// (the reference then goes to the field's end), `r` on the walk to the parent
/// or naming the parent, and a walk that passes through the parent before
/// reaching it.
pub proof fn law_place_then_read_current(m: ModelView, r: Seq<char>, n: NodeView)
    requires
        m.slot_resolves(),
        !m.file.visits(m.file.root, m.parent_cursor(), r),
        r != m.parent(),
        !m.file.visits(m.file.root, m.parent_cursor(), m.parent()),
        m.slot().index <= m.slot_refs().len(),
    ensures
        m.placed(r, n).cursor == m.cursor,
        m.placed(r, n).cursor_resolves(),
        m.placed(r, n).parent() == m.parent(),
        m.placed(r, n).file.nodes[m.parent()] == with_field(
            m.file.nodes[m.parent()],
            m.slot().field,
            set_or_push(m.slot_refs(), m.slot().index as int, r),
        ),
        m.placed(r, n).current() == r,
        m.placed(r, n).current_node() == Some(n),
        m.placed(r, n).file.log == m.file.log.push((r, n)).push(
            (m.parent(), m.placed(r, n).file.nodes[m.parent()]),
        ),
        forall|x: Seq<char>|
            x != r && x != m.parent() ==> #[trigger] m.placed(r, n).file.lookup(x) == m.file.lookup(x),
{
    let p = m.parent();
    let pn = m.file.nodes[p];
    let sel = m.slot();
    let refs = set_or_push(field_refs(pn, sel.field), sel.index as int, r);
    let n2 = with_field(pn, sel.field, refs);
    lemma_parent_stays(m, r, n, n2);
    let a = m.placed(r, n);
    assert(a.file == m.file.replaced(r, n).replaced(p, n2));
    assert(m.cursor =~= m.parent_cursor().push(sel));
    lemma_resolve_push(a.file, a.file.root, m.parent_cursor(), sel);
    assert(a.file.nodes[p] == n2);
    assert(refs[sel.index as int] == r);
    assert(child_at(n2, sel) == r);
}

/// Setting a node over an existing node wraps it: the new node, under `r` in
/// the cursor's slot, holds the displaced reference in its inner field `f`, and
/// the displaced node itself is kept unchanged. Left out as for placing, and a
/// displaced node that is `r` or the parent itself.
pub proof fn law_set_node_wraps_current(m: ModelView, r: Seq<char>, n: NodeView, f: Seq<char>)
    requires
        m.slot_resolves(),
        m.current() != invalid_ref(),
        m.current() != r,
        m.current() != m.parent(),
        !m.file.visits(m.file.root, m.parent_cursor(), r),
        r != m.parent(),
        !m.file.visits(m.file.root, m.parent_cursor(), m.parent()),
        m.slot().index <= m.slot_refs().len(),
    ensures
        m.wrapping(n, Some(f)) == with_field(n, f, seq![m.current()]),
        m.wrapping(n, None) == n,
        m.placed(r, m.wrapping(n, Some(f))).current() == r,
        m.placed(r, m.wrapping(n, Some(f))).current_node() == Some(with_field(n, f, seq![m.current()])),
        m.placed(r, m.wrapping(n, Some(f))).file.lookup(m.current()) == m.file.lookup(m.current()),
{
    law_place_then_read_current(m, r, m.wrapping(n, Some(f)));
}

/// Adding an item puts the cursor on a new placeholder node just after the
/// slot it was on, where `r` is off the walk to the parent and not the parent,
/// and the walk does not pass through the parent before reaching it.
pub proof fn law_add_item_then_read_current(m: ModelView, r: Seq<char>)
    requires
        m.can_add_item(),
        !m.file.visits(m.file.root, m.parent_cursor(), r),
        r != m.parent(),
        !m.file.visits(m.file.root, m.parent_cursor(), m.parent()),
    ensures
        m.added_item(r).parent_cursor() == m.parent_cursor(),
        m.added_item(r).slot().field == m.slot().field,
        m.added_item(r).slot().index == m.slot().index + 1,
        m.added_item(r).cursor_resolves(),
        m.added_item(r).parent() == m.parent(),
        m.added_item(r).file.nodes[m.parent()] == with_field(
            m.file.nodes[m.parent()],
            m.slot().field,
            m.slot_refs().insert(m.slot().index + 1, r),
        ),
        m.added_item(r).current() == r,
        m.added_item(r).current_node() == Some(placeholder_node()),
{
    let p = m.parent();
    let pn = m.file.nodes[p];
    let sel = m.slot();
    let next = SelectorView { field: sel.field, index: (sel.index + 1) as usize };
    let refs = field_refs(pn, sel.field).insert(sel.index + 1, r);
    let n2 = with_field(pn, sel.field, refs);
    lemma_parent_stays(m, r, placeholder_node(), n2);
    let a = m.added_item(r);
    assert(a.file == m.file.replaced(r, placeholder_node()).replaced(p, n2));
    assert(a.cursor.drop_last() =~= m.parent_cursor());
    assert(a.cursor =~= m.parent_cursor().push(next));
    lemma_resolve_push(a.file, a.file.root, m.parent_cursor(), next);
    assert(refs[sel.index + 1] == r);
    assert(child_at(n2, next) == r);
}

/// Deleting the item just added removes it again: the parent node is as it was
/// and the only trace left is the unreferenced placeholder node.
pub proof fn law_delete_undoes_add(m: ModelView, r: Seq<char>)
    requires
        m.can_add_item(),
        !m.file.visits(m.file.root, m.parent_cursor(), r),
        r != m.parent(),
        !m.file.visits(m.file.root, m.parent_cursor(), m.parent()),
    ensures
        m.added_item(r).can_delete_item(),
        m.added_item(r).deleted_item().file.nodes == m.file.nodes.insert(r, placeholder_node()),
        m.added_item(r).deleted_item().file.root == m.file.root,
{
    law_add_item_then_read_current(m, r);
    let p = m.parent();
    let pn = m.file.nodes[p];
    let sel = m.slot();
    let old_refs = field_refs(pn, sel.field);
    let refs = old_refs.insert(sel.index + 1, r);
    let a = m.added_item(r);
    assert(a.file.nodes[p] == with_field(pn, sel.field, refs));
    assert(a.slot_refs() == refs);
    assert(pn.children.contains_key(sel.field));
    assert(refs.remove(sel.index + 1) =~= old_refs);
    let back = with_field(a.file.nodes[p], sel.field, refs.remove(sel.index + 1));
    assert(back.children =~= pn.children);
    assert(back =~= pn);
    let d = a.deleted_item();
    assert(field_refs(a.file.nodes[p], sel.field) == refs);
    assert(a.slot().index == sel.index + 1);
    assert(d.file == a.file.replaced(p, back));
    assert(a.file.nodes == m.file.nodes.insert(r, placeholder_node()).insert(p, with_field(pn, sel.field, refs)));
    assert(m.file.nodes[p] == pn);
    lemma_resolve_last(m.file, m.file.root, m.cursor);
    assert(m.file.nodes.contains_key(p));
    assert(d.file.nodes =~= m.file.nodes.insert(r, placeholder_node()));
}

/// Replacing the node under the cursor leaves the cursor on the node written.
/// On an existing node the node is written over it; on an empty slot it goes
/// under the drawn reference `r`, which the slot then holds. Left out: walks
/// that pass through the node they end at, an empty slot past the field's end,
/// and `r` on the walk to the parent or naming the parent.
pub proof fn law_replace_node_writes_current(m: ModelView, r: Seq<char>, n: NodeView)
    requires
        m.can_replace_current(),
        m.current() != invalid_ref() ==> !m.file.visits(m.file.root, m.cursor, m.current()),
        m.current() == invalid_ref() ==> {
            &&& !m.file.visits(m.file.root, m.parent_cursor(), m.parent())
            &&& m.slot().index <= m.slot_refs().len()
            &&& !m.file.visits(m.file.root, m.parent_cursor(), r)
            &&& r != m.parent()
        },
    ensures
        m.current() != invalid_ref() ==> m.with_current_written(n).current_node() == Some(n),
        m.current() == invalid_ref() ==> m.placed(r, n).current() == r
            && m.placed(r, n).current_node() == Some(n),
{
    if m.current() != invalid_ref() {
        law_write_then_read_current(m, n);
    } else {
        law_place_then_read_current(m, r, n);
    }
}

} // verus!
