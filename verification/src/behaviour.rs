//! What each editor step does, stated over the state's plain parts: the nodes
//! of the file, the cursor, the command text and the completion list.

use vstd::prelude::*;

use crate::file::{path_view, Node, Path, SelectorView};
use crate::laws::law_write_then_read_current;
use crate::model::{
    is_first_match, lemma_first_match, Effect, Mode, ModelView, Move, Msg, ParsedValueView,
    Pick,
};
use crate::text::invalid_ref;

verus! {

/// The command text holds the value of the node under the cursor, or nothing
/// where the reference there names no node.
pub open spec fn holds_current_text(s: ModelView) -> bool {
    s.raw_command == if s.file.nodes.contains_key(s.file.resolve(s.file.root, s.cursor)) {
        s.file.nodes[s.file.resolve(s.file.root, s.cursor)].value
    } else {
        Seq::<char>::empty()
    }
}

/// The completion's most specific kind is the kind of the node under the
/// cursor; a completion without kinds matches where there is no node.
pub open spec fn of_current_kind(m: ModelView, pv: ParsedValueView) -> bool {
    let c = m.file.resolve(m.file.root, m.cursor);
    if pv.kind_hierarchy.len() > 0 {
        m.file.nodes.contains_key(c) && pv.kind_hierarchy[pv.kind_hierarchy.len() - 1]
            == m.file.nodes[c].kind
    } else {
        !m.file.nodes.contains_key(c)
    }
}

/// A completion stays under command text `raw` where its text begins with `raw`
/// or it has no text.
pub open spec fn begins_with(raw: Seq<char>, pv: ParsedValueView) -> bool {
    match pv.value {
        Some(v) => v.len() >= raw.len() && v.subrange(0, raw.len() as int) == raw,
        None => true,
    }
}

/// Where `x` occurs in `s`, it has a first position.
proof fn lemma_first_exists<A>(s: Seq<A>, x: A, i: int)
    requires
        0 <= i < s.len(),
        s[i] == x,
    ensures
        exists|k: int| is_first_match(s, x, k),
    decreases i,
{
    if exists|j: int| 0 <= j < i && s[j] == x {
        let j = choose|j: int| 0 <= j < i && s[j] == x;
        lemma_first_exists(s, x, j);
    } else {
        assert(is_first_match(s, x, i));
    }
}

/// Entering a command writes the node of the selected completion, the one at
/// `selected_command_index`, and only where that completion has a node. Over an
/// existing node under the cursor, the cursor then reads back exactly that
/// completion's node (walks that pass through the node they end at left out).
pub proof fn law_enter_uses_the_selected_completion(m: ModelView)
    ensures
        m.entering() <==> (m.selected_command_index < m.parsed_commands.len()
            && m.parsed_commands[m.selected_command_index as int].node is Some),
        m.entering() ==> m.entered_node() == m.parsed_commands[m.selected_command_index as int].node->0,
        m.entering() && m.cursor_resolves() && m.current() != invalid_ref() && !m.file.visits(
            m.file.root,
            m.cursor,
            m.current(),
        ) ==> m.with_current_written(m.entered_node()).file.lookup(m.current())
            == m.parsed_commands[m.selected_command_index as int].node,
{
    if m.entering() && m.cursor_resolves() && m.current() != invalid_ref() && !m.file.visits(
        m.file.root,
        m.cursor,
        m.current(),
    ) {
        law_write_then_read_current(m, m.entered_node());
    }
}

/// Receiving candidates keeps exactly those whose text begins with the command
/// text, in their order. With `Pick::First` the first completion is selected.
/// With `Pick::Current` the first completion of the current node's kind is
/// selected, and the first completion where there is none of that kind.
pub proof fn law_receiving_selects_as_picked(m: ModelView, candidates: Seq<ParsedValueView>)
    requires
        candidates.len() <= usize::MAX,
    ensures
        m.with_commands(candidates, Pick::First).parsed_commands == candidates.filter(
            |pv: ParsedValueView| begins_with(m.raw_command, pv),
        ),
        m.with_commands(candidates, Pick::Current).parsed_commands == candidates.filter(
            |pv: ParsedValueView| begins_with(m.raw_command, pv),
        ),
        m.with_commands(candidates, Pick::First).selected_command_index == 0,
        (forall|i: int|
            0 <= i < m.with_commands(candidates, Pick::Current).parsed_commands.len()
                ==> !of_current_kind(
                m,
                #[trigger] m.with_commands(candidates, Pick::Current).parsed_commands[i],
            )) ==> m.with_commands(candidates, Pick::Current).selected_command_index == 0,
        (exists|i: int|
            0 <= i < m.with_commands(candidates, Pick::Current).parsed_commands.len()
                && of_current_kind(
                m,
                #[trigger] m.with_commands(candidates, Pick::Current).parsed_commands[i],
            )) ==> {
            let w = m.with_commands(candidates, Pick::Current);
            &&& w.selected_command_index < w.parsed_commands.len()
            &&& of_current_kind(m, w.parsed_commands[w.selected_command_index as int])
            &&& forall|j: int|
                0 <= j < w.selected_command_index ==> !of_current_kind(
                    m,
                    #[trigger] w.parsed_commands[j],
                )
        },
        m.with_commands(candidates, Pick::Current).file == m.file,
        m.with_commands(candidates, Pick::Current).cursor == m.cursor,
        m.with_commands(candidates, Pick::Current).raw_command == m.raw_command,
{
    let f1 = crate::model::keeps(m.raw_command);
    let f2 = |pv: ParsedValueView| begins_with(m.raw_command, pv);
    assert forall|pv: ParsedValueView| #[trigger] f1(pv) == f2(pv) by {
        match pv.value {
            Some(v) => {
                if f2(pv) {
                    assert(m.raw_command =~= v.subrange(0, m.raw_command.len() as int));
                }
            },
            None => {},
        }
    }
    assert(f1 =~= f2);
    let w = m.with_commands(candidates, Pick::Current);
    let parsed = w.parsed_commands;
    let ks = crate::model::kinds_of(parsed);
    let ck = m.current_kind();
    assert forall|i: int| 0 <= i < parsed.len() implies (ks[i] == ck) == of_current_kind(
        m,
        #[trigger] parsed[i],
    ) by {}
    if exists|i: int| 0 <= i < parsed.len() && of_current_kind(m, #[trigger] parsed[i]) {
        let i = choose|i: int| 0 <= i < parsed.len() && of_current_kind(m, #[trigger] parsed[i]);
        assert(ks[i] == ck);
        lemma_first_exists(ks, ck, i);
        let k = choose|k: int| is_first_match(ks, ck, k);
        lemma_first_match(ks, ck, k);
        candidates.lemma_filter_len(f1);
        assert(w.selected_command_index == k);
        assert(ks[k] == ck);
        assert(of_current_kind(m, parsed[k]));
        assert forall|j: int| 0 <= j < k implies !of_current_kind(m, #[trigger] parsed[j]) by {
            assert(ks[j] != ck);
        }
    } else {
        if exists|k: int| is_first_match(ks, ck, k) {
            let k = choose|k: int| is_first_match(ks, ck, k);
            assert(of_current_kind(m, parsed[k]));
        }
    }
}

/// Moving the cursor (by selecting a path, going up, or stepping through the
/// walk order) loads the value of the node now under the cursor into the command
/// line, whatever it held before, and leaves the file alone.
pub proof fn law_moving_loads_the_node_text(
    m: ModelView,
    p: Path,
    mv: Move,
    paths: Seq<Seq<SelectorView>>,
)
    ensures
        m.stepped(Msg::Select(p)).cursor == path_view(&p),
        holds_current_text(m.stepped(Msg::Select(p))),
        m.stepped(Msg::Select(p)).file == m.file,
        m.stepped(Msg::Parent).cursor == (if m.cursor.len() > 0 {
            m.cursor.subrange(0, m.cursor.len() - 1)
        } else {
            m.cursor
        }),
        holds_current_text(m.stepped(Msg::Parent)),
        m.stepped(Msg::Parent).file == m.file,
        mv != Move::AfterEnter ==> holds_current_text(m.after_paths(mv, paths)),
        mv == Move::AfterEnter ==> m.after_paths(mv, paths).raw_command == Seq::<char>::empty(),
        m.after_paths(mv, paths).file == m.file,
{
}

/// Where the cursor stands at position `i` of the walk order (its first
/// occurrence), going forward moves it to position `i + 1` and going back to
/// position `i - 1`, where those exist; where the cursor is absent from a
/// nonempty walk order, going forward moves it to the first path.
pub proof fn law_walk_moves(m: ModelView, paths: Seq<Seq<SelectorView>>, i: int)
    ensures
        0 <= i < paths.len() && paths[i] == m.cursor && (forall|j: int|
            0 <= j < i ==> paths[j] != m.cursor) ==> {
            &&& i + 1 < paths.len() ==> m.moved_forward(paths).cursor == paths[i + 1]
            &&& i + 1 == paths.len() ==> m.moved_forward(paths).cursor == m.cursor
            &&& i > 0 ==> m.moved_back(paths).cursor == paths[i - 1]
            &&& i == 0 ==> m.moved_back(paths).cursor == m.cursor
        },
        (forall|j: int| 0 <= j < paths.len() ==> paths[j] != m.cursor) ==> {
            &&& paths.len() > 0 ==> m.moved_forward(paths).cursor == paths[0]
            &&& m.moved_back(paths).cursor == m.cursor
        },
        m.moved_forward(paths).file == m.file,
        m.moved_back(paths).file == m.file,
{
    if 0 <= i < paths.len() && paths[i] == m.cursor && (forall|j: int|
        0 <= j < i ==> paths[j] != m.cursor) {
        assert(is_first_match(paths, m.cursor, i));
        lemma_first_match(paths, m.cursor, i);
    }
    if forall|j: int| 0 <= j < paths.len() ==> paths[j] != m.cursor {
        if exists|k: int| is_first_match(paths, m.cursor, k) {
            let k = choose|k: int| is_first_match(paths, m.cursor, k);
            assert(paths[k] == m.cursor);
        }
    }
}

/// Deleting an item removes exactly the cursor's slot from its field in the
/// parent node, leaving the field one reference shorter, the parent's other
/// parts and every other node as they were, and logs the parent's write.
pub proof fn law_delete_removes_the_slot(m: ModelView)
    requires
        m.can_delete_item(),
    ensures
        m.deleted_item().file.nodes.contains_key(m.parent()),
        m.deleted_item().file.nodes[m.parent()].children[m.slot().field] == m.file.nodes[m.parent()].children[m.slot().field].remove(
            m.slot().index as int,
        ),
        m.deleted_item().file.nodes[m.parent()].children[m.slot().field].len() + 1
            == m.file.nodes[m.parent()].children[m.slot().field].len(),
        m.deleted_item().file.nodes[m.parent()].kind == m.file.nodes[m.parent()].kind,
        m.deleted_item().file.nodes[m.parent()].value == m.file.nodes[m.parent()].value,
        forall|f: Seq<char>|
            f != m.slot().field ==> #[trigger] m.deleted_item().file.nodes[m.parent()].children.contains_key(f)
                == m.file.nodes[m.parent()].children.contains_key(f),
        forall|f: Seq<char>|
            f != m.slot().field && m.file.nodes[m.parent()].children.contains_key(f)
                ==> #[trigger] m.deleted_item().file.nodes[m.parent()].children[f]
                == m.file.nodes[m.parent()].children[f],
        forall|x: Seq<char>|
            x != m.parent() ==> #[trigger] m.deleted_item().file.lookup(x) == m.file.lookup(x),
        m.deleted_item().file.log == m.file.log.push(
            (m.parent(), m.deleted_item().file.nodes[m.parent()]),
        ),
        m.deleted_item().cursor == m.cursor,
        m.deleted_item().raw_command == m.raw_command,
{
    assert(m.file.nodes[m.parent()].children.contains_key(m.slot().field));
}

/// The side arrows move between nodes only while the command line is empty:
/// with command text present they do nothing; with none, the right arrow asks
/// for the walk order to move forward and the left arrow to move back. Enter,
/// Escape and the up and down arrows send their command-line messages.
pub proof fn law_command_keys(m: ModelView, k: String)
    ensures
        (k@ == seq!['A', 'r', 'r', 'o', 'w', 'R', 'i', 'g', 'h', 't'] || k@ == seq![
            'A',
            'r',
            'r',
            'o',
            'w',
            'L',
            'e',
            'f',
            't',
        ]) && m.raw_command.len() > 0 ==> m.effect_of(Msg::CommandKey(k)) == Effect::Done
            && m.stepped(Msg::CommandKey(k)) == m,
        k@ == seq!['A', 'r', 'r', 'o', 'w', 'R', 'i', 'g', 'h', 't'] && m.raw_command.len() == 0
            ==> m.effect_of(Msg::CommandKey(k)) == Effect::NeedPaths(Move::Forward),
        k@ == seq!['A', 'r', 'r', 'o', 'w', 'L', 'e', 'f', 't'] && m.raw_command.len() == 0
            ==> m.effect_of(Msg::CommandKey(k)) == Effect::NeedPaths(Move::Back),
        k@ == seq!['E', 'n', 't', 'e', 'r'] ==> m.effect_of(Msg::CommandKey(k)) == Effect::Send(
            Msg::EnterCommand,
        ),
        k@ == seq!['E', 's', 'c', 'a', 'p', 'e'] ==> m.effect_of(Msg::CommandKey(k)) == Effect::Send(
            Msg::EscapeCommand,
        ),
        k@ == seq!['A', 'r', 'r', 'o', 'w', 'U', 'p'] ==> m.effect_of(Msg::CommandKey(k))
            == Effect::Send(Msg::PrevCommand),
        k@ == seq!['A', 'r', 'r', 'o', 'w', 'D', 'o', 'w', 'n'] ==> m.effect_of(Msg::CommandKey(k))
            == Effect::Send(Msg::NextCommand),
        m.stepped(Msg::CommandKey(k)) == m,
{
}

/// The command-line and writing messages change only what they name: typing
/// sets the command text, Escape clears it and leaves edit mode, hovering sets
/// the hover path, setting the mode sets the mode, and replacing the current
/// node writes the given node under the reference at the cursor. Moving down
/// the completions selects the next one where there is one, moving up the
/// previous one where there is one.
pub proof fn law_plain_messages(m: ModelView, v: String, p: Path, mode: Mode, n: Node)
    ensures
        m.stepped(Msg::SetCommand(v)).raw_command == v@,
        m.stepped(Msg::SetCommand(v)).file == m.file,
        m.stepped(Msg::SetCommand(v)).cursor == m.cursor,
        m.stepped(Msg::SetCommand(v)).mode == m.mode,
        m.stepped(Msg::SetCommand(v)).parsed_commands == m.parsed_commands,
        m.stepped(Msg::EscapeCommand).raw_command == Seq::<char>::empty(),
        m.stepped(Msg::EscapeCommand).mode == Mode::Normal,
        m.stepped(Msg::EscapeCommand).file == m.file,
        m.stepped(Msg::EscapeCommand).cursor == m.cursor,
        m.stepped(Msg::Hover(p)).hover == path_view(&p),
        m.stepped(Msg::Hover(p)).cursor == m.cursor,
        m.stepped(Msg::Hover(p)).file == m.file,
        m.stepped(Msg::SetMode(mode)).mode == mode,
        m.stepped(Msg::SetMode(mode)).raw_command == m.raw_command,
        m.stepped(Msg::SetMode(mode)).file == m.file,
        m.stepped(Msg::ReplaceCurrentNode(n)).file.nodes == m.file.nodes.insert(
            m.file.resolve(m.file.root, m.cursor),
            n.deep_view(),
        ),
        m.stepped(Msg::ReplaceCurrentNode(n)).file.log == m.file.log.push(
            (m.file.resolve(m.file.root, m.cursor), n.deep_view()),
        ),
        m.stepped(Msg::ReplaceCurrentNode(n)).cursor == m.cursor,
        m.parsed_commands.len() <= usize::MAX && m.selected_command_index + 1 < m.parsed_commands.len()
            ==> m.stepped(Msg::NextCommand).selected_command_index == m.selected_command_index + 1,
        m.selected_command_index + 1 >= m.parsed_commands.len() ==> m.stepped(Msg::NextCommand)
            == m,
        m.selected_command_index > 0 ==> m.stepped(Msg::PrevCommand).selected_command_index
            == m.selected_command_index - 1,
        m.selected_command_index == 0 ==> m.stepped(Msg::PrevCommand) == m,
        m.stepped(Msg::NextCommand).parsed_commands == m.parsed_commands,
        m.stepped(Msg::PrevCommand).parsed_commands == m.parsed_commands,
        m.stepped(Msg::NextCommand).file == m.file,
        m.stepped(Msg::PrevCommand).file == m.file,
        m.stepped(Msg::Noop) == m,
        m.stepped(Msg::Store) == m,
        m.stepped(Msg::Load) == m,
        m.stepped(Msg::Prev) == m,
        m.stepped(Msg::Next) == m,
        m.effect_of(Msg::Prev) == Effect::NeedPaths(Move::Back),
        m.effect_of(Msg::Next) == Effect::NeedPaths(Move::Forward),
        m.effect_of(Msg::Store) == Effect::Store,
        m.effect_of(Msg::Load) == Effect::Load,
{
}

} // verus!
