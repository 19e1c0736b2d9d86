use std::collections::VecDeque;

use linc::file::{File, Node, Path, Selector};
use linc::model::{key_command, Effect, Mode, Model, Move, Msg, ParsedValue, Pick};
use linc::strmap::StrMap;

fn node(kind: &str, value: &str, children: Vec<(&str, Vec<&str>)>) -> Node {
    let mut map = StrMap::new();
    for (field, refs) in children {
        map.insert(field.to_string(), refs.into_iter().map(|r| r.to_string()).collect());
    }
    Node { kind: kind.to_string(), value: value.to_string(), children: map }
}

fn path(steps: &[(&str, usize)]) -> Path {
    let mut p = VecDeque::new();
    for (field, index) in steps {
        p.push_back(Selector { field: field.to_string(), index: *index });
    }
    p
}

/// root --items--> [a, -];  a --args--> [b];  b has no children.
fn sample_file() -> File {
    let mut file = File { nodes: StrMap::new(), root: "root".to_string(), log: Vec::new() };
    file.replace_node(&"root".to_string(), node("list", "", vec![("items", vec!["a", "-"])]));
    file.replace_node(&"a".to_string(), node("call", "f", vec![("args", vec!["b"])]));
    file.replace_node(&"b".to_string(), node("num", "1", vec![]));
    file
}

fn candidate(value: Option<&str>, kinds: &[&str], node: Option<Node>) -> ParsedValue {
    ParsedValue {
        value: value.map(|v| v.to_string()),
        kind_hierarchy: kinds.iter().map(|k| k.to_string()).collect(),
        node,
    }
}

fn children_of(model: &Model, reference: &str, field: &str) -> Vec<String> {
    model.lookup(&reference.to_string()).unwrap().children.get(&field.to_string()).cloned().unwrap_or_default()
}

#[test]
fn create_starts_on_the_first_item() {
    let m = Model::create(sample_file());
    assert_eq!(m.cursor.len(), 1);
    assert_eq!(m.cursor[0], Selector { field: "items".to_string(), index: 0 });
    assert!(m.hover.is_empty());
    assert_eq!(m.mode, Mode::Normal);
    assert_eq!(m.raw_command, "");
    assert!(m.parsed_commands.is_empty());
    assert_eq!(m.selected_command_index, 0);
}

#[test]
fn lookup_path_walks_children() {
    let m = Model::create(sample_file());
    let root = "root".to_string();
    assert_eq!(m.lookup_path(&root, path(&[])), Some("root".to_string()));
    assert_eq!(m.lookup_path(&root, path(&[("items", 0)])), Some("a".to_string()));
    assert_eq!(m.lookup_path(&root, path(&[("items", 0), ("args", 0)])), Some("b".to_string()));
    assert_eq!(m.lookup_path(&root, path(&[("items", 1)])), Some("-".to_string()));
    assert_eq!(m.lookup_path(&root, path(&[("items", 5)])), Some("-".to_string()));
    assert_eq!(m.lookup_path(&root, path(&[("other", 0)])), Some("-".to_string()));
    assert_eq!(m.lookup_path(&root, path(&[("items", 0), ("args", 1)])), Some("-".to_string()));
}

#[test]
fn path_resolves_reports_walks_through_missing_nodes() {
    let m = Model::create(sample_file());
    let root = "root".to_string();
    assert!(m.path_resolves(&root, &path(&[("items", 0), ("args", 0)])));
    assert!(m.path_resolves(&root, &path(&[("items", 1)])));
    assert!(!m.path_resolves(&root, &path(&[("items", 1), ("x", 0)])));
    assert!(!m.path_resolves(&"nowhere".to_string(), &path(&[("items", 0)])));
    assert!(m.path_resolves(&"nowhere".to_string(), &path(&[])));
}

#[test]
fn current_and_parent_refs() {
    let mut m = Model::create(sample_file());
    m.cursor = path(&[("items", 0), ("args", 0)]);
    assert_eq!(m.current_ref(), Some("b".to_string()));
    assert_eq!(m.parent_ref(), Some("a".to_string()));
}

#[test]
fn select_takes_the_node_text_and_asks_for_completions() {
    let mut m = Model::create(sample_file());
    let e = m.update(Msg::Select(path(&[("items", 0), ("args", 0)])));
    assert!(matches!(e, Effect::NeedCommands(Pick::Current)));
    assert_eq!(m.raw_command, "1");
    let e = m.update(Msg::Select(path(&[("items", 1)])));
    assert!(matches!(e, Effect::NeedCommands(Pick::Current)));
    assert_eq!(m.raw_command, "");
}

#[test]
fn received_completions_are_filtered_by_the_command_text() {
    let mut m = Model::create(sample_file());
    m.raw_command = "ab".to_string();
    m.receive_commands(
        Pick::First,
        vec![
            candidate(Some("abc"), &["expr", "num"], None),
            candidate(Some("xab"), &["expr"], None),
            candidate(None, &["expr"], None),
            candidate(Some("ab"), &["expr", "var"], None),
            candidate(Some("a"), &[], None),
        ],
    );
    let values: Vec<Option<String>> = m.parsed_commands.iter().map(|p| p.value.clone()).collect();
    assert_eq!(values, vec![Some("abc".to_string()), None, Some("ab".to_string())]);
    assert_eq!(m.selected_command_index, 0);
}

#[test]
fn current_pick_selects_the_first_completion_of_the_current_kind() {
    let mut m = Model::create(sample_file());
    m.update(Msg::Select(path(&[("items", 0)])));
    assert_eq!(m.raw_command, "f");
    m.receive_commands(
        Pick::Current,
        vec![
            candidate(Some("f"), &["expr", "var"], None),
            candidate(Some("foo"), &["expr", "call"], None),
            candidate(Some("f2"), &["expr", "call"], None),
        ],
    );
    assert_eq!(m.selected_command_index, 1);
    m.receive_commands(Pick::Current, vec![candidate(Some("f"), &["var"], None)]);
    assert_eq!(m.selected_command_index, 0);
}

#[test]
fn current_pick_on_an_empty_slot_selects_a_completion_without_kinds() {
    let mut m = Model::create(sample_file());
    m.update(Msg::Select(path(&[("items", 1)])));
    m.receive_commands(
        Pick::Current,
        vec![candidate(Some("x"), &["num"], None), candidate(Some("y"), &[], None)],
    );
    assert_eq!(m.selected_command_index, 1);
}

fn walk_order() -> Vec<Path> {
    vec![path(&[("items", 0)]), path(&[("items", 0), ("args", 0)]), path(&[("items", 1)])]
}

#[test]
fn next_and_prev_follow_the_walk_order() {
    let mut m = Model::create(sample_file());
    assert!(matches!(m.update(Msg::Next), Effect::NeedPaths(Move::Forward)));
    let e = m.receive_paths(Move::Forward, &walk_order());
    assert!(matches!(e, Effect::NeedCommands(Pick::Current)));
    assert_eq!(m.current_ref(), Some("b".to_string()));
    assert_eq!(m.raw_command, "1");
    assert!(matches!(m.update(Msg::Prev), Effect::NeedPaths(Move::Back)));
    m.receive_paths(Move::Back, &walk_order());
    assert_eq!(m.current_ref(), Some("a".to_string()));
    m.receive_paths(Move::Back, &walk_order());
    assert_eq!(m.current_ref(), Some("a".to_string()));
}

#[test]
fn next_stays_on_the_last_path_and_jumps_in_from_outside() {
    let mut m = Model::create(sample_file());
    m.cursor = path(&[("items", 1)]);
    m.next(&walk_order());
    assert_eq!(m.cursor, path(&[("items", 1)]));
    m.cursor = path(&[("elsewhere", 3)]);
    m.next(&walk_order());
    assert_eq!(m.cursor, path(&[("items", 0)]));
    m.cursor = path(&[("elsewhere", 3)]);
    m.prev(&walk_order());
    assert_eq!(m.cursor, path(&[("elsewhere", 3)]));
    m.next(&Vec::new());
    assert_eq!(m.cursor, path(&[("elsewhere", 3)]));
}

#[test]
fn parent_moves_up_one_level() {
    let mut m = Model::create(sample_file());
    m.cursor = path(&[("items", 0), ("args", 0)]);
    let e = m.update(Msg::Parent);
    assert!(matches!(e, Effect::NeedCommands(Pick::Current)));
    assert_eq!(m.cursor, path(&[("items", 0)]));
    assert_eq!(m.raw_command, "f");
}

#[test]
fn replace_node_writes_over_the_current_node() {
    let mut m = Model::create(sample_file());
    m.replace_node(node("num", "42", vec![]));
    assert_eq!(m.lookup(&"a".to_string()).unwrap().value, "42");
    assert_eq!(m.current_ref(), Some("a".to_string()));
    assert_eq!(m.file.log.len(), 4);
}

#[test]
fn replace_node_fills_an_empty_slot() {
    let mut m = Model::create(sample_file());
    m.cursor = path(&[("items", 1)]);
    m.replace_node(node("num", "5", vec![]));
    let current = m.current_ref().unwrap();
    assert_ne!(current, "-");
    assert_eq!(m.lookup(&current).unwrap().value, "5");
    assert_eq!(children_of(&m, "root", "items"), vec!["a".to_string(), current]);
}

#[test]
fn place_node_appends_where_the_field_is_short() {
    let mut m = Model::create(sample_file());
    m.cursor = path(&[("items", 0), ("rest", 3)]);
    m.place_node("n".to_string(), node("num", "9", vec![]));
    assert_eq!(children_of(&m, "a", "rest"), vec!["n".to_string()]);
    assert_eq!(m.current_ref(), Some("-".to_string()));
}

#[test]
fn set_node_wraps_the_current_node() {
    let mut m = Model::create(sample_file());
    m.set_node(node("neg", "-", vec![]), Some("inner".to_string()));
    let current = m.current_ref().unwrap();
    assert_ne!(current, "a");
    let wrapper = m.lookup(&current).unwrap();
    assert_eq!(wrapper.kind, "neg");
    assert_eq!(wrapper.children.get(&"inner".to_string()), Some(&vec!["a".to_string()]));
    let mut m = Model::create(sample_file());
    m.set_node(node("num", "3", vec![]), None);
    let current = m.current_ref().unwrap();
    assert!(m.lookup(&current).unwrap().children.get(&"inner".to_string()).is_none());
}

#[test]
fn add_item_inserts_a_placeholder_after_the_cursor_and_delete_removes_it() {
    let mut m = Model::create(sample_file());
    assert!(m.accepts(&Msg::AddItem));
    assert!(matches!(m.update(Msg::AddItem), Effect::Done));
    assert_eq!(m.cursor, path(&[("items", 1)]));
    let added = m.current_ref().unwrap();
    let placeholder = m.lookup(&added).unwrap();
    assert_eq!(placeholder.kind, "invalid");
    assert_eq!(placeholder.value, "invalid");
    assert_eq!(children_of(&m, "root", "items"), vec!["a".to_string(), added.clone(), "-".to_string()]);
    assert!(matches!(m.update(Msg::DeleteItem), Effect::Done));
    assert_eq!(children_of(&m, "root", "items"), vec!["a".to_string(), "-".to_string()]);
}

#[test]
fn add_and_delete_are_refused_where_they_would_fail() {
    let mut m = Model::create(sample_file());
    m.cursor = path(&[]);
    assert!(!m.accepts(&Msg::AddItem));
    assert!(!m.accepts(&Msg::DeleteItem));
    m.cursor = path(&[("items", 2)]);
    assert!(!m.accepts(&Msg::AddItem));
    assert!(!m.accepts(&Msg::DeleteItem));
    m.cursor = path(&[("items", 1), ("x", 0)]);
    assert!(!m.accepts(&Msg::DeleteItem));
    m.cursor = path(&[("items", 1)]);
    assert!(m.accepts(&Msg::DeleteItem));
}

#[test]
fn completion_selection_moves_within_the_list() {
    let mut m = Model::create(sample_file());
    assert!(!m.accepts(&Msg::NextCommand));
    m.receive_commands(Pick::First, vec![candidate(Some("x"), &[], None), candidate(Some("y"), &[], None)]);
    m.update(Msg::NextCommand);
    assert_eq!(m.selected_command_index, 1);
    m.update(Msg::NextCommand);
    assert_eq!(m.selected_command_index, 1);
    m.update(Msg::PrevCommand);
    assert_eq!(m.selected_command_index, 0);
    m.update(Msg::PrevCommand);
    assert_eq!(m.selected_command_index, 0);
}

#[test]
fn command_line_messages() {
    let mut m = Model::create(sample_file());
    assert!(matches!(m.update(Msg::SetMode(Mode::Edit)), Effect::Done));
    assert_eq!(m.mode, Mode::Edit);
    assert!(matches!(m.update(Msg::SetCommand("12".to_string())), Effect::NeedCommands(Pick::First)));
    assert_eq!(m.raw_command, "12");
    assert!(matches!(m.update(Msg::EscapeCommand), Effect::NeedCommands(Pick::First)));
    assert_eq!(m.raw_command, "");
    assert_eq!(m.mode, Mode::Normal);
    assert!(matches!(m.update(Msg::Store), Effect::Store));
    assert!(matches!(m.update(Msg::Load), Effect::Load));
    assert!(matches!(m.update(Msg::Noop), Effect::Done));
    m.update(Msg::Hover(path(&[("items", 0)])));
    assert_eq!(m.hover, path(&[("items", 0)]));
}

#[test]
fn command_keys_stand_for_command_line_messages() {
    assert!(matches!(key_command("Enter"), Some(Msg::EnterCommand)));
    assert!(matches!(key_command("Escape"), Some(Msg::EscapeCommand)));
    assert!(matches!(key_command("ArrowUp"), Some(Msg::PrevCommand)));
    assert!(matches!(key_command("ArrowDown"), Some(Msg::NextCommand)));
    assert!(key_command("ArrowLeft").is_none());
    assert!(key_command("a").is_none());
    let mut m = Model::create(sample_file());
    assert!(matches!(m.update(Msg::CommandKey("Enter".to_string())), Effect::Send(Msg::EnterCommand)));
    assert!(matches!(m.update(Msg::CommandKey("x".to_string())), Effect::Done));
}

#[test]
fn enter_command_replaces_the_node_and_moves_on() {
    let mut m = Model::create(sample_file());
    m.raw_command = "4".to_string();
    m.receive_commands(Pick::First, vec![candidate(Some("42"), &["num"], Some(node("num", "42", vec![])))]);
    let e = m.update(Msg::EnterCommand);
    assert!(matches!(e, Effect::NeedPaths(Move::AfterEnter)));
    assert_eq!(m.lookup(&"a".to_string()).unwrap().value, "42");
    let e = m.receive_paths(Move::AfterEnter, &walk_order());
    assert!(matches!(e, Effect::NeedCommands(Pick::First)));
    assert_eq!(m.cursor, path(&[("items", 0), ("args", 0)]));
    assert_eq!(m.raw_command, "");
}

#[test]
fn enter_command_without_a_node_does_nothing() {
    let mut m = Model::create(sample_file());
    assert!(matches!(m.update(Msg::EnterCommand), Effect::Done));
    m.receive_commands(Pick::First, vec![candidate(None, &["num"], None)]);
    assert!(matches!(m.update(Msg::EnterCommand), Effect::Done));
    assert_eq!(m.file.log.len(), 3);
}

#[test]
fn replace_current_node_writes_under_the_current_reference() {
    let mut m = Model::create(sample_file());
    m.cursor = path(&[("items", 1)]);
    let e = m.update(Msg::ReplaceCurrentNode(node("num", "8", vec![])));
    assert!(matches!(e, Effect::NeedCommands(Pick::First)));
    assert_eq!(m.lookup(&"-".to_string()).unwrap().value, "8");
}

#[test]
fn highlight_splits_off_the_typed_prefix() {
    let c = candidate(Some("hello"), &[], None);
    assert_eq!(c.highlight(&"he".to_string()), ("he".to_string(), "llo".to_string()));
    assert_eq!(c.highlight(&"x".to_string()), ("".to_string(), "hello".to_string()));
    let none = candidate(None, &[], None);
    assert_eq!(none.highlight(&"".to_string()), ("".to_string(), "".to_string()));
}

#[test]
fn accepts_paths_checks_the_target_path() {
    let m = Model::create(sample_file());
    let bad = vec![path(&[("items", 0)]), path(&[("items", 1), ("x", 0)])];
    assert!(!m.accepts_paths(Move::Forward, &bad));
    assert!(m.accepts_paths(Move::AfterEnter, &bad));
    assert!(m.accepts_paths(Move::Back, &bad));
    assert!(m.accepts_paths(Move::Forward, &walk_order()));
}

#[test]
fn every_write_is_logged_in_order() {
    let mut m = Model::create(sample_file());
    m.update(Msg::AddItem);
    let added = m.current_ref().unwrap();
    assert_eq!(m.file.log.len(), 5);
    assert_eq!(m.file.log[3].0, added);
    assert_eq!(m.file.log[3].1.kind, "invalid");
    assert_eq!(m.file.log[4].0, "root");
    assert_eq!(
        m.file.log[4].1.children.get(&"items".to_string()),
        Some(&vec!["a".to_string(), added.clone(), "-".to_string()])
    );
    m.update(Msg::DeleteItem);
    assert_eq!(m.file.log.len(), 6);
    assert_eq!(m.file.log[5].0, "root");
    assert_eq!(m.file.root, "root");
}

#[test]
fn a_longer_path_takes_one_more_step() {
    let m = Model::create(sample_file());
    let root = "root".to_string();
    let p = path(&[("items", 0)]);
    let longer = linc::file::append(&p, Selector { field: "args".to_string(), index: 0 });
    let end = m.lookup_path(&root, p).unwrap();
    let step = m.lookup(&end).unwrap().children.get(&"args".to_string()).unwrap()[0].clone();
    assert_eq!(m.lookup_path(&root, longer), Some(step));
}

#[test]
fn side_arrows_move_between_nodes_while_the_command_line_is_empty() {
    let mut m = Model::create(sample_file());
    assert!(matches!(linc::model::key_move("ArrowRight"), Some(Move::Forward)));
    assert!(matches!(linc::model::key_move("ArrowLeft"), Some(Move::Back)));
    assert!(linc::model::key_move("ArrowUp").is_none());
    let e = m.update(Msg::CommandKey("ArrowRight".to_string()));
    assert!(matches!(e, Effect::NeedPaths(Move::Forward)));
    m.receive_paths(Move::Forward, &walk_order());
    assert_eq!(m.current_ref(), Some("b".to_string()));
    assert_eq!(m.raw_command, "1");
    let e = m.update(Msg::CommandKey("ArrowLeft".to_string()));
    assert!(matches!(e, Effect::Done));
    m.raw_command = String::new();
    let e = m.update(Msg::CommandKey("ArrowLeft".to_string()));
    assert!(matches!(e, Effect::NeedPaths(Move::Back)));
    m.receive_paths(Move::Back, &walk_order());
    assert_eq!(m.current_ref(), Some("a".to_string()));
}

#[test]
fn set_node_wraps_a_node_the_editor_made_earlier() {
    let mut m = Model::create(sample_file());
    m.cursor = path(&[("items", 1)]);
    m.replace_node(node("num", "5", vec![]));
    let made = m.current_ref().unwrap();
    let log_before = m.file.log.len();
    m.set_node(node("neg", "-", vec![]), Some("inner".to_string()));
    let wrapper_ref = m.current_ref().unwrap();
    assert_ne!(wrapper_ref, made);
    let wrapper = m.lookup(&wrapper_ref).unwrap();
    assert_eq!(wrapper.children.get(&"inner".to_string()), Some(&vec![made.clone()]));
    assert_eq!(m.lookup(&made).unwrap().value, "5");
    assert_eq!(m.file.log.len(), log_before + 2);
    assert_eq!(m.file.log[log_before].0, wrapper_ref);
}

#[test]
fn add_item_writes_under_a_reference_that_already_names_a_node() {
    let mut m = Model::create(sample_file());
    m.add_item("b".to_string());
    assert_eq!(m.lookup(&"b".to_string()).unwrap().kind, "invalid");
    assert_eq!(children_of(&m, "root", "items"), vec!["a".to_string(), "b".to_string(), "-".to_string()]);
    assert_eq!(m.cursor, path(&[("items", 1)]));
}

#[test]
fn add_item_under_the_parent_reference_stops_after_the_first_write() {
    let mut m = Model::create(sample_file());
    m.add_item("root".to_string());
    assert_eq!(m.lookup(&"root".to_string()).unwrap().kind, "invalid");
    assert_eq!(m.file.log.len(), 4);
    assert_eq!(m.cursor, path(&[("items", 0)]));
}

#[test]
fn place_node_writes_under_a_reference_that_already_names_a_node() {
    let mut m = Model::create(sample_file());
    m.cursor = path(&[("items", 1)]);
    m.place_node("b".to_string(), node("num", "6", vec![]));
    assert_eq!(m.lookup(&"b".to_string()).unwrap().value, "6");
    assert_eq!(children_of(&m, "root", "items"), vec!["a".to_string(), "b".to_string()]);
    assert_eq!(m.current_ref(), Some("b".to_string()));
}
