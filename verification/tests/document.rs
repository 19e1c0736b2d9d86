use std::collections::VecDeque;

use linc::file::{append, clone_path, paths_equal, File, Node, Path, Selector};
use linc::strmap::StrMap;
use linc::text::{is_invalid_ref, new_ref, starts_with, text_eq, INVALID_REF};

fn node(kind: &str, value: &str, children: Vec<(&str, Vec<&str>)>) -> Node {
    let mut map = StrMap::new();
    for (field, refs) in children {
        map.insert(field.to_string(), refs.into_iter().map(|r| r.to_string()).collect());
    }
    Node { kind: kind.to_string(), value: value.to_string(), children: map }
}

fn path(steps: &[(&str, usize)]) -> Path {
    let mut p = VecDeque::new();
    for (field, index) in steps {
        p.push_back(Selector { field: field.to_string(), index: *index });
    }
    p
}

#[test]
fn new_ref_is_a_hyphenated_v4_uuid() {
    let r = new_ref();
    let chars: Vec<char> = r.chars().collect();
    assert_eq!(chars.len(), 36);
    for (i, c) in chars.iter().enumerate() {
        if i == 8 || i == 13 || i == 18 || i == 23 {
            assert_eq!(*c, '-');
        } else {
            assert!(c.is_ascii_hexdigit() && !c.is_ascii_uppercase());
        }
    }
    assert_eq!(chars[14], '4');
    assert!(matches!(chars[19], '8' | '9' | 'a' | 'b'));
    assert_ne!(r, INVALID_REF);
    assert_ne!(new_ref(), r);
}

#[test]
fn invalid_ref_is_recognised() {
    assert!(is_invalid_ref("-"));
    assert!(!is_invalid_ref("--"));
    assert!(!is_invalid_ref(""));
    assert!(!is_invalid_ref("a"));
}

#[test]
fn text_comparisons() {
    assert!(text_eq("abc", "abc"));
    assert!(!text_eq("abc", "abd"));
    assert!(!text_eq("abc", "ab"));
    assert!(starts_with("hello", "he"));
    assert!(starts_with("hello", ""));
    assert!(!starts_with("he", "hello"));
    assert!(!starts_with("hello", "hx"));
}

#[test]
fn append_adds_one_selector_at_the_end() {
    let p = path(&[("items", 0)]);
    let q = append(&p, Selector { field: "args".to_string(), index: 2 });
    assert_eq!(q.len(), 2);
    assert_eq!(q[0], Selector { field: "items".to_string(), index: 0 });
    assert_eq!(q[1], Selector { field: "args".to_string(), index: 2 });
    assert_eq!(p.len(), 1);
}

#[test]
fn paths_compare_by_selectors() {
    let p = path(&[("items", 0), ("args", 1)]);
    assert!(paths_equal(&p, &clone_path(&p)));
    assert!(!paths_equal(&p, &path(&[("items", 0), ("args", 2)])));
    assert!(!paths_equal(&p, &path(&[("items", 0)])));
    assert!(!paths_equal(&p, &path(&[("items", 0), ("argz", 1)])));
}

#[test]
fn string_map_keeps_one_entry_per_key_in_first_insertion_order() {
    let mut m: StrMap<Vec<String>> = StrMap::new();
    m.insert("b".to_string(), vec!["1".to_string()]);
    m.insert("a".to_string(), vec![]);
    m.insert("b".to_string(), vec!["2".to_string()]);
    assert_eq!(m.len(), 2);
    assert_eq!(m.get(&"b".to_string()), Some(&vec!["2".to_string()]));
    assert!(m.contains_key(&"a".to_string()));
    assert!(!m.contains_key(&"c".to_string()));
    assert_eq!(m.get(&"c".to_string()), None);
    let keys: Vec<&String> = m.entries().iter().map(|(k, _)| k).collect();
    assert_eq!(keys, vec!["b", "a"]);
}

#[test]
fn replace_node_stores_and_logs() {
    let mut file = File { nodes: StrMap::new(), root: "root".to_string(), log: Vec::new() };
    file.replace_node(&"x".to_string(), node("num", "1", vec![]));
    file.replace_node(&"x".to_string(), node("num", "2", vec![]));
    assert_eq!(file.lookup(&"x".to_string()).unwrap().value, "2");
    assert!(file.lookup(&"y".to_string()).is_none());
    assert_eq!(file.log.len(), 2);
    assert_eq!(file.log[0].0, "x");
    assert_eq!(file.log[0].1.value, "1");
    assert_eq!(file.log[1].1.value, "2");
    assert_eq!(file.nodes.len(), 1);
}

#[test]
fn add_node_uses_a_fresh_reference() {
    let mut file = File { nodes: StrMap::new(), root: "root".to_string(), log: Vec::new() };
    let r = file.add_node(node("num", "7", vec![]));
    assert_eq!(r.chars().count(), 36);
    assert_eq!(file.lookup(&r).unwrap().value, "7");
    assert_eq!(file.log.len(), 1);
    assert_eq!(file.log[0].0, r);
}

#[test]
fn duplicate_copies_a_node() {
    let n = node("list", "", vec![("items", vec!["a", "b"])]);
    let d = n.duplicate();
    assert_eq!(d.kind, "list");
    assert_eq!(d.children.get(&"items".to_string()), Some(&vec!["a".to_string(), "b".to_string()]));
}
