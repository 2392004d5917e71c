use ledit::tree::{Entry, Node, Nodes, RowStyle};
use ledit::util::NodeType;
use std::cmp::Ordering;

fn node(name: &str, id: u128, layer: u32, kind: NodeType, expanded: Option<bool>, children: Option<Vec<Node>>) -> Node {
    Node {
        display_name: name.to_string(),
        value: format!("/ws/{}", name),
        children,
        expanded,
        id,
        layer,
        node_type: kind,
    }
}

fn file(name: &str, id: u128, layer: u32) -> Node {
    node(name, id, layer, NodeType::File, None, None)
}

fn sample() -> Nodes {
    let inner = node("inner", 4, 1, NodeType::Directory, Some(false), Some(vec![file("deep.txt", 5, 2)]));
    let src = node("src", 1, 0, NodeType::Directory, Some(true), Some(vec![inner, file("main.rs", 2, 1)]));
    Nodes::new(vec![src, file("README", 3, 0)])
}

fn texts(nodes: &Nodes) -> Vec<String> {
    nodes.flatten().into_iter().map(|r| r.text).collect()
}

fn entry_file(name: &str) -> Entry {
    Entry { name: name.to_string(), path: format!("/w/{}", name), children: None }
}

fn entry_dir(name: &str, children: Vec<Entry>) -> Entry {
    Entry { name: name.to_string(), path: format!("/w/{}", name), children: Some(children) }
}

#[test]
fn toggle_twice_restores_expand_state() {
    let mut t = sample();
    t.toggle_expand(4);
    assert_eq!(t.find_by_id(4).unwrap().expanded, Some(true));
    t.toggle_expand(4);
    assert_eq!(t.find_by_id(4).unwrap().expanded, Some(false));
    t.toggle_expand(1);
    t.toggle_expand(1);
    assert_eq!(t.find_by_id(1).unwrap().expanded, Some(true));
}

#[test]
fn toggle_leaf_or_unknown_id_changes_nothing() {
    let mut t = sample();
    let before = texts(&t);
    t.toggle_expand(2);
    assert_eq!(t.find_by_id(2).unwrap().expanded, None);
    t.toggle_expand(99);
    assert_eq!(texts(&t), before);
}

#[test]
fn find_by_id_searches_depth_first() {
    let t = sample();
    assert_eq!(t.find_by_id(5).unwrap().display_name, "deep.txt");
    assert_eq!(t.find_by_id(3).unwrap().display_name, "README");
    assert!(t.find_by_id(42).is_none());
}

#[test]
fn flatten_is_deterministic() {
    let t = sample();
    let a = t.flatten();
    let b = t.flatten();
    assert_eq!(a.len(), b.len());
    for (x, y) in a.iter().zip(b.iter()) {
        assert_eq!(x.id, y.id);
        assert_eq!(x.text, y.text);
        assert_eq!(x.style, y.style);
    }
}

#[test]
fn flatten_rows_and_prefixes() {
    let t = sample();
    let rows = t.flatten();
    let ids: Vec<u128> = rows.iter().map(|r| r.id).collect();
    assert_eq!(ids, vec![1, 4, 2, 3]);
    assert_eq!(
        texts(&t),
        vec![
            "\u{25bc} src".to_string(),
            "   \u{25b6} inner".to_string(),
            "   main.rs".to_string(),
            "README".to_string(),
        ]
    );
    assert_eq!(rows[0].style, RowStyle::Directory);
    assert_eq!(rows[2].style, RowStyle::File);
}

#[test]
fn row_count_follows_expanded_ancestors() {
    let mut t = sample();
    assert_eq!(t.flatten().len(), 4);
    t.toggle_expand(4);
    assert_eq!(t.flatten().len(), 5);
    assert_eq!(texts(&t)[2], "      deep.txt");
    t.toggle_expand(1);
    assert_eq!(t.flatten().len(), 2);
}

#[test]
fn hidden_entries_are_muted() {
    let t = Nodes::new(vec![file(".env", 1, 0), node(".git", 2, 0, NodeType::Directory, Some(false), Some(vec![]))]);
    let rows = t.flatten();
    assert_eq!(rows[0].style, RowStyle::Muted);
    assert_eq!(rows[1].style, RowStyle::Muted);
    assert_eq!(rows[1].text, "\u{25b6} .git");
}

#[test]
fn empty_workspace_is_one_info_row() {
    let t = Nodes::empty_workspace();
    assert_eq!(t.nodes.len(), 1);
    assert_eq!(t.nodes[0].display_name, "Empty workspace");
    assert_eq!(t.nodes[0].node_type, NodeType::Info);
    assert!(t.nodes[0].children.is_none());
    let rows = t.flatten();
    assert_eq!(rows.len(), 1);
    assert_eq!(rows[0].text, "Empty workspace");
    assert_eq!(rows[0].style, RowStyle::Muted);
}

#[test]
fn build_puts_directories_before_files_at_every_level() {
    let listing = vec![
        entry_file("b.txt"),
        entry_dir("zeta", vec![entry_file("y"), entry_dir("x", vec![]), entry_file("a")]),
        entry_file("a.txt"),
        entry_dir("alpha", vec![]),
    ];
    let t = Nodes::build(&listing);
    let names: Vec<&str> = t.nodes.iter().map(|n| n.display_name.as_str()).collect();
    assert_eq!(names, vec!["alpha", "zeta", "a.txt", "b.txt"]);
    let zeta = &t.nodes[1];
    assert_eq!(zeta.node_type, NodeType::Directory);
    assert_eq!(zeta.expanded, Some(false));
    assert_eq!(zeta.value, "/w/zeta");
    let kids: Vec<&str> = zeta.children.as_ref().unwrap().iter().map(|n| n.display_name.as_str()).collect();
    assert_eq!(kids, vec!["x", "a", "y"]);
    assert_eq!(zeta.children.as_ref().unwrap()[0].layer, 1);
    assert_eq!(t.nodes[2].node_type, NodeType::File);
    assert_eq!(t.nodes[2].expanded, None);
    assert!(t.nodes[2].children.is_none());
}

#[test]
fn build_gives_each_node_its_own_id() {
    let listing = vec![entry_file("a"), entry_file("b"), entry_dir("c", vec![entry_file("d")])];
    let t = Nodes::build(&listing);
    assert_eq!(t.nodes[0].display_name, "c");
    let mut ids = vec![t.nodes[0].id, t.nodes[1].id, t.nodes[2].id, t.nodes[0].children.as_ref().unwrap()[0].id];
    ids.sort();
    ids.dedup();
    assert_eq!(ids.len(), 4);
}

#[test]
fn build_of_empty_listing_is_empty() {
    let t = Nodes::build(&vec![]);
    assert!(t.nodes.is_empty());
    assert!(t.flatten().is_empty());
}

#[test]
fn ordering_comparator() {
    let dir = node("b", 1, 0, NodeType::Directory, Some(false), Some(vec![]));
    let f = file("a", 2, 0);
    let info = node("a", 3, 0, NodeType::Info, None, None);
    assert_eq!(dir.cmp(&f), Ordering::Less);
    assert_eq!(f.cmp(&dir), Ordering::Greater);
    assert_eq!(info.cmp(&dir), Ordering::Greater);
    assert_eq!(f.cmp(&info), Ordering::Less);
    assert_eq!(file("abc", 4, 0).cmp(&file("abd", 5, 0)), Ordering::Less);
    assert_eq!(file("ab", 4, 0).cmp(&file("abc", 5, 0)), Ordering::Less);
    assert_eq!(file("same", 4, 0).cmp(&file("same", 5, 0)), Ordering::Equal);
    assert_eq!(file("B", 4, 0).cmp(&file("a", 5, 0)), Ordering::Less);
}

#[test]
fn node_new_draws_fresh_ids() {
    let a = Node::new("a".to_string(), "/a".to_string(), None, None, 0, NodeType::File);
    let b = Node::new("a".to_string(), "/a".to_string(), None, None, 0, NodeType::File);
    assert_ne!(a.id, b.id);
    assert_eq!(a.display_name, "a");
}

#[test]
fn rebuild_avoids_the_old_ids() {
    let old = sample();
    let listing = vec![entry_file("x"), entry_dir("y", vec![entry_file("z")])];
    let t = old.rebuild(&listing);
    let ids = vec![t.nodes[0].id, t.nodes[1].id, t.nodes[0].children.as_ref().unwrap()[0].id];
    for id in ids.iter() {
        assert!(![1u128, 2, 3, 4, 5].contains(id));
    }
    let e = old.rebuild_empty();
    assert_eq!(e.nodes.len(), 1);
    assert!(![1u128, 2, 3, 4, 5].contains(&e.nodes[0].id));
}
