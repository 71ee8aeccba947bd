use indexmap::IndexMap;
use workstyle::config::{Config, Other};
use workstyle::label::pretty_windows;
use workstyle::snapshot::{windows_by_workspace, Client, WorkspaceInfo};
use workstyle::tree::{Node, NodeType, TreeError};
use workstyle::window::Window;

fn node(node_type: NodeType, name: Option<&str>, nodes: Vec<Node>, floating: Vec<Node>) -> Node {
    Node {
        node_type,
        name: name.map(|s| s.to_string()),
        app_id: None,
        window_class: None,
        nodes,
        floating_nodes: floating,
    }
}

fn con(class: &str) -> Node {
    Node {
        node_type: NodeType::Con,
        name: None,
        app_id: None,
        window_class: Some(class.to_string()),
        nodes: Vec::new(),
        floating_nodes: Vec::new(),
    }
}

fn workspace(name: &str, nodes: Vec<Node>, floating: Vec<Node>) -> Node {
    node(NodeType::Workspace, Some(name), nodes, floating)
}

fn root(workspaces: Vec<Node>) -> Node {
    node(NodeType::Root, Some("root"), vec![node(NodeType::Output, Some("eDP-1"), workspaces, Vec::new())], Vec::new())
}

fn classes(ws: &[Window]) -> Vec<String> {
    ws.iter().map(|w| w.window_properties_class.clone().unwrap_or_default()).collect()
}

fn find<'a>(ws: &'a [(String, Vec<Window>)], name: &str) -> Option<&'a Vec<Window>> {
    ws.iter().find(|(n, _)| n == name).map(|(_, w)| w)
}

#[test]
fn tree_label_follows_document_order() {
    let tree = root(vec![workspace(
        "1",
        vec![con("firefox"), node(NodeType::Con, None, vec![con("chromium")], Vec::new())],
        vec![con("foot")],
    )]);
    let ws = tree.workspaces_in_node().unwrap();
    assert_eq!(ws.len(), 1);
    let windows = find(&ws, "1").unwrap();
    assert_eq!(classes(windows), vec!["firefox", "chromium", "foot"]);
    let mut mappings = IndexMap::new();
    for (p, i) in [("firefox", "F"), ("chromium", "C"), ("foot", "T")] {
        mappings.insert(p.to_string(), i.to_string());
    }
    let c = Config { mappings, other: Other::default() };
    assert_eq!(pretty_windows(&c, windows), "F C T ");
}

#[test]
fn tree_windows_below_come_before_their_container() {
    let mut parent = con("outer");
    parent.nodes = vec![con("inner")];
    let tree = root(vec![workspace("1", vec![parent], Vec::new())]);
    let ws = tree.workspaces_in_node().unwrap();
    assert_eq!(classes(find(&ws, "1").unwrap()), vec!["inner", "outer"]);
}

#[test]
fn scratchpad_is_never_listed() {
    let tree = root(vec![
        workspace("__i3_scratch", vec![con("foot")], Vec::new()),
        workspace("1: x", vec![con("firefox")], Vec::new()),
    ]);
    let ws = tree.workspaces_in_node().unwrap();
    assert_eq!(ws.len(), 1);
    assert!(find(&ws, "__i3_scratch").is_none());
    assert_eq!(classes(find(&ws, "1: x").unwrap()), vec!["firefox"]);
}

#[test]
fn unnamed_workspace_fails_whole_extraction() {
    let tree = root(vec![
        workspace("1", vec![con("firefox")], Vec::new()),
        node(NodeType::Workspace, None, Vec::new(), Vec::new()),
    ]);
    assert_eq!(tree.workspaces_in_node().unwrap_err(), TreeError::UnnamedWorkspace);
}

#[test]
fn empty_workspace_and_anonymous_windows() {
    let anonymous = node(NodeType::Con, None, Vec::new(), Vec::new());
    let tree = root(vec![workspace("1", vec![anonymous], Vec::new()), workspace("2", Vec::new(), Vec::new())]);
    let ws = tree.workspaces_in_node().unwrap();
    assert_eq!(ws.len(), 2);
    assert!(find(&ws, "1").unwrap().is_empty());
    assert!(find(&ws, "2").unwrap().is_empty());
}

#[test]
fn later_workspace_of_same_name_replaces_earlier() {
    let tree = root(vec![
        workspace("1", vec![con("firefox")], Vec::new()),
        workspace("1", vec![con("foot")], Vec::new()),
    ]);
    let ws = tree.workspaces_in_node().unwrap();
    assert_eq!(ws.len(), 1);
    assert_eq!(classes(find(&ws, "1").unwrap()), vec!["foot"]);
}

#[test]
fn window_from_node_needs_container_and_identity() {
    assert!(Window::from_node(&con("foot")).is_some());
    assert!(Window::from_node(&workspace("1", Vec::new(), Vec::new())).is_none());
    assert!(Window::from_node(&node(NodeType::FloatingCon, None, Vec::new(), Vec::new())).is_none());
    let w = Window::from_node(&node(NodeType::FloatingCon, Some("title"), Vec::new(), Vec::new())).unwrap();
    assert_eq!(w.name.as_deref(), Some("title"));
    assert!(con("x").is_window());
    assert!(!workspace("1", Vec::new(), Vec::new()).is_window());
    assert!(workspace("1", Vec::new(), Vec::new()).is_workspace());
    assert!(!workspace("__i3_scratch", Vec::new(), Vec::new()).is_workspace());
}

fn client(workspace_id: i32, x: i32, y: i32, title: &str, class: &str) -> Client {
    Client { workspace_id, x, y, title: title.to_string(), class: class.to_string() }
}

#[test]
fn snapshot_orders_by_row_then_column() {
    let clients = vec![
        client(1, 500, 0, "right", "b"),
        client(1, 0, 300, "below", "c"),
        client(1, 0, 0, "left", "a"),
        client(2, 0, 0, "other", "d"),
    ];
    let ws = windows_by_workspace(&clients, &Vec::new());
    assert_eq!(ws.len(), 2);
    assert_eq!(classes(find(&ws, "1").unwrap()), vec!["a", "b", "c"]);
    assert_eq!(classes(find(&ws, "2").unwrap()), vec!["d"]);
}

#[test]
fn snapshot_same_position_keeps_client_order() {
    let clients = vec![client(3, 10, 10, "first", "x"), client(3, 10, 10, "second", "y")];
    let ws = windows_by_workspace(&clients, &Vec::new());
    assert_eq!(classes(find(&ws, "3").unwrap()), vec!["x", "y"]);
}

#[test]
fn snapshot_lists_empty_workspaces() {
    let clients = vec![client(1, 0, 0, "t", "a")];
    let infos = vec![WorkspaceInfo { id: 1, windows: 1 }, WorkspaceInfo { id: 4, windows: 0 }, WorkspaceInfo { id: -98, windows: 0 }];
    let ws = windows_by_workspace(&clients, &infos);
    assert_eq!(ws.len(), 3);
    assert!(find(&ws, "4").unwrap().is_empty());
    assert!(find(&ws, "-98").unwrap().is_empty());
    assert_eq!(classes(find(&ws, "1").unwrap()), vec!["a"]);
}

#[test]
fn snapshot_drops_clients_without_identity() {
    let clients = vec![client(5, 0, 0, "", ""), client(5, 1, 0, "", "kept"), client(6, 0, 0, "", "")];
    let ws = windows_by_workspace(&clients, &Vec::new());
    assert_eq!(ws.len(), 2);
    assert_eq!(classes(find(&ws, "5").unwrap()), vec!["kept"]);
    assert!(find(&ws, "6").unwrap().is_empty());
}

#[test]
fn snapshot_client_fields() {
    let ws = windows_by_workspace(&vec![client(12, 0, 0, "Title", "")], &Vec::new());
    let w = &find(&ws, "12").unwrap()[0];
    assert_eq!(w.name.as_deref(), Some("Title"));
    assert_eq!(w.app_id, None);
    assert_eq!(w.window_properties_class, None);
}

#[test]
fn snapshot_reported_empty_keeps_clients() {
    let clients = vec![client(1, 0, 0, "t", "a")];
    let ws = windows_by_workspace(&clients, &vec![WorkspaceInfo { id: 1, windows: 0 }]);
    assert_eq!(ws.len(), 1);
    assert_eq!(classes(find(&ws, "1").unwrap()), vec!["a"]);
}

#[test]
fn empty_text_is_no_identity_in_tree() {
    let blank = node(NodeType::Con, Some(""), Vec::new(), Vec::new());
    assert!(Window::from_node(&blank).is_none());
    let mut blank_class = con("");
    blank_class.app_id = Some(String::new());
    assert!(Window::from_node(&blank_class).is_none());
    let mut named = con("");
    named.name = Some("x".to_string());
    let w = Window::from_node(&named).unwrap();
    assert_eq!(w.window_properties_class.as_deref(), Some(""));
    let tree = root(vec![workspace("1", vec![blank, con("foot")], Vec::new())]);
    let ws = tree.workspaces_in_node().unwrap();
    assert_eq!(classes(find(&ws, "1").unwrap()), vec!["foot"]);
}

#[test]
fn snapshot_of_nothing_is_empty() {
    assert!(windows_by_workspace(&Vec::new(), &vec![WorkspaceInfo { id: 1, windows: 2 }]).is_empty());
}
