use tmux_renamer::topology::scan_topology;
use tmux_renamer::tree::{Tree, TreeError};

fn tree_from(listing: &str) -> Tree {
    let mut tree = Tree::new();
    let entries = scan_topology(listing);
    tree.rebuild(&entries);
    tree
}

#[test]
fn rebuild_holds_exactly_the_scanned_entities() {
    let tree = tree_from("$1@1%1\n$1@1%2\ngarbage\n");
    assert_eq!(tree.sessions, vec![1]);
    assert_eq!(tree.windows.len(), 1);
    assert_eq!(tree.windows[0].id, 1);
    assert_eq!(tree.windows[0].panes, vec![1, 2]);
    assert_eq!(tree.panes.len(), 2);
    assert_eq!(tree.panes[0].title, "");
    assert_eq!(tree.panes[1].title, "");
}

#[test]
fn rebuild_dedupes_sessions() {
    let tree = tree_from("$1@1%1\n$1@2%2\n$3@4%5");
    assert_eq!(tree.sessions, vec![1, 3]);
    assert_eq!(tree.windows.len(), 3);
}

#[test]
fn set_pane_title_unknown_pane_fails() {
    let mut tree = tree_from("$1@1%1");
    let r = tree.set_pane_title(9, "x".to_string());
    assert_eq!(r, Err(TreeError::UnknownPane));
}

#[test]
fn remove_pane_unknown_pane_fails_and_changes_nothing() {
    let mut tree = tree_from("$1@1%1\n$1@1%2");
    let r = tree.remove_pane(9);
    assert!(matches!(r, Err(TreeError::UnknownPane)));
    assert_eq!(tree.sessions, vec![1]);
    assert_eq!(tree.windows.len(), 1);
    assert_eq!(tree.windows[0].panes, vec![1, 2]);
    assert_eq!(tree.panes.len(), 2);
}

#[test]
fn remove_pane_keeps_sibling_order() {
    let mut tree = tree_from("$1@1%1\n$1@1%2\n$1@1%3");
    let r = tree.remove_pane(2);
    assert_eq!(r, Ok(1));
    assert_eq!(tree.windows[0].panes, vec![1, 3]);
    assert_eq!(tree.panes.len(), 2);
}

#[test]
fn window_of_finds_the_owner() {
    let tree = tree_from("$1@1%1\n$1@2%2");
    assert_eq!(tree.window_of(1), Ok(1));
    assert_eq!(tree.window_of(2), Ok(2));
    assert_eq!(tree.window_of(3), Err(TreeError::UnknownPane));
}

#[test]
fn rebuild_preserves_titles_of_persisting_panes() {
    let mut tree = tree_from("$1@1%1\n$1@1%2");
    tree.set_pane_title(1, "kept".to_string()).expect("pane known");
    let entries = scan_topology("$1@1%1\n$1@1%3");
    tree.rebuild(&entries);
    assert_eq!(tree.panes.len(), 2);
    assert_eq!(tree.panes[0].id, 1);
    assert_eq!(tree.panes[0].title, "kept");
    assert_eq!(tree.panes[1].id, 3);
    assert_eq!(tree.panes[1].title, "");
}

#[test]
fn pane_in_one_window_only() {
    let tree = tree_from("$1@1%1\n$1@2%1");
    assert_eq!(tree.windows.len(), 2);
    assert_eq!(tree.windows[0].panes, vec![1]);
    assert_eq!(tree.windows[1].panes, Vec::<u32>::new());
    assert_eq!(tree.panes.len(), 1);
}

#[test]
fn window_title_of_synthesizes_from_pane_titles() {
    let mut tree = tree_from("$1@1%1\n$1@1%2");
    tree.set_pane_title(1, "x".to_string()).expect("pane known");
    tree.set_pane_title(2, "x".to_string()).expect("pane known");
    assert_eq!(tree.window_title_of(1), Some("x x 2".to_string()));
    assert_eq!(tree.window_title_of(9), None);
}
