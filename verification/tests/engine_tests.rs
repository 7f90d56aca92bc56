use tmux_renamer::classify::Prompt;
use tmux_renamer::engine::{Engine, LineOutcome};
use tmux_renamer::tree::TreeError;

fn titan_engine(listing: &str) -> Engine {
    let prompts = vec![Prompt { name: "titan".to_string(), parameterized: true }];
    let mut engine = Engine::new(prompts);
    engine.refresh(listing);
    engine
}

fn tokens(s: &str) -> Vec<String> {
    if s.is_empty() {
        Vec::new()
    } else {
        s.split(", ").map(|t| t.to_string()).collect()
    }
}

#[test]
fn unmatched_line_mutates_nothing_and_renames_nothing() {
    let mut engine = titan_engine("$1@1%1");
    let before_titles: Vec<String> =
        engine.tree.panes.iter().map(|p| p.title.clone()).collect();
    let out = engine.process_line("just some shell output");
    assert!(matches!(out, LineOutcome::NoMatch));
    let after_titles: Vec<String> =
        engine.tree.panes.iter().map(|p| p.title.clone()).collect();
    assert_eq!(before_titles, after_titles);
}

#[test]
fn classified_line_renames_the_owning_window() {
    let mut engine = titan_engine("$1@1%1\n$1@1%2");
    let out = engine.process_line("%output %1 alice@titan:~$ ");
    match out {
        LineOutcome::Retitled(rename) => {
            assert_eq!(rename.window_id, 1);
            assert!(rename.title.contains("alice@titan"));
        }
        other => panic!("expected a rename, got {:?}", other),
    }
}

#[test]
fn two_users_both_appear_in_the_window_title() {
    let mut engine = titan_engine("$1@1%1\n$1@1%2");
    engine.process_line("%output %1 alice@titan:~$ ");
    let out = engine.process_line("%output %2 bob@titan:~$ ");
    match out {
        LineOutcome::Retitled(rename) => {
            assert_eq!(rename.window_id, 1);
            let toks = tokens(&rename.title);
            assert!(toks.contains(&"alice@titan".to_string()), "title: {}", rename.title);
            assert!(toks.contains(&"bob@titan".to_string()), "title: {}", rename.title);
            assert_eq!(toks.len(), 2);
        }
        other => panic!("expected a rename, got {:?}", other),
    }
}

#[test]
fn line_for_vanished_pane_is_dropped() {
    let mut engine = titan_engine("$1@1%1");
    let out = engine.process_line("%output %9 alice@titan:~$ ");
    assert!(matches!(out, LineOutcome::UnknownPane(9)));
}

#[test]
fn remove_pane_unknown_fails_and_changes_nothing() {
    let mut engine = titan_engine("$1@1%1");
    let r = engine.remove_pane(9);
    assert!(matches!(r, Err(TreeError::UnknownPane)));
    assert_eq!(engine.tree.panes.len(), 1);
}

#[test]
fn remove_pane_renames_the_former_window() {
    let mut engine = titan_engine("$1@1%1\n$1@1%2");
    engine.process_line("%output %1 alice@titan:~$ ");
    engine.process_line("%output %2 bob@titan:~$ ");
    let rename = engine.remove_pane(1).expect("pane known");
    assert_eq!(rename.window_id, 1);
    assert_eq!(rename.title, "bob@titan");
}

#[test]
fn refresh_then_process_line_still_updates_persisting_pane() {
    let mut engine = titan_engine("$1@1%1\n$1@1%2");
    engine.process_line("%output %1 alice@titan:~$ ");
    engine.refresh("$1@1%1\n$1@1%2");
    let out = engine.process_line("%output %2 bob@titan:~$ ");
    match out {
        LineOutcome::Retitled(rename) => {
            let toks = tokens(&rename.title);
            assert!(toks.contains(&"alice@titan".to_string()), "title: {}", rename.title);
            assert!(toks.contains(&"bob@titan".to_string()), "title: {}", rename.title);
        }
        other => panic!("expected a rename, got {:?}", other),
    }
}

#[test]
fn repeated_session_creation_spawns_one_reader() {
    let mut engine = titan_engine("$1@1%1");
    assert!(engine.ensure_reader(7));
    assert!(!engine.ensure_reader(7));
    assert_eq!(engine.attached, vec![7]);
}

#[test]
fn reader_can_reattach_after_it_ends() {
    let mut engine = titan_engine("$1@1%1");
    assert!(engine.ensure_reader(7));
    engine.reader_gone(7);
    assert!(engine.ensure_reader(7));
    assert_eq!(engine.attached, vec![7]);
}
