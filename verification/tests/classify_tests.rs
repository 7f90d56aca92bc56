use tmux_renamer::classify::{classify, Prompt};

fn titan() -> Prompt {
    Prompt { name: "titan".to_string(), parameterized: true }
}

#[test]
fn classifies_parameterized_prompt() {
    let prompts = vec![titan()];
    let got = classify(&prompts, "%output %1 alice@titan:~$ ");
    let (pane, title) = got.expect("line should classify");
    assert_eq!(pane, 1);
    assert_eq!(title, "alice@titan");
}

#[test]
fn classifies_plain_prompt_with_name_verbatim() {
    let prompts = vec![Prompt { name: "build".to_string(), parameterized: false }];
    let (pane, title) = classify(&prompts, "%output %3 bob@build:~$").expect("should classify");
    assert_eq!(pane, 3);
    assert_eq!(title, "build");
}

#[test]
fn unmatched_line_classifies_as_nothing() {
    let prompts = vec![titan()];
    assert!(classify(&prompts, "ls -la").is_none());
    assert!(classify(&prompts, "%output %1 alice@saturn:~$").is_none());
    assert!(classify(&prompts, "%output alice@titan:~$").is_none());
    assert!(classify(&prompts, "%output %1 alice@titan:~$ extra").is_none());
}

#[test]
fn first_matching_pattern_wins() {
    let prompts = vec![
        Prompt { name: "titan".to_string(), parameterized: false },
        Prompt { name: "titan".to_string(), parameterized: true },
    ];
    let (_, title) = classify(&prompts, "%output %2 alice@titan:~$").expect("should classify");
    assert_eq!(title, "titan");
}

#[test]
fn pane_identifier_too_large_matches_nothing() {
    let prompts = vec![titan()];
    assert!(classify(&prompts, "%output %4294967296 alice@titan:~$").is_none());
}

#[test]
fn user_name_may_hold_digits() {
    let prompts = vec![titan()];
    let (pane, title) = classify(&prompts, "%output %7 r2d2@titan:~$").expect("should classify");
    assert_eq!(pane, 7);
    assert_eq!(title, "r2d2@titan");
}
