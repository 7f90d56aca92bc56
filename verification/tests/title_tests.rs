use tmux_renamer::title::window_title;

fn strings(v: &[&str]) -> Vec<String> {
    v.iter().map(|s| s.to_string()).collect()
}

fn tokens(s: &str) -> Vec<String> {
    if s.is_empty() {
        Vec::new()
    } else {
        s.split(", ").map(|t| t.to_string()).collect()
    }
}

#[test]
fn dedupes_equal_titles_with_count() {
    let out = window_title(&strings(&["x", "x", "y"]));
    let mut toks = tokens(&out);
    toks.sort();
    assert_eq!(toks, vec!["x x 2".to_string(), "y".to_string()]);
}

#[test]
fn is_deterministic() {
    let a = window_title(&strings(&["x", "x", "y"]));
    let b = window_title(&strings(&["x", "x", "y"]));
    assert_eq!(a, b);
}

#[test]
fn skips_empty_titles() {
    assert_eq!(window_title(&strings(&["", "x", ""])), "x");
    assert_eq!(window_title(&strings(&["", ""])), "");
}

#[test]
fn empty_input_gives_empty_title() {
    assert_eq!(window_title(&Vec::new()), "");
}

#[test]
fn single_titles_appear_verbatim() {
    let out = window_title(&strings(&["alice@titan", "bob@titan"]));
    let mut toks = tokens(&out);
    toks.sort();
    assert_eq!(toks, vec!["alice@titan".to_string(), "bob@titan".to_string()]);
}

#[test]
fn counts_groups_of_three() {
    let out = window_title(&strings(&["sh", "sh", "sh"]));
    assert_eq!(out, "sh x 3");
}

#[test]
fn keeps_first_occurrence_order() {
    assert_eq!(window_title(&strings(&["b", "a", "b"])), "b x 2, a");
}
