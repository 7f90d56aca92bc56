use tmux_renamer::notify::{parse_notification, Notification};

#[test]
fn layout_change_asks_for_refresh() {
    assert_eq!(parse_notification("layout changed"), Notification::Refresh);
    assert_eq!(parse_notification("  layout   changed window 3"), Notification::Refresh);
    assert_eq!(parse_notification("layout changed\n"), Notification::Refresh);
}

#[test]
fn session_created_asks_for_attach() {
    assert_eq!(parse_notification("session created $7"), Notification::AttachTo(7));
    assert_eq!(parse_notification("  session  created  $12  "), Notification::AttachTo(12));
}

#[test]
fn session_created_is_anchored() {
    assert_eq!(parse_notification("session created $7 extra"), Notification::Ignore);
    assert_eq!(parse_notification("session created 7"), Notification::Ignore);
    assert_eq!(parse_notification("session created $"), Notification::Ignore);
}

#[test]
fn remove_pane_names_the_pane() {
    assert_eq!(parse_notification("remove pane %3"), Notification::RemovePane(3));
    assert_eq!(parse_notification("remove pane 3"), Notification::RemovePane(3));
    assert_eq!(parse_notification(" remove  pane  %41 tail"), Notification::RemovePane(41));
}

#[test]
fn unrecognized_lines_are_ignored() {
    assert_eq!(parse_notification(""), Notification::Ignore);
    assert_eq!(parse_notification("pane removed %3"), Notification::Ignore);
    assert_eq!(parse_notification("sessioncreated $7"), Notification::Ignore);
    assert_eq!(parse_notification("remove pane %"), Notification::Ignore);
}

#[test]
fn identifier_too_large_is_ignored() {
    assert_eq!(parse_notification("session created $4294967296"), Notification::Ignore);
    assert_eq!(parse_notification("remove pane %4294967296"), Notification::Ignore);
}

#[test]
fn layout_change_wins_over_other_patterns() {
    assert_eq!(parse_notification("layout changed remove pane %3"), Notification::Refresh);
}
