use tmux_renamer::topology::{parse_topology_line, scan_topology};

#[test]
fn parses_well_formed_line() {
    assert_eq!(parse_topology_line("$1@2%3"), Some((1, 2, 3)));
    assert_eq!(parse_topology_line("$12@34%56"), Some((12, 34, 56)));
    assert_eq!(parse_topology_line("$1@2%3   "), Some((1, 2, 3)));
    assert_eq!(parse_topology_line("$1@2%3\r"), Some((1, 2, 3)));
}

#[test]
fn rejects_malformed_lines() {
    assert_eq!(parse_topology_line(""), None);
    assert_eq!(parse_topology_line("garbage"), None);
    assert_eq!(parse_topology_line("$@2%3"), None);
    assert_eq!(parse_topology_line("$1@%3"), None);
    assert_eq!(parse_topology_line("$1@2%"), None);
    assert_eq!(parse_topology_line("$1@2%3 trailing"), None);
    assert_eq!(parse_topology_line(" $1@2%3"), None);
    assert_eq!(parse_topology_line("1@2%3"), None);
}

#[test]
fn rejects_identifier_too_large() {
    assert_eq!(parse_topology_line("$4294967295@1%1"), Some((4294967295, 1, 1)));
    assert_eq!(parse_topology_line("$4294967296@1%1"), None);
    assert_eq!(parse_topology_line("$1@1%99999999999999999999"), None);
}

#[test]
fn scan_skips_malformed_lines() {
    let entries = scan_topology("$1@1%1\n$1@1%2\ngarbage\n");
    assert_eq!(entries, vec![(1, 1, 1), (1, 1, 2)]);
}

#[test]
fn scan_of_empty_output_is_empty() {
    assert_eq!(scan_topology(""), Vec::<(u32, u32, u32)>::new());
    assert_eq!(scan_topology("\n\n"), Vec::<(u32, u32, u32)>::new());
}

#[test]
fn scan_keeps_listing_order() {
    let entries = scan_topology("$2@7%9\n$1@3%4\n$1@3%5");
    assert_eq!(entries, vec![(2, 7, 9), (1, 3, 4), (1, 3, 5)]);
}
