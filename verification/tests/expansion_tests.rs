use walrus::addr::Expansion;

fn collect(line: &str, quick: bool) -> Vec<String> {
    let mut e = Expansion::expand(line, quick);
    let mut out = Vec::new();
    while let Some(t) = e.next_target() {
        out.push(t);
    }
    out
}

#[test]
fn single_address_expands_to_itself() {
    assert_eq!(collect("1.1.1.1", false), vec!["1.1.1.1".to_string()]);
}

#[test]
fn single_address_quick_expands_to_itself() {
    assert_eq!(collect("1.1.1.1", true), vec!["1.1.1.1".to_string()]);
}

#[test]
fn full_mode_expands_whole_block_ascending() {
    assert_eq!(
        collect("8.8.8.0/30", false),
        vec![
            "8.8.8.0".to_string(),
            "8.8.8.1".to_string(),
            "8.8.8.2".to_string(),
            "8.8.8.3".to_string(),
        ]
    );
}

#[test]
fn full_mode_count_is_two_to_the_free_bits() {
    assert_eq!(collect("10.0.0.0/24", false).len(), 256);
}

#[test]
fn full_mode_starts_at_network_address() {
    // The base's host bits are cleared before the walk.
    assert_eq!(
        collect("8.8.8.1/30", false),
        vec![
            "8.8.8.0".to_string(),
            "8.8.8.1".to_string(),
            "8.8.8.2".to_string(),
            "8.8.8.3".to_string(),
        ]
    );
}

#[test]
fn full_mode_includes_network_and_broadcast() {
    let targets = collect("192.168.1.0/31", false);
    assert_eq!(
        targets,
        vec!["192.168.1.0".to_string(), "192.168.1.1".to_string()]
    );
}

#[test]
fn quick_mode_yields_block_first_address() {
    assert_eq!(collect("8.8.8.0/30", true), vec!["8.8.8.0".to_string()]);
    // Host bits are cleared: the block's first address, not the base as
    // written.
    assert_eq!(collect("8.8.8.1/30", true), vec!["8.8.8.0".to_string()]);
}

#[test]
fn unparseable_line_degrades_to_literal() {
    assert_eq!(
        collect("not an address", false),
        vec!["not an address".to_string()]
    );
    assert_eq!(
        collect("not an address", true),
        vec!["not an address".to_string()]
    );
}

#[test]
fn empty_line_is_a_literal() {
    assert_eq!(collect("", false), vec!["".to_string()]);
}

#[test]
fn v6_block_expands_in_full_mode() {
    assert_eq!(
        collect("2001:db8::/126", false),
        vec![
            "2001:db8::".to_string(),
            "2001:db8::1".to_string(),
            "2001:db8::2".to_string(),
            "2001:db8::3".to_string(),
        ]
    );
}

#[test]
fn v6_quick_yields_block_first_address() {
    assert_eq!(
        collect("2001:db8::7/126", true),
        vec!["2001:db8::4".to_string()]
    );
}

#[test]
fn v6_single_address() {
    assert_eq!(collect("::1", false), vec!["::1".to_string()]);
    assert_eq!(collect("::", false), vec!["::".to_string()]);
}

#[test]
fn v6_hex_groups_are_lowercase_without_leading_zeroes() {
    assert_eq!(
        collect("ABCD:0000:0000:0000:0000:0000:00ff:0001", false),
        vec!["abcd::ff:1".to_string()]
    );
}

#[test]
fn v6_leftmost_longest_zero_run_is_elided() {
    assert_eq!(
        collect("1:0:0:2:0:0:0:3", false),
        vec!["1:0:0:2::3".to_string()]
    );
    assert_eq!(
        collect("1:0:0:2:0:0:3:4", false),
        vec!["1::2:0:0:3:4".to_string()]
    );
}

#[test]
fn v6_single_zero_group_is_not_elided() {
    assert_eq!(
        collect("1:0:2:3:4:5:6:7", false),
        vec!["1:0:2:3:4:5:6:7".to_string()]
    );
}

#[test]
fn v6_full_address_keeps_all_groups() {
    assert_eq!(
        collect("1:2:3:4:5:6:7:8", false),
        vec!["1:2:3:4:5:6:7:8".to_string()]
    );
}

#[test]
fn v4_mapped_address_keeps_its_dotted_tail() {
    assert_eq!(
        collect("::ffff:192.0.2.1", false),
        vec!["::ffff:192.0.2.1".to_string()]
    );
}

#[test]
fn rerunning_expansion_yields_the_same_targets() {
    let first = collect("8.8.8.0/29", false);
    let second = collect("8.8.8.0/29", false);
    assert_eq!(first, second);
}

#[test]
fn expansion_is_restartable() {
    let mut e = Expansion::expand("8.8.8.0/30", false);
    assert_eq!(e.next_target().as_deref(), Some("8.8.8.0"));
    let mut again = Expansion::expand("8.8.8.0/30", false);
    assert_eq!(again.next_target().as_deref(), Some("8.8.8.0"));
    assert_eq!(e.next_target().as_deref(), Some("8.8.8.1"));
}

#[test]
fn exhausted_expansion_stays_empty() {
    let mut e = Expansion::expand("1.2.3.4", false);
    assert_eq!(e.next_target().as_deref(), Some("1.2.3.4"));
    assert_eq!(e.next_target(), None);
    assert_eq!(e.next_target(), None);
}
