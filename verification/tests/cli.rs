use meshguard::cli::{parse_command, parse_opts, Command};

fn args(items: &[&str]) -> Vec<String> {
    items.iter().map(|s| s.to_string()).collect()
}

#[test]
fn options_default_to_meshguard0_and_1280() {
    let o = parse_opts(&args(&[])).unwrap();
    assert_eq!(o.iface, "meshguard0");
    assert_eq!(o.mtu, 1280);
}

#[test]
fn options_are_read_and_later_ones_win() {
    let o = parse_opts(&args(&["--mtu", "1400", "--iface", "wg7", "--mtu", "1000"])).unwrap();
    assert_eq!(o.iface, "wg7");
    assert_eq!(o.mtu, 1000);
}

#[test]
fn bad_options_are_usage_errors() {
    assert!(parse_opts(&args(&["--iface"])).is_none());
    assert!(parse_opts(&args(&["--mtu", "big"])).is_none());
    assert!(parse_opts(&args(&["--mtu", "70000"])).is_none());
    assert!(parse_opts(&args(&["--verbose"])).is_none());
}

#[test]
fn commands_are_recognised() {
    assert!(matches!(parse_command(&args(&["id"])), Some(Command::Id)));
    assert!(matches!(parse_command(&args(&["selftest"])), Some(Command::Selftest)));
    match parse_command(&args(&["connect", "abc", "--mtu", "1300"])) {
        Some(Command::Connect { node_id, opts }) => {
            assert_eq!(node_id, "abc");
            assert_eq!(opts.iface, "meshguard0");
            assert_eq!(opts.mtu, 1300);
        }
        other => panic!("unexpected {other:?}"),
    }
    match parse_command(&args(&["serve", "--iface", "x"])) {
        Some(Command::Serve { opts }) => assert_eq!((opts.iface.as_str(), opts.mtu), ("x", 1280)),
        other => panic!("unexpected {other:?}"),
    }
}

#[test]
fn unknown_or_incomplete_commands_are_usage_errors() {
    assert!(parse_command(&args(&[])).is_none());
    assert!(parse_command(&args(&["frobnicate"])).is_none());
    assert!(parse_command(&args(&["connect"])).is_none());
    assert!(parse_command(&args(&["serve", "--mtu"])).is_none());
}
