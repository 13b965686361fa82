use meshguard::addr::Ipv4Addr;
use meshguard::wg_config::{parse_enable_nat, parse_service, parse_services, WgConfig};

fn strings(items: &[&str]) -> Vec<String> {
    items.iter().map(|s| s.to_string()).collect()
}

#[test]
fn default_config_routes_everything_with_nat() {
    let c = WgConfig::default();
    assert_eq!(c.allowed_ips, strings(&["0.0.0.0/0"]));
    assert!(c.expose_services.is_empty());
    assert!(c.enable_nat);
    assert!(c.custom_iptables_rules.is_empty());
}

#[test]
fn unset_variables_keep_the_defaults() {
    let c = WgConfig::from_env(None, None, None, None);
    let d = WgConfig::default();
    assert_eq!(c.allowed_ips, d.allowed_ips);
    assert_eq!(c.expose_services, d.expose_services);
    assert_eq!(c.enable_nat, d.enable_nat);
    assert_eq!(c.custom_iptables_rules, d.custom_iptables_rules);
}

#[test]
fn allowed_ips_are_trimmed_and_empty_items_dropped() {
    let c = WgConfig::from_env(Some(" 10.0.0.0/8 , ,192.168.1.0/24,"), None, None, None);
    assert_eq!(c.allowed_ips, strings(&["10.0.0.0/8", "192.168.1.0/24"]));
    let c = WgConfig::from_env(Some(""), None, None, None);
    assert!(c.allowed_ips.is_empty());
}

#[test]
fn services_parse_and_malformed_ones_are_skipped() {
    let c = WgConfig::from_env(None, Some("8080:80, 2222:22 ,bad,1:2:3,70000:1,+5:06, 9: 9"), None, None);
    assert_eq!(c.expose_services, vec![(8080, 80), (2222, 22), (5, 6)]);
    assert_eq!(parse_service(" 443:8443 "), Some((443, 8443)));
    assert_eq!(parse_service("443 :8443"), None);
    assert_eq!(parse_service("-1:2"), None);
    assert_eq!(parse_service(":"), None);
    assert_eq!(parse_services(""), vec![]);
    assert_eq!(parse_services("65535:0"), vec![(65535, 0)]);
}

#[test]
fn nat_is_disabled_only_by_false_zero_or_no() {
    for off in ["false", "FALSE", " False ", "0", "no", "NO", "nO"] {
        assert!(!parse_enable_nat(off), "{off:?} should disable NAT");
    }
    for on in ["true", "1", "yes", "", "off", "nope", "f alse"] {
        assert!(parse_enable_nat(on), "{on:?} should keep NAT");
    }
    let c = WgConfig::from_env(None, None, Some("No"), None);
    assert!(!c.enable_nat);
}

#[test]
fn iptables_rules_split_on_semicolons() {
    let c = WgConfig::from_env(None, None, None, Some("-A FORWARD -j ACCEPT; ;  -t nat -L ;"));
    assert_eq!(c.custom_iptables_rules, strings(&["-A FORWARD -j ACCEPT", "-t nat -L"]));
}

#[test]
fn overlay_ip_default_is_ten_zero_zero_one() {
    let c = WgConfig::default();
    assert_eq!(c.get_overlay_ip().octets(), [10, 0, 0, 1]);
    assert_eq!(c.get_overlay_ip().to_text(), "10.0.0.1");
}

#[test]
fn commands_follow_the_configuration() {
    let c = WgConfig::from_env(None, Some("8080:80"), None, Some("-A  FORWARD\t-j ACCEPT;   "));
    let cmds = c.commands("mg0", Ipv4Addr::new(10, 20, 30, 40));
    let got: Vec<(String, Vec<String>)> =
        cmds.into_iter().map(|c| (c.program, c.args)).collect();
    assert_eq!(
        got,
        vec![
            ("sysctl".to_string(), strings(&["-w", "net.ipv4.ip_forward=1"])),
            (
                "iptables".to_string(),
                strings(&["-t", "nat", "-A", "POSTROUTING", "-o", "mg0", "-j", "MASQUERADE"])
            ),
            (
                "iptables".to_string(),
                strings(&[
                    "-t",
                    "nat",
                    "-A",
                    "PREROUTING",
                    "-p",
                    "tcp",
                    "--dport",
                    "8080",
                    "-j",
                    "DNAT",
                    "--to-destination",
                    "10.20.30.40:80"
                ])
            ),
            ("iptables".to_string(), strings(&["-A", "FORWARD", "-j", "ACCEPT"])),
        ]
    );
}

#[test]
fn without_nat_no_forwarding_commands_run() {
    let c = WgConfig::from_env(None, None, Some("false"), None);
    assert!(c.commands("mg0", Ipv4Addr::new(10, 0, 0, 1)).is_empty());
}
