//! WireGuard configuration and service exposure settings.
//!
//! The settings come from four environment variables; the application reads
//! them and hands their values here. Applying the settings runs system
//! commands; which commands, with which arguments and in which order, is
//! decided here and run by the application.
use vstd::prelude::*;
use crate::addr::{dotted, Ipv4Addr};
use vstd::utf8::is_ascii_chars;
use crate::text::{
    is_ws, lemma_decimal_digits, lemma_decimal_parses_back, lemma_split_append, lemma_split_no_sep,
    lemma_trim_no_ws, is_digit,
    ascii_lower, ascii_upper, lemma_trim_ascii_case, lemma_trim_idempotent, decimal, decimal_string, lemma_split_nonempty, list_items, list_of, lowercase, parse_u16,
    parse_u16_spec, push_char, same_text, split_by, split_str, to_lowercase, trim, trim_str,
    words, words_of, Sep,
};

verus! {

/// WireGuard configuration options that can be set via environment variables.
#[derive(Debug, Clone)]
pub struct WgConfig {
    /// Additional AllowedIPs for the WireGuard interface (CIDR notation).
    pub allowed_ips: Vec<String>,
    /// Services to expose through the VPN, as (host port, VPN port).
    pub expose_services: Vec<(u16, u16)>,
    /// Enable NAT masquerading for the tunnel interface.
    pub enable_nat: bool,
    /// Additional iptables rules to apply.
    pub custom_iptables_rules: Vec<String>,
}

/// A command to run: a program and its arguments.
#[derive(Debug, Clone)]
pub struct SystemCommand {
    pub program: String,
    pub args: Vec<String>,
}

/// The text of a command: its program and its arguments.
pub open spec fn command_view(c: SystemCommand) -> (Seq<char>, Seq<Seq<char>>) {
    (c.program@, c.args.deep_view())
}

pub open spec fn commands_view(cs: Seq<SystemCommand>) -> Seq<(Seq<char>, Seq<Seq<char>>)> {
    cs.map_values(|c: SystemCommand| command_view(c))
}

/// The AllowedIPs when none are configured: all traffic goes through the tunnel.
pub open spec fn default_allowed_ips() -> Seq<Seq<char>> {
    seq!["0.0.0.0/0"@]
}

/// One exposed service, written `host_port:vpn_port` (surrounding whitespace
/// ignored); anything else is no service.
pub open spec fn service_of(piece: Seq<char>) -> Option<(u16, u16)> {
    let parts = split_by(trim(piece), Sep::Char(':'));
    if parts.len() == 2 {
        match (parse_u16_spec(parts[0]), parse_u16_spec(parts[1])) {
            (Some(h), Some(v)) => Some((h, v)),
            _ => None,
        }
    } else {
        None
    }
}

/// The services of a list of pieces, in order, skipping pieces that are none.
pub open spec fn services_of(pieces: Seq<Seq<char>>) -> Seq<(u16, u16)>
    decreases pieces.len(),
{
    if pieces.len() == 0 {
        Seq::<(u16, u16)>::empty()
    } else {
        let init = services_of(pieces.drop_last());
        match service_of(pieces.last()) {
            Some(p) => init.push(p),
            None => init,
        }
    }
}

/// The services of a comma-separated setting.
pub open spec fn service_list(s: Seq<char>) -> Seq<(u16, u16)> {
    services_of(split_by(s, Sep::Char(',')))
}

/// NAT stays enabled unless the setting, trimmed and lower-cased, is `false`,
/// `0` or `no`.
pub open spec fn nat_setting(s: Seq<char>) -> bool {
    let l = lowercase(trim(s));
    !(l == "false"@ || l == "0"@ || l == "no"@)
}

/// Turns on IPv4 forwarding.
pub open spec fn forward_cmd() -> (Seq<char>, Seq<Seq<char>>) {
    ("sysctl"@, seq!["-w"@, "net.ipv4.ip_forward=1"@])
}

/// Masquerades traffic leaving through `iface`.
pub open spec fn masquerade_cmd(iface: Seq<char>) -> (Seq<char>, Seq<Seq<char>>) {
    (
        "iptables"@,
        seq!["-t"@, "nat"@, "-A"@, "POSTROUTING"@, "-o"@, iface, "-j"@, "MASQUERADE"@],
    )
}

/// Forwards TCP port `host` to port `vpn` of the overlay address `ip`.
pub open spec fn expose_cmd(host: u16, vpn: u16, ip: Seq<u8>) -> (Seq<char>, Seq<Seq<char>>) {
    (
        "iptables"@,
        seq![
            "-t"@,
            "nat"@,
            "-A"@,
            "PREROUTING"@,
            "-p"@,
            "tcp"@,
            "--dport"@,
            decimal(host as nat),
            "-j"@,
            "DNAT"@,
            "--to-destination"@,
            dotted(ip) + seq![':'] + decimal(vpn as nat),
        ],
    )
}

pub open spec fn expose_cmds(services: Seq<(u16, u16)>, ip: Seq<u8>) -> Seq<
    (Seq<char>, Seq<Seq<char>>),
> {
    services.map_values(|p: (u16, u16)| expose_cmd(p.0, p.1, ip))
}

/// One `iptables` command per custom rule, its words as arguments; a rule
/// without words runs nothing.
pub open spec fn rule_cmds(rules: Seq<Seq<char>>) -> Seq<(Seq<char>, Seq<Seq<char>>)>
    decreases rules.len(),
{
    if rules.len() == 0 {
        Seq::empty()
    } else {
        let init = rule_cmds(rules.drop_last());
        let w = words(rules.last());
        if w.len() > 0 {
            init.push(("iptables"@, w))
        } else {
            init
        }
    }
}

/// Everything that applying a configuration runs, in order: forwarding and
/// masquerading when NAT is enabled, one forward per exposed service, then the
/// custom rules.
pub open spec fn planned_commands(
    enable_nat: bool,
    services: Seq<(u16, u16)>,
    rules: Seq<Seq<char>>,
    iface: Seq<char>,
    ip: Seq<u8>,
) -> Seq<(Seq<char>, Seq<Seq<char>>)> {
    (if enable_nat {
        seq![forward_cmd(), masquerade_cmd(iface)]
    } else {
        Seq::empty()
    }) + expose_cmds(services, ip) + rule_cmds(rules)
}

/// The NAT setting ignores surrounding whitespace and, for ASCII text, the
/// case of its letters.
pub proof fn lemma_nat_setting_case(s: Seq<char>)
    requires
        is_ascii_chars(s),
    ensures
        nat_setting(trim(s)) == nat_setting(s),
        nat_setting(ascii_lower(s)) == nat_setting(s),
        nat_setting(ascii_upper(s)) == nat_setting(s),
{
    lemma_trim_idempotent(s);
    lemma_trim_ascii_case(s);
    let t = trim(s);
    assert(ascii_lower(ascii_lower(t)) =~= ascii_lower(t));
    assert(ascii_lower(ascii_upper(t)) =~= ascii_lower(t));
}

/// Digits are neither whitespace nor a separator.
proof fn lemma_decimal_plain(n: nat)
    ensures
        decimal(n).len() > 0,
        forall|i: int|
            0 <= i < decimal(n).len() ==> !is_ws(#[trigger] decimal(n)[i]) && decimal(n)[i] != ':'
                && decimal(n)[i] != ',',
{
    lemma_decimal_digits(n);
    assert forall|i: int| 0 <= i < decimal(n).len() implies !is_ws(#[trigger] decimal(n)[i])
        && decimal(n)[i] != ':' && decimal(n)[i] != ',' by {
        assert(is_digit(decimal(n)[i]));
    }
}

/// Every pair of ports is a service: the text `host:vpn` of two ports in
/// decimal reads back as exactly that pair, equal ports included, and as a
/// whole setting it is a list of that one service.
pub proof fn lemma_service_text(host: u16, vpn: u16)
    ensures
        service_of(decimal(host as nat) + seq![':'] + decimal(vpn as nat)) == Some((host, vpn)),
        service_list(decimal(host as nat) + seq![':'] + decimal(vpn as nat)) == seq![(host, vpn)],
{
    let a = decimal(host as nat);
    let b = decimal(vpn as nat);
    let t = a + seq![':'] + b;
    lemma_decimal_plain(host as nat);
    lemma_decimal_plain(vpn as nat);
    assert forall|i: int| 0 <= i < t.len() implies !is_ws(#[trigger] t[i]) && t[i] != ',' by {
        if i < a.len() {
            assert(t[i] == a[i]);
        } else if i > a.len() {
            assert(t[i] == b[i - a.len() - 1]);
        }
    }
    lemma_trim_no_ws(t);
    lemma_split_no_sep(a, Sep::Char(':'));
    lemma_split_append(a, ':', b);
    assert(split_by(t, Sep::Char(':')) =~= seq![a, b]);
    lemma_decimal_parses_back(host);
    lemma_decimal_parses_back(vpn);
    lemma_split_no_sep(t, Sep::Char(','));
    let pieces = split_by(t, Sep::Char(','));
    assert(pieces.drop_last() =~= Seq::<Seq<char>>::empty());
    assert(services_of(Seq::<Seq<char>>::empty()) =~= Seq::<(u16, u16)>::empty());
    assert(services_of(pieces) =~= seq![(host, vpn)]);
}

/// A list of custom rules that each have words runs one `iptables` command per
/// rule, in order, with the rule's words as arguments.
pub proof fn lemma_rule_commands(rules: Seq<Seq<char>>)
    requires
        forall|k: int| 0 <= k < rules.len() ==> words(#[trigger] rules[k]).len() > 0,
    ensures
        rule_cmds(rules).len() == rules.len(),
        forall|k: int|
            0 <= k < rules.len() ==> #[trigger] rule_cmds(rules)[k] == ("iptables"@, words(rules[k])),
    decreases rules.len(),
{
    if rules.len() > 0 {
        let init = rules.drop_last();
        assert forall|k: int| 0 <= k < init.len() implies words(#[trigger] init[k]).len() > 0 by {
            assert(init[k] == rules[k]);
        }
        lemma_rule_commands(init);
        assert(words(rules[rules.len() - 1]).len() > 0);
        assert forall|k: int| 0 <= k < rules.len() implies #[trigger] rule_cmds(rules)[k] == (
        "iptables"@, words(rules[k])) by {
            if k < init.len() {
                assert(init[k] == rules[k]);
            }
        }
    }
}

/// What applying a configuration runs: when NAT is enabled, first the
/// forwarding switch (`sysctl -w net.ipv4.ip_forward=1`) and the masquerade
/// rule for `iface`; then, whether or not NAT is enabled, one TCP `DNAT`
/// forward in `PREROUTING` per exposed service, in order, from its host port
/// to its VPN port at the overlay address `ip`; then the custom rules.
pub proof fn lemma_planned_commands(
    enable_nat: bool,
    services: Seq<(u16, u16)>,
    rules: Seq<Seq<char>>,
    iface: Seq<char>,
    ip: Seq<u8>,
)
    ensures
        ({
            let cmds = planned_commands(enable_nat, services, rules, iface, ip);
            let n: int = if enable_nat {
                2
            } else {
                0
            };
            &&& cmds.len() == n + services.len() + rule_cmds(rules).len()
            &&& enable_nat ==> cmds[0] == ("sysctl"@, seq!["-w"@, "net.ipv4.ip_forward=1"@])
            &&& enable_nat ==> cmds[1] == (
                "iptables"@,
                seq!["-t"@, "nat"@, "-A"@, "POSTROUTING"@, "-o"@, iface, "-j"@, "MASQUERADE"@],
            )
            &&& forall|k: int|
                0 <= k < services.len() ==> cmds[n + k] == (
                    "iptables"@,
                    seq![
                        "-t"@,
                        "nat"@,
                        "-A"@,
                        "PREROUTING"@,
                        "-p"@,
                        "tcp"@,
                        "--dport"@,
                        decimal(#[trigger] services[k].0 as nat),
                        "-j"@,
                        "DNAT"@,
                        "--to-destination"@,
                        dotted(ip) + seq![':'] + decimal(services[k].1 as nat),
                    ],
                )
            &&& forall|k: int|
                0 <= k < rule_cmds(rules).len() ==> cmds[n + services.len() + k]
                    == #[trigger] rule_cmds(rules)[k]
        }),
{
    let cmds = planned_commands(enable_nat, services, rules, iface, ip);
    let nat_part: Seq<(Seq<char>, Seq<Seq<char>>)> = if enable_nat {
        seq![forward_cmd(), masquerade_cmd(iface)]
    } else {
        Seq::empty()
    };
    let n: int = nat_part.len() as int;
    let e = expose_cmds(services, ip);
    assert(cmds == nat_part + e + rule_cmds(rules));
    assert forall|k: int| 0 <= k < services.len() implies cmds[n + k] == expose_cmd(
        services[k].0,
        services[k].1,
        ip,
    ) by {
        assert(cmds[n + k] == e[k]);
    }
}

impl Default for WgConfig {
    /// All traffic through the tunnel, no exposed services, NAT enabled, no
    /// custom rules.
    fn default() -> (r: Self)
        ensures
            r.allowed_ips.deep_view() == default_allowed_ips(),
            r.expose_services@ == Seq::<(u16, u16)>::empty(),
            r.enable_nat,
            r.custom_iptables_rules.deep_view() == Seq::<Seq<char>>::empty(),
    {
        let mut allowed_ips: Vec<String> = Vec::new();
        allowed_ips.push("0.0.0.0/0".to_owned());
        let r = WgConfig {
            allowed_ips,
            expose_services: Vec::new(),
            enable_nat: true,
            custom_iptables_rules: Vec::new(),
        };
        assert(r.allowed_ips.deep_view() =~= default_allowed_ips());
        assert(r.custom_iptables_rules.deep_view() =~= Seq::<Seq<char>>::empty());
        r
    }
}

/// Parses one exposed service, `host_port:vpn_port`.
pub fn parse_service(piece: &str) -> (r: Option<(u16, u16)>)
    ensures
        r == service_of(piece@),
{
    let t = trim_str(piece);
    let parts = split_str(t.as_str(), Sep::Char(':'));
    if parts.len() != 2 {
        return None;
    }
    assert(parts.deep_view()[0] == parts@[0]@);
    assert(parts.deep_view()[1] == parts@[1]@);
    match (parse_u16(parts[0].as_str()), parse_u16(parts[1].as_str())) {
        (Some(h), Some(v)) => Some((h, v)),
        _ => None,
    }
}

/// Parses a comma-separated list of exposed services, skipping malformed ones.
pub fn parse_services(s: &str) -> (r: Vec<(u16, u16)>)
    ensures
        r@ == service_list(s@),
{
    let pieces = split_str(s, Sep::Char(','));
    let ghost pv = pieces.deep_view();
    let mut out: Vec<(u16, u16)> = Vec::new();
    let mut i: usize = 0;
    assert(pv.take(0) =~= Seq::<Seq<char>>::empty());
    while i < pieces.len()
        invariant
            i <= pieces@.len(),
            pv == pieces.deep_view(),
            out@ == services_of(pv.take(i as int)),
        decreases pieces@.len() - i,
    {
        let ghost taken = pv.take(i + 1);
        assert(taken.drop_last() =~= pv.take(i as int));
        assert(taken.last() == pieces@[i as int]@);
        match parse_service(pieces[i].as_str()) {
            Some(p) => {
                out.push(p);
            },
            None => {},
        }
        i += 1;
    }
    assert(pv.take(pieces@.len() as int) =~= pv);
    out
}

/// Whether NAT is enabled by a setting: anything but `false`, `0` or `no`
/// (whitespace and case aside).
pub fn parse_enable_nat(s: &str) -> (r: bool)
    ensures
        r == nat_setting(s@),
{
    let t = trim_str(s);
    let l = to_lowercase(t.as_str());
    !(same_text(l.as_str(), "false") || same_text(l.as_str(), "0") || same_text(
        l.as_str(),
        "no",
    ))
}

/// An owned copy of a text.
fn owned(s: &str) -> (r: String)
    ensures
        r@ == s@,
{
    s.to_owned()
}

/// A command from its program and arguments.
fn command(program: &str, args: Vec<String>) -> (r: SystemCommand)
    ensures
        command_view(r) == (program@, args.deep_view()),
{
    SystemCommand { program: owned(program), args }
}

/// The arguments written as texts.
fn texts(items: &[&str]) -> (r: Vec<String>)
    ensures
        r.deep_view() == items@.map_values(|s: &str| s@),
{
    let mut out: Vec<String> = Vec::new();
    let mut i: usize = 0;
    while i < items.len()
        invariant
            i <= items@.len(),
            out.deep_view() == items@.take(i as int).map_values(|s: &str| s@),
        decreases items@.len() - i,
    {
        let ghost before = out.deep_view();
        out.push(owned(items[i]));
        assert(out.deep_view() =~= before.push(items@[i as int]@));
        assert(items@.take(i + 1).map_values(|s: &str| s@) =~= items@.take(i as int).map_values(
            |s: &str| s@,
        ).push(items@[i as int]@));
        i += 1;
    }
    assert(items@.take(items@.len() as int) =~= items@);
    out
}

impl WgConfig {
    /// The configuration from the values of its environment variables
    /// (`MESHGUARD_ALLOWED_IPS`, `MESHGUARD_EXPOSE_SERVICES`,
    /// `MESHGUARD_ENABLE_NAT`, `MESHGUARD_IPTABLES_RULES`); an unset variable
    /// keeps the default. Lists are comma-separated, rules semicolon-separated;
    /// empty items are dropped and malformed services skipped.
    pub fn from_env(
        allowed_ips: Option<&str>,
        expose_services: Option<&str>,
        enable_nat: Option<&str>,
        iptables_rules: Option<&str>,
    ) -> (r: WgConfig)
        ensures
            r.allowed_ips.deep_view() == match allowed_ips {
                Some(s) => list_items(s@, ','),
                None => default_allowed_ips(),
            },
            r.expose_services@ == match expose_services {
                Some(s) => service_list(s@),
                None => Seq::<(u16, u16)>::empty(),
            },
            r.enable_nat == match enable_nat {
                Some(s) => nat_setting(s@),
                None => true,
            },
            r.custom_iptables_rules.deep_view() == match iptables_rules {
                Some(s) => list_items(s@, ';'),
                None => Seq::<Seq<char>>::empty(),
            },
    {
        let mut config = WgConfig::default();
        match allowed_ips {
            Some(s) => {
                config.allowed_ips = list_of(s, ',');
            },
            None => {},
        }
        match expose_services {
            Some(s) => {
                config.expose_services = parse_services(s);
            },
            None => {},
        }
        match enable_nat {
            Some(s) => {
                config.enable_nat = parse_enable_nat(s);
            },
            None => {},
        }
        match iptables_rules {
            Some(s) => {
                config.custom_iptables_rules = list_of(s, ';');
            },
            None => {},
        }
        config
    }

    /// The primary overlay IP for this node: the fixed `10.0.0.1`.
    pub fn get_overlay_ip(&self) -> (r: Ipv4Addr)
        ensures
            r@ == seq![10u8, 0u8, 0u8, 1u8],
    {
        Ipv4Addr::new(10, 0, 0, 1)
    }

    /// The system commands that apply this configuration on interface `iface`
    /// with overlay address `overlay_ip`, in the order they are run.
    pub fn commands(&self, iface: &str, overlay_ip: Ipv4Addr) -> (r: Vec<SystemCommand>)
        ensures
            commands_view(r@) == planned_commands(
                self.enable_nat,
                self.expose_services@,
                self.custom_iptables_rules.deep_view(),
                iface@,
                overlay_ip@,
            ),
    {
        let mut out: Vec<SystemCommand> = Vec::new();
        if self.enable_nat {
            let fwd = command("sysctl", texts(&["-w", "net.ipv4.ip_forward=1"]));
            out.push(fwd);
            let masq_args = texts(
                &["-t", "nat", "-A", "POSTROUTING", "-o", iface, "-j", "MASQUERADE"],
            );
            let masq = command("iptables", masq_args);
            out.push(masq);
            proof {
                assert(command_view(fwd) == forward_cmd());
                assert(command_view(masq) == masquerade_cmd(iface@));
            }
        }
        assert(commands_view(out@) =~= (if self.enable_nat {
            seq![forward_cmd(), masquerade_cmd(iface@)]
        } else {
            Seq::empty()
        }));
        let ghost nat_part = commands_view(out@);
        let dest_prefix = overlay_ip.to_text();
        let mut i: usize = 0;
        while i < self.expose_services.len()
            invariant
                i <= self.expose_services@.len(),
                dest_prefix@ == dotted(overlay_ip@),
                commands_view(out@) == nat_part + expose_cmds(
                    self.expose_services@.take(i as int),
                    overlay_ip@,
                ),
            decreases self.expose_services@.len() - i,
        {
            let (host, vpn) = self.expose_services[i];
            let host_text = decimal_string(host as u32);
            let mut dest = owned(dest_prefix.as_str());
            push_char(&mut dest, ':');
            dest.append(decimal_string(vpn as u32).as_str());
            assert(dest@ =~= dotted(overlay_ip@) + seq![':'] + decimal(vpn as nat));
            let args = texts(
                &[
                    "-t",
                    "nat",
                    "-A",
                    "PREROUTING",
                    "-p",
                    "tcp",
                    "--dport",
                    host_text.as_str(),
                    "-j",
                    "DNAT",
                    "--to-destination",
                    dest.as_str(),
                ],
            );
            let c = command("iptables", args);
            let ghost before = out@;
            out.push(c);
            proof {
                assert(command_view(c) == expose_cmd(host, vpn, overlay_ip@));
                let s = self.expose_services@;
                assert(s.take(i + 1) =~= s.take(i as int).push(s[i as int]));
                assert(expose_cmds(s.take(i + 1), overlay_ip@) =~= expose_cmds(
                    s.take(i as int),
                    overlay_ip@,
                ).push(expose_cmd(host, vpn, overlay_ip@)));
                assert(commands_view(out@) =~= commands_view(before).push(command_view(c)));
            }
            i += 1;
        }
        assert(self.expose_services@.take(self.expose_services@.len() as int)
            =~= self.expose_services@);
        let ghost mid = commands_view(out@);
        let ghost rules = self.custom_iptables_rules.deep_view();
        let mut j: usize = 0;
        assert(rules.take(0) =~= Seq::<Seq<char>>::empty());
        assert(mid + rule_cmds(rules.take(0)) =~= mid);
        while j < self.custom_iptables_rules.len()
            invariant
                j <= self.custom_iptables_rules@.len(),
                rules == self.custom_iptables_rules.deep_view(),
                commands_view(out@) == mid + rule_cmds(rules.take(j as int)),
            decreases self.custom_iptables_rules@.len() - j,
        {
            let parts = words_of(self.custom_iptables_rules[j].as_str());
            let ghost taken = rules.take(j + 1);
            assert(taken.drop_last() =~= rules.take(j as int));
            assert(taken.last() == self.custom_iptables_rules@[j as int]@);
            if parts.len() > 0 {
                let c = command("iptables", parts);
                let ghost before = out@;
                out.push(c);
                assert(commands_view(out@) =~= commands_view(before).push(command_view(c)));
            }
            j += 1;
        }
        assert(rules.take(rules.len() as int) =~= rules);
        out
    }
}

} // verus!
