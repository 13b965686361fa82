//! The meshguard command line:
//!
//!   meshguard id                       print this node's NodeId and derived identity
//!   meshguard selftest                 in-process handshake and data round-trip
//!   meshguard connect <NodeId> [opts]  bring up a VPN to a peer by NodeId
//!   meshguard serve [opts]             accept tunnels from peers
//!
//! Options: `--iface <name>` (default `meshguard0`), `--mtu <n>` (default 1280).
//! Anything else is a usage error, which the application reports.
use vstd::prelude::*;
use crate::text::{parse_u16, parse_u16_spec, same_text};

verus! {

/// Interface options.
#[derive(Debug)]
pub struct Opts {
    pub iface: String,
    pub mtu: u16,
}

/// A command line, parsed.
#[derive(Debug)]
pub enum Command {
    Id,
    Selftest,
    Connect { node_id: String, opts: Opts },
    Serve { opts: Opts },
}

/// A command line as texts and numbers.
pub enum CommandView {
    Id,
    Selftest,
    Connect { node_id: Seq<char>, iface: Seq<char>, mtu: u16 },
    Serve { iface: Seq<char>, mtu: u16 },
}

/// The texts of the arguments.
pub open spec fn texts_of(args: Seq<String>) -> Seq<Seq<char>> {
    args.map_values(|s: String| s@)
}

/// The options that `args[i..]` set, starting from `iface` and `mtu`; `None`
/// for an unknown argument, a missing value or an MTU that is not a `u16`.
pub open spec fn opts_from(args: Seq<Seq<char>>, i: int, iface: Seq<char>, mtu: u16) -> Option<
    (Seq<char>, u16),
>
    decreases args.len() - i,
{
    if i < 0 || i >= args.len() {
        Some((iface, mtu))
    } else if args[i] == "--iface"@ {
        if i + 1 < args.len() {
            opts_from(args, i + 2, args[i + 1], mtu)
        } else {
            None
        }
    } else if args[i] == "--mtu"@ {
        if i + 1 < args.len() {
            match parse_u16_spec(args[i + 1]) {
                Some(m) => opts_from(args, i + 2, iface, m),
                None => None,
            }
        } else {
            None
        }
    } else {
        None
    }
}

/// The options of `args[i..]`, from the defaults `meshguard0` and 1280.
pub open spec fn opts_spec(args: Seq<Seq<char>>, i: int) -> Option<(Seq<char>, u16)> {
    opts_from(args, i, "meshguard0"@, 1280)
}

/// What a command line asks for; `None` is a usage error.
pub open spec fn command_spec(args: Seq<Seq<char>>) -> Option<CommandView> {
    if args.len() == 0 {
        None
    } else if args[0] == "id"@ {
        Some(CommandView::Id)
    } else if args[0] == "selftest"@ {
        Some(CommandView::Selftest)
    } else if args[0] == "connect"@ {
        if args.len() < 2 {
            None
        } else {
            match opts_spec(args, 2) {
                Some((iface, mtu)) => Some(CommandView::Connect { node_id: args[1], iface, mtu }),
                None => None,
            }
        }
    } else if args[0] == "serve"@ {
        match opts_spec(args, 1) {
            Some((iface, mtu)) => Some(CommandView::Serve { iface, mtu }),
            None => None,
        }
    } else {
        None
    }
}

/// Options read from `a[i..]` read on unchanged when more arguments follow:
/// reading `(a + t)[i..]` is reading `t` from where `a` left off.
proof fn lemma_opts_append(a: Seq<Seq<char>>, t: Seq<Seq<char>>, i: int, iface: Seq<char>, mtu: u16)
    requires
        0 <= i <= a.len(),
        opts_from(a, i, iface, mtu) is Some,
    ensures
        opts_from(a + t, i, iface, mtu) == opts_from(
            a + t,
            a.len() as int,
            opts_from(a, i, iface, mtu).unwrap().0,
            opts_from(a, i, iface, mtu).unwrap().1,
        ),
    decreases a.len() - i,
{
    if i < a.len() {
        assert((a + t)[i] == a[i]);
        if a[i] == "--iface"@ {
            assert((a + t)[i + 1] == a[i + 1]);
            lemma_opts_append(a, t, i + 2, a[i + 1], mtu);
        } else if a[i] == "--mtu"@ {
            assert((a + t)[i + 1] == a[i + 1]);
            let m = parse_u16_spec(a[i + 1]).unwrap();
            lemma_opts_append(a, t, i + 2, iface, m);
        }
    }
}

/// With no options left, the options are the ones given: from the start,
/// the interface `meshguard0` and the MTU 1280.
pub proof fn lemma_opts_defaults(args: Seq<Seq<char>>, iface: Seq<char>, mtu: u16)
    ensures
        opts_from(args, args.len() as int, iface, mtu) == Some((iface, mtu)),
        opts_spec(Seq::<Seq<char>>::empty(), 0) == Some(("meshguard0"@, 1280u16)),
{
}

/// `--iface <name>` after well-formed options sets the interface to `name` and
/// leaves the MTU as it was.
pub proof fn lemma_iface_keeps_mtu(a: Seq<Seq<char>>, i: int, iface: Seq<char>, mtu: u16, name: Seq<char>)
    requires
        0 <= i <= a.len(),
        opts_from(a, i, iface, mtu) is Some,
    ensures
        opts_from(a + seq!["--iface"@, name], i, iface, mtu) == Some(
            (name, opts_from(a, i, iface, mtu).unwrap().1),
        ),
{
    let t = seq!["--iface"@, name];
    lemma_opts_append(a, t, i, iface, mtu);
    let b = a + t;
    assert(b[a.len() as int] == "--iface"@);
    assert(b[a.len() as int + 1] == name);
    assert(opts_from(b, a.len() as int + 2, name, opts_from(a, i, iface, mtu).unwrap().1) == Some(
        (name, opts_from(a, i, iface, mtu).unwrap().1),
    ));
}

/// `--mtu <n>` after well-formed options sets the MTU to `n` when `n` is a
/// `u16` (a usage error otherwise) and leaves the interface as it was.
pub proof fn lemma_mtu_keeps_iface(a: Seq<Seq<char>>, i: int, iface: Seq<char>, mtu: u16, n: Seq<char>)
    requires
        0 <= i <= a.len(),
        opts_from(a, i, iface, mtu) is Some,
    ensures
        opts_from(a + seq!["--mtu"@, n], i, iface, mtu) == match parse_u16_spec(n) {
            Some(m) => Some((opts_from(a, i, iface, mtu).unwrap().0, m)),
            None => None,
        },
{
    let t = seq!["--mtu"@, n];
    lemma_opts_append(a, t, i, iface, mtu);
    let b = a + t;
    assert(b[a.len() as int] == "--mtu"@);
    assert(b[a.len() as int + 1] == n);
    assert("--mtu"@ != "--iface"@) by {
        reveal_strlit("--mtu");
        reveal_strlit("--iface");
        assert("--mtu"@[2] != "--iface"@[2]);
    }
    match parse_u16_spec(n) {
        Some(m) => {
            assert(opts_from(b, a.len() as int + 2, opts_from(a, i, iface, mtu).unwrap().0, m) == Some(
                (opts_from(a, i, iface, mtu).unwrap().0, m),
            ));
        },
        None => {},
    }
}

impl Command {
    pub open spec fn view_of(self) -> CommandView {
        match self {
            Command::Id => CommandView::Id,
            Command::Selftest => CommandView::Selftest,
            Command::Connect { node_id, opts } => CommandView::Connect {
                node_id: node_id@,
                iface: opts.iface@,
                mtu: opts.mtu,
            },
            Command::Serve { opts } => CommandView::Serve { iface: opts.iface@, mtu: opts.mtu },
        }
    }
}

/// The options of `args[start..]`.
fn parse_opts_from(args: &[String], start: usize) -> (r: Option<Opts>)
    requires
        start <= args@.len(),
    ensures
        match r {
            Some(o) => opts_spec(texts_of(args@), start as int) == Some((o.iface@, o.mtu)),
            None => opts_spec(texts_of(args@), start as int) is None,
        },
{
    let ghost a = texts_of(args@);
    let mut iface = "meshguard0".to_owned();
    let mut mtu: u16 = 1280;
    let mut i = start;
    while i < args.len()
        invariant
            start <= i <= args@.len(),
            a == texts_of(args@),
            opts_spec(a, start as int) == opts_from(a, i as int, iface@, mtu),
        decreases args@.len() - i,
    {
        assert(a[i as int] == args@[i as int]@);
        if same_text(args[i].as_str(), "--iface") {
            if i + 1 < args.len() {
                assert(a[i + 1] == args@[i + 1]@);
                iface = args[i + 1].clone();
                i += 2;
            } else {
                return None;
            }
        } else if same_text(args[i].as_str(), "--mtu") {
            if i + 1 < args.len() {
                assert(a[i + 1] == args@[i + 1]@);
                match parse_u16(args[i + 1].as_str()) {
                    Some(m) => {
                        mtu = m;
                        i += 2;
                    },
                    None => {
                        return None;
                    },
                }
            } else {
                return None;
            }
        } else {
            return None;
        }
    }
    Some(Opts { iface, mtu })
}

/// Parses the interface options; `None` is a usage error.
pub fn parse_opts(args: &[String]) -> (r: Option<Opts>)
    ensures
        match r {
            Some(o) => opts_spec(texts_of(args@), 0) == Some((o.iface@, o.mtu)),
            None => opts_spec(texts_of(args@), 0) is None,
        },
{
    parse_opts_from(args, 0)
}

/// Parses a whole command line (without the program name); `None` is a usage
/// error.
pub fn parse_command(args: &[String]) -> (r: Option<Command>)
    ensures
        match r {
            Some(c) => command_spec(texts_of(args@)) == Some(c.view_of()),
            None => command_spec(texts_of(args@)) is None,
        },
{
    let ghost a = texts_of(args@);
    if args.len() == 0 {
        return None;
    }
    assert(a[0] == args@[0]@);
    let cmd = args[0].as_str();
    if same_text(cmd, "id") {
        Some(Command::Id)
    } else if same_text(cmd, "selftest") {
        Some(Command::Selftest)
    } else if same_text(cmd, "connect") {
        if args.len() < 2 {
            return None;
        }
        assert(a[1] == args@[1]@);
        let node_id = args[1].clone();
        match parse_opts_from(args, 2) {
            Some(opts) => Some(Command::Connect { node_id, opts }),
            None => None,
        }
    } else if same_text(cmd, "serve") {
        match parse_opts_from(args, 1) {
            Some(opts) => Some(Command::Serve { opts }),
            None => None,
        }
    } else {
        None
    }
}

} // verus!
