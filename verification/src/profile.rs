//! The profile side of the network reconciler: reading a connection's
//! IPv4 configuration out of the network manager's value-per-line
//! output, and rendering a configuration back into the argument list of
//! a modify invocation.
//!
//! A profile read queries seven fields: the persisted
//! `ipv4.method`, `ipv4.addresses`, `ipv4.gateway`, `ipv4.dns` and the
//! live `IP4.ADDRESS`, `IP4.GATEWAY`, `IP4.DNS`, one value per output
//! line, in that order.  For each of address, gateway and DNS the
//! persisted value wins and the live value is only a fallback.

use vstd::prelude::*;
use vstd::string::*;

use crate::text::{
    dec_int, find_char, i32_to_string, join_char, lemma_join_split, lemma_split_concat,
    lemma_split_len, lemma_split_sep_free, lines_of, lines_spec, parse_i32_or, parsed_i32_or,
    split_char, str_eq,
};

verus! {

/// The IPv4 configuration of one connection profile, the union of its
/// persisted fields and the live interface state.
#[derive(Debug, Clone, PartialEq)]
pub struct WifiConfig {
    pub method: String,
    pub ip_address: String,
    pub prefix: i32,
    pub gateway: String,
    pub dns: String,
}

/// The mathematical image of a profile configuration.
pub struct WifiConfigData {
    pub method: Seq<char>,
    pub ip_address: Seq<char>,
    pub prefix: i32,
    pub gateway: Seq<char>,
    pub dns: Seq<char>,
}

impl View for WifiConfig {
    type V = WifiConfigData;

    open spec fn view(&self) -> WifiConfigData {
        WifiConfigData {
            method: self.method@,
            ip_address: self.ip_address@,
            prefix: self.prefix,
            gateway: self.gateway@,
            dns: self.dns@,
        }
    }
}

impl DeepView for WifiConfig {
    type V = WifiConfigData;

    open spec fn deep_view(&self) -> WifiConfigData {
        self.view()
    }
}

/// The configuration of a network without a profile: DHCP-managed,
/// nothing persisted, the conventional prefix of twenty-four.
pub open spec fn default_config() -> WifiConfigData {
    WifiConfigData {
        method: "auto"@,
        ip_address: Seq::empty(),
        prefix: 24,
        gateway: Seq::empty(),
        dns: Seq::empty(),
    }
}

/// Prefer the persisted value; fall back to the live one only when the
/// persisted value is empty.
pub open spec fn merged(persisted: Seq<char>, live: Seq<char>) -> Seq<char> {
    if persisted.len() > 0 {
        persisted
    } else {
        live
    }
}

/// Split a merged `ip/prefix` field on its first slash; without a
/// slash the whole field is the address and the prefix defaults to
/// twenty-four, as it also does when the prefix does not parse.
pub open spec fn address_parts(addr: Seq<char>) -> (Seq<char>, i32) {
    let parts = split_char(addr, '/');
    if parts.len() == 1 {
        (addr, 24)
    } else {
        (parts[0], parsed_i32_or(join_char(parts.subrange(1, parts.len() as int), '/'), 24))
    }
}

/// What the seven queried lines denote.  Fewer than four lines count as
/// no usable profile and yield the default; a missing live line counts
/// as empty.
pub open spec fn profile_of_lines(lines: Seq<Seq<char>>) -> WifiConfigData {
    if lines.len() < 4 {
        default_config()
    } else {
        let live_addr: Seq<char> = if lines.len() > 4 {
            lines[4]
        } else {
            Seq::empty()
        };
        let live_gw: Seq<char> = if lines.len() > 5 {
            lines[5]
        } else {
            Seq::empty()
        };
        let live_dns: Seq<char> = if lines.len() > 6 {
            lines[6]
        } else {
            Seq::empty()
        };
        let split = address_parts(merged(lines[1], live_addr));
        WifiConfigData {
            method: if lines[0].len() == 0 {
                "auto"@
            } else {
                lines[0]
            },
            ip_address: split.0,
            prefix: split.1,
            gateway: merged(lines[2], live_gw),
            dns: merged(lines[3], live_dns),
        }
    }
}

/// The default profile configuration as a value.
pub fn default_wifi_config() -> (r: WifiConfig)
    ensures
        r@ == default_config(),
{
    WifiConfig {
        method: String::from_str("auto"),
        ip_address: String::new(),
        prefix: 24,
        gateway: String::new(),
        dns: String::new(),
    }
}

/// Split an `ip/prefix` field at its first slash.
fn split_address(addr: &str) -> (r: (String, i32))
    ensures
        (r.0@, r.1) == address_parts(addr@),
{
    let len = addr.unicode_len();
    match find_char(addr, '/') {
        None => {
            proof {
                lemma_split_sep_free(addr@, '/');
            }
            (addr.to_owned(), 24)
        },
        Some(i) => {
            let ip = addr.substring_char(0, i).to_owned();
            let rest = addr.substring_char(i + 1, len);
            let prefix = parse_i32_or(rest, 24);
            proof {
                let ipv = addr@.subrange(0, i as int);
                let restv = addr@.subrange(i + 1, len as int);
                assert(addr@ =~= ipv + seq!['/'] + restv);
                assert(!ipv.contains('/')) by {
                    assert forall|j: int| 0 <= j < ipv.len() implies ipv[j] != '/' by {
                        assert(ipv[j] == addr@[j]);
                    }
                }
                lemma_split_concat(ipv, restv, '/');
                lemma_split_sep_free(ipv, '/');
                lemma_split_len(restv, '/');
                let parts = split_char(addr@, '/');
                assert(parts =~= seq![ipv] + split_char(restv, '/'));
                assert(parts.len() >= 2);
                assert(parts[0] == ipv);
                assert(parts.subrange(1, parts.len() as int) =~= split_char(restv, '/'));
                lemma_join_split(restv, '/');
            }
            (ip, prefix)
        },
    }
}

/// Assemble a profile configuration out of the tool's output, or out of
/// its absence: a read that failed (no profile exists for the name)
/// yields the default DHCP configuration, not an error.
pub fn wifi_config_from_show(output: Option<&str>) -> (r: WifiConfig)
    ensures
        match output {
            None => r@ == default_config(),
            Some(s) => r@ == profile_of_lines(lines_spec(s@)),
        },
{
    let text = match output {
        None => {
            return default_wifi_config();
        },
        Some(s) => s,
    };
    let lines = lines_of(text);
    let ghost lv = lines.deep_view();
    if lines.len() < 4 {
        return default_wifi_config();
    }
    let conf_method = &lines[0];
    let live_addr: &str = if lines.len() > 4 {
        lines[4].as_str()
    } else {
        ""
    };
    let live_gw: &str = if lines.len() > 5 {
        lines[5].as_str()
    } else {
        ""
    };
    let live_dns: &str = if lines.len() > 6 {
        lines[6].as_str()
    } else {
        ""
    };
    proof {
        reveal_strlit("");
        assert(""@ =~= Seq::<char>::empty());
    }
    let method = if conf_method.as_str().unicode_len() == 0 {
        String::from_str("auto")
    } else {
        conf_method.clone()
    };
    let full_address = if lines[1].as_str().unicode_len() > 0 {
        lines[1].as_str()
    } else {
        live_addr
    };
    let addr_split = split_address(full_address);
    let gateway = if lines[2].as_str().unicode_len() > 0 {
        lines[2].clone()
    } else {
        live_gw.to_owned()
    };
    let dns = if lines[3].as_str().unicode_len() > 0 {
        lines[3].clone()
    } else {
        live_dns.to_owned()
    };
    let r = WifiConfig {
        method,
        ip_address: addr_split.0,
        prefix: addr_split.1,
        gateway,
        dns,
    };
    proof {
        assert(lv[0] == lines@[0]@);
        assert(lv[1] == lines@[1]@);
        assert(lv[2] == lines@[2]@);
        assert(lv[3] == lines@[3]@);
    }
    r
}

// ---------- applying a configuration ----------

/// The argument list of the modify invocation that applies `c` to the
/// profile named `name`: with the manual method the address is set to
/// `ip/prefix` and the gateway as given; with any other method both
/// are cleared outright, whatever the caller passed.  DNS is handled
/// independently of the method: a non-empty value is set together with
/// ignoring auto DNS, an empty one clears it and restores auto DNS.
pub open spec fn modify_args_spec(name: Seq<char>, c: WifiConfigData) -> Seq<Seq<char>> {
    let head = seq!["connection"@, "modify"@, name, "ipv4.method"@, c.method];
    let addressing: Seq<Seq<char>> = if c.method == "manual"@ {
        seq![
            "ipv4.addresses"@,
            c.ip_address + seq!['/'] + dec_int(c.prefix as int),
            "ipv4.gateway"@,
            c.gateway,
        ]
    } else {
        seq!["ipv4.addresses"@, Seq::<char>::empty(), "ipv4.gateway"@, Seq::<char>::empty()]
    };
    let dns: Seq<Seq<char>> = if c.dns.len() > 0 {
        seq!["ipv4.dns"@, c.dns, "ipv4.ignore-auto-dns"@, "yes"@]
    } else {
        seq!["ipv4.dns"@, Seq::<char>::empty(), "ipv4.ignore-auto-dns"@, "no"@]
    };
    head + addressing + dns
}

/// Build the modify arguments for applying `config` to the profile
/// named `name`.  With a method other than manual, the address and
/// gateway slots are the empty string, whatever `config` holds.
pub fn modify_profile_args(name: &str, config: &WifiConfig) -> (r: Vec<String>)
    ensures
        r.deep_view() == modify_args_spec(name@, config@),
        config@.method != "manual"@ ==> r.deep_view()[6].len() == 0 && r.deep_view()[8].len() == 0,
{
    let mut r: Vec<String> = Vec::new();
    r.push(String::from_str("connection"));
    r.push(String::from_str("modify"));
    r.push(name.to_owned());
    r.push(String::from_str("ipv4.method"));
    r.push(config.method.clone());
    if str_eq(config.method.as_str(), "manual") {
        let mut full = config.ip_address.clone();
        full.append("/");
        let rendered = i32_to_string(config.prefix);
        full.append(rendered.as_str());
        proof {
            reveal_strlit("/");
            assert("/"@ =~= seq!['/']);
            assert(full@ =~= config@.ip_address + seq!['/'] + dec_int(config@.prefix as int));
        }
        r.push(String::from_str("ipv4.addresses"));
        r.push(full);
        r.push(String::from_str("ipv4.gateway"));
        r.push(config.gateway.clone());
    } else {
        r.push(String::from_str("ipv4.addresses"));
        r.push(String::new());
        r.push(String::from_str("ipv4.gateway"));
        r.push(String::new());
    }
    r.push(String::from_str("ipv4.dns"));
    if config.dns.as_str().unicode_len() > 0 {
        r.push(config.dns.clone());
        r.push(String::from_str("ipv4.ignore-auto-dns"));
        r.push(String::from_str("yes"));
    } else {
        r.push(String::new());
        r.push(String::from_str("ipv4.ignore-auto-dns"));
        r.push(String::from_str("no"));
    }
    proof {
        assert(r.deep_view() =~= modify_args_spec(name@, config@));
    }
    r
}

/// How an apply operation ended.  The two failure points are distinct:
/// a rejected modification changes nothing, while a failed reactivation
/// after a successful modification leaves the configuration persisted
/// but not live.
#[derive(Debug, Clone, PartialEq)]
pub enum ApplyOutcome {
    Applied,
    ConfigurationRejected(String),
    AppliedButNotActivated(String),
}

/// Classify the exit of the modify step and, when that succeeded, of
/// the reactivation step, carrying the failing step's error text.
pub fn classify_apply_outcome(
    modify_ok: bool,
    modify_err: &str,
    activate_ok: bool,
    activate_err: &str,
) -> (r: ApplyOutcome)
    ensures
        !modify_ok ==> (r matches ApplyOutcome::ConfigurationRejected(m) && m@
            == "Failed to configure: "@ + modify_err@),
        modify_ok && !activate_ok ==> (r matches ApplyOutcome::AppliedButNotActivated(m) && m@
            == "Configuration saved but activation failed: "@ + activate_err@),
        modify_ok && activate_ok ==> r is Applied,
{
    if !modify_ok {
        let mut m = String::from_str("Failed to configure: ");
        m.append(modify_err);
        ApplyOutcome::ConfigurationRejected(m)
    } else if !activate_ok {
        let mut m = String::from_str("Configuration saved but activation failed: ");
        m.append(activate_err);
        ApplyOutcome::AppliedButNotActivated(m)
    } else {
        ApplyOutcome::Applied
    }
}

} // verus!
