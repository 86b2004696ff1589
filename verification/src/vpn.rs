//! The VPN side of the network reconciler: filtering the network
//! manager's connection listing down to VPN and WireGuard profiles,
//! resolving the profile type of an import from the file extension, and
//! pulling the new profile's UUID out of the import confirmation text.

use vstd::prelude::*;
use vstd::string::*;

use crate::text::{
    ends_with_str, is_suffix, last_pos, lines_of, lines_spec, rfind_char, split_char, split_str,
    str_eq,
};

verus! {

/// A VPN connection as the system network manager lists it.  The UUID
/// is the primary key; names are not unique.
#[derive(Debug, Clone, PartialEq)]
pub struct VpnConnection {
    pub uuid: String,
    pub name: String,
    pub active: bool,
    pub kind: String,
}

/// The mathematical image of a VPN connection.
pub struct VpnConnectionData {
    pub uuid: Seq<char>,
    pub name: Seq<char>,
    pub active: bool,
    pub kind: Seq<char>,
}

impl View for VpnConnection {
    type V = VpnConnectionData;

    open spec fn view(&self) -> VpnConnectionData {
        VpnConnectionData {
            uuid: self.uuid@,
            name: self.name@,
            active: self.active,
            kind: self.kind@,
        }
    }
}

impl DeepView for VpnConnection {
    type V = VpnConnectionData;

    open spec fn deep_view(&self) -> VpnConnectionData {
        self.view()
    }
}

/// The tool's ACTIVE-like field counts as active unless it is empty,
/// `no`, or the placeholder `--`.
pub open spec fn marks_active(s: Seq<char>) -> bool {
    s.len() > 0 && s != "no"@ && s != "--"@
}

/// The record a line of the `UUID:NAME:TYPE:ACTIVE` listing denotes:
/// `None` for a line with fewer than four fields or a type that is
/// neither `vpn` nor `wireguard`.
pub open spec fn vpn_row(line: Seq<char>) -> Option<VpnConnectionData> {
    let parts = split_char(line, ':');
    if parts.len() < 4 {
        None
    } else if parts[2] == "vpn"@ || parts[2] == "wireguard"@ {
        Some(
            VpnConnectionData {
                uuid: parts[0],
                name: parts[1],
                active: marks_active(parts[3]),
                kind: parts[2],
            },
        )
    } else {
        None
    }
}

/// The records of all rows that pass the type filter, in listing order.
pub open spec fn vpn_rows(lines: Seq<Seq<char>>) -> Seq<VpnConnectionData>
    decreases lines.len(),
{
    if lines.len() == 0 {
        Seq::empty()
    } else {
        let rest = vpn_rows(lines.drop_last());
        match vpn_row(lines.last()) {
            Some(v) => rest.push(v),
            None => rest,
        }
    }
}

/// The active records of `s`, in order.
pub open spec fn actives_of(s: Seq<VpnConnectionData>) -> Seq<VpnConnectionData>
    decreases s.len(),
{
    if s.len() == 0 {
        Seq::empty()
    } else {
        let rest = actives_of(s.drop_last());
        if s.last().active {
            rest.push(s.last())
        } else {
            rest
        }
    }
}

/// The inactive records of `s`, in order.
pub open spec fn inactives_of(s: Seq<VpnConnectionData>) -> Seq<VpnConnectionData>
    decreases s.len(),
{
    if s.len() == 0 {
        Seq::empty()
    } else {
        let rest = inactives_of(s.drop_last());
        if s.last().active {
            rest
        } else {
            rest.push(s.last())
        }
    }
}

/// What a whole connection listing denotes: the VPN and WireGuard
/// rows, active ones first, both groups in listing order (the stable
/// active-first sort).
pub open spec fn vpn_list_result(text: Seq<char>) -> Seq<VpnConnectionData> {
    let rows = vpn_rows(lines_spec(text));
    actives_of(rows) + inactives_of(rows)
}

/// Parse one row of the connection listing.
pub fn parse_vpn_line(line: &str) -> (r: Option<VpnConnection>)
    ensures
        match r {
            Some(v) => vpn_row(line@) == Some(v@),
            None => vpn_row(line@) is None,
        },
{
    let parts = split_str(line, ':');
    if parts.len() < 4 {
        return None;
    }
    proof {
        assert(parts.deep_view()[0] == parts@[0]@);
        assert(parts.deep_view()[1] == parts@[1]@);
        assert(parts.deep_view()[2] == parts@[2]@);
        assert(parts.deep_view()[3] == parts@[3]@);
    }
    let is_vpn = str_eq(parts[2].as_str(), "vpn");
    let is_wg = str_eq(parts[2].as_str(), "wireguard");
    if !is_vpn && !is_wg {
        return None;
    }
    let active_field = &parts[3];
    let active = active_field.as_str().unicode_len() > 0 && !str_eq(active_field.as_str(), "no")
        && !str_eq(active_field.as_str(), "--");
    Some(
        VpnConnection {
            uuid: parts[0].clone(),
            name: parts[1].clone(),
            active,
            kind: parts[2].clone(),
        },
    )
}

/// Parse a whole connection listing into the VPN and WireGuard
/// profiles, active connections first, stable within each group.
pub fn parse_vpn_list(text: &str) -> (r: Vec<VpnConnection>)
    ensures
        r.deep_view() == vpn_list_result(text@),
{
    let lines = lines_of(text);
    let ghost lv = lines.deep_view();
    let mut actives: Vec<VpnConnection> = Vec::new();
    let mut inactives: Vec<VpnConnection> = Vec::new();
    let mut li: usize = 0;
    proof {
        assert(lv.take(0) =~= Seq::<Seq<char>>::empty());
    }
    while li < lines.len()
        invariant
            li <= lines.len(),
            lv == lines.deep_view(),
            lv.len() == lines.len(),
            actives.deep_view() == actives_of(vpn_rows(lv.take(li as int))),
            inactives.deep_view() == inactives_of(vpn_rows(lv.take(li as int))),
        decreases lines.len() - li,
    {
        let ghost done = lv.take(li as int);
        proof {
            assert(lv.take(li + 1).drop_last() =~= done);
            assert(lv.take(li + 1).last() == lv[li as int]);
            assert(lines@[li as int]@ == lv[li as int]);
        }
        match parse_vpn_line(lines[li].as_str()) {
            Some(v) => {
                let ghost vv = v@;
                let ghost rows0 = vpn_rows(done);
                proof {
                    assert(vpn_rows(lv.take(li + 1)) == rows0.push(vv));
                    assert(rows0.push(vv).drop_last() =~= rows0);
                    assert(rows0.push(vv).last() == vv);
                }
                if v.active {
                    let ghost a0 = actives.deep_view();
                    actives.push(v);
                    proof {
                        assert(actives.deep_view() =~= a0.push(vv));
                    }
                } else {
                    let ghost i0 = inactives.deep_view();
                    inactives.push(v);
                    proof {
                        assert(inactives.deep_view() =~= i0.push(vv));
                    }
                }
            },
            None => {
                proof {
                    assert(vpn_rows(lv.take(li + 1)) == vpn_rows(done));
                }
            },
        }
        li += 1;
    }
    proof {
        assert(lv.take(lines.len() as int) =~= lv);
    }
    let ghost a = actives.deep_view();
    let ghost b = inactives.deep_view();
    let mut r = actives;
    r.append(&mut inactives);
    proof {
        assert(r.deep_view() =~= a + b);
    }
    r
}

// ---------- importing a profile ----------

/// The profile type an import resolves to: the explicit type when one
/// is given, else by extension, `.ovpn` meaning OpenVPN and `.conf` or
/// `.wg` meaning WireGuard.  Any other extension without an explicit
/// type is the ambiguous case, which is a hard error, never guessed.
pub open spec fn resolved_vpn_type(path: Seq<char>, explicit: Option<Seq<char>>) -> Option<
    Seq<char>,
> {
    match explicit {
        Some(t) => Some(t),
        None => {
            if is_suffix(path, ".ovpn"@) {
                Some("openvpn"@)
            } else if is_suffix(path, ".conf"@) || is_suffix(path, ".wg"@) {
                Some("wireguard"@)
            } else {
                None
            }
        },
    }
}

/// Resolve the profile type of an import, or fail with a fixed
/// error text when no explicit type is given and the extension decides
/// nothing.
pub fn resolve_vpn_type(path: &str, explicit: Option<String>) -> (r: Result<String, String>)
    ensures
        match r {
            Ok(t) => resolved_vpn_type(
                path@,
                match explicit {
                    Some(e) => Some(e@),
                    None => None,
                },
            ) == Some(t@),
            Err(m) => resolved_vpn_type(
                path@,
                match explicit {
                    Some(e) => Some(e@),
                    None => None,
                },
            ) is None && m@ == "VPN type required and could not be detected from extension."@,
        },
{
    match explicit {
        Some(t) => Ok(t),
        None => {
            if ends_with_str(path, ".ovpn") {
                Ok(String::from_str("openvpn"))
            } else if ends_with_str(path, ".conf") || ends_with_str(path, ".wg") {
                Ok(String::from_str("wireguard"))
            } else {
                Err(String::from_str("VPN type required and could not be detected from extension."))
            }
        },
    }
}

/// The text between the last opening parenthesis and the last closing
/// parenthesis of the import confirmation, where the tool embeds the
/// new profile's UUID; nothing when no such pair exists.
pub open spec fn uuid_of_confirmation(text: Seq<char>) -> Option<Seq<char>> {
    let a = last_pos(text, '(');
    let b = last_pos(text, ')');
    if 0 <= a && 0 <= b && a < b {
        Some(text.subrange(a + 1, b))
    } else {
        None
    }
}

/// Extract the new profile's UUID from the import confirmation text.
pub fn extract_uuid(text: &str) -> (r: Option<String>)
    ensures
        match r {
            Some(u) => uuid_of_confirmation(text@) == Some(u@),
            None => uuid_of_confirmation(text@) is None,
        },
{
    let open = rfind_char(text, '(');
    let close = rfind_char(text, ')');
    match (open, close) {
        (Some(a), Some(b)) => {
            if a < b {
                Some(text.substring_char(a + 1, b).to_owned())
            } else {
                None
            }
        },
        _ => None,
    }
}

/// The argument lists of the modify invocations that attach credentials
/// to a freshly imported profile: only the OpenVPN type uses this
/// credential channel, so for any other type the commands are empty and
/// supplied credentials are deliberately ignored.  A password also sets
/// the secret flags to zero so that it is stored.
pub open spec fn credential_commands_spec(
    vpn_type: Seq<char>,
    uuid: Seq<char>,
    username: Option<Seq<char>>,
    password: Option<Seq<char>>,
) -> Seq<Seq<Seq<char>>> {
    if vpn_type != "openvpn"@ {
        Seq::empty()
    } else {
        let user_part: Seq<Seq<Seq<char>>> = match username {
            Some(u) => seq![
                seq!["connection"@, "modify"@, uuid, "+vpn.data"@, "username="@ + u],
            ],
            None => Seq::empty(),
        };
        let pass_part: Seq<Seq<Seq<char>>> = match password {
            Some(p) => seq![
                seq!["connection"@, "modify"@, uuid, "+vpn.secrets"@, "password="@ + p],
                seq!["connection"@, "modify"@, uuid, "vpn.secrets-flags"@, "0"@],
            ],
            None => Seq::empty(),
        };
        user_part + pass_part
    }
}

/// Build the credential-attachment commands for an imported profile.
pub fn credential_commands(
    vpn_type: &str,
    uuid: &str,
    username: Option<&String>,
    password: Option<&String>,
) -> (r: Vec<Vec<String>>)
    ensures
        r.deep_view() == credential_commands_spec(
            vpn_type@,
            uuid@,
            match username {
                Some(u) => Some(u@),
                None => None,
            },
            match password {
                Some(p) => Some(p@),
                None => None,
            },
        ),
{
    let mut r: Vec<Vec<String>> = Vec::new();
    if !str_eq(vpn_type, "openvpn") {
        proof {
            assert(r.deep_view() =~= credential_commands_spec(
                vpn_type@,
                uuid@,
                match username {
                    Some(u) => Some(u@),
                    None => None,
                },
                match password {
                    Some(p) => Some(p@),
                    None => None,
                },
            ));
        }
        return r;
    }
    match username {
        Some(u) => {
            let mut arg = String::from_str("username=");
            arg.append(u.as_str());
            let mut cmd: Vec<String> = Vec::new();
            cmd.push(String::from_str("connection"));
            cmd.push(String::from_str("modify"));
            cmd.push(uuid.to_owned());
            cmd.push(String::from_str("+vpn.data"));
            cmd.push(arg);
            proof {
                assert(cmd.deep_view() =~= seq![
                    "connection"@,
                    "modify"@,
                    uuid@,
                    "+vpn.data"@,
                    "username="@ + u@,
                ]);
            }
            r.push(cmd);
        },
        None => {},
    }
    match password {
        Some(p) => {
            let mut arg = String::from_str("password=");
            arg.append(p.as_str());
            let mut cmd: Vec<String> = Vec::new();
            cmd.push(String::from_str("connection"));
            cmd.push(String::from_str("modify"));
            cmd.push(uuid.to_owned());
            cmd.push(String::from_str("+vpn.secrets"));
            cmd.push(arg);
            proof {
                assert(cmd.deep_view() =~= seq![
                    "connection"@,
                    "modify"@,
                    uuid@,
                    "+vpn.secrets"@,
                    "password="@ + p@,
                ]);
            }
            r.push(cmd);
            let mut flags: Vec<String> = Vec::new();
            flags.push(String::from_str("connection"));
            flags.push(String::from_str("modify"));
            flags.push(uuid.to_owned());
            flags.push(String::from_str("vpn.secrets-flags"));
            flags.push(String::from_str("0"));
            proof {
                assert(flags.deep_view() =~= seq![
                    "connection"@,
                    "modify"@,
                    uuid@,
                    "vpn.secrets-flags"@,
                    "0"@,
                ]);
            }
            r.push(flags);
        },
        None => {},
    }
    proof {
        assert(r.deep_view() =~= credential_commands_spec(
            vpn_type@,
            uuid@,
            match username {
                Some(u) => Some(u@),
                None => None,
            },
            match password {
                Some(p) => Some(p@),
                None => None,
            },
        ));
    }
    r
}

} // verus!
