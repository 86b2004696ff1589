//! Tests of the network profile reconciler: scan parsing and
//! deduplication, profile reads and writes, and the VPN listing and
//! import helpers.

use archpanel::profile::{
    classify_apply_outcome, default_wifi_config, modify_profile_args, wifi_config_from_show,
    ApplyOutcome, WifiConfig,
};
use archpanel::vpn::{
    credential_commands, extract_uuid, parse_vpn_list, resolve_vpn_type,
};
use archpanel::wifi::{
    connect_wifi_args, parse_scan_line, parse_scan_output, radio_state_arg, wifi_enabled_output,
};

#[test]
fn scan_line_reconstructs_embedded_colons() {
    let net = parse_scan_line("no:My:Weird:SSID:WPA2:_:45").expect("line parses");
    assert_eq!(net.ssid, "My:Weird:SSID");
    assert_eq!(net.security, "WPA2");
    assert_eq!(net.bars, "_");
    assert_eq!(net.signal, 45);
    assert!(!net.active);
}

#[test]
fn scan_line_too_few_fields_is_discarded() {
    assert!(parse_scan_line("yes:OnlyFour:WPA2:45").is_none());
    assert!(parse_scan_line("").is_none());
}

#[test]
fn scan_line_empty_ssid_is_discarded() {
    assert!(parse_scan_line("no::WPA2:__:45").is_none());
}

#[test]
fn scan_line_bad_signal_parses_as_zero() {
    let net = parse_scan_line("no:Net:WPA2:__:4x5").expect("line parses");
    assert_eq!(net.signal, 0);
    let net = parse_scan_line("no:Net:WPA2:__:999").expect("line parses");
    assert_eq!(net.signal, 0);
}

#[test]
fn scan_output_scenario() {
    let raw = "no:Home Network:WPA2:▂▄__:45\nyes:Office:Net:WPA2:▂▄▆_:70\nno:Home Network:WPA2:▂▄▆█:85";
    let nets = parse_scan_output(raw);
    assert_eq!(nets.len(), 2);
    assert_eq!(nets[0].ssid, "Office:Net");
    assert!(nets[0].active);
    assert_eq!(nets[0].signal, 70);
    assert_eq!(nets[1].ssid, "Home Network");
    assert!(!nets[1].active);
    assert_eq!(nets[1].signal, 85);
    assert_eq!(nets[1].bars, "▂▄▆█");
}

#[test]
fn scan_twice_yields_same_list() {
    let raw = "no:A:WPA2:__:45\nyes:B:WPA2:__:70\nno:A:WPA2:__:85\nno:A:WPA2:__:60";
    let first = parse_scan_output(raw);
    let second = parse_scan_output(raw);
    assert_eq!(first, second);
    assert_eq!(first.len(), 2);
}

#[test]
fn active_record_wins_regardless_of_order() {
    let active_first = parse_scan_output("yes:Net:WPA2:__:10\nno:Net:WPA2:__:90");
    let active_last = parse_scan_output("no:Net:WPA2:__:90\nyes:Net:WPA2:__:10");
    assert_eq!(active_first.len(), 1);
    assert_eq!(active_last.len(), 1);
    assert!(active_first[0].active);
    assert_eq!(active_first[0].signal, 10);
    assert!(active_last[0].active);
    assert_eq!(active_last[0].signal, 10);
}

#[test]
fn higher_signal_wins_with_same_flag() {
    let weaker_first = parse_scan_output("no:Net:WPA2:__:30\nno:Net:WPA2:__:80");
    let stronger_first = parse_scan_output("no:Net:WPA2:__:80\nno:Net:WPA2:__:30");
    assert_eq!(weaker_first.len(), 1);
    assert_eq!(weaker_first[0].signal, 80);
    assert_eq!(stronger_first.len(), 1);
    assert_eq!(stronger_first[0].signal, 80);
}

#[test]
fn equal_records_keep_the_first() {
    let nets = parse_scan_output("no:Net:WPA2:aa:50\nno:Net:WPA2:bb:50");
    assert_eq!(nets.len(), 1);
    assert_eq!(nets[0].bars, "aa");
}

#[test]
fn output_sorted_active_first_then_signal() {
    let nets = parse_scan_output(
        "no:C:WPA2:__:20\nno:A:WPA2:__:90\nyes:B:WPA2:__:10\nno:D:WPA2:__:50",
    );
    let order: Vec<&str> = nets.iter().map(|n| n.ssid.as_str()).collect();
    assert_eq!(order, vec!["B", "A", "D", "C"]);
}

#[test]
fn empty_scan_output_is_valid() {
    assert_eq!(parse_scan_output("").len(), 0);
}

#[test]
fn scan_output_tolerates_line_endings() {
    let nets = parse_scan_output("yes:A:WPA2:__:50\r\nno:B:WPA2:__:40\n");
    assert_eq!(nets.len(), 2);
    assert_eq!(nets[0].ssid, "A");
    assert_eq!(nets[0].signal, 50);
    assert_eq!(nets[1].ssid, "B");
    assert_eq!(nets[1].signal, 40);
}

#[test]
fn missing_profile_yields_default_config() {
    let cfg = wifi_config_from_show(None);
    assert_eq!(cfg.method, "auto");
    assert_eq!(cfg.ip_address, "");
    assert_eq!(cfg.prefix, 24);
    assert_eq!(cfg.gateway, "");
    assert_eq!(cfg.dns, "");
    assert_eq!(cfg, default_wifi_config());
}

#[test]
fn short_profile_output_yields_default_config() {
    let cfg = wifi_config_from_show(Some("manual\n1.2.3.4/8"));
    assert_eq!(cfg, default_wifi_config());
}

#[test]
fn persisted_fields_win_over_live_state() {
    let out = "manual\n192.168.1.50/24\n192.168.1.1\n8.8.8.8\n10.0.0.2/16\n10.0.0.1\n1.1.1.1";
    let cfg = wifi_config_from_show(Some(out));
    assert_eq!(cfg.method, "manual");
    assert_eq!(cfg.ip_address, "192.168.1.50");
    assert_eq!(cfg.prefix, 24);
    assert_eq!(cfg.gateway, "192.168.1.1");
    assert_eq!(cfg.dns, "8.8.8.8");
}

#[test]
fn live_state_fills_empty_persisted_fields() {
    let out = "\n\n\n\n10.0.0.2/16\n10.0.0.1\n1.1.1.1";
    let cfg = wifi_config_from_show(Some(out));
    assert_eq!(cfg.method, "auto");
    assert_eq!(cfg.ip_address, "10.0.0.2");
    assert_eq!(cfg.prefix, 16);
    assert_eq!(cfg.gateway, "10.0.0.1");
    assert_eq!(cfg.dns, "1.1.1.1");
}

#[test]
fn address_without_slash_defaults_prefix() {
    let out = "auto\n172.16.0.9\n\n\n\n\n";
    let cfg = wifi_config_from_show(Some(out));
    assert_eq!(cfg.ip_address, "172.16.0.9");
    assert_eq!(cfg.prefix, 24);
}

#[test]
fn unparsable_prefix_defaults_to_twenty_four() {
    let out = "auto\n172.16.0.9/abc\n\n\n\n\n";
    let cfg = wifi_config_from_show(Some(out));
    assert_eq!(cfg.ip_address, "172.16.0.9");
    assert_eq!(cfg.prefix, 24);
}

#[test]
fn manual_method_sets_address_and_gateway() {
    let cfg = WifiConfig {
        method: "manual".to_string(),
        ip_address: "192.168.1.10".to_string(),
        prefix: 24,
        gateway: "192.168.1.1".to_string(),
        dns: "1.1.1.1,8.8.8.8".to_string(),
    };
    let args = modify_profile_args("Home", &cfg);
    let expected: Vec<String> = [
        "connection",
        "modify",
        "Home",
        "ipv4.method",
        "manual",
        "ipv4.addresses",
        "192.168.1.10/24",
        "ipv4.gateway",
        "192.168.1.1",
        "ipv4.dns",
        "1.1.1.1,8.8.8.8",
        "ipv4.ignore-auto-dns",
        "yes",
    ]
    .iter()
    .map(|s| s.to_string())
    .collect();
    assert_eq!(args, expected);
}

#[test]
fn auto_method_clears_address_and_gateway() {
    let cfg = WifiConfig {
        method: "auto".to_string(),
        ip_address: "10.0.0.5".to_string(),
        prefix: 16,
        gateway: "10.0.0.1".to_string(),
        dns: "".to_string(),
    };
    let args = modify_profile_args("Cafe", &cfg);
    let expected: Vec<String> = [
        "connection",
        "modify",
        "Cafe",
        "ipv4.method",
        "auto",
        "ipv4.addresses",
        "",
        "ipv4.gateway",
        "",
        "ipv4.dns",
        "",
        "ipv4.ignore-auto-dns",
        "no",
    ]
    .iter()
    .map(|s| s.to_string())
    .collect();
    assert_eq!(args, expected);
}

#[test]
fn apply_outcomes_are_distinguished() {
    match classify_apply_outcome(false, "bad value", true, "") {
        ApplyOutcome::ConfigurationRejected(m) => {
            assert_eq!(m, "Failed to configure: bad value");
        }
        other => panic!("unexpected outcome: {:?}", other),
    }
    match classify_apply_outcome(true, "", false, "no carrier") {
        ApplyOutcome::AppliedButNotActivated(m) => {
            assert_eq!(m, "Configuration saved but activation failed: no carrier");
        }
        other => panic!("unexpected outcome: {:?}", other),
    }
    match classify_apply_outcome(true, "", true, "") {
        ApplyOutcome::Applied => {}
        other => panic!("unexpected outcome: {:?}", other),
    }
}

#[test]
fn vpn_list_scenario() {
    let rows = parse_vpn_list("uuid1:Work:vpn:yes\nuuid2:Home:wireguard:--");
    assert_eq!(rows.len(), 2);
    assert_eq!(rows[0].uuid, "uuid1");
    assert_eq!(rows[0].name, "Work");
    assert!(rows[0].active);
    assert_eq!(rows[0].kind, "vpn");
    assert_eq!(rows[1].uuid, "uuid2");
    assert_eq!(rows[1].name, "Home");
    assert!(!rows[1].active);
    assert_eq!(rows[1].kind, "wireguard");
}

#[test]
fn vpn_list_filters_types_and_sorts_active_first() {
    let raw = "u1:Eth:802-3-ethernet:yes\nu2:Tun:vpn:\nu3:Wg:wireguard:tun0\nu4:Casa:vpn:no";
    let rows = parse_vpn_list(raw);
    assert_eq!(rows.len(), 3);
    assert_eq!(rows[0].uuid, "u3");
    assert!(rows[0].active);
    assert_eq!(rows[1].uuid, "u2");
    assert!(!rows[1].active);
    assert_eq!(rows[2].uuid, "u4");
    assert!(!rows[2].active);
}

#[test]
fn vpn_type_resolution_scenario() {
    assert_eq!(resolve_vpn_type("vpn1.ovpn", None).unwrap(), "openvpn");
    assert_eq!(resolve_vpn_type("tunnel.conf", None).unwrap(), "wireguard");
    assert_eq!(resolve_vpn_type("wg0.wg", None).unwrap(), "wireguard");
    let err = resolve_vpn_type("profile.xyz", None).unwrap_err();
    assert_eq!(
        err,
        "VPN type required and could not be detected from extension."
    );
    assert_eq!(
        resolve_vpn_type("profile.xyz", Some("openvpn".to_string())).unwrap(),
        "openvpn"
    );
}

#[test]
fn uuid_extraction_takes_last_parenthesis_pair() {
    assert_eq!(
        extract_uuid("Connection 'office' (3fa4-99) successfully added.").unwrap(),
        "3fa4-99"
    );
    assert_eq!(extract_uuid("before (a) then (b-c) after").unwrap(), "b-c");
    assert!(extract_uuid("no parentheses here").is_none());
    assert!(extract_uuid(") reversed (").is_none());
}

#[test]
fn credentials_only_attach_for_openvpn() {
    let user = "alice".to_string();
    let pass = "pw123".to_string();
    let cmds = credential_commands("openvpn", "u-1", Some(&user), Some(&pass));
    assert_eq!(cmds.len(), 3);
    assert_eq!(
        cmds[0],
        vec!["connection", "modify", "u-1", "+vpn.data", "username=alice"]
            .iter()
            .map(|s| s.to_string())
            .collect::<Vec<String>>()
    );
    assert_eq!(
        cmds[1],
        vec![
            "connection",
            "modify",
            "u-1",
            "+vpn.secrets",
            "password=pw123"
        ]
        .iter()
        .map(|s| s.to_string())
        .collect::<Vec<String>>()
    );
    assert_eq!(
        cmds[2],
        vec!["connection", "modify", "u-1", "vpn.secrets-flags", "0"]
            .iter()
            .map(|s| s.to_string())
            .collect::<Vec<String>>()
    );
    assert!(credential_commands("wireguard", "u-1", Some(&user), Some(&pass)).is_empty());
    let only_user = credential_commands("openvpn", "u-2", Some(&user), None);
    assert_eq!(only_user.len(), 1);
}

#[test]
fn radio_helpers() {
    assert!(wifi_enabled_output("enabled\n"));
    assert!(!wifi_enabled_output("disabled\n"));
    assert_eq!(radio_state_arg(true), "on");
    assert_eq!(radio_state_arg(false), "off");
}

#[test]
fn connect_arguments_include_password_only_when_given() {
    let args = connect_wifi_args("Cafe", None);
    assert_eq!(args, vec!["dev", "wifi", "connect", "Cafe"].iter().map(|s| s.to_string()).collect::<Vec<String>>());
    let pwd = "pw456".to_string();
    let args = connect_wifi_args("Cafe", Some(&pwd));
    assert_eq!(
        args,
        vec!["dev", "wifi", "connect", "Cafe", "password", "pw456"]
            .iter()
            .map(|s| s.to_string())
            .collect::<Vec<String>>()
    );
}
