//! Tests of the shell-facing helpers: bluetooth listings, package and
//! update parsing, desktop entries, system information, appearance,
//! startup commands, the wallpaper helpers and the text primitives.

use archpanel::appearance::{
    appearance_commands, cursor_size_from_conf, current_appearance, gsettings_value,
    theme_conf_content,
};
use archpanel::apps::{
    parse_desktop_entry, parse_owner_package, parse_package_list, sort_apps_by_name,
    uninstall_command, AppItem,
};
use archpanel::bluetooth::{
    bluetooth_powered, connect_feedback, parse_device_list, ScanState,
};
use archpanel::settings::{
    color_scheme_for_theme, waybar_position_from_config, AppSettings,
};
use archpanel::system::{
    build_system_info, parse_hostnamectl, parse_pretty_name, theme_from_color_scheme,
};
use archpanel::terminal::{terminal_candidates, terminal_launch_args};
use archpanel::text::{
    parse_i32_or, parse_u8_or_zero, remove_char, remove_substr, replace_char, split_str, trim_str,
};
use archpanel::updates::{parse_update_list, update_command};
use archpanel::wallpaper::{wallpaper_base64, wallpaper_path, wallpaper_script};
use archpanel::startup::{parse_startup_commands, startup_conf_content};
use archpanel::{default_enabled, default_waybar_position};

fn strings(items: &[&str]) -> Vec<String> {
    items.iter().map(|s| s.to_string()).collect()
}

#[test]
fn bluetooth_device_listing_filters_junk() {
    let raw = "Device AA:BB:CC:DD:EE:FF My Headset Pro\nDevice 11:22:33:44:55:66 11-22-33-44-55-66\nController AA:BB:CC:DD:EE:00 host\nDevice AA:BB:CC:DD:EE:01";
    let devices = parse_device_list(raw);
    assert_eq!(devices.len(), 1);
    assert_eq!(devices[0].mac, "AA:BB:CC:DD:EE:FF");
    assert_eq!(devices[0].name, "My Headset Pro");
    assert!(!devices[0].connected);
    assert!(devices[0].paired);
}

#[test]
fn bluetooth_alias_filter_ignores_ascii_case() {
    let raw = "Device AA:BB:CC:DD:EE:FF aa-bb-cc-dd-ee-ff";
    assert!(parse_device_list(raw).is_empty());
}

#[test]
fn bluetooth_status_and_connect_feedback() {
    assert!(bluetooth_powered("Controller X\n\tPowered: yes\n"));
    assert!(!bluetooth_powered("Controller X\n\tPowered: no\n"));
    assert_eq!(
        connect_feedback("Attempting... Connection successful\n").unwrap(),
        "Connected"
    );
    assert_eq!(
        connect_feedback("Device not available").unwrap_err(),
        "Device not available"
    );
}

#[test]
fn scan_handle_start_is_idempotent() {
    let mut state = ScanState::new();
    assert!(!state.running);
    assert!(state.start());
    assert!(state.running);
    assert!(!state.start());
    assert!(state.running);
    state.stop();
    assert!(!state.running);
    state.stop();
    assert!(!state.running);
}

#[test]
fn package_listing_parses_name_and_version() {
    let rows = parse_package_list("bash 5.2.026-2\nzlib 1:1.3.1-2\nbroken\n");
    assert_eq!(rows.len(), 2);
    assert_eq!(rows[0].name, "bash");
    assert_eq!(rows[0].version, "5.2.026-2");
    assert_eq!(rows[1].name, "zlib");
    assert_eq!(rows[1].version, "1:1.3.1-2");
}

#[test]
fn owner_report_yields_package_name() {
    let out = "/usr/share/applications/vlc.desktop is owned by vlc 3.0.20-7\n";
    assert_eq!(parse_owner_package(out).unwrap(), "vlc");
}

#[test]
fn owner_report_errors_are_distinct() {
    assert_eq!(
        parse_owner_package("error: no package owns that file").unwrap_err(),
        "Could not parse package owner"
    );
    assert_eq!(
        parse_owner_package("/some/path is owned by \n").unwrap_err(),
        "Could not parse package name"
    );
}

#[test]
fn desktop_entry_accepted_with_first_values_winning() {
    let content = "[Desktop Entry]\nType=Application\nName=Files\nName=Second\nIcon=folder\nComment=Browse files\n";
    let app = parse_desktop_entry(
        content,
        "files.desktop".to_string(),
        "/usr/share/applications/files.desktop".to_string(),
    )
    .expect("entry accepted");
    assert_eq!(app.name, "Files");
    assert_eq!(app.icon, "folder");
    assert_eq!(app.description, "Browse files");
    assert_eq!(app.desktop_file, "files.desktop");
    assert_eq!(app.full_path, "/usr/share/applications/files.desktop");
}

#[test]
fn desktop_entry_rejections() {
    let hidden = "Type=Application\nName=Ghost\nNoDisplay=true\n";
    assert!(parse_desktop_entry(hidden, "g.desktop".to_string(), "/g".to_string()).is_none());
    let not_app = "Name=Link\nType=Link\n";
    assert!(parse_desktop_entry(not_app, "l.desktop".to_string(), "/l".to_string()).is_none());
    let nameless = "Type=Application\nIcon=x\n";
    assert!(parse_desktop_entry(nameless, "n.desktop".to_string(), "/n".to_string()).is_none());
}

fn app_named(name: &str, file: &str) -> AppItem {
    AppItem {
        name: name.to_string(),
        icon: String::new(),
        description: String::new(),
        desktop_file: file.to_string(),
        full_path: String::new(),
    }
}

#[test]
fn apps_sort_case_insensitively_and_stably() {
    let apps = vec![
        app_named("Browser", "1"),
        app_named("archiver", "2"),
        app_named("Archiver", "3"),
        app_named("zip", "4"),
    ];
    let sorted = sort_apps_by_name(apps);
    let order: Vec<(&str, &str)> = sorted
        .iter()
        .map(|a| (a.name.as_str(), a.desktop_file.as_str()))
        .collect();
    assert_eq!(
        order,
        vec![("archiver", "2"), ("Archiver", "3"), ("Browser", "1"), ("zip", "4")]
    );
}

#[test]
fn update_listing_parses_triples() {
    let raw = "alsa-card-profiles 1:1.0.7-1 -> 1:1.0.8-1\nbash 5.2-1 -> 5.3-1\nnot enough\n";
    let rows = parse_update_list(raw);
    assert_eq!(rows.len(), 2);
    assert_eq!(rows[0].name, "alsa-card-profiles");
    assert_eq!(rows[0].old_version, "1:1.0.7-1");
    assert_eq!(rows[0].new_version, "1:1.0.8-1");
    assert_eq!(rows[1].name, "bash");
}

#[test]
fn privileged_commands_are_fixed() {
    assert_eq!(update_command(), "sudo pacman -Syu");
    assert_eq!(uninstall_command("vlc"), "sudo pacman -R vlc");
}

#[test]
fn terminal_preference_order_is_fixed() {
    assert_eq!(
        terminal_candidates(),
        strings(&[
            "kitty",
            "alacritty",
            "wezterm",
            "gnome-terminal",
            "konsole",
            "xfce4-terminal",
        ])
    );
}

#[test]
fn terminal_argument_shapes_by_family() {
    let wrapped = "sudo pacman -Syu; echo; read -p 'Press Enter to close...' -n 1";
    assert_eq!(
        terminal_launch_args("kitty", "sudo pacman -Syu").unwrap(),
        strings(&["-e", "sh", "-c", wrapped])
    );
    assert_eq!(
        terminal_launch_args("gnome-terminal", "sudo pacman -Syu").unwrap(),
        strings(&["--", "bash", "-c", wrapped])
    );
    assert_eq!(
        terminal_launch_args("konsole", "sudo pacman -Syu").unwrap(),
        strings(&["-e", "bash", "-c", wrapped])
    );
    assert!(terminal_launch_args("xterm", "sudo pacman -Syu").is_none());
}

#[test]
fn hostnamectl_fields_are_extracted() {
    let raw = " Static hostname: arch-box\nOperating System: Arch Linux\n          Kernel: Linux 6.10.2-arch1-1\n";
    let (os, kernel) = parse_hostnamectl(raw);
    assert_eq!(os, "Arch Linux");
    assert_eq!(kernel, "Linux 6.10.2-arch1-1");
}

#[test]
fn pretty_name_is_unquoted() {
    let raw = "NAME=\"Arch Linux\"\nPRETTY_NAME=\"Arch Linux\"\nID=arch\n";
    assert_eq!(parse_pretty_name(raw).unwrap(), "Arch Linux");
    assert!(parse_pretty_name("ID=arch\n").is_none());
}

#[test]
fn system_info_fallback_chain() {
    let info = build_system_info(
        Some("arch-box\n"),
        None,
        Some("PRETTY_NAME=\"Arch Linux\"\n"),
        Some("6.10.2-arch1-1\n"),
        Some(" AMD Ryzen 7 \n"),
        Some("31Gi\n"),
        Some("\n"),
    );
    assert_eq!(info.hostname, "arch-box");
    assert_eq!(info.os_name, "Arch Linux");
    assert_eq!(info.kernel_version, "6.10.2-arch1-1");
    assert_eq!(info.cpu_model, "AMD Ryzen 7");
    assert_eq!(info.memory_total, "31Gi");
    assert_eq!(info.gpu_info, "Unknown");
}

#[test]
fn system_info_prefers_host_status_report() {
    let raw = "Operating System: Arch Linux\nKernel: Linux 6.10\n";
    let info = build_system_info(
        Some("host\n"),
        Some(raw),
        Some("PRETTY_NAME=\"Other\"\n"),
        Some("ignored\n"),
        None,
        None,
        Some(" NVIDIA Card \n"),
    );
    assert_eq!(info.os_name, "Arch Linux");
    assert_eq!(info.kernel_version, "Linux 6.10");
    assert_eq!(info.cpu_model, "Unknown");
    assert_eq!(info.memory_total, "Unknown");
    assert_eq!(info.gpu_info, "NVIDIA Card");
}

#[test]
fn color_scheme_reading_is_dark_or_light() {
    assert_eq!(theme_from_color_scheme(Some("'prefer-dark'\n")), "dark");
    assert_eq!(theme_from_color_scheme(Some("'default'\n")), "light");
    assert_eq!(theme_from_color_scheme(None), "light");
}

#[test]
fn settings_defaults_and_scheme_choice() {
    let settings = AppSettings::default();
    assert_eq!(settings.theme, "light");
    assert_eq!(settings.waybar_position, "top");
    assert_eq!(default_waybar_position(), "top");
    assert!(default_enabled());
    assert_eq!(color_scheme_for_theme("dark"), "prefer-dark");
    assert_eq!(color_scheme_for_theme("light"), "default");
}

#[test]
fn waybar_position_read_from_config() {
    let cfg = "{\n  // bar\n  \"position\": \"bottom\",\n}\n";
    assert_eq!(waybar_position_from_config(cfg), "bottom");
    assert_eq!(waybar_position_from_config("{}\n"), "top");
    let unknown = "\"position\": \"diagonal\"\n\"position\": \"left\"\n";
    assert_eq!(waybar_position_from_config(unknown), "left");
}

#[test]
fn appearance_commands_scenario() {
    let cmds = appearance_commands("Bibata", 32, "Adwaita-dark", true);
    assert_eq!(cmds.len(), 5);
    assert_eq!(
        cmds[0],
        strings(&[
            "gsettings",
            "set",
            "org.gnome.desktop.interface",
            "color-scheme",
            "prefer-dark",
        ])
    );
    assert_eq!(
        cmds[4],
        strings(&["hyprctl", "setcursor", "Bibata", "32"])
    );
}

#[test]
fn theme_conf_text_round_trips_cursor_size() {
    let content = theme_conf_content("Bibata", 32, "Adwaita", false);
    assert!(content.starts_with(
        "exec = gsettings set org.gnome.desktop.interface color-scheme 'prefer-light'\n"
    ));
    assert!(content.ends_with("exec = hyprctl setcursor Bibata 32\n"));
    assert_eq!(cursor_size_from_conf(&content), 32);
}

#[test]
fn cursor_size_defaults_and_last_match_wins() {
    assert_eq!(cursor_size_from_conf("no cursor line here\n"), 24);
    let two = "exec = hyprctl setcursor A 20\nexec = hyprctl setcursor B 48\n";
    assert_eq!(cursor_size_from_conf(two), 48);
    let bad = "exec = hyprctl setcursor A 20\nexec = hyprctl setcursor B huge\n";
    assert_eq!(cursor_size_from_conf(bad), 20);
}

#[test]
fn appearance_state_defaults() {
    let state = current_appearance(Some("''\n"), Some("'Adwaita-dark'\n"), Some("'default'"), None);
    assert_eq!(state.cursor_theme, "Adwaita");
    assert_eq!(state.gtk_theme, "Adwaita-dark");
    assert_eq!(state.color_scheme, "default");
    assert_eq!(state.cursor_size, 24);
    assert_eq!(gsettings_value(" 'Bibata' \n"), "Bibata");
}

#[test]
fn wallpaper_encoding_matches_known_value() {
    let bytes: Vec<u8> = b"hello".to_vec();
    assert_eq!(wallpaper_base64(&bytes), "aGVsbG8=");
    assert_eq!(wallpaper_base64(&Vec::new()), "");
    let raw: Vec<u8> = vec![0xff, 0xff];
    assert_eq!(wallpaper_base64(&raw), "//8=");
}

#[test]
fn wallpaper_location_and_script() {
    assert_eq!(
        wallpaper_path("/home/user"),
        "/home/user/.config/hypr/themes/background.png"
    );
    assert_eq!(wallpaper_script("").unwrap_err(), "File path is empty");
    let script = wallpaper_script("/tmp/bg.png").unwrap();
    assert!(script.contains("cp \"/tmp/bg.png\" ~/.config/hypr/themes/background.png"));
    assert!(script.contains("swww img ~/.config/hypr/themes/background.png"));
}

#[test]
fn startup_commands_round_trip() {
    let conf = "exec-once = waybar\n# a comment\n  exec-once=  swww init  \nexec waybar\n";
    let cmds = parse_startup_commands(conf);
    assert_eq!(cmds, strings(&["waybar", "swww init"]));
    let written = startup_conf_content(&strings(&["waybar", "  ", "swww init "]));
    assert_eq!(written, "exec-once = waybar\nexec-once = swww init\n");
    assert_eq!(parse_startup_commands(&written), strings(&["waybar", "swww init"]));
}

#[test]
fn number_parsing_matches_standard_behaviour() {
    assert_eq!(parse_u8_or_zero("45"), 45);
    assert_eq!(parse_u8_or_zero("+45"), 45);
    assert_eq!(parse_u8_or_zero("045"), 45);
    assert_eq!(parse_u8_or_zero("256"), 0);
    assert_eq!(parse_u8_or_zero(""), 0);
    assert_eq!(parse_u8_or_zero("4x"), 0);
    assert_eq!(parse_i32_or("-12", 24), -12);
    assert_eq!(parse_i32_or("2147483647", 24), 2147483647);
    assert_eq!(parse_i32_or("-2147483648", 24), -2147483648);
    assert_eq!(parse_i32_or("2147483648", 24), 24);
    assert_eq!(parse_i32_or("abc", 24), 24);
}

#[test]
fn text_primitives_behave_like_std() {
    assert_eq!(split_str("a::b", ':'), strings(&["a", "", "b"]));
    assert_eq!(split_str("", ':'), strings(&[""]));
    assert_eq!(trim_str("  x y\t\n"), "x y");
    assert_eq!(replace_char("a-b-c", '-', ':'), "a:b:c");
    assert_eq!(remove_char("'quoted'", '\''), "quoted");
    assert_eq!(remove_substr("PRETTY_NAME=x", "PRETTY_NAME="), "x");
    assert_eq!(remove_substr("abcabc", "bc"), "aa");
}
