//! Appearance configuration: the settings commands a theme change
//! issues, the theme configuration text it persists, and reading the
//! current state back, cursor size included.

use vstd::prelude::*;
use vstd::string::*;

use crate::text::{
    contains_str, dec_digits, has_substring, lines_of, lines_spec, parse_u32_opt, parsed_u32_opt,
    remove_char, remove_char_spec, split_whitespace_str, tokens, trim_spec, trim_str,
    u32_to_string,
};

verus! {

/// A theme found on disk, its name and its directory.
#[derive(Debug, Clone, PartialEq)]
pub struct ThemeInfo {
    pub name: String,
    pub path: String,
}

/// The mathematical image of a theme entry.
pub struct ThemeInfoData {
    pub name: Seq<char>,
    pub path: Seq<char>,
}

impl View for ThemeInfo {
    type V = ThemeInfoData;

    open spec fn view(&self) -> ThemeInfoData {
        ThemeInfoData { name: self.name@, path: self.path@ }
    }
}

/// The current appearance of the desktop.
#[derive(Debug, Clone, PartialEq)]
pub struct AppearanceState {
    pub cursor_theme: String,
    pub cursor_size: u32,
    pub gtk_theme: String,
    pub color_scheme: String,
}

/// The mathematical image of the appearance state.
pub struct AppearanceStateData {
    pub cursor_theme: Seq<char>,
    pub cursor_size: u32,
    pub gtk_theme: Seq<char>,
    pub color_scheme: Seq<char>,
}

impl View for AppearanceState {
    type V = AppearanceStateData;

    open spec fn view(&self) -> AppearanceStateData {
        AppearanceStateData {
            cursor_theme: self.cursor_theme@,
            cursor_size: self.cursor_size,
            gtk_theme: self.gtk_theme@,
            color_scheme: self.color_scheme@,
        }
    }
}

/// A value as the settings tool prints it, trimmed and unquoted.
pub fn gsettings_value(raw: &str) -> (r: String)
    ensures
        r@ == remove_char_spec(trim_spec(raw@), '\''),
{
    let trimmed = trim_str(raw);
    remove_char(trimmed.as_str(), '\'')
}

/// The command lines that apply an appearance choice: four settings
/// writes and the compositor's cursor call, in the order they run.
pub open spec fn appearance_commands_spec(
    cursor_theme: Seq<char>,
    cursor_size: u32,
    gtk_theme: Seq<char>,
    dark_mode: bool,
) -> Seq<Seq<Seq<char>>> {
    let scheme: Seq<char> = if dark_mode {
        "prefer-dark"@
    } else {
        "prefer-light"@
    };
    seq![
        seq!["gsettings"@, "set"@, "org.gnome.desktop.interface"@, "color-scheme"@, scheme],
        seq!["gsettings"@, "set"@, "org.gnome.desktop.interface"@, "gtk-theme"@, gtk_theme],
        seq!["gsettings"@, "set"@, "org.gnome.shell.extensions.user-theme"@, "name"@, gtk_theme],
        seq![
            "gsettings"@,
            "set"@,
            "org.gnome.desktop.interface"@,
            "cursor-theme"@,
            cursor_theme,
        ],
        seq!["hyprctl"@, "setcursor"@, cursor_theme, dec_digits(cursor_size as nat)],
    ]
}

/// Build the command lines that apply an appearance choice.
pub fn appearance_commands(
    cursor_theme: &str,
    cursor_size: u32,
    gtk_theme: &str,
    dark_mode: bool,
) -> (r: Vec<Vec<String>>)
    ensures
        r.deep_view() == appearance_commands_spec(cursor_theme@, cursor_size, gtk_theme@, dark_mode),
{
    let scheme = if dark_mode {
        String::from_str("prefer-dark")
    } else {
        String::from_str("prefer-light")
    };
    let mut first: Vec<String> = Vec::new();
    first.push(String::from_str("gsettings"));
    first.push(String::from_str("set"));
    first.push(String::from_str("org.gnome.desktop.interface"));
    first.push(String::from_str("color-scheme"));
    first.push(scheme);
    let mut second: Vec<String> = Vec::new();
    second.push(String::from_str("gsettings"));
    second.push(String::from_str("set"));
    second.push(String::from_str("org.gnome.desktop.interface"));
    second.push(String::from_str("gtk-theme"));
    second.push(gtk_theme.to_owned());
    let mut third: Vec<String> = Vec::new();
    third.push(String::from_str("gsettings"));
    third.push(String::from_str("set"));
    third.push(String::from_str("org.gnome.shell.extensions.user-theme"));
    third.push(String::from_str("name"));
    third.push(gtk_theme.to_owned());
    let mut fourth: Vec<String> = Vec::new();
    fourth.push(String::from_str("gsettings"));
    fourth.push(String::from_str("set"));
    fourth.push(String::from_str("org.gnome.desktop.interface"));
    fourth.push(String::from_str("cursor-theme"));
    fourth.push(cursor_theme.to_owned());
    let mut fifth: Vec<String> = Vec::new();
    fifth.push(String::from_str("hyprctl"));
    fifth.push(String::from_str("setcursor"));
    fifth.push(cursor_theme.to_owned());
    fifth.push(u32_to_string(cursor_size));
    let mut r: Vec<Vec<String>> = Vec::new();
    r.push(first);
    r.push(second);
    r.push(third);
    r.push(fourth);
    r.push(fifth);
    proof {
        assert(r.deep_view()[0] =~= appearance_commands_spec(
            cursor_theme@,
            cursor_size,
            gtk_theme@,
            dark_mode,
        )[0]);
        assert(r.deep_view()[1] =~= appearance_commands_spec(
            cursor_theme@,
            cursor_size,
            gtk_theme@,
            dark_mode,
        )[1]);
        assert(r.deep_view()[2] =~= appearance_commands_spec(
            cursor_theme@,
            cursor_size,
            gtk_theme@,
            dark_mode,
        )[2]);
        assert(r.deep_view()[3] =~= appearance_commands_spec(
            cursor_theme@,
            cursor_size,
            gtk_theme@,
            dark_mode,
        )[3]);
        assert(r.deep_view()[4] =~= appearance_commands_spec(
            cursor_theme@,
            cursor_size,
            gtk_theme@,
            dark_mode,
        )[4]);
        assert(r.deep_view() =~= appearance_commands_spec(
            cursor_theme@,
            cursor_size,
            gtk_theme@,
            dark_mode,
        ));
    }
    r
}

/// The theme configuration text a choice persists: the same five
/// commands as startup lines.
pub open spec fn theme_conf_spec(
    cursor_theme: Seq<char>,
    cursor_size: u32,
    gtk_theme: Seq<char>,
    dark_mode: bool,
) -> Seq<char> {
    let scheme: Seq<char> = if dark_mode {
        "prefer-dark"@
    } else {
        "prefer-light"@
    };
    "exec = gsettings set org.gnome.desktop.interface color-scheme '"@ + scheme
        + "'\nexec = gsettings set org.gnome.desktop.interface gtk-theme '"@ + gtk_theme
        + "'\nexec = gsettings set org.gnome.shell.extensions.user-theme name '"@ + gtk_theme
        + "'\nexec = gsettings set org.gnome.desktop.interface cursor-theme '"@ + cursor_theme
        + "'\nexec = hyprctl setcursor "@ + cursor_theme + " "@ + dec_digits(cursor_size as nat)
        + "\n"@
}

/// Render the theme configuration text for a choice.
pub fn theme_conf_content(
    cursor_theme: &str,
    cursor_size: u32,
    gtk_theme: &str,
    dark_mode: bool,
) -> (r: String)
    ensures
        r@ == theme_conf_spec(cursor_theme@, cursor_size, gtk_theme@, dark_mode),
{
    let mut r = String::from_str(
        "exec = gsettings set org.gnome.desktop.interface color-scheme '",
    );
    if dark_mode {
        r.append("prefer-dark");
    } else {
        r.append("prefer-light");
    }
    r.append("'\nexec = gsettings set org.gnome.desktop.interface gtk-theme '");
    r.append(gtk_theme);
    r.append("'\nexec = gsettings set org.gnome.shell.extensions.user-theme name '");
    r.append(gtk_theme);
    r.append("'\nexec = gsettings set org.gnome.desktop.interface cursor-theme '");
    r.append(cursor_theme);
    r.append("'\nexec = hyprctl setcursor ");
    r.append(cursor_theme);
    r.append(" ");
    let size = u32_to_string(cursor_size);
    r.append(size.as_str());
    r.append("\n");
    r
}

/// The cursor size the theme configuration text records: the last
/// line mentioning the compositor's cursor call whose final
/// whitespace token is a number; without one, twenty-four.
pub open spec fn cursor_size_of(lines: Seq<Seq<char>>) -> u32
    decreases lines.len(),
{
    if lines.len() == 0 {
        24
    } else if has_substring(lines.last(), "hyprctl setcursor"@) && tokens(lines.last()).len() > 0
        && parsed_u32_opt(tokens(lines.last()).last()) is Some {
        parsed_u32_opt(tokens(lines.last()).last())->Some_0
    } else {
        cursor_size_of(lines.drop_last())
    }
}

/// Read the cursor size out of the theme configuration text.
pub fn cursor_size_from_conf(text: &str) -> (r: u32)
    ensures
        r == cursor_size_of(lines_spec(text@)),
{
    let lines = lines_of(text);
    let ghost lv = lines.deep_view();
    let mut size: u32 = 24;
    let mut li: usize = 0;
    proof {
        assert(lv.take(0) =~= Seq::<Seq<char>>::empty());
    }
    while li < lines.len()
        invariant
            li <= lines.len(),
            lv == lines.deep_view(),
            lv.len() == lines.len(),
            size == cursor_size_of(lv.take(li as int)),
        decreases lines.len() - li,
    {
        let line = lines[li].as_str();
        proof {
            assert(lv.take(li + 1).drop_last() =~= lv.take(li as int));
            assert(lv.take(li + 1).last() == lv[li as int]);
            assert(lines@[li as int]@ == lv[li as int]);
        }
        if contains_str(line, "hyprctl setcursor") {
            let parts = split_whitespace_str(line);
            if parts.len() > 0 {
                proof {
                    assert(parts.deep_view()[parts.len() - 1] == parts@[parts.len() - 1]@);
                    assert(parts.deep_view().last() == parts.deep_view()[parts.len() - 1]);
                }
                match parse_u32_opt(parts[parts.len() - 1].as_str()) {
                    Some(v) => {
                        size = v;
                    },
                    None => {},
                }
            }
        }
        li += 1;
    }
    proof {
        assert(lv.take(lines.len() as int) =~= lv);
    }
    size
}

/// Assemble the current appearance out of the settings tool's raw
/// outputs and the theme configuration text: missing or blank themes
/// fall back to the stock theme, a missing configuration leaves the
/// cursor at twenty-four.
pub fn current_appearance(
    cursor_raw: Option<&str>,
    gtk_raw: Option<&str>,
    scheme_raw: Option<&str>,
    conf: Option<&str>,
) -> (r: AppearanceState)
    ensures
        ({
            let cursor = match cursor_raw {
                Some(s) => remove_char_spec(trim_spec(s@), '\''),
                None => Seq::empty(),
            };
            r@.cursor_theme == if cursor.len() == 0 {
                "Adwaita"@
            } else {
                cursor
            }
        }),
        ({
            let gtk = match gtk_raw {
                Some(s) => remove_char_spec(trim_spec(s@), '\''),
                None => Seq::empty(),
            };
            r@.gtk_theme == if gtk.len() == 0 {
                "Adwaita"@
            } else {
                gtk
            }
        }),
        r@.color_scheme == match scheme_raw {
            Some(s) => remove_char_spec(trim_spec(s@), '\''),
            None => Seq::empty(),
        },
        r@.cursor_size == match conf {
            Some(t) => cursor_size_of(lines_spec(t@)),
            None => 24,
        },
{
    let cursor = match cursor_raw {
        Some(s) => gsettings_value(s),
        None => String::new(),
    };
    let gtk = match gtk_raw {
        Some(s) => gsettings_value(s),
        None => String::new(),
    };
    let color_scheme = match scheme_raw {
        Some(s) => gsettings_value(s),
        None => String::new(),
    };
    let cursor_size = match conf {
        Some(t) => cursor_size_from_conf(t),
        None => 24,
    };
    let cursor_theme = if cursor.as_str().unicode_len() == 0 {
        String::from_str("Adwaita")
    } else {
        cursor
    };
    let gtk_theme = if gtk.as_str().unicode_len() == 0 {
        String::from_str("Adwaita")
    } else {
        gtk
    };
    AppearanceState { cursor_theme, cursor_size, gtk_theme, color_scheme }
}

} // verus!
