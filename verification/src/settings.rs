//! Application settings and the Waybar position: defaults, the colour
//! scheme a theme selects, and reading the position back out of the
//! bar's configuration text.

use vstd::prelude::*;
use vstd::string::*;

use crate::text::{contains_str, has_substring, lines_of, lines_spec};

verus! {

/// The application's own settings, persisted as a small configuration
/// file by the application shell.
#[derive(Debug, Clone, PartialEq)]
pub struct AppSettings {
    pub theme: String,
    pub waybar_position: String,
}

/// The mathematical image of the settings.
pub struct AppSettingsData {
    pub theme: Seq<char>,
    pub waybar_position: Seq<char>,
}

impl View for AppSettings {
    type V = AppSettingsData;

    open spec fn view(&self) -> AppSettingsData {
        AppSettingsData { theme: self.theme@, waybar_position: self.waybar_position@ }
    }
}

impl Default for AppSettings {
    /// The light theme with the bar at the top.
    fn default() -> (r: AppSettings)
        ensures
            r@.theme == "light"@,
            r@.waybar_position == "top"@,
    {
        AppSettings { theme: String::from_str("light"), waybar_position: String::from_str("top") }
    }
}

/// The position the bar takes when none is configured.
pub fn default_waybar_position() -> (r: String)
    ensures
        r@ == "top"@,
{
    String::from_str("top")
}

/// The colour scheme the settings tool is handed for a theme choice:
/// dark prefers dark, anything else restores the default.
pub fn color_scheme_for_theme(theme: &str) -> (r: String)
    ensures
        theme@ == "dark"@ ==> r@ == "prefer-dark"@,
        theme@ != "dark"@ ==> r@ == "default"@,
{
    if crate::text::str_eq(theme, "dark") {
        String::from_str("prefer-dark")
    } else {
        String::from_str("default")
    }
}

/// The position the bar's configuration text declares: the first line
/// mentioning a quoted `position` key together with one of the four
/// edges decides, earlier edges in the written order winning; without
/// such a line the bar sits at the top.
pub open spec fn waybar_position_of(lines: Seq<Seq<char>>) -> Seq<char>
    decreases lines.len(),
{
    if lines.len() == 0 {
        "top"@
    } else if has_substring(lines[0], "\"position\""@) && has_substring(lines[0], "\"top\""@) {
        "top"@
    } else if has_substring(lines[0], "\"position\""@) && has_substring(lines[0], "\"bottom\""@) {
        "bottom"@
    } else if has_substring(lines[0], "\"position\""@) && has_substring(lines[0], "\"left\""@) {
        "left"@
    } else if has_substring(lines[0], "\"position\""@) && has_substring(lines[0], "\"right\""@) {
        "right"@
    } else {
        waybar_position_of(lines.drop_first())
    }
}

/// Read the bar's position out of its configuration text.
pub fn waybar_position_from_config(text: &str) -> (r: String)
    ensures
        r@ == waybar_position_of(lines_spec(text@)),
{
    let lines = lines_of(text);
    let ghost lv = lines.deep_view();
    let mut li: usize = 0;
    proof {
        assert(lv.skip(0) =~= lv);
    }
    while li < lines.len()
        invariant
            li <= lines.len(),
            lv == lines.deep_view(),
            lv == lines_spec(text@),
            lv.len() == lines.len(),
            waybar_position_of(lv) == waybar_position_of(lv.skip(li as int)),
        decreases lines.len() - li,
    {
        let line = lines[li].as_str();
        proof {
            assert(lv.skip(li as int)[0] == lv[li as int]);
            assert(lines@[li as int]@ == lv[li as int]);
            assert(lv.skip(li as int).drop_first() =~= lv.skip(li + 1));
        }
        if contains_str(line, "\"position\"") {
            if contains_str(line, "\"top\"") {
                return String::from_str("top");
            } else if contains_str(line, "\"bottom\"") {
                return String::from_str("bottom");
            } else if contains_str(line, "\"left\"") {
                return String::from_str("left");
            } else if contains_str(line, "\"right\"") {
                return String::from_str("right");
            }
        }
        li += 1;
    }
    proof {
        assert(lv.skip(lines.len() as int) =~= Seq::<Seq<char>>::empty());
    }
    String::from_str("top")
}

} // verus!
