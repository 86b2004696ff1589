//! Running a privileged command visibly: the fixed preference order of
//! terminal emulators and the argument shapes each family takes.  The
//! application shell tries the candidates in order and spawns the
//! first one that starts.

use vstd::prelude::*;
use vstd::string::*;

use crate::text::str_eq;

verus! {

/// The wrapped command: run, then hold the window open until a key is
/// pressed.
pub open spec fn hold_open_script(command: Seq<char>) -> Seq<char> {
    command + "; echo; read -p 'Press Enter to close...' -n 1"@
}

/// The argument list a terminal takes to run the wrapped command, by
/// emulator family; an unrecognised emulator gets none and is skipped.
pub open spec fn terminal_args_spec(term: Seq<char>, command: Seq<char>) -> Option<
    Seq<Seq<char>>,
> {
    if term == "gnome-terminal"@ || term == "xfce4-terminal"@ {
        Some(seq!["--"@, "bash"@, "-c"@, hold_open_script(command)])
    } else if term == "konsole"@ {
        Some(seq!["-e"@, "bash"@, "-c"@, hold_open_script(command)])
    } else if term == "kitty"@ || term == "alacritty"@ || term == "wezterm"@ {
        Some(seq!["-e"@, "sh"@, "-c"@, hold_open_script(command)])
    } else {
        None
    }
}

/// The terminal emulators to try, in order of preference.
pub fn terminal_candidates() -> (r: Vec<String>)
    ensures
        r.deep_view() == seq![
            "kitty"@,
            "alacritty"@,
            "wezterm"@,
            "gnome-terminal"@,
            "konsole"@,
            "xfce4-terminal"@,
        ],
{
    let mut r: Vec<String> = Vec::new();
    r.push(String::from_str("kitty"));
    r.push(String::from_str("alacritty"));
    r.push(String::from_str("wezterm"));
    r.push(String::from_str("gnome-terminal"));
    r.push(String::from_str("konsole"));
    r.push(String::from_str("xfce4-terminal"));
    proof {
        assert(r.deep_view() =~= seq![
            "kitty"@,
            "alacritty"@,
            "wezterm"@,
            "gnome-terminal"@,
            "konsole"@,
            "xfce4-terminal"@,
        ]);
    }
    r
}

fn wrapped_command(command: &str) -> (r: String)
    ensures
        r@ == hold_open_script(command@),
{
    let mut r = command.to_owned();
    r.append("; echo; read -p 'Press Enter to close...' -n 1");
    r
}

/// Build the argument list for running `command` in the given terminal
/// emulator, or nothing for one of an unknown family.
pub fn terminal_launch_args(term: &str, command: &str) -> (r: Option<Vec<String>>)
    ensures
        match r {
            Some(args) => terminal_args_spec(term@, command@) == Some(args.deep_view()),
            None => terminal_args_spec(term@, command@) is None,
        },
{
    let mut args: Vec<String> = Vec::new();
    if str_eq(term, "gnome-terminal") || str_eq(term, "xfce4-terminal") {
        args.push(String::from_str("--"));
        args.push(String::from_str("bash"));
        args.push(String::from_str("-c"));
        args.push(wrapped_command(command));
        proof {
            assert(args.deep_view() =~= seq![
                "--"@,
                "bash"@,
                "-c"@,
                hold_open_script(command@),
            ]);
        }
        Some(args)
    } else if str_eq(term, "konsole") {
        args.push(String::from_str("-e"));
        args.push(String::from_str("bash"));
        args.push(String::from_str("-c"));
        args.push(wrapped_command(command));
        proof {
            assert(args.deep_view() =~= seq![
                "-e"@,
                "bash"@,
                "-c"@,
                hold_open_script(command@),
            ]);
        }
        Some(args)
    } else if str_eq(term, "kitty") || str_eq(term, "alacritty") || str_eq(term, "wezterm") {
        args.push(String::from_str("-e"));
        args.push(String::from_str("sh"));
        args.push(String::from_str("-c"));
        args.push(wrapped_command(command));
        proof {
            assert(args.deep_view() =~= seq!["-e"@, "sh"@, "-c"@, hold_open_script(command@)]);
        }
        Some(args)
    } else {
        None
    }
}

} // verus!
