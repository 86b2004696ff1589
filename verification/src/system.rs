//! System information: assembling the hostname, operating system,
//! kernel, CPU, memory and GPU descriptions out of the raw outputs of
//! the tools the application shell invokes, with a fixed fallback
//! chain, and the dark-or-light reading of the desktop colour scheme.

use vstd::prelude::*;
use vstd::string::*;

use crate::text::{
    contains_str, has_substring, is_prefix, lines_of, lines_spec, remove_char, remove_char_spec,
    remove_substr, remove_substr_spec, split_char, split_str, starts_with_str, str_eq, trim_spec,
    trim_str,
};

verus! {

/// Basic system information and hardware description.
#[derive(Debug, Clone, PartialEq)]
pub struct SystemInfo {
    pub hostname: String,
    pub os_name: String,
    pub kernel_version: String,
    pub cpu_model: String,
    pub memory_total: String,
    pub gpu_info: String,
}

/// The mathematical image of the system information.
pub struct SystemInfoData {
    pub hostname: Seq<char>,
    pub os_name: Seq<char>,
    pub kernel_version: Seq<char>,
    pub cpu_model: Seq<char>,
    pub memory_total: Seq<char>,
    pub gpu_info: Seq<char>,
}

impl View for SystemInfo {
    type V = SystemInfoData;

    open spec fn view(&self) -> SystemInfoData {
        SystemInfoData {
            hostname: self.hostname@,
            os_name: self.os_name@,
            kernel_version: self.kernel_version@,
            cpu_model: self.cpu_model@,
            memory_total: self.memory_total@,
            gpu_info: self.gpu_info@,
        }
    }
}

/// The value after the first colon of a status line, trimmed; empty
/// when the line has no colon.
pub open spec fn after_colon(line: Seq<char>) -> Seq<char> {
    let parts = split_char(line, ':');
    if parts.len() >= 2 {
        trim_spec(parts[1])
    } else {
        Seq::empty()
    }
}

/// The operating system name the host status report declares: the last
/// line mentioning `Operating System:` wins; without one it stays
/// unknown.
pub open spec fn hostnamectl_os(lines: Seq<Seq<char>>) -> Seq<char>
    decreases lines.len(),
{
    if lines.len() == 0 {
        "Unknown"@
    } else if has_substring(lines.last(), "Operating System:"@) {
        after_colon(lines.last())
    } else {
        hostnamectl_os(lines.drop_last())
    }
}

/// The kernel version the host status report declares: the last line
/// mentioning `Kernel:` but not `Operating System:` wins.
pub open spec fn hostnamectl_kernel(lines: Seq<Seq<char>>) -> Seq<char>
    decreases lines.len(),
{
    if lines.len() == 0 {
        "Unknown"@
    } else if has_substring(lines.last(), "Operating System:"@) {
        hostnamectl_kernel(lines.drop_last())
    } else if has_substring(lines.last(), "Kernel:"@) {
        after_colon(lines.last())
    } else {
        hostnamectl_kernel(lines.drop_last())
    }
}

fn value_after_colon(line: &str) -> (r: String)
    ensures
        r@ == after_colon(line@),
{
    let parts = split_str(line, ':');
    if parts.len() >= 2 {
        proof {
            assert(parts.deep_view()[1] == parts@[1]@);
        }
        trim_str(parts[1].as_str())
    } else {
        String::new()
    }
}

/// Read the operating system and kernel fields out of the host status
/// report.
pub fn parse_hostnamectl(text: &str) -> (r: (String, String))
    ensures
        r.0@ == hostnamectl_os(lines_spec(text@)),
        r.1@ == hostnamectl_kernel(lines_spec(text@)),
{
    let lines = lines_of(text);
    let ghost lv = lines.deep_view();
    let mut os = String::from_str("Unknown");
    let mut kernel = String::from_str("Unknown");
    let mut li: usize = 0;
    proof {
        assert(lv.take(0) =~= Seq::<Seq<char>>::empty());
    }
    while li < lines.len()
        invariant
            li <= lines.len(),
            lv == lines.deep_view(),
            lv.len() == lines.len(),
            os@ == hostnamectl_os(lv.take(li as int)),
            kernel@ == hostnamectl_kernel(lv.take(li as int)),
        decreases lines.len() - li,
    {
        let line = lines[li].as_str();
        proof {
            assert(lv.take(li + 1).drop_last() =~= lv.take(li as int));
            assert(lv.take(li + 1).last() == lv[li as int]);
            assert(lines@[li as int]@ == lv[li as int]);
        }
        if contains_str(line, "Operating System:") {
            os = value_after_colon(line);
        } else if contains_str(line, "Kernel:") {
            kernel = value_after_colon(line);
        }
        li += 1;
    }
    proof {
        assert(lv.take(lines.len() as int) =~= lv);
    }
    (os, kernel)
}

/// The pretty name the release file declares: the first line starting
/// with `PRETTY_NAME=`, with the key and all double quotes removed.
pub open spec fn pretty_name_of(lines: Seq<Seq<char>>) -> Option<Seq<char>>
    decreases lines.len(),
{
    if lines.len() == 0 {
        None
    } else if is_prefix(lines[0], "PRETTY_NAME="@) {
        Some(remove_char_spec(remove_substr_spec(lines[0], "PRETTY_NAME="@), '"'))
    } else {
        pretty_name_of(lines.drop_first())
    }
}

/// Read the pretty name out of the release file's text.
pub fn parse_pretty_name(text: &str) -> (r: Option<String>)
    ensures
        match r {
            Some(v) => pretty_name_of(lines_spec(text@)) == Some(v@),
            None => pretty_name_of(lines_spec(text@)) is None,
        },
{
    let lines = lines_of(text);
    let ghost lv = lines.deep_view();
    let mut li: usize = 0;
    proof {
        assert(lv.skip(0) =~= lv);
    }
    while li < lines.len()
        invariant
            li <= lines.len(),
            lv == lines.deep_view(),
            lv == lines_spec(text@),
            lv.len() == lines.len(),
            pretty_name_of(lv) == pretty_name_of(lv.skip(li as int)),
        decreases lines.len() - li,
    {
        let line = lines[li].as_str();
        proof {
            assert(lv.skip(li as int)[0] == lv[li as int]);
            assert(lines@[li as int]@ == lv[li as int]);
            assert(lv.skip(li as int).drop_first() =~= lv.skip(li + 1));
        }
        if starts_with_str(line, "PRETTY_NAME=") {
            let stripped = remove_substr(line, "PRETTY_NAME=");
            let cleaned = remove_char(stripped.as_str(), '"');
            return Some(cleaned);
        }
        li += 1;
    }
    proof {
        assert(lv.skip(lines.len() as int) =~= Seq::<Seq<char>>::empty());
    }
    None
}

/// The trimmed text of an output that may be missing.
pub open spec fn trimmed_or(output: Option<Seq<char>>, default: Seq<char>) -> Seq<char> {
    match output {
        Some(s) => trim_spec(s),
        None => default,
    }
}

/// Assemble the system information from the raw tool outputs, with the
/// fallback chain: the host status report names the operating
/// system and kernel; the release file's pretty name steps in when the
/// report left the system unknown or empty, and the kernel tool's
/// output when it left the kernel unknown or empty.  CPU and memory
/// are the trimmed outputs of their queries, unknown when the query
/// could not run; the GPU likewise, and also when its output is blank.
pub fn build_system_info(
    hostname_output: Option<&str>,
    hostnamectl_output: Option<&str>,
    os_release: Option<&str>,
    uname_output: Option<&str>,
    cpu_output: Option<&str>,
    memory_output: Option<&str>,
    gpu_output: Option<&str>,
) -> (r: SystemInfo)
    ensures
        r@.hostname == trimmed_or(
            match hostname_output {
                Some(s) => Some(s@),
                None => None,
            },
            Seq::empty(),
        ),
        ({
            let os0 = match hostnamectl_output {
                Some(t) => hostnamectl_os(lines_spec(t@)),
                None => "Unknown"@,
            };
            r@.os_name == if os0 == "Unknown"@ || os0.len() == 0 {
                match os_release {
                    Some(t) => match pretty_name_of(lines_spec(t@)) {
                        Some(v) => v,
                        None => os0,
                    },
                    None => os0,
                }
            } else {
                os0
            }
        }),
        ({
            let k0 = match hostnamectl_output {
                Some(t) => hostnamectl_kernel(lines_spec(t@)),
                None => "Unknown"@,
            };
            r@.kernel_version == if k0 == "Unknown"@ || k0.len() == 0 {
                trimmed_or(
                    match uname_output {
                        Some(s) => Some(s@),
                        None => None,
                    },
                    Seq::empty(),
                )
            } else {
                k0
            }
        }),
        r@.cpu_model == trimmed_or(
            match cpu_output {
                Some(s) => Some(s@),
                None => None,
            },
            "Unknown"@,
        ),
        r@.memory_total == trimmed_or(
            match memory_output {
                Some(s) => Some(s@),
                None => None,
            },
            "Unknown"@,
        ),
        ({
            let g = trimmed_or(
                match gpu_output {
                    Some(s) => Some(s@),
                    None => None,
                },
                Seq::empty(),
            );
            r@.gpu_info == if g.len() > 0 {
                g
            } else {
                "Unknown"@
            }
        }),
{
    let hostname = match hostname_output {
        Some(s) => trim_str(s),
        None => String::new(),
    };
    let mut os_name = String::from_str("Unknown");
    let mut kernel_version = String::from_str("Unknown");
    match hostnamectl_output {
        Some(t) => {
            let parsed = parse_hostnamectl(t);
            os_name = parsed.0;
            kernel_version = parsed.1;
        },
        None => {},
    }
    if str_eq(os_name.as_str(), "Unknown") || os_name.as_str().unicode_len() == 0 {
        match os_release {
            Some(t) => {
                match parse_pretty_name(t) {
                    Some(v) => {
                        os_name = v;
                    },
                    None => {},
                }
            },
            None => {},
        }
    }
    if str_eq(kernel_version.as_str(), "Unknown") || kernel_version.as_str().unicode_len() == 0 {
        kernel_version = match uname_output {
            Some(s) => trim_str(s),
            None => String::new(),
        };
    }
    let cpu_model = match cpu_output {
        Some(s) => trim_str(s),
        None => String::from_str("Unknown"),
    };
    let memory_total = match memory_output {
        Some(s) => trim_str(s),
        None => String::from_str("Unknown"),
    };
    let gpu_trimmed = match gpu_output {
        Some(s) => trim_str(s),
        None => String::new(),
    };
    let gpu_info = if gpu_trimmed.as_str().unicode_len() > 0 {
        gpu_trimmed
    } else {
        String::from_str("Unknown")
    };
    SystemInfo { hostname, os_name, kernel_version, cpu_model, memory_total, gpu_info }
}

/// The dark-or-light reading of the colour scheme the settings tool
/// reports: trimmed and unquoted, `prefer-dark` means dark and
/// everything else, including a failed query, means light.
pub fn theme_from_color_scheme(output: Option<&str>) -> (r: String)
    ensures
        match output {
            None => r@ == "light"@,
            Some(s) => r@ == if remove_char_spec(trim_spec(s@), '\'') == "prefer-dark"@ {
                "dark"@
            } else {
                "light"@
            },
        },
{
    match output {
        None => String::from_str("light"),
        Some(s) => {
            let trimmed = trim_str(s);
            let raw = remove_char(trimmed.as_str(), '\'');
            if str_eq(raw.as_str(), "prefer-dark") {
                String::from_str("dark")
            } else {
                String::from_str("light")
            }
        },
    }
}

} // verus!
