//! The command line: its options, and which mode they select.
use crate::text::{chars_of, concat_chars, str_eq, string_from};
use vstd::prelude::*;

verus! {

/// What switcher mode does with the chosen window.
#[derive(Clone, Copy, Debug, PartialEq, Eq, Structural)]
pub enum HyprAction {
    /// Move the window to the current workspace.
    Pull,
    /// Focus the window's workspace.
    Switch,
    /// Swap the current workspace's windows with the target workspace's.
    Flip,
}

/// The options of the command line.
#[derive(Debug)]
pub struct Cli {
    /// The mode to open (`script` when absent).
    pub mode: Option<String>,
    /// The script name for exec mode, the pattern for fetch mode.
    pub fix: Option<String>,
    /// Fetch mode: search scripts only.
    pub only_script: bool,
    /// Fetch mode: search applications only.
    pub only_launcher: bool,
    /// Switcher mode: what to do with the chosen window.
    pub action: HyprAction,
    /// Run the background daemon only.
    pub daemon: bool,
}

/// What the program does for a command line.
#[derive(Debug)]
pub enum Launch {
    /// Run the daemon only.
    Daemon,
    /// Show the lines piped on standard input.
    Dmenu,
    Script,
    Launcher,
    Clipboard,
    Switcher(HyprAction),
    /// Print every entry as JSON.
    Tool,
    /// Run the script with this key.
    Exec(String),
    /// Print the entries matching this pattern as JSON.
    Fetch(String),
    /// Report this error and exit with status 1.
    Fail(String),
}

/// The mode named on the command line, `script` when none is.
pub open spec fn mode_name(mode: Option<String>) -> Seq<char> {
    match mode {
        Some(m) => m@,
        None => "script"@,
    }
}

/// The message for a mode that needs `-f` and was given none.
pub open spec fn missing_fix_message(mode: Seq<char>) -> Seq<char> {
    mode + " mode requires -f/--fix argument"@
}

/// The message for an unknown mode.
pub open spec fn unknown_mode_message(mode: Seq<char>) -> Seq<char> {
    "Unknown mode: '"@ + mode + "'. Valid modes: script, launcher, clipboard, switcher, tool, exec, fetch"@
}

/// What a named mode does (the daemon flag and piped input aside).
pub open spec fn mode_launch(mode: Seq<char>, fix: Option<String>, action: HyprAction, r: Launch) -> bool {
    if mode == "script"@ {
        r is Script
    } else if mode == "launcher"@ {
        r is Launcher
    } else if mode == "clipboard"@ {
        r is Clipboard
    } else if mode == "switcher"@ {
        r == Launch::Switcher(action)
    } else if mode == "tool"@ {
        r is Tool
    } else if mode == "exec"@ || mode == "fetch"@ {
        match fix {
            Some(f) => if mode == "exec"@ {
                r matches Launch::Exec(n) && n@ == f@
            } else {
                r matches Launch::Fetch(p) && p@ == f@
            },
            None => r matches Launch::Fail(m) && m@ == missing_fix_message(mode),
        }
    } else {
        r matches Launch::Fail(m) && m@ == unknown_mode_message(mode)
    }
}

fn message(parts: &Vec<Vec<char>>) -> (r: String)
    requires
        parts.len() == 3,
    ensures
        r@ == parts@[0]@ + parts@[1]@ + parts@[2]@,
{
    string_from(&concat_chars(&concat_chars(&parts[0], &parts[1]), &parts[2]))
}

impl Cli {
    /// What to do: the daemon when asked for; else the piped lines when no mode
    /// is named and standard input is not a terminal; else the named mode.
    pub fn launch(&self, stdin_is_terminal: bool) -> (r: Launch)
        ensures
            self.daemon ==> r is Daemon,
            !self.daemon && self.mode is None && !stdin_is_terminal ==> r is Dmenu,
            !self.daemon && !(self.mode is None && !stdin_is_terminal) ==> mode_launch(
                mode_name(self.mode),
                self.fix,
                self.action,
                r,
            ),
    {
        if self.daemon {
            return Launch::Daemon;
        }
        if self.mode.is_none() && !stdin_is_terminal {
            return Launch::Dmenu;
        }
        let mode = match &self.mode {
            Some(m) => m.clone(),
            None => String::from_str("script"),
        };
        let m = mode.as_str();
        proof {
            reveal_strlit("script");
        }
        if str_eq(m, "script") {
            Launch::Script
        } else if str_eq(m, "launcher") {
            Launch::Launcher
        } else if str_eq(m, "clipboard") {
            Launch::Clipboard
        } else if str_eq(m, "switcher") {
            Launch::Switcher(self.action)
        } else if str_eq(m, "tool") {
            Launch::Tool
        } else if str_eq(m, "exec") || str_eq(m, "fetch") {
            let is_exec = str_eq(m, "exec");
            match &self.fix {
                Some(f) => if is_exec {
                    Launch::Exec(f.clone())
                } else {
                    Launch::Fetch(f.clone())
                },
                None => {
                    let mut parts: Vec<Vec<char>> = Vec::new();
                    parts.push(chars_of(m));
                    parts.push(chars_of(" mode requires -f/--fix argument"));
                    parts.push(Vec::new());
                    let msg = message(&parts);
                    proof {
                        assert(msg@ =~= missing_fix_message(mode@));
                    }
                    Launch::Fail(msg)
                },
            }
        } else {
            let mut parts: Vec<Vec<char>> = Vec::new();
            parts.push(chars_of("Unknown mode: '"));
            parts.push(chars_of(m));
            parts.push(chars_of("'. Valid modes: script, launcher, clipboard, switcher, tool, exec, fetch"));
            Launch::Fail(message(&parts))
        }
    }
}

} // verus!
