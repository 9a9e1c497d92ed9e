//! The programs that a filesystem entry can stand for, and what each says
//! about itself.

pub mod fs;
pub mod sys;

use crate::text::opt_view;
use vstd::prelude::*;
use vstd::string::*;

verus! {

/// What a program tells about itself; each part may be missing.
#[derive(Debug, PartialEq, Eq, PartialOrd, Ord)]
pub struct SubprocessInfo {
    pub name: Option<String>,
    pub help_text: Option<String>,
    pub description: Option<String>,
}

impl View for SubprocessInfo {
    type V = (Option<Seq<char>>, Option<Seq<char>>, Option<Seq<char>>);

    /// Name, help text and description, in this order.
    open spec fn view(&self) -> Self::V {
        (opt_view(self.name), opt_view(self.help_text), opt_view(self.description))
    }
}

/// A copy of an optional string.
pub fn clone_opt_string(s: &Option<String>) -> (r: Option<String>)
    ensures
        opt_view(r) == opt_view(*s),
{
    match s {
        Some(t) => Some(t.clone()),
        None => None,
    }
}

impl Clone for SubprocessInfo {
    fn clone(&self) -> (r: Self)
        ensures
            r@ == self@,
    {
        SubprocessInfo {
            name: clone_opt_string(&self.name),
            help_text: clone_opt_string(&self.help_text),
            description: clone_opt_string(&self.description),
        }
    }
}

impl Default for SubprocessInfo {
    fn default() -> (r: Self)
        ensures
            r@ == (None::<Seq<char>>, None::<Seq<char>>, None::<Seq<char>>),
    {
        SubprocessInfo { name: None, help_text: None, description: None }
    }
}

/// The programs of the system. An executable entry of a filesystem stands
/// for one of them.
#[derive(Debug, Clone, Copy, PartialEq, Eq, Structural)]
pub enum Builtin {
    /// The shell: reads and runs command lines.
    Cmd,
    /// Ends the shell session of the current computer.
    Logout,
    /// Opens a session on another computer.
    Ssh,
    /// Describes programs.
    Help,
    /// Tells where a program is found.
    Which,
    /// Clears the screen.
    Clear,
    /// Lists a directory.
    Ls,
    /// Changes the current directory.
    Cd,
    /// Prints files.
    Cat,
}

/// A program handle as stored in a filesystem entry.
pub type Executable = Builtin;

/// What each program says about itself: only `Help` and `Ssh` say anything.
pub open spec fn info_of(b: Builtin) -> (Option<Seq<char>>, Option<Seq<char>>, Option<Seq<char>>) {
    match b {
        Builtin::Help => (
            Some("Help"@),
            Some(
                "help [exe_name]\n\tShows useful information about an executable.\n\tIf exe_name is not specified, shows all executables."@,
            ),
            Some("Shows helpful information about executables."@),
        ),
        Builtin::Ssh => (
            Some("Secure Shell"@),
            Some("ssh host\n"@),
            Some("creates a remote shell to another computer."@),
        ),
        _ => (None, None, None),
    }
}

/// The program that is registered under a name.
pub open spec fn registered(name: Seq<char>) -> Option<Builtin> {
    if name == "cmd"@ {
        Some(Builtin::Cmd)
    } else if name == "logout"@ {
        Some(Builtin::Logout)
    } else if name == "ssh"@ {
        Some(Builtin::Ssh)
    } else if name == "help"@ {
        Some(Builtin::Help)
    } else if name == "which"@ {
        Some(Builtin::Which)
    } else if name == "clear"@ {
        Some(Builtin::Clear)
    } else if name == "ls"@ {
        Some(Builtin::Ls)
    } else if name == "cd"@ {
        Some(Builtin::Cd)
    } else if name == "cat"@ {
        Some(Builtin::Cat)
    } else {
        None
    }
}

impl Builtin {
    /// The program that is registered under a name.
    pub fn from_name(name: &str) -> (r: Option<Builtin>)
        ensures
            r == registered(name@),
    {
        if name.eq("cmd") {
            Some(Builtin::Cmd)
        } else if name.eq("logout") {
            Some(Builtin::Logout)
        } else if name.eq("ssh") {
            Some(Builtin::Ssh)
        } else if name.eq("help") {
            Some(Builtin::Help)
        } else if name.eq("which") {
            Some(Builtin::Which)
        } else if name.eq("clear") {
            Some(Builtin::Clear)
        } else if name.eq("ls") {
            Some(Builtin::Ls)
        } else if name.eq("cd") {
            Some(Builtin::Cd)
        } else if name.eq("cat") {
            Some(Builtin::Cat)
        } else {
            None
        }
    }

    /// What the program says about itself.
    pub fn info(&self) -> (r: SubprocessInfo)
        ensures
            r@ == info_of(*self),
    {
        match self {
            Builtin::Help => SubprocessInfo {
                name: Some(String::from_str("Help")),
                help_text: Some(
                    String::from_str(
                        "help [exe_name]\n\tShows useful information about an executable.\n\tIf exe_name is not specified, shows all executables.",
                    ),
                ),
                description: Some(String::from_str("Shows helpful information about executables.")),
            },
            Builtin::Ssh => SubprocessInfo {
                name: Some(String::from_str("Secure Shell")),
                help_text: Some(String::from_str("ssh host\n")),
                description: Some(String::from_str("creates a remote shell to another computer.")),
            },
            _ => SubprocessInfo::default(),
        }
    }
}

/// The names and programs of a list, as mathematical values.
pub open spec fn exe_list(s: Seq<(String, Executable)>) -> Seq<(Seq<char>, Executable)> {
    Seq::new(s.len(), |i: int| (s[i].0@, s[i].1))
}

} // verus!
