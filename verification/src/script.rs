//! The launcher script and the choice of action.

use vstd::prelude::*;
use vstd::string::StringExecFns;
use crate::filters::{args_string_of, generate_args_string, Args, ArgsView};

verus! {

/// The name of the launcher file inside the working directory.
pub const SCRIPT_NAME: &'static str = "start.sh";

/// The permission bits given to the working directory once the launcher is
/// written: `rwxr-xr-x`.
pub const DIRECTORY_MODE: u32 = 0o755;

/// The launcher's one line: the program in `cwd`, the flags that reproduce
/// the filters, and the redirection of all output. No line feed ends it.
pub open spec fn script_of(cwd: Seq<char>, a: ArgsView) -> Seq<char> {
    cwd + "/jokeGreeting "@ + args_string_of(a) + " &> /dev/null"@
}

/// The contents of the launcher for a program that lives in `cwd`.
pub fn script_contents(cwd: &str, args: Args) -> (r: String)
    ensures
        r@ == script_of(cwd@, args@),
{
    let flags = generate_args_string(args);
    let mut r = cwd.to_owned();
    r.append("/jokeGreeting ");
    r.append(flags.as_str());
    r.append(" &> /dev/null");
    r
}

/// What one invocation does.
#[derive(Clone, Debug)]
pub enum Action {
    /// Write the launcher and stop.
    GenerateScript,
    /// Write the launcher, then add the launch line to the target.
    Install(String),
    /// Take the launch line out of the target.
    Uninstall(String),
    /// Fetch a joke, show it and export it.
    Fetch,
}

/// An action with its target as a plain sequence of characters.
pub enum ActionView {
    GenerateScript,
    Install(Seq<char>),
    Uninstall(Seq<char>),
    Fetch,
}

impl View for Action {
    type V = ActionView;

    open spec fn view(&self) -> ActionView {
        match self {
            Action::GenerateScript => ActionView::GenerateScript,
            Action::Install(t) => ActionView::Install(t@),
            Action::Uninstall(t) => ActionView::Uninstall(t@),
            Action::Fetch => ActionView::Fetch,
        }
    }
}

/// The action that the arguments select: the launcher alone when it is
/// asked for, else an install when a target is given, else an uninstall
/// when a target is given, else the fetch.
pub open spec fn action_of(a: ArgsView) -> ActionView {
    if a.gen_script {
        ActionView::GenerateScript
    } else if let Some(t) = a.install {
        ActionView::Install(t)
    } else if let Some(t) = a.uninstall {
        ActionView::Uninstall(t)
    } else {
        ActionView::Fetch
    }
}

/// Selects the one action of an invocation.
pub fn select_action(args: &Args) -> (r: Action)
    ensures
        r@ == action_of(args@),
{
    if args.gen_script {
        Action::GenerateScript
    } else if let Some(t) = &args.install {
        Action::Install(t.clone())
    } else if let Some(t) = &args.uninstall {
        Action::Uninstall(t.clone())
    } else {
        Action::Fetch
    }
}

} // verus!
