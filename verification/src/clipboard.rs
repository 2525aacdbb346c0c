//! Copying text to the system clipboard with a command-line tool: which tools to try, and
//! what each step of running one decides. Running the tools happens outside the library.
use vstd::prelude::*;

use crate::text::{join, push_str, trim, trim_str};

verus! {

/// A clipboard tool and its arguments.
#[derive(Debug, Clone, PartialEq, Eq)]
pub struct ClipboardCommand {
    pub program: &'static str,
    pub args: &'static [&'static str],
}

impl View for ClipboardCommand {
    type V = (Seq<char>, Seq<Seq<char>>);

    open spec fn view(&self) -> (Seq<char>, Seq<Seq<char>>) {
        (self.program@, self.args@.map_values(|a: &str| a@))
    }
}

/// The views of some commands.
pub open spec fn commands_view(v: Seq<ClipboardCommand>) -> Seq<(Seq<char>, Seq<Seq<char>>)> {
    v.map_values(|c: ClipboardCommand| c@)
}

pub open spec fn wl_copy_command() -> (Seq<char>, Seq<Seq<char>>) {
    ("wl-copy"@, Seq::empty())
}

pub open spec fn xclip_command() -> (Seq<char>, Seq<Seq<char>>) {
    ("xclip"@, seq!["-selection"@, "clipboard"@, "-in"@])
}

pub open spec fn xsel_command() -> (Seq<char>, Seq<Seq<char>>) {
    ("xsel"@, seq!["--clipboard"@, "--input"@])
}

/// The tools to try on Linux and other Unix: the Wayland tool in a Wayland session, the X11
/// tools in an X11 session, and all three, Wayland first, when neither session is known.
pub open spec fn spec_linux_candidates(wayland: bool, x11: bool) -> Seq<(Seq<char>, Seq<Seq<char>>)> {
    (if wayland {
        seq![wl_copy_command()]
    } else {
        Seq::empty()
    }) + (if x11 {
        seq![xclip_command(), xsel_command()]
    } else {
        Seq::empty()
    }) + (if !wayland && !x11 {
        seq![wl_copy_command(), xclip_command(), xsel_command()]
    } else {
        Seq::empty()
    })
}

/// The operating systems the tools differ on.
#[derive(Debug, Clone, Copy, PartialEq, Eq, Structural)]
pub enum TargetOs {
    MacOs,
    Windows,
    OtherUnix,
}

/// The tools to try on an operating system.
pub open spec fn spec_candidates(os: TargetOs, wayland: bool, x11: bool) -> Seq<(Seq<char>, Seq<Seq<char>>)> {
    match os {
        TargetOs::MacOs => seq![("pbcopy"@, Seq::empty())],
        TargetOs::Windows => seq![("clip"@, Seq::empty())],
        TargetOs::OtherUnix => spec_linux_candidates(wayland, x11),
    }
}

fn wl_copy() -> (r: ClipboardCommand)
    ensures
        r@ == wl_copy_command(),
{
    let r = ClipboardCommand { program: "wl-copy", args: &[] };
    assert(r@.1 =~= Seq::<Seq<char>>::empty());
    r
}

fn xclip() -> (r: ClipboardCommand)
    ensures
        r@ == xclip_command(),
{
    let r = ClipboardCommand { program: "xclip", args: &["-selection", "clipboard", "-in"] };
    assert(r@.1 =~= seq!["-selection"@, "clipboard"@, "-in"@]);
    r
}

fn xsel() -> (r: ClipboardCommand)
    ensures
        r@ == xsel_command(),
{
    let r = ClipboardCommand { program: "xsel", args: &["--clipboard", "--input"] };
    assert(r@.1 =~= seq!["--clipboard"@, "--input"@]);
    r
}

/// The tools to try on Linux and other Unix, from what the session announces.
pub fn linux_candidates_from_flags(wayland: bool, x11: bool) -> (r: Vec<ClipboardCommand>)
    ensures
        commands_view(r@) == spec_linux_candidates(wayland, x11),
{
    let mut candidates: Vec<ClipboardCommand> = Vec::new();
    if wayland {
        candidates.push(wl_copy());
    }
    if x11 {
        candidates.push(xclip());
        candidates.push(xsel());
    }
    if !wayland && !x11 {
        candidates.push(wl_copy());
        candidates.push(xclip());
        candidates.push(xsel());
    }
    assert(commands_view(candidates@) =~= spec_linux_candidates(wayland, x11));
    candidates
}

/// The tools to try on an operating system; on Linux and other Unix, from what the session
/// announces.
pub fn clipboard_command_candidates(os: TargetOs, has_wayland: bool, has_x11: bool) -> (r: Vec<ClipboardCommand>)
    ensures
        commands_view(r@) == spec_candidates(os, has_wayland, has_x11),
{
    match os {
        TargetOs::MacOs => {
            let mut v: Vec<ClipboardCommand> = Vec::new();
            let c = ClipboardCommand { program: "pbcopy", args: &[] };
            assert(c@.1 =~= Seq::<Seq<char>>::empty());
            v.push(c);
            assert(commands_view(v@) =~= spec_candidates(os, has_wayland, has_x11));
            v
        },
        TargetOs::Windows => {
            let mut v: Vec<ClipboardCommand> = Vec::new();
            let c = ClipboardCommand { program: "clip", args: &[] };
            assert(c@.1 =~= Seq::<Seq<char>>::empty());
            v.push(c);
            assert(commands_view(v@) =~= spec_candidates(os, has_wayland, has_x11));
            v
        },
        TargetOs::OtherUnix => linux_candidates_from_flags(has_wayland, has_x11),
    }
}

/// How a command is shown: the program, then its arguments, separated by spaces.
pub open spec fn spec_command_line(c: (Seq<char>, Seq<Seq<char>>)) -> Seq<char> {
    if c.1.len() == 0 {
        c.0
    } else {
        c.0 + " "@ + join(c.1, " "@)
    }
}

/// How a command is shown in messages.
pub fn command_line(command: &ClipboardCommand) -> (r: String)
    ensures
        r@ == spec_command_line(command@),
{
    let mut s = String::new();
    push_str(&mut s, command.program);
    if command.args.len() == 0 {
        return s;
    }
    push_str(&mut s, " ");
    let ghost args = command@.1;
    let mut i: usize = 0;
    let ghost start = s@;
    while i < command.args.len()
        invariant
            i <= command.args@.len(),
            args == command@.1,
            args.len() == command.args@.len(),
            s@ == start + join(args.take(i as int), " "@),
        decreases command.args.len() - i,
    {
        let ghost before = args.take(i as int);
        if i > 0 {
            push_str(&mut s, " ");
        }
        push_str(&mut s, command.args[i]);
        i = i + 1;
        proof {
            let now = args.take(i as int);
            assert(now.drop_last() =~= before);
            assert(args[i - 1] == command.args@[i - 1]@);
            if i == 1 {
                assert(join(now, " "@) == now[0]);
            }
            assert(s@ =~= start + join(now, " "@));
        }
    }
    assert(args.take(i as int) =~= args);
    assert(s@ =~= command.program@ + " "@ + join(args, " "@));
    s
}

/// The report of one failed attempt: the program, then what went wrong.
pub fn attempt_error(program: &str, error: &str) -> (r: String)
    ensures
        r@ == program@ + ": "@ + error@,
{
    let mut s = String::new();
    push_str(&mut s, program);
    push_str(&mut s, ": ");
    push_str(&mut s, error);
    assert(s@ =~= program@ + ": "@ + error@);
    s
}

/// The message when every tool failed: each attempt's report, separated by `; `.
pub fn copy_failure_message(errors: &Vec<String>) -> (r: String)
    ensures
        r@ == "failed to copy to the system clipboard; tried "@ + join(crate::text::views(errors@), "; "@),
{
    let mut s = String::new();
    push_str(&mut s, "failed to copy to the system clipboard; tried ");
    let joined = crate::text::join_strings(errors, "; ");
    push_str(&mut s, joined.as_str());
    s
}

/// What to do while waiting for a clipboard tool.
#[derive(Debug, Clone, Copy, PartialEq, Eq, Structural)]
pub enum WaitStep {
    /// The tool ended: look at how.
    HandleExit,
    /// The tool keeps running past the time allowed, as tools that hold the clipboard do:
    /// leave it running and count the copy as done.
    Detach,
    /// Wait a little and look again.
    Sleep,
}

/// The next step while waiting for a clipboard tool.
pub fn wait_step(exited: bool, deadline_passed: bool) -> (r: WaitStep)
    ensures
        r == if exited {
            WaitStep::HandleExit
        } else if deadline_passed {
            WaitStep::Detach
        } else {
            WaitStep::Sleep
        },
{
    if exited {
        WaitStep::HandleExit
    } else if deadline_passed {
        WaitStep::Detach
    } else {
        WaitStep::Sleep
    }
}

/// How a clipboard tool ended.
#[derive(Debug, Clone, PartialEq, Eq)]
pub enum ExitOutcome {
    /// It succeeded.
    Success,
    /// It failed and wrote nothing to its error output: report its exit status.
    FailedWithStatus,
    /// It failed with this (trimmed) error output.
    Failed(String),
}

/// How a clipboard tool ended, from its exit status and its error output.
pub fn exit_outcome(success: bool, stderr: &str) -> (r: ExitOutcome)
    ensures
        success ==> r == ExitOutcome::Success,
        !success && trim(stderr@).len() == 0 ==> r == ExitOutcome::FailedWithStatus,
        !success && trim(stderr@).len() > 0 ==> (r matches ExitOutcome::Failed(t) && t@ == trim(stderr@)),
{
    if success {
        return ExitOutcome::Success;
    }
    let trimmed = trim_str(stderr);
    if trimmed.as_str().is_empty() {
        ExitOutcome::FailedWithStatus
    } else {
        ExitOutcome::Failed(trimmed)
    }
}

} // verus!
