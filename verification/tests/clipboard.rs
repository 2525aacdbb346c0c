use plinks::clipboard::{
    attempt_error, clipboard_command_candidates, command_line, copy_failure_message,
    exit_outcome, linux_candidates_from_flags, wait_step, ClipboardCommand, ExitOutcome, TargetOs,
    WaitStep,
};

#[test]
fn prefers_wayland_clipboard_when_available() {
    let candidates = linux_candidates_from_flags(true, false);
    assert_eq!(
        candidates,
        vec![ClipboardCommand {
            program: "wl-copy",
            args: &[],
        }]
    );
}

#[test]
fn prefers_x11_clipboards_when_display_is_set() {
    let candidates = linux_candidates_from_flags(false, true);
    assert_eq!(
        candidates,
        vec![
            ClipboardCommand {
                program: "xclip",
                args: &["-selection", "clipboard", "-in"],
            },
            ClipboardCommand {
                program: "xsel",
                args: &["--clipboard", "--input"],
            }
        ]
    );
}

#[test]
fn falls_back_to_common_linux_clipboard_tools_without_session_hints() {
    let candidates = linux_candidates_from_flags(false, false);
    assert_eq!(
        candidates,
        vec![
            ClipboardCommand {
                program: "wl-copy",
                args: &[],
            },
            ClipboardCommand {
                program: "xclip",
                args: &["-selection", "clipboard", "-in"],
            },
            ClipboardCommand {
                program: "xsel",
                args: &["--clipboard", "--input"],
            }
        ]
    );
}

// ---------------------------------------------------------------------------

#[test]
fn both_sessions_try_wayland_then_x11() {
    let programs: Vec<&str> = linux_candidates_from_flags(true, true).iter().map(|c| c.program).collect();
    assert_eq!(programs, vec!["wl-copy", "xclip", "xsel"]);
}

#[test]
fn other_systems_have_one_tool() {
    let mac = clipboard_command_candidates(TargetOs::MacOs, true, true);
    assert_eq!(mac, vec![ClipboardCommand { program: "pbcopy", args: &[] }]);
    let win = clipboard_command_candidates(TargetOs::Windows, false, false);
    assert_eq!(win, vec![ClipboardCommand { program: "clip", args: &[] }]);
    assert_eq!(
        clipboard_command_candidates(TargetOs::OtherUnix, true, false),
        linux_candidates_from_flags(true, false)
    );
}

#[test]
fn command_lines_show_program_and_args() {
    assert_eq!(command_line(&ClipboardCommand { program: "wl-copy", args: &[] }), "wl-copy");
    assert_eq!(
        command_line(&ClipboardCommand { program: "xclip", args: &["-selection", "clipboard", "-in"] }),
        "xclip -selection clipboard -in"
    );
}

#[test]
fn failure_message_lists_every_attempt() {
    let errors = vec![attempt_error("wl-copy", "not found"), attempt_error("xclip", "exit 1")];
    assert_eq!(
        copy_failure_message(&errors),
        "failed to copy to the system clipboard; tried wl-copy: not found; xclip: exit 1"
    );
}

#[test]
fn waiting_decisions() {
    assert_eq!(wait_step(true, true), WaitStep::HandleExit);
    assert_eq!(wait_step(false, true), WaitStep::Detach);
    assert_eq!(wait_step(false, false), WaitStep::Sleep);
}

#[test]
fn exit_outcomes() {
    assert_eq!(exit_outcome(true, "noise"), ExitOutcome::Success);
    assert_eq!(exit_outcome(false, "  \n"), ExitOutcome::FailedWithStatus);
    assert_eq!(exit_outcome(false, " no display \n"), ExitOutcome::Failed("no display".into()));
}
