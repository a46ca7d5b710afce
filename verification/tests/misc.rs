use kenkoterminal::batch::{batch_forks, batch_result, fanout_width, BatchTarget};
use kenkoterminal::config::{config_path, connections_path, tunnels_path};
use kenkoterminal::daemon::{autostart_should_enable, click_reveals, menu_action, MenuAction};
use kenkoterminal::pty::{unix_shell, windows_shell};
use kenkoterminal::ssh::{
    auth_plan, default_port, host_key_verdict, shell_step, AuthAttempt, ExecCapture, ExecEvent,
    KnownHostCheck, ShellAction, ShellEvent, SshConfig,
};
use kenkoterminal::sync::{authorization, basic_auth, basic_auth_header};
use kenkoterminal::text::{parse_unsigned_range, same_text, trimmed};

fn target() -> BatchTarget {
    BatchTarget {
        label: "web".into(),
        ssh: SshConfig { host: "10.0.0.1".into(), port: default_port(), user: "u".into(), password: None },
    }
}

#[test]
fn batch_results() {
    let r = batch_result(&target(), Ok(("hello\n".into(), 0)), 12);
    assert!(r.ok);
    assert_eq!((r.label.as_str(), r.host.as_str(), r.exit_code, r.output.as_str(), r.ms), ("web", "10.0.0.1", 0, "hello\n", 12));
    let r = batch_result(&target(), Ok(("".into(), 3)), 1);
    assert!(!r.ok);
    assert_eq!(r.exit_code, 3);
    let r = batch_result(&target(), Err("connect 10.0.0.1:22: refused".into()), 5);
    assert!(!r.ok);
    assert_eq!(r.exit_code, -1);
    assert_eq!(r.output, "connect 10.0.0.1:22: refused");
    assert_eq!(fanout_width(0), 1);
    assert_eq!(fanout_width(4), 4);
    assert_eq!(batch_forks(None), 8);
    assert_eq!(batch_forks(Some(0)), 1);
    assert_eq!(batch_forks(Some(3)), 3);
}

#[test]
fn config_files() {
    let p = config_path("groups.json");
    assert_eq!((p.dir.as_str(), p.file.as_str()), ("KenkoTerminal", "groups.json"));
    assert_eq!(tunnels_path().file, "tunnels.json");
    assert_eq!(connections_path().file, "connections.json");
}

#[test]
fn tray_decisions() {
    assert!(menu_action("show") == MenuAction::Show);
    assert!(menu_action("quit") == MenuAction::Quit);
    assert!(menu_action("autostart") == MenuAction::ToggleAutostart);
    assert!(menu_action("other") == MenuAction::Ignore);
    assert!(autostart_should_enable(false));
    assert!(!autostart_should_enable(true));
    assert!(click_reveals(true, true));
    assert!(!click_reveals(true, false));
    assert!(!click_reveals(false, true));
}

#[test]
fn shells() {
    let c = unix_shell(None);
    assert_eq!((c.program.as_str(), c.args.clone(), c.term.as_str()), ("/bin/bash", vec!["-l".to_string()], "xterm-256color"));
    assert_eq!(unix_shell(Some("/bin/zsh".into())).program, "/bin/zsh");
    let w = windows_shell(None);
    assert_eq!(w.program, "powershell.exe");
    assert!(w.args.is_empty());
    assert_eq!(windows_shell(Some("cmd.exe".into())).program, "cmd.exe");
}

#[test]
fn ssh_decisions() {
    assert_eq!(default_port(), 22);
    let v = host_key_verdict(KnownHostCheck::Matches);
    assert!(v.accept && !v.learn);
    let v = host_key_verdict(KnownHostCheck::Unknown);
    assert!(v.accept && v.learn);
    let v = host_key_verdict(KnownHostCheck::Changed);
    assert!(!v.accept && !v.learn);
    let plan = auth_plan(2, true);
    assert!(matches!(plan.as_slice(), [AuthAttempt::AgentKey(0), AuthAttempt::AgentKey(1), AuthAttempt::Password]));
    assert!(auth_plan(0, false).is_empty());
}

#[test]
fn exec_capture_collects_output_and_status() {
    let mut c = ExecCapture::new();
    assert!(c.on_event(ExecEvent::Data(b"kenko_ok\n".to_vec())));
    assert!(c.on_event(ExecEvent::Other));
    assert!(c.on_event(ExecEvent::ExtendedData(b"warn\n".to_vec())));
    assert!(c.on_event(ExecEvent::ExitStatus(3)));
    assert!(!c.on_event(ExecEvent::Eof));
    assert_eq!(c.output, b"kenko_ok\nwarn\n".to_vec());
    assert_eq!(c.exit_code, 3);
    assert_eq!(ExecCapture::new().exit_code, 0);
}

#[test]
fn basic_authorization() {
    assert_eq!(basic_auth("user", "pass"), "Basic dXNlcjpwYXNz");
    assert_eq!(basic_auth("", ""), "Basic Og==");
    assert_eq!(basic_auth("ü", "p:w"), "Basic w7w6cDp3");
    assert_eq!(basic_auth_header("abc"), "Basic abc");
    assert_eq!(authorization("", "x"), None);
    assert_eq!(authorization("a", "b").as_deref(), Some("Basic YTpi"));
}

#[test]
fn text_helpers() {
    assert!(same_text("abc", "abc"));
    assert!(!same_text("abc", "abd"));
    assert_eq!(trimmed("\u{a0} x y\u{3000}\n"), "x y");
    assert_eq!(trimmed("   "), "");
}

#[test]
fn exec_capture_text_is_lossy_utf8() {
    let mut c = ExecCapture::new();
    c.on_event(ExecEvent::Data(vec![b'o', b'k', 0xc3]));
    c.on_event(ExecEvent::ExitStatus(0));
    let (out, code) = c.finish();
    assert_eq!(out, "ok\u{fffd}");
    assert_eq!(code, 0);
}

#[test]
fn shell_session_decisions() {
    assert!(matches!(shell_step(ShellEvent::Input(b"ls\n".to_vec())), ShellAction::Send(d) if d == b"ls\n".to_vec()));
    assert!(matches!(shell_step(ShellEvent::Resize(120, 40)), ShellAction::WindowChange(120, 40)));
    assert!(matches!(shell_step(ShellEvent::CloseRequested), ShellAction::SendEofAndStop));
    assert!(matches!(shell_step(ShellEvent::TerminalGone), ShellAction::SendEofAndStop));
    assert!(matches!(shell_step(ShellEvent::Output(b"x".to_vec())), ShellAction::Forward(d) if d == b"x".to_vec()));
    assert!(matches!(shell_step(ShellEvent::ErrorOutput(b"e".to_vec())), ShellAction::Forward(d) if d == b"e".to_vec()));
    assert!(matches!(shell_step(ShellEvent::Eof), ShellAction::Stop));
    assert!(matches!(shell_step(ShellEvent::Closed), ShellAction::Stop));
    assert!(matches!(shell_step(ShellEvent::Ended), ShellAction::Stop));
    assert!(matches!(shell_step(ShellEvent::Other), ShellAction::Ignore));
}

#[test]
fn numbers_with_small_limits() {
    let v: Vec<char> = "7".chars().collect();
    assert_eq!(parse_unsigned_range(&v, 0, 1, 5), None);
    assert_eq!(parse_unsigned_range(&v, 0, 1, 7), Some(7));
    let z: Vec<char> = "+0".chars().collect();
    assert_eq!(parse_unsigned_range(&z, 0, 2, 0), Some(0));
    let big: Vec<char> = "18446744073709551615".chars().collect();
    assert_eq!(parse_unsigned_range(&big, 0, big.len(), u64::MAX), Some(u64::MAX));
    let over: Vec<char> = "18446744073709551616".chars().collect();
    assert_eq!(parse_unsigned_range(&over, 0, over.len(), u64::MAX), None);
}
