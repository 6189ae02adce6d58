use aerospace_helper::borders::{active_color, borders_query, update_borders};
use aerospace_helper::command::{
    aerospace_cmd, reply, spawn_and_reap, spawn_bash_and_reap, CommandOutcome,
};
use aerospace_helper::icons::IconMap;
use aerospace_helper::state::{HelperState, MAX_CHILD_PROCS};

fn finished(success: bool, stdout: &[u8]) -> CommandOutcome {
    CommandOutcome::Finished { success, stdout: stdout.to_vec() }
}

fn busy() -> HelperState {
    let mut state = HelperState::new(IconMap::new(), true);
    for _ in 0..MAX_CHILD_PROCS {
        state.child_spawned(true);
    }
    state
}

#[test]
fn a_successful_command_gives_its_trimmed_output() {
    let result = aerospace_cmd(finished(true, b" 1|Code \n"));
    assert_eq!(result.output.as_deref(), Some("1|Code"));
    assert!(!result.kill);
    assert_eq!(aerospace_cmd(finished(true, b"")).output.as_deref(), Some(""));
}

#[test]
fn output_that_is_not_utf8_is_mended() {
    let result = aerospace_cmd(finished(true, b"a\xffb\n"));
    assert_eq!(result.output.as_deref(), Some("a\u{fffd}b"));
    let result = aerospace_cmd(finished(true, "\u{fc}\n".as_bytes()));
    assert_eq!(result.output.as_deref(), Some("\u{fc}"));
}

#[test]
fn a_failed_command_gives_nothing() {
    for outcome in [finished(false, b"1\n"), CommandOutcome::NotStarted, CommandOutcome::Lost] {
        let result = aerospace_cmd(outcome);
        assert_eq!(result.output, None);
        assert!(!result.kill);
    }
}

#[test]
fn a_command_that_hangs_is_killed() {
    let result = aerospace_cmd(CommandOutcome::TimedOut);
    assert_eq!(result.output, None);
    assert!(result.kill);
}

#[test]
fn a_reply_is_trimmed() {
    assert_eq!(reply(true, " 2 \n"), Some("2".to_string()));
    assert_eq!(reply(false, " 2 \n"), None);
}

#[test]
fn a_command_is_started_below_the_limit() {
    let state = HelperState::new(IconMap::new(), true);
    let started = spawn_and_reap("/bin/echo", vec!["a".to_string()], &state).unwrap();
    assert_eq!(started.program, "/bin/echo");
    assert_eq!(started.args, vec!["a"]);
    let script = spawn_bash_and_reap("true; false", &state).unwrap();
    assert_eq!(script.program, "/bin/bash");
    assert_eq!(script.args, vec!["-c", "true; false"]);
}

#[test]
fn a_command_is_dropped_at_the_limit() {
    assert!(spawn_and_reap("/bin/echo", Vec::new(), &busy()).is_none());
    assert!(spawn_bash_and_reap("true", &busy()).is_none());
    assert!(update_borders(None, &busy()).is_none());
}

#[test]
fn the_border_query_asks_for_layout_and_full_screen() {
    assert_eq!(
        borders_query(),
        vec!["list-windows", "--focused", "--format", "%{window-layout}|%{window-is-fullscreen}"]
    );
}

#[test]
fn the_border_is_coloured_by_layout() {
    assert_eq!(active_color("h_tiles|true"), "0xff89b4fa");
    assert_eq!(active_color("v_accordion|true"), "0xff89b4fa");
    assert_eq!(active_color("v_accordion|false"), "0xffa6e3a1");
    assert_eq!(active_color("floating|false"), "0xffcba6f7");
    assert_eq!(active_color("h_tiles|false"), "glow(0xffb4befe)");
    assert_eq!(active_color("floating"), "0xffcba6f7");
    assert_eq!(active_color("floating |false"), "glow(0xffb4befe)");
    assert_eq!(active_color("h_tiles| true"), "glow(0xffb4befe)");
    assert_eq!(active_color(""), "glow(0xffb4befe)");
    assert_eq!(active_color("h_tiles|false\nfloating|true"), "glow(0xffb4befe)");
}

#[test]
fn the_border_is_set_by_a_script() {
    let state = HelperState::new(IconMap::new(), true);
    let started = update_borders(Some("floating|false".to_string()), &state).unwrap();
    assert_eq!(started.program, "/bin/bash");
    assert_eq!(
        started.args,
        vec![
            "-c",
            "/opt/homebrew/bin/borders active_color=\"0xffcba6f7\" inactive_color=\"0xff11111b\"",
        ]
    );
    let started = update_borders(None, &state).unwrap();
    assert_eq!(
        started.args[1],
        "/opt/homebrew/bin/borders active_color=\"glow(0xffb4befe)\" inactive_color=\"0xff11111b\""
    );
}
