use aerospace_helper::instance::{
    build_revision, recorded_pid, version_line, wants_version, write_pid_file, PidDecision,
};

fn claimed(decision: PidDecision) -> Option<String> {
    match decision {
        PidDecision::Claim(text) => Some(text),
        PidDecision::Refuse => None,
    }
}

#[test]
fn the_recorded_process_is_read() {
    assert_eq!(recorded_pid(Some("4711")), Some(4711));
    assert_eq!(recorded_pid(Some(" 4711\n")), Some(4711));
    assert_eq!(recorded_pid(Some("")), None);
    assert_eq!(recorded_pid(Some("no number")), None);
    assert_eq!(recorded_pid(Some("-1")), None);
    assert_eq!(recorded_pid(Some("4294967296")), None);
    assert_eq!(recorded_pid(None), None);
}

#[test]
fn another_living_helper_is_left_alone() {
    assert_eq!(claimed(write_pid_file(Some(1), true, 2)), None);
}

#[test]
fn a_dead_or_own_or_missing_record_is_taken_over() {
    assert_eq!(claimed(write_pid_file(Some(1), false, 2)).as_deref(), Some("2"));
    assert_eq!(claimed(write_pid_file(Some(2), true, 2)).as_deref(), Some("2"));
    assert_eq!(claimed(write_pid_file(None, true, 2)).as_deref(), Some("2"));
    assert_eq!(claimed(write_pid_file(None, false, 4711)).as_deref(), Some("4711"));
}

#[test]
fn what_is_written_is_what_a_later_helper_reads() {
    for pid in [0, 1, 10, 65535, u32::MAX] {
        let text = claimed(write_pid_file(None, false, pid)).unwrap();
        assert_eq!(recorded_pid(Some(&text)), Some(pid));
    }
}

#[test]
fn the_version_is_asked_for_by_either_flag() {
    let args = |list: &[&str]| list.iter().map(|s| s.to_string()).collect::<Vec<_>>();
    assert!(wants_version(&args(&["aerospace-helper", "--version"])));
    assert!(wants_version(&args(&["aerospace-helper", "x", "-v"])));
    assert!(!wants_version(&args(&["aerospace-helper", "-V"])));
    assert!(!wants_version(&args(&[])));
}

#[test]
fn the_version_names_the_revision() {
    assert_eq!(build_revision(None), "unknown");
    assert_eq!(build_revision(Some("")), "unknown");
    assert_eq!(build_revision(Some("abc1234")), "abc1234");
    assert_eq!(build_revision(Some("abc1234\n")), "abc1234");
    assert_eq!(build_revision(Some(" \n")), "unknown");
    assert_eq!(version_line("0.1.0", "abc1234"), "aerospace-helper 0.1.0 (abc1234)");
}
