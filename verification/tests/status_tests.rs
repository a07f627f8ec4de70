use release_monitor::status::{parse_service_status, parse_u32_exec, StatusError};

#[test]
fn running_service_is_read() {
    let st = parse_service_status("ActiveState=active\nSubState=running\nMainPID=1234\n").ok().unwrap();
    assert_eq!(st.active_state, "active");
    assert_eq!(st.sub_state, "running");
    assert_eq!(st.main_pid, Some(1234));
}

#[test]
fn zero_pid_means_no_process() {
    let st = parse_service_status("MainPID=0\nActiveState=inactive\nSubState=dead").ok().unwrap();
    assert_eq!(st.active_state, "inactive");
    assert_eq!(st.sub_state, "dead");
    assert_eq!(st.main_pid, None);
}

#[test]
fn later_zero_pid_keeps_earlier_pid() {
    let st = parse_service_status("MainPID=7\nMainPID=0\n").ok().unwrap();
    assert_eq!(st.main_pid, Some(7));
}

#[test]
fn invalid_pid_is_an_error() {
    match parse_service_status("ActiveState=active\nMainPID=abc\n") {
        Err(StatusError::InvalidMainPid(value)) => assert_eq!(value, "abc"),
        Ok(_) => panic!("expected an error"),
    }
}

#[test]
fn crlf_line_endings_are_dropped() {
    let st = parse_service_status("ActiveState=active\r\nSubState=running\r\n").ok().unwrap();
    assert_eq!(st.active_state, "active");
    assert_eq!(st.sub_state, "running");
}

#[test]
fn final_carriage_return_without_newline_stays() {
    let st = parse_service_status("SubState=running\r").ok().unwrap();
    assert_eq!(st.sub_state, "running\r");
}

#[test]
fn value_keeps_later_equals_signs() {
    let st = parse_service_status("ActiveState=a=b\n").ok().unwrap();
    assert_eq!(st.active_state, "a=b");
}

#[test]
fn other_lines_change_nothing() {
    let st = parse_service_status("\nnoise\nId=x.service\nActiveState=active\n\n").ok().unwrap();
    assert_eq!(st.active_state, "active");
    assert_eq!(st.sub_state, "");
    assert_eq!(st.main_pid, None);
}

#[test]
fn empty_output_gives_empty_status() {
    let st = parse_service_status("").ok().unwrap();
    assert_eq!(st.active_state, "");
    assert_eq!(st.sub_state, "");
    assert_eq!(st.main_pid, None);
}

#[test]
fn later_assignment_wins() {
    let st = parse_service_status("SubState=a\nSubState=b\n").ok().unwrap();
    assert_eq!(st.sub_state, "b");
}

#[test]
fn u32_parsing_follows_std() {
    for s in ["0", "1", "+5", "0042", "4294967295", "4294967296", "", "+", "-1", " 1", "1 ", "12a", "99999999999999999999", "٣"] {
        assert_eq!(parse_u32_exec(s), s.parse::<u32>().ok(), "input {:?}", s);
    }
}

#[test]
fn overflowing_pid_is_an_error() {
    match parse_service_status("MainPID=4294967296") {
        Err(StatusError::InvalidMainPid(value)) => assert_eq!(value, "4294967296"),
        Ok(_) => panic!("expected an error"),
    }
}

#[test]
fn lines_follow_std() {
    let text = "A=1\r\nActiveState=x\r\n\r\nSubState=y\rz\nMainPID=+9";
    let st = parse_service_status(text).ok().unwrap();
    assert_eq!(st.active_state, "x");
    assert_eq!(st.sub_state, "y\rz");
    assert_eq!(st.main_pid, Some(9));
    assert_eq!(text.lines().count(), 5);
}

#[test]
fn inserted_other_lines_change_nothing() {
    let plain = "ActiveState=active\nSubState=running\nMainPID=42\n";
    let padded = "Id=foo\nActiveState=active\nno equals sign\nSubState=running\nDescription=x=y\nMainPID=42\n";
    let a = parse_service_status(plain).ok().unwrap();
    let b = parse_service_status(padded).ok().unwrap();
    assert_eq!(a.active_state, b.active_state);
    assert_eq!(a.sub_state, b.sub_state);
    assert_eq!(a.main_pid, b.main_pid);
    match (parse_service_status("MainPID=x\n"), parse_service_status("Id=foo\nMainPID=x\n")) {
        (Err(StatusError::InvalidMainPid(u)), Err(StatusError::InvalidMainPid(v))) => assert_eq!(u, v),
        _ => panic!("expected both to fail"),
    }
}

#[test]
fn unterminated_inert_line_appended_changes_nothing() {
    let a = parse_service_status("ActiveState=active\nMainPID=3\n").ok().unwrap();
    let b = parse_service_status("ActiveState=active\nMainPID=3\nId=x").ok().unwrap();
    assert_eq!(a.active_state, b.active_state);
    assert_eq!(a.main_pid, b.main_pid);
}

#[test]
fn inert_line_after_unterminated_last_line_changes_nothing() {
    let a = parse_service_status("ActiveState=active\nSubState=running").ok().unwrap();
    let b = parse_service_status("ActiveState=active\nSubState=running\nId=x").ok().unwrap();
    assert_eq!(a.sub_state, "running");
    assert_eq!(a.sub_state, b.sub_state);
    assert_eq!(a.active_state, b.active_state);
}
