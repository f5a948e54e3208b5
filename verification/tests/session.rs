use fantom::session::{
    device_dump_script, device_flash_script, device_verify_script, dump_report, dump_script, flash_script,
    flash_source, nisprog_raw, script_text, session_outcome, session_result, verify_script,
};

fn some(s: &str) -> Option<String> {
    Some(s.to_string())
}

#[test]
fn a_dump_session() {
    assert_eq!(
        dump_script("sh7058", "/k/npk", "/d/out.bin", some("0x100"), some("512")),
        [
            "npconn",
            "setdev 2",
            "npconf p3 0",
            "runkernel /k/npk",
            "dumpmem /d/out.bin 0x100 512",
            "stopkernel",
            "npdisc"
        ]
    );
    assert_eq!(device_dump_script("0", "k", "o", None, None)[4], "dumpmem o 0 0");
}

#[test]
fn a_flash_session_practices_by_default() {
    assert_eq!(
        flash_script("SH7055_18", "k", "r.bin", None),
        ["npconn", "setdev 1", "npconf p3 0", "runkernel k", "flrom r.bin", "p", "stopkernel", "npdisc"]
    );
}

#[test]
fn a_flash_session_gives_every_answer() {
    let script = flash_script("7051", "k", "r.bin", some("y\n\nn"));
    assert_eq!(script[1], "setdev 0");
    assert_eq!(&script[4..], &["flrom r.bin", "y", "", "n", "stopkernel", "npdisc"]);
    assert_eq!(&device_flash_script("1", "k", "r", some(""))[4..], &["flrom r", "", "stopkernel", "npdisc"]);
}

#[test]
fn a_verify_session() {
    assert_eq!(
        verify_script("SH7058", "k", "r.bin"),
        ["npconn", "setdev 2", "runkernel k", "flverif r.bin", "stopkernel", "npdisc"]
    );
    assert_eq!(device_verify_script("0", "k", "r")[1], "setdev 0");
}

#[test]
fn dump_and_verify_do_not_flash() {
    for command in dump_script("7058", "k", "o", None, None) {
        assert!(!command.starts_with("flrom"));
    }
    for command in verify_script("7058", "k", "o") {
        assert!(!command.starts_with("flrom"));
    }
}

#[test]
fn sessions_end_with_exit() {
    let none: Vec<String> = Vec::new();
    assert_eq!(script_text(&none), "\nexit\n");
    assert_eq!(script_text(&["npconn".to_string()]), "npconn\nexit\n");
    let script = verify_script("7058", "k", "r");
    assert_eq!(script_text(&script), script.join("\n") + "\nexit\n");
    for commands in [none, script] {
        assert_eq!(script_text(&commands).lines().last(), Some("exit"));
    }
}

#[test]
fn commands_reach_the_shell_as_they_are() {
    let script = flash_script("7058", "k", "r", some("y\ny"));
    let mut expected = script.clone();
    expected.push("exit".to_string());
    assert_eq!(nisprog_raw(&script_text(&script)), expected);
}

#[test]
fn a_free_session_has_one_command_for_a_line() {
    assert_eq!(nisprog_raw("npconn\r\nwatch 0x10\n\nnpdisc"), ["npconn", "watch 0x10", "", "npdisc"]);
    assert!(nisprog_raw("").is_empty());
}

#[test]
fn success_is_what_was_printed() {
    assert_eq!(session_result(true, "exit status: 0", b"hello\n", b"ignored"), Ok("hello\n".to_string()));
    assert_eq!(session_outcome(true, "s", "out".to_string(), "err"), Ok("out".to_string()));
}

#[test]
fn failure_is_reported_with_its_output() {
    assert_eq!(
        session_result(false, "exit status: 3", b"out", b""),
        Err("nisprog exited with status exit status: 3\n--- stdout ---\nout".to_string())
    );
    assert_eq!(
        session_result(false, "exit status: 3", b"out", b"err"),
        Err("nisprog exited with status exit status: 3\n--- stdout ---\nout\n--- stderr ---\nerr".to_string())
    );
}

#[test]
fn bytes_that_are_no_text_are_replaced() {
    assert_eq!(session_result(true, "s", b"a\xFFb", b""), Ok("a\u{FFFD}b".to_string()));
    assert_eq!(session_result(true, "s", "\u{e9}".as_bytes(), b""), Ok("\u{e9}".to_string()));
}

#[test]
fn dumps_are_reported_with_their_path() {
    assert_eq!(dump_report("/tmp/d.bin", "done\n"), "DUMP_OK path=/tmp/d.bin\ndone\n");
}

#[test]
fn the_file_to_flash_has_a_default() {
    assert_eq!(flash_source(None), "dump.bin");
    assert_eq!(flash_source(some("a.bin")), "a.bin");
}

#[test]
fn the_shell_reads_one_answer_by_default() {
    let read = nisprog_raw(&script_text(&flash_script("7058", "k", "r", None)));
    assert_eq!(&read[4..], &["flrom r", "p", "stopkernel", "npdisc", "exit"]);
}

#[test]
fn the_shell_reads_no_flash_command_in_a_dump() {
    let read = nisprog_raw(&script_text(&dump_script("7058", "k", "o", None, Some("16\r".to_string()))));
    assert!(read.iter().all(|line| !line.starts_with("flrom")));
    assert_eq!(read[4], "dumpmem o 0 16");
}

#[test]
fn the_shell_reads_every_answer_and_no_other() {
    let read = nisprog_raw(&script_text(&flash_script("7058", "k", "r", some("n\r\n\nn"))));
    assert_eq!(&read[4..], &["flrom r", "n", "", "n", "stopkernel", "npdisc", "exit"]);
    assert!(!read.contains(&"y".to_string()));
}
