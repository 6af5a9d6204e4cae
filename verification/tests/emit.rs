use recon::emit::{Emit, Exit};
use std::cell::RefCell;

fn deliver(exit: Exit, requested: Option<Emit>) -> (Vec<u8>, String, bool) {
    let out = RefCell::new(Vec::new());
    let (err, success) = exit.deliver(requested, |bytes: Vec<u8>| {
        out.borrow_mut().extend(bytes);
        Ok(())
    });
    (out.into_inner(), err, success)
}

#[test]
fn an_emit_writes_every_line_newline_terminated_and_the_summary_to_stderr() {
    let exit = Exit::Emit {
        lines: vec![b"one".to_vec(), b"two".to_vec()],
        summary: "recon: emitted 2 lines".to_string(),
        failed: 0,
    };

    let (out, err, success) = deliver(exit, Some(Emit::Lines));

    assert_eq!(out, b"one\ntwo\n");
    assert_eq!(err, "recon: emitted 2 lines\n");
    assert!(success);
}

#[test]
fn an_empty_emit_is_a_success_with_nothing_on_stdout() {
    let exit = Exit::Emit {
        lines: Vec::new(),
        summary: "recon: emitted 0 files from /d, hide mode".to_string(),
        failed: 0,
    };

    let (out, err, success) = deliver(exit, Some(Emit::Files));

    assert!(out.is_empty());
    assert_eq!(err, "recon: emitted 0 files from /d, hide mode\n");
    assert!(success);
}

#[test]
fn a_silent_quit_under_emit_writes_nothing_and_fails() {
    let (out, err, success) = deliver(Exit::Silent, Some(Emit::Cwd));

    assert!(out.is_empty());
    assert!(err.is_empty());
    assert!(!success);
}

#[test]
fn a_silent_quit_without_emit_writes_nothing_and_succeeds() {
    let (out, err, success) = deliver(Exit::Silent, None);

    assert!(out.is_empty());
    assert!(err.is_empty());
    assert!(success);
}

#[test]
fn lines_are_written_as_bytes_not_re_encoded() {
    let exit = Exit::Emit {
        lines: vec![vec![0xff, 0xfe, b'x']],
        summary: String::new(),
        failed: 0,
    };

    let (out, _, _) = deliver(exit, Some(Emit::Files));

    assert_eq!(out, vec![0xff, 0xfe, b'x', b'\n']);
}

#[test]
fn a_failed_write_is_said_and_fails() {
    let exit = Exit::Emit {
        lines: vec![b"one".to_vec()],
        summary: "recon: emitted 1 line".to_string(),
        failed: 0,
    };

    let (err, success) = exit.deliver(Some(Emit::Lines), |_: Vec<u8>| Err("broken pipe".to_string()));

    assert!(err.contains("broken pipe"), "{err}");
    assert!(!success);
}

#[test]
fn a_silent_exit_hands_nothing_to_the_writer() {
    for requested in [None, Some(Emit::Lines)] {
        let (err, success) = Exit::Silent.deliver(requested, |_: Vec<u8>| {
            panic!("nothing is to be written")
        });
        assert!(err.is_empty());
        assert_eq!(success, requested.is_none());
    }
}
