use brnfk::command::{Command, Error};
use brnfk::loader::Program;

#[test]
fn invalid_single_byte() {
    let r = Program::load(b"a");
    assert_eq!(r.unwrap_err(), Error::InvalidCommand { index: 0, command: 97 });
}

#[test]
fn invalid_byte_reports_raw_offset() {
    // Whitespace is skipped but still counts toward the raw byte offset.
    let r = Program::load(b" +\n#");
    assert_eq!(r.unwrap_err(), Error::InvalidCommand { index: 3, command: 35 });
}

#[test]
fn whitespace_only_loads_empty() {
    let p = Program::load(b" \t\r\n \x0c ").unwrap();
    assert_eq!(p.commands().len(), 0);
}

#[test]
fn empty_input_loads_empty() {
    let p = Program::load(b"").unwrap();
    assert_eq!(p.commands().len(), 0);
}

#[test]
fn unmatched_start() {
    let r = Program::load(b"[");
    assert_eq!(r.unwrap_err(), Error::UnmatchedJump { index: 0 });
}

#[test]
fn unmatched_end() {
    let r = Program::load(b"]");
    assert_eq!(r.unwrap_err(), Error::UnmatchedJump { index: 0 });
}

#[test]
fn unmatched_end_reports_resolved_index() {
    // The reported position counts resolved instructions, not raw bytes.
    let r = Program::load(b" +]");
    assert_eq!(r.unwrap_err(), Error::UnmatchedJump { index: 1 });
}

#[test]
fn unmatched_start_reports_innermost() {
    // Both starts are left pending; the innermost one is reported.
    let r = Program::load(b"[[");
    assert_eq!(r.unwrap_err(), Error::UnmatchedJump { index: 1 });
}

#[test]
fn nested_brackets_resolve_structurally() {
    let p = Program::load(b"[[]]").unwrap();
    assert_eq!(
        *p.commands(),
        vec![
            Command::JmpStart(3),
            Command::JmpStart(2),
            Command::JmpEnd(1),
            Command::JmpEnd(0),
        ]
    );
}

#[test]
fn sibling_brackets_resolve_structurally() {
    let p = Program::load(b"[][]").unwrap();
    assert_eq!(
        *p.commands(),
        vec![
            Command::JmpStart(1),
            Command::JmpEnd(0),
            Command::JmpStart(3),
            Command::JmpEnd(2),
        ]
    );
}

#[test]
fn all_plain_commands_translate() {
    let p = Program::load(b"><+-.,").unwrap();
    assert_eq!(
        *p.commands(),
        vec![
            Command::IncPtr,
            Command::DecPtr,
            Command::Inc,
            Command::Dec,
            Command::Output,
            Command::Input,
        ]
    );
}

#[test]
fn loading_is_idempotent() {
    let source = b"+ [>,.<-] ";
    let p1 = Program::load(source).unwrap();
    let p2 = Program::load(source).unwrap();
    assert_eq!(*p1.commands(), *p2.commands());
}

#[test]
fn set_index_rewrites_either_variant() {
    let mut e = Error::InvalidCommand { index: 0, command: 64 };
    e.set_index(9);
    assert_eq!(e, Error::InvalidCommand { index: 9, command: 64 });
    let mut e = Error::UnmatchedJump { index: 3 };
    e.set_index(7);
    assert_eq!(e, Error::UnmatchedJump { index: 7 });
}

#[test]
fn from_byte_translates_and_rejects() {
    assert_eq!(Command::from_byte(b'+').unwrap(), Command::Inc);
    assert_eq!(Command::from_byte(b'[').unwrap(), Command::JmpStart(0));
    assert_eq!(
        Command::from_byte(b'!').unwrap_err(),
        Error::InvalidCommand { index: 0, command: 33 }
    );
}
