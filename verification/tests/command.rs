use rodo::command::{handle_command, parse_command, show_help, CommandAction, RodoCommand};
use rodo::store::{RodoError, TodoDB};

fn args(parts: &[&str]) -> Vec<String> {
    parts.iter().map(|p| p.to_string()).collect()
}

fn store() -> TodoDB {
    TodoDB::new(String::from("/tmp/todo.db"), b"")
}

#[test]
fn parse_no_arguments_is_invalid() {
    let cmd = parse_command(&args(&["rodo"]));
    match cmd {
        RodoCommand::Invalid(m) => assert_eq!(m, "less parameters"),
        _ => panic!("expected an invalid command"),
    }
}

#[test]
fn parse_help_flags() {
    assert!(matches!(parse_command(&args(&["rodo", "-h"])), RodoCommand::Help));
    assert!(matches!(parse_command(&args(&["rodo", "--help"])), RodoCommand::Help));
}

#[test]
fn parse_version_flags() {
    assert!(matches!(parse_command(&args(&["rodo", "-v"])), RodoCommand::Version));
    assert!(matches!(parse_command(&args(&["rodo", "--version"])), RodoCommand::Version));
}

#[test]
fn parse_list_and_info() {
    assert!(matches!(parse_command(&args(&["rodo", "list"])), RodoCommand::List));
    assert!(matches!(parse_command(&args(&["rodo", "info"])), RodoCommand::Info));
}

#[test]
fn parse_add_with_item() {
    match parse_command(&args(&["rodo", "add", "milk"])) {
        RodoCommand::Add(t) => assert_eq!(t, "milk"),
        _ => panic!("expected an add command"),
    }
}

#[test]
fn parse_add_without_item_is_invalid() {
    match parse_command(&args(&["rodo", "add"])) {
        RodoCommand::Invalid(m) => assert_eq!(m, "[add] subcommand need item"),
        _ => panic!("expected an invalid command"),
    }
}

#[test]
fn parse_remove_with_sequence() {
    match parse_command(&args(&["rodo", "remove", "2"])) {
        RodoCommand::Remove(t) => assert_eq!(t, "2"),
        _ => panic!("expected a remove command"),
    }
}

#[test]
fn parse_remove_without_sequence_is_invalid() {
    match parse_command(&args(&["rodo", "remove"])) {
        RodoCommand::Invalid(m) => assert_eq!(m, "[remove] subcommand need sequence"),
        _ => panic!("expected an invalid command"),
    }
}

#[test]
fn parse_unknown_subcommand_is_invalid() {
    match parse_command(&args(&["rodo", "frobnicate"])) {
        RodoCommand::Invalid(m) => assert_eq!(m, "frobnicate"),
        _ => panic!("expected an invalid command"),
    }
}

#[test]
fn handle_add_appends_a_record_line() {
    let mut db = store();
    let r = handle_command(&mut db, b"", &RodoCommand::Add(String::from("x")));
    match r {
        Ok(CommandAction::Append(line)) => assert_eq!(line, b"0 x\n".to_vec()),
        _ => panic!("expected an append action"),
    }
    assert_eq!(db.file_index, 1);
}

#[test]
fn handle_remove_rewrites_without_the_record() {
    let mut db = store();
    let r = handle_command(&mut db, b"0 a\n1 b\n", &RodoCommand::Remove(String::from("0")));
    match r {
        Ok(CommandAction::Rewrite(bytes)) => assert_eq!(bytes, b"1 b\n".to_vec()),
        _ => panic!("expected a rewrite action"),
    }
}

#[test]
fn handle_remove_missing_fails() {
    let mut db = store();
    let r = handle_command(&mut db, b"0 a\n", &RodoCommand::Remove(String::from("7")));
    assert!(matches!(r, Err(RodoError::NotFound)));
}

#[test]
fn handle_remove_non_numeric_fails() {
    let mut db = store();
    let r = handle_command(&mut db, b"0 a\n", &RodoCommand::Remove(String::from("one")));
    assert!(matches!(r, Err(RodoError::Parse)));
}

#[test]
fn handle_list_shows_the_records() {
    let mut db = store();
    let r = handle_command(&mut db, b"0 a\n2 c\n", &RodoCommand::List);
    match r {
        Ok(CommandAction::Show(records)) => {
            assert_eq!(records.len(), 2);
            assert_eq!(records[0].sequence, 0);
            assert_eq!(records[1].sequence, 2);
            assert_eq!(records[1].content, b"c".to_vec());
        },
        _ => panic!("expected a show action"),
    }
}

#[test]
fn handle_info_names_the_backing_file() {
    let mut db = store();
    let r = handle_command(&mut db, b"", &RodoCommand::Info);
    match r {
        Ok(CommandAction::Info(path)) => assert_eq!(path, "/tmp/todo.db"),
        _ => panic!("expected an info action"),
    }
}

#[test]
fn handle_help_prints_the_usage_text() {
    let mut db = store();
    let r = handle_command(&mut db, b"", &RodoCommand::Help);
    match r {
        Ok(CommandAction::Print(text)) => {
            assert_eq!(text, show_help());
            assert!(text.starts_with("rodo 1.0.0"));
            assert!(text.contains("USAGE"));
        },
        _ => panic!("expected a print action"),
    }
}

#[test]
fn handle_version_prints_the_version() {
    let mut db = store();
    let r = handle_command(&mut db, b"", &RodoCommand::Version);
    match r {
        Ok(CommandAction::Print(text)) => assert_eq!(text, "1.0.0"),
        _ => panic!("expected a print action"),
    }
}

#[test]
fn handle_invalid_reports_the_reason() {
    let mut db = store();
    let r = handle_command(&mut db, b"", &RodoCommand::Invalid(String::from("nope")));
    match r {
        Err(RodoError::Invalid(m)) => {
            assert_eq!(m, "nope");
            assert_eq!(RodoError::Invalid(String::from("nope")).message(), "nope");
        },
        _ => panic!("expected an invalid-command error"),
    }
}
