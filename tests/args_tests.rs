use todocommander::args::{parse_arguments, parse_command, parse_config, Command, ErrorType};

fn to_args(parameters: &[&str]) -> Vec<String> {
    parameters.iter().map(|s| String::from(*s)).collect()
}

#[test]
fn program_name_is_skipped_and_options_read() {
    let r = parse_arguments(&to_args(&["todo", "--todo-file", "t.txt", "-d", "d.txt", "do", "3"]));
    match r {
        Ok(a) => {
            assert_eq!(a.config.todo_filename, Some("t.txt".to_string()));
            assert_eq!(a.config.done_filename, Some("d.txt".to_string()));
            assert!(!a.config.help);
            assert!(matches!(a.command, Some(Command::Do(3))));
        },
        Err(_) => panic!("expected arguments"),
    }
}

#[test]
fn help_flag_takes_the_next_word() {
    let r = parse_arguments(&to_args(&["todo", "--help", "x", "list"]));
    match r {
        Ok(a) => {
            assert!(a.config.help);
            assert!(matches!(a.command, Some(Command::List)));
        },
        Err(_) => panic!("expected arguments"),
    }
}

#[test]
fn no_command_is_none() {
    match parse_arguments(&to_args(&["todo", "-f", "t"])) {
        Ok(a) => assert!(a.command.is_none()),
        Err(_) => panic!("expected arguments"),
    }
    match parse_arguments(&to_args(&[])) {
        Ok(a) => assert!(a.command.is_none() && a.config.todo_filename.is_none()),
        Err(_) => panic!("expected arguments"),
    }
}

#[test]
fn option_without_value_is_an_error() {
    match parse_config(&to_args(&["-d"])) {
        Err(ErrorType::MissingValue(a)) => assert_eq!(a, "-d"),
        _ => panic!("expected a missing value"),
    }
}

#[test]
fn commands_are_read() {
    assert!(matches!(parse_command(&to_args(&["add", "buy", "milk"])), Ok(Some(Command::Add(t))) if t == "buy milk"));
    assert!(matches!(parse_command(&to_args(&["add"])), Ok(Some(Command::Add(t))) if t.is_empty()));
    assert!(matches!(parse_command(&to_args(&["archive", "2"])), Ok(Some(Command::Archive(2)))));
    assert!(matches!(parse_command(&to_args(&["undo", "65535"])), Ok(Some(Command::Undo(65535)))));
    assert!(matches!(parse_command(&to_args(&["list", "extra"])), Ok(Some(Command::List))));
    assert!(matches!(parse_command(&to_args(&[])), Ok(None)));
}

#[test]
fn bad_commands_are_errors() {
    assert!(matches!(parse_command(&to_args(&["do"])), Err(ErrorType::InvalidTaskId(v)) if v == vec!["do"]));
    assert!(matches!(parse_command(&to_args(&["do", "x1"])), Err(ErrorType::InvalidTaskId(_))));
    assert!(matches!(parse_command(&to_args(&["archive", "65536"])), Err(ErrorType::InvalidTaskId(_))));
    assert!(matches!(parse_command(&to_args(&["frobnicate", "1"])), Err(ErrorType::CannotIdentifyCommand(v)) if v == vec!["frobnicate", "1"]));
}
