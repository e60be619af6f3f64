use todocommander::config::{read_configuration_from_filecontent, Config};

#[test]
pub fn test_parse_config() {
    let mut config = Config {
        todo_filename: Option::None,
        done_filename: Option::None,
    };
    read_configuration_from_filecontent(
        r#"
todo_filename=/home/avd/todo.txt
done_filename=/home/avd/done.txt
    "#,
        &mut config,
    );
    println!("{:?}", &config);
    assert!(matches!(config, Config { todo_filename: Option::Some(v), .. }))
}

use todocommander::config::{parse_arguments, parse_config, ArgsConfig, ArgumentDef, Arguments, Command, ErrorType};

fn to_args(parameters: &[&str]) -> Vec<String> {
    parameters.iter().map(|s| String::from(*s)).collect()
}

#[test]
pub fn parse_erroneous_arguments_1() {
    let parameters: Vec<&str> = vec!["--todo-file", "a"];
    match parse_arguments(&to_args(&parameters)) {
        Result::Err(ErrorType::MissingArguments(missing_arguments_vector)) => assert!(matches!(
            missing_arguments_vector.iter().find(|arg_def| match arg_def {
                ArgumentDef {
                    long_form: "--done-file",
                    ..
                } => true,
                _ => false,
            }),
            Option::Some(_)
        )),
        _ => {
            panic!("This test failed");
        }
    }
}

#[test]
pub fn parse_erroneous_arguments_2() {
    let parameters: Vec<&str> = vec!["--done-file", "a"];
    match parse_arguments(&to_args(&parameters)) {
        Result::Err(ErrorType::MissingArguments(missing_arguments_vector)) => assert!(matches!(
            missing_arguments_vector.iter().find(|arg_def| match arg_def {
                ArgumentDef {
                    long_form: "--todo-file",
                    ..
                } => true,
                _ => false,
            }),
            Option::Some(_)
        )),
        _ => {
            panic!("This test failed");
        }
    }
}

#[test]
pub fn parse_arguments_1() {
    let parameters: Vec<&str> = vec!["--done-file", "a", "--todo-file", "b", "do", "36"];
    assert!(matches!(
        parse_arguments(&to_args(&parameters)),
        Result::Ok(Arguments {
            config: ArgsConfig {
                todo_filename: Option::Some(b),
                done_filename: Option::Some(a),
            },
            command: Command::Do(36),
        }) if a == "a" && b == "b"
    ));
}

#[test]
pub fn parse_arguments_2() {
    let parameters = vec!["--done-file", "a", "--todo-file", "b", "add", "foo bar", "baz"];
    assert!(matches!(
        parse_arguments(&to_args(&parameters)),
        Result::Ok(Arguments {
            config: ArgsConfig {
                todo_filename: Option::Some(b),
                done_filename: Option::Some(a),
            },
            command: Command::Add(text),
        }) if a == "a" && b == "b" && text == "foo bar baz"
    ));
}

#[test]
pub fn parse_config_unprocessed_args() {
    let parameters: Vec<&str> = vec!["--done-file", "a", "--todo-file", "b", "do", "36"];
    match parse_config(&to_args(&parameters)) {
        Result::Ok((_, unprocessed_args)) if unprocessed_args == vec!["do", "36"] => (),
        _ => panic!("test failed"),
    }
}

#[test]
pub fn config_later_line_wins_and_malformed_lines_are_ignored() {
    let mut config = Config::new();
    read_configuration_from_filecontent(
        "todo_filename=/a\ndone_filename=/b=c\nnoise\ntodo_filename=/z\r\n",
        &mut config,
    );
    assert_eq!(config.todo_filename, Some("/z".to_string()));
    assert_eq!(config.done_filename, None);
}

#[test]
pub fn required_options_missing_value() {
    match parse_arguments(&to_args(&["--todo-file"])) {
        Err(ErrorType::MissingValue(a)) => assert_eq!(a, "--todo-file"),
        _ => panic!("expected a missing value"),
    }
}

#[test]
pub fn required_options_short_forms_and_no_command() {
    match parse_arguments(&to_args(&["-f", "t", "-d", "d"])) {
        Err(ErrorType::CannotIdentifyCommand(v)) => assert!(v.is_empty()),
        _ => panic!("expected no command"),
    }
    match parse_arguments(&to_args(&["-f", "t", "-d", "d", "list"])) {
        Ok(Arguments { command: Command::List, config }) => {
            assert_eq!(config.todo_filename, Some("t".to_string()));
            assert_eq!(config.done_filename, Some("d".to_string()));
        },
        _ => panic!("expected list"),
    }
}

#[test]
pub fn required_options_both_missing() {
    match parse_arguments(&to_args(&["list"])) {
        Err(ErrorType::MissingArguments(v)) => {
            assert_eq!(v.len(), 2);
            assert_eq!(v[0].long_form, "--todo-file");
            assert_eq!(v[1].long_form, "--done-file");
        },
        _ => panic!("expected missing arguments"),
    }
}
