//! Where the two list files are named: the configuration file of
//! `key=value` lines, and an option reader for which both file options are
//! mandatory and a command must follow.
use vstd::prelude::*;
pub use crate::args::Command;
use crate::args::{command_spec, command_view, lemma_strings_push, parse_command as read_command, strings_view, ParsedCommand, Setting};
use crate::data::strip_cr;
use crate::text::{chars_of, split_char, split_on, string_of, str_eq};

verus! {

#[derive(Debug)]
pub struct Config {
    pub todo_filename: Option<String>,
    pub done_filename: Option<String>,
}

/// The mathematical value of a configuration.
pub ghost struct ConfigFileV {
    pub todo: Option<Seq<char>>,
    pub done: Option<Seq<char>>,
}

pub open spec fn opt_chars(o: Option<String>) -> Option<Seq<char>> {
    match o {
        Some(s) => Some(s@),
        None => None,
    }
}

impl View for Config {
    type V = ConfigFileV;

    open spec fn view(&self) -> ConfigFileV {
        ConfigFileV { todo: opt_chars(self.todo_filename), done: opt_chars(self.done_filename) }
    }
}

/// One line: exactly one `=`, with the key `todo_filename` or
/// `done_filename`, sets that file name; any other line changes nothing.
pub open spec fn config_line(c: ConfigFileV, line: Seq<char>) -> ConfigFileV {
    let p = split_on(strip_cr(line), '=');
    if p.len() == 2 && p[0] == "todo_filename"@ {
        ConfigFileV { todo: Some(p[1]), ..c }
    } else if p.len() == 2 && p[0] == "done_filename"@ {
        ConfigFileV { done: Some(p[1]), ..c }
    } else {
        c
    }
}

/// The lines applied in order.
pub open spec fn config_lines(c: ConfigFileV, lines: Seq<Seq<char>>) -> ConfigFileV
    decreases lines.len(),
{
    if lines.len() == 0 {
        c
    } else {
        config_line(config_lines(c, lines.drop_last()), lines.last())
    }
}

impl Config {
    pub fn new() -> (r: Config)
        ensures
            r.todo_filename is None,
            r.done_filename is None,
    {
        Config { todo_filename: None, done_filename: None }
    }
}

/// Reads the file names that the configuration text sets into `result`;
/// a later line wins over an earlier one.
pub fn read_configuration_from_filecontent(file_content: &str, result: &mut Config)
    ensures
        final(result)@ == config_lines(old(result)@, split_on(file_content@, '\n')),
{
    let chars = chars_of(file_content);
    let lines = split_char(&chars, '\n');
    let ghost ls = split_on(chars@, '\n');
    let ghost start = result@;
    let mut i: usize = 0;
    while i < lines.len()
        invariant
            i <= lines@.len() == ls.len(),
            ls == split_on(file_content@, '\n'),
            forall|k: int| 0 <= k < lines@.len() ==> (#[trigger] lines@[k])@ == ls[k],
            start == old(result)@,
            result@ == config_lines(start, ls.subrange(0, i as int)),
        decreases lines.len() - i,
    {
        let line = &lines[i];
        let mut end = line.len();
        if end > 0 && line[end - 1] == '\r' {
            end = end - 1;
        }
        let mut l: Vec<char> = Vec::new();
        let mut j: usize = 0;
        while j < end
            invariant
                j <= end <= line@.len(),
                l@ == line@.subrange(0, j as int),
            decreases end - j,
        {
            l.push(line[j]);
            assert(l@ =~= line@.subrange(0, j + 1));
            j = j + 1;
        }
        assert(l@ =~= strip_cr(line@));
        let parts = split_char(&l, '=');
        let ghost sub = ls.subrange(0, i + 1);
        assert(sub.drop_last() =~= ls.subrange(0, i as int));
        assert(sub.last() == line@);
        if parts.len() == 2 {
            let key = string_of(&parts[0]);
            if str_eq(key.as_str(), "todo_filename") {
                result.todo_filename = Some(string_of(&parts[1]));
            } else if str_eq(key.as_str(), "done_filename") {
                result.done_filename = Some(string_of(&parts[1]));
            }
        }
        assert(result@ == config_lines(start, sub));
        i = i + 1;
    }
    assert(ls.subrange(0, ls.len() as int) =~= ls);
}

/// The file names given on the command line.
#[derive(Debug)]
pub struct ArgsConfig {
    pub todo_filename: Option<String>,
    pub done_filename: Option<String>,
}

#[derive(Debug)]
pub struct Arguments {
    pub config: ArgsConfig,
    pub command: Command,
}

/// An option followed by a value; a mandatory one must be given.
#[derive(Debug, Clone, Copy)]
pub struct ArgumentDef {
    pub long_form: &'static str,
    pub short_form: Option<&'static str>,
    pub help_message: &'static str,
    pub mandatory: bool,
    pub setting: Setting,
}

#[derive(Debug)]
pub enum ErrorType {
    MissingArguments(Vec<ArgumentDef>),
    CannotIdentifyCommand(Vec<String>),
    /// An option that takes a value came last.
    MissingValue(String),
    /// `archive`, `do` or `undo` without a task number that fits a `u16`.
    InvalidTaskId(Vec<String>),
}

impl View for ArgsConfig {
    type V = ConfigFileV;

    open spec fn view(&self) -> ConfigFileV {
        ConfigFileV { todo: opt_chars(self.todo_filename), done: opt_chars(self.done_filename) }
    }
}

impl ArgsConfig {
    pub fn set_todo_filename(&mut self, value: String)
        ensures
            final(self).todo_filename == Some(value),
            final(self).done_filename == old(self).done_filename,
    {
        self.todo_filename = Some(value);
    }

    pub fn set_done_filename(&mut self, value: String)
        ensures
            final(self).done_filename == Some(value),
            final(self).todo_filename == old(self).todo_filename,
    {
        self.done_filename = Some(value);
    }
}

pub open spec fn todo_file_def() -> ArgumentDef {
    ArgumentDef {
        long_form: "--todo-file",
        short_form: Some("-f"),
        help_message: "todo file",
        mandatory: true,
        setting: Setting::TodoFile,
    }
}

pub open spec fn done_file_def() -> ArgumentDef {
    ArgumentDef {
        long_form: "--done-file",
        short_form: Some("-d"),
        help_message: "done file",
        mandatory: true,
        setting: Setting::DoneFile,
    }
}

/// The options, in the order they are matched.
pub open spec fn required_table() -> Seq<ArgumentDef> {
    seq![todo_file_def(), done_file_def()]
}

/// The options, in the order they are matched.
pub fn required_defs() -> (r: Vec<ArgumentDef>)
    ensures
        r@ == required_table(),
{
    let r = vec![
        ArgumentDef {
            long_form: "--todo-file",
            short_form: Some("-f"),
            help_message: "todo file",
            mandatory: true,
            setting: Setting::TodoFile,
        },
        ArgumentDef {
            long_form: "--done-file",
            short_form: Some("-d"),
            help_message: "done file",
            mandatory: true,
            setting: Setting::DoneFile,
        },
    ];
    assert(r@ =~= required_table());
    r
}

pub open spec fn def_names(d: ArgumentDef, a: Seq<char>) -> bool {
    d.long_form@ == a || (d.short_form matches Some(s) && s@ == a)
}

/// The index of the first option from `i` on that the word names.
pub open spec fn first_def(defs: Seq<ArgumentDef>, a: Seq<char>, i: int) -> Option<int>
    decreases defs.len() - i,
{
    if i < 0 || i >= defs.len() {
        None
    } else if def_names(defs[i], a) {
        Some(i)
    } else {
        first_def(defs, a, i + 1)
    }
}

/// Reads options from word `i` on, until a word that names none; each
/// takes the word after it as its value, and one that comes last is an
/// error. The result is the file names and the index of the first word left.
pub open spec fn scan_files(args: Seq<Seq<char>>, i: int, c: ConfigFileV) -> Result<(ConfigFileV, int), Seq<char>>
    decreases args.len() + 1 - i,
{
    if i < 0 || i >= args.len() {
        Ok((c, args.len() as int))
    } else {
        match first_def(required_table(), args[i], 0) {
            None => Ok((c, i)),
            Some(k) => if i + 1 < args.len() {
                scan_files(
                    args,
                    i + 2,
                    match required_table()[k].setting {
                        Setting::TodoFile => ConfigFileV { todo: Some(args[i + 1]), ..c },
                        Setting::DoneFile => ConfigFileV { done: Some(args[i + 1]), ..c },
                    },
                )
            } else {
                Err(args[i])
            },
        }
    }
}

/// The mandatory options that were not given, in table order.
pub open spec fn missing_defs(c: ConfigFileV) -> Seq<ArgumentDef> {
    (if c.todo is None {
        seq![todo_file_def()]
    } else {
        Seq::empty()
    }) + (if c.done is None {
        seq![done_file_def()]
    } else {
        Seq::empty()
    })
}

pub open spec fn no_files() -> ConfigFileV {
    ConfigFileV { todo: None, done: None }
}

fn def_names_exec(d: &ArgumentDef, arg: &str) -> (r: bool)
    ensures
        r == def_names(*d, arg@),
{
    str_eq(d.long_form, arg) || (match d.short_form {
        Some(s) => str_eq(s, arg),
        None => false,
    })
}

/// The index of the first definition that names `arg`.
fn find_arg_def(arg: &str, argument_defs: &Vec<ArgumentDef>) -> (r: Option<usize>)
    ensures
        r matches Some(k) ==> k < argument_defs@.len(),
        match r {
            Some(k) => first_def(argument_defs@, arg@, 0) == Some(k as int),
            None => first_def(argument_defs@, arg@, 0) is None,
        },
{
    let mut i: usize = 0;
    while i < argument_defs.len()
        invariant
            i <= argument_defs@.len(),
            first_def(argument_defs@, arg@, 0) == first_def(argument_defs@, arg@, i as int),
        decreases argument_defs.len() - i,
    {
        if def_names_exec(&argument_defs[i], arg) {
            return Some(i);
        }
        i = i + 1;
    }
    None
}

/// Reads the file options at the front of `args`, both of which must be
/// given; the words from the first one that names no option on are handed
/// back unread.
pub fn parse_config(args: &Vec<String>) -> (r: Result<(ArgsConfig, Vec<String>), ErrorType>)
    ensures
        match scan_files(strings_view(args@), 0, no_files()) {
            Ok((c, k)) => if missing_defs(c).len() == 0 {
                r matches Ok((cfg, rest)) && cfg@ == c && strings_view(rest@) == strings_view(
                    args@,
                ).skip(k)
            } else {
                r matches Err(ErrorType::MissingArguments(v)) && v@ == missing_defs(c)
            },
            Err(a) => r matches Err(ErrorType::MissingValue(s)) && s@ == a,
        },
{
    let ghost words = strings_view(args@);
    let defs = required_defs();
    let mut config = ArgsConfig { todo_filename: None, done_filename: None };
    let mut unprocessed: Vec<String> = Vec::new();
    let mut i: usize = 0;
    let mut stopped = false;
    while i < args.len() && !stopped
        invariant
            i <= args@.len() + 1,
            words == strings_view(args@),
            defs@ == required_table(),
            !stopped ==> scan_files(words, i as int, config@) == scan_files(words, 0, no_files()),
            !stopped ==> unprocessed@.len() == 0,
            stopped ==> scan_files(words, 0, no_files()) == Ok::<(ConfigFileV, int), Seq<char>>((config@, i as int)) && i <= args@.len()
                && strings_view(unprocessed@) == words.skip(i as int),
        decreases args.len() + 1 - i, if stopped { 0int } else { 1int },
    {
        let arg = &args[i];
        assert(arg@ == words[i as int]);
        let ghost before = config@;
        match find_arg_def(arg.as_str(), &defs) {
            None => {
                let mut j = i;
                while j < args.len()
                    invariant
                        i <= j <= args@.len(),
                        strings_view(unprocessed@) == words.subrange(i as int, j as int),
                        words == strings_view(args@),
                    decreases args.len() - j,
                {
                    let c = args[j].clone();
                    assert(c@ == words[j as int]);
                    proof {
                        lemma_strings_push(unprocessed@, c);
                    }
                    unprocessed.push(c);
                    assert(strings_view(unprocessed@) =~= words.subrange(i as int, j + 1));
                    j = j + 1;
                }
                assert(words.subrange(i as int, args@.len() as int) =~= words.skip(i as int));
                stopped = true;
            },
            Some(k) => {
                if i + 1 >= args.len() {
                    return Err(ErrorType::MissingValue(arg.clone()));
                }
                let value = args[i + 1].clone();
                assert(value@ == words[i + 1]);
                match defs[k].setting {
                    Setting::TodoFile => {
                        config.set_todo_filename(value);
                        assert(config@ == ConfigFileV { todo: Some(words[i + 1]), ..before });
                    },
                    Setting::DoneFile => {
                        config.set_done_filename(value);
                        assert(config@ == ConfigFileV { done: Some(words[i + 1]), ..before });
                    },
                }
                assert(scan_files(words, i as int, before) == scan_files(words, i + 2, config@));
                i = i + 2;
            },
        }
    }
    if !stopped {
        assert(strings_view(unprocessed@) =~= words.skip(args@.len() as int));
        i = args.len();
    }
    let mut unset_arguments: Vec<ArgumentDef> = Vec::new();
    if config.todo_filename.is_none() {
        unset_arguments.push(defs[0]);
    }
    if config.done_filename.is_none() {
        unset_arguments.push(defs[1]);
    }
    assert(unset_arguments@ =~= missing_defs(config@));
    if unset_arguments.len() > 0 {
        Err(ErrorType::MissingArguments(unset_arguments))
    } else {
        Ok((config, unprocessed))
    }
}

/// The value of a command that must be present, or of the error instead.
pub open spec fn required_command_view(r: Result<Command, ErrorType>) -> ParsedCommand {
    match r {
        Ok(c) => command_view(Some(c)),
        Err(ErrorType::CannotIdentifyCommand(v)) => ParsedCommand::Unknown(strings_view(v@)),
        Err(ErrorType::InvalidTaskId(v)) => ParsedCommand::BadTaskId(strings_view(v@)),
        Err(_) => ParsedCommand::Other,
    }
}

/// What `parse_command` gives: no words are an unknown command.
pub open spec fn required_command_spec(ws: Seq<Seq<char>>) -> ParsedCommand {
    match command_spec(ws) {
        ParsedCommand::Nothing => ParsedCommand::Unknown(ws),
        other => other,
    }
}

/// Reads the command; there must be one.
pub fn parse_command(command: &Vec<String>) -> (r: Result<Command, ErrorType>)
    ensures
        required_command_view(r) == required_command_spec(strings_view(command@)),
{
    match read_command(command) {
        Ok(Some(c)) => Ok(c),
        Ok(None) => {
            let v: Vec<String> = Vec::new();
            assert(strings_view(v@) =~= strings_view(command@));
            Err(ErrorType::CannotIdentifyCommand(v))
        },
        Err(crate::args::ErrorType::CannotIdentifyCommand(v)) => Err(ErrorType::CannotIdentifyCommand(v)),
        Err(crate::args::ErrorType::InvalidTaskId(v)) => Err(ErrorType::InvalidTaskId(v)),
        Err(crate::args::ErrorType::MissingArguments(_)) => {
            proof {
                assert(false);
            }
            Err(ErrorType::CannotIdentifyCommand(Vec::new()))
        },
        Err(crate::args::ErrorType::MissingValue(_)) => {
            proof {
                assert(false);
            }
            Err(ErrorType::CannotIdentifyCommand(Vec::new()))
        },
    }
}

/// Reads the options, both file names being mandatory, then the command.
pub fn parse_arguments(args: &Vec<String>) -> (r: Result<Arguments, ErrorType>)
    ensures
        match scan_files(strings_view(args@), 0, no_files()) {
            Err(a) => r matches Err(ErrorType::MissingValue(s)) && s@ == a,
            Ok((c, k)) => if missing_defs(c).len() > 0 {
                r matches Err(ErrorType::MissingArguments(v)) && v@ == missing_defs(c)
            } else {
                match required_command_spec(strings_view(args@).skip(k)) {
                    ParsedCommand::Unknown(_) => r is Err && required_command_view(
                        match r { Ok(a) => Ok(a.command), Err(e) => Err(e) }) == required_command_spec(strings_view(args@).skip(k)),
                    ParsedCommand::BadTaskId(_) => r is Err && required_command_view(
                        match r { Ok(a) => Ok(a.command), Err(e) => Err(e) }) == required_command_spec(strings_view(args@).skip(k)),
                    _ => r matches Ok(a) && a.config@ == c && command_view(Some(a.command))
                        == required_command_spec(strings_view(args@).skip(k)),
                }
            },
        },
{
    match parse_config(args) {
        Err(e) => Err(e),
        Ok((config, unprocessed)) => match parse_command(&unprocessed) {
            Ok(command) => Ok(Arguments { config, command }),
            Err(e) => Err(e),
        },
    }
}

} // verus!
