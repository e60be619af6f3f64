//! Command-line arguments: options from a table of definitions, then the command.
use vstd::prelude::*;
use crate::text::{join_from, join_spaced, parse_number, parse_uint, chars_of, str_eq};

verus! {

#[derive(Debug)]
pub struct ArgsConfig {
    pub todo_filename: Option<String>,
    pub done_filename: Option<String>,
    pub help: bool,
}

#[derive(Debug)]
pub enum Command {
    Add(String),
    Archive(u16),
    Do(u16),
    List,
    Undo(u16),
}

#[derive(Debug)]
pub struct Arguments {
    pub config: ArgsConfig,
    pub command: Option<Command>,
}

/// The setting that an option with a value fills.
#[derive(Debug, Clone, Copy, PartialEq, Eq, Structural)]
pub enum Setting {
    TodoFile,
    DoneFile,
}

/// The switch that a flag turns on.
#[derive(Debug, Clone, Copy, PartialEq, Eq, Structural)]
pub enum Switch {
    Help,
}

/// An option followed by a value.
#[derive(Debug, Clone, Copy)]
pub struct ArgumentDef {
    pub long_form: &'static str,
    pub short_form: Option<&'static str>,
    pub help_message: &'static str,
    pub setting: Setting,
}

/// An option without a value.
#[derive(Debug, Clone, Copy)]
pub struct FlagDef {
    pub long_form: &'static str,
    pub short_form: Option<&'static str>,
    pub help_message: &'static str,
    pub switch: Switch,
}

#[derive(Debug, Clone, Copy)]
pub enum ArgumentType {
    Parameterized(ArgumentDef),
    Flag(FlagDef),
}

#[derive(Debug)]
pub enum ErrorType {
    MissingArguments(Vec<ArgumentDef>),
    CannotIdentifyCommand(Vec<String>),
    /// An option that takes a value came last.
    MissingValue(String),
    /// `archive`, `do` or `undo` without a task number that fits a `u16`.
    InvalidTaskId(Vec<String>),
}

/// The options, in the order they are matched.
pub open spec fn argument_table() -> Seq<ArgumentType> {
    seq![
        ArgumentType::Flag(
            FlagDef { long_form: "--help", short_form: None, help_message: "help", switch: Switch::Help },
        ),
        ArgumentType::Parameterized(
            ArgumentDef {
                long_form: "--todo-file",
                short_form: Some("-f"),
                help_message: "todo file",
                setting: Setting::TodoFile,
            },
        ),
        ArgumentType::Parameterized(
            ArgumentDef {
                long_form: "--done-file",
                short_form: Some("-d"),
                help_message: "done file",
                setting: Setting::DoneFile,
            },
        ),
    ]
}

/// The options, in the order they are matched.
pub fn argument_defs() -> (r: Vec<ArgumentType>)
    ensures
        r@ == argument_table(),
{
    let r = vec![
        ArgumentType::Flag(
            FlagDef { long_form: "--help", short_form: None, help_message: "help", switch: Switch::Help },
        ),
        ArgumentType::Parameterized(
            ArgumentDef {
                long_form: "--todo-file",
                short_form: Some("-f"),
                help_message: "todo file",
                setting: Setting::TodoFile,
            },
        ),
        ArgumentType::Parameterized(
            ArgumentDef {
                long_form: "--done-file",
                short_form: Some("-d"),
                help_message: "done file",
                setting: Setting::DoneFile,
            },
        ),
    ];
    assert(r@ =~= argument_table());
    r
}

/// Whether a word names an option by its long or its short form.
pub open spec fn names(d: ArgumentType, a: Seq<char>) -> bool {
    match d {
        ArgumentType::Parameterized(p) => p.long_form@ == a || (p.short_form matches Some(s)
            && s@ == a),
        ArgumentType::Flag(f) => f.long_form@ == a || (f.short_form matches Some(s) && s@ == a),
    }
}

/// The index of the first option from `i` on that the word names.
pub open spec fn first_named(defs: Seq<ArgumentType>, a: Seq<char>, i: int) -> Option<int>
    decreases defs.len() - i,
{
    if i < 0 || i >= defs.len() {
        None
    } else if names(defs[i], a) {
        Some(i)
    } else {
        first_named(defs, a, i + 1)
    }
}

/// The mathematical value of the options read so far.
pub ghost struct ConfigV {
    pub todo: Option<Seq<char>>,
    pub done: Option<Seq<char>>,
    pub help: bool,
}

pub open spec fn opt_str(o: Option<String>) -> Option<Seq<char>> {
    match o {
        Some(s) => Some(s@),
        None => None,
    }
}

impl View for ArgsConfig {
    type V = ConfigV;

    open spec fn view(&self) -> ConfigV {
        ConfigV {
            todo: opt_str(self.todo_filename),
            done: opt_str(self.done_filename),
            help: self.help,
        }
    }
}

/// Reads options from word `i` on, until a word that names none.
/// A flag takes the word after it too; an option with a value that comes
/// last is an error. The result is the options and the index of the first
/// word left over.
pub open spec fn scan_options(args: Seq<Seq<char>>, i: int, c: ConfigV) -> Result<(ConfigV, int), Seq<char>>
    decreases args.len() + 1 - i,
{
    if i < 0 || i >= args.len() {
        Ok((c, args.len() as int))
    } else {
        match first_named(argument_table(), args[i], 0) {
            None => Ok((c, i)),
            Some(k) => match argument_table()[k] {
                ArgumentType::Flag(_) => scan_options(args, i + 2, ConfigV { help: true, ..c }),
                ArgumentType::Parameterized(p) => if i + 1 < args.len() {
                    scan_options(
                        args,
                        i + 2,
                        match p.setting {
                            Setting::TodoFile => ConfigV { todo: Some(args[i + 1]), ..c },
                            Setting::DoneFile => ConfigV { done: Some(args[i + 1]), ..c },
                        },
                    )
                } else {
                    Err(args[i])
                },
            },
        }
    }
}

pub open spec fn strings_view(v: Seq<String>) -> Seq<Seq<char>> {
    v.map_values(|s: String| s@)
}

pub proof fn lemma_strings_push(v: Seq<String>, c: String)
    ensures
        strings_view(v.push(c)) == strings_view(v).push(c@),
{
    assert(strings_view(v.push(c)) =~= strings_view(v).push(c@));
}

pub open spec fn no_options() -> ConfigV {
    ConfigV { todo: None, done: None, help: false }
}

/// The task number in the second word, if it is one that fits a `u16`.
pub open spec fn task_id(ws: Seq<Seq<char>>) -> Option<u16> {
    if ws.len() > 1 && parse_uint(ws[1], 0xffff) is Some {
        Some(parse_uint(ws[1], 0xffff)->0 as u16)
    } else {
        None
    }
}

/// What reading a command can give.
pub ghost enum ParsedCommand {
    Add(Seq<char>),
    Archive(u16),
    Do(u16),
    List,
    Undo(u16),
    Nothing,
    Unknown(Seq<Seq<char>>),
    BadTaskId(Seq<Seq<char>>),
    Other,
}

/// The command that words name: `add` takes the rest joined by spaces,
/// `archive`, `do` and `undo` take a task number; no words name none.
pub open spec fn command_spec(ws: Seq<Seq<char>>) -> ParsedCommand {
    if ws.len() == 0 {
        ParsedCommand::Nothing
    } else if ws[0] == "add"@ {
        ParsedCommand::Add(join_spaced(ws.skip(1)))
    } else if ws[0] == "archive"@ {
        match task_id(ws) {
            Some(n) => ParsedCommand::Archive(n),
            None => ParsedCommand::BadTaskId(ws),
        }
    } else if ws[0] == "do"@ {
        match task_id(ws) {
            Some(n) => ParsedCommand::Do(n),
            None => ParsedCommand::BadTaskId(ws),
        }
    } else if ws[0] == "list"@ {
        ParsedCommand::List
    } else if ws[0] == "undo"@ {
        match task_id(ws) {
            Some(n) => ParsedCommand::Undo(n),
            None => ParsedCommand::BadTaskId(ws),
        }
    } else {
        ParsedCommand::Unknown(ws)
    }
}

pub open spec fn command_view(c: Option<Command>) -> ParsedCommand {
    match c {
        None => ParsedCommand::Nothing,
        Some(Command::Add(t)) => ParsedCommand::Add(t@),
        Some(Command::Archive(n)) => ParsedCommand::Archive(n),
        Some(Command::Do(n)) => ParsedCommand::Do(n),
        Some(Command::List) => ParsedCommand::List,
        Some(Command::Undo(n)) => ParsedCommand::Undo(n),
    }
}

pub open spec fn outcome(r: Result<Option<Command>, ErrorType>) -> ParsedCommand {
    match r {
        Ok(c) => command_view(c),
        Err(ErrorType::CannotIdentifyCommand(v)) => ParsedCommand::Unknown(strings_view(v@)),
        Err(ErrorType::InvalidTaskId(v)) => ParsedCommand::BadTaskId(strings_view(v@)),
        Err(_) => ParsedCommand::Other,
    }
}

pub open spec fn arguments_outcome(r: Result<Arguments, ErrorType>) -> ParsedCommand {
    match r {
        Ok(a) => command_view(a.command),
        Err(e) => outcome(Err(e)),
    }
}

/// The words after the program name.
pub open spec fn after_program(ws: Seq<Seq<char>>) -> Seq<Seq<char>> {
    if ws.len() > 0 {
        ws.skip(1)
    } else {
        ws
    }
}

impl ArgsConfig {
    pub fn set_todo_filename(&mut self, value: String)
        ensures
            final(self).todo_filename == Some(value),
            final(self).done_filename == old(self).done_filename,
            final(self).help == old(self).help,
    {
        self.todo_filename = Some(value);
    }

    pub fn set_done_filename(&mut self, value: String)
        ensures
            final(self).done_filename == Some(value),
            final(self).todo_filename == old(self).todo_filename,
            final(self).help == old(self).help,
    {
        self.done_filename = Some(value);
    }

    pub fn toggle_help(&mut self)
        ensures
            final(self).help,
            final(self).todo_filename == old(self).todo_filename,
            final(self).done_filename == old(self).done_filename,
    {
        self.help = true;
    }
}

fn names_exec(d: &ArgumentType, arg: &str) -> (r: bool)
    ensures
        r == names(*d, arg@),
{
    match d {
        ArgumentType::Parameterized(p) => str_eq(p.long_form, arg) || (match p.short_form {
            Some(s) => str_eq(s, arg),
            None => false,
        }),
        ArgumentType::Flag(f) => str_eq(f.long_form, arg) || (match f.short_form {
            Some(s) => str_eq(s, arg),
            None => false,
        }),
    }
}

/// The index of the first definition that names `arg`.
fn find_arg_def(arg: &str, argument_defs: &Vec<ArgumentType>) -> (r: Option<usize>)
    ensures
        r matches Some(k) ==> k < argument_defs@.len(),
        match r {
            Some(k) => first_named(argument_defs@, arg@, 0) == Some(k as int),
            None => first_named(argument_defs@, arg@, 0) is None,
        },
{
    let mut i: usize = 0;
    while i < argument_defs.len()
        invariant
            i <= argument_defs@.len(),
            first_named(argument_defs@, arg@, 0) == first_named(argument_defs@, arg@, i as int),
        decreases argument_defs.len() - i,
    {
        if names_exec(&argument_defs[i], arg) {
            return Some(i);
        }
        i = i + 1;
    }
    None
}

/// Reads the options at the front of `args`; the words from the first one
/// that names no option on are handed back unread.
pub fn parse_config(args: &Vec<String>) -> (r: Result<(ArgsConfig, Vec<String>), ErrorType>)
    ensures
        match scan_options(strings_view(args@), 0, no_options()) {
            Ok((c, k)) => r matches Ok((cfg, rest)) && cfg@ == c && strings_view(rest@)
                == strings_view(args@).skip(k),
            Err(a) => r matches Err(ErrorType::MissingValue(s)) && s@ == a,
        },
{
    let ghost words = strings_view(args@);
    let defs = argument_defs();
    let mut config = ArgsConfig { todo_filename: None, done_filename: None, help: false };
    let mut i: usize = 0;
    while i < args.len()
        invariant
            i <= args@.len() + 1,
            words == strings_view(args@),
            defs@ == argument_table(),
            scan_options(words, i as int, config@) == scan_options(words, 0, no_options()),
        decreases args.len() + 1 - i,
    {
        let arg = &args[i];
        assert(arg@ == words[i as int]);
        let ghost before = config@;
        match find_arg_def(arg.as_str(), &defs) {
            None => {
                let mut rest: Vec<String> = Vec::new();
                let mut j = i;
                while j < args.len()
                    invariant
                        i <= j <= args@.len(),
                        strings_view(rest@) == words.subrange(i as int, j as int),
                        words == strings_view(args@),
                    decreases args.len() - j,
                {
                    let c = args[j].clone();
                    assert(c@ == words[j as int]);
                    proof {
                        lemma_strings_push(rest@, c);
                    }
                    rest.push(c);
                    assert(strings_view(rest@) =~= words.subrange(i as int, j + 1));
                    j = j + 1;
                }
                assert(words.subrange(i as int, args@.len() as int) =~= words.skip(i as int));
                return Ok((config, rest));
            },
            Some(k) => {
                match defs[k] {
                    ArgumentType::Flag(_) => {
                        config.toggle_help();
                        assert(config@ == ConfigV { help: true, ..before });
                        assert(scan_options(words, i as int, before) == scan_options(
                            words,
                            i + 2,
                            config@,
                        ));
                    },
                    ArgumentType::Parameterized(p) => {
                        if i + 1 >= args.len() {
                            return Err(ErrorType::MissingValue(arg.clone()));
                        }
                        let value = args[i + 1].clone();
                        assert(value@ == words[i + 1]);
                        match p.setting {
                            Setting::TodoFile => {
                                config.set_todo_filename(value);
                                assert(config@ == ConfigV { todo: Some(words[i + 1]), ..before });
                            },
                            Setting::DoneFile => {
                                config.set_done_filename(value);
                                assert(config@ == ConfigV { done: Some(words[i + 1]), ..before });
                            },
                        }
                        assert(scan_options(words, i as int, before) == scan_options(
                            words,
                            i + 2,
                            config@,
                        ));
                    },
                }
                if i + 1 < args.len() {
                    i = i + 2;
                } else {
                    i = args.len();
                }
            },
        }
    }
    let rest: Vec<String> = Vec::new();
    assert(strings_view(rest@) =~= words.skip(args@.len() as int));
    Ok((config, rest))
}

fn copy_strings(v: &Vec<String>, lo: usize) -> (r: Vec<String>)
    requires
        lo <= v@.len(),
    ensures
        strings_view(r@) == strings_view(v@).skip(lo as int),
{
    let mut r: Vec<String> = Vec::new();
    let mut j = lo;
    while j < v.len()
        invariant
            lo <= j <= v@.len(),
            strings_view(r@) == strings_view(v@).subrange(lo as int, j as int),
        decreases v.len() - j,
    {
        let c = v[j].clone();
        assert(c@ == strings_view(v@)[j as int]);
        proof {
            lemma_strings_push(r@, c);
        }
        r.push(c);
        assert(strings_view(r@) =~= strings_view(v@).subrange(lo as int, j + 1));
        j = j + 1;
    }
    assert(strings_view(v@).subrange(lo as int, v@.len() as int) =~= strings_view(v@).skip(lo as int));
    r
}

fn task_id_exec(command: &Vec<String>) -> (r: Option<u16>)
    ensures
        r == task_id(strings_view(command@)),
{
    if command.len() < 2 {
        return None;
    }
    let w = chars_of(command[1].as_str());
    let n = parse_number(&w, 0, w.len(), 0xffff);
    assert(w@.subrange(0, w@.len() as int) =~= w@);
    match n {
        Some(n) => Some(n as u16),
        None => None,
    }
}

/// Reads the command from the words left over after the options.
pub fn parse_command(command: &Vec<String>) -> (r: Result<Option<Command>, ErrorType>)
    ensures
        outcome(r) == command_spec(strings_view(command@)),
{
    let ghost ws = strings_view(command@);
    if command.len() == 0 {
        return Ok(None);
    }
    assert(ws[0] == command@[0]@);
    let w = command[0].as_str();
    proof {
        reveal_strlit("add");
        reveal_strlit("archive");
        reveal_strlit("do");
        reveal_strlit("list");
        reveal_strlit("undo");
    }
    assert(command@.skip(1).map_values(|s: String| s@) =~= ws.skip(1));
    assert(ws.skip(0) =~= ws);
    if str_eq(w, "add") {
        let t = join_from(command, 1);
        Ok(Some(Command::Add(t)))
    } else if str_eq(w, "archive") {
        match task_id_exec(command) {
            Some(id) => Ok(Some(Command::Archive(id))),
            None => Err(ErrorType::InvalidTaskId(copy_strings(command, 0))),
        }
    } else if str_eq(w, "do") {
        match task_id_exec(command) {
            Some(id) => Ok(Some(Command::Do(id))),
            None => Err(ErrorType::InvalidTaskId(copy_strings(command, 0))),
        }
    } else if str_eq(w, "list") {
        Ok(Some(Command::List))
    } else if str_eq(w, "undo") {
        match task_id_exec(command) {
            Some(id) => Ok(Some(Command::Undo(id))),
            None => Err(ErrorType::InvalidTaskId(copy_strings(command, 0))),
        }
    } else {
        Err(ErrorType::CannotIdentifyCommand(copy_strings(command, 0)))
    }
}

/// Reads the program's arguments, the program name first: the options, then
/// the command.
pub fn parse_arguments(args: &Vec<String>) -> (r: Result<Arguments, ErrorType>)
    ensures
        ({
            let ws = after_program(strings_view(args@));
            match scan_options(ws, 0, no_options()) {
                Err(a) => r matches Err(ErrorType::MissingValue(s)) && s@ == a,
                Ok((c, k)) => match command_spec(ws.skip(k)) {
                    ParsedCommand::Unknown(_) => arguments_outcome(r)
                        == command_spec(ws.skip(k)),
                    ParsedCommand::BadTaskId(_) => arguments_outcome(r)
                        == command_spec(ws.skip(k)),
                    _ => r matches Ok(a) && a.config@ == c && command_view(a.command)
                        == command_spec(ws.skip(k)),
                },
            }
        }),
{
    let ghost all = strings_view(args@);
    let rest = if args.len() > 0 {
        copy_strings(args, 1)
    } else {
        Vec::new()
    };
    assert(strings_view(rest@) =~= after_program(all));
    match parse_config(&rest) {
        Err(e) => Err(e),
        Ok((config, unprocessed)) => match parse_command(&unprocessed) {
            Ok(command) => Ok(Arguments { config, command }),
            Err(e) => Err(e),
        },
    }
}

} // verus!
