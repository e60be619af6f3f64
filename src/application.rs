//! The program's state between reading the lists and writing them back.
use vstd::prelude::*;
use crate::args::Command;
use crate::config::Config;
use crate::data::document_text;
use crate::date::DateData;
use crate::entry::entry_text;
use crate::model::{error_text, step, CommandError, Model, ModelV};

verus! {

/// An error reported to the user.
#[derive(Debug)]
pub struct Error {
    pub message: String,
}

impl Error {
    pub fn from_command_error(e: CommandError) -> (r: Error)
        ensures
            r.message@ == error_text(e),
    {
        Error { message: e.message().to_owned() }
    }
}

pub struct App {
    config: Config,
    model: Model,
}

impl App {
    pub closed spec fn model_view(&self) -> ModelV {
        self.model@
    }

    pub closed spec fn well_formed(&self) -> bool {
        self.model.well_formed()
    }

    /// Builds the state from the configuration and the texts of the two lists.
    pub fn load(config: Config, todo_text: &str, done_text: &str) -> (r: App)
        ensures
            r.model_view() == Model::load_spec(todo_text@, done_text@),
            r.config_spec() == config,
            r.well_formed(),
    {
        App { config, model: Model::load(todo_text, done_text) }
    }

    /// Runs a command, reporting a refused one as an error.
    pub fn execute(&mut self, command: Command) -> (r: Result<(), Error>)
        requires
            old(self).well_formed(),
        ensures
            final(self).well_formed(),
            exists|d: DateData|
                #![trigger step(old(self).model_view(), command, d)]
                step(old(self).model_view(), command, d).0 == final(self).model_view() && match step(
                    old(self).model_view(),
                    command,
                    d,
                ).1 {
                    Ok(()) => r is Ok,
                    Err(e) => r matches Err(err) && err.message@ == error_text(e),
                },
    {
        let ghost old_m = self.model@;
        let ghost cmd = command;
        let res = self.model.execute(command);
        let ghost d = choose|d: DateData|
            1 <= d.month <= 12 && 1 <= d.day <= 31 && (self.model@, res) == #[trigger] step(
                old_m,
                cmd,
                d,
            );
        let r = match res {
            Ok(()) => Ok(()),
            Err(e) => Err(Error::from_command_error(e)),
        };
        assert(step(old_m, cmd, d).0 == self.model_view());
        assert(old_m == old(self).model_view());
        assert(match step(old_m, cmd, d).1 {
            Ok(()) => r is Ok,
            Err(e) => r matches Err(err) && err.message@ == error_text(e),
        });
        r
    }

    /// The todo list as a document, to be written back to its file.
    pub fn todo_document(&self) -> (r: String)
        requires
            self.well_formed(),
        ensures
            r@ == document_text(self.model_view().todo),
    {
        self.model.serialize_todo()
    }

    /// The done list as a document.
    pub fn done_document(&self) -> (r: String)
        requires
            self.well_formed(),
        ensures
            r@ == document_text(self.model_view().done),
    {
        self.model.serialize_done()
    }

    /// The todo list as (index, line) pairs.
    pub fn list(&self) -> (r: Vec<(usize, String)>)
        requires
            self.well_formed(),
        ensures
            r@.len() == self.model_view().todo.len(),
            forall|i: int|
                0 <= i < r@.len() ==> (#[trigger] r@[i]).0 == i && r@[i].1@ == entry_text(
                    self.model_view().todo[i],
                ),
    {
        self.model.list()
    }

    pub closed spec fn config_spec(&self) -> Config {
        self.config
    }

    /// The configuration the state was built with.
    pub fn config(&self) -> (r: &Config)
        ensures
            *r == self.config_spec(),
    {
        &self.config
    }
}

} // verus!
