//! Completion status of a task.
use vstd::prelude::*;
use crate::date::{date_text, DateData};
use crate::text::push_char;

verus! {

#[derive(Debug, Clone, Copy, PartialEq, Eq, Structural)]
pub enum Status {
    Done(Option<DateData>),
    Open,
}

/// The status segment of a line: empty when open, else `x ` or `x <date> `.
pub open spec fn status_text(s: Status) -> Seq<char> {
    match s {
        Status::Open => Seq::empty(),
        Status::Done(None) => seq!['x', ' '],
        Status::Done(Some(d)) => seq!['x', ' '] + date_text(d) + seq![' '],
    }
}

impl Status {
    pub fn push_text(&self, out: &mut String)
        ensures
            final(out)@ == old(out)@ + status_text(*self),
    {
        match self {
            Status::Open => {},
            Status::Done(None) => {
                push_char(out, 'x');
                push_char(out, ' ');
            },
            Status::Done(Some(d)) => {
                push_char(out, 'x');
                push_char(out, ' ');
                d.push_text(out);
                push_char(out, ' ');
            },
        }
        assert(out@ =~= old(out)@ + status_text(*self));
    }

    /// The status segment of a line.
    pub fn to_string(&self) -> (r: String)
        ensures
            r@ == status_text(*self),
    {
        let mut r = String::new();
        self.push_text(&mut r);
        assert(r@ =~= status_text(*self));
        r
    }
}

} // verus!
