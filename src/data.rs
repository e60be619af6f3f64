//! A task list: one task per non-empty line of a document.
use vstd::prelude::*;
use crate::entry::{entry_text, lemma_parse_entry_no_reserved, no_reserved, parse_entry, EntryV, TodoEntry};
use crate::error::ParsingError;
use crate::text::{chars_of, push_char, split_char, split_on, sub_vec};

verus! {

#[derive(Debug, PartialEq)]
pub struct TodoData {
    pub entries: Vec<TodoEntry>,
}

pub open spec fn entries_view(es: Seq<TodoEntry>) -> Seq<EntryV> {
    es.map_values(|e: TodoEntry| e@)
}

impl View for TodoData {
    type V = Seq<EntryV>;

    open spec fn view(&self) -> Seq<EntryV> {
        entries_view(self.entries@)
    }
}

/// A line without the `\r` of a `\r\n` ending.
pub open spec fn strip_cr(l: Seq<char>) -> Seq<char> {
    if l.len() > 0 && l.last() == '\r' {
        l.drop_last()
    } else {
        l
    }
}

/// The tasks of the non-empty lines, in order.
pub open spec fn entries_of(lines: Seq<Seq<char>>) -> Seq<EntryV>
    decreases lines.len(),
{
    if lines.len() == 0 {
        Seq::empty()
    } else {
        let prev = entries_of(lines.drop_last());
        let l = strip_cr(lines.last());
        if l.len() == 0 {
            prev
        } else {
            prev.push(parse_entry(l))
        }
    }
}

/// The task list of a document.
pub open spec fn parse_document(s: Seq<char>) -> Seq<EntryV> {
    entries_of(split_on(s, '\n'))
}

/// Each task's line followed by a line break, in order.
pub open spec fn document_text(es: Seq<EntryV>) -> Seq<char>
    decreases es.len(),
{
    if es.len() == 0 {
        Seq::empty()
    } else {
        document_text(es.drop_last()) + entry_text(es.last()).push('\n')
    }
}

/// Every task of the list can be written out.
pub open spec fn all_writable(es: Seq<EntryV>) -> bool {
    forall|i: int| 0 <= i < es.len() ==> no_reserved(#[trigger] es[i].parts)
}

pub proof fn lemma_entries_of_writable(lines: Seq<Seq<char>>)
    ensures
        all_writable(entries_of(lines)),
    decreases lines.len(),
{
    if lines.len() > 0 {
        lemma_entries_of_writable(lines.drop_last());
        lemma_parse_entry_no_reserved(strip_cr(lines.last()));
    }
}

impl TodoData {
    /// Reads a document: one task per non-empty line, in order.
    pub fn parse(data: &str) -> (r: Result<TodoData, ParsingError>)
        ensures
            r matches Ok(d) && d@ == parse_document(data@),
    {
        let chars = chars_of(data);
        let lines = split_char(&chars, '\n');
        let ghost ls = split_on(chars@, '\n');
        let mut result = TodoData { entries: Vec::new() };
        let mut i: usize = 0;
        while i < lines.len()
            invariant
                i <= lines@.len() == ls.len(),
                ls == split_on(chars@, '\n'),
                forall|k: int| 0 <= k < lines@.len() ==> (#[trigger] lines@[k])@ == ls[k],
                result@ == entries_of(ls.subrange(0, i as int)),
            decreases lines.len() - i,
        {
            let line = &lines[i];
            let mut end = line.len();
            if end > 0 && line[end - 1] == '\r' {
                end = end - 1;
            }
            let ghost sub = ls.subrange(0, i + 1);
            assert(sub.drop_last() =~= ls.subrange(0, i as int));
            assert(sub.last() == line@);
            if end > 0 {
                let l = sub_vec(line, 0, end);
                assert(l@ =~= strip_cr(line@));
                let e = TodoEntry::parse_chars(&l);
                result.entries.push(e);
                assert(result@ =~= entries_of(sub));
            } else {
                assert(strip_cr(line@).len() == 0);
            }
            i = i + 1;
        }
        assert(ls.subrange(0, ls.len() as int) =~= ls);
        Ok(result)
    }

    /// Writes the list: each task's line followed by a line break.
    pub fn serialize(&self) -> (r: String)
        requires
            all_writable(self@),
        ensures
            r@ == document_text(self@),
    {
        let mut r = String::new();
        let mut i: usize = 0;
        while i < self.entries.len()
            invariant
                i <= self.entries@.len(),
                all_writable(self@),
                r@ == document_text(self@.subrange(0, i as int)),
            decreases self.entries.len() - i,
        {
            assert(no_reserved(self@[i as int].parts));
            self.entries[i].push_text(&mut r);
            push_char(&mut r, '\n');
            assert(self@.subrange(0, i + 1).drop_last() =~= self@.subrange(0, i as int));
            i = i + 1;
        }
        assert(self@.subrange(0, self@.len() as int) =~= self@);
        r
    }
}

} // verus!
