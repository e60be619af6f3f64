//! One task line: status, creation date and tokens, with its exact serializer.
use vstd::prelude::*;
use crate::date::{date_text, parse_date, DateData};
use crate::element::{element_text, parse_word, ElementV, TodoElement};
use crate::error::ParsingError;
use crate::status::{status_text, Status};
use crate::text::{chars_of, push_char, split_words, words};

verus! {

#[derive(Debug, PartialEq)]
pub struct TodoEntry {
    pub status: Status,
    pub created_date: Option<DateData>,
    pub parts: Vec<TodoElement>,
}

/// The mathematical value of a task.
pub ghost struct EntryV {
    pub status: Status,
    pub created_date: Option<DateData>,
    pub parts: Seq<ElementV>,
}

pub open spec fn parts_view(ps: Seq<TodoElement>) -> Seq<ElementV> {
    ps.map_values(|e: TodoElement| e@)
}

impl View for TodoEntry {
    type V = EntryV;

    open spec fn view(&self) -> EntryV {
        EntryV { status: self.status, created_date: self.created_date, parts: parts_view(self.parts@) }
    }
}

/// Appends a token, joining it to a free-text token before it.
pub open spec fn push_merge(parts: Seq<ElementV>, e: ElementV) -> Seq<ElementV> {
    if e is Text && parts.len() > 0 && parts.last() is Text {
        parts.update(
            parts.len() - 1,
            ElementV::Text(parts.last()->Text_0 + seq![' '] + e->Text_0),
        )
    } else {
        parts.push(e)
    }
}

/// The tokens in order, each pushed with `push_merge`.
pub open spec fn merge_all(es: Seq<ElementV>) -> Seq<ElementV>
    decreases es.len(),
{
    if es.len() == 0 {
        Seq::empty()
    } else {
        push_merge(merge_all(es.drop_last()), es.last())
    }
}

pub open spec fn is_marker(w: Seq<char>) -> bool {
    w == seq!['x']
}

/// How many leading words the status takes, and the status.
pub open spec fn status_of(ws: Seq<Seq<char>>) -> (Status, int) {
    if ws.len() > 0 && is_marker(ws[0]) {
        if ws.len() > 1 && parse_date(ws[1]) is Some {
            (Status::Done(parse_date(ws[1])), 2)
        } else {
            (Status::Done(None), 1)
        }
    } else {
        (Status::Open, 0)
    }
}

/// How many words the creation date takes after the status, and the date.
pub open spec fn created_of(ws: Seq<Seq<char>>, k: int) -> (Option<DateData>, int) {
    if k < ws.len() && parse_date(ws[k]) is Some {
        (parse_date(ws[k]), 1)
    } else {
        (None, 0)
    }
}

/// The task that a sequence of words describes.
pub open spec fn entry_of_words(ws: Seq<Seq<char>>) -> EntryV {
    let (status, k) = status_of(ws);
    let (created_date, j) = created_of(ws, k);
    EntryV {
        status,
        created_date,
        parts: merge_all(ws.skip(k + j).map_values(|w: Seq<char>| parse_word(w))),
    }
}

/// The task that a line describes.
pub open spec fn parse_entry(s: Seq<char>) -> EntryV {
    entry_of_words(words(s))
}

pub open spec fn created_text(c: Option<DateData>) -> Seq<char> {
    match c {
        None => Seq::empty(),
        Some(d) => date_text(d) + seq![' '],
    }
}

/// The texts of the tokens, separated by single spaces.
pub open spec fn join_parts(ps: Seq<ElementV>) -> Seq<char>
    decreases ps.len(),
{
    if ps.len() == 0 {
        Seq::empty()
    } else if ps.len() == 1 {
        element_text(ps[0])
    } else {
        join_parts(ps.drop_last()) + seq![' '] + element_text(ps.last())
    }
}

/// The line of a task.
pub open spec fn entry_text(e: EntryV) -> Seq<char> {
    status_text(e.status) + created_text(e.created_date) + join_parts(e.parts)
}

pub open spec fn no_reserved(ps: Seq<ElementV>) -> bool {
    forall|i: int| 0 <= i < ps.len() ==> !(#[trigger] ps[i] is Reserved)
}

pub proof fn lemma_merge_all_no_reserved(es: Seq<ElementV>)
    requires
        no_reserved(es),
    ensures
        no_reserved(merge_all(es)),
    decreases es.len(),
{
    if es.len() > 0 {
        assert(no_reserved(es.drop_last())) by {
            assert forall|i: int| 0 <= i < es.drop_last().len() implies !(
            #[trigger] es.drop_last()[i] is Reserved) by {
                assert(es.drop_last()[i] == es[i]);
            }
        }
        lemma_merge_all_no_reserved(es.drop_last());
        assert(!(es[es.len() - 1] is Reserved));
    }
}

/// A parsed line holds no reserved token.
pub proof fn lemma_parse_entry_no_reserved(s: Seq<char>)
    ensures
        no_reserved(parse_entry(s).parts),
{
    let ws = words(s);
    let (status, k) = status_of(ws);
    let (c, j) = created_of(ws, k);
    let es = ws.skip(k + j).map_values(|w: Seq<char>| parse_word(w));
    assert(no_reserved(es));
    lemma_merge_all_no_reserved(es);
}

impl TodoEntry {
    /// Pushes a token, merging consecutive free text into one token.
    pub fn push(parts: &mut Vec<TodoElement>, element: TodoElement)
        ensures
            parts_view(final(parts)@) == push_merge(parts_view(old(parts)@), element@),
    {
        let ghost old_view = parts_view(parts@);
        if element.is_text() && parts.len() > 0 && parts[parts.len() - 1].is_text() {
            let last = parts.pop().unwrap();
            assert(parts_view(parts@) =~= old_view.drop_last());
            let new = TodoElement::merge_texts(last, element);
            parts.push(new);
            assert(parts_view(parts@) =~= push_merge(old_view, element@));
        } else {
            parts.push(element);
            assert(parts_view(parts@) =~= push_merge(old_view, element@));
        }
    }

    fn try_parse_status(ws: &Vec<Vec<char>>) -> (r: (Status, usize))
        ensures
            (r.0, r.1 as int) == status_of(ws@.map_values(|w: Vec<char>| w@)),
    {
        let ghost v = ws@.map_values(|w: Vec<char>| w@);
        if ws.len() > 0 && ws[0].len() == 1 && ws[0][0] == 'x' {
            assert(v[0] =~= seq!['x']);
            if ws.len() > 1 {
                if let Some(d) = DateData::parse_chars(&ws[1]) {
                    return (Status::Done(Some(d)), 2);
                }
            }
            (Status::Done(None), 1)
        } else {
            assert(ws@.len() > 0 ==> !is_marker(v[0])) by {
                if ws@.len() > 0 && is_marker(v[0]) {
                    assert(v[0].len() == 1 && v[0][0] == 'x');
                }
            }
            (Status::Open, 0)
        }
    }

    /// Reads a task line: status, creation date, then the tokens.
    pub fn parse(data: &str) -> (r: Result<TodoEntry, ParsingError>)
        ensures
            r is Ok,
            r matches Ok(e) ==> e@ == parse_entry(data@),
    {
        Ok(TodoEntry::parse_chars(&chars_of(data)))
    }

    /// Reads a task line given as characters.
    pub fn parse_chars(chars: &Vec<char>) -> (r: TodoEntry)
        ensures
            r@ == parse_entry(chars@),
    {
        let ws = split_words(chars);
        let ghost v = ws@.map_values(|w: Vec<char>| w@);
        assert(v =~= words(chars@));
        let (status, k) = TodoEntry::try_parse_status(&ws);
        let mut created_date = None;
        let mut i = k;
        if k < ws.len() {
            created_date = DateData::parse_chars(&ws[k]);
            if created_date.is_some() {
                i = k + 1;
            }
        }
        let ghost rest = v.skip(i as int).map_values(|w: Seq<char>| parse_word(w));
        let mut parts: Vec<TodoElement> = Vec::new();
        let mut j = i;
        while j < ws.len()
            invariant
                i <= j <= ws@.len(),
                v == ws@.map_values(|w: Vec<char>| w@),
                rest == v.skip(i as int).map_values(|w: Seq<char>| parse_word(w)),
                parts_view(parts@) == merge_all(rest.subrange(0, j - i)),
            decreases ws.len() - j,
        {
            let e = TodoElement::parse_chars(&ws[j]);
            TodoEntry::push(&mut parts, e);
            assert(rest.subrange(0, j + 1 - i).drop_last() =~= rest.subrange(0, j - i));
            assert(rest[j - i] == parse_word(v[j as int]));
            j = j + 1;
        }
        assert(rest.subrange(0, rest.len() as int) =~= rest);
        let e = TodoEntry { status, created_date, parts };
        assert(e@ =~= parse_entry(chars@));
        e
    }

    /// Appends the line of this entry to `out`.
    pub fn push_text(&self, out: &mut String)
        requires
            no_reserved(self@.parts),
        ensures
            final(out)@ == old(out)@ + entry_text(self@),
    {
        self.status.push_text(out);
        if let Some(d) = self.created_date {
            d.push_text(out);
            push_char(out, ' ');
        }
        let ghost base = out@;
        let ghost ps = self@.parts;
        let mut i: usize = 0;
        while i < self.parts.len()
            invariant
                i <= self.parts@.len(),
                ps == self@.parts,
                no_reserved(ps),
                out@ == base + join_parts(ps.subrange(0, i as int)),
            decreases self.parts.len() - i,
        {
            if i > 0 {
                push_char(out, ' ');
            }
            assert(!(ps[i as int] is Reserved));
            self.parts[i].push_text(out);
            let ghost sub = ps.subrange(0, i + 1);
            assert(sub.drop_last() =~= ps.subrange(0, i as int));
            assert(sub.last() == ps[i as int]);
            if i == 0 {
                assert(join_parts(sub) == element_text(sub[0]));
            }
            assert(out@ =~= base + join_parts(sub));
            i = i + 1;
        }
        assert(ps.subrange(0, ps.len() as int) =~= ps);
        assert(out@ =~= old(out)@ + entry_text(self@));
    }

    /// The line of this entry: the status segment, the creation date and a
    /// space if there is one, then the tokens separated by single spaces.
    pub fn to_string(&self) -> (r: String)
        requires
            no_reserved(self@.parts),
        ensures
            r@ == entry_text(self@),
    {
        let mut r = String::new();
        self.push_text(&mut r);
        assert(r@ =~= entry_text(self@));
        r
    }
}

} // verus!
