//! Tokens of a task line and the ordered fallback chain that classifies a word.
use vstd::prelude::*;
use crate::date::{date_text, parse_date, DateData};
use crate::error::ParsingError;
use crate::text::{all_digits, chars_of, digits_value, is_digit, nat_text, parse_number, push_char, push_chars, push_nat, push_string, string_of, sub_vec};

verus! {

/// A reserved identifier; no parser produces one.
#[derive(Debug, PartialEq)]
pub struct Uuid {
    uuid: u128,
}

#[derive(Debug, Clone, Copy, PartialEq, Eq, Structural)]
pub enum RecurrenceTimeUnit {
    B,
    D,
    M,
    W,
    Y,
}

#[derive(Debug, PartialEq)]
pub enum TodoElement {
    Context(String),
    Due(DateData),
    Project(String),
    Recurrence { plus: bool, count: u16, unit: RecurrenceTimeUnit },
    Text(String),
    Threshold(DateData),
    Uuid(Uuid),
}

/// The mathematical value of a token.
pub ghost enum ElementV {
    Context(Seq<char>),
    Due(DateData),
    Project(Seq<char>),
    Recurrence { plus: bool, count: u16, unit: RecurrenceTimeUnit },
    Text(Seq<char>),
    Threshold(DateData),
    Reserved,
}

impl View for TodoElement {
    type V = ElementV;

    open spec fn view(&self) -> ElementV {
        match self {
            TodoElement::Context(s) => ElementV::Context(s@),
            TodoElement::Due(d) => ElementV::Due(*d),
            TodoElement::Project(s) => ElementV::Project(s@),
            TodoElement::Recurrence { plus, count, unit } => ElementV::Recurrence {
                plus: *plus,
                count: *count,
                unit: *unit,
            },
            TodoElement::Text(s) => ElementV::Text(s@),
            TodoElement::Threshold(d) => ElementV::Threshold(*d),
            TodoElement::Uuid(_) => ElementV::Reserved,
        }
    }
}

pub open spec fn opt_view(r: Option<TodoElement>) -> Option<ElementV> {
    match r {
        Some(e) => Some(e@),
        None => None,
    }
}

pub open spec fn unit_of(c: char) -> Option<RecurrenceTimeUnit> {
    if c == 'd' {
        Some(RecurrenceTimeUnit::D)
    } else if c == 'b' {
        Some(RecurrenceTimeUnit::B)
    } else if c == 'm' {
        Some(RecurrenceTimeUnit::M)
    } else if c == 'w' {
        Some(RecurrenceTimeUnit::W)
    } else if c == 'y' {
        Some(RecurrenceTimeUnit::Y)
    } else {
        None
    }
}

pub open spec fn unit_char(u: RecurrenceTimeUnit) -> char {
    match u {
        RecurrenceTimeUnit::B => 'b',
        RecurrenceTimeUnit::D => 'd',
        RecurrenceTimeUnit::M => 'm',
        RecurrenceTimeUnit::W => 'w',
        RecurrenceTimeUnit::Y => 'y',
    }
}

pub open spec fn due_tag() -> Seq<char> {
    seq!['d', 'u', 'e', ':']
}

pub open spec fn threshold_tag() -> Seq<char> {
    seq!['t', ':']
}

pub open spec fn rec_tag() -> Seq<char> {
    seq!['r', 'e', 'c', ':']
}

pub open spec fn has_prefix(w: Seq<char>, p: Seq<char>) -> bool {
    w.len() >= p.len() && w.subrange(0, p.len() as int) == p
}

/// A recurrence rule `[+]<count><unit>`: the optional `+` marks a strict
/// schedule, the last character is one of `d b m w y`, and what lies between
/// is one or more decimal digits whose value fits a `u16`.
pub open spec fn parse_recurrence(s: Seq<char>) -> Option<ElementV> {
    let plus = s.len() > 0 && s[0] == '+';
    let body = if plus {
        s.drop_first()
    } else {
        s
    };
    if body.len() == 0 {
        None
    } else {
        match unit_of(body.last()) {
            None => None,
            Some(u) => {
                let count = body.drop_last();
                if count.len() > 0 && all_digits(count) && digits_value(count) <= 0xffff {
                    Some(ElementV::Recurrence { plus, count: digits_value(count) as u16, unit: u })
                } else {
                    None
                }
            },
        }
    }
}

pub open spec fn try_project(w: Seq<char>) -> Option<ElementV> {
    if w.len() > 0 && w[0] == '+' {
        Some(ElementV::Project(w.drop_first()))
    } else {
        None
    }
}

pub open spec fn try_context(w: Seq<char>) -> Option<ElementV> {
    if w.len() > 0 && w[0] == '@' {
        Some(ElementV::Context(w.drop_first()))
    } else {
        None
    }
}

pub open spec fn try_due(w: Seq<char>) -> Option<ElementV> {
    if has_prefix(w, due_tag()) && parse_date(w.skip(4)) is Some {
        Some(ElementV::Due(parse_date(w.skip(4))->0))
    } else {
        None
    }
}

pub open spec fn try_threshold(w: Seq<char>) -> Option<ElementV> {
    if has_prefix(w, threshold_tag()) && parse_date(w.skip(2)) is Some {
        Some(ElementV::Threshold(parse_date(w.skip(2))->0))
    } else {
        None
    }
}

pub open spec fn try_recurrence(w: Seq<char>) -> Option<ElementV> {
    if has_prefix(w, rec_tag()) {
        parse_recurrence(w.skip(4))
    } else {
        None
    }
}

/// The token a word stands for: the first of project, context, due date,
/// threshold date and recurrence that accepts it, else free text.
pub open spec fn parse_word(w: Seq<char>) -> ElementV {
    if try_project(w) is Some {
        try_project(w)->0
    } else if try_context(w) is Some {
        try_context(w)->0
    } else if try_due(w) is Some {
        try_due(w)->0
    } else if try_threshold(w) is Some {
        try_threshold(w)->0
    } else if try_recurrence(w) is Some {
        try_recurrence(w)->0
    } else {
        ElementV::Text(w)
    }
}

/// The text of a token.
pub open spec fn element_text(e: ElementV) -> Seq<char> {
    match e {
        ElementV::Context(n) => seq!['@'] + n,
        ElementV::Due(d) => due_tag() + date_text(d),
        ElementV::Project(n) => seq!['+'] + n,
        ElementV::Recurrence { plus, count, unit } => rec_tag() + (if plus {
            seq!['+']
        } else {
            Seq::empty()
        }) + nat_text(count as nat).push(unit_char(unit)),
        ElementV::Text(t) => t,
        ElementV::Threshold(d) => threshold_tag() + date_text(d),
        ElementV::Reserved => Seq::empty(),
    }
}

impl RecurrenceTimeUnit {
    /// The letter of this unit.
    pub fn to_char(&self) -> (r: char)
        ensures
            r == unit_char(*self),
    {
        match self {
            RecurrenceTimeUnit::B => 'b',
            RecurrenceTimeUnit::D => 'd',
            RecurrenceTimeUnit::M => 'm',
            RecurrenceTimeUnit::W => 'w',
            RecurrenceTimeUnit::Y => 'y',
        }
    }
}

fn starts_with(w: &Vec<char>, p: &Vec<char>) -> (r: bool)
    ensures
        r == has_prefix(w@, p@),
{
    if w.len() < p.len() {
        return false;
    }
    let mut i: usize = 0;
    while i < p.len()
        invariant
            i <= p@.len() <= w@.len(),
            w@.subrange(0, i as int) == p@.subrange(0, i as int),
        decreases p.len() - i,
    {
        if w[i] != p[i] {
            assert(w@.subrange(0, p@.len() as int)[i as int] != p@[i as int]);
            return false;
        }
        assert(w@.subrange(0, i + 1) =~= w@.subrange(0, i as int).push(w@[i as int]));
        assert(p@.subrange(0, i + 1) =~= p@.subrange(0, i as int).push(p@[i as int]));
        i = i + 1;
    }
    assert(p@.subrange(0, p@.len() as int) =~= p@);
    true
}

impl TodoElement {
    /// Joins two free-text tokens with a single space.
    pub fn merge_texts(element1: TodoElement, element2: TodoElement) -> (r: TodoElement)
        requires
            element1@ is Text,
            element2@ is Text,
        ensures
            r@ == ElementV::Text(element1@->Text_0 + seq![' '] + element2@->Text_0),
    {
        match (element1, element2) {
            (TodoElement::Text(text1), TodoElement::Text(text2)) => {
                let ghost a = text1@;
                let mut t = text1;
                push_char(&mut t, ' ');
                push_string(&mut t, &text2);
                assert(t@ =~= a + seq![' '] + text2@);
                TodoElement::Text(t)
            },
            _ => {
                proof {
                    assert(false);
                }
                TodoElement::Text(String::new())
            },
        }
    }

    pub fn project(str: &str) -> (r: TodoElement)
        ensures
            r@ == ElementV::Project(str@),
    {
        TodoElement::Project(str.to_owned())
    }

    pub fn context(str: &str) -> (r: TodoElement)
        ensures
            r@ == ElementV::Context(str@),
    {
        TodoElement::Context(str.to_owned())
    }

    pub fn text(str: &str) -> (r: TodoElement)
        ensures
            r@ == ElementV::Text(str@),
    {
        TodoElement::Text(str.to_owned())
    }

    pub fn is_text(&self) -> (r: bool)
        ensures
            r == (self@ is Text),
    {
        if let TodoElement::Text(_) = self {
            true
        } else {
            false
        }
    }

    /// The token after a one-character prefix: a context or a project.
    fn prefixed(w: &Vec<char>, prefix: char, is_context: bool) -> (r: Option<TodoElement>)
        ensures
            !is_context && prefix == '+' ==> opt_view(r) == try_project(w@),
            is_context && prefix == '@' ==> opt_view(r) == try_context(w@),
    {
        if w.len() > 0 && w[0] == prefix {
            let name = string_of(&sub_vec(w, 1, w.len()));
            assert(w@.subrange(1, w@.len() as int) =~= w@.drop_first());
            if is_context {
                Some(TodoElement::Context(name))
            } else {
                Some(TodoElement::Project(name))
            }
        } else {
            None
        }
    }

    /// A date after a tag, as a due date or, with `is_threshold`, a threshold.
    fn dated(w: &Vec<char>, tag: &Vec<char>, is_threshold: bool) -> (r: Option<TodoElement>)
        ensures
            !is_threshold && tag@ == due_tag() ==> opt_view(r) == try_due(w@),
            is_threshold && tag@ == threshold_tag() ==> opt_view(r)
                == try_threshold(w@),
    {
        if !starts_with(w, tag) {
            return None;
        }
        let rest = sub_vec(w, tag.len(), w.len());
        assert(rest@ =~= w@.skip(tag@.len() as int));
        match DateData::parse_chars(&rest) {
            Some(d) => if is_threshold {
                Some(TodoElement::Threshold(d))
            } else {
                Some(TodoElement::Due(d))
            },
            None => None,
        }
    }

    fn recurrence_of(w: &Vec<char>) -> (r: Option<TodoElement>)
        ensures
            opt_view(r) == try_recurrence(w@),
    {
        let tag = vec!['r', 'e', 'c', ':'];
        assert(tag@ =~= rec_tag());
        if !starts_with(w, &tag) {
            return None;
        }
        let s = sub_vec(w, 4, w.len());
        assert(s@ =~= w@.skip(4));
        let plus = s.len() > 0 && s[0] == '+';
        let start: usize = if plus { 1 } else { 0 };
        if start == s.len() {
            return None;
        }
        let ghost body = if plus {
            s@.drop_first()
        } else {
            s@
        };
        assert(body =~= s@.subrange(start as int, s@.len() as int));
        let last = s[s.len() - 1];
        let unit = if last == 'd' {
            RecurrenceTimeUnit::D
        } else if last == 'b' {
            RecurrenceTimeUnit::B
        } else if last == 'm' {
            RecurrenceTimeUnit::M
        } else if last == 'w' {
            RecurrenceTimeUnit::W
        } else if last == 'y' {
            RecurrenceTimeUnit::Y
        } else {
            return None;
        };
        assert(body.drop_last() =~= s@.subrange(start as int, s@.len() - 1));
        if start < s.len() - 1 && s[start] == '+' {
            assert(!is_digit(body.drop_last()[0]));
            return None;
        }
        match parse_number(&s, start, s.len() - 1, 0xffff) {
            Some(n) => Some(TodoElement::Recurrence { plus, count: n as u16, unit }),
            None => None,
        }
    }

    /// Classifies a word given as characters.
    pub fn parse_chars(w: &Vec<char>) -> (r: TodoElement)
        ensures
            r@ == parse_word(w@),
    {
        if let Some(e) = TodoElement::prefixed(w, '+', false) {
            return e;
        }
        if let Some(e) = TodoElement::prefixed(w, '@', true) {
            return e;
        }
        let due = vec!['d', 'u', 'e', ':'];
        assert(due@ =~= due_tag());
        if let Some(e) = TodoElement::dated(w, &due, false) {
            return e;
        }
        let thr = vec!['t', ':'];
        assert(thr@ =~= threshold_tag());
        if let Some(e) = TodoElement::dated(w, &thr, true) {
            return e;
        }
        if let Some(e) = TodoElement::recurrence_of(w) {
            return e;
        }
        TodoElement::Text(string_of(w))
    }

    /// Classifies one word; a word that no tagged form accepts is free text.
    pub fn parse(input: &str) -> (r: TodoElement)
        ensures
            r@ == parse_word(input@),
    {
        TodoElement::parse_chars(&chars_of(input))
    }

    pub fn try_parse_project(input: &str) -> (r: Result<TodoElement, ParsingError>)
        ensures
            r matches Ok(e) ==> try_project(input@) == Some(e@),
            r is Err <==> try_project(input@) is None,
    {
        match TodoElement::prefixed(&chars_of(input), '+', false) {
            Some(e) => Ok(e),
            None => Err(ParsingError { message: "error parsing entity" }),
        }
    }

    pub fn try_parse_context(input: &str) -> (r: Result<TodoElement, ParsingError>)
        ensures
            r matches Ok(e) ==> try_context(input@) == Some(e@),
            r is Err <==> try_context(input@) is None,
    {
        match TodoElement::prefixed(&chars_of(input), '@', true) {
            Some(e) => Ok(e),
            None => Err(ParsingError { message: "error parsing entity" }),
        }
    }

    pub fn try_parse_due(input: &str) -> (r: Result<TodoElement, ParsingError>)
        ensures
            r matches Ok(e) ==> try_due(input@) == Some(e@),
            r is Err <==> try_due(input@) is None,
    {
        let due = vec!['d', 'u', 'e', ':'];
        assert(due@ =~= due_tag());
        match TodoElement::dated(&chars_of(input), &due, false) {
            Some(e) => Ok(e),
            None => Err(ParsingError { message: "error parsing entity" }),
        }
    }

    pub fn try_parse_threshold(input: &str) -> (r: Result<TodoElement, ParsingError>)
        ensures
            r matches Ok(e) ==> try_threshold(input@) == Some(e@),
            r is Err <==> try_threshold(input@) is None,
    {
        let thr = vec!['t', ':'];
        assert(thr@ =~= threshold_tag());
        match TodoElement::dated(&chars_of(input), &thr, true) {
            Some(e) => Ok(e),
            None => Err(ParsingError { message: "error parsing entity" }),
        }
    }

    pub fn try_parse_recurrence(input: &str) -> (r: Result<TodoElement, ParsingError>)
        ensures
            r matches Ok(e) ==> try_recurrence(input@) == Some(e@),
            r is Err <==> try_recurrence(input@) is None,
    {
        match TodoElement::recurrence_of(&chars_of(input)) {
            Some(e) => Ok(e),
            None => Err(ParsingError { message: "error parsing recurrence" }),
        }
    }

    /// Appends the text of this token to `out`.
    pub fn push_text(&self, out: &mut String)
        requires
            !(self@ is Reserved),
        ensures
            final(out)@ == old(out)@ + element_text(self@),
    {
        match self {
            TodoElement::Context(n) => {
                push_char(out, '@');
                push_string(out, n);
            },
            TodoElement::Due(d) => {
                push_chars(out, &vec!['d', 'u', 'e', ':']);
                d.push_text(out);
            },
            TodoElement::Project(n) => {
                push_char(out, '+');
                push_string(out, n);
            },
            TodoElement::Recurrence { plus, count, unit } => {
                push_chars(out, &vec!['r', 'e', 'c', ':']);
                if *plus {
                    push_char(out, '+');
                }
                push_nat(out, *count as u32);
                push_char(out, unit.to_char());
            },
            TodoElement::Text(t) => {
                push_string(out, t);
            },
            TodoElement::Threshold(d) => {
                push_chars(out, &vec!['t', ':']);
                d.push_text(out);
            },
            TodoElement::Uuid(_) => {},
        }
        assert(out@ =~= old(out)@ + element_text(self@));
    }

    /// The text of this token: `+name`, `@name`, `due:<date>`, `t:<date>`,
    /// `rec:<rule>`, or the free text itself.
    pub fn to_string(&self) -> (r: String)
        requires
            !(self@ is Reserved),
        ensures
            r@ == element_text(self@),
    {
        let mut r = String::new();
        self.push_text(&mut r);
        assert(r@ =~= element_text(self@));
        r
    }
}

} // verus!
