//! Calendar dates in the `YYYY-MM-DD` form; the check is syntactic only.
use vstd::prelude::*;
use crate::error::ParsingError;
use crate::text::{
    all_digits, chars_of, is_digit, lemma_nat_text, lemma_parse_nat_text, lemma_parse_pad2,
    lemma_split_on_len, nat_text, pad2_text, parse_number, parse_uint, push_char, push_nat,
    split_char, split_on,
};

verus! {

#[derive(Debug, Clone, Copy, PartialEq, Eq, Structural)]
pub struct DateData {
    pub year: u16,
    pub month: u8,
    pub day: u8,
}

/// The date that `s` denotes: exactly three `-`-separated unsigned
/// numbers that fit a `u16`, a `u8` and a `u8`.
pub open spec fn parse_date(s: Seq<char>) -> Option<DateData> {
    let p = split_on(s, '-');
    if p.len() == 3 && parse_uint(p[0], 0xffff) is Some && parse_uint(p[1], 0xff) is Some
        && parse_uint(p[2], 0xff) is Some {
        Some(
            DateData {
                year: parse_uint(p[0], 0xffff)->0 as u16,
                month: parse_uint(p[1], 0xff)->0 as u8,
                day: parse_uint(p[2], 0xff)->0 as u8,
            },
        )
    } else {
        None
    }
}

/// The text of a date: the year, then month and day padded to two digits.
pub open spec fn date_text(d: DateData) -> Seq<char> {
    nat_text(d.year as nat) + seq!['-'] + pad2_text(d.month as nat) + seq!['-'] + pad2_text(
        d.day as nat,
    )
}

pub proof fn lemma_split_on_free(y: Seq<char>, sep: char)
    requires
        !y.contains(sep),
    ensures
        split_on(y, sep) == seq![y],
    decreases y.len(),
{
    if y.len() > 0 {
        assert(!y.drop_last().contains(sep)) by {
            if y.drop_last().contains(sep) {
                let k = choose|k: int| 0 <= k < y.drop_last().len() && y.drop_last()[k] == sep;
                assert(y[k] == sep);
            }
        }
        lemma_split_on_free(y.drop_last(), sep);
        assert(y.drop_last().push(y.last()) =~= y);
        assert(y.last() != sep);
        assert(seq![y.drop_last()].update(0, y.drop_last().push(y.last())) =~= seq![y]);
    } else {
        assert(y =~= Seq::<char>::empty());
    }
}

pub proof fn lemma_split_on_join(x: Seq<char>, y: Seq<char>, sep: char)
    ensures
        split_on(x + seq![sep] + y, sep) == split_on(x, sep) + split_on(y, sep),
    decreases y.len(),
{
    lemma_split_on_len(x, sep);
    lemma_split_on_len(y, sep);
    let s = x + seq![sep] + y;
    if y.len() == 0 {
        assert(s.drop_last() =~= x);
        assert(split_on(x, sep) + split_on(y, sep) =~= split_on(x, sep).push(Seq::empty()));
    } else {
        lemma_split_on_join(x, y.drop_last(), sep);
        assert(s.drop_last() =~= x + seq![sep] + y.drop_last());
        lemma_split_on_len(y.drop_last(), sep);
        if y.last() == sep {
            assert(split_on(x, sep) + split_on(y, sep) =~= (split_on(x, sep) + split_on(
                y.drop_last(),
                sep,
            )).push(Seq::empty()));
        } else {
            let a = split_on(x, sep);
            let b = split_on(y.drop_last(), sep);
            assert((a + b).update((a + b).len() - 1, (a + b).last().push(y.last())) =~= a
                + b.update(b.len() - 1, b.last().push(y.last())));
        }
    }
}

proof fn lemma_no_dash_digits(s: Seq<char>)
    requires
        all_digits(s),
    ensures
        !s.contains('-'),
{
    if s.contains('-') {
        let k = choose|k: int| 0 <= k < s.len() && s[k] == '-';
        assert(is_digit(s[k]));
    }
}

/// Reading a date's text gives the date back.
pub proof fn lemma_date_round_trip(d: DateData)
    ensures
        parse_date(date_text(d)) == Some(d),
        date_text(d).len() > 0,
{
    let y = nat_text(d.year as nat);
    let m = pad2_text(d.month as nat);
    let dd = pad2_text(d.day as nat);
    lemma_nat_text(d.year as nat);
    lemma_parse_nat_text(d.year as nat, 0xffff);
    lemma_parse_pad2(d.month as nat, 0xff);
    lemma_parse_pad2(d.day as nat, 0xff);
    lemma_no_dash_digits(y);
    lemma_no_dash_digits(m);
    lemma_no_dash_digits(dd);
    lemma_split_on_free(y, '-');
    lemma_split_on_free(m, '-');
    lemma_split_on_free(dd, '-');
    lemma_split_on_join(y + seq!['-'] + m, dd, '-');
    lemma_split_on_join(y, m, '-');
    assert(split_on(date_text(d), '-') =~= seq![y, m, dd]);
}

impl DateData {
    /// Reads a date from the characters of a word.
    pub fn parse_chars(w: &Vec<char>) -> (r: Option<DateData>)
        ensures
            r == parse_date(w@),
    {
        let parts = split_char(w, '-');
        if parts.len() != 3 {
            return None;
        }
        let y = parse_number(&parts[0], 0, parts[0].len(), 0xffff);
        let m = parse_number(&parts[1], 0, parts[1].len(), 0xff);
        let d = parse_number(&parts[2], 0, parts[2].len(), 0xff);
        proof {
            assert(parts@[0]@.subrange(0, parts@[0]@.len() as int) =~= parts@[0]@);
            assert(parts@[1]@.subrange(0, parts@[1]@.len() as int) =~= parts@[1]@);
            assert(parts@[2]@.subrange(0, parts@[2]@.len() as int) =~= parts@[2]@);
        }
        match (y, m, d) {
            (Some(y), Some(m), Some(d)) => Some(DateData { year: y as u16, month: m as u8, day: d as u8 }),
            _ => None,
        }
    }

    /// Reads a date: exactly three `-`-separated unsigned numbers.
    pub fn parse(date_str: &str) -> (r: Result<DateData, ParsingError>)
        ensures
            r matches Ok(d) ==> parse_date(date_str@) == Some(d),
            r is Err <==> parse_date(date_str@) is None,
    {
        let w = chars_of(date_str);
        match DateData::parse_chars(&w) {
            Some(d) => Ok(d),
            None => Err(ParsingError { message: "error parsing date" }),
        }
    }

    /// Appends the text of this date to `out`.
    pub fn push_text(&self, out: &mut String)
        ensures
            final(out)@ == old(out)@ + date_text(*self),
    {
        push_nat(out, self.year as u32);
        push_char(out, '-');
        if self.month < 10 {
            push_char(out, '0');
        }
        push_nat(out, self.month as u32);
        push_char(out, '-');
        if self.day < 10 {
            push_char(out, '0');
        }
        push_nat(out, self.day as u32);
        proof {
            reveal_with_fuel(nat_text, 2);
        }
        assert(out@ =~= old(out)@ + date_text(*self));
    }

    /// The text of this date, `YYYY-MM-DD` with month and day zero-padded.
    pub fn to_string(&self) -> (r: String)
        ensures
            r@ == date_text(*self),
    {
        let mut r = String::new();
        self.push_text(&mut r);
        assert(r@ =~= date_text(*self));
        r
    }
}

} // verus!
