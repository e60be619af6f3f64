//! The round trip of a task line, both ways: reading the line that the
//! serializer wrote gives back the entry, and writing the entry read from a
//! canonical line gives back the line.
use vstd::prelude::*;
use crate::date::{date_text, lemma_date_round_trip};
use crate::element::{
    due_tag, element_text, parse_word, rec_tag, threshold_tag, unit_char, ElementV,
};
use crate::entry::{
    entry_of_words, entry_text, is_marker, join_parts, merge_all, parse_entry, push_merge, EntryV,
};
use crate::date::parse_date;
use crate::status::Status;
use crate::text::{all_digits, is_digit, is_ws, lemma_nat_text, lemma_words_nonempty, nat_text, pad2_text, lemma_parse_pad2, words};

verus! {

pub open spec fn no_ws(s: Seq<char>) -> bool {
    forall|i: int| 0 <= i < s.len() ==> !is_ws(#[trigger] s[i])
}

/// Words separated by single spaces.
pub open spec fn join_words(ws: Seq<Seq<char>>) -> Seq<char>
    decreases ws.len(),
{
    if ws.len() == 0 {
        Seq::empty()
    } else if ws.len() == 1 {
        ws[0]
    } else {
        join_words(ws.drop_last()) + seq![' '] + ws.last()
    }
}

/// Free text in the form the serializer writes and the classifier keeps as
/// text: one or more words, each read as free text, separated by single spaces.
pub open spec fn canonical_text(t: Seq<char>) -> bool {
    &&& words(t).len() > 0
    &&& join_words(words(t)) == t
    &&& forall|k: int|
        0 <= k < words(t).len() ==> parse_word(#[trigger] words(t)[k]) == ElementV::Text(
            words(t)[k],
        )
}

/// A token whose text reads back as the token.
pub open spec fn canonical_element(e: ElementV) -> bool {
    match e {
        ElementV::Project(n) => no_ws(n),
        ElementV::Context(n) => no_ws(n),
        ElementV::Text(t) => canonical_text(t),
        ElementV::Reserved => false,
        _ => true,
    }
}

/// The words that a token's text consists of.
pub open spec fn token_words(e: ElementV) -> Seq<Seq<char>> {
    match e {
        ElementV::Text(t) => words(t),
        _ => seq![element_text(e)],
    }
}

/// A token sequence in the form that line assembly produces: each token
/// canonical, no two free-text tokens in a row, and a first word that is
/// neither the completion marker nor a date.
pub open spec fn canonical_parts(ps: Seq<ElementV>) -> bool {
    &&& forall|i: int| 0 <= i < ps.len() ==> canonical_element(#[trigger] ps[i])
    &&& forall|i: int| 0 < i < ps.len() ==> !(#[trigger] ps[i] is Text && ps[i - 1] is Text)
    &&& ps.len() > 0 ==> !is_marker(token_words(ps[0])[0]) && parse_date(token_words(ps[0])[0]) is None
}

/// The words of the texts of the tokens, in order.
pub open spec fn flat_words(ps: Seq<ElementV>) -> Seq<Seq<char>>
    decreases ps.len(),
{
    if ps.len() == 0 {
        Seq::empty()
    } else {
        flat_words(ps.drop_last()) + token_words(ps.last())
    }
}

/// Pushes each of `es` onto `acc` with `push_merge`.
pub open spec fn merge_onto(acc: Seq<ElementV>, es: Seq<ElementV>) -> Seq<ElementV>
    decreases es.len(),
{
    if es.len() == 0 {
        acc
    } else {
        push_merge(merge_onto(acc, es.drop_last()), es.last())
    }
}

proof fn lemma_words_join(a: Seq<char>, b: Seq<char>)
    ensures
        words(a + seq![' '] + b) == words(a) + words(b),
    decreases b.len(),
{
    let s = a + seq![' '] + b;
    if b.len() == 0 {
        assert(s.drop_last() =~= a);
        assert(is_ws(s.last()));
        assert(words(a) + words(b) =~= words(a));
    } else {
        lemma_words_join(a, b.drop_last());
        assert(s.drop_last() =~= a + seq![' '] + b.drop_last());
        let c = b.last();
        if is_ws(c) {
        } else if b.len() >= 2 && !is_ws(b[b.len() - 2]) {
            assert(s[s.len() - 2] == b[b.len() - 2]);
            lemma_words_nonempty(b.drop_last());
            assert(b.drop_last().last() == b[b.len() - 2]);
            let wa = words(a);
            let wb = words(b.drop_last());
            assert((wa + wb).update((wa + wb).len() - 1, (wa + wb).last().push(c)) =~= wa
                + wb.update(wb.len() - 1, wb.last().push(c)));
        } else {
            if b.len() >= 2 {
                assert(s[s.len() - 2] == b[b.len() - 2]);
            } else {
                assert(s[s.len() - 2] == ' ');
                assert(b.drop_last() =~= Seq::<char>::empty());
            }
            assert((words(a) + words(b.drop_last())).push(seq![c]) =~= words(a) + words(
                b.drop_last(),
            ).push(seq![c]));
        }
    }
}

proof fn lemma_words_single(w: Seq<char>)
    requires
        w.len() > 0,
        no_ws(w),
    ensures
        words(w) == seq![w],
    decreases w.len(),
{
    if w.len() == 1 {
        assert(w.drop_last() =~= Seq::<char>::empty());
        assert(words(Seq::<char>::empty()) =~= Seq::<Seq<char>>::empty());
        assert(!is_ws(w[0]));
        assert(seq![w.last()] =~= w);
    } else {
        lemma_words_single(w.drop_last());
        assert(!is_ws(w[w.len() - 1]));
        assert(!is_ws(w[w.len() - 2]));
        assert(w.drop_last().push(w.last()) =~= w);
        assert(seq![w.drop_last()].update(0, w.drop_last().push(w.last())) =~= seq![w]);
    }
}

proof fn lemma_no_ws_concat(a: Seq<char>, b: Seq<char>)
    requires
        no_ws(a),
        no_ws(b),
    ensures
        no_ws(a + b),
{
    assert forall|i: int| 0 <= i < (a + b).len() implies !is_ws(#[trigger] (a + b)[i]) by {
        if i < a.len() {
            assert((a + b)[i] == a[i]);
        } else {
            assert((a + b)[i] == b[i - a.len()]);
        }
    }
}

proof fn lemma_digits_no_ws(s: Seq<char>)
    requires
        all_digits(s),
    ensures
        no_ws(s),
{
    assert forall|i: int| 0 <= i < s.len() implies !is_ws(#[trigger] s[i]) by {
        assert(is_digit(s[i]));
    }
}

proof fn lemma_date_no_ws(d: crate::date::DateData)
    ensures
        no_ws(date_text(d)),
{
    lemma_nat_text(d.year as nat);
    lemma_parse_pad2(d.month as nat, 0xff);
    lemma_parse_pad2(d.day as nat, 0xff);
    lemma_digits_no_ws(nat_text(d.year as nat));
    lemma_digits_no_ws(pad2_text(d.month as nat));
    lemma_digits_no_ws(pad2_text(d.day as nat));
    assert(no_ws(seq!['-']));
    lemma_no_ws_concat(nat_text(d.year as nat), seq!['-']);
    lemma_no_ws_concat(nat_text(d.year as nat) + seq!['-'], pad2_text(d.month as nat));
    lemma_no_ws_concat(nat_text(d.year as nat) + seq!['-'] + pad2_text(d.month as nat), seq!['-']);
    lemma_no_ws_concat(
        nat_text(d.year as nat) + seq!['-'] + pad2_text(d.month as nat) + seq!['-'],
        pad2_text(d.day as nat),
    );
}

/// The text of a canonical token other than free text is one word, which
/// the classifier reads back as the token.
#[verifier::rlimit(60)]
proof fn lemma_tagged_due(d: crate::date::DateData)
    ensures
        no_ws(element_text(ElementV::Due(d))),
        parse_word(element_text(ElementV::Due(d))) == ElementV::Due(d),
{
    let w = element_text(ElementV::Due(d));
    lemma_date_no_ws(d);
    lemma_date_round_trip(d);
    assert(no_ws(due_tag()));
    lemma_no_ws_concat(due_tag(), date_text(d));
    assert(w.subrange(0, 4) =~= due_tag());
    assert(w.skip(4) =~= date_text(d));
}

#[verifier::rlimit(60)]
proof fn lemma_tagged_threshold(d: crate::date::DateData)
    ensures
        no_ws(element_text(ElementV::Threshold(d))),
        parse_word(element_text(ElementV::Threshold(d))) == ElementV::Threshold(d),
{
    let w = element_text(ElementV::Threshold(d));
    lemma_date_no_ws(d);
    lemma_date_round_trip(d);
    assert(no_ws(threshold_tag()));
    lemma_no_ws_concat(threshold_tag(), date_text(d));
    assert(w.subrange(0, 2) =~= threshold_tag());
    assert(w.skip(2) =~= date_text(d));
    assert(w.subrange(0, 4)[0] != due_tag()[0]);
}

#[verifier::rlimit(60)]
proof fn lemma_tagged_recurrence(plus: bool, count: u16, unit: crate::element::RecurrenceTimeUnit)
    ensures
        no_ws(element_text((ElementV::Recurrence { plus, count, unit }))),
        parse_word(element_text((ElementV::Recurrence { plus, count, unit }))) == (
        ElementV::Recurrence { plus, count, unit }),
{
    let w = element_text(ElementV::Recurrence { plus, count, unit });
    let p: Seq<char> = if plus {
        seq!['+']
    } else {
        Seq::empty()
    };
    let n = nat_text(count as nat);
    lemma_nat_text(count as nat);
    lemma_digits_no_ws(n);
    assert(no_ws(rec_tag()));
    assert(no_ws(p));
    assert(no_ws(seq![unit_char(unit)]));
    lemma_no_ws_concat(rec_tag(), p);
    lemma_no_ws_concat(rec_tag() + p, n);
    lemma_no_ws_concat(rec_tag() + p + n, seq![unit_char(unit)]);
    assert(n.push(unit_char(unit)) =~= n + seq![unit_char(unit)]);
    assert(w =~= rec_tag() + p + n + seq![unit_char(unit)]);
    assert(w.subrange(0, 4) =~= rec_tag());
    assert(w.subrange(0, 4)[0] != due_tag()[0]);
    assert(w.subrange(0, 2)[0] != threshold_tag()[0]);
    let s = w.skip(4);
    assert(s =~= p + n.push(unit_char(unit)));
    let body = if plus {
        s.drop_first()
    } else {
        s
    };
    assert(body =~= n.push(unit_char(unit)));
    assert(body.drop_last() =~= n);
    assert(plus == (s.len() > 0 && s[0] == '+'));
}

/// The text of a canonical token other than free text is one word, which
/// the classifier reads back as the token.
proof fn lemma_tagged_token(e: ElementV)
    requires
        canonical_element(e),
        !(e is Text),
    ensures
        element_text(e).len() > 0,
        no_ws(element_text(e)),
        parse_word(element_text(e)) == e,
{
    let w = element_text(e);
    match e {
        ElementV::Project(n) => {
            assert(no_ws(seq!['+']));
            lemma_no_ws_concat(seq!['+'], n);
            assert(w.drop_first() =~= n);
        },
        ElementV::Context(n) => {
            assert(no_ws(seq!['@']));
            lemma_no_ws_concat(seq!['@'], n);
            assert(w.drop_first() =~= n);
        },
        ElementV::Due(d) => {
            lemma_tagged_due(d);
            assert(w.len() >= 4);
        },
        ElementV::Threshold(d) => {
            lemma_tagged_threshold(d);
            assert(w.len() >= 2);
        },
        ElementV::Recurrence { plus, count, unit } => {
            lemma_tagged_recurrence(plus, count, unit);
            assert(w.len() >= 4);
        },
        _ => {},
    }
}

proof fn lemma_flat_words(ps: Seq<ElementV>)
    requires
        forall|i: int| 0 <= i < ps.len() ==> canonical_element(#[trigger] ps[i]),
    ensures
        words(join_parts(ps)) == flat_words(ps),
    decreases ps.len(),
{
    if ps.len() > 0 {
        let e = ps.last();
        assert(canonical_element(ps[ps.len() - 1]));
        let tw = if e is Text {
            e->Text_0
        } else {
            element_text(e)
        };
        if !(e is Text) {
            lemma_tagged_token(e);
            lemma_words_single(element_text(e));
        }
        assert(words(element_text(e)) == token_words(e));
        if ps.len() == 1 {
            assert(flat_words(ps.drop_last()) =~= Seq::<Seq<char>>::empty());
            assert(flat_words(ps) =~= token_words(e));
        } else {
            lemma_flat_words(ps.drop_last());
            lemma_words_join(join_parts(ps.drop_last()), element_text(e));
        }
    }
}

proof fn lemma_merge_concat(a: Seq<ElementV>, b: Seq<ElementV>)
    ensures
        merge_all(a + b) == merge_onto(merge_all(a), b),
    decreases b.len(),
{
    if b.len() == 0 {
        assert(a + b =~= a);
    } else {
        lemma_merge_concat(a, b.drop_last());
        assert((a + b).drop_last() =~= a + b.drop_last());
    }
}

proof fn lemma_merge_texts(q: Seq<ElementV>, ws: Seq<Seq<char>>)
    requires
        ws.len() > 0,
        q.len() > 0 ==> !(q.last() is Text),
    ensures
        merge_onto(q, ws.map_values(|w: Seq<char>| ElementV::Text(w))) == q.push(
            ElementV::Text(join_words(ws)),
        ),
    decreases ws.len(),
{
    let es = ws.map_values(|w: Seq<char>| ElementV::Text(w));
    assert(es.last() == ElementV::Text(ws.last()));
    if ws.len() == 1 {
        assert(es.drop_last() =~= Seq::<ElementV>::empty());
        assert(merge_onto(q, es.drop_last()) == q);
        assert(join_words(ws) == ws[0]);
    } else {
        lemma_merge_texts(q, ws.drop_last());
        assert(es.drop_last() =~= ws.drop_last().map_values(|w: Seq<char>| ElementV::Text(w)));
        let m = q.push(ElementV::Text(join_words(ws.drop_last())));
        assert(merge_onto(q, es.drop_last()) == m);
        assert(m.last() is Text);
        assert(merge_onto(q, es) == push_merge(m, ElementV::Text(ws.last())));
        assert(m.update(m.len() - 1, ElementV::Text(join_words(ws.drop_last()) + seq![' '] + ws.last()))
            =~= q.push(ElementV::Text(join_words(ws))));
    }
}

proof fn lemma_canonical_prefix(ps: Seq<ElementV>)
    requires
        canonical_parts(ps),
        ps.len() > 0,
    ensures
        canonical_parts(ps.drop_last()),
{
    let q = ps.drop_last();
    assert forall|i: int| 0 <= i < q.len() implies canonical_element(#[trigger] q[i]) by {
        assert(q[i] == ps[i]);
    }
    assert forall|i: int| 0 < i < q.len() implies !(#[trigger] q[i] is Text && q[i - 1] is Text) by {
        assert(q[i] == ps[i] && q[i - 1] == ps[i - 1]);
        assert(!(ps[i] is Text && ps[i - 1] is Text));
    }
    if q.len() > 0 {
        assert(q[0] == ps[0]);
    }
}

#[verifier::rlimit(60)]
proof fn lemma_merge_canonical(ps: Seq<ElementV>)
    requires
        canonical_parts(ps),
    ensures
        merge_all(flat_words(ps).map_values(|w: Seq<char>| parse_word(w))) == ps,
    decreases ps.len(),
{
    if ps.len() == 0 {
        assert(flat_words(ps).map_values(|w: Seq<char>| parse_word(w)) =~= Seq::<ElementV>::empty());
        assert(merge_all(Seq::<ElementV>::empty()) == Seq::<ElementV>::empty());
        assert(ps =~= Seq::<ElementV>::empty());
    } else {
        let q = ps.drop_last();
        let e = ps.last();
        assert(canonical_element(ps[ps.len() - 1]));
        lemma_canonical_prefix(ps);
        lemma_merge_canonical(q);
        let a = flat_words(q).map_values(|w: Seq<char>| parse_word(w));
        let b = token_words(e).map_values(|w: Seq<char>| parse_word(w));
        assert(flat_words(ps).map_values(|w: Seq<char>| parse_word(w)) =~= a + b);
        lemma_merge_concat(a, b);
        if e is Text {
            let t = e->Text_0;
            assert(b =~= words(t).map_values(|w: Seq<char>| ElementV::Text(w)));
            if q.len() > 0 {
                assert(!(ps[ps.len() - 1] is Text && ps[ps.len() - 2] is Text));
            }
            lemma_merge_texts(q, words(t));
            assert(join_words(words(t)) == t);
            assert(merge_onto(q, b) == q.push(e));
            assert(q.push(e) =~= ps);
        } else {
            lemma_tagged_token(e);
            assert(b =~= seq![e]);
            assert(b.drop_last() =~= Seq::<ElementV>::empty());
            assert(merge_onto(q, b.drop_last()) == q);
            assert(merge_onto(q, b) == push_merge(q, e));
            assert(q.push(e) =~= ps);
        }
    }
}

proof fn lemma_flat_first(ps: Seq<ElementV>)
    requires
        ps.len() > 0,
        forall|i: int| 0 <= i < ps.len() ==> canonical_element(#[trigger] ps[i]),
    ensures
        flat_words(ps).len() > 0,
        flat_words(ps)[0] == token_words(ps[0])[0],
    decreases ps.len(),
{
    assert(canonical_element(ps[ps.len() - 1]));
    assert(token_words(ps.last()).len() > 0);
    if ps.len() == 1 {
        assert(flat_words(ps.drop_last()) =~= Seq::<Seq<char>>::empty());
        assert(flat_words(ps) =~= token_words(ps[0]));
    } else {
        assert forall|i: int| 0 <= i < ps.drop_last().len() implies canonical_element(
            #[trigger] ps.drop_last()[i],
        ) by {
            assert(ps.drop_last()[i] == ps[i]);
        }
        lemma_flat_first(ps.drop_last());
    }
}

/// Reading the line written for an open task without a creation date gives
/// the task back, when its tokens are in the form that reading produces.
pub proof fn lemma_round_trip(e: EntryV)
    requires
        e.status == Status::Open,
        e.created_date is None,
        canonical_parts(e.parts),
    ensures
        parse_entry(entry_text(e)) == e,
{
    let ps = e.parts;
    assert(entry_text(e) =~= join_parts(ps));
    lemma_flat_words(ps);
    let ws = flat_words(ps);
    if ps.len() > 0 {
        lemma_flat_first(ps);
    } else {
        assert(ws =~= Seq::<Seq<char>>::empty());
    }
    lemma_merge_canonical(ps);
    assert(ws.skip(0) =~= ws);
    assert(entry_of_words(ws) =~= e);
}

proof fn lemma_join_push_merge(m: Seq<ElementV>, e: ElementV)
    ensures
        join_parts(push_merge(m, e)) == (if m.len() == 0 {
            element_text(e)
        } else {
            join_parts(m) + seq![' '] + element_text(e)
        }),
{
    let r = push_merge(m, e);
    if e is Text && m.len() > 0 && m.last() is Text {
        let a = m.last()->Text_0;
        let b = e->Text_0;
        assert(r.drop_last() =~= m.drop_last());
        assert(r.last() == ElementV::Text(a + seq![' '] + b));
        if m.len() == 1 {
            assert(join_parts(m) == a);
            assert(join_parts(r) == a + seq![' '] + b);
        } else {
            assert(join_parts(m) == join_parts(m.drop_last()) + seq![' '] + a);
            assert(join_parts(r) =~= join_parts(m.drop_last()) + seq![' '] + (a + seq![' '] + b));
        }
        assert(join_parts(r) =~= join_parts(m) + seq![' '] + element_text(e));
    } else {
        assert(r.drop_last() =~= m);
        if m.len() == 0 {
            assert(join_parts(r) == element_text(r[0]));
        }
    }
}

/// Joining the texts of merged tokens with spaces is joining the texts of
/// the tokens before they were merged.
proof fn lemma_join_merge_all(es: Seq<ElementV>)
    ensures
        join_parts(merge_all(es)) == join_words(es.map_values(|e: ElementV| element_text(e))),
        es.len() > 0 ==> merge_all(es).len() > 0,
    decreases es.len(),
{
    let ts = es.map_values(|e: ElementV| element_text(e));
    if es.len() == 0 {
        assert(merge_all(es) =~= Seq::<ElementV>::empty());
        assert(ts =~= Seq::<Seq<char>>::empty());
    } else {
        lemma_join_merge_all(es.drop_last());
        lemma_join_push_merge(merge_all(es.drop_last()), es.last());
        assert(ts.drop_last() =~= es.drop_last().map_values(|e: ElementV| element_text(e)));
        assert(ts.last() == element_text(es.last()));
        if es.len() == 1 {
            assert(merge_all(es.drop_last()) =~= Seq::<ElementV>::empty());
        }
    }
}

/// Writing out the entry read from a line gives the line back, when the line
/// is words separated by single spaces, its first word is neither the
/// completion marker nor a date, and each word is written back as it reads.
pub proof fn lemma_write_parsed(s: Seq<char>)
    requires
        join_words(words(s)) == s,
        words(s).len() > 0 ==> !is_marker(words(s)[0]) && parse_date(words(s)[0]) is None,
        forall|k: int|
            0 <= k < words(s).len() ==> element_text(parse_word(#[trigger] words(s)[k]))
                == words(s)[k],
    ensures
        entry_text(parse_entry(s)) == s,
{
    let ws = words(s);
    assert(ws.skip(0) =~= ws);
    let es = ws.map_values(|w: Seq<char>| parse_word(w));
    lemma_join_merge_all(es);
    assert(es.map_values(|e: ElementV| element_text(e)) =~= ws);
    let e = parse_entry(s);
    assert(e.status == Status::Open);
    assert(e.created_date is None);
    assert(e.parts == merge_all(es));
    assert(entry_text(e) =~= join_parts(e.parts));
}

} // verus!
