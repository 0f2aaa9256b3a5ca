use vstd::prelude::*;

use crate::text::{chars_of, push_char, push_chars};

verus! {

/// Characters that oblige a field to be quoted.
pub open spec fn is_special(c: char) -> bool {
    c == ',' || c == '"' || c == '\n' || c == '\r'
}

pub open spec fn needs_quoting(s: Seq<char>) -> bool {
    exists|i: int| 0 <= i < s.len() && is_special(#[trigger] s[i])
}

/// The text with every double quote written twice.
pub open spec fn double_quotes(s: Seq<char>) -> Seq<char>
    decreases s.len(),
{
    if s.len() == 0 {
        Seq::empty()
    } else {
        double_quotes(s.drop_last()) + if s.last() == '"' {
            seq!['"', '"']
        } else {
            seq![s.last()]
        }
    }
}

/// A field as it is written in a CSV line: quoted, with its quotes
/// doubled, when it holds a comma, a quote or a line break; else as is.
pub open spec fn escaped_field(s: Seq<char>) -> Seq<char> {
    if needs_quoting(s) {
        seq!['"'] + double_quotes(s) + seq!['"']
    } else {
        s
    }
}

/// The texts joined with a separator.
pub open spec fn joined(parts: Seq<Seq<char>>, sep: char) -> Seq<char>
    decreases parts.len(),
{
    if parts.len() == 0 {
        Seq::empty()
    } else if parts.len() == 1 {
        parts[0]
    } else {
        joined(parts.drop_last(), sep) + seq![sep] + parts.last()
    }
}

/// A CSV line: the escaped fields joined with commas, and a line feed.
pub open spec fn csv_line(fields: Seq<Seq<char>>) -> Seq<char> {
    joined(fields.map_values(|f: Seq<char>| escaped_field(f)), ',') + seq!['\n']
}

/// Escapes one field for a CSV line (see `escaped_field`).
pub fn csv_escape(field: &str) -> (r: String)
    ensures
        r@ == escaped_field(field@),
{
    let cs = chars_of(field);
    let n = cs.len();
    let mut special = false;
    let mut doubled: Vec<char> = Vec::new();
    for i in 0..n
        invariant
            n == cs@.len(),
            cs@ == field@,
            doubled@ == double_quotes(cs@.take(i as int)),
            special == exists|j: int| 0 <= j < i && is_special(#[trigger] cs@[j]),
    {
        let c = cs[i];
        assert(cs@.take(i + 1).drop_last() =~= cs@.take(i as int));
        if c == ',' || c == '"' || c == '\n' || c == '\r' {
            special = true;
        }
        doubled.push(c);
        if c == '"' {
            doubled.push('"');
        }
        assert(doubled@ =~= double_quotes(cs@.take(i + 1)));
    }
    assert(cs@.take(n as int) =~= cs@);
    let mut r = String::new();
    if special {
        push_char(&mut r, '"');
        push_chars(&mut r, &doubled);
        push_char(&mut r, '"');
        assert(r@ =~= escaped_field(field@));
    } else {
        push_chars(&mut r, &cs);
        assert(r@ =~= escaped_field(field@));
    }
    r
}

/// The views of a list of texts.
pub open spec fn texts(v: Seq<String>) -> Seq<Seq<char>> {
    v.map_values(|s: String| s@)
}

/// Writes one CSV line (see `csv_line`).
pub fn csv_row(fields: &Vec<String>) -> (r: String)
    ensures
        r@ == csv_line(texts(fields@)),
{
    let ghost esc = texts(fields@).map_values(|f: Seq<char>| escaped_field(f));
    let mut r = String::new();
    let n = fields.len();
    for i in 0..n
        invariant
            n == fields@.len(),
            esc == texts(fields@).map_values(|f: Seq<char>| escaped_field(f)),
            r@ == joined(esc.take(i as int), ','),
    {
        let e = csv_escape(fields[i].as_str());
        assert(esc.take(i + 1).drop_last() =~= esc.take(i as int));
        if i > 0 {
            push_char(&mut r, ',');
        } else {
            assert(esc.take(0) =~= Seq::<Seq<char>>::empty());
        }
        crate::text::push_str(&mut r, e.as_str());
        assert(r@ =~= joined(esc.take(i + 1), ','));
    }
    assert(esc.take(n as int) =~= esc);
    push_char(&mut r, '\n');
    r
}


/// The text with every pair of double quotes read as one.
pub open spec fn undouble_quotes(s: Seq<char>) -> Seq<char>
    decreases s.len(),
{
    if s.len() == 0 {
        Seq::empty()
    } else if s.len() >= 2 && s.last() == '"' && s[s.len() - 2] == '"' {
        undouble_quotes(s.drop_last().drop_last()).push('"')
    } else {
        undouble_quotes(s.drop_last()).push(s.last())
    }
}

/// How a CSV reader reads a field back: a quoted field loses its quotes
/// and its doubled quotes are read as one; any other field is as written.
pub open spec fn field_read_back(e: Seq<char>) -> Seq<char> {
    if e.len() >= 2 && e[0] == '"' && e.last() == '"' {
        undouble_quotes(e.subrange(1, e.len() - 1))
    } else {
        e
    }
}

pub proof fn lemma_undouble_double(s: Seq<char>)
    ensures
        undouble_quotes(double_quotes(s)) == s,
    decreases s.len(),
{
    if s.len() > 0 {
        let prev = s.drop_last();
        lemma_undouble_double(prev);
        let d = double_quotes(s);
        if s.last() == '"' {
            assert(d.drop_last().drop_last() =~= double_quotes(prev));
        } else {
            assert(d.drop_last() =~= double_quotes(prev));
        }
        assert(undouble_quotes(d) =~= s);
    }
}

/// A field written by `csv_escape` reads back as the field itself.
pub proof fn law_escaped_field_reads_back(s: Seq<char>)
    ensures
        field_read_back(escaped_field(s)) == s,
{
    if needs_quoting(s) {
        let e = escaped_field(s);
        assert(e.subrange(1, e.len() - 1) =~= double_quotes(s));
        lemma_undouble_double(s);
    } else {
        if s.len() >= 2 && s[0] == '"' {
            assert(is_special(s[0]));
        }
    }
}

} // verus!
