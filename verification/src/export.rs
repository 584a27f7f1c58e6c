//! Writing fields for comma-separated files.

use vstd::prelude::*;
use vstd::string::*;
use crate::lookup::lemma_push_contains;
use crate::text::push_char;

verus! {

/// Whether a field has to stand in quotes: it holds a comma, a quote or a
/// line feed.
pub open spec fn needs_quotes(field: Seq<char>) -> bool {
    field.contains(',') || field.contains('"') || field.contains('\n')
}

/// How one character stands inside quotes: a quote twice, any other as it
/// is.
pub open spec fn quoted_char(c: char) -> Seq<char> {
    if c == '"' {
        seq!['"', '"']
    } else {
        seq![c]
    }
}

/// The field with every quote doubled.
pub open spec fn doubled(field: Seq<char>) -> Seq<char>
    decreases field.len(),
{
    if field.len() == 0 {
        Seq::empty()
    } else {
        quoted_char(field[0]) + doubled(field.drop_first())
    }
}

/// The field as it is written: in quotes with its quotes doubled where it
/// needs quotes, else as it is.
pub open spec fn escaped(field: Seq<char>) -> Seq<char> {
    if needs_quotes(field) {
        seq!['"'] + doubled(field) + seq!['"']
    } else {
        field
    }
}

/// What a reader makes of the inside of a quoted field and the quote that
/// closes it: two quotes are one, one quote ends the field and has to be
/// the last character.
pub open spec fn unquoted(rest: Seq<char>) -> Option<Seq<char>>
    decreases rest.len(),
{
    if rest.len() == 0 {
        None
    } else if rest[0] == '"' {
        if rest.len() == 1 {
            Some(Seq::empty())
        } else if rest[1] == '"' {
            match unquoted(rest.skip(2)) {
                Some(field) => Some(seq!['"'] + field),
                None => None,
            }
        } else {
            None
        }
    } else {
        match unquoted(rest.drop_first()) {
            Some(field) => Some(seq![rest[0]] + field),
            None => None,
        }
    }
}

/// What a reader makes of a written field: a field that begins with a
/// quote is read as a quoted field; any other is taken as it is, and must
/// not hold a comma, a quote or a line feed.
pub open spec fn parsed(written: Seq<char>) -> Option<Seq<char>> {
    if written.len() > 0 && written[0] == '"' {
        unquoted(written.drop_first())
    } else if needs_quotes(written) {
        None
    } else {
        Some(written)
    }
}

/// Doubling goes character by character.
pub proof fn lemma_doubled_push(field: Seq<char>, c: char)
    ensures
        doubled(field.push(c)) == doubled(field) + quoted_char(c),
    decreases field.len(),
{
    if field.len() == 0 {
        let one = field.push(c);
        assert(one.drop_first() =~= Seq::<char>::empty());
        assert(doubled(one.drop_first()) =~= Seq::<char>::empty());
        assert(doubled(field) =~= Seq::<char>::empty());
        assert(one[0] == c);
        assert(doubled(one) =~= quoted_char(c) + doubled(one.drop_first()));
        assert(doubled(one) =~= doubled(field) + quoted_char(c));
    } else {
        lemma_doubled_push(field.drop_first(), c);
        assert(field.push(c).drop_first() =~= field.drop_first().push(c));
        assert(doubled(field.push(c)) =~= doubled(field) + quoted_char(c));
    }
}

/// A reader gets the field back from its doubled form and the closing
/// quote.
pub proof fn lemma_unquoted_doubled(field: Seq<char>)
    ensures
        unquoted(doubled(field) + seq!['"']) == Some(field),
    decreases field.len(),
{
    let written = doubled(field) + seq!['"'];
    if field.len() == 0 {
        assert(written =~= seq!['"']);
    } else {
        let rest = field.drop_first();
        lemma_unquoted_doubled(rest);
        let tail = doubled(rest) + seq!['"'];
        if field[0] == '"' {
            assert(written.skip(2) =~= tail);
            assert(written[0] == '"' && written[1] == '"');
            assert(seq!['"'] + rest =~= field);
        } else {
            assert(written.drop_first() =~= tail);
            assert(written[0] == field[0]);
            assert(seq![field[0]] + rest =~= field);
        }
    }
}

/// Writing a field and reading it gives the field back, whatever it holds:
/// commas, quotes and line feeds too.
pub proof fn lemma_escape_round_trip(field: Seq<char>)
    ensures
        parsed(escaped(field)) == Some(field),
{
    if needs_quotes(field) {
        let written = escaped(field);
        assert(written[0] == '"');
        assert(written.drop_first() =~= doubled(field) + seq!['"']);
        lemma_unquoted_doubled(field);
    } else {
        if field.len() > 0 && field[0] == '"' {
            assert(field.contains('"'));
        }
    }
}

/// Writes tasks and events as comma-separated values.
#[derive(Debug, Clone, Copy)]
pub struct CsvExporter;

impl CsvExporter {
    fn must_quote(s: &str) -> (quote: bool)
        ensures
            quote == needs_quotes(s@),
    {
        let mut quote: bool = false;
        for c in it: s.chars()
            invariant
                it.seq() == s@,
                quote == needs_quotes(s@.take(it.index() as int)),
        {
            proof {
                let i = it.index() as int;
                assert(s@.take(i + 1) == s@.take(i).push(s@[i]));
                lemma_push_contains(s@.take(i), s@[i]);
            }
            if c == ',' || c == '"' || c == '\n' {
                quote = true;
            }
        }
        assert(s@.take(s@.len() as int) == s@);
        quote
    }

    /// Writes one field so that a reader of comma-separated values gets it
    /// back as it was.
    pub fn escape_csv(s: &str) -> (out: String)
        ensures
            out@ == escaped(s@),
    {
        if !Self::must_quote(s) {
            return String::from_str(s);
        }
        proof {
            reveal_strlit("\"");
            reveal_strlit("\"\"");
        }
        let mut out = String::from_str("\"");
        assert(out@ =~= seq!['"']);
        for c in it: s.chars()
            invariant
                it.seq() == s@,
                out@ == seq!['"'] + doubled(s@.take(it.index() as int)),
        {
            proof {
                let i = it.index() as int;
                assert(s@.take(i + 1) == s@.take(i).push(s@[i]));
                lemma_doubled_push(s@.take(i), s@[i]);
                reveal_strlit("\"\"");
                assert("\"\""@ =~= seq!['"', '"']);
            }
            if c == '"' {
                out.append("\"\"");
            } else {
                push_char(&mut out, c);
            }
            assert(out@ =~= seq!['"'] + doubled(s@.take(it.index() + 1)));
        }
        proof {
            assert(s@.take(s@.len() as int) == s@);
            reveal_strlit("\"");
            assert("\""@ =~= seq!['"']);
        }
        out.append("\"");
        out
    }
}

} // verus!
