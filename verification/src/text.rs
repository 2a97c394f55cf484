//! Sequences of characters: the operations that generated source is stated in,
//! and the executable functions that append to a `String` accordingly.

use vstd::prelude::*;
use vstd::string::StringExecFns;

verus! {

broadcast use vstd::string::group_string_axioms;

/// `String::push` appends one character to the end of the string and leaves
/// what was there before in place.
pub assume_specification[ String::push ](s: &mut String, c: char)
    ensures
        final(s)@ == old(s)@.push(c),
;

/// The character sequences that a sequence of strings holds.
pub open spec fn views(parts: Seq<String>) -> Seq<Seq<char>> {
    Seq::new(parts.len(), |i: int| parts[i]@)
}

/// The parts in order, with `sep` between each two neighbours.
pub open spec fn separated(parts: Seq<Seq<char>>, sep: Seq<char>) -> Seq<char>
    decreases parts.len(),
{
    if parts.len() == 0 {
        Seq::empty()
    } else if parts.len() == 1 {
        parts[0]
    } else {
        separated(parts.drop_last(), sep) + sep + parts.last()
    }
}

/// How one character is written inside a string literal: a quote, a
/// backslash and the control characters that have a short escape get a
/// backslash in front; every other character stands for itself.
pub open spec fn escaped_char(c: char) -> Seq<char> {
    if c == '"' {
        seq!['\\', '"']
    } else if c == '\\' {
        seq!['\\', '\\']
    } else if c == '\n' {
        seq!['\\', 'n']
    } else if c == '\r' {
        seq!['\\', 'r']
    } else if c == '\t' {
        seq!['\\', 't']
    } else if c == '\0' {
        seq!['\\', '0']
    } else {
        seq![c]
    }
}

/// The characters of `s`, each written as inside a string literal.
pub open spec fn escaped(s: Seq<char>) -> Seq<char>
    decreases s.len(),
{
    if s.len() == 0 {
        Seq::empty()
    } else {
        escaped(s.drop_last()) + escaped_char(s.last())
    }
}

/// The string literal that denotes `s`: its escaped characters between
/// double quotes.
pub open spec fn string_literal(s: Seq<char>) -> Seq<char> {
    seq!['"'] + escaped(s) + seq!['"']
}

/// The character that stands behind a backslash for `c`, for the escapes
/// that [`escaped_char`] writes.
pub open spec fn escape_read(c: char) -> Option<char> {
    if c == '"' {
        Some('"')
    } else if c == '\\' {
        Some('\\')
    } else if c == 'n' {
        Some('\n')
    } else if c == 'r' {
        Some('\r')
    } else if c == 't' {
        Some('\t')
    } else if c == '0' {
        Some('\0')
    } else {
        None
    }
}

/// The characters that the inside of a string literal denotes, read from
/// the front: a backslash and the character behind it stand for one
/// character, and every other character for itself. A bare quote or
/// carriage return cannot stand inside a literal, and of the escapes only
/// those that [`escaped_char`] writes are read; for anything else the
/// result is `None`.
pub open spec fn denoted(inside: Seq<char>) -> Option<Seq<char>>
    decreases inside.len(),
{
    if inside.len() == 0 {
        Some(Seq::empty())
    } else if inside[0] == '\\' {
        if inside.len() < 2 || escape_read(inside[1]) is None || denoted(inside.skip(2)) is None {
            None
        } else {
            Some(seq![escape_read(inside[1])->0] + denoted(inside.skip(2))->0)
        }
    } else if inside[0] == '"' || inside[0] == '\r' || denoted(inside.skip(1)) is None {
        None
    } else {
        Some(seq![inside[0]] + denoted(inside.skip(1))->0)
    }
}

/// Escaping one more character appends that character's escape.
pub proof fn lemma_escaped_push(s: Seq<char>, c: char)
    ensures
        escaped(s.push(c)) == escaped(s) + escaped_char(c),
{
    assert(s.push(c).drop_last() =~= s);
}

proof fn lemma_escaped_concat(a: Seq<char>, b: Seq<char>)
    ensures
        escaped(a + b) == escaped(a) + escaped(b),
    decreases b.len(),
{
    if b.len() == 0 {
        assert(a + b =~= a);
        assert(escaped(a) + escaped(b) =~= escaped(a));
    } else {
        lemma_escaped_concat(a, b.drop_last());
        assert((a + b).drop_last() =~= a + b.drop_last());
        assert(escaped(a) + escaped(b.drop_last()) + escaped_char(b.last()) =~= escaped(a) + (escaped(
            b.drop_last(),
        ) + escaped_char(b.last())));
    }
}

/// What stands between the quotes of the string literal of `s` denotes `s`:
/// a message that is written into the generated code arrives as it was,
/// whatever characters it holds.
pub proof fn lemma_escaped_denotes(s: Seq<char>)
    ensures
        denoted(escaped(s)) == Some(s),
    decreases s.len(),
{
    if s.len() > 0 {
        let first = s[0];
        let rest = s.skip(1);
        lemma_escaped_denotes(rest);
        assert(s =~= seq![first] + rest);
        lemma_escaped_concat(seq![first], rest);
        assert(seq![first].drop_last() =~= Seq::<char>::empty());
        assert(escaped(Seq::<char>::empty()) =~= Seq::<char>::empty());
        assert(seq![first].last() == first);
        assert(escaped(seq![first]) =~= escaped_char(first));
        let inside = escaped_char(first) + escaped(rest);
        assert(escaped(s) == inside);
        if first == '"' || first == '\\' || first == '\n' || first == '\r' || first == '\t'
            || first == '\0' {
            assert(inside[0] == '\\');
            assert(escape_read(inside[1]) == Some(first));
            assert(inside.skip(2) =~= escaped(rest));
        } else {
            assert(inside[0] == first);
            assert(inside.skip(1) =~= escaped(rest));
        }
        assert(denoted(inside) == Some(seq![first] + rest));
    }
}

/// Appending one more part to a non-empty list appends the separator and
/// the part; the first part stands alone.
pub proof fn lemma_separated_push(parts: Seq<Seq<char>>, sep: Seq<char>, part: Seq<char>)
    ensures
        separated(parts.push(part), sep) == if parts.len() == 0 {
            part
        } else {
            separated(parts, sep) + sep + part
        },
{
    assert(parts.push(part).drop_last() =~= parts);
}

/// Appends to `out` the way `c` is written inside a string literal.
pub fn append_escaped_char(out: &mut String, c: char)
    ensures
        final(out)@ == old(out)@ + escaped_char(c),
{
    if c == '"' {
        out.push('\\');
        out.push('"');
    } else if c == '\\' {
        out.push('\\');
        out.push('\\');
    } else if c == '\n' {
        out.push('\\');
        out.push('n');
    } else if c == '\r' {
        out.push('\\');
        out.push('r');
    } else if c == '\t' {
        out.push('\\');
        out.push('t');
    } else if c == '\0' {
        out.push('\\');
        out.push('0');
    } else {
        out.push(c);
    }
    assert(out@ =~= old(out)@ + escaped_char(c));
}

/// Appends to `out` the string literal that denotes `s`.
pub fn append_string_literal(out: &mut String, s: &str)
    ensures
        final(out)@ == old(out)@ + string_literal(s@),
{
    out.push('"');
    let ghost start = out@;
    for c in rest: s.chars()
        invariant
            rest.seq() == s@,
            out@ == start + escaped(s@.take(rest.index() as int)),
    {
        let ghost done = s@.take(rest.index() as int);
        append_escaped_char(out, c);
        proof {
            lemma_escaped_push(done, c);
            assert(s@.take(rest.index() + 1) =~= done.push(c));
            assert(start + escaped(done) + escaped_char(c) =~= start + escaped(done.push(c)));
        }
    }
    assert(s@.take(s@.len() as int) =~= s@);
    out.push('"');
    assert(out@ =~= old(out)@ + string_literal(s@));
}

/// Appends the parts in order to `out`, with `sep` between each two.
pub fn append_separated(out: &mut String, parts: &Vec<String>, sep: &str)
    ensures
        final(out)@ == old(out)@ + separated(views(parts@), sep@),
{
    let ghost start = out@;
    let mut i: usize = 0;
    while i < parts.len()
        invariant
            i <= parts.len(),
            out@ == start + separated(views(parts@).take(i as int), sep@),
        decreases parts.len() - i,
    {
        let ghost before = views(parts@).take(i as int);
        if i > 0 {
            out.append(sep);
        }
        out.append(parts[i].as_str());
        proof {
            lemma_separated_push(before, sep@, parts[i as int]@);
            assert(views(parts@).take(i + 1) =~= before.push(parts[i as int]@));
            assert(out@ =~= start + separated(views(parts@).take(i + 1), sep@));
        }
        i += 1;
    }
    assert(views(parts@).take(parts.len() as int) =~= views(parts@));
    assert(start + Seq::<char>::empty() =~= start);
}

} // verus!
