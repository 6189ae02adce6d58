//! What holds of trimming, cutting, searching and joining, whatever the text.

use vstd::prelude::*;

use crate::text::{
    has_part, has_start, is_space, joined, lemma_pieces_append, lemma_pieces_nonempty,
    lemma_trimmed_end, lemma_trimmed_start, lines_of, opt_text, pieces, slices, text_or_empty,
    texts, trimmed, trimmed_end, trimmed_start, without_cr,
};

verus! {

/// White space is made of these characters, and of no others.
pub proof fn law_white_space(c: char)
    ensures
        is_space(c) <==> (c == '\t' || c == '\n' || c == '\u{b}' || c == '\u{c}' || c == '\r' || c
            == ' ' || c == '\u{85}' || c == '\u{a0}' || c == '\u{1680}' || c == '\u{2000}' || c
            == '\u{2001}' || c == '\u{2002}' || c == '\u{2003}' || c == '\u{2004}' || c
            == '\u{2005}' || c == '\u{2006}' || c == '\u{2007}' || c == '\u{2008}' || c
            == '\u{2009}' || c == '\u{200a}' || c == '\u{2028}' || c == '\u{2029}' || c
            == '\u{202f}' || c == '\u{205f}' || c == '\u{3000}'),
{
}

/// White space before a text does not matter to what is left of it at the start.
proof fn lemma_skip_space(before: Seq<char>, s: Seq<char>)
    requires
        forall|k: int| 0 <= k < before.len() ==> is_space(#[trigger] before[k]),
    ensures
        trimmed_start(before + s) == trimmed_start(s),
    decreases before.len(),
{
    if before.len() == 0 {
        assert(before + s == s);
    } else {
        let rest = before.skip(1);
        assert(is_space(before[0]));
        assert forall|k: int| 0 <= k < rest.len() implies is_space(#[trigger] rest[k]) by {
            assert(rest[k] == before[k + 1]);
        }
        lemma_skip_space(rest, s);
        assert((before + s).skip(1) == rest + s);
    }
}

/// White space after a text does not matter to what is left of it at the end.
proof fn lemma_drop_space(s: Seq<char>, after: Seq<char>)
    requires
        forall|k: int| 0 <= k < after.len() ==> is_space(#[trigger] after[k]),
    ensures
        trimmed_end(s + after) == trimmed_end(s),
    decreases after.len(),
{
    if after.len() == 0 {
        assert(s + after == s);
    } else {
        let rest = after.drop_last();
        assert(is_space(after[after.len() - 1]));
        assert forall|k: int| 0 <= k < rest.len() implies is_space(#[trigger] rest[k]) by {
            assert(rest[k] == after[k]);
        }
        lemma_drop_space(s, rest);
        assert((s + after).drop_last() == s + rest);
    }
}

/// White space before and after a text is trimmed, and nothing of the text itself, provided that
/// it neither begins nor ends in white space.
pub proof fn law_trimmed_inside(before: Seq<char>, inner: Seq<char>, after: Seq<char>)
    requires
        forall|k: int| 0 <= k < before.len() ==> is_space(#[trigger] before[k]),
        forall|k: int| 0 <= k < after.len() ==> is_space(#[trigger] after[k]),
        inner.len() > 0 ==> !is_space(inner[0]) && !is_space(inner[inner.len() - 1]),
    ensures
        trimmed(before + inner + after) == inner,
{
    assert(before + inner + after == before + (inner + after));
    lemma_skip_space(before, inner + after);
    lemma_drop_space(inner, after);
    if inner.len() == 0 {
        assert(inner + after == after + inner);
        lemma_skip_space(after, inner);
    }
}

/// What trimming takes away is white space before and after.
pub proof fn law_trimmed_away(s: Seq<char>)
    ensures
        exists|before: Seq<char>, after: Seq<char>|
            {
                &&& s == #[trigger] (before + trimmed(s) + after)
                &&& forall|k: int| 0 <= k < before.len() ==> is_space(#[trigger] before[k])
                &&& forall|k: int| 0 <= k < after.len() ==> is_space(#[trigger] after[k])
            },
{
    lemma_trimmed_start(s);
    let rest = trimmed_start(s);
    lemma_trimmed_end(rest);
    let before = s.take(s.len() - rest.len());
    let after = rest.skip(trimmed(s).len() as int);
    assert(s == before + trimmed(s) + after);
}

/// A text without a separator is one piece.
pub proof fn law_one_piece(s: Seq<char>, sep: char)
    requires
        forall|k: int| 0 <= k < s.len() ==> #[trigger] s[k] != sep,
    ensures
        pieces(s, sep) == seq![s],
{
    assert(!s.contains(sep));
    lemma_pieces_append(Seq::empty(), s, sep);
    assert(Seq::<char>::empty() + s == s);
}

/// A separator parts the pieces of what comes before it from those of what comes after.
pub proof fn law_separator_parts(a: Seq<char>, b: Seq<char>, sep: char)
    ensures
        pieces(a + seq![sep] + b, sep) == pieces(a, sep) + pieces(b, sep),
    decreases b.len(),
{
    let whole = a + seq![sep] + b;
    if b.len() == 0 {
        assert(whole.drop_last() == a);
        assert(pieces(whole, sep) == pieces(a, sep).push(Seq::empty()));
        assert(pieces(b, sep) == seq![Seq::<char>::empty()]);
    } else {
        law_separator_parts(a, b.drop_last(), sep);
        lemma_pieces_nonempty(b.drop_last(), sep);
        assert(whole.drop_last() == a + seq![sep] + b.drop_last());
        assert(whole.last() == b.last());
    }
}

/// A text that a line feed ends is a line, without the carriage return before it, and the lines
/// after it are those of the rest.
pub proof fn law_line_ends(line: Seq<char>, rest: Seq<char>)
    requires
        forall|k: int| 0 <= k < line.len() ==> #[trigger] line[k] != '\n',
    ensures
        line.len() == 0 || line[line.len() - 1] != '\r' ==> lines_of(line + seq!['\n'] + rest)
            == seq![line] + lines_of(rest),
        lines_of(line + seq!['\r'] + seq!['\n'] + rest) == seq![line] + lines_of(rest),
{
    lemma_line_ends(line, rest);
    let returned = line + seq!['\r'];
    lemma_line_ends(returned, rest);
    assert(returned.drop_last() == line);
}

/// The lines of a text are its first and those of the rest.
proof fn lemma_line_ends(line: Seq<char>, rest: Seq<char>)
    requires
        forall|k: int| 0 <= k < line.len() ==> #[trigger] line[k] != '\n',
    ensures
        lines_of(line + seq!['\n'] + rest) == seq![without_cr(line)] + lines_of(rest),
{
    law_separator_parts(line, rest, '\n');
    law_one_piece(line, '\n');
    lemma_pieces_nonempty(rest, '\n');
    let all = pieces(line + seq!['\n'] + rest, '\n');
    let more = pieces(rest, '\n');
    assert(all == seq![line] + more);
    assert(all.last() == more.last());
    assert(all.drop_last() == seq![line] + more.drop_last());
    let cut = |l: Seq<char>| without_cr(l);
    assert(all.drop_last().map_values(cut) == seq![without_cr(line)] + more.drop_last().map_values(
        cut,
    ));
    assert(lines_of(line + seq!['\n'] + rest) == seq![without_cr(line)] + lines_of(rest));
}

/// A text without a line feed is one line as it stands, and none where it is empty.
pub proof fn law_last_line(line: Seq<char>)
    requires
        forall|k: int| 0 <= k < line.len() ==> #[trigger] line[k] != '\n',
    ensures
        line.len() > 0 ==> lines_of(line) == seq![line],
        line.len() == 0 ==> lines_of(line) == Seq::<Seq<char>>::empty(),
{
    law_one_piece(line, '\n');
    let all = pieces(line, '\n');
    assert(all.last() == line);
    assert(all.drop_last() == Seq::<Seq<char>>::empty());
    assert(all.drop_last().map_values(|l: Seq<char>| without_cr(l)) == Seq::<Seq<char>>::empty());
}

/// A part is found wherever it stands.
pub proof fn law_part_found(before: Seq<char>, part: Seq<char>, after: Seq<char>)
    ensures
        has_part(before + part + after, part),
{
    let whole = before + part + after;
    let i = before.len() as int;
    assert(whole.subrange(i, i + part.len()) == part);
}

/// A part that is found stands somewhere.
pub proof fn law_found_part_stands(s: Seq<char>, part: Seq<char>)
    requires
        has_part(s, part),
    ensures
        exists|before: Seq<char>, after: Seq<char>| s == #[trigger] (before + part + after),
{
    let i = choose|i: int|
        0 <= i && i + part.len() <= s.len() && #[trigger] s.subrange(i, i + part.len()) == part;
    let before = s.take(i);
    let after = s.skip((i + part.len()) as int);
    assert(s == before + part + after);
}

/// A text begins with its start, and with no text that it does not begin with.
pub proof fn law_start_found(start: Seq<char>, rest: Seq<char>, other: Seq<char>)
    ensures
        has_start(start + rest, start),
        has_start(other, start) ==> exists|tail: Seq<char>| other == #[trigger] (start + tail),
{
    assert((start + rest).subrange(0, start.len() as int) == start);
    if has_start(other, start) {
        let tail = other.skip(start.len() as int);
        assert(other == start + tail);
    }
}

/// Lists that are joined apart and then together are joined as one list is; one text is joined to
/// itself, and none to nothing.
pub proof fn law_joined_in_parts(
    text: Seq<char>,
    a: Seq<Seq<char>>,
    b: Seq<Seq<char>>,
    sep: Seq<char>,
)
    ensures
        joined(Seq::empty(), sep) == Seq::<char>::empty(),
        joined(seq![text], sep) == text,
        a.len() > 0 && b.len() > 0 ==> joined(a + b, sep) == joined(a, sep) + sep + joined(b, sep),
    decreases b.len(),
{
    if a.len() > 0 && b.len() > 0 {
        let start = b.drop_last();
        assert((a + b).drop_last() == a + start);
        assert((a + b).last() == b.last());
        if b.len() == 1 {
            assert(a + start == a);
            assert(joined(b, sep) == b[0]);
        } else {
            law_joined_in_parts(text, a, start, sep);
            assert(joined(a + b, sep) == joined(a, sep) + sep + joined(b, sep));
        }
    }
}

/// What a list of strings holds is what each of them holds, and so with slices and with a string
/// that may be missing.
pub proof fn law_views_of_texts(list: Seq<String>, parts: Seq<&str>, one: String)
    ensures
        texts(list).len() == list.len(),
        forall|i: int| 0 <= i < list.len() ==> #[trigger] texts(list)[i] == list[i]@,
        slices(parts).len() == parts.len(),
        forall|i: int| 0 <= i < parts.len() ==> #[trigger] slices(parts)[i] == parts[i]@,
        opt_text(Some(one)) == Some(one@),
        opt_text(None) is None,
        text_or_empty(Some(one)) == one@,
        text_or_empty(None).len() == 0,
{
}

} // verus!
