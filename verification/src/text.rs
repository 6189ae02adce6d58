//! Plain text: trimming, cutting into pieces, searching and joining.
//!
//! A string is modelled by its sequence of characters.

use vstd::prelude::*;

verus! {

/// The characters that surround a trimmed text: those with the Unicode property `White_Space`.
pub open spec fn is_space(c: char) -> bool {
    ||| '\u{9}' <= c <= '\u{d}'
    ||| c == '\u{20}'
    ||| c == '\u{85}'
    ||| c == '\u{a0}'
    ||| c == '\u{1680}'
    ||| '\u{2000}' <= c <= '\u{200a}'
    ||| c == '\u{2028}'
    ||| c == '\u{2029}'
    ||| c == '\u{202f}'
    ||| c == '\u{205f}'
    ||| c == '\u{3000}'
}

/// `s` without its leading white space.
pub open spec fn trimmed_start(s: Seq<char>) -> Seq<char>
    decreases s.len(),
{
    if s.len() > 0 && is_space(s[0]) {
        trimmed_start(s.skip(1))
    } else {
        s
    }
}

/// `s` without its trailing white space.
pub open spec fn trimmed_end(s: Seq<char>) -> Seq<char>
    decreases s.len(),
{
    if s.len() > 0 && is_space(s.last()) {
        trimmed_end(s.drop_last())
    } else {
        s
    }
}

/// `s` without the white space around it.
pub open spec fn trimmed(s: Seq<char>) -> Seq<char> {
    trimmed_end(trimmed_start(s))
}

/// The pieces of `s` between the occurrences of `sep`: always one more than there are of those.
pub open spec fn pieces(s: Seq<char>, sep: char) -> Seq<Seq<char>>
    decreases s.len(),
{
    if s.len() == 0 {
        seq![Seq::<char>::empty()]
    } else {
        let before = pieces(s.drop_last(), sep);
        if s.last() == sep {
            before.push(Seq::<char>::empty())
        } else {
            before.update(before.len() - 1, before.last().push(s.last()))
        }
    }
}

/// `s` without a carriage return at its end.
pub open spec fn without_cr(s: Seq<char>) -> Seq<char> {
    if s.len() > 0 && s.last() == '\r' {
        s.drop_last()
    } else {
        s
    }
}

/// The lines of `s`. A line ends in a line feed, or in a carriage return and a line feed; the
/// last one may end with the text.
pub open spec fn lines_of(s: Seq<char>) -> Seq<Seq<char>> {
    let all = pieces(s, '\n');
    let ended = all.drop_last().map_values(|line: Seq<char>| without_cr(line));
    if all.last().len() == 0 {
        ended
    } else {
        ended.push(all.last())
    }
}

/// Whether `part` occurs in `s`.
pub open spec fn has_part(s: Seq<char>, part: Seq<char>) -> bool {
    exists|i: int|
        0 <= i && i + part.len() <= s.len() && #[trigger] s.subrange(i, i + part.len()) == part
}

/// Whether `s` begins with `start`.
pub open spec fn has_start(s: Seq<char>, start: Seq<char>) -> bool {
    start.len() <= s.len() && s.subrange(0, start.len() as int) == start
}

/// The members of `list`, with `sep` between each and the next.
pub open spec fn joined(list: Seq<Seq<char>>, sep: Seq<char>) -> Seq<char>
    decreases list.len(),
{
    if list.len() == 0 {
        Seq::empty()
    } else if list.len() == 1 {
        list[0]
    } else {
        joined(list.drop_last(), sep) + sep + list.last()
    }
}

/// What the strings of a list hold.
pub open spec fn texts(list: Seq<String>) -> Seq<Seq<char>> {
    list.map_values(|s: String| s@)
}

/// What the string slices of a list hold.
pub open spec fn slices(list: Seq<&str>) -> Seq<Seq<char>> {
    list.map_values(|s: &str| s@)
}

/// What an optional string holds.
pub open spec fn opt_text(s: Option<String>) -> Option<Seq<char>> {
    match s {
        Some(s) => Some(s@),
        None => None,
    }
}

/// What an optional string holds, with nothing for none.
pub open spec fn text_or_empty(s: Option<String>) -> Seq<char> {
    match s {
        Some(s) => s@,
        None => Seq::empty(),
    }
}

/// Whether `c` has the Unicode property `White_Space`.
pub fn is_white_space(c: char) -> (yes: bool)
    ensures
        yes == is_space(c),
{
    ('\u{9}' <= c && c <= '\u{d}') || c == '\u{20}' || c == '\u{85}' || c == '\u{a0}' || c
        == '\u{1680}' || ('\u{2000}' <= c && c <= '\u{200a}') || c == '\u{2028}' || c == '\u{2029}'
        || c == '\u{202f}' || c == '\u{205f}' || c == '\u{3000}'
}

/// The characters of `s`.
pub fn chars_of(s: &str) -> (chars: Vec<char>)
    ensures
        chars@ == s@,
{
    let mut chars: Vec<char> = Vec::new();
    for c in it: s.chars()
        invariant
            it.seq() == s@,
            chars@ == s@.take(it.index()),
    {
        chars.push(c);
    }
    assert(s@.take(s@.len() as int) == s@);
    chars
}

/// `s` without the white space around it.
pub fn trim<'a>(s: &'a str) -> (inner: &'a str)
    ensures
        inner@ == trimmed(s@),
{
    let chars = chars_of(s);
    let mut from: usize = 0;
    assert(s@.skip(0) == s@);
    while from < chars.len() && is_white_space(chars[from])
        invariant
            chars@ == s@,
            from <= chars.len(),
            trimmed_start(s@) == trimmed_start(s@.skip(from as int)),
        decreases chars.len() - from,
    {
        assert(s@.skip(from as int).skip(1) == s@.skip(from + 1));
        from += 1;
    }
    assert(trimmed_start(s@) == s@.skip(from as int));
    let mut to: usize = chars.len();
    assert(s@.subrange(from as int, to as int) == s@.skip(from as int));
    while from < to && is_white_space(chars[to - 1])
        invariant
            chars@ == s@,
            from <= to <= chars.len(),
            trimmed(s@) == trimmed_end(s@.subrange(from as int, to as int)),
        decreases to,
    {
        assert(s@.subrange(from as int, to as int).drop_last() == s@.subrange(from as int, to - 1));
        to -= 1;
    }
    s.substring_char(from, to)
}

/// Whether two texts are the same.
pub fn same(a: &str, b: &str) -> (yes: bool)
    ensures
        yes == (a@ == b@),
{
    a.to_owned() == b.to_owned()
}

/// `a` followed by `b`.
pub fn chain(a: &str, b: &str) -> (whole: String)
    ensures
        whole@ == a@ + b@,
{
    let mut whole = a.to_owned();
    whole.append(b);
    whole
}

/// Cuts `s` at each `sep`.
pub fn split<'a>(s: &'a str, sep: char) -> (parts: Vec<&'a str>)
    ensures
        slices(parts@) == pieces(s@, sep),
{
    let chars = chars_of(s);
    let mut parts: Vec<&'a str> = Vec::new();
    let mut from: usize = 0;
    let mut i: usize = 0;
    proof {
        assert(s@.take(0) == Seq::<char>::empty());
        assert(s@.subrange(0, 0) == Seq::<char>::empty());
        assert(slices(parts@).push(s@.subrange(0, 0)) == pieces(s@.take(0), sep));
    }
    while i < chars.len()
        invariant
            chars@ == s@,
            from <= i <= chars.len(),
            slices(parts@).push(s@.subrange(from as int, i as int)) == pieces(
                s@.take(i as int),
                sep,
            ),
        decreases chars.len() - i,
    {
        let ghost before = slices(parts@).push(s@.subrange(from as int, i as int));
        assert(s@.take(i + 1).drop_last() == s@.take(i as int));
        if chars[i] == sep {
            parts.push(s.substring_char(from, i));
            from = i + 1;
            assert(slices(parts@) == before);
            assert(s@.subrange(i + 1, i + 1) == Seq::<char>::empty());
        } else {
            assert(s@.subrange(from as int, i + 1) == s@.subrange(from as int, i as int).push(
                s@[i as int],
            ));
            assert(slices(parts@).push(s@.subrange(from as int, i + 1)) == before.update(
                before.len() - 1,
                before.last().push(s@[i as int]),
            ));
        }
        i += 1;
    }
    assert(s@.take(i as int) == s@);
    let ghost before = slices(parts@).push(s@.subrange(from as int, i as int));
    parts.push(s.substring_char(from, i));
    assert(slices(parts@) == before);
    parts
}

/// There is always a last piece.
pub proof fn lemma_pieces_nonempty(s: Seq<char>, sep: char)
    ensures
        pieces(s, sep).len() > 0,
    decreases s.len(),
{
    if s.len() > 0 {
        lemma_pieces_nonempty(s.drop_last(), sep);
    }
}

/// Cuts `s` into its lines.
pub fn lines<'a>(s: &'a str) -> (list: Vec<&'a str>)
    ensures
        slices(list@) == lines_of(s@),
{
    proof {
        lemma_pieces_nonempty(s@, '\n');
    }
    let parts = split(s, '\n');
    let ghost all = pieces(s@, '\n');
    let ghost ended = all.drop_last().map_values(|line: Seq<char>| without_cr(line));
    let mut list: Vec<&'a str> = Vec::new();
    let last: usize = parts.len() - 1;
    let mut i: usize = 0;
    while i < last
        invariant
            slices(parts@) == all,
            all.len() == last + 1,
            ended == all.drop_last().map_values(|line: Seq<char>| without_cr(line)),
            i <= last,
            slices(list@) == ended.take(i as int),
        decreases last - i,
    {
        let part = parts[i];
        assert(part@ == all[i as int]);
        let size: usize = part.unicode_len();
        let line = if size > 0 && part.get_char(size - 1) == '\r' {
            part.substring_char(0, size - 1)
        } else {
            part
        };
        assert(line@ == without_cr(part@));
        let ghost before = slices(list@);
        list.push(line);
        assert(slices(list@) == before.push(line@));
        assert(ended[i as int] == without_cr(all.drop_last()[i as int]));
        assert(ended.take(i + 1) == ended.take(i as int).push(ended[i as int]));
        i += 1;
    }
    assert(ended.take(i as int) == ended);
    assert(parts[last as int]@ == all.last());
    if !parts[last].is_empty() {
        list.push(parts[last]);
        assert(slices(list@) == ended.push(all.last()));
    }
    list
}

/// Whether `part` occurs in `s`.
pub fn contains(s: &str, part: &str) -> (yes: bool)
    ensures
        yes == has_part(s@, part@),
{
    let size: usize = s.unicode_len();
    let width: usize = part.unicode_len();
    if width > size {
        return false;
    }
    let last: usize = size - width;
    let mut i: usize = 0;
    while i <= last
        invariant
            size == s@.len(),
            width == part@.len(),
            last == size - width,
            width <= size,
            i <= last + 1,
            forall|j: int|
                0 <= j < i ==> #[trigger] s@.subrange(j, j + part@.len()) != part@,
        decreases last + 1 - i,
    {
        if same(s.substring_char(i, i + width), part) {
            return true;
        }
        if i == last {
            return false;
        }
        i += 1;
    }
    false
}

/// Whether `s` begins with `start`.
pub fn starts_with(s: &str, start: &str) -> (yes: bool)
    ensures
        yes == has_start(s@, start@),
{
    let width: usize = start.unicode_len();
    width <= s.unicode_len() && same(s.substring_char(0, width), start)
}

/// Whether `text` is in `list`.
pub fn listed(list: &Vec<String>, text: &str) -> (yes: bool)
    ensures
        yes == texts(list@).contains(text@),
{
    let mut i: usize = 0;
    while i < list.len()
        invariant
            i <= list.len(),
            forall|j: int| 0 <= j < i ==> #[trigger] texts(list@)[j] != text@,
        decreases list.len() - i,
    {
        assert(texts(list@)[i as int] == list[i as int]@);
        if same(list[i].as_str(), text) {
            return true;
        }
        i += 1;
    }
    false
}

/// The members of `list`, with `sep` between each and the next.
pub fn join(list: &Vec<String>, sep: &str) -> (whole: String)
    ensures
        whole@ == joined(texts(list@), sep@),
{
    let mut whole = String::new();
    let mut i: usize = 0;
    let ghost all = texts(list@);
    while i < list.len()
        invariant
            i <= list.len(),
            all == texts(list@),
            whole@ == joined(all.take(i as int), sep@),
        decreases list.len() - i,
    {
        let ghost now = all.take(i + 1);
        assert(now.drop_last() == all.take(i as int));
        assert(now.last() == list[i as int]@);
        if i > 0 {
            whole.append(sep);
        }
        whole.append(list[i].as_str());
        if i == 0 {
            assert(whole@ == list[0]@);
        }
        i += 1;
    }
    assert(all.take(i as int) == all);
    whole
}

/// Adds copies of the texts in `more` to the end of `list`.
pub fn add_all(list: &mut Vec<String>, more: &[&str])
    ensures
        texts(final(list)@) == texts(old(list)@) + slices(more@),
{
    let ghost before = texts(list@);
    let mut i: usize = 0;
    while i < more.len()
        invariant
            i <= more.len(),
            texts(list@) == before + slices(more@).take(i as int),
        decreases more.len() - i,
    {
        let ghost now = texts(list@);
        let one = more[i].to_owned();
        list.push(one);
        assert(texts(list@) == now.push(one@));
        assert(slices(more@).take(i + 1) == slices(more@).take(i as int).push(one@));
        i += 1;
    }
    assert(slices(more@).take(i as int) == slices(more@));
}

/// A list of copies of the texts in `some`.
pub fn list_of(some: &[&str]) -> (list: Vec<String>)
    ensures
        texts(list@) == slices(some@),
{
    let mut list: Vec<String> = Vec::new();
    add_all(&mut list, some);
    assert(texts(list@) == slices(some@));
    list
}

/// Leading white space is all that goes from the start.
pub proof fn lemma_trimmed_start(s: Seq<char>)
    ensures
        ({
            let rest = trimmed_start(s);
            &&& rest.len() <= s.len()
            &&& rest == s.skip(s.len() - rest.len())
            &&& forall|k: int| 0 <= k < s.len() - rest.len() ==> is_space(#[trigger] s[k])
            &&& rest.len() > 0 ==> !is_space(rest[0])
        }),
    decreases s.len(),
{
    if s.len() > 0 && is_space(s[0]) {
        lemma_trimmed_start(s.skip(1));
        let rest = trimmed_start(s);
        assert(s.skip(1).skip(s.len() - 1 - rest.len()) == s.skip(s.len() - rest.len()));
        assert forall|k: int| 0 <= k < s.len() - rest.len() implies is_space(#[trigger] s[k]) by {
            if k > 0 {
                assert(s.skip(1)[k - 1] == s[k]);
            }
        }
    } else {
        assert(s.skip(0) == s);
    }
}

/// Trailing white space is all that goes from the end.
pub proof fn lemma_trimmed_end(s: Seq<char>)
    ensures
        ({
            let rest = trimmed_end(s);
            &&& rest.len() <= s.len()
            &&& rest == s.take(rest.len() as int)
            &&& forall|k: int| rest.len() <= k < s.len() ==> is_space(#[trigger] s[k])
            &&& rest.len() > 0 ==> !is_space(rest.last())
        }),
    decreases s.len(),
{
    if s.len() > 0 && is_space(s.last()) {
        lemma_trimmed_end(s.drop_last());
        let rest = trimmed_end(s);
        assert(s.drop_last().take(rest.len() as int) == s.take(rest.len() as int));
        assert forall|k: int| rest.len() <= k < s.len() implies is_space(#[trigger] s[k]) by {
            if k < s.len() - 1 {
                assert(s.drop_last()[k] == s[k]);
            }
        }
    } else {
        assert(s.take(s.len() as int) == s);
    }
}

/// Trimming a text once is enough, and what it leaves neither begins nor ends in white space.
pub proof fn law_trimmed(s: Seq<char>)
    ensures
        trimmed(trimmed(s)) == trimmed(s),
        trimmed(s).len() > 0 ==> !is_space(trimmed(s)[0]) && !is_space(trimmed(s).last()),
{
    lemma_trimmed_start(s);
    lemma_trimmed_end(trimmed_start(s));
}

/// Where the characters of a text are in its pieces: all but the separators, and no others.
pub proof fn law_pieces(s: Seq<char>, sep: char)
    ensures
        joined(pieces(s, sep), seq![sep]) == s,
        forall|i: int|
            0 <= i < pieces(s, sep).len() ==> !(#[trigger] pieces(s, sep)[i]).contains(sep),
    decreases s.len(),
{
    lemma_pieces_nonempty(s, sep);
    if s.len() == 0 {
    } else {
        let start = s.drop_last();
        let before = pieces(start, sep);
        let all = pieces(s, sep);
        law_pieces(start, sep);
        lemma_pieces_nonempty(start, sep);
        assert(s == start.push(s.last()));
        if s.last() == sep {
            assert(all.drop_last() == before);
            assert(joined(all, seq![sep]) == joined(before, seq![sep]) + seq![sep]
                + Seq::<char>::empty());
        } else {
            assert(all.drop_last() == before.drop_last());
            assert(all.last() == before.last().push(s.last()));
            assert forall|i: int| 0 <= i < all.len() implies !(#[trigger] all[i]).contains(sep) by {
                assert(!before[i].contains(sep));
                if i == all.len() - 1 {
                    assert forall|k: int| 0 <= k < all[i].len() implies all[i][k] != sep by {
                        if k < before[i].len() {
                            assert(before[i][k] == all[i][k]);
                            assert(before[i].contains(before[i][k]));
                        }
                    }
                }
            }
            if all.len() == 1 {
                assert(joined(all, seq![sep]) == s);
            } else {
                assert(joined(all, seq![sep]) == joined(before.drop_last(), seq![sep]) + seq![sep]
                    + before.last().push(s.last()));
                assert(joined(all, seq![sep]) == s);
            }
        }
    }
}

/// Plain text after a text goes to its last piece.
pub proof fn lemma_pieces_append(s: Seq<char>, plain: Seq<char>, sep: char)
    requires
        !plain.contains(sep),
    ensures
        pieces(s + plain, sep) == pieces(s, sep).update(
            pieces(s, sep).len() - 1,
            pieces(s, sep).last() + plain,
        ),
    decreases plain.len(),
{
    lemma_pieces_nonempty(s, sep);
    let before = pieces(s, sep);
    if plain.len() == 0 {
        assert(s + plain == s);
        assert(before.last() + plain == before.last());
    } else {
        let start = plain.drop_last();
        assert forall|k: int| 0 <= k < start.len() implies start[k] != sep by {
            assert(plain.contains(plain[k]));
        }
        lemma_pieces_append(s, start, sep);
        assert((s + plain).drop_last() == s + start);
        assert((s + plain).last() == plain.last());
        assert(plain.contains(plain[plain.len() - 1]));
        assert(before.last() + plain == (before.last() + start).push(plain.last()));
    }
}

/// Pieces that hold no separator are found again when the text is cut that they were joined to.
pub proof fn law_joined_cut_again(list: Seq<Seq<char>>, sep: char)
    requires
        list.len() > 0,
        forall|i: int| 0 <= i < list.len() ==> !(#[trigger] list[i]).contains(sep),
    ensures
        pieces(joined(list, seq![sep]), sep) == list,
    decreases list.len(),
{
    let last = list.last();
    assert(!list[list.len() - 1].contains(sep));
    if list.len() == 1 {
        lemma_pieces_append(Seq::empty(), last, sep);
        assert(Seq::<char>::empty() + last == last);
        assert(pieces(Seq::<char>::empty(), sep) == seq![Seq::<char>::empty()]);
        assert(pieces(last, sep) == list);
    } else {
        let start = list.drop_last();
        let head = joined(start, seq![sep]);
        assert forall|i: int| 0 <= i < start.len() implies !(#[trigger] start[i]).contains(sep) by {
            assert(start[i] == list[i]);
        }
        law_joined_cut_again(start, sep);
        let ended = head + seq![sep];
        assert(ended.drop_last() == head);
        assert(pieces(ended, sep) == start.push(Seq::empty()));
        lemma_pieces_append(ended, last, sep);
        assert(Seq::<char>::empty() + last == last);
        assert(pieces(ended + last, sep) == list);
    }
}

} // verus!
