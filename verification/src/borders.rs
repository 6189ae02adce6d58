//! The border around the focused window, coloured by how the window is laid out.

use vstd::prelude::*;

use crate::command::{spawn_bash_and_reap, Command, Invocation};
use crate::state::{HelperState, MAX_CHILD_PROCS};
use crate::text::{
    chain, contains, has_part, joined, law_joined_cut_again, lemma_pieces_nonempty, lines, lines_of,
    list_of, pieces, same, slices, split, text_or_empty, texts,
};
use crate::text_laws::{law_found_part_stands, law_last_line, law_line_ends, law_part_found};

verus! {

/// What to ask AeroSpace before the border is coloured.
pub open spec fn borders_question() -> Seq<Seq<char>> {
    seq![
        "list-windows"@,
        "--focused"@,
        "--format"@,
        "%{window-layout}|%{window-is-fullscreen}"@,
    ]
}

/// What to ask AeroSpace before the border is coloured.
pub fn borders_query() -> (args: Vec<String>)
    ensures
        texts(args@) == borders_question(),
{
    let args = list_of(
        &["list-windows", "--focused", "--format", "%{window-layout}|%{window-is-fullscreen}"],
    );
    assert(texts(args@) == borders_question());
    args
}

/// The fields between bars on the first line of a reply.
pub open spec fn first_fields(reply: Seq<char>) -> Seq<Seq<char>> {
    let all = lines_of(reply);
    pieces(
        if all.len() > 0 {
            all[0]
        } else {
            Seq::empty()
        },
        '|',
    )
}

/// The colour for the focused window: one for full screen, one for accordions, one for floating
/// windows, and one for all others.
pub open spec fn border_color(layout: Seq<char>, fullscreen: bool) -> Seq<char> {
    if fullscreen {
        "0xff89b4fa"@
    } else if has_part(layout, "accordion"@) {
        "0xffa6e3a1"@
    } else if layout == "floating"@ {
        "0xffcba6f7"@
    } else {
        "glow(0xffb4befe)"@
    }
}

/// The colour that a reply calls for.
pub open spec fn reply_color(reply: Seq<char>) -> Seq<char> {
    let fields = first_fields(reply);
    border_color(fields[0], fields.len() > 1 && fields[1] == "true"@)
}

/// The script that colours the border.
pub open spec fn borders_script(color: Seq<char>) -> Seq<char> {
    "/opt/homebrew/bin/borders active_color=\""@ + color + "\" inactive_color=\"0xff11111b\""@
}

/// The colour that a reply calls for.
pub fn active_color(reply: &str) -> (color: &'static str)
    ensures
        color@ == reply_color(reply@),
{
    let all = lines(reply);
    let first = if all.len() > 0 {
        assert(slices(all@)[0] == all[0]@);
        all[0]
    } else {
        ""
    };
    proof {
        reveal_strlit("");
        assert(all.len() == 0 ==> first@ == Seq::<char>::empty());
        lemma_pieces_nonempty(first@, '|');
    }
    let fields = split(first, '|');
    assert(slices(fields@) == first_fields(reply@));
    assert(slices(fields@)[0] == fields[0]@);
    let layout = fields[0];
    let fullscreen = if fields.len() > 1 {
        assert(slices(fields@)[1] == fields[1]@);
        same(fields[1], "true")
    } else {
        false
    };
    if fullscreen {
        "0xff89b4fa"
    } else if contains(layout, "accordion") {
        "0xffa6e3a1"
    } else if same(layout, "floating") {
        "0xffcba6f7"
    } else {
        "glow(0xffb4befe)"
    }
}

/// Decides how to colour the border, from what AeroSpace replied, if it did. Nothing is started
/// where as many child processes run as may.
pub fn update_borders(state_info: Option<String>, state: &HelperState) -> (started: Option<
    Invocation,
>)
    ensures
        started is Some <==> state@.child_count < MAX_CHILD_PROCS,
        started matches Some(started) ==> started@ == (Command {
            program: "/bin/bash"@,
            args: seq![
                "-c"@,
                borders_script(reply_color(text_or_empty(state_info))),
            ],
        }),
{
    let info = match state_info {
        Some(info) => info,
        None => String::new(),
    };
    let script = chain(
        "/opt/homebrew/bin/borders active_color=\"",
        chain(active_color(info.as_str()), "\" inactive_color=\"0xff11111b\"").as_str(),
    );
    assert(script@ == borders_script(reply_color(info@)));
    spawn_bash_and_reap(script.as_str(), state)
}

/// What the first line of a reply is cut into: the fields that bars part on it, whatever lines
/// follow.
proof fn lemma_first_fields(fields: Seq<Seq<char>>, rest: Option<Seq<char>>)
    requires
        fields.len() > 0,
        forall|i: int|
            0 <= i < fields.len() ==> !(#[trigger] fields[i]).contains('|') && !fields[i].contains(
                '\n',
            ),
        rest is Some ==> fields.last().len() == 0 || fields.last().last() != '\r',
    ensures
        first_fields(
            match rest {
                Some(rest) => joined(fields, seq!['|']) + seq!['\n'] + rest,
                None => joined(fields, seq!['|']),
            },
        ) == fields,
{
    let line = joined(fields, seq!['|']);
    law_joined_cut_again(fields, '|');
    lemma_joined_chars(fields);
    match rest {
        Some(rest) => {
            lemma_joined_last(fields);
            law_line_ends(line, rest);
            assert((seq![line] + lines_of(rest))[0] == line);
        },
        None => {
            law_last_line(line);
        },
    }
}

/// Fields without a line feed make a line without one.
proof fn lemma_joined_chars(fields: Seq<Seq<char>>)
    requires
        forall|i: int| 0 <= i < fields.len() ==> !(#[trigger] fields[i]).contains('\n'),
    ensures
        forall|k: int|
            0 <= k < joined(fields, seq!['|']).len() ==> #[trigger] joined(fields, seq!['|'])[k]
                != '\n',
    decreases fields.len(),
{
    if fields.len() > 0 {
        let start = fields.drop_last();
        let last = fields.last();
        assert forall|i: int| 0 <= i < start.len() implies !(#[trigger] start[i]).contains(
            '\n',
        ) by {
            assert(start[i] == fields[i]);
        }
        lemma_joined_chars(start);
        assert(!fields[fields.len() - 1].contains('\n'));
        assert forall|k: int| 0 <= k < last.len() implies last[k] != '\n' by {
            assert(last.contains(last[k]));
        }
        let whole = joined(fields, seq!['|']);
        if fields.len() > 1 {
            let head = joined(start, seq!['|']);
            assert forall|k: int| 0 <= k < whole.len() implies #[trigger] whole[k] != '\n' by {
                if k < head.len() {
                    assert(whole[k] == head[k]);
                } else if k > head.len() {
                    assert(whole[k] == last[k - head.len() - 1]);
                }
            }
        }
    }
}

/// A line ends as the last of its fields does, or in a bar.
proof fn lemma_joined_last(fields: Seq<Seq<char>>)
    requires
        fields.len() > 0,
        fields.last().len() == 0 || fields.last().last() != '\r',
    ensures
        joined(fields, seq!['|']).len() == 0 || joined(fields, seq!['|']).last() != '\r',
{
    let whole = joined(fields, seq!['|']);
    if fields.len() > 1 {
        if fields.last().len() == 0 {
            assert(whole.last() == '|');
        } else {
            assert(whole.last() == fields.last().last());
        }
    }
}

/// The colour goes by the first line of a reply, whatever lines follow, and there by the first two
/// of the fields that bars part: blue for full screen, whatever the layout; else green for a layout
/// with `accordion` anywhere in it, mauve for the layout `floating`, and a lavender glow for every
/// other.
pub proof fn law_color_of_layout(fields: Seq<Seq<char>>, rest: Option<Seq<char>>)
    requires
        fields.len() > 0,
        forall|i: int|
            0 <= i < fields.len() ==> !(#[trigger] fields[i]).contains('|') && !fields[i].contains(
                '\n',
            ),
        rest is Some ==> fields.last().len() == 0 || fields.last().last() != '\r',
    ensures
        ({
            let color = reply_color(
                match rest {
                    Some(rest) => joined(fields, seq!['|']) + seq!['\n'] + rest,
                    None => joined(fields, seq!['|']),
                },
            );
            let fullscreen = fields.len() > 1 && fields[1] == "true"@;
            let accordion = exists|a: Seq<char>, b: Seq<char>|
                fields[0] == #[trigger] (a + "accordion"@ + b);
            &&& fullscreen ==> color == "0xff89b4fa"@
            &&& !fullscreen && accordion ==> color == "0xffa6e3a1"@
            &&& !fullscreen && fields[0] == "floating"@ ==> color == "0xffcba6f7"@
            &&& !fullscreen && !accordion && fields[0] != "floating"@ ==> color
                == "glow(0xffb4befe)"@
        }),
{
    lemma_first_fields(fields, rest);
    let layout = fields[0];
    if exists|a: Seq<char>, b: Seq<char>| layout == #[trigger] (a + "accordion"@ + b) {
        let (a, b) = choose|a: Seq<char>, b: Seq<char>| layout == #[trigger] (a + "accordion"@ + b);
        law_part_found(a, "accordion"@, b);
    }
    if has_part(layout, "accordion"@) {
        law_found_part_stands(layout, "accordion"@);
    }
    if layout == "floating"@ {
        reveal_strlit("floating");
        reveal_strlit("accordion");
        assert("floating"@.len() < "accordion"@.len());
    }
}

/// A window in an accordion, of whatever sort, that is not full screen has a green border.
pub proof fn law_accordion_is_green(a: Seq<char>, b: Seq<char>)
    requires
        !a.contains('|') && !a.contains('\n'),
        !b.contains('|') && !b.contains('\n'),
    ensures
        reply_color(a + "accordion"@ + b + "|false"@) == "0xffa6e3a1"@,
{
    reveal_strlit("accordion");
    reveal_strlit("|false");
    reveal_strlit("false");
    reveal_strlit("true");
    let layout = a + "accordion"@ + b;
    let fields = seq![layout, "false"@];
    assert(fields.drop_last() == seq![layout]);
    assert(joined(seq![layout], seq!['|']) == layout);
    assert(joined(fields, seq!['|']) == layout + seq!['|'] + "false"@);
    assert(joined(fields, seq!['|']) == layout + "|false"@);
    assert forall|k: int| 0 <= k < layout.len() implies layout[k] != '|' && layout[k] != '\n' by {
        if k < a.len() {
            assert(layout[k] == a[k]);
            assert(a.contains(a[k]));
        } else if k >= a.len() + 9 {
            assert(layout[k] == b[k - a.len() - 9]);
            assert(b.contains(b[k - a.len() - 9]));
        } else {
            assert(layout[k] == "accordion"@[k - a.len()]);
        }
    }
    assert(layout == a + "accordion"@ + b);
    assert(fields[1] != "true"@);
    law_color_of_layout(fields, None);
}

/// The script gives the focused window the colour that the reply calls for, and the others a dark
/// one.
pub proof fn law_script_gives_color(color: Seq<char>)
    ensures
        borders_script(color).len() == 69 + color.len(),
        borders_script(color).take(40) == "/opt/homebrew/bin/borders active_color=\""@,
        borders_script(color).subrange(40, 40 + color.len() as int) == color,
        borders_script(color).skip(40 + color.len() as int) == "\" inactive_color=\"0xff11111b\""@,
{
    reveal_strlit("/opt/homebrew/bin/borders active_color=\"");
    reveal_strlit("\" inactive_color=\"0xff11111b\"");
    let start = "/opt/homebrew/bin/borders active_color=\""@;
    let end = "\" inactive_color=\"0xff11111b\""@;
    assert(start.len() == 40);
    assert(end.len() == 29);
    let script = borders_script(color);
    assert(script.take(40) == start);
    assert(script.subrange(40, 40 + color.len() as int) == color);
    assert(script.skip(40 + color.len() as int) == end);
}

} // verus!
