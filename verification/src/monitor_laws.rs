//! What holds of the monitors that workspaces are shown on, and of those in floating mode.

use vstd::prelude::*;

use crate::bar::{
    group_args, groups_args, head_args, item_before, item_name, label_args, look_of, monitor_of,
    monitor_on_line, monitors_counted, move_args, names_floating, pill_args, space_args, space_name,
    tail_args, Look, Replies,
};
use crate::number::{decimal, is_digit, law_decimal_read_back, lemma_decimal_digits, natural};
use crate::text::{
    is_space, joined, law_joined_cut_again, law_pieces, law_trimmed, lines_of, pieces, trimmed,
    without_cr,
};
use crate::text_laws::{
    law_one_piece, law_separator_parts, law_trimmed_away, law_trimmed_inside,
};
use crate::windows::Group;

verus! {

/// The reply that gives the number of monitors is read with white space around it or without, up
/// to what a machine word holds; any other reply, and none, stands for one monitor.
pub proof fn law_monitors_counted(n: nat, before: Seq<char>, after: Seq<char>, other: Seq<char>)
    requires
        forall|k: int| 0 <= k < before.len() ==> is_space(#[trigger] before[k]),
        forall|k: int| 0 <= k < after.len() ==> is_space(#[trigger] after[k]),
    ensures
        n <= usize::MAX ==> monitors_counted(Some(before + decimal(n) + after)) == n,
        n > usize::MAX ==> monitors_counted(Some(before + decimal(n) + after)) == 1,
        natural(trimmed(other)) is None ==> monitors_counted(Some(other)) == 1,
        monitors_counted(None) == 1,
{
    lemma_decimal_digits(n);
    law_decimal_read_back(n);
    let digits = decimal(n);
    assert(is_digit(digits[0]) && is_digit(digits[digits.len() - 1]));
    law_trimmed_inside(before, digits, after);
}

/// What a line says of the monitor of a workspace.
proof fn lemma_monitor_on_line(space: Seq<char>, monitor: Seq<char>)
    requires
        !space.contains('|'),
        !monitor.contains('|'),
    ensures
        monitor_on_line(space + seq!['|'] + monitor, space) == Some(monitor),
{
    law_separator_parts(space, monitor, '|');
    assert forall|k: int| 0 <= k < space.len() implies #[trigger] space[k] != '|' by {
        assert(space.contains(space[k]));
    }
    assert forall|k: int| 0 <= k < monitor.len() implies #[trigger] monitor[k] != '|' by {
        assert(monitor.contains(monitor[k]));
    }
    law_one_piece(space, '|');
    law_one_piece(monitor, '|');
    assert(seq![space] + seq![monitor] == seq![space, monitor]);
}

/// Whether a line gives a workspace a monitor.
pub open spec fn gives_monitor(line: Seq<char>, space: Seq<char>) -> bool {
    exists|monitor: Seq<char>|
        !monitor.contains('|') && line == #[trigger] (space + seq!['|'] + monitor)
}

/// A line that says anything of the monitor of a workspace names the workspace and the monitor,
/// with a bar between them.
proof fn lemma_line_gives(line: Seq<char>, space: Seq<char>)
    requires
        monitor_on_line(line, space) is Some,
    ensures
        gives_monitor(line, space),
{
    let fields = pieces(line, '|');
    law_pieces(line, '|');
    let monitor = fields[1];
    assert(fields.drop_last() == seq![space]);
    assert(joined(seq![space], seq!['|']) == space);
    assert(joined(fields, seq!['|']) == space + seq!['|'] + monitor);
    assert(!fields[1].contains('|'));
    assert(line == space + seq!['|'] + monitor);
}

/// The monitor of a workspace is the one that the last line with one for it gives, whatever other
/// lines there are.
pub proof fn law_last_monitor_counts(
    before: Seq<Seq<char>>,
    space: Seq<char>,
    monitor: Seq<char>,
    after: Seq<Seq<char>>,
)
    requires
        !space.contains('|'),
        !monitor.contains('|'),
        forall|i: int| 0 <= i < after.len() ==> !gives_monitor(#[trigger] after[i], space),
    ensures
        monitor_of(before.push(space + seq!['|'] + monitor) + after, space) == Some(monitor),
    decreases after.len(),
{
    let line = space + seq!['|'] + monitor;
    let all = before.push(line) + after;
    if after.len() == 0 {
        assert(all == before.push(line));
        lemma_monitor_on_line(space, monitor);
    } else {
        let start = after.drop_last();
        assert forall|i: int| 0 <= i < start.len() implies !gives_monitor(
            #[trigger] start[i],
            space,
        ) by {
            assert(start[i] == after[i]);
        }
        law_last_monitor_counts(before, space, monitor, start);
        assert(all.drop_last() == before.push(line) + start);
        assert(all.last() == after[after.len() - 1]);
        if monitor_on_line(all.last(), space) is Some {
            lemma_line_gives(all.last(), space);
        }
    }
}

/// A workspace that no line gives a monitor has none.
pub proof fn law_no_monitor(list: Seq<Seq<char>>, space: Seq<char>)
    requires
        forall|i: int| 0 <= i < list.len() ==> !gives_monitor(#[trigger] list[i], space),
    ensures
        monitor_of(list, space) is None,
    decreases list.len(),
{
    if list.len() > 0 {
        let start = list.drop_last();
        assert forall|i: int| 0 <= i < start.len() implies !gives_monitor(
            #[trigger] start[i],
            space,
        ) by {
            assert(start[i] == list[i]);
        }
        law_no_monitor(start, space);
        if monitor_on_line(list.last(), space) is Some {
            lemma_line_gives(list.last(), space);
            assert(list.last() == list[list.len() - 1]);
        }
    }
}

/// Whether a word says on which monitor something is shown.
pub open spec fn says_display(word: Seq<char>) -> bool {
    exists|monitor: Seq<char>| word == #[trigger] ("associated_display="@ + monitor)
}

/// Whether no word says on which monitor something is shown.
spec fn no_display(args: Seq<Seq<char>>) -> bool {
    forall|p: int| 0 <= p < args.len() ==> !says_display(#[trigger] args[p])
}

/// A word with another beginning does not say so.
proof fn lemma_other_word(word: Seq<char>)
    requires
        word.len() > 1,
        word[0] != 'a' || word[1] != 's',
    ensures
        !says_display(word),
{
    reveal_strlit("associated_display=");
    if says_display(word) {
        let monitor = choose|monitor: Seq<char>|
            word == #[trigger] ("associated_display="@ + monitor);
        assert(word[0] == 'a' && word[1] == 's');
    }
}

/// Names of items do not say so.
proof fn lemma_names_no_display(sid: nat, idx: nat)
    ensures
        !says_display(space_name(sid)),
        !says_display(item_name(sid, idx)),
        !says_display("ws"@ + decimal(sid) + ".bracket"@),
{
    reveal_strlit("space.");
    reveal_strlit("ws");
    lemma_other_word(space_name(sid));
    lemma_other_word(item_name(sid, idx));
    lemma_other_word("ws"@ + decimal(sid) + ".bracket"@);
}

/// Nothing in how a workspace's own item is set says so.
proof fn lemma_head_no_display(sid: nat, focused: bool)
    ensures
        no_display(head_args(sid, focused)),
{
    let args = head_args(sid, focused);
    lemma_names_no_display(sid, 0);
    reveal_strlit("--set");
    reveal_strlit("label=");
    reveal_strlit("icon.highlight=");
    reveal_strlit("label.highlight=");
    reveal_strlit("background.drawing=off");
    reveal_strlit("icon.padding_right=5");
    reveal_strlit("label.padding_left=0");
    reveal_strlit("label.padding_right=0");
    assert forall|p: int| 0 <= p < args.len() implies !says_display(#[trigger] args[p]) by {
        if p != 1 {
            lemma_other_word(args[p]);
        }
    }
}

/// In what is said of a group only the words on its monitor say so.
proof fn lemma_group_display(sid: nat, idx: nat, group: Group, display: Seq<Seq<char>>)
    ensures
        forall|p: int|
            0 <= p < group_args(sid, idx, group, display).len() && says_display(
                #[trigger] group_args(sid, idx, group, display)[p],
            ) ==> display.contains(group_args(sid, idx, group, display)[p]),
{
    let item = item_name(sid, idx);
    let args = group_args(sid, idx, group, display);
    lemma_names_no_display(sid, idx);
    if idx > 0 {
        lemma_names_no_display(sid, (idx - 1) as nat);
    }
    let label = label_args(item, group);
    assert forall|p: int| 0 <= p < label.len() implies !says_display(#[trigger] label[p]) by {
        reveal_strlit("--add");
        reveal_strlit("item");
        reveal_strlit("left");
        reveal_strlit("--set");
        reveal_strlit("label=");
        reveal_strlit("label.color=");
        reveal_strlit("label.font=sketchybar-app-font:Regular:13.0");
        reveal_strlit("label.y_offset=0");
        reveal_strlit("icon.drawing=off");
        reveal_strlit("label.padding_left=4");
        reveal_strlit("label.padding_right=4");
        if p != 2 && p != 5 {
            lemma_other_word(label[p]);
        }
    }
    let pill = pill_args(group.is_accordion);
    assert forall|p: int| 0 <= p < pill.len() implies !says_display(#[trigger] pill[p]) by {
        reveal_strlit("background.drawing=on");
        reveal_strlit("background.drawing=off");
        reveal_strlit("background.color=0xff45475a");
        reveal_strlit("background.corner_radius=8");
        reveal_strlit("background.border_width=0");
        reveal_strlit("background.height=26");
        reveal_strlit("background.padding_left=2");
        reveal_strlit("background.padding_right=2");
        lemma_other_word(pill[p]);
    }
    let placing = move_args(item, item_before(sid, idx));
    assert forall|p: int| 0 <= p < placing.len() implies !says_display(#[trigger] placing[p]) by {
        reveal_strlit("--move");
        reveal_strlit("after");
        if p == 0 || p == 2 {
            lemma_other_word(placing[p]);
        }
    }
    assert forall|p: int| 0 <= p < args.len() && says_display(
        #[trigger] args[p],
    ) implies display.contains(args[p]) by {
        let a = label.len() as int;
        let b = a + pill.len();
        let c = b + display.len();
        if p < a {
            assert(args[p] == label[p]);
        } else if p < b {
            assert(args[p] == pill[p - a]);
        } else if p < c {
            assert(args[p] == display[p - b]);
        } else {
            assert(args[p] == placing[p - c]);
        }
    }
}

/// In what is said of the first `n` groups only the words on their monitor say so.
proof fn lemma_groups_display(sid: nat, n: nat, look: Look)
    ensures
        forall|p: int|
            0 <= p < groups_args(sid, n, look).len() && says_display(
                #[trigger] groups_args(sid, n, look)[p],
            ) ==> look.display.contains(groups_args(sid, n, look)[p]),
    decreases n,
{
    if n > 0 {
        let m = (n - 1) as nat;
        let start = groups_args(sid, m, look);
        let last = group_args(sid, m, look.groups[n - 1], look.display);
        let args = groups_args(sid, n, look);
        lemma_groups_display(sid, m, look);
        lemma_group_display(sid, m, look.groups[n - 1], look.display);
        assert forall|p: int| 0 <= p < args.len() && says_display(
            #[trigger] args[p],
        ) implies look.display.contains(args[p]) by {
            if p < start.len() {
                assert(args[p] == start[p]);
            } else {
                assert(args[p] == last[p - start.len()]);
            }
        }
    }
}

/// Nothing in how the background of a workspace is drawn says so.
proof fn lemma_tail_no_display(sid: nat, look: Look)
    ensures
        no_display(tail_args(sid, look)),
{
    let args = tail_args(sid, look);
    lemma_names_no_display(sid, 0);
    reveal_strlit("--add");
    reveal_strlit("--set");
    reveal_strlit("--remove");
    reveal_strlit("bracket");
    reveal_strlit("background.color=");
    reveal_strlit("background.border_color=");
    reveal_strlit("background.border_width=");
    reveal_strlit("background.corner_radius=8");
    reveal_strlit("background.height=26");
    reveal_strlit("background.drawing=on");
    let n = look.groups.len() as int;
    assert forall|p: int| 0 <= p < args.len() implies !says_display(#[trigger] args[p]) by {
        if n > 0 {
            if 4 <= p < 4 + n {
                assert(args[p] == item_name(sid, (p - 4) as nat));
                lemma_names_no_display(sid, (p - 4) as nat);
            } else if p != 2 && p != 3 && p != 5 + n {
                lemma_other_word(args[p]);
            }
        } else {
            if p != 1 && p != 7 {
                lemma_other_word(args[p]);
            }
        }
    }
}

/// All that is said of a workspace's monitor, of its own item and of the items of its groups, is
/// what is to be said of it.
proof fn lemma_space_display(sid: nat, look: Look)
    ensures
        forall|p: int|
            0 <= p < space_args(sid, look).len() && says_display(
                #[trigger] space_args(sid, look)[p],
            ) ==> look.display.contains(space_args(sid, look)[p]),
{
    let head = head_args(sid, look.focused);
    let groups = groups_args(sid, look.groups.len(), look);
    let tail = tail_args(sid, look);
    let args = space_args(sid, look);
    lemma_head_no_display(sid, look.focused);
    lemma_groups_display(sid, look.groups.len(), look);
    lemma_tail_no_display(sid, look);
    let a = head.len() as int;
    let b = a + look.display.len();
    let c = b + groups.len();
    assert forall|p: int| 0 <= p < args.len() && says_display(
        #[trigger] args[p],
    ) implies look.display.contains(args[p]) by {
        if p < a {
            assert(args[p] == head[p]);
        } else if p < b {
            assert(args[p] == look.display[p - a]);
        } else if p < c {
            assert(args[p] == groups[p - b]);
        } else {
            assert(args[p] == tail[p - c]);
        }
    }
}

/// Where there is more than one monitor, a workspace and its items are shown on the monitor that
/// the last line for the workspace gives, and on no other.
pub proof fn law_shown_on_its_monitor(
    sid: nat,
    focused_workspace: Seq<char>,
    icons: Map<Seq<char>, Seq<char>>,
    replies: Replies,
    before: Seq<Seq<char>>,
    monitor: Seq<char>,
    after: Seq<Seq<char>>,
    idx: int,
)
    requires
        monitors_counted(replies.monitor_count) > 1,
        lines_of(replies.monitors) == before.push(decimal(sid) + seq!['|'] + monitor) + after,
        !monitor.contains('|'),
        forall|i: int| 0 <= i < after.len() ==> !gives_monitor(#[trigger] after[i], decimal(sid)),
    ensures
        ({
            let look = look_of(sid, focused_workspace, icons, replies);
            let args = space_args(sid, look);
            let word = "associated_display="@ + monitor;
            &&& look.display == seq![word]
            &&& args[9] == word
            &&& 0 <= idx < look.groups.len() ==> group_args(
                sid,
                idx as nat,
                look.groups[idx],
                look.display,
            ).contains(word)
            &&& forall|p: int|
                0 <= p < args.len() && says_display(#[trigger] args[p]) ==> args[p] == word
        }),
{
    let look = look_of(sid, focused_workspace, icons, replies);
    let word = "associated_display="@ + monitor;
    lemma_decimal_digits(sid);
    assert(!decimal(sid).contains('|')) by {
        assert forall|k: int| 0 <= k < decimal(sid).len() implies decimal(sid)[k] != '|' by {
            assert(is_digit(decimal(sid)[k]));
        }
    }
    law_last_monitor_counts(before, decimal(sid), monitor, after);
    lemma_space_display(sid, look);
    assert(look.display == seq![word]);
    assert(look.display[0] == word);
    assert(space_args(sid, look)[9] == look.display[0]);
    if 0 <= idx < look.groups.len() {
        let group = look.groups[idx];
        let said = group_args(sid, idx as nat, group, look.display);
        let at = label_args(item_name(sid, idx as nat), group).len() + pill_args(
            group.is_accordion,
        ).len();
        assert(said[at as int] == word);
    }
}

/// Where there is more than one monitor, nothing is said of the monitor of a workspace that no
/// line gives one.
pub proof fn law_shown_on_no_monitor(
    sid: nat,
    focused_workspace: Seq<char>,
    icons: Map<Seq<char>, Seq<char>>,
    replies: Replies,
    p: int,
)
    requires
        monitors_counted(replies.monitor_count) > 1,
        forall|i: int|
            0 <= i < lines_of(replies.monitors).len() ==> !gives_monitor(
                #[trigger] lines_of(replies.monitors)[i],
                decimal(sid),
            ),
        0 <= p < space_args(sid, look_of(sid, focused_workspace, icons, replies)).len(),
    ensures
        !says_display(space_args(sid, look_of(sid, focused_workspace, icons, replies))[p]),
{
    law_no_monitor(lines_of(replies.monitors), decimal(sid));
    lemma_space_display(sid, look_of(sid, focused_workspace, icons, replies));
}

/// Where there is one monitor, or none, every workspace and its items are shown on the first,
/// whatever the lines say.
pub proof fn law_shown_on_only_monitor(
    sid: nat,
    focused_workspace: Seq<char>,
    icons: Map<Seq<char>, Seq<char>>,
    replies: Replies,
    idx: int,
)
    requires
        monitors_counted(replies.monitor_count) <= 1,
    ensures
        ({
            let look = look_of(sid, focused_workspace, icons, replies);
            let args = space_args(sid, look);
            let word = "associated_display=1"@;
            &&& look.display == seq![word]
            &&& args[9] == word
            &&& 0 <= idx < look.groups.len() ==> group_args(
                sid,
                idx as nat,
                look.groups[idx],
                look.display,
            ).contains(word)
            &&& forall|p: int|
                0 <= p < args.len() && says_display(#[trigger] args[p]) ==> args[p] == word
        }),
{
    let look = look_of(sid, focused_workspace, icons, replies);
    let word = "associated_display=1"@;
    lemma_space_display(sid, look);
    assert(look.display == seq![word]);
    assert(look.display[0] == word);
    assert(space_args(sid, look)[9] == look.display[0]);
    if 0 <= idx < look.groups.len() {
        let group = look.groups[idx];
        let said = group_args(sid, idx as nat, group, look.display);
        let at = label_args(item_name(sid, idx as nat), group).len() + pill_args(
            group.is_accordion,
        ).len();
        assert(said[at as int] == word);
    }
}

/// A workspace is in floating mode just where some line of the file, whichever it is, is its name,
/// with white space around it or without.
pub proof fn law_floating_named(lines: Seq<Seq<char>>, space: Seq<char>)
    requires
        lines.len() > 0,
        forall|i: int| 0 <= i < lines.len() ==> !(#[trigger] lines[i]).contains('\n'),
        space.len() > 0,
    ensures
        names_floating(Some(joined(lines, seq!['\n'])), space) <==> exists|i: int|
            0 <= i < lines.len() && trimmed(#[trigger] lines[i]) == space,
{
    let file = joined(lines, seq!['\n']);
    let content = Some(file);
    law_joined_cut_again(lines, '\n');
    let all = lines_of(file);
    let last = lines.len() - 1;
    assert forall|i: int| 0 <= i < all.len() implies trimmed(#[trigger] all[i]) == trimmed(
        lines[i],
    ) by {
        if i < last {
            assert(all[i] == without_cr(lines.drop_last()[i]));
            lemma_cr_trimmed(lines[i]);
        }
    }
    if lines.last().len() == 0 {
        law_trimmed_inside(Seq::empty(), Seq::empty(), Seq::empty());
        assert(Seq::<char>::empty() + Seq::<char>::empty() + Seq::<char>::empty()
            == lines.last());
        assert(trimmed(lines.last()).len() == 0);
    }
    if exists|i: int| 0 <= i < lines.len() && trimmed(#[trigger] lines[i]) == space {
        let i = choose|i: int| 0 <= i < lines.len() && trimmed(#[trigger] lines[i]) == space;
        assert(i < all.len());
        assert(trimmed(lines_of(content->0)[i]) == space);
    }
    if names_floating(content, space) {
        let i = choose|i: int|
            0 <= i < lines_of(file).len() && trimmed(#[trigger] lines_of(file)[i]) == space;
        assert(trimmed(all[i]) == trimmed(lines[i]));
    }
}

/// A carriage return at the end goes with the white space.
proof fn lemma_cr_trimmed(s: Seq<char>)
    ensures
        trimmed(without_cr(s)) == trimmed(s),
{
    if s.len() > 0 && s.last() == '\r' {
        let inner = s.drop_last();
        law_trimmed_away(inner);
        let (before, after) = choose|before: Seq<char>, after: Seq<char>|
            {
                &&& inner == #[trigger] (before + trimmed(inner) + after)
                &&& forall|k: int| 0 <= k < before.len() ==> is_space(#[trigger] before[k])
                &&& forall|k: int| 0 <= k < after.len() ==> is_space(#[trigger] after[k])
            };
        law_trimmed(inner);
        law_trimmed_inside(before, trimmed(inner), after.push('\r'));
        assert(s == inner.push('\r'));
        assert((before + trimmed(inner) + after).push('\r') == before + trimmed(inner) + after.push(
            '\r',
        ));
    }
}

/// Without a file no workspace is in floating mode, and none without a name ever is.
pub proof fn law_nothing_floats(space: Seq<char>, file: Option<Seq<char>>)
    ensures
        !names_floating(None, space),
        !names_floating(file, Seq::empty()),
{
}

} // verus!
